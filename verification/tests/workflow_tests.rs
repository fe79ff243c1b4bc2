use mealplan::date::{Date, Weekday};
use mealplan::errors::PlanError;
use mealplan::model::{Day, MealPlan, MealType};
use mealplan::workflow::{add_meal, edit_meal, remove_meal, replace_meal, sync_direction,
    SyncDirection};

fn week_start() -> Date {
    Date { year: 2023, month: 1, day: 2 }
}

#[test]
fn test_add_meal() {
    let mut meal_plan = MealPlan::new(week_start());

    // Test adding a valid meal
    assert!(add_meal(
        &mut meal_plan,
        "Dinner".to_string(),
        "Monday".to_string(),
        "John".to_string(),
        "Pasta".to_string()
    )
    .is_ok());

    // Test adding an invalid meal type
    assert!(add_meal(
        &mut meal_plan,
        "Brunch".to_string(),
        "Tuesday".to_string(),
        "Alice".to_string(),
        "Eggs".to_string()
    )
    .is_err());

    // Test adding a meal with an invalid day
    assert!(add_meal(
        &mut meal_plan,
        "Lunch".to_string(),
        "Someday".to_string(),
        "Bob".to_string(),
        "Sandwich".to_string()
    )
    .is_err());

    // Test adding a duplicate meal: without a confirmed replacement it fails
    assert!(add_meal(
        &mut meal_plan,
        "Dinner".to_string(),
        "Monday".to_string(),
        "Jane".to_string(),
        "Pizza".to_string()
    )
    .is_err());
}

#[test]
fn test_edit_meal() {
    let mut meal_plan = MealPlan::new(week_start());

    // Add a meal first
    add_meal(
        &mut meal_plan,
        "Dinner".to_string(),
        "Monday".to_string(),
        "John".to_string(),
        "Pasta".to_string(),
    )
    .unwrap();

    // Test editing a non-existent meal
    assert!(edit_meal(
        &mut meal_plan,
        "Breakfast".to_string(),
        "Monday".to_string(),
        Some("Alice".to_string()),
        None
    )
    .is_err());

    // Test editing with invalid meal type
    assert!(edit_meal(
        &mut meal_plan,
        "Brunch".to_string(),
        "Monday".to_string(),
        Some("Alice".to_string()),
        None
    )
    .is_err());

    // Test editing with invalid day
    assert!(edit_meal(
        &mut meal_plan,
        "Dinner".to_string(),
        "Someday".to_string(),
        Some("Alice".to_string()),
        None
    )
    .is_err());

    // Test successful edit with provided values
    assert!(edit_meal(
        &mut meal_plan,
        "Dinner".to_string(),
        "Monday".to_string(),
        Some("Alice".to_string()),
        Some("Updated pasta dish".to_string())
    )
    .is_ok());

    // Verify the meal was updated
    let updated_meal = meal_plan
        .find_meal(&MealType::Dinner, &Day::Weekday(Weekday::Mon))
        .unwrap();
    assert_eq!(updated_meal.cook, "Alice");
    assert_eq!(updated_meal.description, "Updated pasta dish");
}

#[test]
fn test_remove_meal() {
    let mut meal_plan = MealPlan::new(week_start());

    // Test removing a non-existent meal
    assert!(remove_meal(&mut meal_plan, "Breakfast".to_string(), "Monday".to_string(), false)
        .is_err());

    // Test removing with invalid meal type
    assert!(remove_meal(&mut meal_plan, "Brunch".to_string(), "Monday".to_string(), false)
        .is_err());

    // Test removing with invalid day
    assert!(remove_meal(&mut meal_plan, "Dinner".to_string(), "Someday".to_string(), false)
        .is_err());

    // Add a meal first
    add_meal(
        &mut meal_plan,
        "Dinner".to_string(),
        "Monday".to_string(),
        "John".to_string(),
        "Pasta".to_string(),
    )
    .unwrap();

    // Removing the last remaining meal needs explicit confirmation
    assert!(remove_meal(&mut meal_plan, "Dinner".to_string(), "Monday".to_string(), true)
        .is_ok());

    // Verify the meal was removed
    assert!(meal_plan
        .find_meal(&MealType::Dinner, &Day::Weekday(Weekday::Mon))
        .is_none());

    // Add multiple meals to test the last meal confirmation
    add_meal(
        &mut meal_plan,
        "Breakfast".to_string(),
        "Monday".to_string(),
        "Alice".to_string(),
        "Cereal".to_string(),
    )
    .unwrap();
    add_meal(
        &mut meal_plan,
        "Lunch".to_string(),
        "Monday".to_string(),
        "Bob".to_string(),
        "Sandwich".to_string(),
    )
    .unwrap();

    // Remove one meal: succeeds without confirmation (not the last meal)
    assert!(remove_meal(&mut meal_plan, "Breakfast".to_string(), "Monday".to_string(), false)
        .is_ok());

    // Verify only one meal remains
    assert_eq!(meal_plan.meals.len(), 1);

    // Removing the last meal goes through when confirmed
    assert!(remove_meal(&mut meal_plan, "Lunch".to_string(), "Monday".to_string(), true)
        .is_ok());

    // Verify all meals are removed
    assert_eq!(meal_plan.meals.len(), 0);
}

#[test]
fn test_remove_last_meal_requires_confirmation() {
    let mut meal_plan = MealPlan::new(week_start());
    add_meal(
        &mut meal_plan,
        "Dinner".to_string(),
        "Monday".to_string(),
        "John".to_string(),
        "Pasta".to_string(),
    )
    .unwrap();

    // Declining the confirmation leaves the plan unchanged.
    let r = remove_meal(&mut meal_plan, "Dinner".to_string(), "Monday".to_string(), false);
    assert_eq!(r.unwrap_err(), PlanError::UserCancelled);
    assert_eq!(meal_plan.meals.len(), 1);
    assert!(meal_plan
        .find_meal(&MealType::Dinner, &Day::Weekday(Weekday::Mon))
        .is_some());

    // Confirming empties the plan.
    assert!(remove_meal(&mut meal_plan, "Dinner".to_string(), "Monday".to_string(), true)
        .is_ok());
    assert_eq!(meal_plan.meals.len(), 0);
}

#[test]
fn test_replace_keeps_single_entry() {
    let mut meal_plan = MealPlan::new(week_start());
    add_meal(
        &mut meal_plan,
        "Dinner".to_string(),
        "Monday".to_string(),
        "John".to_string(),
        "Pasta".to_string(),
    )
    .unwrap();

    // The add workflow refuses the duplicate...
    let dup = add_meal(
        &mut meal_plan,
        "Dinner".to_string(),
        "Monday".to_string(),
        "Jane".to_string(),
        "Pizza".to_string(),
    );
    assert!(matches!(dup.unwrap_err(), PlanError::MealAlreadyExists { .. }));

    // ...and the confirmed replacement leaves exactly one entry for the key.
    assert!(replace_meal(
        &mut meal_plan,
        "Dinner".to_string(),
        "Monday".to_string(),
        "Jane".to_string(),
        "Pizza".to_string()
    )
    .is_ok());
    assert_eq!(meal_plan.meals.len(), 1);
    let m = meal_plan
        .find_meal(&MealType::Dinner, &Day::Weekday(Weekday::Mon))
        .unwrap();
    assert_eq!(m.cook, "Jane");
    assert_eq!(m.description, "Pizza");
}

#[test]
fn test_error_handling() {
    // Test handling of invalid inputs
    let mut meal_plan = MealPlan::new(week_start());

    // Invalid meal type
    let result = add_meal(
        &mut meal_plan,
        "InvalidMealType".to_string(),
        "Monday".to_string(),
        "John".to_string(),
        "Test Meal".to_string(),
    );
    assert!(result.is_err());
    assert!(result.unwrap_err().message().contains("Invalid meal type"));

    // Invalid day
    let result = add_meal(
        &mut meal_plan,
        "Dinner".to_string(),
        "InvalidDay".to_string(),
        "John".to_string(),
        "Test Meal".to_string(),
    );
    assert!(result.is_err());
    assert!(result.unwrap_err().message().contains("Invalid day format"));

    // Non-existent meal for edit
    let result = edit_meal(
        &mut meal_plan,
        "Breakfast".to_string(),
        "Monday".to_string(),
        Some("Alice".to_string()),
        None,
    );
    assert!(result.is_err());
    assert!(result.unwrap_err().message().contains("No Breakfast meal found"));

    // Non-existent meal for remove
    let result = remove_meal(&mut meal_plan, "Lunch".to_string(), "Tuesday".to_string(), false);
    assert!(result.is_err());
    assert!(result.unwrap_err().message().contains("No Lunch meal found"));
}

#[test]
fn test_is_yes_answers() {
    assert!(mealplan::workflow::is_yes("y"));
    assert!(mealplan::workflow::is_yes("Y"));
    assert!(mealplan::workflow::is_yes(" y\n"));
    assert!(mealplan::workflow::is_yes("\tY \r\n"));
    assert!(!mealplan::workflow::is_yes("yes"));
    assert!(!mealplan::workflow::is_yes("n"));
    assert!(!mealplan::workflow::is_yes(""));
    assert!(!mealplan::workflow::is_yes("  "));
    // All of Unicode's whitespace is stripped, exactly as str::trim strips it.
    for pad in ["\u{000B}", "\u{000C}", "\u{0085}", "\u{00A0}", "\u{2003}", "\u{2028}",
        "\u{202F}", "\u{3000}"]
    {
        let line = format!("{}y{}", pad, pad);
        assert_eq!(mealplan::workflow::is_yes(&line), line.trim().to_lowercase() == "y");
        assert!(mealplan::workflow::is_yes(&line));
    }
}

#[test]
fn test_sync_direction_choices() {
    // No files at all: nothing to sync.
    assert_eq!(
        sync_direction("auto", false, false, false).unwrap_err(),
        PlanError::StorageReadError
    );
    // An explicit source wins.
    assert_eq!(sync_direction("json", true, true, false).unwrap(), SyncDirection::FromJson);
    assert_eq!(sync_direction("markdown", true, true, true).unwrap(), SyncDirection::FromMarkdown);
    assert_eq!(sync_direction("md", true, true, true).unwrap(), SyncDirection::FromMarkdown);
    // Otherwise whichever file exists, or the newer one.
    assert_eq!(sync_direction("auto", false, true, false).unwrap(), SyncDirection::FromMarkdown);
    assert_eq!(sync_direction("auto", true, false, false).unwrap(), SyncDirection::FromJson);
    assert_eq!(sync_direction("auto", true, true, true).unwrap(), SyncDirection::FromJson);
    assert_eq!(sync_direction("auto", true, true, false).unwrap(), SyncDirection::FromMarkdown);
    // Anything else behaves like auto.
    assert_eq!(sync_direction("whatever", true, true, true).unwrap(), SyncDirection::FromJson);
}
