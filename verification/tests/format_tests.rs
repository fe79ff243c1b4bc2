use mealplan::config::Config;
use mealplan::date::{Date, Weekday};
use mealplan::errors::PlanError;
use mealplan::model::{Day, Meal, MealPlan, MealType};

fn sample_plan() -> MealPlan {
    let week_start = Date { year: 2023, month: 1, day: 2 };
    let mut plan = MealPlan::new(week_start);
    plan.add_meal(Meal::new(
        MealType::Dinner,
        Day::Weekday(Weekday::Mon),
        "John".to_string(),
        "Pasta".to_string(),
    ));
    plan
}

#[test]
fn test_json_serialization() {
    // Create a meal plan
    let week_start = Date { year: 2023, month: 1, day: 2 };
    let mut plan = MealPlan::new(week_start);

    let meal = Meal::new(
        MealType::Breakfast,
        Day::Date(Date { year: 2023, month: 1, day: 3 }),
        "Bob".to_string(),
        "Toast".to_string(),
    );
    plan.add_meal(meal);

    // Serialize and load back
    let json = plan.to_json();
    let loaded_plan = MealPlan::from_json(json.as_str()).unwrap();

    // Verify data
    assert_eq!(loaded_plan.week_start_date, week_start);
    assert_eq!(loaded_plan.meals.len(), 1);
    assert_eq!(loaded_plan.meals[0].cook, "Bob");
}

#[test]
fn test_json_round_trip_all_fields() {
    let mut plan = sample_plan();
    plan.add_meal(Meal::new(
        MealType::Snack,
        Day::Date(Date { year: 2023, month: 1, day: 5 }),
        "A \"quoted\" cook \\ with escapes".to_string(),
        "Line one\nLine two\twith tab".to_string(),
    ));
    let json = plan.to_json();
    let loaded = MealPlan::from_json(json.as_str()).unwrap();
    assert_eq!(loaded.week_start_date, plan.week_start_date);
    assert_eq!(loaded.last_modified, plan.last_modified);
    assert_eq!(loaded.meals.len(), plan.meals.len());
    for (a, b) in loaded.meals.iter().zip(plan.meals.iter()) {
        assert_eq!(a.meal_type, b.meal_type);
        assert_eq!(a.day, b.day);
        assert_eq!(a.cook, b.cook);
        assert_eq!(a.description, b.description);
    }
    // The Day variant survives: a weekday symbol never collapses to a date.
    assert!(matches!(loaded.meals[0].day, Day::Weekday(Weekday::Mon)));
}

#[test]
fn test_json_round_trip_empty_plan() {
    let plan = MealPlan::new(Date { year: 2024, month: 2, day: 26 });
    let loaded = MealPlan::from_json(plan.to_json().as_str()).unwrap();
    assert_eq!(loaded.meals.len(), 0);
    assert_eq!(loaded.week_start_date, plan.week_start_date);
    assert_eq!(loaded.last_modified, plan.last_modified);
}

#[test]
fn test_json_rejects_malformed_text() {
    assert_eq!(MealPlan::from_json("").unwrap_err(), PlanError::StorageReadError);
    assert_eq!(MealPlan::from_json("not json").unwrap_err(), PlanError::StorageReadError);
    assert_eq!(
        MealPlan::from_json("{\"meals\":[],\"week_start_date\":\"2023-13-01\",\"last_modified\":0}")
            .unwrap_err(),
        PlanError::StorageReadError
    );
}

#[test]
fn test_markdown_export() {
    // Create a meal plan
    let week_start = Date { year: 2023, month: 1, day: 2 };
    let mut plan = MealPlan::new(week_start);

    let meal1 = Meal::new(
        MealType::Breakfast,
        Day::Weekday(Weekday::Mon),
        "Charlie".to_string(),
        "Porridge".to_string(),
    );
    plan.add_meal(meal1);

    let meal2 = Meal::new(
        MealType::Dinner,
        Day::Weekday(Weekday::Mon),
        "Diana".to_string(),
        "Stew".to_string(),
    );
    plan.add_meal(meal2);

    let content = plan.to_markdown();
    assert!(content.contains("# Meal Plan for Week of 2023-01-02"));
    assert!(content.contains("## Mon"));
    assert!(content.contains("### Breakfast"));
    assert!(content.contains("- Cook: Charlie"));
    assert!(content.contains("### Dinner"));
    assert!(content.contains("- Cook: Diana"));
}

#[test]
fn test_markdown_grouping_and_order() {
    let mut plan = MealPlan::new(Date { year: 2023, month: 1, day: 2 });
    plan.add_meal(Meal::new(
        MealType::Dinner,
        Day::Weekday(Weekday::Tue),
        "John".to_string(),
        "Pasta".to_string(),
    ));
    plan.add_meal(Meal::new(
        MealType::Lunch,
        Day::Date(Date { year: 2023, month: 1, day: 4 }),
        "Alice".to_string(),
        "Salad".to_string(),
    ));
    let content = plan.to_markdown();
    // Concrete dates come before weekday symbols.
    let date_pos = content.find("## 2023-01-04").unwrap();
    let weekday_pos = content.find("## Tue").unwrap();
    assert!(date_pos < weekday_pos);
    assert!(content.contains("- Description: Pasta"));
    assert!(content.contains("- Description: Salad"));
}

#[test]
fn test_markdown_import_unsupported() {
    let r = MealPlan::from_markdown("# Meal Plan for Week of 2023-01-02");
    assert_eq!(r.unwrap_err(), PlanError::UnsupportedOperation);
}

#[test]
fn test_export_ical() {
    let plan = sample_plan();
    let content = plan.to_ical();
    assert!(content.contains("BEGIN:VCALENDAR"));
    assert!(content.contains("VERSION:2.0"));
    assert!(content.contains("BEGIN:VEVENT"));
    assert!(content.contains("SUMMARY:Dinner: Pasta"));
    assert!(content.contains("DESCRIPTION:Cook: John"));
    assert!(content.contains("END:VEVENT"));
    assert!(content.contains("END:VCALENDAR"));
}

#[test]
fn test_export_ical_event_placement() {
    let plan = sample_plan();
    let content = plan.to_ical();
    // Monday of the week starting 2023-01-02 is that same day; dinner is at 18:00.
    assert!(content.contains("DTSTART:20230102T180000Z"));
    assert!(content.contains("DTEND:20230102T190000Z"));
    // One matched begin/end event block.
    assert_eq!(content.matches("BEGIN:VEVENT").count(), 1);
    assert_eq!(content.matches("END:VEVENT").count(), 1);
}

#[test]
fn test_export_ical_escapes_property_text() {
    let mut plan = MealPlan::new(Date { year: 2023, month: 1, day: 2 });
    plan.add_meal(Meal::new(
        MealType::Dinner,
        Day::Weekday(Weekday::Mon),
        "A, B; C\\D".to_string(),
        "Line one\r\nLine two".to_string(),
    ));
    let content = plan.to_ical();
    // Newlines, commas, semicolons and backslashes in entry text cannot break
    // the property lines: they are escaped, the carriage return dropped.
    assert!(content.contains("SUMMARY:Dinner: Line one\\nLine two"));
    assert!(content.contains("DESCRIPTION:Cook: A\\, B\\; C\\\\D"));
    assert_eq!(content.matches("BEGIN:VEVENT").count(), 1);
    assert_eq!(content.matches("END:VEVENT").count(), 1);
    // Every line break in the document is the calendar line ending.
    assert_eq!(content.matches('\n').count(), content.matches("\r\n").count());
}

#[test]
fn test_export_json() {
    let mut meal_plan = MealPlan::new(Date { year: 2023, month: 1, day: 2 });
    mealplan::workflow::add_meal(
        &mut meal_plan,
        "Dinner".to_string(),
        "Monday".to_string(),
        "John".to_string(),
        "Pasta".to_string(),
    )
    .unwrap();

    let exported = meal_plan.to_json();
    let loaded_plan = MealPlan::from_json(exported.as_str()).unwrap();
    assert_eq!(loaded_plan.meals.len(), 1);
    assert_eq!(loaded_plan.meals[0].description, "Pasta");
}

#[test]
fn test_config() {
    // Create a config with explicit values
    let config = Config::new(
        "/home/someone/.config/mealplan".to_string(),
        Date { year: 2023, month: 1, day: 2 },
    );

    // Round-trip through the structured form
    let json = config.to_json();
    let loaded_config = Config::from_json(json.as_str()).unwrap();

    // Verify paths match
    assert_eq!(loaded_config.meal_plan_storage_path, config.meal_plan_storage_path);
    assert_eq!(loaded_config.current_week_start_date, config.current_week_start_date);
}

#[test]
fn test_config_rejects_malformed_text() {
    assert_eq!(Config::from_json("{}").unwrap_err(), PlanError::StorageReadError);
}

#[test]
fn test_error_messages_have_exact_text() {
    assert_eq!(
        PlanError::InvalidMealType.message(),
        "Invalid meal type. Must be breakfast, lunch, dinner, or snack."
    );
    assert_eq!(
        PlanError::InvalidDayFormat.message(),
        "Invalid day format. Use YYYY-MM-DD or day name."
    );
    let e = PlanError::MealNotFound {
        meal_type: MealType::Breakfast,
        day: Day::Weekday(Weekday::Mon),
    };
    assert_eq!(e.message(), "No Breakfast meal found for Mon.");
}
