use mealplan::date::{Date, Weekday};
use mealplan::model::{Day, Meal, MealPlan, MealType};
use mealplan::resolver::{parse_day, parse_meal_type, resolve_to_date};

#[test]
fn test_meal_creation() {
    let meal = Meal::new(
        MealType::Dinner,
        Day::Weekday(Weekday::Mon),
        "John".to_string(),
        "Pasta".to_string(),
    );

    assert_eq!(meal.meal_type, MealType::Dinner);
    assert_eq!(meal.cook, "John");

    match meal.day {
        Day::Weekday(day) => assert_eq!(day, Weekday::Mon),
        _ => panic!("Expected Weekday"),
    }
}

#[test]
fn test_meal_plan_operations() {
    let week_start = Date { year: 2023, month: 1, day: 2 };
    let mut plan = MealPlan::new(week_start);

    // Add a meal
    let meal = Meal::new(
        MealType::Lunch,
        Day::Weekday(Weekday::Wed),
        "Alice".to_string(),
        "Soup".to_string(),
    );
    plan.add_meal(meal);

    // Find the meal
    let found = plan.find_meal(&MealType::Lunch, &Day::Weekday(Weekday::Wed));
    assert!(found.is_some());
    assert_eq!(found.unwrap().cook, "Alice");

    // Remove the meal
    let removed = plan.remove_meal(&MealType::Lunch, &Day::Weekday(Weekday::Wed));
    assert!(removed.is_some());

    // Verify it's gone
    let not_found = plan.find_meal(&MealType::Lunch, &Day::Weekday(Weekday::Wed));
    assert!(not_found.is_none());
}

#[test]
fn test_parse_day() {
    assert!(matches!(parse_day("2023-05-01"), Ok(Day::Date(_))));
    assert!(matches!(parse_day("Monday"), Ok(Day::Weekday(Weekday::Mon))));
    assert!(parse_day("Invalid").is_err());
}

#[test]
fn test_parse_day_exact_values() {
    match parse_day("2023-05-01") {
        Ok(Day::Date(d)) => {
            assert_eq!(d, Date { year: 2023, month: 5, day: 1 });
        }
        _ => panic!("Expected a concrete date"),
    }
    assert!(parse_day("Someday").is_err());
    assert!(parse_day("2023-02-29").is_err());
    assert!(parse_day("2024-02-29").is_ok());
    assert!(matches!(parse_day("sUnDaY"), Ok(Day::Weekday(Weekday::Sun))));
}

#[test]
fn test_parse_meal_type_names() {
    assert_eq!(parse_meal_type("breakfast").unwrap(), MealType::Breakfast);
    assert_eq!(parse_meal_type("LUNCH").unwrap(), MealType::Lunch);
    assert_eq!(parse_meal_type("Dinner").unwrap(), MealType::Dinner);
    assert_eq!(parse_meal_type("snack").unwrap(), MealType::Snack);
    assert!(parse_meal_type("brunch").is_err());
}

#[test]
fn test_resolve_weekday_within_week() {
    // 2023-01-02 is a Monday.
    let week_start = Date { year: 2023, month: 1, day: 2 };
    let resolved = resolve_to_date(&Day::Weekday(Weekday::Wed), &week_start);
    assert_eq!(resolved, Date { year: 2023, month: 1, day: 4 });
    let resolved = resolve_to_date(&Day::Weekday(Weekday::Mon), &week_start);
    assert_eq!(resolved, week_start);
    let resolved = resolve_to_date(&Day::Weekday(Weekday::Sun), &week_start);
    assert_eq!(resolved, Date { year: 2023, month: 1, day: 8 });
}

#[test]
fn test_resolve_weekday_mid_week_anchor() {
    // 2023-01-05 is a Thursday: Monday resolves forward into the next week,
    // never backwards.
    let anchor = Date { year: 2023, month: 1, day: 5 };
    let resolved = resolve_to_date(&Day::Weekday(Weekday::Mon), &anchor);
    assert_eq!(resolved, Date { year: 2023, month: 1, day: 9 });
    // A concrete date resolves to itself.
    let d = Day::Date(Date { year: 2023, month: 7, day: 14 });
    assert_eq!(resolve_to_date(&d, &anchor), Date { year: 2023, month: 7, day: 14 });
}

#[test]
fn test_resolve_across_month_and_year_end() {
    // 2023-12-28 is a Thursday; Sunday of that week is the last day of 2023,
    // and the following Monday falls in 2024.
    let anchor = Date { year: 2023, month: 12, day: 28 };
    assert_eq!(
        resolve_to_date(&Day::Weekday(Weekday::Sun), &anchor),
        Date { year: 2023, month: 12, day: 31 }
    );
    assert_eq!(
        resolve_to_date(&Day::Weekday(Weekday::Mon), &anchor),
        Date { year: 2024, month: 1, day: 1 }
    );
}

#[test]
fn test_resolve_at_top_of_year_range() {
    // 9999-12-31 is a Friday; the week anchored there runs a few days past
    // the four-digit years.
    let anchor = Date { year: 9999, month: 12, day: 31 };
    assert_eq!(resolve_to_date(&Day::Weekday(Weekday::Fri), &anchor), anchor);
    assert_eq!(
        resolve_to_date(&Day::Weekday(Weekday::Sat), &anchor),
        Date { year: 10000, month: 1, day: 1 }
    );
    assert_eq!(
        resolve_to_date(&Day::Weekday(Weekday::Sun), &anchor),
        Date { year: 10000, month: 1, day: 2 }
    );
}

#[test]
fn test_display_names() {
    assert_eq!(MealType::Breakfast.name(), "Breakfast");
    assert_eq!(Day::Weekday(Weekday::Tue).to_text(), "Tue");
    assert_eq!(Day::Date(Date { year: 2023, month: 5, day: 1 }).to_text(), "2023-05-01");
}
