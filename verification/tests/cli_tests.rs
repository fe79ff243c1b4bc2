use mealplan::cli::{Args, Commands, ConfigAction};

fn argv(parts: &[&str]) -> Vec<String> {
    parts.iter().map(|s| s.to_string()).collect()
}

#[test]
fn verify_cli() {
    // A plain invocation parses to "no command".
    let args = Args::parse_from(&argv(&["mealplan"])).unwrap();
    assert!(args.command.is_none());
    assert!(args.path.is_none());
}

#[test]
fn test_add_command() {
    let args = Args::parse_from(&argv(&[
        "mealplan",
        "add",
        "Spaghetti Bolognese",
        "--meal-type",
        "Dinner",
        "--day",
        "Monday",
        "--cook",
        "John",
    ]))
    .unwrap();
    match args.command {
        Some(Commands::Add { description, meal_type, day, cook }) => {
            assert_eq!(description, "Spaghetti Bolognese");
            assert_eq!(meal_type, "Dinner");
            assert_eq!(day, "Monday");
            assert_eq!(cook, "John");
        }
        _ => panic!("Expected Add command"),
    }
}

#[test]
fn test_edit_command() {
    let args = Args::parse_from(&argv(&[
        "mealplan",
        "edit",
        "Updated meal description",
        "--meal-type",
        "Lunch",
        "--day",
        "Tuesday",
    ]))
    .unwrap();
    match args.command {
        Some(Commands::Edit { description, meal_type, day, cook }) => {
            assert_eq!(description, Some("Updated meal description".to_string()));
            assert_eq!(meal_type, "Lunch");
            assert_eq!(day, "Tuesday");
            assert_eq!(cook, None);
        }
        _ => panic!("Expected Edit command"),
    }
}

#[test]
fn test_remove_command() {
    let args = Args::parse_from(&argv(&[
        "mealplan",
        "remove",
        "--meal-type",
        "Breakfast",
        "--day",
        "Wednesday",
    ]))
    .unwrap();
    match args.command {
        Some(Commands::Remove { meal_type, day }) => {
            assert_eq!(meal_type, "Breakfast");
            assert_eq!(day, "Wednesday");
        }
        _ => panic!("Expected Remove command"),
    }
}

#[test]
fn test_export_ical_command() {
    let args = Args::parse_from(&argv(&[
        "mealplan",
        "export-ical",
        "--output",
        "/tmp/mealplan.ics",
    ]))
    .unwrap();
    match args.command {
        Some(Commands::ExportIcal { output }) => {
            assert_eq!(output, "/tmp/mealplan.ics");
        }
        _ => panic!("Expected ExportIcal command"),
    }
}

#[test]
fn test_config_init_command() {
    let args = Args::parse_from(&argv(&["mealplan", "config", "init"])).unwrap();
    match args.command {
        Some(Commands::Config { action: ConfigAction::Init }) => {}
        _ => panic!("Expected Config Init command"),
    }
}

#[test]
fn test_global_path_option() {
    let args = Args::parse_from(&argv(&["mealplan", "--path", "/tmp/plans", "config", "init"]))
        .unwrap();
    assert_eq!(args.path, Some("/tmp/plans".to_string()));
    match args.command {
        Some(Commands::Config { action: ConfigAction::Init }) => {}
        _ => panic!("Expected Config Init command"),
    }
}

#[test]
fn test_unknown_command_is_rejected() {
    assert!(Args::parse_from(&argv(&["mealplan", "banquet"])).is_none());
    assert!(Args::parse_from(&argv(&["mealplan", "add", "x", "--meal-type"])).is_none());
    assert!(Args::parse_from(&argv(&["mealplan", "remove", "--day", "Monday"])).is_none());
}
