use logust::color::Color;
use logust::level::{
    get_color_from_name, get_level_by_no, get_level_info, register_level, LevelInfo, LevelRegistry,
};

#[test]
fn test_get_level_info_builtin() {
    let registry = LevelRegistry::new();
    let info = get_level_info(&registry, "info").unwrap();
    assert_eq!(info.name, "INFO");
    assert_eq!(info.no, 20);

    let info = get_level_info(&registry, "INFO").unwrap();
    assert_eq!(info.name, "INFO");

    let info = get_level_info(&registry, "Info").unwrap();
    assert_eq!(info.name, "INFO");
}

#[test]
fn test_get_level_info_all_levels() {
    let registry = LevelRegistry::new();
    assert!(get_level_info(&registry, "trace").is_some());
    assert!(get_level_info(&registry, "debug").is_some());
    assert!(get_level_info(&registry, "info").is_some());
    assert!(get_level_info(&registry, "success").is_some());
    assert!(get_level_info(&registry, "warning").is_some());
    assert!(get_level_info(&registry, "error").is_some());
    assert!(get_level_info(&registry, "fail").is_some());
    assert!(get_level_info(&registry, "critical").is_some());
}

#[test]
fn test_get_level_info_unknown() {
    let registry = LevelRegistry::new();
    assert!(get_level_info(&registry, "unknown").is_none());
    assert!(get_level_info(&registry, "").is_none());
}

#[test]
fn test_get_color_from_name() {
    assert_eq!(get_color_from_name("red"), Color::Red);
    assert_eq!(get_color_from_name("RED"), Color::Red);
    assert_eq!(get_color_from_name("Red"), Color::Red);

    assert_eq!(get_color_from_name("bright_green"), Color::BrightGreen);
    assert_eq!(get_color_from_name("BRIGHT_GREEN"), Color::BrightGreen);
}

#[test]
fn test_get_color_from_name_unknown() {
    assert_eq!(get_color_from_name("unknown"), Color::White);
    assert_eq!(get_color_from_name(""), Color::White);
}

#[test]
fn test_get_level_by_no_builtin() {
    let registry = LevelRegistry::new();
    let info = get_level_by_no(&registry, 20).unwrap();
    assert_eq!(info.name, "INFO");

    let info = get_level_by_no(&registry, 40).unwrap();
    assert_eq!(info.name, "ERROR");
}

#[test]
fn test_get_level_by_no_unknown() {
    let registry = LevelRegistry::new();
    assert!(get_level_by_no(&registry, 999).is_none());
}

#[test]
fn test_register_and_lookup_custom_level() {
    let mut registry = LevelRegistry::new();
    let custom = LevelInfo::new("NOTICE".into(), 35, Some("cyan".into()), Some("ðŸ“¢".into()));
    register_level(&mut registry, custom);

    let info = get_level_info(&registry, "NOTICE").unwrap();
    assert_eq!(info.name, "NOTICE");
    assert_eq!(info.no, 35);

    let info = get_level_by_no(&registry, 35).unwrap();
    assert_eq!(info.name, "NOTICE");
    assert_eq!(info.no, 35);
}
