use json_log_parser::color::Color;
use json_log_parser::color_manager::ColorManager;

#[test]
fn test_first_container_gets_index_zero() {
    let mut manager = ColorManager::new();
    let color = manager.get_container_color("web-1");

    // Verify the container name is present
    assert!(color.to_string().contains("web-1"));

    // Verify it was assigned index 0
    assert_eq!(manager.container_index("web-1"), Some(0));
}

#[test]
fn test_same_container_gets_same_color() {
    let mut manager = ColorManager::new();
    let color1 = manager.get_container_color("web-1");
    let color2 = manager.get_container_color("web-1");
    assert_eq!(color1.to_string(), color2.to_string());
}

#[test]
fn test_different_containers_get_different_colors() {
    let mut manager = ColorManager::new();
    let color1 = manager.get_container_color("web-1");
    let color2 = manager.get_container_color("db-1");
    // They should have different indices
    assert_ne!(color1.to_string(), color2.to_string());
}

#[test]
fn test_level_color_mapping() {
    let manager = ColorManager::new();

    assert_eq!(manager.get_level_color("error"), Color::BrightRed);
    assert_eq!(manager.get_level_color("ERROR"), Color::BrightRed); // Case insensitive
    assert_eq!(manager.get_level_color("err"), Color::BrightRed); // Alias
    assert_eq!(manager.get_level_color("warn"), Color::Yellow);
    assert_eq!(manager.get_level_color("warning"), Color::Yellow); // Alias
    assert_eq!(manager.get_level_color("info"), Color::Green);
    assert_eq!(manager.get_level_color("debug"), Color::Blue);
    assert_eq!(manager.get_level_color("trace"), Color::Cyan);
    assert_eq!(manager.get_level_color("unknown"), Color::White); // Default
}

#[test]
fn test_color_wraparound() {
    let mut manager = ColorManager::new();
    // Assuming 8 colors in pool
    for i in 0..10 {
        manager.get_container_color(&format!("container-{}", i));
    }

    // Verify that container-1 got index 1 and container-9 got index 9
    assert_eq!(manager.container_index("container-1"), Some(1));
    assert_eq!(manager.container_index("container-9"), Some(9));

    // Verify wraparound: both should map to same color pool index
    assert_eq!(1 % manager.color_pool_size(), 9 % manager.color_pool_size());
}

#[test]
fn pool_colors_follow_first_appearance() {
    let mut manager = ColorManager::new();
    let expected = [
        Color::Cyan,
        Color::Green,
        Color::Yellow,
        Color::Blue,
        Color::Magenta,
        Color::BrightCyan,
        Color::BrightGreen,
        Color::BrightYellow,
        Color::Cyan,
        Color::Green,
    ];
    for (i, want) in expected.iter().enumerate() {
        let colored = manager.get_container_color(&format!("c{}", i));
        assert_eq!(colored.color, *want);
        assert_eq!(colored.input, format!("c{}", i));
    }
    assert_eq!(manager.color_pool_size(), 8);
}

#[test]
fn known_container_keeps_color_after_others() {
    let mut manager = ColorManager::new();
    let first = manager.get_container_color("api");
    for name in ["db", "cache", "queue", "web", "worker", "proxy", "auth", "mail"] {
        manager.get_container_color(name);
    }
    let again = manager.get_container_color("api");
    assert_eq!(first.color, again.color);
    assert_eq!(manager.container_index("api"), Some(0));
    assert_eq!(manager.container_index("mail"), Some(8));
    assert_eq!(manager.container_index("nowhere"), None);
}

#[test]
fn repeated_container_does_not_take_an_index() {
    let mut manager = ColorManager::default();
    manager.get_container_color("a");
    manager.get_container_color("a");
    manager.get_container_color("b");
    assert_eq!(manager.container_index("a"), Some(0));
    assert_eq!(manager.container_index("b"), Some(1));
}

#[test]
fn level_colors_ignore_case() {
    let manager = ColorManager::new();
    assert_eq!(manager.get_level_color("Warning"), Color::Yellow);
    assert_eq!(manager.get_level_color("ERR"), Color::BrightRed);
    assert_eq!(manager.get_level_color("Info"), Color::Green);
    assert_eq!(manager.get_level_color("DEBUG"), Color::Blue);
    assert_eq!(manager.get_level_color("TrAcE"), Color::Cyan);
    assert_eq!(manager.get_level_color(""), Color::White);
    assert_eq!(manager.get_level_color("errors"), Color::White);
}
