use edda::trace::config_path_from_args;
use edda::trace::debug_flag_present;
use edda::trace::debug_mode_text;
use edda::trace::log_level_label;

#[test]
fn named_levels_always_carry_their_label() {
    assert_eq!(log_level_label(1, false).unwrap(), "INFO");
    assert_eq!(log_level_label(2, false).unwrap(), "WARN");
    assert_eq!(log_level_label(3, false).unwrap(), "ERROR");
    assert_eq!(log_level_label(4, false).unwrap(), "EVENT");
    assert_eq!(log_level_label(27, false).unwrap(), "SECURITY");
}

#[test]
fn other_levels_are_debug_only() {
    assert_eq!(log_level_label(0, true).unwrap(), "DEBUG");
    assert_eq!(log_level_label(9, true).unwrap(), "DEBUG");
    assert!(log_level_label(0, false).is_none());
    assert!(log_level_label(9, false).is_none());
}

#[test]
fn the_debug_switch_is_found_anywhere() {
    let with = vec![
        String::from("prog"),
        String::from("--config"),
        String::from("--debug"),
    ];
    let without = vec![String::from("prog"), String::from("--debugx")];
    assert!(debug_flag_present(&with));
    assert!(!debug_flag_present(&without));
    assert!(!debug_flag_present(&Vec::new()));
}

#[test]
fn the_banner_word_matches_the_switch() {
    assert_eq!(debug_mode_text(true), "enable");
    assert_eq!(debug_mode_text(false), "disable");
}

#[test]
fn the_config_path_follows_its_switch() {
    let args = vec![
        String::from("prog"),
        String::from("--config"),
        String::from("broker.toml"),
    ];
    assert_eq!(config_path_from_args(&args).unwrap(), "broker.toml");
    let bare = vec![String::from("prog"), String::from("--config")];
    assert!(config_path_from_args(&bare).is_none());
    assert!(config_path_from_args(&vec![String::from("prog")]).is_none());
}
