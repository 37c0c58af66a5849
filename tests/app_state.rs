use routefinder::fresh_file_finder::app::{AppState as FreshState, Mode};
use routefinder::gui::app::AppState;

#[test]
fn button_presses_move_the_offset() {
    let mut s = AppState::default();
    assert_eq!(s.offset, 6);
    assert_eq!(s.text_output, "Current offset: 6\n");
    s.add_button_press("Middle".to_string());
    s.add_button_press("Top".to_string());
    assert_eq!(s.offset, 8);
    assert_eq!(s.button_history.len(), 2);
    assert_eq!(s.button_history[1].name, "Top");
    assert_eq!(s.button_history[1].offset, 8);
    assert_eq!(
        s.text_output,
        "Current offset: 6\nButton pressed: Middle\nCurrent offset: 7\nButton pressed: Top\nCurrent offset: 8\n"
    );
    s.clear();
    assert_eq!(s.offset, 6);
    assert!(s.button_history.is_empty());
    assert_eq!(s.script_file, "RouteFreshFileIncrementally.lua");
}

#[test]
fn button_ranges() {
    assert_eq!(AppState::get_button_range("Bottom"), (0, 4));
    assert_eq!(AppState::get_button_range("Low"), (3, 7));
    assert_eq!(AppState::get_button_range("Middle"), (6, 10));
    assert_eq!(AppState::get_button_range("High"), (9, 13));
    assert_eq!(AppState::get_button_range("Top"), (12, 16));
    assert_eq!(AppState::get_button_range("top"), (0, 0));
    assert_eq!(FreshState::get_button_range("High"), (9, 13));
}

#[test]
fn off_route_mode_round_trip() {
    let mut s = FreshState::default();
    s.script_file = "Custom.lua".to_string();
    s.enter_off_route_mode();
    assert!(s.mode == Mode::OffRoute);
    assert_eq!(s.script_file, "RouteFreshFileRecovery.lua");
    assert_eq!(s.original_script_file, "Custom.lua");
    s.adjust_offset_off_by(3);
    s.adjust_offset_off_by(-5);
    assert_eq!(s.offset_off_by, -2);
    s.exit_off_route_mode();
    assert!(s.mode == Mode::BounceRoute);
    assert_eq!(s.script_file, "Custom.lua");
    assert_eq!(s.offset_off_by, 0);
    s.add_button_press("Low".to_string());
    assert_eq!(s.offset, 7);
    s.clear();
    assert_eq!(s.offset, 6);
    assert_eq!(s.original_script_file, "RouteFreshFileIncrementally.lua");
}

#[test]
fn chamber_input_is_digits() {
    assert!(FreshState::validate_chamber_input("12"));
    assert!(FreshState::validate_chamber_input("0"));
    assert!(!FreshState::validate_chamber_input(""));
    assert!(!FreshState::validate_chamber_input("1a"));
    assert!(!FreshState::validate_chamber_input("٣"));
    assert!(!FreshState::validate_chamber_input(" 1"));
}
