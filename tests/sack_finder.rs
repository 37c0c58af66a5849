use routefinder::sack_finder::app::AppState;

fn filled() -> AppState {
    let mut s = AppState::default();
    s.assault = "40".to_string();
    s.ambush = "70".to_string();
    s.favor = "12.34".to_string();
    s.lunge = "50".to_string();
    s.soul = "35".to_string();
    s.strike = "30".to_string();
    s.eclipse = "80".to_string();
    s.shot = "39.99".to_string();
    s.flourish = "45".to_string();
    s
}

#[test]
fn validity_of_each_field() {
    let mut s = filled();
    assert!(s.is_valid());
    s.assault = "50.01".to_string();
    assert!(!s.is_assault_valid());
    assert!(!s.is_valid());
    s.assault = "abc".to_string();
    assert!(!s.is_assault_valid());
    s.favor = "10.99".to_string();
    assert!(!s.is_favor_valid());
    s.assault = "3e1".to_string();
    assert!(s.is_assault_valid());
    s.assault = "30.0000000001".to_string();
    assert!(s.is_assault_valid());
    s.eclipse = "50".to_string();
    assert!(s.is_eclipse_valid());
    assert!(!AppState::default().is_valid());
}

#[test]
fn range_format_lines() {
    let mut s = AppState::default();
    assert_eq!(s.generate_range_format(), "");
    s.assault = "40".to_string();
    s.favor = "12.34".to_string();
    s.flourish = "abc".to_string();
    assert_eq!(s.generate_range_format(), "assault,14,0.30,0.50,0.40\nfavor,20,0.11,0.20,0.12\n");
    let mut t = AppState::default();
    t.favor = "12.5".to_string();
    t.soul = "37.5".to_string();
    assert_eq!(t.generate_range_format(), "favor,20,0.11,0.20,0.12\nsoul,24,0.30,0.40,0.38\n");
    let all = filled().generate_range_format();
    assert_eq!(all.lines().count(), 9);
    assert!(all.starts_with("assault,14,0.30,0.50,0.40\nambush,18,0.60,0.80,0.70\n"));
    assert!(all.ends_with("shot,32,0.30,0.40,0.40\nflourish,34,0.30,0.60,0.45\n"));
}

#[test]
fn clear_restores_the_prefilled_fields() {
    let mut s = filled();
    s.clear();
    assert_eq!(s.assault, "");
    assert_eq!(s.grasp, "1");
    assert_eq!(s.affluence, "Not needed.");
    assert_eq!(s.defiance, "1");
    assert_eq!(s.text_output, "Enter percentage values for each field.\n");
}
