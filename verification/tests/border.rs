use novawm::border::{bg_effect_count, is_animated_border_effect};

#[test]
fn effect_names_gate_animation() {
    assert!(is_animated_border_effect("breathing"));
    assert!(is_animated_border_effect("rainbow"));
    assert!(is_animated_border_effect("gradient"));
    assert!(is_animated_border_effect("flow"));
    assert!(is_animated_border_effect("glow"));
    assert!(is_animated_border_effect("pulse"));
    assert!(is_animated_border_effect("ember"));
    assert!(is_animated_border_effect("rainbow_solid"));
    assert!(is_animated_border_effect("chase"));
    assert!(is_animated_border_effect("bg"));
    assert!(is_animated_border_effect("bg-2"));
    assert!(is_animated_border_effect("bg-8"));
    assert!(!is_animated_border_effect("none"));
    assert!(!is_animated_border_effect("bogus"));
    assert!(!is_animated_border_effect("bg-foo"));
}

#[test]
fn bg_count_parses_and_clamps() {
    assert_eq!(bg_effect_count("bg"), Some(4));
    assert_eq!(bg_effect_count("bg-2"), Some(2));
    assert_eq!(bg_effect_count("bg-5"), Some(5));
    assert_eq!(bg_effect_count("bg-1"), Some(2));
    assert_eq!(bg_effect_count("bg-99"), Some(8));
    assert_eq!(bg_effect_count("bg-"), None);
    assert_eq!(bg_effect_count("bg-foo"), None);
    assert_eq!(bg_effect_count("none"), None);
}

#[test]
fn bg_count_accepts_a_plus_sign_and_zero() {
    assert_eq!(bg_effect_count("bg-+3"), Some(3));
    assert_eq!(bg_effect_count("bg-0"), Some(2));
    assert_eq!(bg_effect_count("bg-99999999999999999999999"), None);
}
