use bevy_bird::controls::PlayerControls;

#[test]
fn starts_gliding_without_trail() {
    let c = PlayerControls::default();
    assert!(!c.diving);
    assert!(!c.cosmetic_mode);
    assert!(c.player_visible());
    assert!(!c.trail_visible());
}

#[test]
fn dive_follows_key_or_touch() {
    let mut c = PlayerControls::default();
    c.apply_input(true, false, false);
    assert!(c.diving);
    c.apply_input(false, true, false);
    assert!(c.diving);
    c.apply_input(false, false, false);
    assert!(!c.diving);
}

#[test]
fn toggle_flips_cosmetic_mode() {
    let mut c = PlayerControls::default();
    c.apply_input(false, false, true);
    assert!(c.cosmetic_mode);
    assert!(c.trail_visible());
    assert!(!c.player_visible());
    c.apply_input(false, false, false);
    assert!(c.cosmetic_mode);
    c.apply_input(false, false, true);
    assert!(!c.cosmetic_mode);
}
