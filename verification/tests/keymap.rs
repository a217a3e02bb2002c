use agar_keys::keymap::{
    behavior_settings, default_keymap, KeyDef, ProfileDef, KC_B, KC_ESCAPE, KC_F1, KC_F12, KC_L,
    KC_HOME, KC_LEFT_BRACKET, KC_UP, MOD_LCTRL, NAV,
};
use rmk::types::keycode::HidKeyCode;

#[test]
fn layer_zero_in_chain_order() {
    let km = default_keymap();
    assert_eq!(km[0][0][0], KeyDef::Key(KC_ESCAPE));
    assert_eq!(km[0][3][0], KeyDef::Key(KC_B));
    assert_eq!(km[0][7][0], KeyDef::MomentaryLayer(1));
    assert_eq!(
        km[0][1][7],
        KeyDef::TapHold { tap: KC_ESCAPE, hold_mods: MOD_LCTRL, profile: NAV }
    );
    assert!(km[0][8].iter().all(|k| *k == KeyDef::No));
    let mapped = km[0].iter().flatten().filter(|k| **k != KeyDef::No).count();
    // 62 switches, two of them with nothing on them
    assert_eq!(mapped, 60);
}

#[test]
fn layer_one_over_layer_zero() {
    let km = default_keymap();
    assert_eq!(km[1][3][0], KeyDef::Bootloader);
    assert_eq!(km[1][0][4], KeyDef::Key(KC_F1));
    assert_eq!(km[1][6][0], KeyDef::Key(KC_F12));
    assert_eq!(km[0][4][7], KeyDef::Key(KC_LEFT_BRACKET));
    assert_eq!(km[1][4][7], KeyDef::Key(KC_UP));
    assert_eq!(km[0][5][0], KeyDef::Key(KC_L));
    assert_eq!(km[1][5][0], KeyDef::Key(KC_HOME));
    for r in 0..9 {
        for c in 0..8 {
            if km[0][r][c] == KeyDef::No {
                assert_eq!(km[1][r][c], KeyDef::No);
            }
        }
    }
}

#[test]
fn key_ids_are_hid_usages() {
    assert_eq!(HidKeyCode::from(KC_ESCAPE), HidKeyCode::Escape);
    assert_eq!(HidKeyCode::from(KC_B), HidKeyCode::B);
    assert_eq!(HidKeyCode::from(KC_F1), HidKeyCode::F1);
    assert_eq!(HidKeyCode::from(KC_F12), HidKeyCode::F12);
    assert_eq!(HidKeyCode::from(KC_LEFT_BRACKET), HidKeyCode::LeftBracket);
    assert_eq!(HidKeyCode::from(KC_UP), HidKeyCode::Up);
    assert_eq!(HidKeyCode::from(KC_HOME), HidKeyCode::Home);
    let km = default_keymap();
    for layer in km.iter() {
        for row in layer.iter() {
            for k in row.iter() {
                if let KeyDef::Key(code) = k {
                    assert_eq!(HidKeyCode::from(*code) as u8, *code);
                }
            }
        }
    }
}

#[test]
fn tap_hold_settings() {
    let b = behavior_settings();
    assert!(b.enable_flow_tap);
    assert_eq!(b.prior_idle_time_ms, 120);
    assert_eq!(
        b.profiles,
        vec![ProfileDef {
            unilateral_tap: None,
            hold_on_other_press: true,
            hold_timeout_ms: Some(180),
            gap_timeout_ms: None,
            enable_flow_tap: Some(false),
        }]
    );
    assert!((NAV as usize) < b.profiles.len());
}
