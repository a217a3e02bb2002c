//! The default keymap and the tap-hold settings of the 60% HHKB/tsangan
//! layout on the 72-position chain.
//!
//! `keymap[layer][row][col]` is the key at chain position `row * 8 + col`.
//! The chain order is wiring order; matrix coordinates have no relation to
//! the physical rows. The physical board is
//!
//! ```text
//!   Esc  1  2  3  4  5  6  7  8  9  0  -  =  \  `
//!   Tab  Q  W  E  R  T  Y  U  I  O  P  [  ]  Bspc
//!   Ctrl A  S  D  F  G  H  J  K  L  ;  '  Enter
//!   Shift Z X  C  V  B  N  M  ,  .  /  Shift Fn
//!   ----  Alt Gui  ------- Space -------  Gui Alt ----
//! ```
//!
//! 62 of the 72 positions carry a switch. The two 1.5u ends of the bottom row
//! are switches with nothing on them, so they read as `No` like the positions
//! without a switch. Keys are named by their HID usage id.

use vstd::prelude::*;

verus! {

/// Rows of the chain.
pub const ROW: usize = 9;

/// Columns of the chain.
pub const COL: usize = 8;

/// Layers of the keymap.
pub const NUM_LAYER: usize = 2;

/// HID usage ids of the keys the layout uses.
pub const KC_A: u8 = 0x04;
pub const KC_B: u8 = 0x05;
pub const KC_C: u8 = 0x06;
pub const KC_D: u8 = 0x07;
pub const KC_E: u8 = 0x08;
pub const KC_F: u8 = 0x09;
pub const KC_G: u8 = 0x0A;
pub const KC_H: u8 = 0x0B;
pub const KC_I: u8 = 0x0C;
pub const KC_J: u8 = 0x0D;
pub const KC_K: u8 = 0x0E;
pub const KC_L: u8 = 0x0F;
pub const KC_M: u8 = 0x10;
pub const KC_N: u8 = 0x11;
pub const KC_O: u8 = 0x12;
pub const KC_P: u8 = 0x13;
pub const KC_Q: u8 = 0x14;
pub const KC_R: u8 = 0x15;
pub const KC_S: u8 = 0x16;
pub const KC_T: u8 = 0x17;
pub const KC_U: u8 = 0x18;
pub const KC_V: u8 = 0x19;
pub const KC_W: u8 = 0x1A;
pub const KC_X: u8 = 0x1B;
pub const KC_Y: u8 = 0x1C;
pub const KC_Z: u8 = 0x1D;
pub const KC_1: u8 = 0x1E;
pub const KC_2: u8 = 0x1F;
pub const KC_3: u8 = 0x20;
pub const KC_4: u8 = 0x21;
pub const KC_5: u8 = 0x22;
pub const KC_6: u8 = 0x23;
pub const KC_7: u8 = 0x24;
pub const KC_8: u8 = 0x25;
pub const KC_9: u8 = 0x26;
pub const KC_0: u8 = 0x27;
pub const KC_ENTER: u8 = 0x28;
pub const KC_ESCAPE: u8 = 0x29;
pub const KC_BACKSPACE: u8 = 0x2A;
pub const KC_TAB: u8 = 0x2B;
pub const KC_SPACE: u8 = 0x2C;
pub const KC_MINUS: u8 = 0x2D;
pub const KC_EQUAL: u8 = 0x2E;
pub const KC_LEFT_BRACKET: u8 = 0x2F;
pub const KC_RIGHT_BRACKET: u8 = 0x30;
pub const KC_BACKSLASH: u8 = 0x31;
pub const KC_SEMICOLON: u8 = 0x33;
pub const KC_QUOTE: u8 = 0x34;
pub const KC_GRAVE: u8 = 0x35;
pub const KC_COMMA: u8 = 0x36;
pub const KC_DOT: u8 = 0x37;
pub const KC_SLASH: u8 = 0x38;
pub const KC_CAPS_LOCK: u8 = 0x39;
pub const KC_F1: u8 = 0x3A;
pub const KC_F2: u8 = 0x3B;
pub const KC_F3: u8 = 0x3C;
pub const KC_F4: u8 = 0x3D;
pub const KC_F5: u8 = 0x3E;
pub const KC_F6: u8 = 0x3F;
pub const KC_F7: u8 = 0x40;
pub const KC_F8: u8 = 0x41;
pub const KC_F9: u8 = 0x42;
pub const KC_F10: u8 = 0x43;
pub const KC_F11: u8 = 0x44;
pub const KC_F12: u8 = 0x45;
pub const KC_INSERT: u8 = 0x49;
pub const KC_HOME: u8 = 0x4A;
pub const KC_PAGE_UP: u8 = 0x4B;
pub const KC_DELETE: u8 = 0x4C;
pub const KC_END: u8 = 0x4D;
pub const KC_PAGE_DOWN: u8 = 0x4E;
pub const KC_RIGHT: u8 = 0x4F;
pub const KC_LEFT: u8 = 0x50;
pub const KC_DOWN: u8 = 0x51;
pub const KC_UP: u8 = 0x52;
pub const KC_L_SHIFT: u8 = 0xE1;
pub const KC_L_ALT: u8 = 0xE2;
pub const KC_L_GUI: u8 = 0xE3;
pub const KC_R_SHIFT: u8 = 0xE5;
pub const KC_R_ALT: u8 = 0xE6;
pub const KC_R_GUI: u8 = 0xE7;

/// Left Ctrl in the HID modifier byte.
pub const MOD_LCTRL: u8 = 0x01;

/// Index of the nav profile in the tap-hold profile table: timing for the
/// Escape/Ctrl position.
pub const NAV: u8 = 0;

/// What a keymap position does.
#[derive(Clone, Copy, PartialEq, Eq, Debug, Structural)]
pub enum KeyDef {
    /// No switch, or a switch with nothing on it.
    No,
    /// Falls through to the layer below.
    Transparent,
    /// Sends the key with this HID usage id.
    Key(u8),
    /// Tap for `tap`, hold for the modifiers `hold_mods`, timed by the
    /// profile at index `profile` of the profile table.
    TapHold { tap: u8, hold_mods: u8, profile: u8 },
    /// Turns the layer on while held.
    MomentaryLayer(u8),
    /// Reboots into the UF2 bootloader.
    Bootloader,
}

/// The default keymap: layer 0, then layer 1, each row by row.
pub open spec fn spec_default_keymap() -> Seq<Seq<Seq<KeyDef>>> {
    seq![
        seq![
            seq![KeyDef::Key(KC_ESCAPE), KeyDef::Key(KC_TAB), KeyDef::Key(KC_Q), KeyDef::Key(KC_W), KeyDef::Key(KC_1), KeyDef::Key(KC_2), KeyDef::Key(KC_3), KeyDef::Key(KC_E)],
            seq![KeyDef::Key(KC_Z), KeyDef::Key(KC_L_GUI), KeyDef::Key(KC_S), KeyDef::No, KeyDef::No, KeyDef::Key(KC_L_SHIFT), KeyDef::Key(KC_A), KeyDef::TapHold { tap: KC_ESCAPE, hold_mods: MOD_LCTRL, profile: NAV }],
            seq![KeyDef::Key(KC_4), KeyDef::Key(KC_R), KeyDef::Key(KC_5), KeyDef::Key(KC_T), KeyDef::Key(KC_6), KeyDef::Key(KC_7), KeyDef::Key(KC_Y), KeyDef::Key(KC_U)],
            seq![KeyDef::Key(KC_B), KeyDef::Key(KC_G), KeyDef::Key(KC_V), KeyDef::Key(KC_C), KeyDef::Key(KC_L_ALT), KeyDef::Key(KC_X), KeyDef::Key(KC_F), KeyDef::Key(KC_D)],
            seq![KeyDef::Key(KC_8), KeyDef::Key(KC_I), KeyDef::Key(KC_9), KeyDef::Key(KC_0), KeyDef::Key(KC_MINUS), KeyDef::Key(KC_O), KeyDef::Key(KC_P), KeyDef::Key(KC_LEFT_BRACKET)],
            seq![KeyDef::Key(KC_L), KeyDef::Key(KC_COMMA), KeyDef::Key(KC_M), KeyDef::Key(KC_SPACE), KeyDef::Key(KC_N), KeyDef::Key(KC_K), KeyDef::Key(KC_J), KeyDef::Key(KC_H)],
            seq![KeyDef::Key(KC_EQUAL), KeyDef::Key(KC_BACKSLASH), KeyDef::Key(KC_GRAVE), KeyDef::Key(KC_RIGHT_BRACKET), KeyDef::Key(KC_BACKSPACE), KeyDef::Key(KC_ENTER), KeyDef::Key(KC_R_SHIFT), KeyDef::No],
            seq![KeyDef::MomentaryLayer(1), KeyDef::No, KeyDef::Key(KC_R_GUI), KeyDef::Key(KC_R_ALT), KeyDef::Key(KC_SLASH), KeyDef::Key(KC_DOT), KeyDef::Key(KC_QUOTE), KeyDef::Key(KC_SEMICOLON)],
            seq![KeyDef::No, KeyDef::No, KeyDef::No, KeyDef::No, KeyDef::No, KeyDef::No, KeyDef::No, KeyDef::No],
        ],
        seq![
            seq![KeyDef::Transparent, KeyDef::Key(KC_CAPS_LOCK), KeyDef::Transparent, KeyDef::Transparent, KeyDef::Key(KC_F1), KeyDef::Key(KC_F2), KeyDef::Key(KC_F3), KeyDef::Transparent],
            seq![KeyDef::Transparent, KeyDef::Transparent, KeyDef::Transparent, KeyDef::No, KeyDef::No, KeyDef::Transparent, KeyDef::Transparent, KeyDef::Transparent],
            seq![KeyDef::Key(KC_F4), KeyDef::Transparent, KeyDef::Key(KC_F5), KeyDef::Transparent, KeyDef::Key(KC_F6), KeyDef::Key(KC_F7), KeyDef::Transparent, KeyDef::Transparent],
            seq![KeyDef::Bootloader, KeyDef::Transparent, KeyDef::Transparent, KeyDef::Transparent, KeyDef::Transparent, KeyDef::Transparent, KeyDef::Transparent, KeyDef::Transparent],
            seq![KeyDef::Key(KC_F8), KeyDef::Transparent, KeyDef::Key(KC_F9), KeyDef::Key(KC_F10), KeyDef::Key(KC_F11), KeyDef::Transparent, KeyDef::Transparent, KeyDef::Key(KC_UP)],
            seq![KeyDef::Key(KC_HOME), KeyDef::Key(KC_END), KeyDef::Transparent, KeyDef::Transparent, KeyDef::Transparent, KeyDef::Transparent, KeyDef::Transparent, KeyDef::Transparent],
            seq![KeyDef::Key(KC_F12), KeyDef::Key(KC_INSERT), KeyDef::Key(KC_DELETE), KeyDef::Key(KC_PAGE_UP), KeyDef::Transparent, KeyDef::Transparent, KeyDef::Transparent, KeyDef::No],
            seq![KeyDef::Transparent, KeyDef::No, KeyDef::Transparent, KeyDef::Transparent, KeyDef::Key(KC_DOWN), KeyDef::Key(KC_PAGE_DOWN), KeyDef::Key(KC_RIGHT), KeyDef::Key(KC_LEFT)],
            seq![KeyDef::No, KeyDef::No, KeyDef::No, KeyDef::No, KeyDef::No, KeyDef::No, KeyDef::No, KeyDef::No],
        ],
    ]
}

/// The default keymap. Layer 1 puts the function row on the number row, an
/// arrow cluster on the right of the alpha block, and the bootloader key on
/// B.
///
/// ```text
///        [ Up      ] PgUp
///   L Home  ; Left   ' Right
///   , End   . PgDn   / Down
/// ```
pub fn default_keymap() -> (km: [[[KeyDef; 8]; 9]; 2])
    ensures
        forall|l: int, r: int, c: int|
            0 <= l < 2 && 0 <= r < 9 && 0 <= c < 8 ==> #[trigger] km[l][r][c] == spec_default_keymap()[l][r][c],
        forall|l: int, r: int, c: int|
            0 <= l < 2 && 0 <= r < 9 && 0 <= c < 8 && km[l][r][c] is TapHold ==> #[trigger] km[l][r][c]->profile
                < spec_profiles().len(),
{
    let km = [
        [
            [KeyDef::Key(KC_ESCAPE), KeyDef::Key(KC_TAB), KeyDef::Key(KC_Q), KeyDef::Key(KC_W), KeyDef::Key(KC_1), KeyDef::Key(KC_2), KeyDef::Key(KC_3), KeyDef::Key(KC_E)],
            [KeyDef::Key(KC_Z), KeyDef::Key(KC_L_GUI), KeyDef::Key(KC_S), KeyDef::No, KeyDef::No, KeyDef::Key(KC_L_SHIFT), KeyDef::Key(KC_A), KeyDef::TapHold { tap: KC_ESCAPE, hold_mods: MOD_LCTRL, profile: NAV }],
            [KeyDef::Key(KC_4), KeyDef::Key(KC_R), KeyDef::Key(KC_5), KeyDef::Key(KC_T), KeyDef::Key(KC_6), KeyDef::Key(KC_7), KeyDef::Key(KC_Y), KeyDef::Key(KC_U)],
            [KeyDef::Key(KC_B), KeyDef::Key(KC_G), KeyDef::Key(KC_V), KeyDef::Key(KC_C), KeyDef::Key(KC_L_ALT), KeyDef::Key(KC_X), KeyDef::Key(KC_F), KeyDef::Key(KC_D)],
            [KeyDef::Key(KC_8), KeyDef::Key(KC_I), KeyDef::Key(KC_9), KeyDef::Key(KC_0), KeyDef::Key(KC_MINUS), KeyDef::Key(KC_O), KeyDef::Key(KC_P), KeyDef::Key(KC_LEFT_BRACKET)],
            [KeyDef::Key(KC_L), KeyDef::Key(KC_COMMA), KeyDef::Key(KC_M), KeyDef::Key(KC_SPACE), KeyDef::Key(KC_N), KeyDef::Key(KC_K), KeyDef::Key(KC_J), KeyDef::Key(KC_H)],
            [KeyDef::Key(KC_EQUAL), KeyDef::Key(KC_BACKSLASH), KeyDef::Key(KC_GRAVE), KeyDef::Key(KC_RIGHT_BRACKET), KeyDef::Key(KC_BACKSPACE), KeyDef::Key(KC_ENTER), KeyDef::Key(KC_R_SHIFT), KeyDef::No],
            [KeyDef::MomentaryLayer(1), KeyDef::No, KeyDef::Key(KC_R_GUI), KeyDef::Key(KC_R_ALT), KeyDef::Key(KC_SLASH), KeyDef::Key(KC_DOT), KeyDef::Key(KC_QUOTE), KeyDef::Key(KC_SEMICOLON)],
            [KeyDef::No, KeyDef::No, KeyDef::No, KeyDef::No, KeyDef::No, KeyDef::No, KeyDef::No, KeyDef::No],
        ],
        [
            [KeyDef::Transparent, KeyDef::Key(KC_CAPS_LOCK), KeyDef::Transparent, KeyDef::Transparent, KeyDef::Key(KC_F1), KeyDef::Key(KC_F2), KeyDef::Key(KC_F3), KeyDef::Transparent],
            [KeyDef::Transparent, KeyDef::Transparent, KeyDef::Transparent, KeyDef::No, KeyDef::No, KeyDef::Transparent, KeyDef::Transparent, KeyDef::Transparent],
            [KeyDef::Key(KC_F4), KeyDef::Transparent, KeyDef::Key(KC_F5), KeyDef::Transparent, KeyDef::Key(KC_F6), KeyDef::Key(KC_F7), KeyDef::Transparent, KeyDef::Transparent],
            [KeyDef::Bootloader, KeyDef::Transparent, KeyDef::Transparent, KeyDef::Transparent, KeyDef::Transparent, KeyDef::Transparent, KeyDef::Transparent, KeyDef::Transparent],
            [KeyDef::Key(KC_F8), KeyDef::Transparent, KeyDef::Key(KC_F9), KeyDef::Key(KC_F10), KeyDef::Key(KC_F11), KeyDef::Transparent, KeyDef::Transparent, KeyDef::Key(KC_UP)],
            [KeyDef::Key(KC_HOME), KeyDef::Key(KC_END), KeyDef::Transparent, KeyDef::Transparent, KeyDef::Transparent, KeyDef::Transparent, KeyDef::Transparent, KeyDef::Transparent],
            [KeyDef::Key(KC_F12), KeyDef::Key(KC_INSERT), KeyDef::Key(KC_DELETE), KeyDef::Key(KC_PAGE_UP), KeyDef::Transparent, KeyDef::Transparent, KeyDef::Transparent, KeyDef::No],
            [KeyDef::Transparent, KeyDef::No, KeyDef::Transparent, KeyDef::Transparent, KeyDef::Key(KC_DOWN), KeyDef::Key(KC_PAGE_DOWN), KeyDef::Key(KC_RIGHT), KeyDef::Key(KC_LEFT)],
            [KeyDef::No, KeyDef::No, KeyDef::No, KeyDef::No, KeyDef::No, KeyDef::No, KeyDef::No, KeyDef::No],
        ],
    ];
    proof {
        lemma_tap_hold_profiles_exist();
    }
    assert forall|l: int, r: int, c: int| 0 <= l < 2 && 0 <= r < 9 && 0 <= c < 8 implies #[trigger] km[l][r][c]
        == spec_default_keymap()[l][r][c] by {
        assert(km@[l]@[r]@[c] == spec_default_keymap()[l][r][c]);
    }
    km
}

/// Layer 0 follows the board's wiring, position by position along the chain:
/// chain row 0 holds Esc, Tab, Q, W, 1, 2, 3, E.
/// chain row 1 holds Z, Left GUI, S, two empty positions, Left Shift, A, and the Esc/Ctrl tap-hold key.
/// chain row 2 holds 4, R, 5, T, 6, 7, Y, U.
pub proof fn lemma_wiring_first_rows()
    ensures
        spec_default_keymap()[0][0][0] == KeyDef::Key(KC_ESCAPE),
        spec_default_keymap()[0][0][1] == KeyDef::Key(KC_TAB),
        spec_default_keymap()[0][0][2] == KeyDef::Key(KC_Q),
        spec_default_keymap()[0][0][3] == KeyDef::Key(KC_W),
        spec_default_keymap()[0][0][4] == KeyDef::Key(KC_1),
        spec_default_keymap()[0][0][5] == KeyDef::Key(KC_2),
        spec_default_keymap()[0][0][6] == KeyDef::Key(KC_3),
        spec_default_keymap()[0][0][7] == KeyDef::Key(KC_E),
        spec_default_keymap()[0][1][0] == KeyDef::Key(KC_Z),
        spec_default_keymap()[0][1][1] == KeyDef::Key(KC_L_GUI),
        spec_default_keymap()[0][1][2] == KeyDef::Key(KC_S),
        spec_default_keymap()[0][1][3] == KeyDef::No,
        spec_default_keymap()[0][1][4] == KeyDef::No,
        spec_default_keymap()[0][1][5] == KeyDef::Key(KC_L_SHIFT),
        spec_default_keymap()[0][1][6] == KeyDef::Key(KC_A),
        spec_default_keymap()[0][1][7] == (KeyDef::TapHold { tap: KC_ESCAPE, hold_mods: MOD_LCTRL, profile: NAV }),
        spec_default_keymap()[0][2][0] == KeyDef::Key(KC_4),
        spec_default_keymap()[0][2][1] == KeyDef::Key(KC_R),
        spec_default_keymap()[0][2][2] == KeyDef::Key(KC_5),
        spec_default_keymap()[0][2][3] == KeyDef::Key(KC_T),
        spec_default_keymap()[0][2][4] == KeyDef::Key(KC_6),
        spec_default_keymap()[0][2][5] == KeyDef::Key(KC_7),
        spec_default_keymap()[0][2][6] == KeyDef::Key(KC_Y),
        spec_default_keymap()[0][2][7] == KeyDef::Key(KC_U),
{
}

/// Layer 0 follows the board's wiring, position by position along the chain:
/// chain row 3 holds B, G, V, C, Left Alt, X, F, D.
/// chain row 4 holds 8, I, 9, 0, -, O, P, [.
/// chain row 5 holds L, comma, M, Space, N, K, J, H.
pub proof fn lemma_wiring_middle_rows()
    ensures
        spec_default_keymap()[0][3][0] == KeyDef::Key(KC_B),
        spec_default_keymap()[0][3][1] == KeyDef::Key(KC_G),
        spec_default_keymap()[0][3][2] == KeyDef::Key(KC_V),
        spec_default_keymap()[0][3][3] == KeyDef::Key(KC_C),
        spec_default_keymap()[0][3][4] == KeyDef::Key(KC_L_ALT),
        spec_default_keymap()[0][3][5] == KeyDef::Key(KC_X),
        spec_default_keymap()[0][3][6] == KeyDef::Key(KC_F),
        spec_default_keymap()[0][3][7] == KeyDef::Key(KC_D),
        spec_default_keymap()[0][4][0] == KeyDef::Key(KC_8),
        spec_default_keymap()[0][4][1] == KeyDef::Key(KC_I),
        spec_default_keymap()[0][4][2] == KeyDef::Key(KC_9),
        spec_default_keymap()[0][4][3] == KeyDef::Key(KC_0),
        spec_default_keymap()[0][4][4] == KeyDef::Key(KC_MINUS),
        spec_default_keymap()[0][4][5] == KeyDef::Key(KC_O),
        spec_default_keymap()[0][4][6] == KeyDef::Key(KC_P),
        spec_default_keymap()[0][4][7] == KeyDef::Key(KC_LEFT_BRACKET),
        spec_default_keymap()[0][5][0] == KeyDef::Key(KC_L),
        spec_default_keymap()[0][5][1] == KeyDef::Key(KC_COMMA),
        spec_default_keymap()[0][5][2] == KeyDef::Key(KC_M),
        spec_default_keymap()[0][5][3] == KeyDef::Key(KC_SPACE),
        spec_default_keymap()[0][5][4] == KeyDef::Key(KC_N),
        spec_default_keymap()[0][5][5] == KeyDef::Key(KC_K),
        spec_default_keymap()[0][5][6] == KeyDef::Key(KC_J),
        spec_default_keymap()[0][5][7] == KeyDef::Key(KC_H),
{
}

/// Layer 0 follows the board's wiring, position by position along the chain:
/// chain row 6 holds =, backslash, grave, ], Backspace, Enter, Right Shift, and one empty position.
/// chain row 7 holds the layer-1 hold key, one empty position, Right GUI, Right Alt, /, ., ', ;.
/// chain row 8 holds no key at all.
pub proof fn lemma_wiring_last_rows()
    ensures
        spec_default_keymap()[0][6][0] == KeyDef::Key(KC_EQUAL),
        spec_default_keymap()[0][6][1] == KeyDef::Key(KC_BACKSLASH),
        spec_default_keymap()[0][6][2] == KeyDef::Key(KC_GRAVE),
        spec_default_keymap()[0][6][3] == KeyDef::Key(KC_RIGHT_BRACKET),
        spec_default_keymap()[0][6][4] == KeyDef::Key(KC_BACKSPACE),
        spec_default_keymap()[0][6][5] == KeyDef::Key(KC_ENTER),
        spec_default_keymap()[0][6][6] == KeyDef::Key(KC_R_SHIFT),
        spec_default_keymap()[0][6][7] == KeyDef::No,
        spec_default_keymap()[0][7][0] == KeyDef::MomentaryLayer(1),
        spec_default_keymap()[0][7][1] == KeyDef::No,
        spec_default_keymap()[0][7][2] == KeyDef::Key(KC_R_GUI),
        spec_default_keymap()[0][7][3] == KeyDef::Key(KC_R_ALT),
        spec_default_keymap()[0][7][4] == KeyDef::Key(KC_SLASH),
        spec_default_keymap()[0][7][5] == KeyDef::Key(KC_DOT),
        spec_default_keymap()[0][7][6] == KeyDef::Key(KC_QUOTE),
        spec_default_keymap()[0][7][7] == KeyDef::Key(KC_SEMICOLON),
        spec_default_keymap()[0][8][0] == KeyDef::No,
        spec_default_keymap()[0][8][1] == KeyDef::No,
        spec_default_keymap()[0][8][2] == KeyDef::No,
        spec_default_keymap()[0][8][3] == KeyDef::No,
        spec_default_keymap()[0][8][4] == KeyDef::No,
        spec_default_keymap()[0][8][5] == KeyDef::No,
        spec_default_keymap()[0][8][6] == KeyDef::No,
        spec_default_keymap()[0][8][7] == KeyDef::No,
{
}

/// What layer 1 holds over a layer-0 key: the function row over the number
/// row, Caps Lock over Tab, the arrow cluster and its Home/End/PgUp/PgDn over
/// the right of the alpha block, Insert and Delete over `\` and `` ` ``, and
/// the bootloader over B. Every other key falls through, and a position with
/// no key has none on layer 1 either.
pub open spec fn layer1_over(k: KeyDef) -> KeyDef {
    match k {
        KeyDef::No => KeyDef::No,
        KeyDef::Key(code) => {
            if code == KC_TAB {
                KeyDef::Key(KC_CAPS_LOCK)
            } else if code == KC_1 {
                KeyDef::Key(KC_F1)
            } else if code == KC_2 {
                KeyDef::Key(KC_F2)
            } else if code == KC_3 {
                KeyDef::Key(KC_F3)
            } else if code == KC_4 {
                KeyDef::Key(KC_F4)
            } else if code == KC_5 {
                KeyDef::Key(KC_F5)
            } else if code == KC_6 {
                KeyDef::Key(KC_F6)
            } else if code == KC_7 {
                KeyDef::Key(KC_F7)
            } else if code == KC_8 {
                KeyDef::Key(KC_F8)
            } else if code == KC_9 {
                KeyDef::Key(KC_F9)
            } else if code == KC_0 {
                KeyDef::Key(KC_F10)
            } else if code == KC_MINUS {
                KeyDef::Key(KC_F11)
            } else if code == KC_EQUAL {
                KeyDef::Key(KC_F12)
            } else if code == KC_LEFT_BRACKET {
                KeyDef::Key(KC_UP)
            } else if code == KC_RIGHT_BRACKET {
                KeyDef::Key(KC_PAGE_UP)
            } else if code == KC_SEMICOLON {
                KeyDef::Key(KC_LEFT)
            } else if code == KC_QUOTE {
                KeyDef::Key(KC_RIGHT)
            } else if code == KC_L {
                KeyDef::Key(KC_HOME)
            } else if code == KC_COMMA {
                KeyDef::Key(KC_END)
            } else if code == KC_DOT {
                KeyDef::Key(KC_PAGE_DOWN)
            } else if code == KC_SLASH {
                KeyDef::Key(KC_DOWN)
            } else if code == KC_BACKSLASH {
                KeyDef::Key(KC_INSERT)
            } else if code == KC_GRAVE {
                KeyDef::Key(KC_DELETE)
            } else if code == KC_B {
                KeyDef::Bootloader
            } else {
                KeyDef::Transparent
            }
        },
        _ => KeyDef::Transparent,
    }
}

/// Layer 1 of the default keymap is `layer1_over` of layer 0, position by
/// position.
pub proof fn lemma_layer1_layout()
    ensures
        forall|r: int, c: int|
            0 <= r < 9 && 0 <= c < 8 ==> #[trigger] spec_default_keymap()[1][r][c] == layer1_over(
                spec_default_keymap()[0][r][c],
            ),
{
    let km = spec_default_keymap();
    assert forall|r: int, c: int| 0 <= r < 9 && 0 <= c < 8 implies #[trigger] spec_default_keymap()[1][r][c]
        == layer1_over(spec_default_keymap()[0][r][c]) by {
        assert(km[1][r][c] == layer1_over(km[0][r][c]));
    }
}

/// Tap-hold timing of one profile.
#[derive(Clone, Copy, PartialEq, Eq, Debug, Structural)]
pub struct ProfileDef {
    pub unilateral_tap: Option<bool>,
    /// Resolve to the hold the moment another key goes down.
    pub hold_on_other_press: bool,
    /// What a hold with no other key costs before it counts as the hold.
    pub hold_timeout_ms: Option<u16>,
    pub gap_timeout_ms: Option<u16>,
    /// Whether a press soon after the previous keystroke resolves as a tap.
    pub enable_flow_tap: Option<bool>,
}

/// The tap-hold profile table, in the order it is loaded. A `TapHold` key
/// carries an index into it.
pub open spec fn spec_profiles() -> Seq<ProfileDef> {
    seq![
        ProfileDef {
            unilateral_tap: None,
            hold_on_other_press: true,
            hold_timeout_ms: Some(180),
            gap_timeout_ms: None,
            enable_flow_tap: Some(false),
        },
    ]
}

/// Every tap-hold key of the default keymap names a profile that the table
/// holds.
pub proof fn lemma_tap_hold_profiles_exist()
    ensures
        forall|l: int, r: int, c: int|
            0 <= l < 2 && 0 <= r < 9 && 0 <= c < 8 && (#[trigger] spec_default_keymap()[l][r][c]) is TapHold
                ==> spec_default_keymap()[l][r][c]->profile < spec_profiles().len(),
{
    let km = spec_default_keymap();
    assert forall|l: int, r: int, c: int|
        0 <= l < 2 && 0 <= r < 9 && 0 <= c < 8 && (#[trigger] spec_default_keymap()[l][r][c]) is TapHold implies spec_default_keymap()[l][r][c]->profile
        < spec_profiles().len() by {
        assert(km[l][r][c] is TapHold ==> km[l][r][c]->profile == NAV);
    }
}

/// Tap-hold settings for every key.
pub struct BehaviorSettings {
    /// A tap-hold pressed within `prior_idle_time_ms` of the previous
    /// keypress resolves as a tap, for any profile that does not opt out.
    pub enable_flow_tap: bool,
    pub prior_idle_time_ms: u64,
    /// The profile table.
    pub profiles: Vec<ProfileDef>,
}

/// The tap-hold settings: flow tap on, 120 ms of idle, and the nav profile
/// (hold on another press, 180 ms hold timeout, flow tap off).
pub fn behavior_settings() -> (b: BehaviorSettings)
    ensures
        b.enable_flow_tap,
        b.prior_idle_time_ms == 120,
        b.profiles@ == spec_profiles(),
{
    let mut profiles: Vec<ProfileDef> = Vec::new();
    profiles.push(
        ProfileDef {
            unilateral_tap: None,
            hold_on_other_press: true,
            hold_timeout_ms: Some(180),
            gap_timeout_ms: None,
            enable_flow_tap: Some(false),
        },
    );
    BehaviorSettings { enable_flow_tap: true, prior_idle_time_ms: 120, profiles }
}

} // verus!
