use std::collections::HashMap;

use monadeck_overlay::keyboard::{
    clip_preview, initial_layout, key_events, mapped_labels, mod_code, mod_name, panel_px, printable_label, KeyAction, KeyKind,
    KeyLabels, KeyLatch, KEY_C, MOD_ALTGR, MOD_CTRL, MOD_DOUBLE_TAP_MS, MOD_SHIFT, MOD_SUPER,
};

fn labels() -> KeyLabels {
    let mut m: HashMap<u16, [String; 3]> = HashMap::new();
    m.insert(30, ["a".into(), "A".into(), "æ".into()]);
    m.insert(2, ["1".into(), "!".into(), "¹".into()]);
    m.insert(12, ["-".into(), "-".into(), "–".into()]);
    KeyLabels { layout_names: vec!["English (US)".into(), "German".into()], per_layout: vec![m, HashMap::new()], current: 0 }
}

#[test]
fn letters_read_as_capitals_and_symbols_show_their_shift() {
    let l = labels();
    assert_eq!(mapped_labels(&l, 30, 0), ("A".to_string(), String::new()));
    assert_eq!(mapped_labels(&l, 30, MOD_SHIFT), ("A".to_string(), String::new()));
    assert_eq!(mapped_labels(&l, 30, MOD_ALTGR | MOD_SHIFT), ("æ".to_string(), String::new()));
    assert_eq!(mapped_labels(&l, 2, 0), ("1".to_string(), "!".to_string()));
    assert_eq!(mapped_labels(&l, 12, 0), ("-".to_string(), String::new()));
    assert_eq!(mapped_labels(&l, 99, 0), (String::new(), String::new()));
    assert_eq!(l.layout_name(), "English (US)");
    assert_eq!(l.next_layout(), Some(1));
    let mut off = labels();
    off.current = 5;
    assert!(off.current().is_none());
    assert_eq!(off.layout_name(), "");
}

#[test]
fn modifiers_latch_once_and_double_tap_alone() {
    let mut k = KeyLatch::new();
    k.press(KeyKind::Modifier(MOD_CTRL), 0, 100);
    k.press(KeyKind::Mapped, KEY_C, 200);
    assert_eq!(k.pending, vec![KeyAction::Tap { code: KEY_C, mods: MOD_CTRL }]);
    assert_eq!(k.latched, 0);
    k.press(KeyKind::Modifier(MOD_SUPER), 0, 1_000);
    k.press(KeyKind::Modifier(MOD_SUPER), 0, 1_000 + MOD_DOUBLE_TAP_MS - 1);
    assert_eq!(k.pending[1], KeyAction::Toggle(mod_code(MOD_SUPER)));
    assert_eq!(k.latched, 0);
    k.press(KeyKind::Modifier(MOD_SHIFT), 0, 5_000);
    assert_eq!(k.latched, MOD_SHIFT);
    // A second tap after the window just unlatches.
    k.press(KeyKind::Modifier(MOD_SHIFT), 0, 5_000 + MOD_DOUBLE_TAP_MS);
    assert_eq!(k.latched, 0);
    assert_eq!(k.pending.len(), 2);
    k.press(KeyKind::Paste, 0, 9_000);
    assert_eq!(k.pending.last(), Some(&KeyAction::Tap { code: 47, mods: MOD_CTRL }));
    k.press(KeyKind::Caps, 0, 9_100);
    assert!(k.caps);
    assert_eq!(mod_name(MOD_SUPER), "Super");
    assert_eq!(mod_name(0x80), "AltGr");
}

#[test]
fn panel_and_top_bar_text() {
    assert_eq!(panel_px(), (1416, 465));
    assert_eq!(printable_label("a\u{7}b\u{85}"), "ab");
    assert_eq!(initial_layout(Some(4), 2), 1);
    assert_eq!(initial_layout(None, 0), 0);
    let long = "x".repeat(50);
    assert_eq!(clip_preview(&long), format!("{}…", "x".repeat(48)));
    assert_eq!(clip_preview("short"), "short");
}

use monadeck_overlay::keyboard::keymap_text;

#[test]
fn the_shared_keymap_ends_at_its_nul() {
    assert_eq!(keymap_text(b"xkb_keymap {}\0garbage"), Some("xkb_keymap {}".to_string()));
    assert_eq!(keymap_text(b"no nul"), Some("no nul".to_string()));
    assert_eq!(keymap_text(b"\xff\0"), None);
}

#[test]
fn a_tap_holds_its_modifiers_around_the_key() {
    let ev = key_events(KeyAction::Tap { code: 30, mods: MOD_CTRL | MOD_SHIFT | MOD_ALTGR });
    assert_eq!(
        ev,
        vec![(42, true), (29, true), (100, true), (30, true), (30, false), (100, false), (29, false), (42, false)]
    );
    assert_eq!(key_events(KeyAction::Tap { code: 57, mods: 0 }), vec![(57, true), (57, false)]);
    assert_eq!(key_events(KeyAction::Toggle(58)), vec![(58, true), (58, false)]);
    assert_eq!(key_events(KeyAction::Tap { code: KEY_C, mods: MOD_SUPER }), vec![(125, true), (46, true), (46, false), (125, false)]);
}

#[test]
fn every_typed_key_is_released_later() {
    for mods in 0u8..32 {
        let ev = key_events(KeyAction::Tap { code: 30, mods });
        for (i, &(k, down)) in ev.iter().enumerate() {
            if down {
                assert!(ev[i + 1..].contains(&(k, false)), "mods {mods}: key {k} stays down");
            }
        }
        assert_eq!(ev.len(), 2 + 2 * mods.count_ones() as usize);
    }
}
