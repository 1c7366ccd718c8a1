//! The VR keyboard's rules: modifier latches (one-shot, double tap to send
//! a modifier alone), Caps Lock, the chord shortcuts, the labels a key shows
//! under the latched level, and the keyboard panel's size. Drawing it stays
//! with the program.
use std::collections::HashMap;
use vstd::prelude::*;

use crate::osc::utf8_str;
use crate::text::{chars_of, string_of};
use vstd::utf8::*;

verus! {

/// evdev code of the left Shift key.
pub const KEY_LEFTSHIFT: u16 = 42;
/// evdev code of the left Ctrl key.
pub const KEY_LEFTCTRL: u16 = 29;
/// evdev code of the left Alt key.
pub const KEY_LEFTALT: u16 = 56;
/// evdev code of the right Alt (AltGr) key.
pub const KEY_RIGHTALT: u16 = 100;
/// evdev code of the left Super key.
pub const KEY_LEFTMETA: u16 = 125;

pub const MOD_SHIFT: u8 = 1;
pub const MOD_CTRL: u8 = 2;
pub const MOD_ALT: u8 = 4;
pub const MOD_SUPER: u8 = 8;
pub const MOD_ALTGR: u8 = 16;

/// The evdev key a modifier bit stands for (anything unknown is AltGr).
pub open spec fn spec_mod_code(m: u8) -> u16 {
    if m == MOD_SHIFT {
        KEY_LEFTSHIFT
    } else if m == MOD_CTRL {
        KEY_LEFTCTRL
    } else if m == MOD_ALT {
        KEY_LEFTALT
    } else if m == MOD_SUPER {
        KEY_LEFTMETA
    } else {
        KEY_RIGHTALT
    }
}

/// The evdev key a modifier bit is pressed as.
pub fn mod_code(m: u8) -> (r: u16)
    ensures
        r == spec_mod_code(m),
{
    match m {
        MOD_SHIFT => KEY_LEFTSHIFT,
        MOD_CTRL => KEY_LEFTCTRL,
        MOD_ALT => KEY_LEFTALT,
        MOD_SUPER => KEY_LEFTMETA,
        _ => KEY_RIGHTALT,
    }
}

/// evdev code of Caps Lock.
pub const KEY_CAPSLOCK: u16 = 58;
/// evdev codes of C, V and X (the chord shortcuts).
pub const KEY_C: u16 = 46;
pub const KEY_V: u16 = 47;
pub const KEY_X: u16 = 45;

/// Tapping a latched modifier again within this window (ms) sends it on its
/// own (a solo Super press opens the app launcher).
pub const MOD_DOUBLE_TAP_MS: u64 = 1500;

/// The label of a modifier bit (anything unknown is AltGr).
pub open spec fn spec_mod_name(m: u8) -> &'static str {
    if m == MOD_SHIFT {
        "Shift"
    } else if m == MOD_CTRL {
        "Ctrl"
    } else if m == MOD_ALT {
        "Alt"
    } else if m == MOD_SUPER {
        "Super"
    } else {
        "AltGr"
    }
}

pub fn mod_name(m: u8) -> (r: &'static str)
    ensures
        r == spec_mod_name(m),
{
    match m {
        MOD_SHIFT => "Shift",
        MOD_CTRL => "Ctrl",
        MOD_ALT => "Alt",
        MOD_SUPER => "Super",
        _ => "AltGr",
    }
}

#[derive(Clone, Copy, PartialEq, Debug)]
pub enum KeyKind {
    /// Label from the xkb keymap (letters, digits, punctuation).
    Mapped,
    /// Fixed label (Esc, F-keys, nav, numpad, Space…).
    Fixed(&'static str),
    Modifier(u8),
    Caps,
    /// Chord shortcuts.
    Copy,
    Cut,
    Paste,
}

#[derive(Clone, Copy, PartialEq, Eq, Debug)]
pub enum KeyAction {
    /// Press+release `code` with the given modifier mask held.
    Tap { code: u16, mods: u8 },
    /// Press+release a modifier key on its own (Caps Lock toggle).
    Toggle(u16),
}

/// Modifier latches, Caps Lock and the key actions waiting to be typed.
pub struct KeyLatch {
    pub latched: u8,
    pub caps: bool,
    /// Last modifier latched and when (double-tap detection).
    pub latch_at: Option<(u8, u64)>,
    pub pending: Vec<KeyAction>,
}

/// The modifier `m` was latched within the double-tap window before `now`.
pub open spec fn is_double_tap(latched: u8, latch_at: Option<(u8, u64)>, m: u8, now: u64) -> bool {
    &&& latched & m != 0
    &&& latch_at matches Some((pm, t)) && pm == m && now >= t && now - t < MOD_DOUBLE_TAP_MS
}

/// The latch state as plain values: latched mask, Caps, the last latch,
/// the actions waiting.
pub ghost struct LatchModel {
    pub latched: u8,
    pub caps: bool,
    pub latch_at: Option<(u8, u64)>,
    pub pending: Seq<KeyAction>,
}

impl View for KeyLatch {
    type V = LatchModel;

    open spec fn view(&self) -> LatchModel {
        LatchModel { latched: self.latched, caps: self.caps, latch_at: self.latch_at, pending: self.pending@ }
    }
}

/// The action a non-modifier key sends: the chord shortcuts with Ctrl,
/// anything else with the latched modifiers.
pub open spec fn key_action(kind: KeyKind, code: u16, latched: u8) -> KeyAction {
    match kind {
        KeyKind::Copy => KeyAction::Tap { code: KEY_C, mods: MOD_CTRL },
        KeyKind::Cut => KeyAction::Tap { code: KEY_X, mods: MOD_CTRL },
        KeyKind::Paste => KeyAction::Tap { code: KEY_V, mods: MOD_CTRL },
        _ => KeyAction::Tap { code, mods: latched },
    }
}

/// One click on a key of `kind` (evdev `code`) at `now`. Modifiers latch
/// or, tapped twice quickly, go out on their own; Caps toggles; any other key
/// goes out with the latched modifiers, which then release.
pub open spec fn spec_press(s: LatchModel, kind: KeyKind, code: u16, now: u64) -> LatchModel {
    match kind {
        KeyKind::Modifier(m) => if is_double_tap(s.latched, s.latch_at, m, now) {
            LatchModel {
                latched: s.latched & !m,
                latch_at: None,
                pending: s.pending.push(KeyAction::Toggle(spec_mod_code(m))),
                ..s
            }
        } else {
            LatchModel {
                latched: s.latched ^ m,
                latch_at: if (s.latched ^ m) & m != 0 {
                    Some((m, now))
                } else {
                    None
                },
                ..s
            }
        },
        KeyKind::Caps => LatchModel { caps: !s.caps, pending: s.pending.push(KeyAction::Toggle(KEY_CAPSLOCK)), ..s },
        _ => LatchModel {
            pending: s.pending.push(key_action(kind, code, s.latched)),
            latched: 0,
            latch_at: None,
            ..s
        },
    }
}

impl KeyLatch {
    pub fn new() -> (r: Self)
        ensures
            r@ == (LatchModel { latched: 0, caps: false, latch_at: None, pending: Seq::empty() }),
    {
        KeyLatch { latched: 0, caps: false, latch_at: None, pending: Vec::new() }
    }

    /// A key of `kind` (evdev `code`) clicked at `now`.
    pub fn press(&mut self, kind: KeyKind, code: u16, now: u64)
        ensures
            final(self)@ == spec_press(old(self)@, kind, code, now),
    {
        match kind {
            KeyKind::Modifier(m) => {
                let double = self.latched & m != 0 && match self.latch_at {
                    Some((pm, t)) => pm == m && now >= t && now - t < MOD_DOUBLE_TAP_MS,
                    None => false,
                };
                if double {
                    self.latched = self.latched & !m;
                    self.latch_at = None;
                    self.pending.push(KeyAction::Toggle(mod_code(m)));
                } else {
                    self.latched = self.latched ^ m;
                    self.latch_at = if self.latched & m != 0 {
                        Some((m, now))
                    } else {
                        None
                    };
                }
            },
            KeyKind::Caps => {
                self.caps = !self.caps;
                self.pending.push(KeyAction::Toggle(KEY_CAPSLOCK));
            },
            _ => {
                let action = match kind {
                    KeyKind::Copy => KeyAction::Tap { code: KEY_C, mods: MOD_CTRL },
                    KeyKind::Cut => KeyAction::Tap { code: KEY_X, mods: MOD_CTRL },
                    KeyKind::Paste => KeyAction::Tap { code: KEY_V, mods: MOD_CTRL },
                    _ => KeyAction::Tap { code, mods: self.latched },
                };
                self.pending.push(action);
                self.latched = 0;
                self.latch_at = None;
            },
        }
    }
}

/// A latched modifier applies to the next key only: with nothing latched,
/// clicking a modifier and then a mapped key sends that key with the
/// modifier held, and nothing stays latched.
pub proof fn modifier_is_one_shot(s: LatchModel, m: u8, code: u16, t1: u64, t2: u64)
    requires
        s.latched == 0,
        m != 0,
    ensures
        ({
            let s2 = spec_press(spec_press(s, KeyKind::Modifier(m), 0, t1), KeyKind::Mapped, code, t2);
            &&& s2.pending == s.pending.push(KeyAction::Tap { code, mods: m })
            &&& s2.latched == 0
            &&& s2.latch_at is None
            &&& s2.caps == s.caps
        }),
{
    assert(0u8 & m == 0) by (bit_vector);
    assert(0u8 ^ m == m) by (bit_vector);
}

/// The chord keys send their shortcut with Ctrl held, whatever is latched,
/// and leave nothing latched: Copy is Ctrl+C (evdev 46), Cut is Ctrl+X (45),
/// Paste is Ctrl+V (47).
pub proof fn chords_send_their_shortcuts(s: LatchModel, code: u16, now: u64)
    ensures
        spec_press(s, KeyKind::Copy, code, now).pending == s.pending.push(KeyAction::Tap { code: 46, mods: 2 }),
        spec_press(s, KeyKind::Cut, code, now).pending == s.pending.push(KeyAction::Tap { code: 45, mods: 2 }),
        spec_press(s, KeyKind::Paste, code, now).pending == s.pending.push(KeyAction::Tap { code: 47, mods: 2 }),
        spec_press(s, KeyKind::Copy, code, now).latched == 0,
        spec_press(s, KeyKind::Cut, code, now).latched == 0,
        spec_press(s, KeyKind::Paste, code, now).latched == 0,
{
}

/// Tapping a modifier twice within the double-tap window sends it on its
/// own (a solo Super press opens the app launcher) and leaves nothing
/// latched.
pub proof fn double_tap_sends_the_modifier(s: LatchModel, m: u8, t1: u64, t2: u64)
    requires
        s.latched == 0,
        m != 0,
        t1 <= t2,
        t2 - t1 < MOD_DOUBLE_TAP_MS,
    ensures
        ({
            let s2 = spec_press(spec_press(s, KeyKind::Modifier(m), 0, t1), KeyKind::Modifier(m), 0, t2);
            &&& s2.pending == s.pending.push(KeyAction::Toggle(spec_mod_code(m)))
            &&& s2.latched == 0
            &&& s2.latch_at is None
        }),
{
    assert(0u8 & m == 0) by (bit_vector);
    assert(0u8 ^ m == m) by (bit_vector);
    assert(m != 0 ==> m & m != 0) by (bit_vector);
    assert(m & !m == 0) by (bit_vector);
}

// --- typing -----------------------------------------------------------------------

/// The modifier keys a mask holds, in the order they go down: Shift, Ctrl,
/// Alt, Super, AltGr.
pub open spec fn held_mods(mods: u8) -> Seq<u16> {
    (if mods & MOD_SHIFT != 0 { seq![KEY_LEFTSHIFT] } else { Seq::empty() })
        + (if mods & MOD_CTRL != 0 { seq![KEY_LEFTCTRL] } else { Seq::empty() })
        + (if mods & MOD_ALT != 0 { seq![KEY_LEFTALT] } else { Seq::empty() })
        + (if mods & MOD_SUPER != 0 { seq![KEY_LEFTMETA] } else { Seq::empty() })
        + (if mods & MOD_ALTGR != 0 { seq![KEY_RIGHTALT] } else { Seq::empty() })
}

/// Each key of `keys` going down (`true`) or up (`false`).
pub open spec fn edges(keys: Seq<u16>, down: bool) -> Seq<(u16, bool)> {
    keys.map_values(|k: u16| (k, down))
}

/// What the virtual keyboard device is sent for an action: for a tap, the
/// held modifiers go down, the key goes down and up, and the modifiers come
/// up in reverse order; a toggle is the key down and up on its own.
pub open spec fn spec_key_events(a: KeyAction) -> Seq<(u16, bool)> {
    match a {
        KeyAction::Tap { code, mods } => edges(held_mods(mods), true) + seq![(code, true), (code, false)]
            + edges(held_mods(mods).reverse(), false),
        KeyAction::Toggle(code) => seq![(code, true), (code, false)],
    }
}

/// The modifier keys `mods` holds, in pressing order.
fn held_keys(mods: u8) -> (r: Vec<u16>)
    ensures
        r@ == held_mods(mods),
{
    let ghost a = if mods & MOD_SHIFT != 0 { seq![KEY_LEFTSHIFT] } else { Seq::<u16>::empty() };
    let ghost b = if mods & MOD_CTRL != 0 { seq![KEY_LEFTCTRL] } else { Seq::<u16>::empty() };
    let ghost c = if mods & MOD_ALT != 0 { seq![KEY_LEFTALT] } else { Seq::<u16>::empty() };
    let ghost d = if mods & MOD_SUPER != 0 { seq![KEY_LEFTMETA] } else { Seq::<u16>::empty() };
    let ghost e = if mods & MOD_ALTGR != 0 { seq![KEY_RIGHTALT] } else { Seq::<u16>::empty() };
    let mut held: Vec<u16> = Vec::new();
    if mods & MOD_SHIFT != 0 {
        held.push(KEY_LEFTSHIFT);
    }
    assert(held@ =~= a);
    if mods & MOD_CTRL != 0 {
        held.push(KEY_LEFTCTRL);
    }
    assert(held@ =~= a + b);
    if mods & MOD_ALT != 0 {
        held.push(KEY_LEFTALT);
    }
    assert(held@ =~= a + b + c);
    if mods & MOD_SUPER != 0 {
        held.push(KEY_LEFTMETA);
    }
    assert(held@ =~= a + b + c + d);
    if mods & MOD_ALTGR != 0 {
        held.push(KEY_RIGHTALT);
    }
    assert(held@ =~= a + b + c + d + e);
    held
}

/// The key presses (`true`) and releases (`false`) that type `a`.
pub fn key_events(a: KeyAction) -> (r: Vec<(u16, bool)>)
    ensures
        r@ == spec_key_events(a),
{
    match a {
        KeyAction::Tap { code, mods } => {
            let held = held_keys(mods);
            let mut out: Vec<(u16, bool)> = Vec::new();
            let mut i: usize = 0;
            while i < held.len()
                invariant
                    0 <= i <= held@.len(),
                    out@ =~= edges(held@.take(i as int), true),
                decreases held@.len() - i,
            {
                out.push((held[i], true));
                assert(held@.take(i + 1) =~= held@.take(i as int).push(held@[i as int]));
                i += 1;
            }
            assert(held@.take(i as int) =~= held@);
            out.push((code, true));
            out.push((code, false));
            let ghost front = out@;
            let mut j: usize = held.len();
            while j > 0
                invariant
                    j <= held@.len(),
                    out@ =~= front + edges(held@.reverse().take(held@.len() - j), false),
                decreases j,
            {
                j -= 1;
                out.push((held[j], false));
                proof {
                    let k = held@.len() - j;
                    assert(held@.reverse().take(k) =~= held@.reverse().take(k - 1).push(held@[j as int]));
                }
            }
            assert(held@.reverse().take(held@.len() as int) =~= held@.reverse());
            out
        },
        KeyAction::Toggle(code) => {
            let mut out: Vec<(u16, bool)> = Vec::new();
            out.push((code, true));
            out.push((code, false));
            assert(out@ =~= seq![(code, true), (code, false)]);
            out
        },
    }
}

/// Typing leaves nothing held: every key the device is told to press is
/// released again later in the same action.
pub proof fn typed_keys_come_back_up(a: KeyAction)
    ensures
        ({
            let ev = spec_key_events(a);
            forall|i: int|
                0 <= i < ev.len() && (#[trigger] ev[i]).1 ==> exists|j: int| i < j < ev.len() && ev[j] == (ev[i].0, false)
        }),
{
    let ev = spec_key_events(a);
    match a {
        KeyAction::Tap { code, mods } => {
            let h = held_mods(mods);
            let n = h.len() as int;
            assert(ev.len() == 2 * n + 2);
            assert forall|i: int| 0 <= i < ev.len() && (#[trigger] ev[i]).1 implies exists|j: int|
                i < j < ev.len() && ev[j] == (ev[i].0, false) by {
                if i < n {
                    let j = n + 2 + (n - 1 - i);
                    assert(ev[i] == (h[i], true));
                    assert(h.reverse()[n - 1 - i] == h[i]);
                    assert(ev[j] == (h[i], false));
                } else {
                    assert(i == n);
                    assert(ev[n + 1] == (code, false));
                }
            }
        },
        KeyAction::Toggle(code) => {
            assert(ev[1] == (code, false));
        },
    }
}

// --- panel size -------------------------------------------------------------------

/// The panel in egui points: 23 key units of 40 points wide plus 12-point
/// margins, a 36-point top bar and 6.25 key units tall.
pub const PANEL_POINTS_W: u32 = 944;
pub const PANEL_POINTS_H: u32 = 310;

/// Panel pixels at 1.5 pixels per point, rounded.
pub fn panel_px() -> (r: (u32, u32))
    ensures
        r.0 == (PANEL_POINTS_W * 3 + 1) / 2,
        r.1 == (PANEL_POINTS_H * 3 + 1) / 2,
{
    ((PANEL_POINTS_W * 3 + 1) / 2, (PANEL_POINTS_H * 3 + 1) / 2)
}

// --- labels -------------------------------------------------------------------------

/// What `char::is_alphabetic` says of a character (the Unicode Alphabetic
/// property).
pub uninterp spec fn unicode_alphabetic(c: char) -> bool;

/// What `str::to_uppercase` makes of a text (full Unicode case mapping).
pub uninterp spec fn unicode_upper(s: Seq<char>) -> Seq<char>;

/// `char::is_alphabetic`.
#[verifier::external_body]
fn char_alphabetic(c: char) -> (r: bool)
    ensures
        r == unicode_alphabetic(c),
{
    c.is_alphabetic()
}

/// `str::to_uppercase`.
#[verifier::external_body]
fn upper(s: &str) -> (r: String)
    ensures
        r@ == unicode_upper(s@),
{
    s.to_uppercase()
}

/// Labels per evdev keycode `[base, shift, altgr]`, for every configured
/// layout, plus which one is active.
pub struct KeyLabels {
    pub layout_names: Vec<String>,
    pub per_layout: Vec<HashMap<u16, [String; 3]>>,
    pub current: usize,
}

impl KeyLabels {
    /// The active layout's labels (`None` when the index is out of range).
    pub fn current(&self) -> (r: Option<&HashMap<u16, [String; 3]>>)
        ensures
            self.current < self.per_layout@.len() ==> r == Some(&self.per_layout@[self.current as int]),
            self.current >= self.per_layout@.len() ==> r is None,
    {
        if self.current < self.per_layout.len() {
            Some(&self.per_layout[self.current])
        } else {
            None
        }
    }

    /// The active layout's name (empty when out of range).
    pub fn layout_name(&self) -> (r: String)
        ensures
            self.current < self.layout_names@.len() ==> r@ == self.layout_names@[self.current as int]@,
            self.current >= self.layout_names@.len() ==> r@.len() == 0,
    {
        if self.current < self.layout_names.len() {
            self.layout_names[self.current].clone()
        } else {
            String::new()
        }
    }

    /// The layout a click on the top bar switches to: the next one, round,
    /// when there is more than one.
    pub fn next_layout(&self) -> (r: Option<usize>)
        requires
            self.current < usize::MAX,
        ensures
            self.layout_names@.len() > 1 ==> r == Some(((self.current + 1) % (self.layout_names@.len() as int)) as usize),
            self.layout_names@.len() <= 1 ==> r is None,
    {
        let n = self.layout_names.len();
        if n > 1 {
            Some((self.current + 1) % n)
        } else {
            None
        }
    }
}

/// The level a latch selects: AltGr over Shift over the base level.
pub open spec fn spec_level(latched: u8) -> int {
    if latched & MOD_ALTGR != 0 {
        2
    } else if latched & MOD_SHIFT != 0 {
        1
    } else {
        0
    }
}

/// A label that is one alphabetic character.
pub open spec fn is_letter(l: Seq<char>) -> bool {
    l.len() == 1 && unicode_alphabetic(l[0])
}

/// Main and small secondary label of a mapped key with labels `l` under the
/// latch: letters read as capitals at the base level; the shifted symbol
/// shows small at the base level when it differs.
pub open spec fn spec_mapped_labels(l: Seq<Seq<char>>, latched: u8) -> (Seq<char>, Seq<char>) {
    let level = spec_level(latched);
    let main = if is_letter(l[0]) && level == 0 {
        unicode_upper(l[0])
    } else {
        l[level]
    };
    let secondary = if level == 0 && !is_letter(l[0]) && l[1] != l[0] {
        l[1]
    } else {
        Seq::empty()
    };
    (main, secondary)
}

/// Main + small secondary label for a mapped key under the current latch
/// (both empty when the layout has no labels for it).
pub fn mapped_labels(labels: &KeyLabels, code: u16, latched: u8) -> (r: (String, String))
    ensures
        labels.current < labels.per_layout@.len() && labels.per_layout@[labels.current as int]@.contains_key(code) ==> {
            let l = labels.per_layout@[labels.current as int]@[code];
            (r.0@, r.1@) == spec_mapped_labels(seq![l[0]@, l[1]@, l[2]@], latched)
        },
        !(labels.current < labels.per_layout@.len() && labels.per_layout@[labels.current as int]@.contains_key(code))
            ==> r.0@.len() == 0 && r.1@.len() == 0,
{
    broadcast use vstd::std_specs::hash::group_hash_axioms;
    let map = match labels.current() {
        Some(m) => m,
        None => return (String::new(), String::new()),
    };
    let l = match map.get(&code) {
        Some(l) => l,
        None => return (String::new(), String::new()),
    };
    let level: usize = if latched & MOD_ALTGR != 0 {
        2
    } else if latched & MOD_SHIFT != 0 {
        1
    } else {
        0
    };
    let base = chars_of(l[0].as_str());
    let letter = base.len() == 1 && char_alphabetic(base[0]);
    let main = if letter && level == 0 {
        upper(l[0].as_str())
    } else {
        l[level].clone()
    };
    let secondary = if level == 0 && !letter && !l[1].eq(&l[0]) {
        l[1].clone()
    } else {
        String::new()
    };
    proof {
        let ghost s = seq![l[0]@, l[1]@, l[2]@];
        assert(s[level as int] == l[level as int]@);
    }
    (main, secondary)
}

/// `char::is_control`: the Unicode Cc category.
pub open spec fn is_control(c: char) -> bool {
    c <= '\u{1F}' || ('\u{7F}' <= c && c <= '\u{9F}')
}

/// A key label as shown: control characters dropped.
pub open spec fn printable(s: Seq<char>) -> Seq<char>
    decreases s.len(),
{
    if s.len() == 0 {
        Seq::empty()
    } else if is_control(s.last()) {
        printable(s.drop_last())
    } else {
        printable(s.drop_last()).push(s.last())
    }
}

/// The label text xkb produced, without control characters.
pub fn printable_label(s: &str) -> (r: String)
    ensures
        r@ == printable(s@),
{
    let cs = chars_of(s);
    let mut out: Vec<char> = Vec::new();
    let mut i: usize = 0;
    while i < cs.len()
        invariant
            0 <= i <= cs@.len(),
            out@ == printable(cs@.take(i as int)),
        decreases cs@.len() - i,
    {
        proof {
            assert(cs@.take(i + 1).drop_last() =~= cs@.take(i as int));
        }
        let c = cs[i];
        if !(c <= '\u{1F}' || ('\u{7F}' <= c && c <= '\u{9F}')) {
            out.push(c);
        }
        i += 1;
    }
    assert(cs@.take(i as int) =~= cs@);
    string_of(&out)
}

/// The active layout at start: the desktop's (KDE) index, else the first,
/// never past the last layout.
pub fn initial_layout(desktop: Option<usize>, layouts: usize) -> (r: usize)
    ensures
        r == ({
            let want: int = match desktop {
                Some(i) => i as int,
                None => 0,
            };
            let last: int = if layouts == 0 {
                0
            } else {
                layouts - 1
            };
            if want < last {
                want
            } else {
                last
            }
        }),
{
    let want = match desktop {
        Some(i) => i,
        None => 0,
    };
    let last = if layouts == 0 {
        0
    } else {
        layouts - 1
    };
    if want < last {
        want
    } else {
        last
    }
}

/// The clipboard preview on the top bar: at most 48 characters, with `…`
/// when cut.
pub fn clip_preview(clip: &str) -> (r: String)
    ensures
        r@ == if clip@.len() > 48 {
            clip@.take(48).push('…')
        } else {
            clip@
        },
{
    let cs = chars_of(clip);
    let mut out: Vec<char> = Vec::new();
    let mut i: usize = 0;
    while i < cs.len() && i < 48
        invariant
            0 <= i <= cs@.len(),
            i <= 48,
            out@ == cs@.take(i as int),
        decreases cs@.len() - i,
    {
        out.push(cs[i]);
        i += 1;
        assert(cs@.take(i as int) =~= cs@.take(i - 1).push(cs@[i - 1]));
    }
    if cs.len() > 48 {
        out.push('…');
    } else {
        assert(cs@.take(i as int) =~= cs@);
    }
    string_of(&out)
}

/// The bytes before the first NUL (all of them without one).
pub open spec fn before_nul(b: Seq<u8>) -> Seq<u8> {
    if exists|k: int| 0 <= k < b.len() && b[k] == 0 {
        b.take(choose|k: int| 0 <= k < b.len() && b[k] == 0 && forall|j: int| 0 <= j < k ==> b[j] != 0)
    } else {
        b
    }
}

/// The keymap the compositor shares: NUL-terminated UTF-8 text (`None`
/// when it is not valid UTF-8).
pub fn keymap_text(bytes: &[u8]) -> (r: Option<String>)
    ensures
        r is Some <==> valid_utf8(before_nul(bytes@)),
        r matches Some(s) ==> s@ == decode_utf8(before_nul(bytes@)),
{
    let mut end: usize = 0;
    while end < bytes.len() && bytes[end] != 0
        invariant
            0 <= end <= bytes@.len(),
            forall|j: int| 0 <= j < end ==> bytes@[j] != 0,
        decreases bytes@.len() - end,
    {
        end += 1;
    }
    proof {
        if end < bytes@.len() {
            let c = choose|k: int| 0 <= k < bytes@.len() && bytes@[k] == 0 && forall|j: int| 0 <= j < k ==> bytes@[j] != 0;
            if c < end {
                assert(bytes@[c] != 0);
            }
            if c > end {
                assert(bytes@[end as int] == 0);
            }
            assert(before_nul(bytes@) == bytes@.take(end as int));
        } else {
            assert(before_nul(bytes@) =~= bytes@.take(end as int));
        }
        assert(bytes@.subrange(0, end as int) =~= bytes@.take(end as int));
    }
    match utf8_str(&bytes[0..end]) {
        Some(s) => Some(s.to_string()),
        None => None,
    }
}

} // verus!
