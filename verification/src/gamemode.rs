//! Gaming mode's routing of each hand: on the watch the watch gets it; with
//! the pointer on (from the watch) the desktop viewer's laser gets it; else
//! the pad profile does. A pointer switched on from the watch gives up when it
//! never reaches a screen, and goes back to the pad once the hand has been off
//! every screen for a moment. Also which remap profile applies (by name, or
//! the one made for a launched game), and the press / release edges of the
//! profile's digital targets from one frame to the next. Times are
//! milliseconds on a monotonic clock.
use vstd::prelude::*;

use crate::text::{chars_of, contains_chars, contains_seq, lower, str_eq, string_of, trim, trim_chars, unicode_lower};

verus! {

/// A pointer hand off every screen this long goes back to the pad (a
/// wobble across an edge doesn't drop the mouse).
pub const LEAVE_GRACE_MS: u64 = 500;
/// A pointer turned on from the watch that never reaches a screen gives up
/// after this long.
pub const ARM_TIMEOUT_MS: u64 = 4000;

/// Where a hand's input goes this frame.
#[derive(Clone, Copy, Debug, PartialEq, Eq, Structural)]
pub enum Role {
    /// Driving the pad / keys / mouse; invisible to the desktop viewer.
    Pad,
    /// Driving the desktop viewer's laser.
    Pointer,
    /// On the watch: the watch alone gets it.
    Watch,
}

/// One hand's pointer: on or off, since when it has been off every screen,
/// and when the watch armed it (until it first reaches a screen).
#[derive(Clone, Copy, Debug, PartialEq, Eq, Structural)]
pub struct HandPointer {
    pub on: bool,
    pub off_screen_since: Option<u64>,
    pub armed_at: Option<u64>,
}

/// Time from `t0` to `now`, zero when `t0` is later.
pub open spec fn since(now: u64, t0: u64) -> int {
    if now >= t0 {
        now - t0
    } else {
        0
    }
}

/// A pointer that is off and forgets its timers.
pub open spec fn idle() -> HandPointer {
    HandPointer { on: false, off_screen_since: None, armed_at: None }
}

/// The pointer switched off, its arming forgotten.
pub open spec fn dropped(h: HandPointer) -> HandPointer {
    HandPointer { on: false, armed_at: None, ..h }
}

/// The watch's Mouse button: off when on; else on and armed at `now`.
pub open spec fn toggled(h: HandPointer, now: u64) -> HandPointer {
    if h.on {
        dropped(h)
    } else {
        HandPointer { on: true, armed_at: Some(now), off_screen_since: None }
    }
}

/// One frame for a hand's pointer.
pub open spec fn spec_step(h: HandPointer, on_screen: bool, now: u64) -> HandPointer {
    if !h.on {
        h
    } else if on_screen {
        HandPointer { armed_at: None, off_screen_since: None, ..h }
    } else {
        match h.armed_at {
            Some(t0) => if since(now, t0) > ARM_TIMEOUT_MS {
                HandPointer { on: false, armed_at: None, ..h }
            } else {
                h
            },
            None => {
                let t = match h.off_screen_since {
                    Some(t) => t,
                    None => now,
                };
                HandPointer { on: !(since(now, t) > LEAVE_GRACE_MS), off_screen_since: Some(t), ..h }
            },
        }
    }
}

/// The role of a hand after its pointer step.
pub open spec fn spec_role(h: HandPointer, on_watch: bool) -> Role {
    if on_watch {
        Role::Watch
    } else if h.on {
        Role::Pointer
    } else {
        Role::Pad
    }
}

impl HandPointer {
    pub fn new() -> (r: Self)
        ensures
            r == idle(),
    {
        HandPointer { on: false, off_screen_since: None, armed_at: None }
    }

    /// The watch's Mouse button: on (armed now) or off.
    pub fn toggle(&mut self, now: u64)
        ensures
            *final(self) == toggled(*old(self), now),
    {
        if self.on {
            self.on = false;
            self.armed_at = None;
        } else {
            self.on = true;
            self.armed_at = Some(now);
            self.off_screen_since = None;
        }
    }

    pub fn step(&mut self, on_screen: bool, now: u64)
        ensures
            *final(self) == spec_step(*old(self), on_screen, now),
    {
        if !self.on {
            return;
        }
        if on_screen {
            self.armed_at = None;
            self.off_screen_since = None;
            return;
        }
        match self.armed_at {
            Some(t0) => {
                let waited = if now >= t0 { now - t0 } else { 0 };
                if waited > ARM_TIMEOUT_MS {
                    self.on = false;
                    self.armed_at = None;
                }
            },
            None => {
                let t = match self.off_screen_since {
                    Some(t) => t,
                    None => now,
                };
                self.off_screen_since = Some(t);
                let away = if now >= t { now - t } else { 0 };
                if away > LEAVE_GRACE_MS {
                    self.on = false;
                }
            },
        }
    }

    pub fn role(&self, on_watch: bool) -> (r: Role)
        ensures
            r == spec_role(*self, on_watch),
    {
        if on_watch {
            Role::Watch
        } else if self.on {
            Role::Pointer
        } else {
            Role::Pad
        }
    }
}

/// No key is listed twice.
pub open spec fn distinct_keys(s: Seq<u16>) -> bool {
    forall|a: int, b: int| 0 <= a < b < s.len() ==> s[a] != s[b]
}

/// Both hands' pointers, whether gaming mode is on, and the keys the
/// profile holds down through the desktop keyboard.
pub struct Routing {
    pub enabled: bool,
    pub left: HandPointer,
    pub right: HandPointer,
    /// The keys pressed through the desktop keyboard and not released yet,
    /// in the order they went down, each once.
    pub keys_down: Vec<u16>,
}

impl Routing {
    /// The held keys.
    pub open spec fn held(&self) -> Seq<u16> {
        self.keys_down@
    }

    /// Each held key is listed once.
    pub open spec fn wf(&self) -> bool {
        distinct_keys(self.held())
    }

    pub fn new() -> (r: Self)
        ensures
            !r.enabled,
            r.left == idle(),
            r.right == idle(),
            r.held() == Seq::<u16>::empty(),
    {
        Routing { enabled: false, left: HandPointer::new(), right: HandPointer::new(), keys_down: Vec::new() }
    }

    /// Gaming mode on or off; either way both pointers start off.
    pub fn set_enabled(&mut self, on: bool)
        ensures
            old(self).enabled == on ==> *final(self) == *old(self),
            old(self).enabled != on ==> final(self).enabled == on && final(self).left == dropped(old(self).left)
                && final(self).right == dropped(old(self).right),
            final(self).held() == old(self).held(),
    {
        if on == self.enabled {
            return;
        }
        self.enabled = on;
        self.left.on = false;
        self.left.armed_at = None;
        self.right.on = false;
        self.right.armed_at = None;
    }

    /// The watch's Mouse button for hand `hand` (0 left, 1 right; others
    /// are ignored).
    pub fn toggle_pointer(&mut self, hand: usize, now: u64)
        ensures
            hand == 0 ==> final(self).left == toggled(old(self).left, now) && final(self).right == old(self).right,
            hand == 1 ==> final(self).right == toggled(old(self).right, now) && final(self).left == old(self).left,
            hand > 1 ==> *final(self) == *old(self),
            final(self).enabled == old(self).enabled,
            final(self).held() == old(self).held(),
    {
        if hand == 0 {
            self.left.toggle(now);
        } else if hand == 1 {
            self.right.toggle(now);
        }
    }

    /// A key target's edge was sent through the desktop keyboard: a pressed
    /// key is held (once), a released one no longer is.
    pub fn key_edge(&mut self, code: u16, down: bool)
        requires
            old(self).wf(),
        ensures
            final(self).wf(),
            final(self).enabled == old(self).enabled,
            final(self).left == old(self).left,
            final(self).right == old(self).right,
            down ==> final(self).held() == if old(self).held().contains(code) {
                old(self).held()
            } else {
                old(self).held().push(code)
            },
            !down ==> final(self).held() == old(self).held().filter(|k: u16| k != code),
    {
        let ghost before = self.keys_down@;
        let ghost keep = |k: u16| k != code;
        let mut present = false;
        let mut kept: Vec<u16> = Vec::new();
        let mut i: usize = 0;
        assert(before.take(0).filter(keep) =~= Seq::<u16>::empty()) by {
            reveal(Seq::filter);
        }
        while i < self.keys_down.len()
            invariant
                0 <= i <= before.len(),
                self.keys_down@ == before,
                keep == (|k: u16| k != code),
                kept@ == before.take(i as int).filter(keep),
                present == before.take(i as int).contains(code),
            decreases before.len() - i,
        {
            let k = self.keys_down[i];
            proof {
                reveal(Seq::filter);
                assert(before.take(i + 1).drop_last() =~= before.take(i as int));
                assert(before.take(i + 1) =~= before.take(i as int).push(k));
            }
            if k == code {
                present = true;
                assert(before.take(i + 1).filter(keep) =~= before.take(i as int).filter(keep));
            } else {
                kept.push(k);
                assert(before.take(i + 1).filter(keep) =~= before.take(i as int).filter(keep).push(k));
            }
            i += 1;
        }
        assert(before.take(i as int) =~= before);
        if down {
            if !present {
                self.keys_down.push(code);
                proof {
                    assert forall|a: int, b: int| 0 <= a < b < self.keys_down@.len() implies self.keys_down@[a]
                        != self.keys_down@[b] by {
                        if b == before.len() {
                            assert(before.contains(self.keys_down@[a]));
                        }
                    }
                }
            }
        } else {
            self.keys_down = kept;
            proof {
                assert forall|a: int, b: int| 0 <= a < b < self.keys_down@.len() implies self.keys_down@[a]
                    != self.keys_down@[b] by {
                    let f = before.filter(keep);
                    let fa = f[a];
                    let fb = f[b];
                    if fa == fb {
                        before.lemma_filter_pred(keep, a);
                        lemma_filter_distinct(before, keep);
                    }
                }
            }
        }
    }

    /// Keys still held from before gaming mode was switched off (or a
    /// profile change) that must be let go: all of them, unless gaming
    /// mode is on and the profile still holds some target
    /// (`targets_held`).
    pub fn take_stale_keys(&mut self, targets_held: bool) -> (r: Vec<u16>)
        requires
            old(self).wf(),
        ensures
            final(self).wf(),
            final(self).enabled == old(self).enabled,
            final(self).left == old(self).left,
            final(self).right == old(self).right,
            old(self).enabled && targets_held ==> r@ == Seq::<u16>::empty() && final(self).held() == old(self).held(),
            !(old(self).enabled && targets_held) ==> r@ == old(self).held() && final(self).held() == Seq::<
                u16,
            >::empty(),
    {
        if self.enabled && targets_held {
            return Vec::new();
        }
        let mut out: Vec<u16> = Vec::new();
        std::mem::swap(&mut out, &mut self.keys_down);
        out
    }

    /// Route one frame. `on_screen[h]`: the hand's laser would hit a shown
    /// screen; `on_watch[h]`: it is on the watch; `paused`: the dashboard is
    /// up (everything is a pointer, the watch's pointers are dropped, and
    /// every held key is released). Returns each hand's role and the keys
    /// to release through the desktop keyboard, each once.
    pub fn route(&mut self, on_screen: [bool; 2], on_watch: [bool; 2], paused: bool, now: u64) -> (r: (
        [Role; 2],
        Vec<u16>,
    ))
        requires
            old(self).wf(),
        ensures
            final(self).wf(),
            !old(self).enabled ==> *final(self) == *old(self) && r.0@ == seq![Role::Pointer, Role::Pointer]
                && r.1@ == Seq::<u16>::empty(),
            old(self).enabled && paused ==> final(self).enabled && final(self).left == dropped(old(self).left)
                && final(self).right == dropped(old(self).right) && r.0@ == seq![Role::Pointer, Role::Pointer]
                && r.1@ == old(self).held() && final(self).held() == Seq::<u16>::empty(),
            old(self).enabled && !paused ==> final(self).enabled
                && final(self).left == spec_step(old(self).left, on_screen@[0], now)
                && final(self).right == spec_step(old(self).right, on_screen@[1], now)
                && r.0@ == seq![spec_role(final(self).left, on_watch@[0]), spec_role(final(self).right, on_watch@[1])]
                && r.1@ == Seq::<u16>::empty() && final(self).held() == old(self).held(),
    {
        if !self.enabled {
            let r = [Role::Pointer, Role::Pointer];
            assert(r@ =~= seq![Role::Pointer, Role::Pointer]);
            return (r, Vec::new());
        }
        if paused {
            self.left.on = false;
            self.left.armed_at = None;
            self.right.on = false;
            self.right.armed_at = None;
            let mut release: Vec<u16> = Vec::new();
            std::mem::swap(&mut release, &mut self.keys_down);
            let r = [Role::Pointer, Role::Pointer];
            assert(r@ =~= seq![Role::Pointer, Role::Pointer]);
            return (r, release);
        }
        self.left.step(on_screen[0], now);
        self.right.step(on_screen[1], now);
        let r = [self.left.role(on_watch[0]), self.right.role(on_watch[1])];
        assert(r@ =~= seq![spec_role(self.left, on_watch@[0]), spec_role(self.right, on_watch@[1])]);
        (r, Vec::new())
    }
}

/// Filtering a list with no repeats leaves a list with no repeats.
proof fn lemma_filter_distinct(s: Seq<u16>, keep: spec_fn(u16) -> bool)
    requires
        distinct_keys(s),
    ensures
        distinct_keys(s.filter(keep)),
    decreases s.len(),
{
    reveal(Seq::filter);
    if s.len() > 0 {
        let t = s.drop_last();
        assert(distinct_keys(t));
        lemma_filter_distinct(t, keep);
        if keep(s.last()) {
            assert(s.filter(keep) == t.filter(keep).push(s.last()));
            assert forall|a: int, b: int| 0 <= a < b < s.filter(keep).len() implies s.filter(keep)[a]
                != s.filter(keep)[b] by {
                if b == t.filter(keep).len() {
                    if t.filter(keep)[a] == s.last() {
                        assert(t.filter(keep).contains(s.last()));
                        t.lemma_filter_contains_rev(keep, s.last());
                        let c = choose|c: int| 0 <= c < t.len() && t[c] == s.last();
                        assert(s[c] == s[s.len() - 1]);
                    }
                }
            }
        } else {
            assert(s.filter(keep) == t.filter(keep));
        }
    }
}

// --- digital targets --------------------------------------------------------------

/// Last frame's pressed digital targets (pad buttons, keys, mouse buttons,
/// each given by a number) against this frame's: every target no longer
/// pressed goes up, then every newly pressed one goes down.
pub open spec fn spec_edges(prev: Seq<u32>, now: Seq<u32>) -> Seq<(u32, bool)> {
    prev.filter(|t: u32| !now.contains(t)).map_values(|t: u32| (t, false)) + now.filter(|t: u32| !prev.contains(t)).map_values(
        |t: u32| (t, true),
    )
}

fn holds_target(v: &Vec<u32>, x: u32) -> (r: bool)
    ensures
        r == v@.contains(x),
{
    let mut k: usize = 0;
    while k < v.len()
        invariant
            0 <= k <= v@.len(),
            forall|j: int| 0 <= j < k ==> v@[j] != x,
        decreases v@.len() - k,
    {
        if v[k] == x {
            assert(v@[k as int] == x);
            return true;
        }
        k += 1;
    }
    false
}

/// The releases (`false`) and presses (`true`) that take the digital
/// targets from last frame's pressed set to this frame's.
pub fn digital_edges(prev: &Vec<u32>, now: &Vec<u32>) -> (r: Vec<(u32, bool)>)
    ensures
        r@ == spec_edges(prev@, now@),
{
    let ghost gone = |t: u32| !now@.contains(t);
    let ghost fresh = |t: u32| !prev@.contains(t);
    let ghost up = |t: u32| (t, false);
    let ghost down = |t: u32| (t, true);
    let mut out: Vec<(u32, bool)> = Vec::new();
    let mut i: usize = 0;
    assert(prev@.take(0).filter(gone) =~= Seq::<u32>::empty()) by {
        reveal(Seq::filter);
    }
    while i < prev.len()
        invariant
            0 <= i <= prev@.len(),
            gone == (|t: u32| !now@.contains(t)),
            up == (|t: u32| (t, false)),
            out@ == prev@.take(i as int).filter(gone).map_values(up),
        decreases prev@.len() - i,
    {
        let t = prev[i];
        proof {
            reveal(Seq::filter);
            assert(prev@.take(i + 1).drop_last() =~= prev@.take(i as int));
            assert(prev@.take(i + 1).last() == t);
        }
        if !holds_target(now, t) {
            out.push((t, false));
            assert(prev@.take(i + 1).filter(gone) =~= prev@.take(i as int).filter(gone).push(t));
            assert(out@ =~= prev@.take(i + 1).filter(gone).map_values(up));
        } else {
            assert(prev@.take(i + 1).filter(gone) =~= prev@.take(i as int).filter(gone));
        }
        i += 1;
    }
    assert(prev@.take(i as int) =~= prev@);
    let ghost first = out@;
    let mut j: usize = 0;
    assert(now@.take(0).filter(fresh) =~= Seq::<u32>::empty()) by {
        reveal(Seq::filter);
    }
    while j < now.len()
        invariant
            0 <= j <= now@.len(),
            fresh == (|t: u32| !prev@.contains(t)),
            down == (|t: u32| (t, true)),
            out@ == first + now@.take(j as int).filter(fresh).map_values(down),
        decreases now@.len() - j,
    {
        let t = now[j];
        proof {
            reveal(Seq::filter);
            assert(now@.take(j + 1).drop_last() =~= now@.take(j as int));
            assert(now@.take(j + 1).last() == t);
        }
        if !holds_target(prev, t) {
            out.push((t, true));
            assert(now@.take(j + 1).filter(fresh) =~= now@.take(j as int).filter(fresh).push(t));
            assert(out@ =~= first + now@.take(j + 1).filter(fresh).map_values(down));
        } else {
            assert(now@.take(j + 1).filter(fresh) =~= now@.take(j as int).filter(fresh));
        }
        j += 1;
    }
    assert(now@.take(j as int) =~= now@);
    out
}

/// The edges take last frame's pressed set to this frame's: a target is
/// pressed now exactly when it was pressed before and was not released, or
/// it was pressed down this frame.
pub proof fn edges_reach_the_new_set(prev: Seq<u32>, now: Seq<u32>)
    ensures
        forall|t: u32|
            now.contains(t) <==> (prev.contains(t) && !spec_edges(prev, now).contains((t, false))) || spec_edges(
                prev,
                now,
            ).contains((t, true)),
{
    let gone = |t: u32| !now.contains(t);
    let fresh = |t: u32| !prev.contains(t);
    let fu = prev.filter(gone);
    let fd = now.filter(fresh);
    let u = fu.map_values(|t: u32| (t, false));
    let d = fd.map_values(|t: u32| (t, true));
    let e = spec_edges(prev, now);
    assert(e == u + d);
    assert forall|t: u32| e.contains((t, false)) <==> prev.contains(t) && !now.contains(t) by {
        if e.contains((t, false)) {
            let k = choose|k: int| 0 <= k < e.len() && e[k] == (t, false);
            if k < u.len() {
                assert(fu[k] == t);
                prev.lemma_filter_pred(gone, k);
                assert(fu.contains(t));
                prev.lemma_filter_contains_rev(gone, t);
            } else {
                assert(d[k - u.len()].1);
            }
        }
        if prev.contains(t) && !now.contains(t) {
            let i = choose|i: int| 0 <= i < prev.len() && prev[i] == t;
            prev.lemma_filter_contains(gone, i);
            let k = choose|k: int| 0 <= k < fu.len() && fu[k] == t;
            assert(e[k] == (t, false));
        }
    }
    assert forall|t: u32| e.contains((t, true)) <==> now.contains(t) && !prev.contains(t) by {
        if e.contains((t, true)) {
            let k = choose|k: int| 0 <= k < e.len() && e[k] == (t, true);
            if k < u.len() {
                assert(!u[k].1);
            } else {
                let m = k - u.len();
                assert(fd[m] == t);
                now.lemma_filter_pred(fresh, m);
                assert(fd.contains(t));
                now.lemma_filter_contains_rev(fresh, t);
            }
        }
        if now.contains(t) && !prev.contains(t) {
            let i = choose|i: int| 0 <= i < now.len() && now[i] == t;
            now.lemma_filter_contains(fresh, i);
            let m = choose|m: int| 0 <= m < fd.len() && fd[m] == t;
            assert(e[u.len() + m] == (t, true));
        }
    }
}

// --- profiles ---------------------------------------------------------------------

/// The profile picked by name at start: the first one called `want`, else the
/// first profile.
pub open spec fn named_at(names: Seq<String>, want: Seq<char>, k: int) -> bool {
    0 <= k < names.len() && names[k]@ == want && forall|j: int| 0 <= j < k ==> names[j]@ != want
}

/// Index of the first profile named `want`, or 0 when none is (or no name is
/// asked for).
pub fn profile_index(names: &Vec<String>, want: Option<&str>) -> (r: usize)
    ensures
        match want {
            Some(w) => if exists|k: int| 0 <= k < names@.len() && #[trigger] names@[k]@ == w@ {
                named_at(names@, w@, r as int)
            } else {
                r == 0
            },
            None => r == 0,
        },
{
    match want {
        None => 0,
        Some(w) => {
            let mut k: usize = 0;
            while k < names.len()
                invariant
                    want == Some(w),
                    0 <= k <= names@.len(),
                    forall|j: int| 0 <= j < k ==> names@[j]@ != w@,
                decreases names@.len() - k,
            {
                if str_eq(names[k].as_str(), w) {
                    assert(names@[k as int]@ == w@);
                    return k;
                }
                k += 1;
            }
            0
        },
    }
}

/// A profile made for a game fits it when its game text, trimmed, is not
/// empty and occurs in the game's name, case aside.
pub open spec fn fits_game(game: Option<String>, name_lower: Seq<char>) -> bool {
    match game {
        Some(g) => trim(g@).len() > 0 && contains_seq(name_lower, unicode_lower(trim(g@))),
        None => false,
    }
}

/// A game was launched: the first profile made for it (by the profiles'
/// game texts), if any.
pub fn profile_for_game(games: &Vec<Option<String>>, game_name: &str) -> (r: Option<usize>)
    ensures
        match r {
            Some(k) => k < games@.len() && fits_game(games@[k as int], unicode_lower(game_name@))
                && forall|j: int| 0 <= j < k ==> !fits_game(#[trigger] games@[j], unicode_lower(game_name@)),
            None => forall|j: int| 0 <= j < games@.len() ==> !fits_game(#[trigger] games@[j], unicode_lower(game_name@)),
        },
{
    let name_lower = lower(game_name);
    let name_cs = chars_of(name_lower.as_str());
    let mut k: usize = 0;
    while k < games.len()
        invariant
            0 <= k <= games@.len(),
            name_cs@ == unicode_lower(game_name@),
            forall|j: int| 0 <= j < k ==> !fits_game(#[trigger] games@[j], unicode_lower(game_name@)),
        decreases games@.len() - k,
    {
        match &games[k] {
            Some(g) => {
                let t = trim_chars(&chars_of(g.as_str()));
                if t.len() > 0 {
                    let tl = lower(string_of(&t).as_str());
                    if contains_chars(&name_cs, &chars_of(tl.as_str())) {
                        return Some(k);
                    }
                }
            },
            None => {},
        }
        k += 1;
    }
    None
}

/// The watch takes precedence: a hand at the watch has the watch role
/// whatever its pointer does; away from it, the hand drives the pointer
/// exactly when its pointer is on, and the pad otherwise.
pub proof fn the_watch_takes_precedence(h: HandPointer)
    ensures
        spec_role(h, true) == Role::Watch,
        (spec_role(h, false) == Role::Pointer) == h.on,
        (spec_role(h, false) == Role::Pad) == !h.on,
{
}

/// Only the watch turns a pointer on: a frame's step never does.
pub proof fn step_never_turns_on(h: HandPointer, on_screen: bool, now: u64)
    ensures
        spec_step(h, on_screen, now).on ==> h.on,
{
}

/// A pointer armed from the watch waits for a screen: off every screen it
/// stays on until the arming timeout has passed.
pub proof fn armed_pointer_waits(h: HandPointer, t0: u64, now: u64)
    requires
        h.on,
        h.armed_at == Some(t0),
        since(now, t0) <= ARM_TIMEOUT_MS,
    ensures
        spec_step(h, false, now) == h,
{
}

/// Reaching a screen keeps the pointer on and disarms it: from then on only
/// leaving the screens for longer than the grace time drops it.
pub proof fn reaching_a_screen_disarms(h: HandPointer, now: u64, later: u64)
    requires
        h.on,
    ensures
        ({
            let on = spec_step(h, true, now);
            &&& on.on && on.armed_at is None && on.off_screen_since is None
            &&& spec_step(on, false, later).on
            &&& spec_step(on, false, later).off_screen_since == Some(later)
        }),
{
}

/// Off every screen, a disarmed pointer survives the grace time and drops
/// once it has passed.
pub proof fn leaving_drops_after_the_grace(h: HandPointer, t: u64, now: u64)
    requires
        h.on,
        h.armed_at is None,
        h.off_screen_since == Some(t),
    ensures
        spec_step(h, false, now).on == (since(now, t) <= LEAVE_GRACE_MS),
{
}

} // verus!
