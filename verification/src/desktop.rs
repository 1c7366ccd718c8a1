//! The desktop viewer's rules: "toggle all" (hide every shown screen and the
//! keyboard, remembering the set, and bring that set back), the bottom-bar
//! order, docked groups of screens and what undocking leaves behind, the
//! dock links of a saved layout, the captured frames' byte order, the
//! screen-share status line, and which mouse button a laser presses and
//! when it lets go. Poses, hit-testing and drawing stay with the
//! program.
use vstd::prelude::*;

use crate::text::{chars_of, digits, extend_chars, str_eq, string_of, uint_text};

verus! {

/// What a toggle did, with how many panels it concerned.
#[derive(Clone, Copy, Debug, PartialEq, Eq, Structural)]
pub enum ToggleAll {
    Hidden(usize),
    Shown(usize),
    Nothing,
}

/// The indices whose flag is set, in order.
pub open spec fn indices_of(flags: Seq<bool>) -> Seq<usize>
    decreases flags.len(),
{
    if flags.len() == 0 {
        Seq::empty()
    } else {
        let rest = indices_of(flags.drop_last());
        if flags.last() {
            rest.push((flags.len() - 1) as usize)
        } else {
            rest
        }
    }
}

/// The stashed screens that still exist among `n`.
pub open spec fn still_there(stash: Seq<usize>, n: nat) -> Seq<usize> {
    stash.filter(|i: usize| i < n)
}

/// What "toggle all" remembers between a hide and a show.
pub struct Stash {
    pub screens: Vec<usize>,
    pub keyboard: bool,
}

/// The count a toggle reports: screens plus the keyboard.
pub open spec fn with_keyboard(screens: nat, keyboard: bool) -> int {
    screens + if keyboard { 1int } else { 0int }
}

impl View for Stash {
    type V = (Seq<usize>, bool);

    open spec fn view(&self) -> (Seq<usize>, bool) {
        (self.screens@, self.keyboard)
    }
}

/// One toggle from the remembered set `st`: the new remembered set, the
/// outcome, and the screens to hide or show.
pub open spec fn spec_toggle(st: (Seq<usize>, bool), shown: Seq<bool>, keyboard_visible: bool) -> (
    (Seq<usize>, bool),
    ToggleAll,
    Seq<usize>,
) {
    let up = indices_of(shown);
    if up.len() > 0 || keyboard_visible {
        ((up, keyboard_visible), ToggleAll::Hidden(with_keyboard(up.len(), keyboard_visible) as usize), up)
    } else {
        let back = still_there(st.0, shown.len());
        let outcome = if back.len() == 0 && !st.1 {
            ToggleAll::Nothing
        } else {
            ToggleAll::Shown(with_keyboard(back.len(), st.1) as usize)
        };
        ((Seq::empty(), false), outcome, back)
    }
}

impl Stash {
    pub fn new() -> (r: Self)
        ensures
            r@ == (Seq::<usize>::empty(), false),
    {
        Stash { screens: Vec::new(), keyboard: false }
    }

    /// One toggle, given which screens are shown and whether the keyboard
    /// is up: with anything up, hide it all and remember it; else bring the
    /// remembered set back (what still exists of it) and forget it. Returns
    /// the outcome and the screens to hide or show.
    pub fn toggle(&mut self, shown: &Vec<bool>, keyboard_visible: bool) -> (r: (ToggleAll, Vec<usize>))
        requires
            old(self).screens@.len() < usize::MAX,
            shown@.len() < usize::MAX,
        ensures
            spec_toggle(old(self)@, shown@, keyboard_visible) == (final(self)@, r.0, r.1@),
    {
        let up = shown_indices(shown);
        proof {
            lemma_indices_below(shown@);
        }
        if up.len() > 0 || keyboard_visible {
            let n = up.len();
            let count = if keyboard_visible { n + 1 } else { n };
            self.screens = up.clone();
            self.keyboard = keyboard_visible;
            return (ToggleAll::Hidden(count), up);
        }
        let back = existing(&self.screens, shown.len());
        let kb = self.keyboard;
        self.screens = Vec::new();
        self.keyboard = false;
        if back.len() == 0 && !kb {
            (ToggleAll::Nothing, back)
        } else {
            let n = back.len();
            proof {
                old(self).screens@.lemma_filter_len(|i: usize| i < shown@.len());
            }
            let count = if kb { n + 1 } else { n };
            (ToggleAll::Shown(count), back)
        }
    }
}

proof fn lemma_indices_below(flags: Seq<bool>)
    ensures
        indices_of(flags).len() <= flags.len(),
        forall|k: int| 0 <= k < indices_of(flags).len() ==> (#[trigger] indices_of(flags)[k]) < flags.len(),
    decreases flags.len(),
{
    if flags.len() > 0 {
        lemma_indices_below(flags.drop_last());
    }
}

/// Which screens are shown.
pub fn shown_indices(shown: &Vec<bool>) -> (r: Vec<usize>)
    ensures
        r@ == indices_of(shown@),
{
    let mut out: Vec<usize> = Vec::new();
    let mut i: usize = 0;
    while i < shown.len()
        invariant
            0 <= i <= shown@.len(),
            out@ == indices_of(shown@.take(i as int)),
        decreases shown@.len() - i,
    {
        assert(shown@.take(i + 1).drop_last() =~= shown@.take(i as int));
        if shown[i] {
            out.push(i);
        }
        i += 1;
    }
    assert(shown@.take(i as int) =~= shown@);
    out
}

/// The remembered screens that still exist among `n`.
pub fn existing(stash: &Vec<usize>, n: usize) -> (r: Vec<usize>)
    ensures
        r@ == still_there(stash@, n as nat),
{
    let ghost pred = |i: usize| i < n as nat;
    let mut out: Vec<usize> = Vec::new();
    let mut i: usize = 0;
    while i < stash.len()
        invariant
            0 <= i <= stash@.len(),
            pred == (|i: usize| i < n as nat),
            out@ == stash@.take(i as int).filter(pred),
        decreases stash@.len() - i,
    {
        proof {
            reveal(Seq::filter);
            assert(stash@.take(i + 1).drop_last() =~= stash@.take(i as int));
        }
        if stash[i] < n {
            out.push(stash[i]);
        }
        i += 1;
    }
    assert(stash@.take(i as int) =~= stash@);
    out
}

proof fn lemma_all_there(s: Seq<usize>, n: nat)
    requires
        forall|k: int| 0 <= k < s.len() ==> s[k] < n,
    ensures
        still_there(s, n) == s,
    decreases s.len(),
{
    reveal(Seq::filter);
    if s.len() > 0 {
        lemma_all_there(s.drop_last(), n);
        assert(s.drop_last().push(s.last()) =~= s);
    }
}

/// Two calls of `Stash::toggle` (its steps are `spec_toggle`): with some
/// screen or the keyboard up, the first hides exactly the shown screens
/// (and the keyboard) and reports `Hidden(n)`, `n` counting both. If the
/// screen list is not rebuilt in between (the same number of screens) and
/// nothing is shown or up at the second call, the second brings back
/// exactly the screens hidden (and the keyboard), reports `Shown(n)` with
/// the same `n`, and forgets them.
pub proof fn toggle_round_trip(st: (Seq<usize>, bool), shown: Seq<bool>, keyboard_visible: bool, later: Seq<bool>)
    requires
        indices_of(shown).len() > 0 || keyboard_visible,
        later.len() == shown.len(),
        indices_of(later).len() == 0,
    ensures
        ({
            let (st1, hid, hidden) = spec_toggle(st, shown, keyboard_visible);
            let (st2, back, restored) = spec_toggle(st1, later, false);
            &&& hid == ToggleAll::Hidden(with_keyboard(indices_of(shown).len(), keyboard_visible) as usize)
            &&& hidden == indices_of(shown)
            &&& st1 == (indices_of(shown), keyboard_visible)
            &&& back == ToggleAll::Shown(with_keyboard(indices_of(shown).len(), keyboard_visible) as usize)
            &&& restored == hidden
            &&& st2 == (Seq::<usize>::empty(), false)
        }),
{
    lemma_indices_below(shown);
    lemma_all_there(indices_of(shown), shown.len());
}

/// With nothing shown, the keyboard down and nothing remembered, a toggle
/// does nothing.
pub proof fn nothing_to_toggle(shown: Seq<bool>)
    requires
        indices_of(shown).len() == 0,
    ensures
        spec_toggle((Seq::<usize>::empty(), false), shown, false) == ((Seq::<usize>::empty(), false), ToggleAll::Nothing, Seq::<
            usize,
        >::empty()),
{
    lemma_all_there(Seq::<usize>::empty(), shown.len());
}

/// A BGRA pixel as RGBA, opaque: blue and red change places, alpha is 255.
pub open spec fn spec_bgra_to_rgba(v: Seq<u8>) -> Seq<u8> {
    Seq::new(
        v.len(),
        |i: int|
            if i >= v.len() - v.len() % 4 {
                v[i]
            } else if i % 4 == 0 {
                v[i + 2]
            } else if i % 4 == 2 {
                v[i - 2]
            } else if i % 4 == 3 {
                255u8
            } else {
                v[i]
            },
    )
}

/// Captured BGRA pixels as opaque RGBA (a trailing partial pixel is left
/// as it is).
#[verifier::spinoff_prover]
#[verifier::rlimit(40)]
pub fn bgra_to_rgba(v: Vec<u8>) -> (r: Vec<u8>)
    ensures
        r@ == spec_bgra_to_rgba(v@),
{
    let ghost orig = v@;
    let mut v = v;
    let n = v.len();
    let full = n - n % 4;
    let mut i: usize = 0;
    while i < full
        invariant
            n == orig.len(),
            full == n - n % 4,
            v@.len() == n,
            i % 4 == 0,
            0 <= i <= full,
            forall|k: int| 0 <= k < i ==> #[trigger] v@[k] == spec_bgra_to_rgba(orig)[k],
            forall|k: int| i <= k < n ==> #[trigger] v@[k] == orig[k],
        decreases full - i,
    {
        let b = v[i];
        let r = v[i + 2];
        v.set(i, r);
        v.set(i + 2, b);
        v.set(i + 3, 255);
        i += 4;
    }
    assert(v@ =~= spec_bgra_to_rgba(orig));
    v
}

// --- bottom-bar order --------------------------------------------------------

/// The place of a screen name in the saved bar order (after every known
/// name when unknown).
pub open spec fn order_key(order: Seq<String>, name: Seq<char>) -> int {
    if exists|k: int| 0 <= k < order.len() && #[trigger] order[k]@ == name {
        choose|k: int| 0 <= k < order.len() && #[trigger] order[k]@ == name && forall|j: int| 0 <= j < k ==> order[j]@ != name
    } else {
        usize::MAX as int
    }
}

fn order_key_of(order: &Vec<String>, name: &str) -> (r: usize)
    ensures
        r == order_key(order@, name@),
{
    let mut k: usize = 0;
    while k < order.len()
        invariant
            0 <= k <= order@.len(),
            forall|j: int| 0 <= j < k ==> order@[j]@ != name@,
        decreases order@.len() - k,
    {
        if str_eq(order[k].as_str(), name) {
            proof {
                let c = choose|c: int| 0 <= c < order@.len() && #[trigger] order@[c]@ == name@ && forall|j: int|
                    0 <= j < c ==> order@[j]@ != name@;
                if c < k {
                    assert(order@[c]@ != name@);
                }
                if c > k {
                    assert(order@[k as int]@ == name@);
                }
            }
            return k;
        }
        k += 1;
    }
    usize::MAX
}

/// Entry `a` comes before entry `b`: by its key, then by position.
pub open spec fn ranked_before(keys: Seq<u64>, a: usize, b: usize) -> bool {
    keys[a as int] < keys[b as int] || (keys[a as int] == keys[b as int] && a < b)
}

/// The screens' positions in bar order: each once, ordered by the saved
/// order, screens it does not know last (in stream order).
pub fn ordered_screens(names: &Vec<String>, order: &Vec<String>) -> (r: Vec<usize>)
    ensures
        r@.len() == names@.len(),
        forall|x: usize| #[trigger] r@.contains(x) <==> x < names@.len(),
        forall|i: int, j: int|
            0 <= i < j < r@.len() ==> ranked_before(
                names@.map_values(|n: String| order_key(order@, n@) as u64),
                r@[i],
                r@[j],
            ),
{
    let ghost keys = names@.map_values(|n: String| order_key(order@, n@) as u64);
    let mut ks: Vec<u64> = Vec::new();
    let mut k: usize = 0;
    while k < names.len()
        invariant
            0 <= k <= names@.len(),
            keys == names@.map_values(|n: String| order_key(order@, n@) as u64),
            ks@.len() == k,
            forall|j: int| 0 <= j < k ==> ks@[j] == keys[j],
        decreases names@.len() - k,
    {
        ks.push(order_key_of(order, names[k].as_str()) as u64);
        k += 1;
    }
    assert(ks@ =~= keys);
    rank_order(&ks)
}

/// The positions of `ks`, each once, ordered by key and, on equal keys, by
/// position (a stable sort).
pub fn rank_order(ks: &Vec<u64>) -> (r: Vec<usize>)
    ensures
        r@.len() == ks@.len(),
        forall|x: usize| #[trigger] r@.contains(x) <==> x < ks@.len(),
        forall|i: int, j: int| 0 <= i < j < r@.len() ==> ranked_before(ks@, r@[i], r@[j]),
{
    let ghost keys = ks@;
    let mut out: Vec<usize> = Vec::new();
    let mut n: usize = 0;
    while n < ks.len()
        invariant
            0 <= n <= ks@.len(),
            keys == ks@,
            out@.len() == n,
            forall|x: usize| #[trigger] out@.contains(x) <==> x < n,
            forall|i: int, j: int| 0 <= i < j < out@.len() ==> ranked_before(keys, out@[i], out@[j]),
        decreases ks@.len() - n,
    {
        let mut p: usize = out.len();
        while p > 0
            invariant
                0 <= p <= out@.len(),
                n < ks@.len(),
                keys == ks@,
                forall|x: usize| #[trigger] out@.contains(x) <==> x < n,
                forall|j: int| p <= j < out@.len() ==> ranked_before(keys, n, #[trigger] out@[j]),
            ensures
                0 <= p <= out@.len(),
                forall|j: int| p <= j < out@.len() ==> ranked_before(keys, n, #[trigger] out@[j]),
                p > 0 ==> !ranked_before(keys, n, out@[p - 1]),
            decreases p,
        {
            let e = out[p - 1];
            assert(out@.contains(e));
            if !(ks[n] < ks[e] || (ks[n] == ks[e] && n < e)) {
                break;
            }
            p -= 1;
        }
        let ghost before = out@;
        out.insert(p, n);
        proof {
            assert(out@ =~= before.insert(p as int, n));
            lemma_rank_insert(keys, before, p as int, n);
        }
        n += 1;
    }
    out
}

proof fn lemma_rank_insert(keys: Seq<u64>, o: Seq<usize>, p: int, n: usize)
    requires
        0 <= p <= o.len(),
        n < keys.len(),
        o.len() == n,
        forall|x: usize| #[trigger] o.contains(x) <==> x < n,
        forall|i: int, j: int| 0 <= i < j < o.len() ==> ranked_before(keys, o[i], o[j]),
        forall|j: int| p <= j < o.len() ==> ranked_before(keys, n, #[trigger] o[j]),
        p > 0 ==> !ranked_before(keys, n, o[p - 1]),
    ensures
        ({
            let r = o.insert(p, n);
            &&& r.len() == n + 1
            &&& forall|x: usize| #[trigger] r.contains(x) <==> x < n + 1
            &&& forall|i: int, j: int| 0 <= i < j < r.len() ==> ranked_before(keys, r[i], r[j])
        }),
{
    let r = o.insert(p, n);
    assert forall|k: int| 0 <= k < o.len() implies o[k] < n by {
        assert(o.contains(o[k]));
    }
    assert forall|x: usize| #[trigger] r.contains(x) <==> x < n + 1 by {
        if x < n {
            assert(o.contains(x));
            let a = choose|a: int| 0 <= a < o.len() && o[a] == x;
            if a < p {
                assert(r[a] == x);
            } else {
                assert(r[a + 1] == x);
            }
        }
        if x == n {
            assert(r[p] == n);
        }
        if r.contains(x) {
            let a = choose|a: int| 0 <= a < r.len() && r[a] == x;
            if a < p {
                assert(o[a] == x);
            } else if a > p {
                assert(o[a - 1] == x);
            }
        }
    }
    assert forall|i: int, j: int| 0 <= i < j < r.len() implies ranked_before(keys, r[i], r[j]) by {
        if i < p && j < p {
            assert(r[i] == o[i] && r[j] == o[j]);
        } else if i > p && j > p {
            assert(r[i] == o[i - 1] && r[j] == o[j - 1]);
        } else if i == p {
            assert(r[j] == o[j - 1]);
        } else if j == p {
            assert(r[i] == o[i]);
            if i < p - 1 {
                assert(ranked_before(keys, o[i], o[p - 1]));
            }
            assert(o[i] < n);
        } else {
            assert(r[i] == o[i] && r[j] == o[j - 1]);
            assert(ranked_before(keys, n, o[j - 1]));
            if i < p - 1 {
                assert(ranked_before(keys, o[i], o[p - 1]));
            }
            assert(o[i] < n);
        }
    }
}

/// The saved bar order after moving the screen at bar position `i` by
/// `delta`: the bar's names with the two places swapped; `None` (nothing
/// changed, nothing to save) when the move leaves the bar or does not move.
pub fn move_order(bar: &Vec<String>, i: usize, delta: i32) -> (r: Option<Vec<String>>)
    ensures
        ({
            let j = i + delta;
            if i >= bar@.len() || j < 0 || j >= bar@.len() || delta == 0 {
                r is None
            } else {
                r matches Some(v) && v@ == bar@.update(i as int, bar@[j]).update(j, bar@[i as int])
            }
        }),
{
    if i >= bar.len() || delta == 0 {
        return None;
    }
    let j: i128 = i as i128 + delta as i128;
    if j < 0 || j >= bar.len() as i128 {
        return None;
    }
    let j = j as usize;
    let mut v: Vec<String> = Vec::new();
    let mut k: usize = 0;
    while k < bar.len()
        invariant
            0 <= k <= bar@.len(),
            i < bar@.len(),
            j < bar@.len(),
            v@.len() == k,
            forall|a: int| 0 <= a < k ==> #[trigger] v@[a] == (if a == i {
                bar@[j as int]
            } else if a == j {
                bar@[i as int]
            } else {
                bar@[a]
            }),
        decreases bar@.len() - k,
    {
        let src = if k == i {
            j
        } else if k == j {
            i
        } else {
            k
        };
        v.push(bar[src].clone());
        k += 1;
    }
    assert(v@ =~= bar@.update(i as int, bar@[j as int]).update(j as int, bar@[i as int]));
    Some(v)
}

/// Some entry of `v` reads `x`.
pub open spec fn listed(v: Seq<String>, x: Seq<char>) -> bool {
    exists|j: int| 0 <= j < v.len() && #[trigger] v[j]@ == x
}

fn name_listed(v: &Vec<String>, x: &str) -> (r: bool)
    ensures
        r == listed(v@, x@),
{
    let mut k: usize = 0;
    while k < v.len()
        invariant
            0 <= k <= v@.len(),
            forall|j: int| 0 <= j < k ==> v@[j]@ != x@,
        decreases v@.len() - k,
    {
        if str_eq(v[k].as_str(), x) {
            return true;
        }
        k += 1;
    }
    false
}

/// Screens the saved order does not know yet go to its end, in stream
/// order: afterwards it holds every screen name, begins with what it held,
/// and what was added are screen names.
pub fn extend_order(order: &mut Vec<String>, names: &Vec<String>)
    ensures
        final(order)@.take(old(order)@.len() as int) == old(order)@,
        forall|k: int| 0 <= k < names@.len() ==> listed(final(order)@, #[trigger] names@[k]@),
        forall|j: int| old(order)@.len() <= j < final(order)@.len() ==> listed(names@, #[trigger] final(order)@[j]@),
{
    let ghost start = order@;
    let mut k: usize = 0;
    while k < names.len()
        invariant
            0 <= k <= names@.len(),
            order@.take(start.len() as int) == start,
            order@.len() >= start.len(),
            forall|a: int| 0 <= a < k ==> listed(order@, #[trigger] names@[a]@),
            forall|j: int| start.len() <= j < order@.len() ==> listed(names@, #[trigger] order@[j]@),
        decreases names@.len() - k,
    {
        let known = name_listed(order, names[k].as_str());
        if !known {
            let ghost before = order@;
            order.push(names[k].clone());
            proof {
                assert(order@.take(start.len() as int) =~= before.take(start.len() as int));
                assert forall|a: int| 0 <= a < k + 1 implies listed(order@, #[trigger] names@[a]@) by {
                    if a < k {
                        let j = choose|j: int| 0 <= j < before.len() && #[trigger] before[j]@ == names@[a]@;
                        assert(order@[j] == before[j]);
                    } else {
                        assert(order@[before.len() as int]@ == names@[a]@);
                    }
                }
                assert forall|j: int| start.len() <= j < order@.len() implies listed(names@, #[trigger] order@[j]@) by {
                    if j < before.len() {
                        assert(order@[j] == before[j]);
                    } else {
                        assert(names@[k as int]@ == order@[j]@);
                    }
                }
            }
        }
        k += 1;
    }
}

// --- docked groups -----------------------------------------------------------

/// Screens `a` and `b` are docked to each other (either is the other's
/// parent); `parents[i]` is the screen `i` is docked to.
pub open spec fn linked(parents: Seq<Option<usize>>, a: usize, b: usize) -> bool {
    parents[a as int] == Some(b) || parents[b as int] == Some(a)
}

/// A set of screens that holds every screen docked to one of its members.
pub open spec fn closed_group(parents: Seq<Option<usize>>, s: Set<usize>) -> bool {
    forall|m: usize, j: usize| s.contains(m) && m < parents.len() && j < parents.len() && #[trigger] linked(parents, j, m)
        ==> s.contains(j)
}

/// Every member lies in `s`.
pub open spec fn within(members: Seq<usize>, s: Set<usize>) -> bool {
    forall|x: usize| members.contains(x) ==> s.contains(x)
}

proof fn lemma_distinct_below(s: Seq<usize>, n: nat)
    requires
        forall|a: int, b: int| 0 <= a < b < s.len() ==> s[a] != s[b],
        forall|a: int| 0 <= a < s.len() ==> s[a] < n,
    ensures
        s.len() <= n,
    decreases n,
{
    if s.len() > 0 {
        if n == 0 {
            assert(s[0] < 0);
        } else {
            let v = s.last();
            let top = (n - 1) as int;
            let t = s.drop_last().map_values(|x: usize| if x == top { v } else { x });
            assert forall|a: int, b: int| 0 <= a < b < t.len() implies t[a] != t[b] by {
                assert(s[a] != s[b]);
                assert(s[a] != v && s[b] != v);
            }
            assert forall|a: int| 0 <= a < t.len() implies t[a] < (n - 1) as nat by {
                assert(s[a] != v);
                if s[a] == top {
                    assert(v != top);
                }
            }
            lemma_distinct_below(t, (n - 1) as nat);
        }
    }
}

fn holds_index(v: &Vec<usize>, x: usize) -> (r: bool)
    ensures
        r == v@.contains(x),
{
    let mut k: usize = 0;
    while k < v.len()
        invariant
            0 <= k <= v@.len(),
            forall|j: int| 0 <= j < k ==> v@[j] != x,
        decreases v@.len() - k,
    {
        if v[k] == x {
            assert(v@[k as int] == x);
            return true;
        }
        k += 1;
    }
    false
}

fn docked_to_member(parents: &Vec<Option<usize>>, members: &Vec<usize>, j: usize) -> (r: bool)
    requires
        j < parents@.len(),
        forall|a: int| 0 <= a < members@.len() ==> members@[a] < parents@.len(),
    ensures
        r == exists|m: usize| members@.contains(m) && #[trigger] linked(parents@, j, m),
{
    match parents[j] {
        Some(p) => {
            if holds_index(members, p) {
                assert(linked(parents@, j, p));
                return true;
            }
        },
        None => {},
    }
    let mut k: usize = 0;
    while k < members.len()
        invariant
            0 <= k <= members@.len(),
            j < parents@.len(),
            forall|a: int| 0 <= a < members@.len() ==> members@[a] < parents@.len(),
            forall|a: int| 0 <= a < k ==> parents@[members@[a] as int] != Some(j),
        decreases members@.len() - k,
    {
        let m = members[k];
        if parents[m] == Some(j) {
            assert(members@.contains(m) && linked(parents@, j, m));
            return true;
        }
        k += 1;
    }
    proof {
        assert forall|m: usize| members@.contains(m) implies !#[trigger] linked(parents@, j, m) by {
            let a = choose|a: int| 0 <= a < members@.len() && members@[a] == m;
        }
    }
    false
}

/// Screen `j` is docked to `m`: both ways (`below` false) or only to its
/// parent (`below` true).
pub open spec fn link(parents: Seq<Option<usize>>, below: bool, j: usize, m: usize) -> bool {
    if below {
        parents[j as int] == Some(m)
    } else {
        linked(parents, j, m)
    }
}

/// Screen `j` is not found yet and is docked to one that is.
pub open spec fn joins(parents: Seq<Option<usize>>, below: bool, members: Seq<usize>, j: usize) -> bool {
    !members.contains(j) && exists|m: usize| members.contains(m) && #[trigger] link(parents, below, j, m)
}

/// One pass over the screens from `j` on, in screen order: each screen
/// docked to one found so far is added.
pub open spec fn pass(parents: Seq<Option<usize>>, below: bool, members: Seq<usize>, j: nat) -> Seq<usize>
    decreases parents.len() - j,
{
    if j >= parents.len() {
        members
    } else {
        pass(
            parents,
            below,
            if joins(parents, below, members, j as usize) {
                members.push(j as usize)
            } else {
                members
            },
            j + 1,
        )
    }
}

/// Passes until one adds nothing (or `fuel` more have run).
pub open spec fn passes(parents: Seq<Option<usize>>, below: bool, members: Seq<usize>, fuel: nat) -> Seq<usize>
    decreases fuel,
{
    let m2 = pass(parents, below, members, 0);
    if m2.len() == members.len() || fuel == 0 {
        m2
    } else {
        passes(parents, below, m2, (fuel - 1) as nat)
    }
}

/// The screens docked (together, or below when `below`) with `i`, in the
/// order the passes find them: `i` first.
pub open spec fn found_order(parents: Seq<Option<usize>>, below: bool, i: usize) -> Seq<usize> {
    passes(parents, below, seq![i], parents.len())
}

/// Every screen connected to `i` through dock links (`i` included), in the
/// order they are found: the smallest set that holds `i` and every screen
/// docked to one of its members.
pub fn group_of(parents: &Vec<Option<usize>>, i: usize) -> (r: Vec<usize>)
    requires
        i < parents@.len(),
    ensures
        r@.contains(i),
        forall|a: int, b: int| 0 <= a < b < r@.len() ==> r@[a] != r@[b],
        forall|a: int| 0 <= a < r@.len() ==> r@[a] < parents@.len(),
        closed_group(parents@, r@.to_set()),
        forall|s: Set<usize>| s.contains(i) && #[trigger] closed_group(parents@, s) ==> r@.to_set().subset_of(s),
        r@ == found_order(parents@, false, i),
{
    let n = parents.len();
    let ghost mut fuel: nat = n as nat;
    let mut members: Vec<usize> = Vec::new();
    members.push(i);
    let mut changed = true;
    proof {
        assert(members@[0] == i);
        assert(members@.contains(i));
        assert forall|s: Set<usize>| s.contains(i) && #[trigger] closed_group(parents@, s) implies within(members@, s) by {
            assert forall|x: usize| members@.contains(x) implies s.contains(x) by {
                let a = choose|a: int| 0 <= a < members@.len() && members@[a] == x;
            }
        }
    }
    while changed
        invariant
            n == parents@.len(),
            i < n,
            members@.contains(i),
            forall|a: int, b: int| 0 <= a < b < members@.len() ==> members@[a] != members@[b],
            forall|a: int| 0 <= a < members@.len() ==> members@[a] < n,
            forall|s: Set<usize>| s.contains(i) && #[trigger] closed_group(parents@, s) ==> within(members@, s),
            !changed ==> forall|m: usize, j: usize|
                members@.contains(m) && j < n && #[trigger] linked(parents@, j, m) ==> members@.contains(j),
            members@.len() <= n,
            changed ==> fuel + members@.len() >= n,
            found_order(parents@, false, i) == if changed {
                passes(parents@, false, members@, fuel)
            } else {
                members@
            },
        decreases n - members@.len() + (if changed { 1int } else { 0int }),
    {
        changed = false;
        let ghost start_len = members@.len();
        let ghost start = members@;
        let mut j: usize = 0;
        while j < n
            invariant
                n == parents@.len(),
                i < n,
                members@.contains(i),
                forall|a: int, b: int| 0 <= a < b < members@.len() ==> members@[a] != members@[b],
                forall|a: int| 0 <= a < members@.len() ==> members@[a] < n,
                forall|s: Set<usize>| s.contains(i) && #[trigger] closed_group(parents@, s) ==> within(members@, s),
                0 <= j <= n,
                members@.len() >= start_len,
                changed == (members@.len() > start_len),
                !changed ==> forall|m: usize, jj: usize|
                    members@.contains(m) && jj < j && #[trigger] linked(parents@, jj, m) ==> members@.contains(jj),
                pass(parents@, false, start, 0) == pass(parents@, false, members@, j as nat),
                start.len() == start_len,
            decreases n - j,
        {
            let ghost before_step = members@;
            let ghost joined = joins(parents@, false, members@, j);
            proof {
                assert(joined == (!members@.contains(j) && exists|m: usize|
                    members@.contains(m) && #[trigger] linked(parents@, j, m))) by {
                    if exists|m: usize| members@.contains(m) && #[trigger] linked(parents@, j, m) {
                        let m = choose|m: usize| members@.contains(m) && #[trigger] linked(parents@, j, m);
                        assert(link(parents@, false, j, m));
                    }
                    if exists|m: usize| members@.contains(m) && #[trigger] link(parents@, false, j, m) {
                        let m = choose|m: usize| members@.contains(m) && #[trigger] link(parents@, false, j, m);
                        assert(linked(parents@, j, m));
                    }
                }
            }
            if !holds_index(&members, j) {
                if docked_to_member(parents, &members, j) {
                    let ghost before = members@;
                    members.push(j);
                    changed = true;
                    proof {
                        assert forall|a: int, b: int| 0 <= a < b < members@.len() implies members@[a] != members@[b] by {
                            if b == before.len() {
                                assert(before.contains(members@[a]));
                            }
                        }
                        assert forall|s: Set<usize>| s.contains(i) && #[trigger] closed_group(parents@, s) implies within(
                            members@,
                            s,
                        ) by {
                            assert(within(before, s));
                            assert forall|x: usize| members@.contains(x) implies s.contains(x) by {
                                if x == j {
                                    let m = choose|m: usize| before.contains(m) && #[trigger] linked(parents@, j, m);
                                    assert(s.contains(m));
                                    assert(m < n);
                                } else {
                                    let a = choose|a: int| 0 <= a < members@.len() && members@[a] == x;
                                    assert(before[a] == x);
                                }
                            }
                        }
                        assert forall|m: usize| before.contains(m) implies members@.contains(m) by {
                            let a = choose|a: int| 0 <= a < before.len() && before[a] == m;
                            assert(members@[a] == m);
                        }
                    }
                }
            }
            proof {
                assert(pass(parents@, false, before_step, j as nat) == pass(
                    parents@,
                    false,
                    members@,
                    (j + 1) as nat,
                ));
            }
            j += 1;
        }
        proof {
            lemma_distinct_below(members@, n as nat);
            assert(pass(parents@, false, members@, n as nat) == members@);
            if changed {
                assert(fuel > 0);
                fuel = (fuel - 1) as nat;
            }
        }
    }
    proof {
        assert forall|m: usize, jj: usize|
            members@.to_set().contains(m) && m < parents@.len() && jj < parents@.len() && #[trigger] linked(parents@, jj, m)
                implies members@.to_set().contains(jj) by {
            assert(members@.contains(m));
        }
        assert forall|s: Set<usize>| s.contains(i) && #[trigger] closed_group(parents@, s) implies members@.to_set().subset_of(s) by {
            assert(within(members@, s));
            assert forall|x: usize| members@.to_set().contains(x) implies s.contains(x) by {
                assert(members@.contains(x));
            }
        }
    }
    members
}


/// Screen `j` is docked to screen `m`.
pub open spec fn docked_to(parents: Seq<Option<usize>>, j: usize, m: usize) -> bool {
    parents[j as int] == Some(m)
}

/// A set of screens that holds every screen docked to one of its members:
/// a member's whole subtree comes with it.
pub open spec fn closed_below(parents: Seq<Option<usize>>, s: Set<usize>) -> bool {
    forall|m: usize, j: usize| s.contains(m) && j < parents.len() && #[trigger] docked_to(parents, j, m) ==> s.contains(j)
}

fn docked_below(parents: &Vec<Option<usize>>, members: &Vec<usize>, j: usize) -> (r: bool)
    requires
        j < parents@.len(),
    ensures
        r == exists|m: usize| members@.contains(m) && #[trigger] docked_to(parents@, j, m),
{
    match parents[j] {
        Some(p) => {
            if holds_index(members, p) {
                assert(docked_to(parents@, j, p));
                true
            } else {
                false
            }
        },
        None => false,
    }
}

/// Screen `s` and every screen docked below it, directly or through others:
/// the smallest set that holds `s` and every screen docked to one of its
/// members.
pub fn subtree_of(parents: &Vec<Option<usize>>, s: usize) -> (r: Vec<usize>)
    requires
        s < parents@.len(),
    ensures
        r@.contains(s),
        forall|a: int, b: int| 0 <= a < b < r@.len() ==> r@[a] != r@[b],
        forall|a: int| 0 <= a < r@.len() ==> r@[a] < parents@.len(),
        closed_below(parents@, r@.to_set()),
        forall|t: Set<usize>| t.contains(s) && #[trigger] closed_below(parents@, t) ==> r@.to_set().subset_of(t),
        r@ == found_order(parents@, true, s),
{
    let n = parents.len();
    let ghost mut fuel: nat = n as nat;
    let mut members: Vec<usize> = Vec::new();
    members.push(s);
    let mut changed = true;
    proof {
        assert(members@[0] == s);
        assert(members@.contains(s));
        assert forall|t: Set<usize>| t.contains(s) && #[trigger] closed_below(parents@, t) implies within(members@, t) by {
            assert forall|x: usize| members@.contains(x) implies t.contains(x) by {
                let a = choose|a: int| 0 <= a < members@.len() && members@[a] == x;
            }
        }
    }
    while changed
        invariant
            n == parents@.len(),
            s < n,
            members@.contains(s),
            forall|a: int, b: int| 0 <= a < b < members@.len() ==> members@[a] != members@[b],
            forall|a: int| 0 <= a < members@.len() ==> members@[a] < n,
            forall|t: Set<usize>| t.contains(s) && #[trigger] closed_below(parents@, t) ==> within(members@, t),
            !changed ==> forall|m: usize, j: usize|
                members@.contains(m) && j < n && #[trigger] docked_to(parents@, j, m) ==> members@.contains(j),
            members@.len() <= n,
            changed ==> fuel + members@.len() >= n,
            found_order(parents@, true, s) == if changed {
                passes(parents@, true, members@, fuel)
            } else {
                members@
            },
        decreases n - members@.len() + (if changed { 1int } else { 0int }),
    {
        changed = false;
        let ghost start_len = members@.len();
        let ghost start = members@;
        let mut j: usize = 0;
        while j < n
            invariant
                n == parents@.len(),
                s < n,
                members@.contains(s),
                forall|a: int, b: int| 0 <= a < b < members@.len() ==> members@[a] != members@[b],
                forall|a: int| 0 <= a < members@.len() ==> members@[a] < n,
                forall|t: Set<usize>| t.contains(s) && #[trigger] closed_below(parents@, t) ==> within(members@, t),
                0 <= j <= n,
                members@.len() >= start_len,
                changed == (members@.len() > start_len),
                !changed ==> forall|m: usize, jj: usize|
                    members@.contains(m) && jj < j && #[trigger] docked_to(parents@, jj, m) ==> members@.contains(jj),
                pass(parents@, true, start, 0) == pass(parents@, true, members@, j as nat),
                start.len() == start_len,
            decreases n - j,
        {
            let ghost before_step = members@;
            proof {
                if exists|m: usize| members@.contains(m) && #[trigger] docked_to(parents@, j, m) {
                    let m = choose|m: usize| members@.contains(m) && #[trigger] docked_to(parents@, j, m);
                    assert(link(parents@, true, j, m));
                }
                if exists|m: usize| members@.contains(m) && #[trigger] link(parents@, true, j, m) {
                    let m = choose|m: usize| members@.contains(m) && #[trigger] link(parents@, true, j, m);
                    assert(docked_to(parents@, j, m));
                }
            }
            if !holds_index(&members, j) {
                if docked_below(parents, &members, j) {
                    let ghost before = members@;
                    members.push(j);
                    changed = true;
                    proof {
                        assert forall|a: int, b: int| 0 <= a < b < members@.len() implies members@[a] != members@[b] by {
                            if b == before.len() {
                                assert(before.contains(members@[a]));
                            }
                        }
                        assert forall|t: Set<usize>| t.contains(s) && #[trigger] closed_below(parents@, t) implies within(
                            members@,
                            t,
                        ) by {
                            assert(within(before, t));
                            assert forall|x: usize| members@.contains(x) implies t.contains(x) by {
                                if x == j {
                                    let m = choose|m: usize| before.contains(m) && #[trigger] docked_to(parents@, j, m);
                                    assert(t.contains(m));
                                } else {
                                    let a = choose|a: int| 0 <= a < members@.len() && members@[a] == x;
                                    assert(before[a] == x);
                                }
                            }
                        }
                        assert forall|m: usize| before.contains(m) implies members@.contains(m) by {
                            let a = choose|a: int| 0 <= a < before.len() && before[a] == m;
                            assert(members@[a] == m);
                        }
                    }
                }
            }
            proof {
                assert(pass(parents@, true, before_step, j as nat) == pass(parents@, true, members@, (j + 1) as nat));
            }
            j += 1;
        }
        proof {
            lemma_distinct_below(members@, n as nat);
            assert(pass(parents@, true, members@, n as nat) == members@);
            if changed {
                assert(fuel > 0);
                fuel = (fuel - 1) as nat;
            }
        }
    }
    proof {
        assert forall|m: usize, jj: usize|
            members@.to_set().contains(m) && jj < parents@.len() && #[trigger] docked_to(parents@, jj, m)
                implies members@.to_set().contains(jj) by {
            assert(members@.contains(m));
        }
        assert forall|t: Set<usize>| t.contains(s) && #[trigger] closed_below(parents@, t) implies members@.to_set().subset_of(t) by {
            assert(within(members@, t));
            assert forall|x: usize| members@.to_set().contains(x) implies t.contains(x) by {
                assert(members@.contains(x));
            }
        }
    }
    members
}


/// The screens docked together with `i`: those in every set that holds `i`
/// and every screen docked to one of its members.
pub open spec fn group_set(parents: Seq<Option<usize>>, i: usize) -> Set<usize> {
    Set::new(|x: usize| forall|t: Set<usize>| t.contains(i) && #[trigger] closed_group(parents, t) ==> t.contains(x))
}

/// Screen `s` and the screens docked below it: those in every set that
/// holds `s` and every screen docked to one of its members.
pub open spec fn subtree_set(parents: Seq<Option<usize>>, s: usize) -> Set<usize> {
    Set::new(|x: usize| forall|t: Set<usize>| t.contains(s) && #[trigger] closed_below(parents, t) ==> t.contains(x))
}

/// The first of `v` docked to nothing, else the first of `v`.
pub open spec fn chain_root(parents: Seq<Option<usize>>, v: Seq<usize>) -> Option<usize> {
    if exists|k: int| 0 <= k < v.len() && #[trigger] parents[v[k] as int] is None {
        let k = choose|k: int|
            0 <= k < v.len() && #[trigger] parents[v[k] as int] is None && forall|j: int|
                0 <= j < k ==> parents[v[j] as int] is Some;
        Some(v[k])
    } else if v.len() > 0 {
        Some(v[0])
    } else {
        None
    }
}

/// Screen `s` leaves its docked group, taking the screens docked below it
/// along: the screens that stay together (the rest of the group, each once,
/// in the order the group's passes find them) and the one they re-chain
/// around (the first of them docked to nothing,
/// else the first).
pub fn undock(parents: &Vec<Option<usize>>, s: usize) -> (r: (Vec<usize>, Option<usize>))
    requires
        s < parents@.len(),
    ensures
        forall|x: usize| r.0@.contains(x) <==> group_set(parents@, s).contains(x) && !subtree_set(parents@, s).contains(x),
        forall|a: int, b: int| 0 <= a < b < r.0@.len() ==> r.0@[a] != r.0@[b],
        forall|a: int| 0 <= a < r.0@.len() ==> r.0@[a] < parents@.len(),
        r.0@ == found_order(parents@, false, s).filter(|m: usize| !subtree_set(parents@, s).contains(m)),
        r.1 == chain_root(parents@, r.0@),
{
    let group = group_of(parents, s);
    let sub = subtree_of(parents, s);
    proof {
        assert forall|x: usize| group@.contains(x) <==> group_set(parents@, s).contains(x) by {
            if group_set(parents@, s).contains(x) {
                assert(closed_group(parents@, group@.to_set()));
                assert(group@.to_set().contains(s));
                assert(group@.to_set().contains(x));
            }
            if group@.contains(x) {
                assert forall|t: Set<usize>| t.contains(s) && #[trigger] closed_group(parents@, t) implies t.contains(x) by {
                    assert(group@.to_set().subset_of(t));
                    assert(group@.to_set().contains(x));
                }
            }
        }
        assert forall|x: usize| sub@.contains(x) <==> subtree_set(parents@, s).contains(x) by {
            if subtree_set(parents@, s).contains(x) {
                assert(closed_below(parents@, sub@.to_set()));
                assert(sub@.to_set().contains(s));
                assert(sub@.to_set().contains(x));
            }
            if sub@.contains(x) {
                assert forall|t: Set<usize>| t.contains(s) && #[trigger] closed_below(parents@, t) implies t.contains(x) by {
                    assert(sub@.to_set().subset_of(t));
                    assert(sub@.to_set().contains(x));
                }
            }
        }
    }
    let ghost out_of = |m: usize| !sub@.contains(m);
    let mut rest: Vec<usize> = Vec::new();
    let mut k: usize = 0;
    assert(group@.take(0).filter(out_of) =~= Seq::<usize>::empty()) by {
        reveal(Seq::filter);
    }
    while k < group.len()
        invariant
            0 <= k <= group@.len(),
            forall|a: int, b: int| 0 <= a < b < group@.len() ==> group@[a] != group@[b],
            forall|a: int| 0 <= a < group@.len() ==> group@[a] < parents@.len(),
            forall|x: usize| rest@.contains(x) <==> group@.take(k as int).contains(x) && !sub@.contains(x),
            forall|a: int, b: int| 0 <= a < b < rest@.len() ==> rest@[a] != rest@[b],
            forall|a: int| 0 <= a < rest@.len() ==> rest@[a] < parents@.len(),
            out_of == (|m: usize| !sub@.contains(m)),
            rest@ == group@.take(k as int).filter(out_of),
        decreases group@.len() - k,
    {
        let m = group[k];
        let ghost before = rest@;
        proof {
            reveal(Seq::filter);
            assert(group@.take(k + 1).drop_last() =~= group@.take(k as int));
            assert(group@.take(k + 1).last() == m);
        }
        proof {
            assert(group@.take(k + 1) =~= group@.take(k as int).push(m));
            assert(!group@.take(k as int).contains(m)) by {
                if group@.take(k as int).contains(m) {
                    let a = choose|a: int| 0 <= a < k && group@.take(k as int)[a] == m;
                    assert(group@[a] == group@[k as int]);
                }
            }
        }
        if !holds_index(&sub, m) {
            rest.push(m);
            proof {
                assert forall|a: int, b: int| 0 <= a < b < rest@.len() implies rest@[a] != rest@[b] by {
                    if b == before.len() {
                        assert(before.contains(rest@[a]));
                    }
                }
                assert(rest@ == before.push(m));
                assert forall|x: usize| rest@.contains(x) <==> group@.take(k + 1).contains(x) && !sub@.contains(x) by {
                    let g1 = group@.take(k + 1);
                    assert(g1 == group@.take(k as int).push(m));
                    if x == m {
                        assert(rest@[before.len() as int] == m);
                        assert(g1[k as int] == m);
                    } else {
                        if rest@.contains(x) {
                            let a = choose|a: int| 0 <= a < rest@.len() && rest@[a] == x;
                            assert(before[a] == x);
                            assert(before.contains(x));
                            let b = choose|b: int| 0 <= b < k && group@.take(k as int)[b] == x;
                            assert(g1[b] == x);
                        }
                        if g1.contains(x) && !sub@.contains(x) {
                            let b = choose|b: int| 0 <= b < k + 1 && g1[b] == x;
                            assert(b != k);
                            assert(group@.take(k as int)[b] == x);
                            assert(before.contains(x));
                            let a = choose|a: int| 0 <= a < before.len() && before[a] == x;
                            assert(rest@[a] == x);
                        }
                    }
                }
            }
        }
        k += 1;
    }
    assert(group@.take(k as int) =~= group@);
    proof {
        let p2 = |m: usize| !subtree_set(parents@, s).contains(m);
        assert(out_of =~= p2) by {
            assert forall|m: usize| #[trigger] out_of(m) == p2(m) by {
                assert(sub@.contains(m) <==> subtree_set(parents@, s).contains(m));
            }
        }
        assert(rest@ == found_order(parents@, false, s).filter(p2));
    }
    assert(forall|x: usize| rest@.contains(x) <==> group_set(parents@, s).contains(x) && !subtree_set(parents@, s).contains(x));
    let mut j: usize = 0;
    while j < rest.len()
        invariant
            forall|x: usize| rest@.contains(x) <==> group_set(parents@, s).contains(x) && !subtree_set(parents@, s).contains(x),
            forall|a: int, b: int| 0 <= a < b < rest@.len() ==> rest@[a] != rest@[b],
            rest@ == found_order(parents@, false, s).filter(|m: usize| !subtree_set(parents@, s).contains(m)),
            0 <= j <= rest@.len(),
            forall|a: int| 0 <= a < rest@.len() ==> rest@[a] < parents@.len(),
            forall|a: int| 0 <= a < j ==> parents@[rest@[a] as int] is Some,
        decreases rest@.len() - j,
    {
        if parents[rest[j]].is_none() {
            let root = Some(rest[j]);
            proof {
                assert(parents@[rest@[j as int] as int] is None);
                let c = choose|c: int|
                    0 <= c < rest@.len() && #[trigger] parents@[rest@[c] as int] is None && forall|i: int|
                        0 <= i < c ==> parents@[rest@[i] as int] is Some;
                if c < j {
                    assert(parents@[rest@[c] as int] is Some);
                }
                if c > j {
                    assert(parents@[rest@[j as int] as int] is Some);
                }
            }
            return (rest, root);
        }
        j += 1;
    }
    let root = if rest.len() > 0 { Some(rest[0]) } else { None };
    (rest, root)
}


// --- saved layouts -----------------------------------------------------------

/// The dock parents a saved layout's links give the screens called `names`.
/// Each link names a screen and, if it was docked, the screen it was docked
/// to and the side. In order, a link docks the first screen of its name to
/// the first screen of its parent's name, unless a name is unknown or both
/// are one screen; a later link for the same screen wins.
pub open spec fn linked_parents(names: Seq<String>, links: Seq<(String, Option<(String, i8)>)>) -> Seq<
    Option<(usize, i8)>,
>
    decreases links.len(),
{
    if links.len() == 0 {
        Seq::new(names.len(), |i: int| None)
    } else {
        let prev = linked_parents(names, links.drop_last());
        let l = links.last();
        match l.1 {
            Some((pname, side)) => {
                let c = order_key(names, l.0@);
                let p = order_key(names, pname@);
                if 0 <= c < names.len() && 0 <= p < names.len() && c != p {
                    prev.update(c, Some((p as usize, side)))
                } else {
                    prev
                }
            },
            None => prev,
        }
    }
}

proof fn lemma_linked_len(names: Seq<String>, links: Seq<(String, Option<(String, i8)>)>)
    ensures
        linked_parents(names, links).len() == names.len(),
    decreases links.len(),
{
    if links.len() > 0 {
        lemma_linked_len(names, links.drop_last());
    }
}

/// The dock parent of each screen once a saved layout's links are applied
/// (`None`: docked to nothing).
pub fn dock_links(names: &Vec<String>, links: &Vec<(String, Option<(String, i8)>)>) -> (r: Vec<Option<(usize, i8)>>)
    ensures
        r@ == linked_parents(names@, links@),
{
    let mut out: Vec<Option<(usize, i8)>> = Vec::new();
    let mut i: usize = 0;
    while i < names.len()
        invariant
            0 <= i <= names@.len(),
            out@ =~= Seq::new(i as nat, |j: int| None::<(usize, i8)>),
        decreases names@.len() - i,
    {
        out.push(None);
        i += 1;
    }
    assert(links@.take(0) =~= Seq::<(String, Option<(String, i8)>)>::empty());
    let mut k: usize = 0;
    while k < links.len()
        invariant
            0 <= k <= links@.len(),
            out@ == linked_parents(names@, links@.take(k as int)),
            out@.len() == names@.len(),
        decreases links@.len() - k,
    {
        proof {
            assert(links@.take(k + 1).drop_last() =~= links@.take(k as int));
            assert(links@.take(k + 1).last() == links@[k as int]);
        }
        match &links[k].1 {
            Some((pname, side)) => {
                let c = order_key_of(names, links[k].0.as_str());
                let p = order_key_of(names, pname.as_str());
                if c < names.len() && p < names.len() && c != p {
                    out.set(c, Some((p, *side)));
                }
            },
            None => {},
        }
        k += 1;
        proof {
            lemma_linked_len(names@, links@.take(k as int));
        }
    }
    assert(links@.take(k as int) =~= links@);
    out
}


// --- screen-share status -----------------------------------------------------

/// Where the desktop's screen-share request stands.
pub enum Portal {
    /// Not asked yet.
    Idle,
    /// The share dialog is up on the desktop.
    Pending,
    /// Approved, with this many screens.
    Ready(usize),
    /// Refused or broken, with the reason.
    Failed(String),
}

/// The status line of the Desktop page.
pub open spec fn spec_portal_status(p: Portal, no_outputs: bool, dmabuf: bool) -> Seq<char> {
    match p {
        Portal::Idle => if no_outputs {
            "No Wayland outputs found — the screen-share dialog will list what's available."@
        } else {
            "Set up screens once: approve the share dialog on your desktop (tick every monitor you want)."@
        },
        Portal::Pending => "Waiting for the screen-share dialog on your desktop…"@,
        Portal::Ready(n) => digits(n as nat) + " screen(s) approved · capture: "@ + (if dmabuf {
            "GPU (DMA-BUF)"@
        } else {
            "CPU (SHM)"@
        }) + " · toggle them from the bottom bar"@,
        Portal::Failed(e) => "Screen share failed: "@ + e@,
    }
}

/// The Desktop page's status line for the share request; `no_outputs`: the
/// Wayland output list is empty, `dmabuf`: frames are imported on the GPU.
pub fn portal_status(p: &Portal, no_outputs: bool, dmabuf: bool) -> (r: String)
    ensures
        r@ == spec_portal_status(*p, no_outputs, dmabuf),
{
    match p {
        Portal::Idle => if no_outputs {
            "No Wayland outputs found — the screen-share dialog will list what's available.".to_string()
        } else {
            "Set up screens once: approve the share dialog on your desktop (tick every monitor you want).".to_string()
        },
        Portal::Pending => "Waiting for the screen-share dialog on your desktop…".to_string(),
        Portal::Ready(n) => {
            let mut out = uint_text(*n as u64);
            extend_chars(&mut out, &chars_of(" screen(s) approved · capture: "));
            let mode = if dmabuf { "GPU (DMA-BUF)" } else { "CPU (SHM)" };
            extend_chars(&mut out, &chars_of(mode));
            extend_chars(&mut out, &chars_of(" · toggle them from the bottom bar"));
            string_of(&out)
        },
        Portal::Failed(e) => {
            let mut out = chars_of("Screen share failed: ");
            extend_chars(&mut out, &chars_of(e.as_str()));
            string_of(&out)
        },
    }
}


// --- laser mouse buttons -----------------------------------------------------

/// evdev code of the left mouse button.
pub const BTN_LEFT: u16 = 0x110;
/// evdev code of the right mouse button.
pub const BTN_RIGHT: u16 = 0x111;

/// One hand's click inputs this frame: trigger, A (a click that does not
/// drag) and B.
#[derive(Clone, Copy, Debug, PartialEq, Eq, Structural)]
pub struct ClickInputs {
    pub select: bool,
    pub precise: bool,
    pub secondary: bool,
}

/// The mouse button a laser holds down: which hand, which button, and
/// whether the pointer stays put while it is held (pressed with A).
#[derive(Clone, Copy, Debug, PartialEq, Eq, Structural)]
pub struct HeldButton {
    pub hand: usize,
    pub code: u16,
    pub frozen: bool,
}

/// What a hand pointing at a screen presses: nothing while a button is
/// held; else on a rising edge, the trigger (left), then A (left, frozen),
/// then B (right).
pub open spec fn spec_click(held: Option<HeldButton>, hand: usize, now: ClickInputs, prev: ClickInputs) -> Option<
    HeldButton,
> {
    if held is Some {
        None
    } else if now.select && !prev.select {
        Some(HeldButton { hand, code: BTN_LEFT, frozen: false })
    } else if now.precise && !prev.precise {
        Some(HeldButton { hand, code: BTN_LEFT, frozen: true })
    } else if now.secondary && !prev.secondary {
        Some(HeldButton { hand, code: BTN_RIGHT, frozen: false })
    } else {
        None
    }
}

/// The button to press (and then hold) for hand `hand` pointing at a screen.
pub fn click(held: Option<HeldButton>, hand: usize, now: ClickInputs, prev: ClickInputs) -> (r: Option<HeldButton>)
    ensures
        r == spec_click(held, hand, now, prev),
{
    if held.is_some() {
        None
    } else if now.select && !prev.select {
        Some(HeldButton { hand, code: BTN_LEFT, frozen: false })
    } else if now.precise && !prev.precise {
        Some(HeldButton { hand, code: BTN_LEFT, frozen: true })
    } else if now.secondary && !prev.secondary {
        Some(HeldButton { hand, code: BTN_RIGHT, frozen: false })
    } else {
        None
    }
}

/// A held button stays down while its hand (still tracked) keeps holding
/// the input that pressed it; otherwise it is released, wherever the laser
/// points now.
pub open spec fn spec_still_held(held: HeldButton, hand: Option<ClickInputs>) -> bool {
    match hand {
        Some(h) => if held.code == BTN_LEFT && held.frozen {
            h.precise
        } else if held.code == BTN_LEFT {
            h.select
        } else if held.code == BTN_RIGHT {
            h.secondary
        } else {
            false
        },
        None => false,
    }
}

/// Whether the held button stays down this frame; `hand`: the holding
/// hand's inputs (`None` when it is gone).
pub fn still_held(held: HeldButton, hand: Option<ClickInputs>) -> (r: bool)
    ensures
        r == spec_still_held(held, hand),
{
    match hand {
        Some(h) => if held.code == BTN_LEFT && held.frozen {
            h.precise
        } else if held.code == BTN_LEFT {
            h.select
        } else if held.code == BTN_RIGHT {
            h.secondary
        } else {
            false
        },
        None => false,
    }
}

/// One button at a time: while one is held, no hand presses another.
pub proof fn one_button_at_a_time(held: HeldButton, hand: usize, now: ClickInputs, prev: ClickInputs)
    ensures
        spec_click(Some(held), hand, now, prev) is None,
{
}

} // verus!
