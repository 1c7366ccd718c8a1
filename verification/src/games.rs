//! The game catalogue's lazy art slots (and which loaded pictures to let
//! go), its recency order, and how the launcher matches a game to what runs.
use vstd::prelude::*;

use crate::desktop::{rank_order, ranked_before};

use crate::text::{
    chars_of, contains_chars, contains_seq, digits, extend_chars, lower, parse_u64, spec_parse_u64, string_of, trim,
    trim_chars, uint_text, unicode_lower,
};

verus! {

/// The three pictures a game can have.
#[derive(Clone, Copy, PartialEq, Eq, Hash, Debug, Structural)]
pub enum ArtKind {
    Cover,
    Hero,
    Logo,
}

impl ArtKind {
    /// The largest thumbnail the decoder makes of this kind, in pixels.
    pub open spec fn spec_max_size(self) -> (u32, u32) {
        match self {
            ArtKind::Cover => (300, 450),
            ArtKind::Hero => (900, 360),
            ArtKind::Logo => (520, 320),
        }
    }

    pub fn max_size(self) -> (r: (u32, u32))
        ensures
            r == self.spec_max_size(),
    {
        match self {
            ArtKind::Cover => (300, 450),
            ArtKind::Hero => (900, 360),
            ArtKind::Logo => (520, 320),
        }
    }
}

/// Load state of one art slot for one game; `T` is the uploaded picture.
pub enum ArtState<T> {
    /// Not requested yet.
    Idle,
    /// Requested; decoding on a worker.
    Pending,
    /// Decoded + uploaded.
    Ready(T),
    /// No such art exists for this game.
    Missing,
}

impl<T> ArtState<T> {
    pub fn is_idle(&self) -> (r: bool)
        ensures
            r == (*self is Idle),
    {
        match self {
            ArtState::Idle => true,
            _ => false,
        }
    }
}

/// A tile wants its art: an idle slot becomes pending when the game has an
/// art id (which is returned, to be requested from the decoder), or missing
/// when it has none; any other slot is left alone.
pub fn want_art<T>(slot: &mut ArtState<T>, cover_id: &Option<String>) -> (r: Option<String>)
    ensures
        !(*old(slot) is Idle) ==> r is None && *final(slot) == *old(slot),
        *old(slot) is Idle ==> match cover_id {
            Some(id) => *final(slot) is Pending && r == Some(*id),
            None => *final(slot) is Missing && r is None,
        },
{
    if !slot.is_idle() {
        return None;
    }
    match cover_id {
        Some(id) => {
            *slot = ArtState::Pending;
            Some(id.clone())
        },
        None => {
            *slot = ArtState::Missing;
            None
        },
    }
}

/// At most this many art textures stay loaded.
pub const ART_CAP: usize = 160;

/// `order` lists every loaded texture once, coldest first: by the frame it
/// was last used, ties in catalogue order.
pub open spec fn coldest_first(last_used: Seq<u64>, order: Seq<usize>) -> bool {
    &&& order.len() == last_used.len()
    &&& forall|x: usize| #[trigger] order.contains(x) <==> x < last_used.len()
    &&& forall|i: int, j: int| 0 <= i < j < order.len() ==> ranked_before(last_used, order[i], order[j])
}

/// The loaded textures to let go: with more than `cap` loaded, the coldest
/// ones past the cap, except those in use this frame; none otherwise.
pub open spec fn spec_evict(order: Seq<usize>, in_use: Seq<bool>, cap: nat) -> Seq<usize> {
    if order.len() > cap {
        order.take(order.len() - cap).filter(|i: usize| !in_use[i as int])
    } else {
        Seq::empty()
    }
}

/// Which loaded art textures to unload (they go back to idle), given for
/// each the frame it was last used and whether it is in use this frame,
/// coldest first.
pub fn evict(last_used: &Vec<u64>, in_use: &Vec<bool>, cap: usize) -> (r: Vec<usize>)
    requires
        in_use@.len() == last_used@.len(),
    ensures
        exists|order: Seq<usize>| coldest_first(last_used@, order) && r@ == spec_evict(order, in_use@, cap as nat),
{
    let order = rank_order(last_used);
    let ghost keep = |i: usize| !in_use@[i as int];
    let mut out: Vec<usize> = Vec::new();
    if order.len() <= cap {
        assert(coldest_first(last_used@, order@));
        return out;
    }
    let stop = order.len() - cap;
    let mut k: usize = 0;
    assert(order@.take(0).filter(keep) =~= Seq::<usize>::empty()) by {
        reveal(Seq::filter);
    }
    while k < stop
        invariant
            0 <= k <= stop,
            stop <= order@.len(),
            order@.len() == last_used@.len(),
            in_use@.len() == last_used@.len(),
            forall|x: usize| #[trigger] order@.contains(x) <==> x < last_used@.len(),
            keep == (|i: usize| !in_use@[i as int]),
            out@ == order@.take(k as int).filter(keep),
        decreases stop - k,
    {
        let i = order[k];
        assert(order@.contains(i));
        proof {
            reveal(Seq::filter);
            assert(order@.take(k + 1).drop_last() =~= order@.take(k as int));
            assert(order@.take(k + 1).last() == i);
        }
        if !in_use[i] {
            out.push(i);
        }
        assert(out@ =~= order@.take(k + 1).filter(keep));
        k += 1;
    }
    assert(coldest_first(last_used@, order@));
    out
}

/// A game's name and a running app's name name the same thing: both not
/// empty, and one contains the other, case aside.
pub open spec fn spec_name_matches(game: Seq<char>, app: Seq<char>) -> bool {
    let g = unicode_lower(game);
    let a = unicode_lower(app);
    g.len() > 0 && a.len() > 0 && (g == a || contains_seq(g, a) || contains_seq(a, g))
}

pub fn name_matches(game: &str, app: &str) -> (r: bool)
    ensures
        r == spec_name_matches(game@, app@),
{
    let gl = lower(game);
    let al = lower(app);
    let g = chars_of(gl.as_str());
    let a = chars_of(al.as_str());
    if g.len() == 0 || a.len() == 0 {
        return false;
    }
    if contains_chars(&g, &a) {
        return true;
    }
    if contains_chars(&a, &g) {
        return true;
    }
    proof {
        if g@ == a@ {
            assert(g@.skip(0) =~= g@);
            assert(crate::text::is_prefix(a@, g@.skip(0)));
        }
    }
    false
}

/// What `char::is_alphanumeric` says of a character (Unicode Alphabetic or
/// Numeric).
pub uninterp spec fn unicode_alphanumeric(c: char) -> bool;

/// `char::is_alphanumeric`.
#[verifier::external_body]
fn char_alphanumeric(c: char) -> (r: bool)
    ensures
        r == unicode_alphanumeric(c),
{
    c.is_alphanumeric()
}

/// A character that may stay in a process-name pattern.
pub open spec fn pattern_char(c: char) -> bool {
    unicode_alphanumeric(c) || c == ' ' || c == '.' || c == '_' || c == '-'
}

/// The UTF-8 length of a character.
pub open spec fn utf8_len(c: char) -> nat {
    if (c as u32) < 0x80 {
        1
    } else if (c as u32) < 0x800 {
        2
    } else if (c as u32) < 0x10000 {
        3
    } else {
        4
    }
}

/// The UTF-8 length of a text.
pub open spec fn byte_len(s: Seq<char>) -> nat
    decreases s.len(),
{
    if s.len() == 0 {
        0
    } else {
        byte_len(s.drop_last()) + utf8_len(s.last())
    }
}

/// The pattern "stop game" hands to `pkill -f`: the app name with only
/// letters, digits and ` ._-` left, trimmed; `None` when under three bytes
/// (too short to match safely).
pub open spec fn spec_stop_pattern(app: Seq<char>) -> Option<Seq<char>> {
    let p = trim(app.filter(|c: char| pattern_char(c)));
    if byte_len(p) < 3 {
        None
    } else {
        Some(p)
    }
}

pub fn stop_pattern(app: &str) -> (r: Option<String>)
    ensures
        match r {
            Some(p) => spec_stop_pattern(app@) == Some(p@),
            None => spec_stop_pattern(app@) is None,
        },
{
    let cs = chars_of(app);
    let ghost pred = |c: char| pattern_char(c);
    let mut kept: Vec<char> = Vec::new();
    let mut i: usize = 0;
    while i < cs.len()
        invariant
            0 <= i <= cs@.len(),
            pred == (|c: char| pattern_char(c)),
            kept@ == cs@.take(i as int).filter(pred),
        decreases cs@.len() - i,
    {
        proof {
            reveal(Seq::filter);
            assert(cs@.take(i + 1).drop_last() =~= cs@.take(i as int));
        }
        let c = cs[i];
        if char_alphanumeric(c) || c == ' ' || c == '.' || c == '_' || c == '-' {
            kept.push(c);
        }
        i += 1;
    }
    assert(cs@.take(i as int) =~= cs@);
    let p = trim_chars(&kept);
    let mut n: usize = 0;
    let mut j: usize = 0;
    while j < p.len() && n < 3
        invariant
            0 <= j <= p@.len(),
            n == byte_len(p@.take(j as int)),
            n < 3 || j > 0,
        decreases p@.len() - j,
    {
        proof {
            assert(p@.take(j + 1).drop_last() =~= p@.take(j as int));
        }
        let c = p[j];
        let w: usize = if (c as u32) < 0x80 {
            1
        } else if (c as u32) < 0x800 {
            2
        } else if (c as u32) < 0x10000 {
            3
        } else {
            4
        };
        n = n + w;
        j += 1;
    }
    proof {
        lemma_byte_len_grows(p@, j as int);
    }
    if n < 3 {
        assert(p@.take(j as int) =~= p@);
        None
    } else {
        Some(string_of(&p))
    }
}

proof fn lemma_byte_len_grows(s: Seq<char>, j: int)
    requires
        0 <= j <= s.len(),
    ensures
        byte_len(s.take(j)) <= byte_len(s),
    decreases s.len(),
{
    if j < s.len() {
        assert(s.drop_last().take(j) =~= s.take(j));
        lemma_byte_len_grows(s.drop_last(), j);
    } else {
        assert(s.take(j) =~= s);
    }
}

// --- catalogue order ---------------------------------------------------------

/// `str` order: code point by code point, a proper prefix first (UTF-8's
/// byte order is the code point order).
pub open spec fn lex_lt(a: Seq<char>, b: Seq<char>) -> bool
    decreases a.len(),
{
    if a.len() == 0 {
        b.len() > 0
    } else if b.len() == 0 {
        false
    } else if a[0] != b[0] {
        a[0] < b[0]
    } else {
        lex_lt(a.drop_first(), b.drop_first())
    }
}

proof fn lemma_lex_irreflexive(a: Seq<char>)
    ensures
        !lex_lt(a, a),
    decreases a.len(),
{
    if a.len() > 0 {
        lemma_lex_irreflexive(a.drop_first());
    }
}

proof fn lemma_lex_trans(a: Seq<char>, b: Seq<char>, c: Seq<char>)
    requires
        lex_lt(a, b),
        lex_lt(b, c),
    ensures
        lex_lt(a, c),
    decreases a.len(),
{
    if a.len() > 0 && b.len() > 0 && c.len() > 0 && a[0] == b[0] && b[0] == c[0] {
        lemma_lex_trans(a.drop_first(), b.drop_first(), c.drop_first());
    }
}

proof fn lemma_lex_total(a: Seq<char>, b: Seq<char>)
    ensures
        a == b || lex_lt(a, b) || lex_lt(b, a),
        !(lex_lt(a, b) && lex_lt(b, a)),
    decreases a.len(),
{
    if a.len() > 0 && b.len() > 0 {
        lemma_lex_total(a.drop_first(), b.drop_first());
        if a[0] == b[0] && a.drop_first() == b.drop_first() {
            assert(a =~= seq![a[0]] + a.drop_first());
            assert(b =~= seq![b[0]] + b.drop_first());
        }
    } else if a.len() == 0 && b.len() == 0 {
        assert(a =~= b);
    }
}

/// A catalogue row's sort key: when it was last played (never: 0) and its
/// name in lower case.
pub open spec fn row_key(row: (Option<u64>, String)) -> (u64, Seq<char>) {
    (
        match row.0 {
            Some(t) => t,
            None => 0,
        },
        unicode_lower(row.1@),
    )
}

/// `a` sorts strictly before `b`: played more recently, else earlier by
/// name.
pub open spec fn key_before(a: (u64, Seq<char>), b: (u64, Seq<char>)) -> bool {
    a.0 > b.0 || (a.0 == b.0 && lex_lt(a.1, b.1))
}

proof fn lemma_before_order(a: (u64, Seq<char>), b: (u64, Seq<char>), c: (u64, Seq<char>))
    ensures
        !key_before(a, a),
        key_before(a, b) ==> !key_before(b, a),
        !key_before(a, b) && !key_before(b, c) ==> !key_before(a, c),
        !key_before(a, b) && !key_before(b, a) ==> a == b,
        !key_before(b, a) && key_before(b, c) ==> key_before(a, c),
{
    lemma_lex_irreflexive(a.1);
    lemma_lex_total(a.1, b.1);
    lemma_lex_total(b.1, c.1);
    lemma_lex_total(a.1, c.1);
    if lex_lt(a.1, c.1) && lex_lt(c.1, b.1) {
        lemma_lex_trans(a.1, c.1, b.1);
    }
    if lex_lt(c.1, b.1) && lex_lt(b.1, a.1) {
        lemma_lex_trans(c.1, b.1, a.1);
    }
    if lex_lt(b.1, a.1) && lex_lt(a.1, c.1) {
        lemma_lex_trans(b.1, a.1, c.1);
    }
    if lex_lt(a.1, c.1) && lex_lt(b.1, a.1) {
        lemma_lex_trans(b.1, a.1, c.1);
    }
    if lex_lt(c.1, b.1) && lex_lt(a.1, c.1) {
        lemma_lex_trans(a.1, c.1, b.1);
    }
    if lex_lt(a.1, b.1) && lex_lt(b.1, c.1) {
        lemma_lex_trans(a.1, b.1, c.1);
    }
}

/// `order` lists the rows most recently played first, ties by name, equal
/// keys in catalogue order, every row exactly once: what a stable sort by
/// that key gives.
pub open spec fn recency_sorted(keys: Seq<(u64, Seq<char>)>, order: Seq<usize>) -> bool {
    &&& order.len() == keys.len()
    &&& forall|x: usize| #[trigger] order.contains(x) <==> x < keys.len()
    &&& forall|i: int, j: int| 0 <= i < j < order.len() ==> order[i] != order[j]
    &&& forall|i: int, j: int|
        0 <= i < j < order.len() ==> !key_before(keys[order[j] as int], keys[order[i] as int])
    &&& forall|i: int, j: int|
        0 <= i < j < order.len() && !key_before(keys[order[i] as int], keys[order[j] as int])
            ==> order[i] < order[j]
}

fn before_exec(a: &(u64, Vec<char>), b: &(u64, Vec<char>)) -> (r: bool)
    ensures
        r == key_before((a.0, a.1@), (b.0, b.1@)),
{
    if a.0 != b.0 {
        return a.0 > b.0;
    }
    let x = &a.1;
    let y = &b.1;
    let mut i: usize = 0;
    assert(x@.skip(0) =~= x@);
    assert(y@.skip(0) =~= y@);
    while i < x.len() && i < y.len()
        invariant
            a.0 == b.0,
            x@ == a.1@,
            y@ == b.1@,
            0 <= i <= x@.len(),
            i <= y@.len(),
            forall|k: int| 0 <= k < i ==> x@[k] == y@[k],
            lex_lt(x@, y@) == lex_lt(x@.skip(i as int), y@.skip(i as int)),
        decreases x@.len() - i,
    {
        proof {
            assert(x@.skip(i as int).drop_first() =~= x@.skip(i + 1));
            assert(y@.skip(i as int).drop_first() =~= y@.skip(i + 1));
        }
        assert(x@.skip(i as int)[0] == x@[i as int]);
        assert(y@.skip(i as int)[0] == y@[i as int]);
        if x[i] != y[i] {
            return x[i] < y[i];
        }
        i += 1;
    }
    i < y.len()
}

/// The catalogue's order, most recently played first (`rows`: when each
/// game was last played, and its name); the position list into `rows`.
pub fn recency_order(rows: &Vec<(Option<u64>, String)>) -> (r: Vec<usize>)
    ensures
        recency_sorted(rows@.map_values(|row: (Option<u64>, String)| row_key(row)), r@),
{
    let ghost keys = rows@.map_values(|row: (Option<u64>, String)| row_key(row));
    let mut ks: Vec<(u64, Vec<char>)> = Vec::new();
    let mut k: usize = 0;
    while k < rows.len()
        invariant
            0 <= k <= rows@.len(),
            keys == rows@.map_values(|row: (Option<u64>, String)| row_key(row)),
            ks@.len() == k,
            forall|j: int| 0 <= j < k ==> (#[trigger] ks@[j]).0 == keys[j].0 && ks@[j].1@ == keys[j].1,
        decreases rows@.len() - k,
    {
        let t = match rows[k].0 {
            Some(t) => t,
            None => 0,
        };
        let low = lower(rows[k].1.as_str());
        ks.push((t, chars_of(low.as_str())));
        k += 1;
    }
    let mut out: Vec<usize> = Vec::new();
    let mut n: usize = 0;
    while n < ks.len()
        invariant
            0 <= n <= ks@.len(),
            ks@.len() == keys.len(),
            forall|j: int| 0 <= j < ks@.len() ==> (#[trigger] ks@[j]).0 == keys[j].0 && ks@[j].1@ == keys[j].1,
            out@.len() == n,
            forall|x: usize| #[trigger] out@.contains(x) <==> x < n,
            forall|i: int, j: int| 0 <= i < j < out@.len() ==> out@[i] != out@[j],
            forall|i: int, j: int|
                0 <= i < j < out@.len() ==> !key_before(keys[out@[j] as int], keys[out@[i] as int]),
            forall|i: int, j: int|
                0 <= i < j < out@.len() && !key_before(keys[out@[i] as int], keys[out@[j] as int])
                    ==> out@[i] < out@[j],
        decreases ks@.len() - n,
    {
        let ghost kn = keys[n as int];
        let mut p: usize = out.len();
        while p > 0
            invariant
                0 <= p <= out@.len(),
                n < ks@.len(),
                ks@.len() == keys.len(),
                kn == keys[n as int],
                forall|j: int| 0 <= j < ks@.len() ==> (#[trigger] ks@[j]).0 == keys[j].0 && ks@[j].1@ == keys[j].1,
                forall|x: usize| #[trigger] out@.contains(x) <==> x < n,
                forall|j: int| p <= j < out@.len() ==> key_before(kn, #[trigger] keys[out@[j] as int]),
            ensures
                0 <= p <= out@.len(),
                forall|j: int| p <= j < out@.len() ==> key_before(kn, #[trigger] keys[out@[j] as int]),
                p > 0 ==> !key_before(kn, keys[out@[p - 1] as int]),
            decreases p,
        {
            let e = out[p - 1];
            assert(out@.contains(e));
            if !before_exec(&ks[n], &ks[e]) {
                assert(ks@[e as int].0 == keys[e as int].0 && ks@[e as int].1@ == keys[e as int].1);
                break;
            }
            p -= 1;
        }
        let ghost before = out@;
        out.insert(p, n);
        proof {
            assert(out@ =~= before.insert(p as int, n));
            lemma_insert_sorted(keys, before, p as int, n);
        }
        n += 1;
    }
    out
}

/// Inserting the next row after the rows it does not sort before keeps
/// the order sorted and stable.
proof fn lemma_insert_sorted(keys: Seq<(u64, Seq<char>)>, o: Seq<usize>, p: int, n: usize)
    requires
        0 <= p <= o.len(),
        n < keys.len(),
        o.len() == n,
        forall|x: usize| #[trigger] o.contains(x) <==> x < n,
        forall|i: int, j: int| 0 <= i < j < o.len() ==> o[i] != o[j],
        forall|i: int, j: int| 0 <= i < j < o.len() ==> !key_before(keys[o[j] as int], keys[o[i] as int]),
        forall|i: int, j: int|
            0 <= i < j < o.len() && !key_before(keys[o[i] as int], keys[o[j] as int]) ==> o[i] < o[j],
        forall|j: int| p <= j < o.len() ==> key_before(keys[n as int], #[trigger] keys[o[j] as int]),
        p > 0 ==> !key_before(keys[n as int], keys[o[p - 1] as int]),
    ensures
        ({
            let r = o.insert(p, n);
            &&& r.len() == n + 1
            &&& forall|x: usize| #[trigger] r.contains(x) <==> x < n + 1
            &&& forall|i: int, j: int| 0 <= i < j < r.len() ==> r[i] != r[j]
            &&& forall|i: int, j: int| 0 <= i < j < r.len() ==> !key_before(keys[r[j] as int], keys[r[i] as int])
            &&& forall|i: int, j: int|
                0 <= i < j < r.len() && !key_before(keys[r[i] as int], keys[r[j] as int]) ==> r[i] < r[j]
        }),
{
    let r = o.insert(p, n);
    let kn = keys[n as int];
    assert forall|k: int| 0 <= k < o.len() implies o[k] < n by {
        assert(o.contains(o[k]));
    }
    assert forall|x: usize| #[trigger] r.contains(x) <==> x < n + 1 by {
        if x < n {
            assert(o.contains(x));
            let a = choose|a: int| 0 <= a < o.len() && o[a] == x;
            if a < p {
                assert(r[a] == x);
            } else {
                assert(r[a + 1] == x);
            }
        }
        if x == n {
            assert(r[p] == n);
        }
        if r.contains(x) {
            let a = choose|a: int| 0 <= a < r.len() && r[a] == x;
            if a < p {
                assert(o[a] == x);
            } else if a > p {
                assert(o[a - 1] == x);
            }
        }
    }
    assert forall|i: int, j: int| 0 <= i < j < r.len() implies r[i] != r[j] by {
        if i < p && j < p {
            assert(r[i] == o[i] && r[j] == o[j]);
        } else if i > p && j > p {
            assert(r[i] == o[i - 1] && r[j] == o[j - 1]);
        } else if i < p && j > p {
            assert(r[i] == o[i] && r[j] == o[j - 1]);
        } else if i == p {
            assert(r[j] == o[j - 1]);
        } else {
            assert(r[i] == o[i]);
        }
    }
    assert forall|i: int, j: int| 0 <= i < j < r.len() implies !key_before(keys[r[j] as int], keys[r[i] as int]) by {
        if i < p && j < p {
            assert(r[i] == o[i] && r[j] == o[j]);
        } else if i > p && j > p {
            assert(r[i] == o[i - 1] && r[j] == o[j - 1]);
        } else if i == p {
            assert(r[j] == o[j - 1]);
            let kj = keys[o[j - 1] as int];
            assert(key_before(kn, kj));
            lemma_before_order(kn, kj, kn);
        } else if j == p {
            assert(r[i] == o[i]);
            let ki = keys[o[i] as int];
            let kp = keys[o[p - 1] as int];
            if i < p - 1 {
                assert(!key_before(kp, ki));
                lemma_before_order(kn, kp, ki);
            }
        } else {
            assert(r[i] == o[i] && r[j] == o[j - 1]);
            let ki = keys[o[i] as int];
            let kj = keys[o[j - 1] as int];
            let kp = keys[o[p - 1] as int];
            assert(key_before(kn, kj));
            lemma_before_order(kj, kn, kn);
            lemma_before_order(kj, kn, kp);
            if i < p - 1 {
                assert(!key_before(kp, ki));
                lemma_before_order(kj, kp, ki);
            }
        }
    }
    assert forall|i: int, j: int|
        0 <= i < j < r.len() && !key_before(keys[r[i] as int], keys[r[j] as int]) implies r[i] < r[j] by {
        if i < p && j < p {
            assert(r[i] == o[i] && r[j] == o[j]);
        } else if i > p && j > p {
            assert(r[i] == o[i - 1] && r[j] == o[j - 1]);
        } else if i == p {
            assert(r[j] == o[j - 1]);
            assert(key_before(kn, keys[o[j - 1] as int]));
        } else if j == p {
            assert(r[i] == o[i]);
        } else {
            assert(r[i] == o[i] && r[j] == o[j - 1]);
            let ki = keys[o[i] as int];
            let kj = keys[o[j - 1] as int];
            let kp = keys[o[p - 1] as int];
            assert(key_before(kn, kj));
            if i < p - 1 {
                assert(!key_before(kp, ki));
                lemma_before_order(kn, kp, ki);
            }
            lemma_before_order(ki, kn, kj);
        }
    }
}

/// The items in the given order: position `j` holds `items[order[j]]`.
pub open spec fn permuted<T>(items: Seq<T>, order: Seq<usize>) -> Seq<T> {
    order.map_values(|k: usize| items[k as int])
}

/// The rows put in `order` (a list of every position once).
pub fn apply_order<T>(items: Vec<T>, order: &Vec<usize>) -> (r: Vec<T>)
    requires
        order@.len() == items@.len(),
        forall|i: int, j: int| 0 <= i < j < order@.len() ==> order@[i] != order@[j],
        forall|j: int| 0 <= j < order@.len() ==> order@[j] < items@.len(),
    ensures
        r@ == permuted(items@, order@),
{
    let ghost orig = items@;
    let n = items.len();
    let mut items = items;
    let mut slots: Vec<Option<T>> = Vec::new();
    while items.len() > 0
        invariant
            items@.len() + slots@.len() == n,
            n == orig.len(),
            items@ == orig.take(items@.len() as int),
            forall|k: int| 0 <= k < slots@.len() ==> #[trigger] slots@[k] == Some(orig[n - 1 - k]),
        decreases items@.len(),
    {
        let g = items.pop();
        match g {
            Some(g) => {
                let ghost m = items@.len();
                slots.push(Some(g));
                assert(items@ =~= orig.take(m as int));
            },
            None => {},
        }
    }
    let mut out: Vec<T> = Vec::new();
    let mut j: usize = 0;
    while j < order.len()
        invariant
            0 <= j <= order@.len(),
            order@.len() == n,
            n == orig.len(),
            slots@.len() == n,
            forall|a: int, b: int| 0 <= a < b < order@.len() ==> order@[a] != order@[b],
            forall|a: int| 0 <= a < order@.len() ==> order@[a] < n,
            out@.len() == j,
            forall|a: int| 0 <= a < j ==> #[trigger] out@[a] == orig[order@[a] as int],
            forall|k: int|
                0 <= k < n ==> #[trigger] slots@[n - 1 - k] == (if exists|a: int| 0 <= a < j && order@[a] == k {
                    None::<T>
                } else {
                    Some(orig[k])
                }),
        decreases order@.len() - j,
    {
        let k = order[j];
        let idx = n - 1 - k;
        assert(!exists|a: int| 0 <= a < j && order@[a] == k);
        let mut taken: Option<T> = None;
        std::mem::swap(&mut taken, &mut slots[idx]);
        match taken {
            Some(g) => {
                out.push(g);
            },
            None => {
                assert(false);
            },
        }
        proof {
            assert forall|k2: int| 0 <= k2 < n implies #[trigger] slots@[n - 1 - k2] == (if exists|a: int|
                0 <= a < j + 1 && order@[a] == k2 {
                None::<T>
            } else {
                Some(orig[k2])
            }) by {
                if k2 == k {
                    assert(order@[j as int] == k2);
                } else {
                    if exists|a: int| 0 <= a < j + 1 && order@[a] == k2 {
                        let a = choose|a: int| 0 <= a < j + 1 && order@[a] == k2;
                        assert(a < j);
                    }
                }
            }
        }
        j += 1;
    }
    assert(out@ =~= permuted(orig, order@));
    out
}

/// Re-sort the catalogue most recently played first (art moves with each
/// entry, so nothing reloads), keeping the same game selected by identity:
/// the selection follows the selected entry to its new place. `rows[i]`
/// describes `games[i]`: when it was last played and its name. Returns the
/// new selection (`None` when nothing, or nothing that exists, was
/// selected).
pub fn resort_recency<T>(games: &mut Vec<T>, rows: &Vec<(Option<u64>, String)>, selected: Option<usize>) -> (r:
    Option<usize>)
    requires
        rows@.len() == old(games)@.len(),
    ensures
        exists|order: Seq<usize>|
            recency_sorted(rows@.map_values(|row: (Option<u64>, String)| row_key(row)), order) && final(games)@
                == permuted(old(games)@, order) && match selected {
                Some(s) if s < old(games)@.len() => r matches Some(j) && j < order.len() && order[j as int] == s,
                _ => r is None,
            },
{
    let order = recency_order(rows);
    let ghost keys = rows@.map_values(|row: (Option<u64>, String)| row_key(row));
    proof {
        assert forall|j: int| 0 <= j < order@.len() implies order@[j] < old(games)@.len() by {
            assert(order@.contains(order@[j]));
        }
    }
    let mut moved: Vec<T> = Vec::new();
    std::mem::swap(&mut moved, games);
    let sorted = apply_order(moved, &order);
    *games = sorted;
    let r = match selected {
        Some(s) => if s < order.len() {
            let mut j: usize = 0;
            let mut found: Option<usize> = None;
            proof {
                assert(order@.contains(s));
            }
            while j < order.len()
                invariant
                    0 <= j <= order@.len(),
                    s < order@.len(),
                    order@.contains(s),
                    found matches Some(f) ==> f < order@.len() && order@[f as int] == s,
                    found is None ==> forall|a: int| 0 <= a < j ==> order@[a] != s,
                decreases order@.len() - j,
            {
                if found.is_none() && order[j] == s {
                    found = Some(j);
                }
                j += 1;
            }
            proof {
                if found is None {
                    let a = choose|a: int| 0 <= a < order@.len() && order@[a] == s;
                    assert(order@[a] != s);
                }
            }
            found
        } else {
            None
        },
        None => None,
    };
    proof {
        assert(recency_sorted(keys, order@));
        assert(games@ == permuted(old(games)@, order@));
    }
    r
}

// --- launching ---------------------------------------------------------------

/// The `steam://rungameid/` id of a non-Steam shortcut's app id.
pub open spec fn shortcut_game_id(sid: u64) -> u64 {
    (sid << 32u64) | 0x0200_0000u64
}

/// The id a game launches under: its Steam app id; else, for a non-Steam
/// shortcut, the shortcut's app id (a decimal number) moved to the high word
/// with the shortcut flag; else none (it cannot be launched).
pub open spec fn spec_launch_id(app_id: Option<Seq<char>>, shortcut_id: Option<Seq<char>>) -> Option<Seq<char>> {
    match app_id {
        Some(a) => Some(a),
        None => match shortcut_id {
            Some(s) => match spec_parse_u64(s) {
                Some(sid) => Some(digits(shortcut_game_id(sid) as nat)),
                None => None,
            },
            None => None,
        },
    }
}

/// The text of an optional string.
pub open spec fn opt_view(o: Option<String>) -> Option<Seq<char>> {
    match o {
        Some(s) => Some(s@),
        None => None,
    }
}

pub fn launch_id(app_id: &Option<String>, shortcut_id: &Option<String>) -> (r: Option<String>)
    ensures
        opt_view(r) == spec_launch_id(opt_view(*app_id), opt_view(*shortcut_id)),
{
    match app_id {
        Some(a) => Some(a.clone()),
        None => match shortcut_id {
            Some(s) => match parse_u64(s.as_str()) {
                Some(sid) => {
                    let id = (sid << 32u64) | 0x0200_0000u64;
                    Some(string_of(&uint_text(id)))
                },
                None => None,
            },
            None => None,
        },
    }
}

/// The URI Steam launches a game by.
pub fn launch_uri(game_id: &str) -> (r: String)
    ensures
        r@ == "steam://rungameid/"@ + game_id@,
{
    let mut u = chars_of("steam://rungameid/");
    let g = chars_of(game_id);
    extend_chars(&mut u, &g);
    string_of(&u)
}

/// The launch popup's status line: a VR-Mod launch switches to the
/// injection wait after a second and a half.
pub open spec fn spec_launch_status(uevr: bool, elapsed_ms: u64) -> Seq<char> {
    if uevr && elapsed_ms > 1500 {
        "Waiting for VR Mod injection…"@
    } else {
        "Starting…"@
    }
}

pub fn launch_status(uevr: bool, elapsed_ms: u64) -> (r: &'static str)
    ensures
        r@ == spec_launch_status(uevr, elapsed_ms),
{
    if uevr && elapsed_ms > 1500 {
        "Waiting for VR Mod injection…"
    } else {
        "Starting…"
    }
}

// --- per-user metadata -------------------------------------------------------

/// What the user keeps about a game: favourite, VR-Mod flag, recorded
/// playtime (minutes, when any) and the collections holding it.
pub struct UserMeta {
    pub favorite: bool,
    pub uevr: bool,
    pub tracked_minutes: Option<u32>,
    pub collections: Vec<usize>,
}

/// The texts hold `id`.
pub open spec fn holds(v: Seq<String>, id: Seq<char>) -> bool {
    exists|k: int| 0 <= k < v.len() && #[trigger] v[k]@ == id
}

/// The positions of the collections that list `id`, in order.
pub open spec fn collections_of(cols: Seq<Vec<String>>, id: Seq<char>) -> Seq<usize>
    decreases cols.len(),
{
    if cols.len() == 0 {
        Seq::empty()
    } else {
        let rest = collections_of(cols.drop_last(), id);
        if holds(cols.last()@, id) {
            rest.push((cols.len() - 1) as usize)
        } else {
            rest
        }
    }
}

/// Recorded playtime in whole minutes, when there is at least one.
pub open spec fn tracked_minutes(secs: Option<u64>) -> Option<u32> {
    match secs {
        Some(s) => if (s / 60) as u32 > 0 {
            Some((s / 60) as u32)
        } else {
            None
        },
        None => None,
    }
}

fn text_in(v: &Vec<String>, id: &str) -> (r: bool)
    ensures
        r == holds(v@, id@),
{
    let mut k: usize = 0;
    while k < v.len()
        invariant
            0 <= k <= v@.len(),
            forall|j: int| 0 <= j < k ==> v@[j]@ != id@,
        decreases v@.len() - k,
    {
        if crate::text::str_eq(v[k].as_str(), id) {
            return true;
        }
        k += 1;
    }
    false
}

/// Stamp the per-user metadata on a game by its art id (`playtime`: the
/// seconds recorded for it, if any); a game without an id gets none.
pub fn user_meta(
    id: &Option<String>,
    favorites: &Vec<String>,
    uevr_games: &Vec<String>,
    playtime: Option<u64>,
    collections: &Vec<Vec<String>>,
) -> (r: UserMeta)
    ensures
        match id {
            Some(i) => {
                &&& r.favorite == holds(favorites@, i@)
                &&& r.uevr == holds(uevr_games@, i@)
                &&& r.tracked_minutes == tracked_minutes(playtime)
                &&& r.collections@ == collections_of(collections@, i@)
            },
            None => !r.favorite && !r.uevr && r.tracked_minutes is None && r.collections@.len() == 0,
        },
{
    let i = match id {
        Some(i) => i,
        None => return UserMeta { favorite: false, uevr: false, tracked_minutes: None, collections: Vec::new() },
    };
    let favorite = text_in(favorites, i.as_str());
    let uevr = text_in(uevr_games, i.as_str());
    let minutes = match playtime {
        Some(s) => {
            let m = (s / 60) as u32;
            if m > 0 {
                Some(m)
            } else {
                None
            }
        },
        None => None,
    };
    let mut cols: Vec<usize> = Vec::new();
    let mut c: usize = 0;
    while c < collections.len()
        invariant
            0 <= c <= collections@.len(),
            cols@ == collections_of(collections@.take(c as int), i@),
        decreases collections@.len() - c,
    {
        proof {
            assert(collections@.take(c + 1).drop_last() =~= collections@.take(c as int));
        }
        if text_in(&collections[c], i.as_str()) {
            cols.push(c);
        }
        c += 1;
    }
    assert(collections@.take(c as int) =~= collections@);
    UserMeta { favorite, uevr, tracked_minutes: minutes, collections: cols }
}

} // verus!
