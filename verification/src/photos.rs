//! Screenshots in the headset: the queue of new shots on the wrist card, the
//! paged gallery, which floating window a photo opens in, and the small text
//! rules around them.
use vstd::prelude::*;

use crate::text::{chars_of, is_prefix, starts_with, string_of};

verus! {

/// How many floating photo windows there are.
pub const SLOTS: usize = 3;
/// The wrist queue keeps this many shots, newest first.
pub const MAX_PENDING: usize = 8;
/// Gallery thumbnails per page.
pub const GALLERY_PER: usize = 12;

/// Photo-related settings (persisted in the overlay config).
#[derive(Clone, Copy, Debug, PartialEq, Eq, Structural)]
pub struct PhotoCfg {
    pub qr_detect: bool,
    pub qr_autodelete: bool,
    pub skip_wrist_photo: bool,
    pub skip_wrist_qr: bool,
    pub cleanup_days: i32,
    pub crop_margin: i32,
}

/// What the wrist card wants done (drained by the main loop).
#[derive(Clone, Copy, Debug, PartialEq, Eq, Structural)]
pub struct WristRequests {
    pub open: bool,
    pub dismiss: bool,
    pub older: bool,
    pub newer: bool,
}

impl Default for WristRequests {
    fn default() -> (r: Self)
        ensures
            !r.open && !r.dismiss && !r.older && !r.newer,
    {
        WristRequests { open: false, dismiss: false, older: false, newer: false }
    }
}

/// What the gallery page wants done.
#[derive(Clone, Copy, Debug, PartialEq, Eq, Structural)]
pub struct GalleryRequests {
    pub open: Option<usize>,
    pub delete: Option<usize>,
    pub prev: bool,
    pub next: bool,
    pub refresh: bool,
}

impl Default for GalleryRequests {
    fn default() -> (r: Self)
        ensures
            r.open is None && r.delete is None && !r.prev && !r.next && !r.refresh,
    {
        GalleryRequests { open: None, delete: None, prev: false, next: false, refresh: false }
    }
}

/// The last valid position in a list of `len`, 0 when empty.
pub open spec fn last_pos(len: nat) -> nat {
    if len == 0 {
        0
    } else {
        (len - 1) as nat
    }
}

/// `idx` kept within a list of `len`.
pub open spec fn clamp(idx: nat, len: nat) -> nat {
    if idx < last_pos(len) {
        idx
    } else {
        last_pos(len)
    }
}

/// The queue's length after a push onto `n` shots.
pub open spec fn kept_len(n: nat) -> int {
    if n + 1 < MAX_PENDING {
        n + 1int
    } else {
        MAX_PENDING as int
    }
}

/// The shots waiting on the wrist card, newest first, each under its path,
/// and the one the card shows.
pub struct WristQueue<T> {
    pub items: Vec<(String, T)>,
    pub idx: usize,
}

impl<T> WristQueue<T> {
    pub fn new() -> (r: Self)
        ensures
            r.items@.len() == 0,
            r.idx == 0,
    {
        WristQueue { items: Vec::new(), idx: 0 }
    }

    /// A new shot goes first; the oldest fall off past `MAX_PENDING`; the
    /// card shows the new one.
    pub fn push_front(&mut self, path: String, item: T)
        ensures
            final(self).items@ == seq![(path, item)].add(old(self).items@).take(kept_len(old(self).items@.len())),
            final(self).idx == 0,
    {
        self.items.insert(0, (path, item));
        if self.items.len() > MAX_PENDING {
            self.items.truncate(MAX_PENDING);
        }
        self.idx = 0;
        assert(self.items@ =~= seq![(path, item)].add(old(self).items@).take(kept_len(old(self).items@.len())));
    }

    /// The card's buttons: step older / newer, open the shown shot (it
    /// leaves the queue and is returned), dismiss the shown shot.
    pub fn apply(&mut self, req: WristRequests) -> (r: Option<(String, T)>)
        requires
            old(self).idx < old(self).items@.len() || old(self).items@.len() == 0,
        ensures
            ({
                let n = old(self).items@.len();
                let i1: int = if req.older && old(self).idx + 1 < n { old(self).idx + 1 } else { old(self).idx as int };
                let i2: int = if req.newer && i1 > 0 { i1 - 1 } else { i1 };
                let opened = req.open && i2 < n;
                let q1 = if opened { old(self).items@.remove(i2) } else { old(self).items@ };
                let i3: int = if opened { clamp(i2 as nat, q1.len()) as int } else { i2 };
                let dismissed = req.dismiss && q1.len() > 0;
                let q2 = if dismissed { q1.remove(i3) } else { q1 };
                let i4: int = if dismissed { clamp(i3 as nat, q2.len()) as int } else { i3 };
                &&& r == if opened { Some(old(self).items@[i2]) } else { None::<(String, T)> }
                &&& final(self).items@ == q2
                &&& final(self).idx == i4
            }),
            final(self).idx < final(self).items@.len() || final(self).items@.len() == 0,
    {
        if req.older && self.items.len() > 0 && self.idx < self.items.len() - 1 {
            self.idx = self.idx + 1;
        }
        if req.newer && self.idx > 0 {
            self.idx = self.idx - 1;
        }
        let mut opened: Option<(String, T)> = None;
        if req.open && self.idx < self.items.len() {
            opened = Some(self.items.remove(self.idx));
            self.idx = clamp_idx(self.idx, self.items.len());
        }
        if req.dismiss && self.items.len() > 0 {
            self.items.remove(self.idx);
            self.idx = clamp_idx(self.idx, self.items.len());
        }
        opened
    }
}

impl<T> WristQueue<T> {
    /// A shot was deleted: it leaves the queue, and the card stays on a
    /// shot that exists.
    pub fn drop_path(&mut self, path: &str)
        ensures
            final(self).items@.map_values(|e: (String, T)| e.0@) == old(self).items@.map_values(
                |e: (String, T)| e.0@,
            ).filter(|p: Seq<char>| p != path@),
            final(self).items@ == old(self).items@.filter(|e: (String, T)| e.0@ != path@),
            final(self).idx == clamp(old(self).idx as nat, final(self).items@.len()),
    {
        let ghost names = self.items@.map_values(|e: (String, T)| e.0@);
        let ghost keep = |p: Seq<char>| p != path@;
        let ghost ekeep = |e: (String, T)| e.0@ != path@;
        let mut kept: Vec<(String, T)> = Vec::new();
        let mut items: Vec<(String, T)> = Vec::new();
        std::mem::swap(&mut items, &mut self.items);
        let ghost orig = items@;
        let mut rev: Vec<(String, T)> = Vec::new();
        while items.len() > 0
            invariant
                rev@.len() + items@.len() == orig.len(),
                items@ == orig.take(items@.len() as int),
                forall|k: int| 0 <= k < rev@.len() ==> #[trigger] rev@[k] == orig[orig.len() - 1 - k],
            decreases items@.len(),
        {
            match items.pop() {
                Some(e) => {
                    let ghost m = items@.len();
                    rev.push(e);
                    assert(items@ =~= orig.take(m as int));
                },
                None => {},
            }
        }
        let n = rev.len();
        let mut i: usize = 0;
        while rev.len() > 0
            invariant
                n == orig.len(),
                rev@.len() + i == n,
                forall|k: int| 0 <= k < rev@.len() ==> #[trigger] rev@[k] == orig[orig.len() - 1 - k],
                names == orig.map_values(|e: (String, T)| e.0@),
                keep == (|p: Seq<char>| p != path@),
                ekeep == (|e: (String, T)| e.0@ != path@),
                kept@.map_values(|e: (String, T)| e.0@) == names.take(i as int).filter(keep),
                kept@ == orig.take(i as int).filter(ekeep),
            decreases rev@.len(),
        {
            match rev.pop() {
                Some(e) => {
                    proof {
                        reveal(Seq::filter);
                        assert(names.take(i + 1).drop_last() =~= names.take(i as int));
                        assert(orig.take(i + 1).drop_last() =~= orig.take(i as int));
                        assert(e == orig[i as int]);
                    }
                    if !crate::text::str_eq(e.0.as_str(), path) {
                        let ghost prev = kept@;
                        let ghost en = e.0@;
                        kept.push(e);
                        assert(kept@.map_values(|e: (String, T)| e.0@) =~= prev.map_values(|e: (String, T)| e.0@).push(en));
                    }
                    i += 1;
                },
                None => {},
            }
        }
        assert(names.take(i as int) =~= names);
        assert(orig.take(i as int) =~= orig);
        self.items = kept;
        self.idx = clamp_idx(self.idx, self.items.len());
    }
}

/// `idx` kept within a list of `len`.
pub fn clamp_idx(idx: usize, len: usize) -> (r: usize)
    ensures
        r == clamp(idx as nat, len as nat),
{
    let last = if len == 0 {
        0
    } else {
        len - 1
    };
    if idx < last {
        idx
    } else {
        last
    }
}

/// The gallery's paging over `total` shots.
#[derive(Clone, Copy, Debug, PartialEq, Eq, Structural)]
pub struct Pager {
    pub total: usize,
    pub page: usize,
}

/// How many pages `total` shots fill (at least one).
pub open spec fn pages_for(total: nat) -> nat {
    let p = (total + GALLERY_PER - 1) / (GALLERY_PER as int);
    if p < 1 {
        1
    } else {
        p as nat
    }
}

impl Pager {
    pub fn new() -> (r: Self)
        ensures
            r.total == 0 && r.page == 0,
    {
        Pager { total: 0, page: 0 }
    }

    /// How many pages there are (at least one).
    pub fn pages(&self) -> (r: usize)
        ensures
            r == pages_for(self.total as nat),
    {
        let p = self.total / GALLERY_PER + if self.total % GALLERY_PER == 0 {
            0
        } else {
            1
        };
        if p < 1 {
            1
        } else {
            p
        }
    }

    /// A fresh scan found `total` shots: the page stays, unless it is past
    /// the last.
    pub fn rescan(&mut self, total: usize)
        ensures
            final(self).total == total,
            final(self).page == if old(self).page < last_pos(total as nat) as int / (GALLERY_PER as int) {
                old(self).page as int
            } else {
                last_pos(total as nat) as int / (GALLERY_PER as int)
            },
    {
        let last = if total == 0 {
            0
        } else {
            total - 1
        };
        let last_page = last / GALLERY_PER;
        self.total = total;
        if self.page > last_page {
            self.page = last_page;
        }
    }

    /// The shots on the current page: `start..end`.
    pub fn range(&self) -> (r: (usize, usize))
        requires
            self.page <= usize::MAX / GALLERY_PER,
        ensures
            r.0 == if self.page * GALLERY_PER < self.total { self.page * GALLERY_PER } else { self.total as int },
            r.1 == if r.0 + GALLERY_PER < self.total { r.0 + GALLERY_PER } else { self.total as int },
    {
        let s = self.page * GALLERY_PER;
        let start = if s < self.total {
            s
        } else {
            self.total
        };
        let end = if self.total - start > GALLERY_PER {
            start + GALLERY_PER
        } else {
            self.total
        };
        (start, end)
    }

    /// Page back and forth; returns whether the page changed.
    pub fn step(&mut self, prev: bool, next: bool) -> (changed: bool)
        ensures
            final(self).total == old(self).total,
            ({
                let p1: int = if prev && old(self).page > 0 { old(self).page - 1 } else { old(self).page as int };
                let p2: int = if next && p1 + 1 < pages_for(old(self).total as nat) { p1 + 1 } else { p1 };
                &&& final(self).page == p2
                &&& changed == ((prev && old(self).page > 0) || (next && p1 + 1 < pages_for(old(self).total as nat)))
            }),
    {
        let mut changed = false;
        if prev && self.page > 0 {
            self.page = self.page - 1;
            changed = true;
        }
        let n = self.pages();
        if next && self.page < n - 1 {
            self.page = self.page + 1;
            changed = true;
        }
        changed
    }

    /// The shot behind thumbnail `k` of the current page, if it exists.
    pub fn index_of(&self, k: usize) -> (r: Option<usize>)
        ensures
            r == if self.page * GALLERY_PER + k < self.total {
                Some((self.page * GALLERY_PER + k) as usize)
            } else {
                None::<usize>
            },
    {
        if self.page > (usize::MAX - k) / GALLERY_PER {
            return None;
        }
        let i = self.page * GALLERY_PER + k;
        if i < self.total {
            Some(i)
        } else {
            None
        }
    }
}

/// The window a photo opens in: the first closed one, else the first.
pub fn free_slot(open: &Vec<bool>) -> (r: usize)
    ensures
        (exists|i: int| 0 <= i < open@.len() && !open@[i]) ==> r < open@.len() && !open@[r as int] && forall|j: int|
            0 <= j < r ==> open@[j],
        (forall|i: int| 0 <= i < open@.len() ==> open@[i]) ==> r == 0,
{
    let mut i: usize = 0;
    while i < open.len()
        invariant
            0 <= i <= open@.len(),
            forall|j: int| 0 <= j < i ==> open@[j],
        decreases open@.len() - i,
    {
        if !open[i] {
            return i;
        }
        i += 1;
    }
    0
}

/// A QR code's content is a web link (opened in the browser, not shown).
pub open spec fn spec_is_link(c: Seq<char>) -> bool {
    is_prefix("http://"@, c) || is_prefix("https://"@, c)
}

pub fn is_link(content: &str) -> (r: bool)
    ensures
        r == spec_is_link(content@),
{
    let c = chars_of(content);
    let a = chars_of("http://");
    let b = chars_of("https://");
    starts_with(&c, &a) || starts_with(&c, &b)
}

/// `s` cut to `max` characters, with `…` when cut.
pub open spec fn spec_truncate(s: Seq<char>, max: nat) -> Seq<char> {
    if s.len() > max {
        s.take(max as int).push('…')
    } else {
        s
    }
}

pub fn truncate(s: &str, max: usize) -> (r: String)
    ensures
        r@ == spec_truncate(s@, max as nat),
{
    let cs = chars_of(s);
    if cs.len() > max {
        let mut out: Vec<char> = Vec::new();
        let mut i: usize = 0;
        while i < max
            invariant
                0 <= i <= max,
                max < cs@.len(),
                out@ == cs@.take(i as int),
            decreases max - i,
        {
            out.push(cs[i]);
            i += 1;
            assert(out@ =~= cs@.take(i as int));
        }
        out.push('…');
        string_of(&out)
    } else {
        string_of(&cs)
    }
}

/// How many of the scanned shots (modification times, newest first) are new
/// since the newest one seen before: the leading run newer than it (all of
/// them when nothing was seen yet).
pub open spec fn is_fresh(m: u128, newest: Option<u128>) -> bool {
    match newest {
        Some(s) => m > s,
        None => true,
    }
}

pub fn fresh_count(mtimes: &Vec<u128>, newest: Option<u128>) -> (r: usize)
    ensures
        r <= mtimes@.len(),
        forall|j: int| 0 <= j < r ==> is_fresh(#[trigger] mtimes@[j], newest),
        r < mtimes@.len() ==> !is_fresh(mtimes@[r as int], newest),
{
    let mut i: usize = 0;
    while i < mtimes.len()
        invariant
            0 <= i <= mtimes@.len(),
            forall|j: int| 0 <= j < i ==> is_fresh(#[trigger] mtimes@[j], newest),
        decreases mtimes@.len() - i,
    {
        let fresh = match newest {
            Some(s) => mtimes[i] > s,
            None => true,
        };
        if !fresh {
            return i;
        }
        i += 1;
    }
    i
}

/// After a rescan the gallery's page is one that exists.
pub proof fn rescan_keeps_the_page_in_range(page: usize, total: usize)
    ensures
        ({
            let last = last_pos(total as nat) as int / (GALLERY_PER as int);
            let p = if page < last { page as int } else { last };
            0 <= p < pages_for(total as nat)
        }),
{
}

/// The wrist queue never holds more than `MAX_PENDING` shots.
pub proof fn queue_stays_capped(n: nat)
    ensures
        kept_len(n) <= MAX_PENDING,
{
}

} // verus!
