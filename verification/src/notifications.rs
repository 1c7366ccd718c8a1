//! Desktop (D-Bus) and XSOverlay (UDP JSON) notifications in the headset:
//! what the listeners decide about each message — its title and body, the
//! markup dropped from it, where its icon comes from, and the small cache of
//! resolved icons. The listeners themselves run with the program.
use vstd::prelude::*;

use base64::Engine;

use crate::text::{
    ascii_lower_seq, chars_eq, chars_of, contains_char, extend_chars, is_prefix, lower_ascii_chars, matches_at, skip_chars,
    split_chars, split_seq, starts_with, string_of, trim, trim_chars,
};

verus! {

/// Where a notification came from.
#[derive(Clone, Copy, PartialEq, Eq, Structural, Debug)]
pub enum Source {
    Desktop,
    XsOverlay,
}

// --- markup --------------------------------------------------------------------------

/// The text outside `<…>` tags, and whether the text ends inside a tag.
pub open spec fn strip_tags(s: Seq<char>) -> (Seq<char>, bool)
    decreases s.len(),
{
    if s.len() == 0 {
        (Seq::empty(), false)
    } else {
        let (o, t) = strip_tags(s.drop_last());
        let c = s.last();
        if c == '<' {
            (o, true)
        } else if c == '>' {
            (o, false)
        } else if !t {
            (o.push(c), t)
        } else {
            (o, t)
        }
    }
}

/// Dropping the tags leaves no angle bracket (the brackets a body shows come
/// from `&lt;` / `&gt;` alone) and never lengthens the text.
pub proof fn tags_leave_no_brackets(s: Seq<char>)
    ensures
        !strip_tags(s).0.contains('<'),
        !strip_tags(s).0.contains('>'),
        strip_tags(s).0.len() <= s.len(),
    decreases s.len(),
{
    if s.len() > 0 {
        tags_leave_no_brackets(s.drop_last());
        let (o, t) = strip_tags(s.drop_last());
        let c = s.last();
        if c != '<' && c != '>' && !t {
            assert forall|x: char| o.push(c).contains(x) implies o.contains(x) || x == c by {
                let k = choose|k: int| 0 <= k < o.push(c).len() && o.push(c)[k] == x;
                if k < o.len() {
                    assert(o[k] == x);
                }
            }
        }
    }
}

/// `str::replace`: every non-overlapping occurrence of `pat`, left to right,
/// replaced by `rep`.
pub open spec fn replace_all(s: Seq<char>, pat: Seq<char>, rep: Seq<char>) -> Seq<char>
    decreases s.len(),
{
    if s.len() == 0 || pat.len() == 0 {
        s
    } else if is_prefix(pat, s) {
        rep + replace_all(s.skip(pat.len() as int), pat, rep)
    } else {
        seq![s[0]] + replace_all(s.drop_first(), pat, rep)
    }
}

pub open spec fn ent_lt() -> Seq<char> { seq!['&', 'l', 't', ';'] }
pub open spec fn ent_gt() -> Seq<char> { seq!['&', 'g', 't', ';'] }
pub open spec fn ent_amp() -> Seq<char> { seq!['&', 'a', 'm', 'p', ';'] }
pub open spec fn ent_quot() -> Seq<char> { seq!['&', 'q', 'u', 'o', 't', ';'] }

/// A notification body without its markup: tags dropped, then the entities
/// `&lt;`, `&gt;`, `&amp;`, `&quot;` decoded, in that order.
pub open spec fn spec_strip_markup(s: Seq<char>) -> Seq<char> {
    replace_all(
        replace_all(
            replace_all(replace_all(strip_tags(s).0, ent_lt(), seq!['<']), ent_gt(), seq!['>']),
            ent_amp(),
            seq!['&'],
        ),
        ent_quot(),
        seq!['"'],
    )
}

/// `str::replace` on characters.
pub fn replace_chars(s: &Vec<char>, pat: &Vec<char>, rep: &Vec<char>) -> (r: Vec<char>)
    requires
        pat@.len() > 0,
    ensures
        r@ == replace_all(s@, pat@, rep@),
{
    let mut out: Vec<char> = Vec::new();
    let mut i: usize = 0;
    assert(s@.skip(0) =~= s@);
    while i < s.len()
        invariant
            pat@.len() > 0,
            0 <= i <= s@.len(),
            replace_all(s@, pat@, rep@) == out@ + replace_all(s@.skip(i as int), pat@, rep@),
        decreases s@.len() - i,
    {
        let ghost rest = s@.skip(i as int);
        if matches_at(s, i, pat) {
            let ghost before = out@;
            let mut k: usize = 0;
            while k < rep.len()
                invariant
                    0 <= k <= rep@.len(),
                    out@ == before + rep@.take(k as int),
                decreases rep@.len() - k,
            {
                out.push(rep[k]);
                k += 1;
                assert(rep@.take(k as int) =~= rep@.take(k - 1).push(rep@[k - 1]));
            }
            assert(rep@.take(k as int) =~= rep@);
            assert(rest.skip(pat@.len() as int) =~= s@.skip(i + pat@.len()));
            assert(before + (rep@ + replace_all(rest.skip(pat@.len() as int), pat@, rep@)) =~= out@
                + replace_all(s@.skip(i + pat@.len()), pat@, rep@));
            i += pat.len();
        } else {
            let ghost before = out@;
            out.push(s[i]);
            assert(rest.drop_first() =~= s@.skip(i + 1));
            assert(before + (seq![rest[0]] + replace_all(rest.drop_first(), pat@, rep@)) =~= out@
                + replace_all(s@.skip(i + 1), pat@, rep@));
            i += 1;
        }
    }
    assert(out@ + Seq::<char>::empty() =~= out@);
    out
}

/// Notification bodies may carry a little HTML (freedesktop spec): drop tags.
pub fn strip_markup(s: &str) -> (r: String)
    ensures
        r@ == spec_strip_markup(s@),
{
    let cs = chars_of(s);
    let mut out: Vec<char> = Vec::new();
    let mut in_tag = false;
    let mut i: usize = 0;
    while i < cs.len()
        invariant
            0 <= i <= cs@.len(),
            strip_tags(cs@.take(i as int)) == (out@, in_tag),
        decreases cs@.len() - i,
    {
        let c = cs[i];
        proof {
            assert(cs@.take(i + 1).drop_last() =~= cs@.take(i as int));
        }
        if c == '<' {
            in_tag = true;
        } else if c == '>' {
            in_tag = false;
        } else if !in_tag {
            out.push(c);
        }
        i += 1;
    }
    assert(cs@.take(i as int) =~= cs@);
    let lt = vec!['&', 'l', 't', ';'];
    let gt = vec!['&', 'g', 't', ';'];
    let amp = vec!['&', 'a', 'm', 'p', ';'];
    let quot = vec!['&', 'q', 'u', 'o', 't', ';'];
    let r_lt = vec!['<'];
    let r_gt = vec!['>'];
    let r_amp = vec!['&'];
    let r_quot = vec!['"'];
    proof {
        assert(lt@ =~= ent_lt());
        assert(gt@ =~= ent_gt());
        assert(amp@ =~= ent_amp());
        assert(quot@ =~= ent_quot());
        assert(r_lt@ =~= seq!['<']);
        assert(r_gt@ =~= seq!['>']);
        assert(r_amp@ =~= seq!['&']);
        assert(r_quot@ =~= seq!['"']);
    }
    let a = replace_chars(&out, &lt, &r_lt);
    let b = replace_chars(&a, &gt, &r_gt);
    let c = replace_chars(&b, &amp, &r_amp);
    let d = replace_chars(&c, &quot, &r_quot);
    string_of(&d)
}

// --- titles ---------------------------------------------------------------------------

/// A desktop notification's title: its summary, or the app name when the
/// summary is empty.
pub fn desktop_title(app: &str, summary: &str) -> (r: String)
    ensures
        r@ == if summary@.len() == 0 {
            app@
        } else {
            summary@
        },
{
    if summary.is_empty() {
        string_of(&chars_of(app))
    } else {
        string_of(&chars_of(summary))
    }
}

/// A notification is shown when its source is switched on in the settings:
/// desktop notifications and XSOverlay messages each have their own switch.
pub fn allowed(source: Source, desktop_on: bool, xso_on: bool) -> (r: bool)
    ensures
        r == match source {
            Source::Desktop => desktop_on,
            Source::XsOverlay => xso_on,
        },
{
    match source {
        Source::Desktop => desktop_on,
        Source::XsOverlay => xso_on,
    }
}

/// The title a notification's card shows: the app's name before the title,
/// `app · title`, unless the app has no name or is the title itself.
pub open spec fn spec_card_title(app: Seq<char>, title: Seq<char>) -> Seq<char> {
    if app.len() == 0 || app == title {
        title
    } else {
        app + " · "@ + title
    }
}

pub fn card_title(app: &str, title: &str) -> (r: String)
    ensures
        r@ == spec_card_title(app@, title@),
{
    let a = chars_of(app);
    let t = chars_of(title);
    if a.len() == 0 || chars_eq(&a, &t) {
        string_of(&t)
    } else {
        let mut out = a;
        extend_chars(&mut out, &chars_of(" · "));
        extend_chars(&mut out, &t);
        string_of(&out)
    }
}

/// How long a desktop notification shows: its own expiry kept within two
/// to fifteen seconds, five seconds when it sets none (milliseconds).
pub open spec fn spec_notify_timeout(expire: i32) -> u64 {
    if expire > 0 {
        if expire < 2000 {
            2000
        } else if expire > 15000 {
            15000
        } else {
            expire as u64
        }
    } else {
        5000
    }
}

pub fn notify_timeout_ms(expire: i32) -> (r: u64)
    ensures
        r == spec_notify_timeout(expire),
{
    if expire > 0 {
        if expire < 2000 {
            2000
        } else if expire > 15000 {
            15000
        } else {
            expire as u64
        }
    } else {
        5000
    }
}

// --- theme icon files --------------------------------------------------------------------

/// The hicolor sizes tried for a toast icon, best fit first.
pub open spec fn icon_sizes() -> Seq<Seq<char>> {
    seq!["64"@, "48"@, "128"@, "96"@, "256"@, "72"@, "32"@, "512"@]
}

/// The hicolor contexts tried for an app icon.
pub open spec fn icon_contexts() -> Seq<Seq<char>> {
    seq!["apps"@, "status"@, "devices"@, "categories"@]
}

/// `root/icons/hicolor/SxS/ctx/name.png`.
pub open spec fn hicolor_path(root: Seq<char>, size: Seq<char>, ctx: Seq<char>, name: Seq<char>) -> Seq<char> {
    root + "/icons/hicolor/"@ + size + "x"@ + size + "/"@ + ctx + "/"@ + name + ".png"@
}

/// The hicolor files for one size under one root, context by context.
pub open spec fn per_root(root: Seq<char>, size: Seq<char>, name: Seq<char>) -> Seq<Seq<char>> {
    icon_contexts().map_values(|ctx: Seq<char>| hicolor_path(root, size, ctx, name))
}

/// The hicolor files for one size, root by root.
pub open spec fn per_size(roots: Seq<Seq<char>>, size: Seq<char>, name: Seq<char>) -> Seq<Seq<char>>
    decreases roots.len(),
{
    if roots.len() == 0 {
        Seq::empty()
    } else {
        per_size(roots.drop_last(), size, name) + per_root(roots.last(), size, name)
    }
}

/// The hicolor files, size by size.
pub open spec fn hicolor_files(roots: Seq<Seq<char>>, sizes: Seq<Seq<char>>, name: Seq<char>) -> Seq<Seq<char>>
    decreases sizes.len(),
{
    if sizes.len() == 0 {
        Seq::empty()
    } else {
        hicolor_files(roots, sizes.drop_last(), name) + per_size(roots, sizes.last(), name)
    }
}

/// The fallbacks under each root: `pixmaps/name.png`, then `icons/name.png`.
pub open spec fn pixmap_files(roots: Seq<Seq<char>>, name: Seq<char>) -> Seq<Seq<char>>
    decreases roots.len(),
{
    if roots.len() == 0 {
        Seq::empty()
    } else {
        pixmap_files(roots.drop_last(), name) + seq![
            roots.last() + "/pixmaps/"@ + name + ".png"@,
            roots.last() + "/icons/"@ + name + ".png"@,
        ]
    }
}

/// The files a theme icon name is looked for in, in order: hicolor's PNGs
/// at toast-friendly sizes, then the pixmaps fallbacks; none for an empty
/// name or one with a slash.
pub open spec fn spec_icon_candidates(name: Seq<char>, roots: Seq<Seq<char>>) -> Seq<Seq<char>> {
    if name.len() == 0 || name.contains('/') {
        Seq::empty()
    } else {
        hicolor_files(roots, icon_sizes(), name) + pixmap_files(roots, name)
    }
}

fn push_str(v: &mut Vec<char>, s: &str)
    ensures
        final(v)@ == old(v)@ + s@,
{
    let cs = chars_of(s);
    extend_chars(v, &cs);
}

fn hicolor_file(root: &str, size: &str, ctx: &str, name: &str) -> (r: String)
    ensures
        r@ == hicolor_path(root@, size@, ctx@, name@),
{
    let mut v: Vec<char> = Vec::new();
    push_str(&mut v, root);
    push_str(&mut v, "/icons/hicolor/");
    push_str(&mut v, size);
    push_str(&mut v, "x");
    push_str(&mut v, size);
    push_str(&mut v, "/");
    push_str(&mut v, ctx);
    push_str(&mut v, "/");
    push_str(&mut v, name);
    push_str(&mut v, ".png");
    assert(v@ =~= hicolor_path(root@, size@, ctx@, name@));
    string_of(&v)
}

fn under(root: &str, dir: &str, name: &str) -> (r: String)
    ensures
        r@ == root@ + dir@ + name@ + ".png"@,
{
    let mut v: Vec<char> = Vec::new();
    push_str(&mut v, root);
    push_str(&mut v, dir);
    push_str(&mut v, name);
    push_str(&mut v, ".png");
    assert(v@ =~= root@ + dir@ + name@ + ".png"@);
    string_of(&v)
}

/// The texts of a list of strings.
pub open spec fn views_of(v: Seq<String>) -> Seq<Seq<char>> {
    v.map_values(|s: String| s@)
}

pub fn icon_candidates(name: &str, roots: &Vec<String>) -> (r: Vec<String>)
    ensures
        views_of(r@) == spec_icon_candidates(name@, views_of(roots@)),
{
    let ghost rv = views_of(roots@);
    let mut out: Vec<String> = Vec::new();
    let cs = chars_of(name);
    if cs.len() == 0 || contains_char(&cs, '/') {
        return out;
    }
    let sizes = vec!["64", "48", "128", "96", "256", "72", "32", "512"];
    let ctxs = vec!["apps", "status", "devices", "categories"];
    proof {
        assert(sizes@.map_values(|s: &str| s@) =~= icon_sizes());
        assert(ctxs@.map_values(|s: &str| s@) =~= icon_contexts());
    }
    let mut i: usize = 0;
    while i < sizes.len()
        invariant
            0 <= i <= sizes@.len(),
            rv == views_of(roots@),
            sizes@.map_values(|s: &str| s@) == icon_sizes(),
            ctxs@.map_values(|s: &str| s@) == icon_contexts(),
            views_of(out@) == hicolor_files(rv, icon_sizes().take(i as int), name@),
        decreases sizes@.len() - i,
    {
        let size = sizes[i];
        assert(icon_sizes()[i as int] == size@);
        let ghost base = views_of(out@);
        let mut j: usize = 0;
        while j < roots.len()
            invariant
                0 <= j <= roots@.len(),
                rv == views_of(roots@),
                ctxs@.map_values(|s: &str| s@) == icon_contexts(),
                views_of(out@) == base + per_size(rv.take(j as int), size@, name@),
            decreases roots@.len() - j,
        {
            let root = roots[j].as_str();
            let ghost before = views_of(out@);
            let mut k: usize = 0;
            while k < ctxs.len()
                invariant
                    0 <= k <= ctxs@.len(),
                    ctxs@.map_values(|s: &str| s@) == icon_contexts(),
                    views_of(out@) == before + per_root(root@, size@, name@).take(k as int),
                decreases ctxs@.len() - k,
            {
                let p = hicolor_file(root, size, ctxs[k], name);
                let ghost prev = out@;
                out.push(p);
                proof {
                    assert(icon_contexts()[k as int] == ctxs@[k as int]@);
                    assert(views_of(out@) =~= views_of(prev).push(p@));
                    assert(per_root(root@, size@, name@).take(k + 1) =~= per_root(root@, size@, name@).take(
                        k as int,
                    ).push(hicolor_path(root@, size@, ctxs@[k as int]@, name@)));
                }
                k += 1;
            }
            proof {
                assert(per_root(root@, size@, name@).take(4) =~= per_root(root@, size@, name@));
                assert(rv.take(j + 1).drop_last() =~= rv.take(j as int));
                assert(rv.take(j + 1).last() == root@);
            }
            j += 1;
        }
        proof {
            assert(rv.take(j as int) =~= rv);
            assert(icon_sizes().take(i + 1).drop_last() =~= icon_sizes().take(i as int));
        }
        i += 1;
    }
    assert(icon_sizes().take(8) =~= icon_sizes());
    let ghost hi = views_of(out@);
    let mut j: usize = 0;
    while j < roots.len()
        invariant
            0 <= j <= roots@.len(),
            rv == views_of(roots@),
            views_of(out@) == hi + pixmap_files(rv.take(j as int), name@),
        decreases roots@.len() - j,
    {
        let root = roots[j].as_str();
        let a = under(root, "/pixmaps/", name);
        let b = under(root, "/icons/", name);
        let ghost prev = out@;
        out.push(a);
        out.push(b);
        proof {
            assert(views_of(out@) =~= views_of(prev) + seq![a@, b@]);
            assert(rv.take(j + 1).drop_last() =~= rv.take(j as int));
            assert(rv.take(j + 1).last() == root@);
        }
        j += 1;
    }
    assert(rv.take(j as int) =~= rv);
    out
}

// --- icon cache -------------------------------------------------------------------------

/// Resolved icons kept at most.
pub const ICON_CACHE_CAP: usize = 32;

/// Resolved icon names / paths, so a chatty app doesn't hit the disk per
/// toast. The oldest entry leaves when a new one would pass the cap.
pub struct IconCache<V> {
    pub entries: Vec<(String, Option<V>)>,
}

/// The first entry for `key`, if any.
pub open spec fn cache_index<V>(e: Seq<(String, Option<V>)>, key: Seq<char>) -> int
    decreases e.len(),
{
    if e.len() == 0 {
        -1
    } else {
        let i = cache_index(e.drop_last(), key);
        if i >= 0 {
            i
        } else if e.last().0@ == key {
            e.len() - 1
        } else {
            -1
        }
    }
}

/// `b` is a clone of `a` (the same for `None`).
pub open spec fn opt_cloned<V: Clone>(a: Option<V>, b: Option<V>) -> bool {
    &&& a is None ==> b is None
    &&& a is Some ==> b is Some && cloned::<V>(a.unwrap(), b.unwrap())
}

impl<V: Clone> IconCache<V> {
    pub fn new() -> (r: Self)
        ensures
            r.entries@.len() == 0,
    {
        IconCache { entries: Vec::new() }
    }

    /// Wellformed: never more than the cap.
    pub open spec fn wf(&self) -> bool {
        self.entries@.len() <= ICON_CACHE_CAP
    }

    /// Index of the first entry for `key`.
    pub fn lookup(&self, key: &str) -> (r: Option<usize>)
        ensures
            match r {
                Some(i) => i as int == cache_index(self.entries@, key@) && i < self.entries@.len(),
                None => cache_index(self.entries@, key@) == -1,
            },
    {
        let mut i: usize = 0;
        while i < self.entries.len()
            invariant
                0 <= i <= self.entries@.len(),
                cache_index(self.entries@.take(i as int), key@) == -1,
            decreases self.entries@.len() - i,
        {
            proof {
                assert(self.entries@.take(i + 1).drop_last() =~= self.entries@.take(i as int));
            }
            if self.entries[i].0.eq(&string_of(&chars_of(key))) {
                proof {
                    lemma_cache_index_prefix(self.entries@, key@, i + 1);
                }
                return Some(i);
            }
            i += 1;
        }
        assert(self.entries@.take(i as int) =~= self.entries@);
        None
    }

    /// The cached icon for `key`, else `load()` run once and remembered.
    pub fn get<F: FnOnce() -> Option<V>>(&mut self, key: &str, load: F) -> (r: Option<V>)
        requires
            load.requires(()),
            old(self).wf(),
        ensures
            final(self).wf(),
            cache_index(old(self).entries@, key@) >= 0 ==> {
                &&& final(self).entries@ == old(self).entries@
                &&& opt_cloned(old(self).entries@[cache_index(old(self).entries@, key@)].1, r)
            },
            cache_index(old(self).entries@, key@) < 0 ==> exists|v: Option<V>|
                {
                    &&& load.ensures((), v)
                    &&& opt_cloned(v, r)
                    &&& final(self).entries@.len() == (if old(self).entries@.len() >= ICON_CACHE_CAP {
                        old(self).entries@.len()
                    } else {
                        old(self).entries@.len() + 1
                    })
                    &&& final(self).entries@.last().0@ == key@
                    &&& final(self).entries@.last().1 == v
                    &&& final(self).entries@.drop_last() == if old(self).entries@.len() >= ICON_CACHE_CAP {
                        old(self).entries@.drop_first()
                    } else {
                        old(self).entries@
                    }
                },
    {
        match self.lookup(key) {
            Some(i) => {
                return self.entries[i].1.clone();
            },
            None => {},
        }
        let img = load();
        if self.entries.len() >= ICON_CACHE_CAP {
            self.entries.remove(0);
            assert(self.entries@ =~= old(self).entries@.drop_first());
        }
        let ghost mid = self.entries@;
        let copy = img.clone();
        let k = string_of(&chars_of(key));
        self.entries.push((k, img));
        proof {
            assert(self.entries@.drop_last() =~= mid);
            assert(self.entries@.last() == (k, img));
            assert(load.ensures((), img));
            assert(opt_cloned(img, copy));
            assert(self.entries@.last().0@ == key@);
            assert(self.entries@.len() == (if old(self).entries@.len() >= ICON_CACHE_CAP {
                old(self).entries@.len()
            } else {
                old(self).entries@.len() + 1
            }));
        }
        copy
    }
}

/// What a load stored is found again: once `get` has remembered an icon
/// for `key` (it is the newest entry), the next `get` for `key` is a hit and
/// loads nothing.
pub proof fn stored_icon_is_found<V>(e: Seq<(String, Option<V>)>, key: Seq<char>)
    requires
        e.len() > 0,
        e.last().0@ == key,
    ensures
        0 <= cache_index(e, key) < e.len(),
        e[cache_index(e, key)].0@ == key,
{
    lemma_cache_index_bounds(e, key);
}

proof fn lemma_cache_index_bounds<V>(e: Seq<(String, Option<V>)>, key: Seq<char>)
    ensures
        -1 <= cache_index(e, key) < e.len(),
        cache_index(e, key) >= 0 ==> e[cache_index(e, key)].0@ == key,
    decreases e.len(),
{
    if e.len() > 0 {
        lemma_cache_index_bounds(e.drop_last(), key);
    }
}

proof fn lemma_cache_index_prefix<V>(e: Seq<(String, Option<V>)>, key: Seq<char>, n: int)
    requires
        0 < n <= e.len(),
        cache_index(e.take(n - 1), key) == -1,
        e[n - 1].0@ == key,
    ensures
        cache_index(e, key) == n - 1,
    decreases e.len() - n,
{
    assert(e.take(n).drop_last() =~= e.take(n - 1));
    if n < e.len() {
        lemma_cache_index_grow(e, key, n);
    } else {
        assert(e.take(n) =~= e);
    }
}

proof fn lemma_cache_index_grow<V>(e: Seq<(String, Option<V>)>, key: Seq<char>, n: int)
    requires
        0 < n <= e.len(),
        cache_index(e.take(n), key) >= 0,
    ensures
        cache_index(e, key) == cache_index(e.take(n), key),
    decreases e.len() - n,
{
    if n < e.len() {
        assert(e.take(n + 1).drop_last() =~= e.take(n));
        lemma_cache_index_grow(e, key, n + 1);
    } else {
        assert(e.take(n) =~= e);
    }
}

// --- inline image data ------------------------------------------------------------------

/// Decoded pixels: `width` × `height`, four bytes (RGBA) per pixel, row by row.
#[derive(Clone, Debug)]
pub struct RgbaPixels {
    pub width: u32,
    pub height: u32,
    pub rgba: Vec<u8>,
}

/// The freedesktop `iiibiiay` image is usable: 8 bits per sample, RGB or
/// RGBA, 1..=1024 pixels each way, and enough data for every row.
pub open spec fn image_ok(width: i32, height: i32, stride: i32, bits: i32, channels: i32, len: int) -> bool {
    &&& bits == 8
    &&& 3 <= channels <= 4
    &&& 1 <= width <= 1024
    &&& 1 <= height <= 1024
    &&& stride >= 0 || height == 1
    &&& len >= stride * (height - 1) + width * channels
}

/// Byte `c` (R, G, B, A) of pixel `p` of the decoded image.
pub open spec fn pixel_byte(data: Seq<u8>, width: int, stride: int, channels: int, has_alpha: bool, p: int, c: int) -> u8 {
    let i = (p / width) * stride + (p % width) * channels;
    if c < 3 {
        data[i + c]
    } else if has_alpha && channels == 4 {
        data[i + 3]
    } else {
        255
    }
}

/// The spec's image hint (width, height, rowstride, has_alpha,
/// bits_per_sample, channels, data) as RGBA pixels; `None` when unusable.
pub fn image_data(
    width: i32,
    height: i32,
    stride: i32,
    has_alpha: bool,
    bits: i32,
    channels: i32,
    data: &[u8],
) -> (r: Option<RgbaPixels>)
    requires
        // a negative row stride overflows the size check, unless there are
        // just two rows and the stride reaches back past a whole row
        !(bits == 8 && 3 <= channels <= 4 && 1 <= width <= 1024 && 2 <= height <= 1024 && stride < 0 && (height
            > 2 || -stride <= width * channels)),
    ensures
        r is Some <==> image_ok(width, height, stride, bits, channels, data@.len() as int),
        r matches Some(img) ==> {
            &&& img.width == width && img.height == height
            &&& img.rgba@.len() == width * height * 4
            &&& forall|p: int, c: int|
                0 <= p < width * height && 0 <= c < 4 ==> #[trigger] img.rgba@[4 * p + c] == pixel_byte(
                    data@,
                    width as int,
                    stride as int,
                    channels as int,
                    has_alpha,
                    p,
                    c,
                )
        },
{
    if bits != 8 || channels < 3 || channels > 4 || width < 1 || width > 1024 || height < 1 || height > 1024 {
        return None;
    }
    if stride < 0 && height != 1 {
        return None;
    }
    let w = width as u64;
    let h = height as u64;
    let ch = channels as u64;
    let st: u64 = if height == 1 {
        0
    } else {
        stride as u64
    };
    proof {
        assert(st * (h - 1) == stride * (height - 1)) by (nonlinear_arith)
            requires
                height == 1 ==> st == 0,
                height != 1 ==> st == stride,
                h == height,
                stride >= 0 || height == 1,
        ;
        assert(st * (h - 1) <= 2147483647 * 1023) by (nonlinear_arith)
            requires
                st <= 2147483647,
                1 <= h <= 1024,
        ;
    }
    proof {
        assert(w * ch <= 4096) by (nonlinear_arith)
            requires
                w <= 1024,
                ch <= 4,
        ;
        assert(w * h <= 1048576) by (nonlinear_arith)
            requires
                w <= 1024,
                h <= 1024,
        ;
    }
    let need = st * (h - 1) + w * ch;
    if (data.len() as u64) < need {
        return None;
    }
    let total = w * h;
    let dl = data.len();
    let mut rgba: Vec<u8> = Vec::new();
    let mut p: u64 = 0;
    while p < total
        invariant
            1 <= w <= 1024,
            1 <= h <= 1024,
            3 <= ch <= 4,
            w == width && h == height && ch == channels,
            st * (h - 1) + w * ch <= data@.len(),
            dl == data@.len(),
            st <= 2147483647,
            st * (h - 1) <= 2147483647 * 1023,
            w * ch <= 4096,
            height != 1 ==> st == stride,
            stride >= 0 || height == 1,
            total == w * h,
            0 <= p <= total,
            rgba@.len() == 4 * p,
            forall|q: int, c: int|
                0 <= q < p && 0 <= c < 4 ==> #[trigger] rgba@[4 * q + c] == pixel_byte(
                    data@,
                    width as int,
                    stride as int,
                    channels as int,
                    has_alpha,
                    q,
                    c,
                ),
        decreases total - p,
    {
        let y = p / w;
        let x = p % w;
        proof {
            assert(y < h && x < w) by (nonlinear_arith)
                requires
                    y == p / w,
                    x == p % w,
                    p < w * h,
                    w >= 1,
            ;
            assert(y * st <= st * (h - 1) && x * ch + ch <= w * ch) by (nonlinear_arith)
                requires
                    y < h,
                    x < w,
                    st >= 0,
                    ch >= 0,
            ;
            if height == 1 {
                assert(y == 0) by (nonlinear_arith)
                    requires
                        y < h,
                        h == 1,
                ;
            }
            assert(y * st == (p as int / width as int) * stride) by (nonlinear_arith)
                requires
                    y == p / w,
                    w == width,
                    height == 1 ==> y == 0,
                    height != 1 ==> st == stride,
            ;
        }
        let i = (y * st + x * ch) as usize;
        let a = if has_alpha && ch == 4 {
            data[i + 3]
        } else {
            255u8
        };
        let ghost before = rgba@;
        rgba.push(data[i]);
        rgba.push(data[i + 1]);
        rgba.push(data[i + 2]);
        rgba.push(a);
        proof {
            assert forall|q: int, c: int|
                0 <= q < p + 1 && 0 <= c < 4 implies #[trigger] rgba@[4 * q + c] == pixel_byte(
                data@,
                width as int,
                stride as int,
                channels as int,
                has_alpha,
                q,
                c,
            ) by {
                if q < p {
                    assert(rgba@[4 * q + c] == before[4 * q + c]);
                } else {
                    assert(q == p);
                }
            }
        }
        p += 1;
    }
    Some(RgbaPixels { width: width as u32, height: height as u32, rgba })
}

// --- decoded icons ---------------------------------------------------------------------------

/// What the `image` crate makes of an encoded picture (PNG, JPEG, …):
/// `load_from_memory` then `to_rgba8`, as width, height and RGBA bytes;
/// `None` when it cannot decode it.
pub uninterp spec fn image_decoded(bytes: Seq<u8>) -> Option<(u32, u32, Seq<u8>)>;

/// What the `image` crate's `thumbnail(64, 64)` makes of RGBA pixels (the
/// largest size that fits 64 × 64 with the aspect ratio kept), as width,
/// height and RGBA bytes; `None` when the bytes are too few for the size.
pub uninterp spec fn thumbnail_of(width: u32, height: u32, rgba: Seq<u8>) -> Option<(u32, u32, Seq<u8>)>;

/// Pixels as plain values.
pub open spec fn px(p: RgbaPixels) -> (u32, u32, Seq<u8>) {
    (p.width, p.height, p.rgba@)
}

/// Optional pixels as plain values.
pub open spec fn opt_px(p: Option<RgbaPixels>) -> Option<(u32, u32, Seq<u8>)> {
    match p {
        Some(q) => Some(px(q)),
        None => None,
    }
}

/// `image::load_from_memory` and `DynamicImage::to_rgba8`: the result is
/// `image_decoded` of the bytes.
#[verifier::external_body]
fn decode_image(bytes: &[u8]) -> (r: Option<RgbaPixels>)
    ensures
        opt_px(r) == image_decoded(bytes@),
{
    match image::load_from_memory(bytes) {
        Ok(img) => {
            let img = img.to_rgba8();
            Some(RgbaPixels { width: img.width(), height: img.height(), rgba: img.into_raw() })
        },
        Err(_) => None,
    }
}

/// `RgbaImage::from_raw`, then `DynamicImage::thumbnail(64, 64)` and
/// `to_rgba8`: the result is `thumbnail_of` the pixels.
#[verifier::external_body]
fn thumbnail64(p: RgbaPixels) -> (r: Option<RgbaPixels>)
    ensures
        opt_px(r) == thumbnail_of(p.width, p.height, p.rgba@),
{
    match image::RgbaImage::from_raw(p.width, p.height, p.rgba) {
        Some(img) => {
            let t = image::DynamicImage::ImageRgba8(img).thumbnail(64, 64).to_rgba8();
            Some(RgbaPixels { width: t.width(), height: t.height(), rgba: t.into_raw() })
        },
        None => None,
    }
}

/// An icon at chip size: kept as it is when it fits 64 × 64 (a 16 px tray
/// icon stays crisp at 16 px), else shrunk into 64 × 64; never enlarged.
pub open spec fn spec_chip(p: (u32, u32, Seq<u8>)) -> Option<(u32, u32, Seq<u8>)> {
    if p.0 <= 64 && p.1 <= 64 {
        Some(p)
    } else {
        thumbnail_of(p.0, p.1, p.2)
    }
}

/// The pixels at chip size (`None` only when they are too few for their
/// size and had to be shrunk).
pub fn chip_icon(p: RgbaPixels) -> (r: Option<RgbaPixels>)
    ensures
        opt_px(r) == spec_chip(px(p)),
{
    if p.width <= 64 && p.height <= 64 {
        Some(p)
    } else {
        thumbnail64(p)
    }
}

/// An encoded icon decoded and brought to chip size.
pub open spec fn spec_icon_from_bytes(bytes: Seq<u8>) -> Option<(u32, u32, Seq<u8>)> {
    match image_decoded(bytes) {
        Some(p) => spec_chip(p),
        None => None,
    }
}

/// An icon file's or message's bytes as a chip-sized icon (`None` when
/// they are no picture the `image` crate reads). The picture is shrunk
/// after it is made RGBA (the other way round, 16-bit pictures would be
/// averaged before they are cut to 8 bits).
pub fn icon_from_bytes(bytes: &[u8]) -> (r: Option<RgbaPixels>)
    ensures
        opt_px(r) == spec_icon_from_bytes(bytes@),
{
    match decode_image(bytes) {
        Some(p) => chip_icon(p),
        None => None,
    }
}

/// The icon an XSOverlay message carries: with `useBase64Icon` set, its
/// icon text decoded from base64 (blanks around it ignored), then as a
/// picture, at chip size.
pub open spec fn spec_xso_icon(use_base64: Option<bool>, icon: Option<String>) -> Option<(u32, u32, Seq<u8>)> {
    if use_base64 == Some(true) {
        match icon {
            Some(t) => match base64_standard(trim(t@)) {
                Some(bytes) => spec_icon_from_bytes(bytes),
                None => None,
            },
            None => None,
        }
    } else {
        None
    }
}

pub fn xso_icon(use_base64: Option<bool>, icon: Option<String>) -> (r: Option<RgbaPixels>)
    ensures
        opt_px(r) == spec_xso_icon(use_base64, icon),
{
    match xso_icon_text(use_base64, icon) {
        Some(t) => match decode_icon_bytes(t.as_str()) {
            Some(bytes) => icon_from_bytes(bytes.as_slice()),
            None => None,
        },
        None => None,
    }
}

/// One way to find a desktop notification's icon.
pub enum IconRequest {
    /// The pixels of the `image-data` hint.
    ImageData,
    /// An icon spec (a path, `file://` URI or theme name), cached under
    /// itself.
    Spec(String),
    /// The icon of the desktop entry `id`, cached under `key`.
    Entry { key: String, id: String },
}

/// An icon request as plain values.
pub ghost enum IconStep {
    ImageData,
    Spec(Seq<char>),
    Entry(Seq<char>, Seq<char>),
}

pub open spec fn step_of(r: IconRequest) -> IconStep {
    match r {
        IconRequest::ImageData => IconStep::ImageData,
        IconRequest::Spec(s) => IconStep::Spec(s@),
        IconRequest::Entry { key, id } => IconStep::Entry(key@, id@),
    }
}

/// Where a desktop notification's icon is looked for, in the spec's
/// priority order: the `image-data` pixels, the `image-path` hint, the
/// `app_icon` argument (unless blank), then the desktop entry's icon,
/// cached under `desktop:` and the entry id. The first that gives an icon
/// wins.
pub open spec fn spec_icon_plan(
    has_image_data: bool,
    image_path: Option<Seq<char>>,
    app_icon: Seq<char>,
    desktop_entry: Option<Seq<char>>,
) -> Seq<IconStep> {
    (if has_image_data { seq![IconStep::ImageData] } else { Seq::empty() }) + (match image_path {
        Some(p) => seq![IconStep::Spec(p)],
        None => Seq::empty(),
    }) + (if trim(app_icon).len() > 0 { seq![IconStep::Spec(app_icon)] } else { Seq::empty() }) + (match desktop_entry {
        Some(id) => seq![IconStep::Entry("desktop:"@ + id, id)],
        None => Seq::empty(),
    })
}

pub fn icon_plan(has_image_data: bool, image_path: Option<String>, app_icon: &str, desktop_entry: Option<String>) -> (r:
    Vec<IconRequest>)
    ensures
        r@.map_values(|q: IconRequest| step_of(q)) == spec_icon_plan(
            has_image_data,
            opt_view(image_path),
            app_icon@,
            opt_view(desktop_entry),
        ),
{
    let mut out: Vec<IconRequest> = Vec::new();
    let ghost a = if has_image_data { seq![IconStep::ImageData] } else { Seq::<IconStep>::empty() };
    let ghost b = match opt_view(image_path) {
        Some(p) => seq![IconStep::Spec(p)],
        None => Seq::<IconStep>::empty(),
    };
    let ghost c = if trim(app_icon@).len() > 0 { seq![IconStep::Spec(app_icon@)] } else { Seq::<IconStep>::empty() };
    let ghost d = match opt_view(desktop_entry) {
        Some(id) => seq![IconStep::Entry("desktop:"@ + id, id)],
        None => Seq::<IconStep>::empty(),
    };
    if has_image_data {
        out.push(IconRequest::ImageData);
    }
    assert(out@.map_values(|q: IconRequest| step_of(q)) =~= a);
    match image_path {
        Some(p) => {
            out.push(IconRequest::Spec(p));
        },
        None => {},
    }
    assert(out@.map_values(|q: IconRequest| step_of(q)) =~= a + b);
    if trim_chars(&chars_of(app_icon)).len() > 0 {
        out.push(IconRequest::Spec(string_of(&chars_of(app_icon))));
    }
    assert(out@.map_values(|q: IconRequest| step_of(q)) =~= a + b + c);
    match desktop_entry {
        Some(id) => {
            let mut key = chars_of("desktop:");
            extend_chars(&mut key, &chars_of(id.as_str()));
            out.push(IconRequest::Entry { key: string_of(&key), id });
        },
        None => {},
    }
    assert(out@.map_values(|q: IconRequest| step_of(q)) =~= a + b + c + d);
    out
}

/// The text of an optional string.
pub open spec fn opt_view(o: Option<String>) -> Option<Seq<char>> {
    match o {
        Some(s) => Some(s@),
        None => None,
    }
}

// --- icons by name or path ----------------------------------------------------------------

/// Where an icon is looked up: an image file, or a name in the icon theme.
#[derive(Clone, Debug, PartialEq)]
pub enum IconSource {
    File(String),
    Theme(String),
}

pub ghost enum IconSourceModel {
    File(Seq<char>),
    Theme(Seq<char>),
}

impl View for IconSource {
    type V = IconSourceModel;

    open spec fn view(&self) -> IconSourceModel {
        match self {
            IconSource::File(p) => IconSourceModel::File(p@),
            IconSource::Theme(n) => IconSourceModel::Theme(n@),
        }
    }
}

/// Index of the last `c` in `s`, or -1.
pub open spec fn last_index_of(s: Seq<char>, c: char) -> int
    decreases s.len(),
{
    if s.len() == 0 {
        -1
    } else if s.last() == c {
        s.len() - 1
    } else {
        last_index_of(s.drop_last(), c)
    }
}

proof fn lemma_last_index_of(s: Seq<char>, c: char)
    ensures
        -1 <= last_index_of(s, c) < s.len(),
        last_index_of(s, c) >= 0 ==> s[last_index_of(s, c)] == c,
    decreases s.len(),
{
    if s.len() > 0 && s.last() != c {
        lemma_last_index_of(s.drop_last(), c);
    }
}

fn find_last(s: &Vec<char>, c: char) -> (r: Option<usize>)
    ensures
        match r {
            Some(i) => i as int == last_index_of(s@, c) && i < s@.len(),
            None => last_index_of(s@, c) == -1,
        },
{
    proof {
        lemma_last_index_of(s@, c);
    }
    let mut j: usize = s.len();
    assert(s@.take(j as int) =~= s@);
    while j > 0
        invariant
            0 <= j <= s@.len(),
            last_index_of(s@, c) == last_index_of(s@.take(j as int), c),
        decreases j,
    {
        proof {
            assert(s@.take(j as int).drop_last() =~= s@.take(j - 1));
        }
        if s[j - 1] == c {
            return Some(j - 1);
        }
        j -= 1;
    }
    None
}

pub open spec fn file_scheme() -> Seq<char> {
    seq!['f', 'i', 'l', 'e', ':', '/', '/']
}

/// The image extensions a theme name may carry by mistake.
pub open spec fn is_image_ext(e: Seq<char>) -> bool {
    ||| e == seq!['p', 'n', 'g']
    ||| e == seq!['s', 'v', 'g']
    ||| e == seq!['x', 'p', 'm']
    ||| e == seq!['j', 'p', 'g']
}

/// An icon spec as apps send it — an absolute path, a `file://` URI, or a
/// theme icon name (a stray image extension dropped) — or `None` when blank
/// or not a usable name (empty, or holding a `/`).
pub open spec fn spec_icon_source(spec: Seq<char>) -> Option<IconSourceModel> {
    let t = trim(spec);
    let path = if is_prefix(file_scheme(), t) {
        t.skip(7)
    } else {
        t
    };
    if t.len() == 0 {
        None
    } else if path.len() > 0 && path[0] == '/' {
        Some(IconSourceModel::File(path))
    } else {
        let d = last_index_of(path, '.');
        let name = if d >= 0 && is_image_ext(path.skip(d + 1)) {
            path.take(d)
        } else {
            path
        };
        if name.len() == 0 || name.contains('/') {
            None
        } else {
            Some(IconSourceModel::Theme(name))
        }
    }
}

fn is_image_ext_exec(e: &Vec<char>) -> (r: bool)
    ensures
        r == is_image_ext(e@),
{
    let png = vec!['p', 'n', 'g'];
    let svg = vec!['s', 'v', 'g'];
    let xpm = vec!['x', 'p', 'm'];
    let jpg = vec!['j', 'p', 'g'];
    proof {
        assert(png@ =~= seq!['p', 'n', 'g']);
        assert(svg@ =~= seq!['s', 'v', 'g']);
        assert(xpm@ =~= seq!['x', 'p', 'm']);
        assert(jpg@ =~= seq!['j', 'p', 'g']);
    }
    chars_eq(e, &png) || chars_eq(e, &svg) || chars_eq(e, &xpm) || chars_eq(e, &jpg)
}

/// Where to look for the icon an app named.
pub fn icon_source(spec: &str) -> (r: Option<IconSource>)
    ensures
        match r {
            Some(src) => spec_icon_source(spec@) == Some(src@),
            None => spec_icon_source(spec@) is None,
        },
{
    let t = trim_chars(&chars_of(spec));
    if t.len() == 0 {
        return None;
    }
    let scheme = vec!['f', 'i', 'l', 'e', ':', '/', '/'];
    proof {
        assert(scheme@ =~= file_scheme());
    }
    let path = if starts_with(&t, &scheme) {
        skip_chars(&t, 7)
    } else {
        t
    };
    if path.len() > 0 && path[0] == '/' {
        return Some(IconSource::File(string_of(&path)));
    }
    let name = match find_last(&path, '.') {
        Some(d) => {
            let ext = skip_chars(&path, d + 1);
            if is_image_ext_exec(&ext) {
                let mut n: Vec<char> = Vec::new();
                let mut k: usize = 0;
                while k < d
                    invariant
                        0 <= k <= d,
                        d < path@.len(),
                        n@ == path@.take(k as int),
                    decreases d - k,
                {
                    n.push(path[k]);
                    k += 1;
                    assert(path@.take(k as int) =~= path@.take(k - 1).push(path@[k - 1]));
                }
                n
            } else {
                path
            }
        },
        None => path,
    };
    proof {
        lemma_last_index_of(path@, '.');
    }
    if name.len() == 0 || contains_char(&name, '/') {
        None
    } else {
        Some(IconSource::Theme(string_of(&name)))
    }
}

/// The last named component of a path (`.` and empty pieces skipped; `..`
/// has none), as `Path::file_name` gives it.
pub open spec fn last_named(segs: Seq<Seq<char>>) -> Option<Seq<char>>
    decreases segs.len(),
{
    if segs.len() == 0 {
        None
    } else {
        let l = segs.last();
        if l.len() == 0 || l == seq!['.'] {
            last_named(segs.drop_last())
        } else if l == seq!['.', '.'] {
            None
        } else {
            Some(l)
        }
    }
}

/// `Path::extension`: what follows the last `.` of the file name, unless
/// that dot starts the name.
pub open spec fn path_extension(p: Seq<char>) -> Option<Seq<char>> {
    match last_named(split_seq(p, '/')) {
        None => None,
        Some(name) => {
            let d = last_index_of(name, '.');
            if d <= 0 {
                None
            } else {
                Some(name.skip(d + 1))
            }
        },
    }
}

/// An SVG file by its extension (any case): there is no rasteriser for it.
pub open spec fn spec_is_svg(p: Seq<char>) -> bool {
    match path_extension(p) {
        Some(e) => ascii_lower_seq(e) == seq!['s', 'v', 'g'],
        None => false,
    }
}

/// Whether an icon file is an SVG.
pub fn is_svg(path: &str) -> (r: bool)
    ensures
        r == spec_is_svg(path@),
{
    let segs = split_chars(&chars_of(path), '/');
    let mut j: usize = segs.len();
    let dot = vec!['.'];
    let dotdot = vec!['.', '.'];
    proof {
        assert(dot@ =~= seq!['.']);
        assert(dotdot@ =~= seq!['.', '.']);
    }
    let mut name: Option<usize> = None;
    assert(segs.deep_view().take(j as int) =~= segs.deep_view());
    while j > 0
        invariant_except_break
            0 <= j <= segs@.len(),
            segs.deep_view() == split_seq(path@, '/'),
            dot@ == seq!['.'],
            dotdot@ == seq!['.', '.'],
            last_named(segs.deep_view()) == last_named(segs.deep_view().take(j as int)),
            name is None,
        ensures
            segs.deep_view() == split_seq(path@, '/'),
            name is None ==> last_named(segs.deep_view()) is None,
            name matches Some(i) ==> i < segs@.len() && last_named(segs.deep_view()) == Some(
                segs.deep_view()[i as int],
            ),
        decreases j,
    {
        proof {
            assert(segs.deep_view().take(j as int).drop_last() =~= segs.deep_view().take(j - 1));
            assert(segs.deep_view().take(j as int).last() == segs.deep_view()[j - 1]);
            assert(segs.deep_view()[j - 1] =~= segs@[j - 1]@);
        }
        let l = &segs[j - 1];
        if l.len() == 0 || chars_eq(l, &dot) {
            j -= 1;
        } else if chars_eq(l, &dotdot) {
            return false;
        } else {
            name = Some(j - 1);
            break;
        }
    }
    let i = match name {
        Some(i) => i,
        None => return false,
    };
    let n = &segs[i];
    proof {
        assert(segs.deep_view()[i as int] =~= n@);
    }
    match find_last(n, '.') {
        Some(d) => {
            if d == 0 {
                false
            } else {
                let e = lower_ascii_chars(&skip_chars(n, d + 1));
                let svg = vec!['s', 'v', 'g'];
                proof {
                    assert(svg@ =~= seq!['s', 'v', 'g']);
                }
                chars_eq(&e, &svg)
            }
        },
        None => false,
    }
}

// --- desktop entries --------------------------------------------------------------------

pub open spec fn entry_header() -> Seq<char> {
    seq!['[', 'D', 'e', 's', 'k', 't', 'o', 'p', ' ', 'E', 'n', 't', 'r', 'y', ']']
}

pub open spec fn icon_key() -> Seq<char> {
    seq!['I', 'c', 'o', 'n', '=']
}

/// Reading a desktop file line by line: inside `[Desktop Entry]` or not, and
/// the first `Icon=` value found there.
pub open spec fn entry_scan(lines: Seq<Seq<char>>) -> (bool, Option<Seq<char>>)
    decreases lines.len(),
{
    if lines.len() == 0 {
        (false, None)
    } else {
        let (e, f) = entry_scan(lines.drop_last());
        if f is Some {
            (e, f)
        } else {
            let l = trim(lines.last());
            if l.len() > 0 && l[0] == '[' {
                (l == entry_header(), None)
            } else if e && is_prefix(icon_key(), l) {
                (e, Some(trim(l.skip(5))))
            } else {
                (e, None)
            }
        }
    }
}

/// `Icon=` of a desktop entry's text (its `[Desktop Entry]` group).
pub fn entry_icon(text: &str) -> (r: Option<String>)
    ensures
        match r {
            Some(s) => entry_scan(split_seq(text@, '\n')).1 == Some(s@),
            None => entry_scan(split_seq(text@, '\n')).1 is None,
        },
{
    let lines = split_chars(&chars_of(text), '\n');
    let header = vec!['[', 'D', 'e', 's', 'k', 't', 'o', 'p', ' ', 'E', 'n', 't', 'r', 'y', ']'];
    let key = vec!['I', 'c', 'o', 'n', '='];
    proof {
        assert(header@ =~= entry_header());
        assert(key@ =~= icon_key());
    }
    let mut in_entry = false;
    let mut i: usize = 0;
    while i < lines.len()
        invariant
            0 <= i <= lines@.len(),
            lines.deep_view() == split_seq(text@, '\n'),
            header@ == entry_header(),
            key@ == icon_key(),
            entry_scan(lines.deep_view().take(i as int)) == (in_entry, None::<Seq<char>>),
        decreases lines@.len() - i,
    {
        proof {
            assert(lines.deep_view().take(i + 1).drop_last() =~= lines.deep_view().take(i as int));
            assert(lines.deep_view().take(i + 1).last() =~= lines@[i as int]@);
        }
        let l = trim_chars(&lines[i]);
        if l.len() > 0 && l[0] == '[' {
            in_entry = chars_eq(&l, &header);
        } else if in_entry && starts_with(&l, &key) {
            let v = trim_chars(&skip_chars(&l, 5));
            proof {
                lemma_entry_scan_found(lines.deep_view(), i as int + 1, v@);
            }
            return Some(string_of(&v));
        }
        i += 1;
    }
    assert(lines.deep_view().take(i as int) =~= lines.deep_view());
    None
}

proof fn lemma_entry_scan_found(lines: Seq<Seq<char>>, n: int, v: Seq<char>)
    requires
        0 < n <= lines.len(),
        entry_scan(lines.take(n)).1 == Some(v),
    ensures
        entry_scan(lines).1 == Some(v),
    decreases lines.len() - n,
{
    if n < lines.len() {
        assert(lines.take(n + 1).drop_last() =~= lines.take(n));
        lemma_entry_scan_found(lines, n + 1, v);
    } else {
        assert(lines.take(n) =~= lines);
    }
}

pub open spec fn desktop_suffix() -> Seq<char> {
    seq!['.', 'd', 'e', 's', 'k', 't', 'o', 'p']
}

/// The desktop file of an entry id (with or without `.desktop`); `None` for
/// ids holding a `/`.
pub open spec fn spec_desktop_file(id: Seq<char>) -> Option<Seq<char>> {
    let f = if id.len() >= 8 && id.skip(id.len() - 8) == desktop_suffix() {
        id
    } else {
        id + desktop_suffix()
    };
    if f.contains('/') {
        None
    } else {
        Some(f)
    }
}

pub fn desktop_file_name(id: &str) -> (r: Option<String>)
    ensures
        match r {
            Some(s) => spec_desktop_file(id@) == Some(s@),
            None => spec_desktop_file(id@) is None,
        },
{
    let mut f = chars_of(id);
    let suffix = vec!['.', 'd', 'e', 's', 'k', 't', 'o', 'p'];
    proof {
        assert(suffix@ =~= desktop_suffix());
    }
    let ends = f.len() >= 8 && chars_eq(&skip_chars(&f, f.len() - 8), &suffix);
    if !ends {
        extend_chars(&mut f, &suffix);
    }
    if contains_char(&f, '/') {
        None
    } else {
        Some(string_of(&f))
    }
}

// --- data roots -----------------------------------------------------------------------

/// The XDG data roots that hold `icons/` and `applications/`, user first:
/// the user's share and flatpak exports, the system flatpak exports, each
/// non-empty entry of `XDG_DATA_DIRS`, then `/usr/local/share`, `/usr/share`.
pub open spec fn spec_data_roots(home: Seq<char>, xdg: Option<Seq<char>>) -> Seq<Seq<char>> {
    seq![
        home + seq!['/', '.', 'l', 'o', 'c', 'a', 'l', '/', 's', 'h', 'a', 'r', 'e'],
        home + seq![
            '/', '.', 'l', 'o', 'c', 'a', 'l', '/', 's', 'h', 'a', 'r', 'e', '/', 'f', 'l', 'a', 't', 'p', 'a', 'k', '/',
            'e', 'x', 'p', 'o', 'r', 't', 's', '/', 's', 'h', 'a', 'r', 'e'
        ],
        seq!['/', 'v', 'a', 'r', '/', 'l', 'i', 'b', '/', 'f', 'l', 'a', 't', 'p', 'a', 'k', '/', 'e', 'x', 'p', 'o',
            'r', 't', 's', '/', 's', 'h', 'a', 'r', 'e'],
    ] + match xdg {
        Some(d) => split_seq(d, ':').filter(|p: Seq<char>| p.len() > 0),
        None => Seq::empty(),
    } + seq![
        seq!['/', 'u', 's', 'r', '/', 'l', 'o', 'c', 'a', 'l', '/', 's', 'h', 'a', 'r', 'e'],
        seq!['/', 'u', 's', 'r', '/', 's', 'h', 'a', 'r', 'e'],
    ]
}

fn push_text(out: &mut Vec<String>, v: &Vec<char>)
    ensures
        final(out)@.len() == old(out)@.len() + 1,
        forall|k: int| 0 <= k < old(out)@.len() ==> final(out)@[k] == old(out)@[k],
        final(out)@.last()@ == v@,
{
    out.push(string_of(v));
}

/// The data roots for `HOME` and (when set) `XDG_DATA_DIRS`.
pub fn data_roots(home: &str, xdg: Option<&str>) -> (r: Vec<String>)
    ensures
        r@.len() == spec_data_roots(home@, match xdg {
            Some(d) => Some(d@),
            None => None,
        }).len(),
        forall|k: int|
            0 <= k < r@.len() ==> #[trigger] r@[k]@ == spec_data_roots(home@, match xdg {
                Some(d) => Some(d@),
                None => None,
            })[k],
{
    let ghost xv: Option<Seq<char>> = match xdg {
        Some(d) => Some(d@),
        None => None,
    };
    let ghost want = spec_data_roots(home@, xv);
    let h = chars_of(home);
    let mut out: Vec<String> = Vec::new();
    let mut a = h.clone();
    let sfx_a = vec!['/', '.', 'l', 'o', 'c', 'a', 'l', '/', 's', 'h', 'a', 'r', 'e'];
    extend_chars(&mut a, &sfx_a);
    push_text(&mut out, &a);
    let mut b = h.clone();
    let sfx_b = vec![
        '/', '.', 'l', 'o', 'c', 'a', 'l', '/', 's', 'h', 'a', 'r', 'e', '/', 'f', 'l', 'a', 't', 'p', 'a', 'k', '/', 'e',
        'x', 'p', 'o', 'r', 't', 's', '/', 's', 'h', 'a', 'r', 'e',
    ];
    extend_chars(&mut b, &sfx_b);
    push_text(&mut out, &b);
    let c = vec![
        '/', 'v', 'a', 'r', '/', 'l', 'i', 'b', '/', 'f', 'l', 'a', 't', 'p', 'a', 'k', '/', 'e', 'x', 'p', 'o', 'r',
        't', 's', '/', 's', 'h', 'a', 'r', 'e',
    ];
    push_text(&mut out, &c);
    let ghost head = out@;
    proof {
        assert(out@[0]@ =~= want[0]);
        assert(out@[1]@ =~= want[1]);
        assert(out@[2]@ =~= want[2]);
    }
    let ghost dirs: Seq<Seq<char>> = match xv {
        Some(d) => split_seq(d, ':').filter(|p: Seq<char>| p.len() > 0),
        None => Seq::empty(),
    };
    match xdg {
        Some(d) => {
            let parts = split_chars(&chars_of(d), ':');
            let mut i: usize = 0;
            let ghost mut got: Seq<Seq<char>> = Seq::empty();
            while i < parts.len()
                invariant
                    0 <= i <= parts@.len(),
                    parts.deep_view() == split_seq(d@, ':'),
                    got == parts.deep_view().take(i as int).filter(|p: Seq<char>| p.len() > 0),
                    out@.len() == 3 + got.len(),
                    head.len() == 3,
                    forall|k: int| 0 <= k < 3 ==> #[trigger] out@[k] == head[k],
                    forall|k: int| 0 <= k < got.len() ==> #[trigger] out@[3 + k]@ == got[k],
                decreases parts@.len() - i,
            {
                proof {
                    reveal_with_fuel(Seq::<_>::filter, 1);
                    assert(parts.deep_view().take(i + 1).drop_last() =~= parts.deep_view().take(i as int));
                    assert(parts.deep_view()[i as int] =~= parts@[i as int]@);
                }
                if parts[i].len() > 0 {
                    push_text(&mut out, &parts[i]);
                    proof {
                        got = got.push(parts@[i as int]@);
                    }
                }
                i += 1;
            }
            proof {
                assert(parts.deep_view().take(i as int) =~= parts.deep_view());
                assert(got == dirs);
            }
        },
        None => {},
    }
    assert(out@.len() == 3 + dirs.len());
    assert(forall|k: int| 0 <= k < 3 ==> #[trigger] out@[k]@ == want[k]);
    assert(forall|k: int| 0 <= k < dirs.len() ==> #[trigger] out@[3 + k]@ == dirs[k]);
    let ghost mid = out@;
    let e = vec!['/', 'u', 's', 'r', '/', 'l', 'o', 'c', 'a', 'l', '/', 's', 'h', 'a', 'r', 'e'];
    push_text(&mut out, &e);
    let f = vec!['/', 'u', 's', 'r', '/', 's', 'h', 'a', 'r', 'e'];
    push_text(&mut out, &f);
    proof {
        assert(want.len() == 5 + dirs.len());
        assert forall|k: int| 0 <= k < out@.len() implies #[trigger] out@[k]@ == want[k] by {
            if k < 3 {
                assert(out@[k] == mid[k]);
            } else if k < 3 + dirs.len() {
                assert(out@[k] == mid[k]);
                assert(mid[3 + (k - 3)]@ == dirs[k - 3]);
                assert(want[k] == dirs[k - 3]);
            } else if k == 3 + dirs.len() {
                assert(out@[k]@ =~= want[k]);
            } else {
                assert(out@[k]@ =~= want[k]);
            }
        }
    }
    out
}

// --- XSOverlay messages -------------------------------------------------------------------

/// A toast from an XSOverlay message: the app, title and body shown.
pub struct XsoToast {
    pub app: String,
    pub title: String,
    pub body: String,
}

/// XSOverlay's `messageType` 1 is a notification (2 is media info: no toast).
/// The app defaults to `XSOverlay`, the title to the app, the body to empty.
pub fn xso_toast(
    message_type: i32,
    title: Option<String>,
    content: Option<String>,
    source_app: Option<String>,
) -> (r: Option<XsoToast>)
    ensures
        r is Some <==> message_type == 1,
        r matches Some(t) ==> {
            &&& t.app@ == match source_app {
                Some(a) => a@,
                None => seq!['X', 'S', 'O', 'v', 'e', 'r', 'l', 'a', 'y'],
            }
            &&& t.title@ == match title {
                Some(x) => x@,
                None => t.app@,
            }
            &&& t.body@ == match content {
                Some(b) => b@,
                None => Seq::<char>::empty(),
            }
        },
{
    if message_type != 1 {
        return None;
    }
    let app = match source_app {
        Some(a) => a,
        None => {
            let d = vec!['X', 'S', 'O', 'v', 'e', 'r', 'l', 'a', 'y'];
            proof {
                assert(d@ =~= seq!['X', 'S', 'O', 'v', 'e', 'r', 'l', 'a', 'y']);
            }
            string_of(&d)
        },
    };
    let title = match title {
        Some(t) => t,
        None => app.clone(),
    };
    let body = match content {
        Some(b) => b,
        None => String::new(),
    };
    Some(XsoToast { app, title, body })
}

/// The base64 icon text of an XSOverlay message: only when it says the icon
/// is base64 (its `useBase64Icon`, absent meaning no).
pub fn xso_icon_text(use_base64: Option<bool>, icon: Option<String>) -> (r: Option<String>)
    ensures
        r == (if use_base64 == Some(true) {
            icon
        } else {
            None
        }),
{
    match use_base64 {
        Some(true) => icon,
        _ => None,
    }
}

/// What `base64`'s standard engine decodes a text to (`None` when it is
/// not valid padded standard-alphabet base64).
pub uninterp spec fn base64_standard(text: Seq<char>) -> Option<Seq<u8>>;

/// Decode with `base64::engine::general_purpose::STANDARD`: the result is
/// the named decoding of exactly this text.
#[verifier::external_body]
fn base64_decode(text: &str) -> (r: Option<Vec<u8>>)
    ensures
        match r {
            Some(v) => base64_standard(text@) == Some(v@),
            None => base64_standard(text@) is None,
        },
{
    base64::engine::general_purpose::STANDARD.decode(text).ok()
}

/// The icon bytes a base64 icon text carries (surrounding blanks ignored).
pub fn decode_icon_bytes(b64: &str) -> (r: Option<Vec<u8>>)
    ensures
        match r {
            Some(v) => base64_standard(trim(b64@)) == Some(v@),
            None => base64_standard(trim(b64@)) is None,
        },
{
    let t = string_of(&trim_chars(&chars_of(b64)));
    base64_decode(t.as_str())
}

} // verus!
