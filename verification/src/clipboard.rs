//! Clipboard text preview for the keyboard's top bar: the watcher thread
//! polls `wl-paste` while the keyboard is up; what it reads is folded onto one
//! line here.
use std::sync::atomic::{AtomicBool, Ordering};
use std::sync::{Arc, Mutex};
use vstd::prelude::*;
use vstd::utf8::*;

use crate::sync::lock_cloned;
use crate::text::{chars_of, is_ws, lemma_trim_inside, string_of, trim, trim_chars};

verus! {

/// What `String::from_utf8_lossy` makes of bytes (ill-formed sequences
/// become U+FFFD).
pub uninterp spec fn utf8_lossy(b: Seq<u8>) -> Seq<char>;

/// `String::from_utf8_lossy`. Of well-formed UTF-8 its documentation says
/// that the text is decoded as is; of the replacement of ill-formed runs it
/// is stated only through the name.
#[verifier::external_body]
fn lossy_text(b: &[u8]) -> (r: String)
    ensures
        r@ == utf8_lossy(b@),
        valid_utf8(b@) ==> r@ == decode_utf8(b@),
{
    String::from_utf8_lossy(b).into_owned()
}

/// Line breaks become spaces.
pub open spec fn one_line(s: Seq<char>) -> Seq<char> {
    s.map_values(|c: char| if c == '\n' || c == '\r' { ' ' } else { c })
}

/// The preview of clipboard text: on one line, trimmed, `None` when blank.
pub open spec fn spec_preview(s: Seq<char>) -> Option<Seq<char>> {
    let t = trim(one_line(s));
    if t.len() == 0 {
        None
    } else {
        Some(t)
    }
}

/// The preview of what `wl-paste` printed.
pub fn clip_text(out: &[u8]) -> (r: Option<String>)
    ensures
        match r {
            Some(t) => spec_preview(utf8_lossy(out@)) == Some(t@),
            None => spec_preview(utf8_lossy(out@)) is None,
        },
{
    let text = lossy_text(out);
    let cs = chars_of(text.as_str());
    let mut line: Vec<char> = Vec::new();
    let mut i: usize = 0;
    while i < cs.len()
        invariant
            0 <= i <= cs@.len(),
            line@ == one_line(cs@.take(i as int)),
        decreases cs@.len() - i,
    {
        let c = cs[i];
        if c == '\n' || c == '\r' {
            line.push(' ');
        } else {
            line.push(c);
        }
        assert(one_line(cs@.take(i + 1)) =~= one_line(cs@.take(i as int)).push(
            if c == '\n' || c == '\r' { ' ' } else { c },
        ));
        i += 1;
    }
    assert(cs@.take(i as int) =~= cs@);
    let t = trim_chars(&line);
    if t.len() == 0 {
        None
    } else {
        Some(string_of(&t))
    }
}

/// What the preview thread's switch is set to: poll only when asked to and
/// the tool is there.
pub fn poll_switch(on: bool, available: bool) -> (r: bool)
    ensures
        r == (on && available),
{
    on && available
}

/// The preview thread's switch and the text it last read.
pub struct ClipboardWatcher {
    active: Arc<AtomicBool>,
    latest: Arc<Mutex<Option<String>>>,
    available: bool,
}

impl ClipboardWatcher {
    /// The switch the preview thread polls under.
    pub closed spec fn switch(&self) -> Arc<AtomicBool> {
        self.active
    }

    /// The slot the preview thread writes its last read into.
    pub closed spec fn slot(&self) -> Arc<Mutex<Option<String>>> {
        self.latest
    }

    /// `wl-paste` runs on this system.
    pub closed spec fn has_tool(&self) -> bool {
        self.available
    }

    /// A watcher over the shared switch and slot; `available`: `wl-paste`
    /// runs on this system.
    pub fn from_parts(active: Arc<AtomicBool>, latest: Arc<Mutex<Option<String>>>, available: bool) -> (r: Self)
        ensures
            r.switch() == active,
            r.slot() == latest,
            r.has_tool() == available,
    {
        ClipboardWatcher { active, latest, available }
    }

    /// Poll while the keyboard is up (never without the tool): the switch
    /// is handed `poll_switch(on, available)`.
    pub fn set_active(&self, on: bool) {
        let v = poll_switch(on, self.available);
        self.active.store(v, Ordering::Relaxed);
    }

    /// The last preview the thread read, if any: the slot is the thread's,
    /// so nothing more is stated.
    pub fn latest(&self) -> Option<String> {
        lock_cloned(&self.latest)
    }
}

/// The preview is one line and never blank: no line breaks, and no white
/// space at either end.
pub proof fn preview_is_one_trimmed_line(s: Seq<char>)
    ensures
        spec_preview(s) matches Some(t) ==> {
            &&& t.len() > 0
            &&& !t.contains('\n') && !t.contains('\r')
            &&& !is_ws(t[0]) && !is_ws(t.last())
        },
{
    let l = one_line(s);
    assert(!l.contains('\n') && !l.contains('\r'));
    lemma_trim_inside(l);
}

} // verus!
