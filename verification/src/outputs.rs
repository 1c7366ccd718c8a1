//! Monitor layout from the Wayland session: each screen's connector name,
//! description and logical rectangle, assembled from the `wl_output` and
//! `xdg_output` events, and what the desktop viewer derives from it.
use vstd::prelude::*;

use crate::text::{chars_of, decimal, extend_chars, int_text, str_eq, string_of};

verus! {

/// One monitor.
#[derive(Debug)]
pub struct OutputInfo {
    /// Connector name, e.g. `DP-3`.
    pub name: String,
    /// Human description ("Dell Inc. U2720Q" style).
    pub description: String,
    pub logical_pos: (i32, i32),
    pub logical_size: (i32, i32),
    pub pixel_size: (i32, i32),
}

/// A monitor as plain values.
pub ghost struct OutputView {
    pub name: Seq<char>,
    pub description: Seq<char>,
    pub logical_pos: (i32, i32),
    pub logical_size: (i32, i32),
    pub pixel_size: (i32, i32),
}

impl View for OutputInfo {
    type V = OutputView;

    open spec fn view(&self) -> OutputView {
        OutputView {
            name: self.name@,
            description: self.description@,
            logical_pos: self.logical_pos,
            logical_size: self.logical_size,
            pixel_size: self.pixel_size,
        }
    }
}

impl Clone for OutputInfo {
    fn clone(&self) -> (r: Self)
        ensures
            r@ == self@,
    {
        OutputInfo {
            name: self.name.clone(),
            description: self.description.clone(),
            logical_pos: self.logical_pos,
            logical_size: self.logical_size,
            pixel_size: self.pixel_size,
        }
    }
}

/// A monitor nothing has been heard of yet.
pub open spec fn blank_view() -> OutputView {
    OutputView {
        name: Seq::empty(),
        description: Seq::empty(),
        logical_pos: (0, 0),
        logical_size: (0, 0),
        pixel_size: (0, 0),
    }
}

pub fn blank() -> (r: OutputInfo)
    ensures
        r@ == blank_view(),
{
    OutputInfo {
        name: String::new(),
        description: String::new(),
        logical_pos: (0, 0),
        logical_size: (0, 0),
        pixel_size: (0, 0),
    }
}

/// What the compositor says of one output.
pub enum OutputEvent {
    /// `wl_output.name`.
    Name(String),
    /// `wl_output.description`.
    Description(String),
    /// `wl_output.mode`; `current`: the mode in use.
    Mode { current: bool, width: i32, height: i32 },
    /// `xdg_output.logical_position`.
    LogicalPosition(i32, i32),
    /// `xdg_output.logical_size`.
    LogicalSize(i32, i32),
    /// `xdg_output.name`.
    XdgName(String),
    /// `xdg_output.description`.
    XdgDescription(String),
}

/// An event applied: `wl_output`'s name and description only fill what is
/// still empty, a mode counts when it is the current one or nothing is known
/// yet, and `xdg_output` always has the last word.
pub open spec fn spec_apply(o: OutputView, e: OutputEvent) -> OutputView {
    match e {
        OutputEvent::Name(n) => if o.name.len() == 0 {
            OutputView { name: n@, ..o }
        } else {
            o
        },
        OutputEvent::Description(d) => if o.description.len() == 0 {
            OutputView { description: d@, ..o }
        } else {
            o
        },
        OutputEvent::Mode { current, width, height } => if current || o.pixel_size == (0i32, 0i32) {
            OutputView { pixel_size: (width, height), ..o }
        } else {
            o
        },
        OutputEvent::LogicalPosition(x, y) => OutputView { logical_pos: (x, y), ..o },
        OutputEvent::LogicalSize(w, h) => OutputView { logical_size: (w, h), ..o },
        OutputEvent::XdgName(n) => OutputView { name: n@, ..o },
        OutputEvent::XdgDescription(d) => OutputView { description: d@, ..o },
    }
}

pub fn apply(o: &mut OutputInfo, e: &OutputEvent)
    ensures
        final(o)@ == spec_apply(old(o)@, *e),
{
    match e {
        OutputEvent::Name(n) => {
            if o.name.as_str().is_empty() {
                o.name = n.clone();
            }
        },
        OutputEvent::Description(d) => {
            if o.description.as_str().is_empty() {
                o.description = d.clone();
            }
        },
        OutputEvent::Mode { current, width, height } => {
            if *current || (o.pixel_size.0 == 0 && o.pixel_size.1 == 0) {
                o.pixel_size = (*width, *height);
            }
        },
        OutputEvent::LogicalPosition(x, y) => {
            o.logical_pos = (*x, *y);
        },
        OutputEvent::LogicalSize(w, h) => {
            o.logical_size = (*w, *h);
        },
        OutputEvent::XdgName(n) => {
            o.name = n.clone();
        },
        OutputEvent::XdgDescription(d) => {
            o.description = d.clone();
        },
    }
}

/// `n` outputs nothing has been heard of.
pub open spec fn blanks(n: nat) -> Seq<OutputView> {
    Seq::new(n, |i: int| blank_view())
}

/// `n` outputs after the events, in order; an event for an output past the
/// last is ignored.
pub open spec fn spec_outputs(n: nat, evs: Seq<(usize, OutputEvent)>) -> Seq<OutputView>
    decreases evs.len(),
{
    if evs.len() == 0 {
        blanks(n)
    } else {
        let prev = spec_outputs(n, evs.drop_last());
        let (i, e) = evs.last();
        if i < prev.len() {
            prev.update(i as int, spec_apply(prev[i as int], e))
        } else {
            prev
        }
    }
}

proof fn lemma_outputs_len(n: nat, evs: Seq<(usize, OutputEvent)>)
    ensures
        spec_outputs(n, evs).len() == n,
    decreases evs.len(),
{
    if evs.len() > 0 {
        lemma_outputs_len(n, evs.drop_last());
    }
}

/// The views of a list of outputs.
pub open spec fn views(v: Seq<OutputInfo>) -> Seq<OutputView> {
    v.map_values(|o: OutputInfo| o@)
}

/// The session's outputs: `Ok` carries how many `wl_output` globals were
/// bound and every event received for them (by index); on a session without
/// Wayland the list is empty (the viewer then falls back to the geometry the
/// portal reports per stream).
pub fn list(session: Result<(usize, Vec<(usize, OutputEvent)>), String>) -> (r: Vec<OutputInfo>)
    ensures
        match session {
            Ok((n, evs)) => views(r@) == spec_outputs(n as nat, evs@),
            Err(_) => r@.len() == 0,
        },
{
    let (n, evs) = match session {
        Ok(found) => found,
        Err(_) => return Vec::new(),
    };
    let mut outs: Vec<OutputInfo> = Vec::new();
    let mut k: usize = 0;
    while k < n
        invariant
            0 <= k <= n,
            views(outs@) == blanks(k as nat),
        decreases n - k,
    {
        let b = blank();
        let ghost before = outs@;
        outs.push(b);
        assert(views(outs@) =~= views(before).push(b@));
        assert(blanks((k + 1) as nat) =~= blanks(k as nat).push(blank_view()));
        k += 1;
    }
    assert(evs@.take(0) =~= Seq::<(usize, OutputEvent)>::empty());
    let mut j: usize = 0;
    while j < evs.len()
        invariant
            0 <= j <= evs@.len(),
            views(outs@) == spec_outputs(n as nat, evs@.take(j as int)),
        decreases evs@.len() - j,
    {
        proof {
            lemma_outputs_len(n as nat, evs@.take(j as int));
            assert(evs@.take(j + 1).drop_last() =~= evs@.take(j as int));
        }
        let idx = evs[j].0;
        if idx < outs.len() {
            let ghost before = outs@;
            let mut o = blank();
            std::mem::swap(&mut o, &mut outs[idx]);
            apply(&mut o, &evs[j].1);
            outs.set(idx, o);
            assert(views(outs@) =~= views(before).update(idx as int, spec_apply(before[idx as int]@, evs@[j as int].1)));
        } else {
            assert(views(outs@).len() == outs@.len());
        }
        j += 1;
    }
    assert(evs@.take(j as int) =~= evs@);
    outs
}

/// The desktop the outputs span, in logical pixels: origin (the smallest
/// corner) and extent; a unit square with no output.
pub open spec fn spec_bounds(v: Seq<OutputView>) -> ((int, int), (int, int)) {
    if v.len() == 0 {
        ((0, 0), (1, 1))
    } else {
        let x0 = min_of(v, |o: OutputView| o.logical_pos.0 as int);
        let y0 = min_of(v, |o: OutputView| o.logical_pos.1 as int);
        let x1 = max_of(v, |o: OutputView| o.logical_pos.0 + o.logical_size.0);
        let y1 = max_of(v, |o: OutputView| o.logical_pos.1 + o.logical_size.1);
        ((x0, y0), (x1 - x0, y1 - y0))
    }
}

/// The least of `f` over a nonempty list.
pub open spec fn min_of(v: Seq<OutputView>, f: spec_fn(OutputView) -> int) -> int
    decreases v.len(),
{
    if v.len() <= 1 {
        f(v[0])
    } else {
        let m = min_of(v.drop_last(), f);
        if f(v.last()) < m {
            f(v.last())
        } else {
            m
        }
    }
}

/// The greatest of `f` over a nonempty list.
pub open spec fn max_of(v: Seq<OutputView>, f: spec_fn(OutputView) -> int) -> int
    decreases v.len(),
{
    if v.len() <= 1 {
        f(v[0])
    } else {
        let m = max_of(v.drop_last(), f);
        if f(v.last()) > m {
            f(v.last())
        } else {
            m
        }
    }
}

proof fn lemma_min_max(v: Seq<OutputView>, f: spec_fn(OutputView) -> int, k: int)
    requires
        0 <= k < v.len(),
    ensures
        min_of(v, f) <= f(v[k]) <= max_of(v, f),
    decreases v.len(),
{
    if v.len() > 1 && k < v.len() - 1 {
        lemma_min_max(v.drop_last(), f, k);
    } else if v.len() > 1 {
        assert(v.last() == v[k]);
    }
}

/// Every monitor lies inside the desktop the pointer maps onto.
pub proof fn outputs_inside_bounds(v: Seq<OutputView>, k: int)
    requires
        0 <= k < v.len(),
    ensures
        ({
            let ((x, y), (w, h)) = spec_bounds(v);
            let o = v[k];
            &&& x <= o.logical_pos.0 && o.logical_pos.0 + o.logical_size.0 <= x + w
            &&& y <= o.logical_pos.1 && o.logical_pos.1 + o.logical_size.1 <= y + h
        }),
{
    lemma_min_max(v, |o: OutputView| o.logical_pos.0 as int, k);
    lemma_min_max(v, |o: OutputView| o.logical_pos.1 as int, k);
    lemma_min_max(v, |o: OutputView| o.logical_pos.0 + o.logical_size.0, k);
    lemma_min_max(v, |o: OutputView| o.logical_pos.1 + o.logical_size.1, k);
}

/// The desktop rectangle the absolute pointer maps onto.
pub fn desktop_bounds(outputs: &Vec<OutputInfo>) -> (r: ((i64, i64), (i64, i64)))
    ensures
        r.0.0 == spec_bounds(views(outputs@)).0.0,
        r.0.1 == spec_bounds(views(outputs@)).0.1,
        r.1.0 == spec_bounds(views(outputs@)).1.0,
        r.1.1 == spec_bounds(views(outputs@)).1.1,
{
    if outputs.len() == 0 {
        return ((0, 0), (1, 1));
    }
    let ghost v = views(outputs@);
    let ghost fx0 = |o: OutputView| o.logical_pos.0 as int;
    let ghost fy0 = |o: OutputView| o.logical_pos.1 as int;
    let ghost fx1 = |o: OutputView| o.logical_pos.0 + o.logical_size.0;
    let ghost fy1 = |o: OutputView| o.logical_pos.1 + o.logical_size.1;
    let o0 = &outputs[0];
    let mut x0: i64 = o0.logical_pos.0 as i64;
    let mut y0: i64 = o0.logical_pos.1 as i64;
    let mut x1: i64 = o0.logical_pos.0 as i64 + o0.logical_size.0 as i64;
    let mut y1: i64 = o0.logical_pos.1 as i64 + o0.logical_size.1 as i64;
    let mut i: usize = 1;
    while i < outputs.len()
        invariant
            1 <= i <= outputs@.len(),
            v == views(outputs@),
            fx0 == (|o: OutputView| o.logical_pos.0 as int),
            fy0 == (|o: OutputView| o.logical_pos.1 as int),
            fx1 == (|o: OutputView| o.logical_pos.0 + o.logical_size.0),
            fy1 == (|o: OutputView| o.logical_pos.1 + o.logical_size.1),
            x0 == min_of(v.take(i as int), fx0),
            y0 == min_of(v.take(i as int), fy0),
            x1 == max_of(v.take(i as int), fx1),
            y1 == max_of(v.take(i as int), fy1),
            i32::MIN <= x0 <= i32::MAX,
            i32::MIN <= y0 <= i32::MAX,
            2 * i32::MIN <= x1 <= 2 * i32::MAX,
            2 * i32::MIN <= y1 <= 2 * i32::MAX,
        decreases outputs@.len() - i,
    {
        proof {
            assert(v.take(i + 1).drop_last() =~= v.take(i as int));
            assert(v.take(i + 1).last() == outputs@[i as int]@);
        }
        let o = &outputs[i];
        let ox0 = o.logical_pos.0 as i64;
        let oy0 = o.logical_pos.1 as i64;
        let ox1 = o.logical_pos.0 as i64 + o.logical_size.0 as i64;
        let oy1 = o.logical_pos.1 as i64 + o.logical_size.1 as i64;
        if ox0 < x0 {
            x0 = ox0;
        }
        if oy0 < y0 {
            y0 = oy0;
        }
        if ox1 > x1 {
            x1 = ox1;
        }
        if oy1 > y1 {
            y1 = oy1;
        }
        i += 1;
    }
    assert(v.take(i as int) =~= v);
    ((x0, y0), (x1 - x0, y1 - y0))
}

/// The settings row's detail for a monitor: `W×H`, after the description
/// and ` · ` when it has one.
pub open spec fn spec_detail(o: OutputView) -> Seq<char> {
    let size = decimal(o.logical_size.0 as int) + seq!['×'] + decimal(o.logical_size.1 as int);
    if o.description.len() == 0 {
        size
    } else {
        o.description + " · "@ + size
    }
}

pub fn output_detail(o: &OutputInfo) -> (r: String)
    ensures
        r@ == spec_detail(o@),
{
    let mut size = int_text(o.logical_size.0 as i64);
    size.push('×');
    let h = int_text(o.logical_size.1 as i64);
    extend_chars(&mut size, &h);
    if o.description.as_str().is_empty() {
        string_of(&size)
    } else {
        let mut d = chars_of(o.description.as_str());
        let sep = chars_of(" · ");
        extend_chars(&mut d, &sep);
        extend_chars(&mut d, &size);
        string_of(&d)
    }
}

/// One screen the portal approved: its PipeWire node and what the portal
/// says of the monitor.
#[derive(Debug)]
pub struct StreamInfo {
    pub node_id: u32,
    /// Logical position of the captured monitor in desktop coordinates.
    pub position: Option<(i32, i32)>,
    /// Logical size of the captured monitor.
    pub size: Option<(i32, i32)>,
    /// Connector name (e.g. `DP-3`) when the portal reports one.
    pub mapping_id: Option<String>,
}

impl Clone for StreamInfo {
    fn clone(&self) -> (r: Self)
        ensures
            r.node_id == self.node_id,
            r.position == self.position,
            r.size == self.size,
            r.mapping_id == self.mapping_id,
    {
        StreamInfo {
            node_id: self.node_id,
            position: self.position,
            size: self.size,
            mapping_id: match &self.mapping_id {
                Some(m) => Some(m.clone()),
                None => None,
            },
        }
    }
}

/// The stream names this output by connector.
pub open spec fn by_name(st: StreamInfo, o: OutputView) -> bool {
    match st.mapping_id {
        Some(m) => m@ == o.name,
        None => false,
    }
}

/// The stream has this output's rectangle.
pub open spec fn by_geometry(st: StreamInfo, o: OutputView) -> bool {
    st.position == Some(o.logical_pos) && st.size == Some(o.logical_size)
}

/// The first output (index) satisfying `f`, if any.
pub open spec fn first_where(v: Seq<OutputView>, f: spec_fn(OutputView) -> bool) -> Option<int> {
    if exists|k: int| 0 <= k < v.len() && f(v[k]) {
        Some(choose|k: int| 0 <= k < v.len() && f(v[k]) && forall|j: int| 0 <= j < k ==> !f(v[j]))
    } else {
        None
    }
}

/// The output a stream shows: by connector name, else by rectangle, else the
/// only output when there is one output and one stream.
pub open spec fn spec_stream_output(st: StreamInfo, v: Seq<OutputView>, streams: nat) -> Option<int> {
    match first_where(v, |o: OutputView| by_name(st, o)) {
        Some(k) => Some(k),
        None => match first_where(v, |o: OutputView| by_geometry(st, o)) {
            Some(k) => Some(k),
            None => if v.len() == 1 && streams == 1 {
                Some(0)
            } else {
                None
            },
        },
    }
}

proof fn lemma_first_where(v: Seq<OutputView>, f: spec_fn(OutputView) -> bool, k: int)
    requires
        0 <= k < v.len(),
        f(v[k]),
        forall|j: int| 0 <= j < k ==> !f(v[j]),
    ensures
        first_where(v, f) == Some(k),
{
    let c = choose|c: int| 0 <= c < v.len() && f(v[c]) && forall|j: int| 0 <= j < c ==> !f(v[j]);
    if c < k {
        assert(!f(v[c]));
    }
    if k < c {
        assert(!f(v[k]));
    }
}

fn find_by_name(st: &StreamInfo, outputs: &Vec<OutputInfo>) -> (r: Option<usize>)
    ensures
        r == match first_where(views(outputs@), |o: OutputView| by_name(*st, o)) {
            Some(k) => Some(k as usize),
            None => None::<usize>,
        },
{
    let ghost f = |o: OutputView| by_name(*st, o);
    let m = match &st.mapping_id {
        Some(m) => m,
        None => return None,
    };
    let mut k: usize = 0;
    while k < outputs.len()
        invariant
            0 <= k <= outputs@.len(),
            st.mapping_id == Some(*m),
            f == (|o: OutputView| by_name(*st, o)),
            forall|j: int| 0 <= j < k ==> !f(views(outputs@)[j]),
        decreases outputs@.len() - k,
    {
        if str_eq(m.as_str(), outputs[k].name.as_str()) {
            proof {
                lemma_first_where(views(outputs@), f, k as int);
            }
            return Some(k);
        }
        k += 1;
    }
    None
}

fn find_by_geometry(st: &StreamInfo, outputs: &Vec<OutputInfo>) -> (r: Option<usize>)
    ensures
        r == match first_where(views(outputs@), |o: OutputView| by_geometry(*st, o)) {
            Some(k) => Some(k as usize),
            None => None::<usize>,
        },
{
    let ghost f = |o: OutputView| by_geometry(*st, o);
    let mut k: usize = 0;
    while k < outputs.len()
        invariant
            0 <= k <= outputs@.len(),
            f == (|o: OutputView| by_geometry(*st, o)),
            forall|j: int| 0 <= j < k ==> !f(views(outputs@)[j]),
        decreases outputs@.len() - k,
    {
        let o = &outputs[k];
        let pos_ok = match st.position {
            Some(p) => p.0 == o.logical_pos.0 && p.1 == o.logical_pos.1,
            None => false,
        };
        let size_ok = match st.size {
            Some(z) => z.0 == o.logical_size.0 && z.1 == o.logical_size.1,
            None => false,
        };
        if pos_ok && size_ok {
            proof {
                lemma_first_where(views(outputs@), f, k as int);
            }
            return Some(k);
        }
        k += 1;
    }
    None
}

/// Which output a stream shows (see `spec_stream_output`).
pub fn stream_output(st: &StreamInfo, outputs: &Vec<OutputInfo>, streams: usize) -> (r: Option<usize>)
    ensures
        r == match spec_stream_output(*st, views(outputs@), streams as nat) {
            Some(k) => Some(k as usize),
            None => None::<usize>,
        },
{
    match find_by_name(st, outputs) {
        Some(k) => Some(k),
        None => match find_by_geometry(st, outputs) {
            Some(k) => Some(k),
            None => if outputs.len() == 1 && streams == 1 {
                Some(0)
            } else {
                None
            },
        },
    }
}

/// A stream with no output found: named by its connector, else `Screen n`
/// (counting from one); its size (1920×1080 when unknown) as the detail; its
/// rectangle from what the portal says.
pub open spec fn spec_stream_label(st: StreamInfo, i: nat) -> (Seq<char>, Seq<char>, (i32, i32, i32, i32)) {
    let pos = match st.position {
        Some(p) => p,
        None => (0i32, 0i32),
    };
    let size = match st.size {
        Some(z) => z,
        None => (1920i32, 1080i32),
    };
    let name = match st.mapping_id {
        Some(m) => m@,
        None => "Screen "@ + decimal(i + 1int),
    };
    (name, decimal(size.0 as int) + seq!['×'] + decimal(size.1 as int), (pos.0, pos.1, size.0, size.1))
}

pub fn stream_label(st: &StreamInfo, i: usize) -> (r: (String, String, (i32, i32, i32, i32)))
    requires
        i < usize::MAX,
        i + 1 <= i64::MAX,
    ensures
        (r.0@, r.1@, r.2) == spec_stream_label(*st, i as nat),
{
    let pos = match st.position {
        Some(p) => p,
        None => (0i32, 0i32),
    };
    let size = match st.size {
        Some(z) => z,
        None => (1920i32, 1080i32),
    };
    let name = match &st.mapping_id {
        Some(m) => m.clone(),
        None => {
            let mut n = chars_of("Screen ");
            let d = int_text((i + 1) as i64);
            extend_chars(&mut n, &d);
            string_of(&n)
        },
    };
    let mut detail = int_text(size.0 as i64);
    detail.push('×');
    let h = int_text(size.1 as i64);
    extend_chars(&mut detail, &h);
    (name, string_of(&detail), (pos.0, pos.1, size.0, size.1))
}

} // verus!
