//! OSC control: the wire format (messages, typed arguments, bundles) and the
//! mapping from addresses — `/monadeck/...` or VRChat avatar parameters — to
//! overlay commands. The UDP listener that feeds it lives with the program.
use vstd::prelude::*;
use vstd::utf8::*;

use crate::text::{
    ascii_lower, ascii_lower_seq, char_ascii_lower, chars_eq, chars_of, is_prefix, is_prefix_ci, lower_ascii_chars,
    skip_chars, starts_with, starts_with_ci, string_of, trim, trim_chars,
};


verus! {

/// One OSC argument. Floats are carried as their IEEE-754 bit patterns
/// (`f` as 32-bit, `d` as 64-bit), exactly as they came off the wire.
#[derive(Clone, Debug, PartialEq)]
pub enum Arg {
    Int(i64),
    Float32(u32),
    Float64(u64),
    Str(String),
    Bool(bool),
    Nil,
}

/// What an argument holds, with its text as characters.
pub ghost enum ArgModel {
    Int(i64),
    Float32(u32),
    Float64(u64),
    Str(Seq<char>),
    Bool(bool),
    Nil,
}

impl View for Arg {
    type V = ArgModel;

    open spec fn view(&self) -> ArgModel {
        match self {
            Arg::Int(i) => ArgModel::Int(*i),
            Arg::Float32(b) => ArgModel::Float32(*b),
            Arg::Float64(b) => ArgModel::Float64(*b),
            Arg::Str(s) => ArgModel::Str(s@),
            Arg::Bool(b) => ArgModel::Bool(*b),
            Arg::Nil => ArgModel::Nil,
        }
    }
}

impl DeepView for Arg {
    type V = ArgModel;

    open spec fn deep_view(&self) -> ArgModel {
        self@
    }
}

/// A decoded message: its address and arguments.
pub type Message = (String, Vec<Arg>);

// --- wire format -------------------------------------------------------------------

/// `n` rounded up to a multiple of four.
pub open spec fn ceil4(n: int) -> int {
    (n + 3) / 4 * 4
}

/// Big-endian 32-bit word at `i`.
pub open spec fn be32(b: Seq<u8>, i: int) -> int {
    b[i] as int * 16777216 + b[i + 1] as int * 65536 + b[i + 2] as int * 256 + b[i + 3] as int
}

/// Big-endian 64-bit word at `i`.
pub open spec fn be64(b: Seq<u8>, i: int) -> int {
    be32(b, i) * 4294967296 + be32(b, i + 4)
}

/// A 32-bit two's-complement word as an integer.
pub open spec fn signed32(v: int) -> int {
    if v >= 0x8000_0000 {
        v - 0x1_0000_0000
    } else {
        v
    }
}

/// A 64-bit two's-complement word as an integer.
pub open spec fn signed64(v: int) -> int {
    if v >= 0x8000_0000_0000_0000 {
        v - 0x1_0000_0000_0000_0000
    } else {
        v
    }
}

/// Index of the first NUL at or after `i`, or -1.
pub open spec fn find_nul(b: Seq<u8>, i: int) -> int
    decreases b.len() - i,
{
    if i < 0 || i >= b.len() {
        -1
    } else if b[i] == 0 {
        i
    } else {
        find_nul(b, i + 1)
    }
}

proof fn lemma_find_nul(b: Seq<u8>, i: int)
    ensures
        find_nul(b, i) == -1 || (0 <= i <= find_nul(b, i) < b.len() && b[find_nul(b, i)] == 0),
    decreases b.len() - i,
{
    if 0 <= i < b.len() && b[i] != 0 {
        lemma_find_nul(b, i + 1);
    }
}

/// A NUL-terminated UTF-8 string at `at`, padded to four bytes: the string
/// and the offset after it (never past the end of the buffer).
pub open spec fn spec_read_str(b: Seq<u8>, at: int) -> Option<(Seq<char>, int)> {
    let e = find_nul(b, at);
    if at < 0 || at > b.len() || e < 0 {
        None
    } else if !valid_utf8(b.subrange(at, e)) {
        None
    } else {
        let next = at + ceil4(e - at + 1);
        Some((decode_utf8(b.subrange(at, e)), if next < b.len() { next } else { b.len() as int }))
    }
}

/// Whether `n` bytes are there to read at `i`.
pub open spec fn has(b: Seq<u8>, i: int, n: int) -> bool {
    0 <= i && i + n <= b.len()
}

/// One type tag applied at offset `i`: the argument it yields (if any) and
/// the offset after it, or `None` when the data is short or the tag unknown.
pub open spec fn spec_tag(b: Seq<u8>, t: char, i: int) -> Option<(Option<ArgModel>, int)> {
    if t == 'i' {
        if has(b, i, 4) { Some((Some(ArgModel::Int(signed32(be32(b, i)) as i64)), i + 4)) } else { None }
    } else if t == 'h' {
        if has(b, i, 8) { Some((Some(ArgModel::Int(signed64(be64(b, i)) as i64)), i + 8)) } else { None }
    } else if t == 'f' {
        if has(b, i, 4) { Some((Some(ArgModel::Float32(be32(b, i) as u32)), i + 4)) } else { None }
    } else if t == 'd' {
        if has(b, i, 8) { Some((Some(ArgModel::Float64(be64(b, i) as u64)), i + 8)) } else { None }
    } else if t == 's' || t == 'S' {
        match spec_read_str(b, i) {
            Some((s, next)) => Some((Some(ArgModel::Str(s)), next)),
            None => None,
        }
    } else if t == 'b' {
        if has(b, i, 4) { Some((None, i + 4 + ceil4(be32(b, i)))) } else { None }
    } else if t == 'T' {
        Some((Some(ArgModel::Bool(true)), i))
    } else if t == 'F' {
        Some((Some(ArgModel::Bool(false)), i))
    } else if t == 'N' {
        Some((Some(ArgModel::Nil), i))
    } else if t == 'I' {
        Some((Some(ArgModel::Int(1)), i))
    } else if t == 't' {
        Some((None, i + 8))
    } else if t == 'c' || t == 'r' || t == 'm' {
        Some((None, i + 4))
    } else {
        None
    }
}

/// `o` with `p` in front of the sequence it holds.
pub open spec fn prepend<A>(p: Seq<A>, o: Option<Seq<A>>) -> Option<Seq<A>> {
    match o {
        Some(s) => Some(p + s),
        None => None,
    }
}

/// The arguments that the tags `tags` read from offset `i` on.
pub open spec fn spec_args(b: Seq<u8>, tags: Seq<char>, i: int) -> Option<Seq<ArgModel>>
    decreases tags.len(),
{
    if tags.len() == 0 {
        Some(Seq::empty())
    } else {
        match spec_tag(b, tags[0], i) {
            None => None,
            Some((a, j)) => {
                let here = match a {
                    Some(x) => seq![x],
                    None => Seq::empty(),
                };
                prepend(here, spec_args(b, tags.drop_first(), j))
            },
        }
    }
}

/// A message: its address (which starts with `/`) and, when a `,`-led type
/// tag string follows, the arguments it describes.
pub open spec fn spec_parse_message(b: Seq<u8>) -> Option<(Seq<char>, Seq<ArgModel>)> {
    match spec_read_str(b, 0) {
        None => None,
        Some((addr, i)) => {
            if addr.len() == 0 || addr[0] != '/' {
                None
            } else if i < b.len() && b[i] == 44 {
                match spec_read_str(b, i) {
                    None => None,
                    Some((tags, next)) => match spec_args(b, tags.drop_first(), next) {
                        None => None,
                        Some(args) => Some((addr, args)),
                    },
                }
            } else {
                Some((addr, Seq::empty()))
            }
        },
    }
}

/// `#bundle\0`.
pub open spec fn is_bundle(b: Seq<u8>) -> bool {
    &&& b.len() >= 8
    &&& b[0] == 35 && b[1] == 98 && b[2] == 117 && b[3] == 110
    &&& b[4] == 100 && b[5] == 108 && b[6] == 101 && b[7] == 0
}

/// The messages of a packet: a bundle's elements flattened (nested bundles
/// too), else the one message it holds, else nothing.
pub open spec fn spec_parse_packet(b: Seq<u8>) -> Seq<(Seq<char>, Seq<ArgModel>)>
    decreases b.len(), b.len() + 1,
{
    if is_bundle(b) {
        spec_bundle(b, 16)
    } else {
        match spec_parse_message(b) {
            Some(m) => seq![m],
            None => Seq::empty(),
        }
    }
}

/// Bundle elements from offset `i` on: a 4-byte size then that many bytes,
/// until the data runs out or an element is empty or overruns.
pub open spec fn spec_bundle(b: Seq<u8>, i: int) -> Seq<(Seq<char>, Seq<ArgModel>)>
    decreases b.len(), b.len() - i + 16,
{
    if i < 16 || i + 4 > b.len() {
        Seq::empty()
    } else {
        let n = be32(b, i);
        if n == 0 || i + 4 + n > b.len() {
            Seq::empty()
        } else {
            spec_parse_packet(b.subrange(i + 4, i + 4 + n)) + spec_bundle(b, i + 4 + n)
        }
    }
}

/// A packet cut short before its address ends (no NUL anywhere) carries
/// no message: nothing is read from it.
pub proof fn unterminated_packets_are_dropped(b: Seq<u8>)
    requires
        forall|k: int| 0 <= k < b.len() ==> b[k] != 0,
    ensures
        spec_parse_packet(b).len() == 0,
{
    lemma_find_nul(b, 0);
    if b.len() >= 8 {
        assert(b[7] != 0);
    }
}

fn read_be32(b: &[u8], i: usize) -> (r: u32)
    requires
        i + 4 <= b@.len(),
    ensures
        r as int == be32(b@, i as int),
{
    (b[i] as u32) * 16777216 + (b[i + 1] as u32) * 65536 + (b[i + 2] as u32) * 256 + (b[i + 3] as u32)
}

fn read_be64(b: &[u8], i: usize) -> (r: u64)
    requires
        i + 8 <= b@.len(),
    ensures
        r as int == be64(b@, i as int),
{
    let n = b.len();
    assert(i + 8 <= n);
    let hi = read_be32(b, i) as u64;
    let lo = read_be32(b, i + 4) as u64;
    hi * 4294967296 + lo
}

fn to_signed32(v: u32) -> (r: i64)
    ensures
        r as int == signed32(v as int),
{
    if v >= 0x8000_0000 {
        (v as i64) - 0x1_0000_0000
    } else {
        v as i64
    }
}

fn to_signed64(v: u64) -> (r: i64)
    ensures
        r as int == signed64(v as int),
{
    if v >= 0x8000_0000_0000_0000 {
        let low = (v - 0x8000_0000_0000_0000) as i64;
        low - 0x7FFF_FFFF_FFFF_FFFF - 1
    } else {
        v as i64
    }
}

/// `std::str::from_utf8`: the text when the bytes are valid UTF-8.
#[verifier::external_body]
pub(crate) fn utf8_str(b: &[u8]) -> (r: Option<&str>)
    ensures
        r is Some <==> valid_utf8(b@),
        r matches Some(s) ==> s@ == decode_utf8(b@),
{
    std::str::from_utf8(b).ok()
}

/// A NUL-terminated string padded to 4 bytes: (string, next offset).
pub fn read_str(buf: &[u8], at: usize) -> (r: Option<(String, usize)>)
    ensures
        match (r, spec_read_str(buf@, at as int)) {
            (Some((s, next)), Some((m, n))) => s@ == m && next as int == n,
            (None, None) => true,
            _ => false,
        },
{
    if at > buf.len() {
        return None;
    }
    let mut e: usize = at;
    while e < buf.len() && buf[e] != 0
        invariant
            at <= e <= buf@.len(),
            find_nul(buf@, at as int) == find_nul(buf@, e as int),
        decreases buf@.len() - e,
    {
        e += 1;
    }
    if e == buf.len() {
        return None;
    }
    let text = match utf8_str(&buf[at..e]) {
        Some(t) => t,
        None => return None,
    };
    let s = text.to_owned();
    let k = e - at + 1;
    let room = buf.len() - at;
    let whole = k / 4 * 4;
    let next = if k % 4 == 0 {
        at + whole
    } else if room - whole > 4 {
        at + whole + 4
    } else {
        buf.len()
    };
    Some((s, next))
}

/// Read position within a message: exact while inside the buffer, and once
/// past its end only known to be past it (every later read fails then).
pub open spec fn pos_ok(len: int, pos: usize, past: bool, sp: int) -> bool {
    &&& sp >= 0
    &&& past == (sp > len)
    &&& !past ==> pos as int == sp
}

/// Advance a read position by `k` bytes.
fn advance(len: usize, pos: usize, past: bool, k: u64, Ghost(sp): Ghost<int>) -> (r: (usize, bool))
    requires
        pos_ok(len as int, pos, past, sp),
    ensures
        pos_ok(len as int, r.0, r.1, sp + k),
{
    if past {
        (pos, true)
    } else if k <= (len - pos) as u64 {
        (pos + k as usize, false)
    } else {
        (pos, true)
    }
}

proof fn lemma_args_step(b: Seq<u8>, all: Seq<char>, k: int, i: int)
    requires
        0 <= k < all.len(),
    ensures
        spec_args(b, all.skip(k), i) == match spec_tag(b, all[k], i) {
            None => None,
            Some((a, j)) => prepend(
                match a {
                    Some(x) => seq![x],
                    None => Seq::<ArgModel>::empty(),
                },
                spec_args(b, all.skip(k + 1), j),
            ),
        },
{
    assert(all.skip(k).drop_first() =~= all.skip(k + 1));
    assert(all.skip(k)[0] == all[k]);
}

proof fn lemma_prepend_assoc<A>(p: Seq<A>, q: Seq<A>, o: Option<Seq<A>>)
    ensures
        prepend(p, prepend(q, o)) == prepend(p + q, o),
{
    if let Some(s) = o {
        assert(p + (q + s) =~= (p + q) + s);
    }
}

/// The arguments described by `tags` (its leading `,` excluded) from `start`.
fn parse_args(buf: &[u8], tags: &Vec<char>, start: usize) -> (r: Option<Vec<Arg>>)
    requires
        start <= buf@.len(),
        tags@.len() >= 1,
    ensures
        match (r, spec_args(buf@, tags@.drop_first(), start as int)) {
            (Some(v), Some(m)) => v.deep_view() == m,
            (None, None) => true,
            _ => false,
        },
{
    let ghost all = tags@.drop_first();
    let mut args: Vec<Arg> = Vec::new();
    let mut pos: usize = start;
    let mut past: bool = false;
    let ghost mut sp: int = start as int;
    let mut k: usize = 1;
    assert(all.skip(0) =~= all);
    while k < tags.len()
        invariant
            1 <= k <= tags@.len(),
            all == tags@.drop_first(),
            pos_ok(buf@.len() as int, pos, past, sp),
            spec_args(buf@, all, start as int) == prepend(args.deep_view(), spec_args(buf@, all.skip(k - 1), sp)),
        decreases tags@.len() - k,
    {
        let t = tags[k];
        proof {
            assert(all[k - 1] == t);
            lemma_args_step(buf@, all, k - 1, sp);
        }
        let ghost before = args.deep_view();
        let mut got: Option<Arg> = None;
        let mut ok = true;
        let ghost mut nsp: int = sp;
        if t == 'i' || t == 'f' || t == 'b' {
            if !past && buf.len() - pos >= 4 {
                let w = read_be32(buf, pos);
                if t == 'i' {
                    got = Some(Arg::Int(to_signed32(w)));
                    let (p2, q2) = advance(buf.len(), pos, past, 4, Ghost(sp));
                    pos = p2;
                    past = q2;
                    proof { nsp = sp + 4; }
                } else if t == 'f' {
                    got = Some(Arg::Float32(w));
                    let (p2, q2) = advance(buf.len(), pos, past, 4, Ghost(sp));
                    pos = p2;
                    past = q2;
                    proof { nsp = sp + 4; }
                } else {
                    let skip: u64 = 4 + ((w as u64) + 3) / 4 * 4;
                    let (p2, q2) = advance(buf.len(), pos, past, skip, Ghost(sp));
                    pos = p2;
                    past = q2;
                    proof { nsp = sp + skip; }
                }
            } else {
                ok = false;
            }
        } else if t == 'h' || t == 'd' {
            if !past && buf.len() - pos >= 8 {
                let w = read_be64(buf, pos);
                if t == 'h' {
                    got = Some(Arg::Int(to_signed64(w)));
                } else {
                    got = Some(Arg::Float64(w));
                }
                let (p2, q2) = advance(buf.len(), pos, past, 8, Ghost(sp));
                pos = p2;
                past = q2;
                proof { nsp = sp + 8; }
            } else {
                ok = false;
            }
        } else if t == 's' || t == 'S' {
            if past {
                ok = false;
            } else {
                match read_str(buf, pos) {
                    Some((s, next)) => {
                        got = Some(Arg::Str(s));
                        pos = next;
                        proof { nsp = next as int; }
                    },
                    None => {
                        ok = false;
                    },
                }
            }
        } else if t == 'T' {
            got = Some(Arg::Bool(true));
        } else if t == 'F' {
            got = Some(Arg::Bool(false));
        } else if t == 'N' {
            got = Some(Arg::Nil);
        } else if t == 'I' {
            got = Some(Arg::Int(1));
        } else if t == 't' {
            let (p2, q2) = advance(buf.len(), pos, past, 8, Ghost(sp));
            pos = p2;
            past = q2;
            proof { nsp = sp + 8; }
        } else if t == 'c' || t == 'r' || t == 'm' {
            let (p2, q2) = advance(buf.len(), pos, past, 4, Ghost(sp));
            pos = p2;
            past = q2;
            proof { nsp = sp + 4; }
        } else {
            ok = false;
        }
        if !ok {
            return None;
        }
        let ghost gm: Option<ArgModel> = if got is Some { Some(got.unwrap()@) } else { None };
        let ghost here: Seq<ArgModel> = if got is Some { seq![got.unwrap()@] } else { Seq::empty() };
        match got {
            Some(a) => {
                args.push(a);
            },
            None => {},
        }
        proof {
            assert(spec_tag(buf@, t, sp) == Some((gm, nsp)));
            assert(args.deep_view() =~= before + here);
            lemma_prepend_assoc(before, here, spec_args(buf@, all.skip(k as int), nsp));
            sp = nsp;
        }
        k += 1;
    }
    proof {
        assert(all.skip(k - 1).len() == 0);
        assert(args.deep_view() + Seq::<ArgModel>::empty() =~= args.deep_view());
    }
    Some(args)
}

/// A message: address and typed arguments (`None` when malformed).
pub fn parse_message(buf: &[u8]) -> (r: Option<Message>)
    ensures
        r.deep_view() == spec_parse_message(buf@),
{
    let (addr, i) = match read_str(buf, 0) {
        Some(x) => x,
        None => return None,
    };
    let ac = chars_of(addr.as_str());
    if ac.len() == 0 || ac[0] != '/' {
        return None;
    }
    if i < buf.len() && buf[i] == 44 {
        let (tags, next) = match read_str(buf, i) {
            Some(x) => x,
            None => return None,
        };
        let tc = chars_of(tags.as_str());
        proof {
            let e = find_nul(buf@, i as int);
            lemma_find_nul(buf@, i as int);
            assert(e != i as int);
            assert(buf@.subrange(i as int, e).len() > 0);
            assert(decode_utf8(buf@.subrange(i as int, e)).len() > 0);
        }
        match parse_args(buf, &tc, next) {
            Some(args) => Some((addr, args)),
            None => None,
        }
    } else {
        Some((addr, Vec::new()))
    }
}

fn is_bundle_header(buf: &[u8]) -> (r: bool)
    ensures
        r == is_bundle(buf@),
{
    buf.len() >= 8 && buf[0] == 35 && buf[1] == 98 && buf[2] == 117 && buf[3] == 110 && buf[4] == 100
        && buf[5] == 108 && buf[6] == 101 && buf[7] == 0
}

/// Messages in a packet (a bundle is flattened; nested bundles too).
pub fn parse_packet(buf: &[u8]) -> (r: Vec<Message>)
    ensures
        r.deep_view() == spec_parse_packet(buf@),
    decreases buf@.len(),
{
    let mut out: Vec<Message> = Vec::new();
    if is_bundle_header(buf) {
        let mut i: usize = 16;
        while i <= buf.len() && buf.len() - i >= 4
            invariant_except_break
                16 <= i,
                spec_bundle(buf@, 16) == out.deep_view() + spec_bundle(buf@, i as int),
            ensures
                spec_bundle(buf@, 16) == out.deep_view(),
            decreases buf@.len() - i,
        {
            let n = read_be32(buf, i) as usize;
            i += 4;
            if n == 0 || n > buf.len() - i {
                proof {
                    assert(spec_bundle(buf@, i - 4) == Seq::<(Seq<char>, Seq<ArgModel>)>::empty());
                    assert(out.deep_view() + Seq::<(Seq<char>, Seq<ArgModel>)>::empty() =~= out.deep_view());
                }
                break;
            }
            let inner = parse_packet(&buf[i..i + n]);
            let ghost before = out.deep_view();
            let mut inner = inner;
            out.append(&mut inner);
            proof {
                assert(out.deep_view() =~= before + spec_parse_packet(buf@.subrange(i as int, i + n)));
                assert(spec_bundle(buf@, i - 4) == spec_parse_packet(buf@.subrange(i as int, i + n)) + spec_bundle(buf@, i + n));
                assert(before + (spec_parse_packet(buf@.subrange(i as int, i + n)) + spec_bundle(buf@, i + n))
                    =~= out.deep_view() + spec_bundle(buf@, i + n));
            }
            i += n;
        }
        proof {
            if !(i <= buf.len() && buf.len() - i >= 4) {
            }
        }
    } else {
        match parse_message(buf) {
            Some(m) => out.push(m),
            None => {},
        }
        proof {
            assert(out.deep_view() =~= spec_parse_packet(buf@));
        }
    }
    out
}

// --- mapping -------------------------------------------------------------------

/// An overlay action an OSC address asks for. `None` in a toggle flips it.
#[derive(Clone, Debug, PartialEq)]
pub enum Cmd {
    Watch(Option<bool>),
    WatchMini(Option<bool>),
    Dashboard(Option<bool>),
    Screens(Option<bool>),
    Keyboard(Option<bool>),
    Notify { title: String, body: String },
}

/// A command, with its texts as characters.
pub ghost enum CmdModel {
    Watch(Option<bool>),
    WatchMini(Option<bool>),
    Dashboard(Option<bool>),
    Screens(Option<bool>),
    Keyboard(Option<bool>),
    Notify { title: Seq<char>, body: Seq<char> },
}

impl View for Cmd {
    type V = CmdModel;

    open spec fn view(&self) -> CmdModel {
        match self {
            Cmd::Watch(f) => CmdModel::Watch(*f),
            Cmd::WatchMini(f) => CmdModel::WatchMini(*f),
            Cmd::Dashboard(f) => CmdModel::Dashboard(*f),
            Cmd::Screens(f) => CmdModel::Screens(*f),
            Cmd::Keyboard(f) => CmdModel::Keyboard(*f),
            Cmd::Notify { title, body } => CmdModel::Notify { title: title@, body: body@ },
        }
    }
}

/// A positive `f32` above one half (IEEE-754: non-negative values order as
/// their bit patterns; NaN is above +inf and compares false).
pub open spec fn f32_above_half(bits: u32) -> bool {
    bits < 0x8000_0000 && 0x3F00_0000 < bits && bits <= 0x7F80_0000
}

/// The same for an `f64`.
pub open spec fn f64_above_half(bits: u64) -> bool {
    bits < 0x8000_0000_0000_0000 && 0x3FE0_0000_0000_0000 < bits && bits <= 0x7FF0_0000_0000_0000
}

pub open spec fn word_1() -> Seq<char> { seq!['1'] }
pub open spec fn word_true() -> Seq<char> { seq!['t', 'r', 'u', 'e'] }
pub open spec fn word_on() -> Seq<char> { seq!['o', 'n'] }
pub open spec fn word_show() -> Seq<char> { seq!['s', 'h', 'o', 'w'] }
pub open spec fn word_0() -> Seq<char> { seq!['0'] }
pub open spec fn word_false() -> Seq<char> { seq!['f', 'a', 'l', 's', 'e'] }
pub open spec fn word_off() -> Seq<char> { seq!['o', 'f', 'f'] }
pub open spec fn word_hide() -> Seq<char> { seq!['h', 'i', 'd', 'e'] }

/// An argument read as a switch: booleans as they are, numbers non-zero /
/// above one half, and the words 1/true/on/show, 0/false/off/hide in any
/// ASCII case.
pub open spec fn spec_as_bool(a: ArgModel) -> Option<bool> {
    match a {
        ArgModel::Bool(b) => Some(b),
        ArgModel::Int(i) => Some(i != 0),
        ArgModel::Float32(bits) => Some(f32_above_half(bits)),
        ArgModel::Float64(bits) => Some(f64_above_half(bits)),
        ArgModel::Str(s) => {
            let l = ascii_lower_seq(s);
            if l == word_1() || l == word_true() || l == word_on() || l == word_show() {
                Some(true)
            } else if l == word_0() || l == word_false() || l == word_off() || l == word_hide() {
                Some(false)
            } else {
                None
            }
        },
        ArgModel::Nil => None,
    }
}

impl Arg {
    pub fn as_bool(&self) -> (r: Option<bool>)
        ensures
            r == spec_as_bool(self@),
    {
        match self {
            Arg::Bool(b) => Some(*b),
            Arg::Int(i) => Some(*i != 0),
            Arg::Float32(bits) => Some(*bits < 0x8000_0000 && 0x3F00_0000 < *bits && *bits <= 0x7F80_0000),
            Arg::Float64(bits) => Some(
                *bits < 0x8000_0000_0000_0000 && 0x3FE0_0000_0000_0000 < *bits && *bits <= 0x7FF0_0000_0000_0000,
            ),
            Arg::Str(s) => {
                let l = lower_ascii_chars(&chars_of(s.as_str()));
                let w1 = vec!['1'];
                let wt = vec!['t', 'r', 'u', 'e'];
                let wo = vec!['o', 'n'];
                let ws = vec!['s', 'h', 'o', 'w'];
                let w0 = vec!['0'];
                let wf = vec!['f', 'a', 'l', 's', 'e'];
                let wx = vec!['o', 'f', 'f'];
                let wh = vec!['h', 'i', 'd', 'e'];
                proof {
                    assert(w1@ =~= word_1());
                    assert(wt@ =~= word_true());
                    assert(wo@ =~= word_on());
                    assert(ws@ =~= word_show());
                    assert(w0@ =~= word_0());
                    assert(wf@ =~= word_false());
                    assert(wx@ =~= word_off());
                    assert(wh@ =~= word_hide());
                }
                let yes = chars_eq(&l, &w1) || chars_eq(&l, &wt) || chars_eq(&l, &wo) || chars_eq(&l, &ws);
                let no = chars_eq(&l, &w0) || chars_eq(&l, &wf) || chars_eq(&l, &wx) || chars_eq(&l, &wh);
                if yes {
                    Some(true)
                } else if no {
                    Some(false)
                } else {
                    None
                }
            },
            Arg::Nil => None,
        }
    }
}

/// `char::is_ascii_alphanumeric`.
pub open spec fn is_ascii_alnum(c: char) -> bool {
    ('0' <= c && c <= '9') || ('a' <= c && c <= 'z') || ('A' <= c && c <= 'Z')
}

/// An address tail normalised: ASCII letters and digits only, lower case
/// (`/watch/mini`, `Watch_Mini`, `WatchMini` all give `watchmini`).
pub open spec fn key_chars(s: Seq<char>) -> Seq<char>
    decreases s.len(),
{
    if s.len() == 0 {
        Seq::empty()
    } else {
        let r = key_chars(s.drop_last());
        if is_ascii_alnum(s.last()) {
            r.push(ascii_lower(s.last()))
        } else {
            r
        }
    }
}

pub open spec fn monadeck_path() -> Seq<char> {
    seq!['/', 'm', 'o', 'n', 'a', 'd', 'e', 'c', 'k']
}

pub open spec fn avatar_path() -> Seq<char> {
    seq!['/', 'a', 'v', 'a', 't', 'a', 'r', '/', 'p', 'a', 'r', 'a', 'm', 'e', 't', 'e', 'r', 's', '/']
}

pub open spec fn monadeck_word() -> Seq<char> {
    seq!['m', 'o', 'n', 'a', 'd', 'e', 'c', 'k']
}

/// The normalised command key of an address: the rest after `/monadeck`,
/// or after `/avatar/parameters/` and a case-blind `monadeck`.
pub open spec fn spec_key(addr: Seq<char>) -> Option<Seq<char>> {
    if is_prefix(monadeck_path(), addr) {
        Some(key_chars(addr.skip(9)))
    } else if is_prefix(avatar_path(), addr) && is_prefix_ci(monadeck_word(), addr.skip(19)) {
        Some(key_chars(addr.skip(27)))
    } else {
        None
    }
}

/// The non-blank string arguments, trimmed, in order.
pub open spec fn notify_texts(args: Seq<ArgModel>) -> Seq<Seq<char>>
    decreases args.len(),
{
    if args.len() == 0 {
        Seq::empty()
    } else {
        let r = notify_texts(args.drop_last());
        match args.last() {
            ArgModel::Str(s) => if trim(s).len() > 0 { r.push(trim(s)) } else { r },
            _ => r,
        }
    }
}

/// Which overlay action an address names, if any. The first argument (as a
/// switch) sets the state; `notify` / `toast` take a title and an optional
/// body from the non-blank string arguments and need the title.
pub open spec fn spec_command(addr: Seq<char>, args: Seq<ArgModel>) -> Option<CmdModel> {
    match spec_key(addr) {
        None => None,
        Some(k) => {
            let flag = if args.len() > 0 { spec_as_bool(args[0]) } else { None };
            if k == seq!['w', 'a', 't', 'c', 'h'] {
                Some(CmdModel::Watch(flag))
            } else if k == seq!['w', 'a', 't', 'c', 'h', 'm', 'i', 'n', 'i'] || k == seq![
                'm',
                'i',
                'n',
                'i',
                'w',
                'a',
                't',
                'c',
                'h',
            ] || k == seq!['m', 'i', 'n', 'i', 'm', 'a', 'l', 'w', 'a', 't', 'c', 'h'] {
                Some(CmdModel::WatchMini(flag))
            } else if k == seq!['d', 'a', 's', 'h', 'b', 'o', 'a', 'r', 'd'] {
                Some(CmdModel::Dashboard(flag))
            } else if k == seq!['s', 'c', 'r', 'e', 'e', 'n', 's'] || k == seq!['d', 'e', 's', 'k', 't', 'o', 'p'] {
                Some(CmdModel::Screens(flag))
            } else if k == seq!['k', 'e', 'y', 'b', 'o', 'a', 'r', 'd'] {
                Some(CmdModel::Keyboard(flag))
            } else if k == seq!['n', 'o', 't', 'i', 'f', 'y'] || k == seq!['t', 'o', 'a', 's', 't'] {
                let t = notify_texts(args);
                if t.len() == 0 {
                    None
                } else {
                    Some(CmdModel::Notify { title: t[0], body: if t.len() > 1 { t[1] } else { Seq::empty() } })
                }
            } else {
                None
            }
        },
    }
}

/// An avatar parameter names the same control as the `/monadeck` address
/// with the same tail: `/avatar/parameters/MonadeckWatch` (any ASCII case of
/// `Monadeck`) does what `/monadeck/watch` does, for any arguments.
pub proof fn avatar_parameters_alias_addresses(w: Seq<char>, tail: Seq<char>, args: Seq<ArgModel>)
    requires
        w.len() == 8,
        ascii_lower_seq(w) == ascii_lower_seq(monadeck_word()),
    ensures
        spec_command(avatar_path() + w + tail, args) == spec_command(monadeck_path() + tail, args),
{
    let a = avatar_path() + w + tail;
    let m = monadeck_path() + tail;
    assert(m.take(9) =~= monadeck_path());
    assert(m.skip(9) =~= tail);
    assert(a[1] != monadeck_path()[1]);
    assert(a.take(19) =~= avatar_path());
    assert(a.skip(19).take(8) =~= w);
    assert(a.skip(27) =~= tail);
}

/// The first argument read as a switch, `None` without arguments.
pub open spec fn first_switch(args: Seq<ArgModel>) -> Option<bool> {
    if args.len() > 0 {
        spec_as_bool(args[0])
    } else {
        None
    }
}

/// Each `/monadeck` control address asks for its own control, carrying the
/// first argument as a switch: `/monadeck/watch` the watch,
/// `/monadeck/watch/mini` the minimal watch, `/monadeck/dashboard` the
/// dashboard, `/monadeck/screens` (or `/monadeck/desktop`) the desktop
/// screens, `/monadeck/keyboard` the keyboard; and the avatar parameter
/// `MonadeckScreens` the screens too.
pub proof fn control_addresses_name_their_controls(args: Seq<ArgModel>)
    ensures
        spec_command("/monadeck/watch"@, args) == Some(CmdModel::Watch(first_switch(args))),
        spec_command("/monadeck/watch/mini"@, args) == Some(CmdModel::WatchMini(first_switch(args))),
        spec_command("/monadeck/dashboard"@, args) == Some(CmdModel::Dashboard(first_switch(args))),
        spec_command("/monadeck/screens"@, args) == Some(CmdModel::Screens(first_switch(args))),
        spec_command("/monadeck/desktop"@, args) == Some(CmdModel::Screens(first_switch(args))),
        spec_command("/monadeck/keyboard"@, args) == Some(CmdModel::Keyboard(first_switch(args))),
        spec_command("/avatar/parameters/MonadeckScreens"@, args) == Some(CmdModel::Screens(first_switch(args))),
{
    reveal_strlit("/monadeck/watch");
    reveal_strlit("/monadeck/watch/mini");
    reveal_strlit("/monadeck/dashboard");
    reveal_strlit("/monadeck/screens");
    reveal_strlit("/monadeck/desktop");
    reveal_strlit("/monadeck/keyboard");
    reveal_strlit("/avatar/parameters/MonadeckScreens");
    assert("/monadeck/watch"@ =~= monadeck_path() + seq!['/', 'w', 'a', 't', 'c', 'h']);
    assert(key_chars(seq!['/', 'w', 'a', 't', 'c', 'h']) =~= seq!['w', 'a', 't', 'c', 'h']) by {
        reveal_with_fuel(key_chars, 12);
    }
    lemma_monadeck_key(seq!['/', 'w', 'a', 't', 'c', 'h'], seq!['w', 'a', 't', 'c', 'h']);
    assert("/monadeck/watch/mini"@ =~= monadeck_path() + seq!['/', 'w', 'a', 't', 'c', 'h', '/', 'm', 'i', 'n', 'i']);
    assert(key_chars(seq!['/', 'w', 'a', 't', 'c', 'h', '/', 'm', 'i', 'n', 'i']) =~= seq!['w', 'a', 't', 'c', 'h', 'm', 'i', 'n', 'i']) by {
        reveal_with_fuel(key_chars, 12);
    }
    lemma_monadeck_key(seq!['/', 'w', 'a', 't', 'c', 'h', '/', 'm', 'i', 'n', 'i'], seq!['w', 'a', 't', 'c', 'h', 'm', 'i', 'n', 'i']);
    assert("/monadeck/dashboard"@ =~= monadeck_path() + seq!['/', 'd', 'a', 's', 'h', 'b', 'o', 'a', 'r', 'd']);
    assert(key_chars(seq!['/', 'd', 'a', 's', 'h', 'b', 'o', 'a', 'r', 'd']) =~= seq!['d', 'a', 's', 'h', 'b', 'o', 'a', 'r', 'd']) by {
        reveal_with_fuel(key_chars, 12);
    }
    lemma_monadeck_key(seq!['/', 'd', 'a', 's', 'h', 'b', 'o', 'a', 'r', 'd'], seq!['d', 'a', 's', 'h', 'b', 'o', 'a', 'r', 'd']);
    assert("/monadeck/screens"@ =~= monadeck_path() + seq!['/', 's', 'c', 'r', 'e', 'e', 'n', 's']);
    assert(key_chars(seq!['/', 's', 'c', 'r', 'e', 'e', 'n', 's']) =~= seq!['s', 'c', 'r', 'e', 'e', 'n', 's']) by {
        reveal_with_fuel(key_chars, 12);
    }
    lemma_monadeck_key(seq!['/', 's', 'c', 'r', 'e', 'e', 'n', 's'], seq!['s', 'c', 'r', 'e', 'e', 'n', 's']);
    assert("/monadeck/desktop"@ =~= monadeck_path() + seq!['/', 'd', 'e', 's', 'k', 't', 'o', 'p']);
    assert(key_chars(seq!['/', 'd', 'e', 's', 'k', 't', 'o', 'p']) =~= seq!['d', 'e', 's', 'k', 't', 'o', 'p']) by {
        reveal_with_fuel(key_chars, 12);
    }
    lemma_monadeck_key(seq!['/', 'd', 'e', 's', 'k', 't', 'o', 'p'], seq!['d', 'e', 's', 'k', 't', 'o', 'p']);
    assert("/monadeck/keyboard"@ =~= monadeck_path() + seq!['/', 'k', 'e', 'y', 'b', 'o', 'a', 'r', 'd']);
    assert(key_chars(seq!['/', 'k', 'e', 'y', 'b', 'o', 'a', 'r', 'd']) =~= seq!['k', 'e', 'y', 'b', 'o', 'a', 'r', 'd']) by {
        reveal_with_fuel(key_chars, 12);
    }
    lemma_monadeck_key(seq!['/', 'k', 'e', 'y', 'b', 'o', 'a', 'r', 'd'], seq!['k', 'e', 'y', 'b', 'o', 'a', 'r', 'd']);
    let av = "/avatar/parameters/MonadeckScreens"@;
    assert(!is_prefix(monadeck_path(), av)) by {
        assert(av[1] != monadeck_path()[1]);
    }
    assert(av.take(19) =~= avatar_path());
    assert(av.skip(19).take(8) =~= seq!['M', 'o', 'n', 'a', 'd', 'e', 'c', 'k']);
    assert(ascii_lower('M') == 'm');
    assert(ascii_lower_seq(seq!['M', 'o', 'n', 'a', 'd', 'e', 'c', 'k']) =~= monadeck_word());
    assert(ascii_lower_seq(monadeck_word()) =~= monadeck_word());
    assert(av.skip(19).take(monadeck_word().len() as int) =~= seq!['M', 'o', 'n', 'a', 'd', 'e', 'c', 'k']);
    assert(is_prefix_ci(monadeck_word(), av.skip(19)));
    assert(av.skip(27) =~= seq!['S', 'c', 'r', 'e', 'e', 'n', 's']);
    assert(key_chars(seq!['S', 'c', 'r', 'e', 'e', 'n', 's']) =~= seq!['s', 'c', 'r', 'e', 'e', 'n', 's']) by {
        reveal_with_fuel(key_chars, 12);
    }
}

/// A `/monadeck/...` address's key, worked out.
proof fn lemma_monadeck_key(tail: Seq<char>, key: Seq<char>)
    requires
        tail.len() <= 11,
        key_chars(tail) == key,
    ensures
        spec_key(monadeck_path() + tail) == Some(key),
{
    let addr = monadeck_path() + tail;
    assert(addr.take(9) =~= monadeck_path());
    assert(addr.skip(9) =~= tail);
}

fn normalise_key(s: &Vec<char>) -> (r: Vec<char>)
    ensures
        r@ == key_chars(s@),
{
    let mut r: Vec<char> = Vec::new();
    let mut i: usize = 0;
    while i < s.len()
        invariant
            0 <= i <= s.len(),
            r@ == key_chars(s@.take(i as int)),
        decreases s.len() - i,
    {
        let c = s[i];
        proof {
            assert(s@.take(i + 1).drop_last() =~= s@.take(i as int));
        }
        if ('0' <= c && c <= '9') || ('a' <= c && c <= 'z') || ('A' <= c && c <= 'Z') {
            r.push(char_ascii_lower(c));
        }
        i += 1;
    }
    assert(s@.take(i as int) =~= s@);
    r
}

/// The normalised key of an address, if it names a Monadeck control.
pub fn command_key(addr: &Vec<char>) -> (r: Option<Vec<char>>)
    ensures
        r.deep_view() == spec_key(addr@),
{
    let path = vec!['/', 'm', 'o', 'n', 'a', 'd', 'e', 'c', 'k'];
    if starts_with(addr, &path) {
        return Some(normalise_key(&skip_chars(addr, 9)));
    }
    let avatar = vec!['/', 'a', 'v', 'a', 't', 'a', 'r', '/', 'p', 'a', 'r', 'a', 'm', 'e', 't', 'e', 'r', 's', '/'];
    if !starts_with(addr, &avatar) {
        return None;
    }
    let rest = skip_chars(addr, 19);
    let word = vec!['m', 'o', 'n', 'a', 'd', 'e', 'c', 'k'];
    if !starts_with_ci(&rest, &word) {
        return None;
    }
    proof {
        assert(addr@.skip(19).skip(8) =~= addr@.skip(27));
    }
    Some(normalise_key(&skip_chars(&rest, 8)))
}

proof fn lemma_chars_deep(v: Vec<char>)
    ensures
        v.deep_view() == v@,
{
    assert(v.deep_view() =~= v@);
}

fn notify_strings(args: &[Arg]) -> (r: Vec<Vec<char>>)
    ensures
        r.deep_view() == notify_texts(args.deep_view()),
{
    let mut r: Vec<Vec<char>> = Vec::new();
    let mut i: usize = 0;
    while i < args.len()
        invariant
            0 <= i <= args.len(),
            r.deep_view() == notify_texts(args.deep_view().take(i as int)),
        decreases args.len() - i,
    {
        proof {
            assert(args.deep_view().take(i + 1).drop_last() =~= args.deep_view().take(i as int));
            assert(args.deep_view().take(i + 1).last() == args@[i as int]@);
        }
        match &args[i] {
            Arg::Str(s) => {
                let t = trim_chars(&chars_of(s.as_str()));
                if t.len() > 0 {
                    let ghost before = r.deep_view();
                    proof {
                        lemma_chars_deep(t);
                    }
                    r.push(t);
                    assert(r.deep_view() =~= before.push(t@));
                }
            },
            _ => {},
        }
        i += 1;
    }
    assert(args.deep_view().take(i as int) =~= args.deep_view());
    r
}

/// Whether the key is one of the given words.
fn key_in(key: &Vec<char>, words: &Vec<Vec<char>>) -> (r: bool)
    ensures
        r == exists|i: int| 0 <= i < words.len() && key@ == #[trigger] words@[i]@,
{
    let mut i: usize = 0;
    while i < words.len()
        invariant
            0 <= i <= words.len(),
            forall|k: int| 0 <= k < i ==> key@ != #[trigger] words@[k]@,
        decreases words.len() - i,
    {
        if chars_eq(key, &words[i]) {
            return true;
        }
        i += 1;
    }
    false
}

/// Which overlay action an address names, if any.
pub fn command(addr: &str, args: &[Arg]) -> (r: Option<Cmd>)
    ensures
        match r {
            Some(c) => spec_command(addr@, args.deep_view()) == Some(c@),
            None => spec_command(addr@, args.deep_view()) is None,
        },
{
    let ac = chars_of(addr);
    let key = match command_key(&ac) {
        Some(k) => k,
        None => return None,
    };
    proof {
        lemma_chars_deep(key);
    }
    let ghost k = key@;
    assert(spec_key(addr@) == Some(k));
    let flag = if args.len() > 0 {
        args[0].as_bool()
    } else {
        None
    };
    proof {
        if args.len() > 0 {
            assert(args.deep_view()[0] == args@[0]@);
        }
    }
    let w_watch = vec![vec!['w', 'a', 't', 'c', 'h']];
    let w_mini = vec![
        vec!['w', 'a', 't', 'c', 'h', 'm', 'i', 'n', 'i'],
        vec!['m', 'i', 'n', 'i', 'w', 'a', 't', 'c', 'h'],
        vec!['m', 'i', 'n', 'i', 'm', 'a', 'l', 'w', 'a', 't', 'c', 'h'],
    ];
    let w_dash = vec![vec!['d', 'a', 's', 'h', 'b', 'o', 'a', 'r', 'd']];
    let w_screens = vec![vec!['s', 'c', 'r', 'e', 'e', 'n', 's'], vec!['d', 'e', 's', 'k', 't', 'o', 'p']];
    let w_kb = vec![vec!['k', 'e', 'y', 'b', 'o', 'a', 'r', 'd']];
    let w_notify = vec![vec!['n', 'o', 't', 'i', 'f', 'y'], vec!['t', 'o', 'a', 's', 't']];
    proof {
        assert(w_watch@[0]@ =~= seq!['w', 'a', 't', 'c', 'h']);
        assert(w_mini@[0]@ =~= seq!['w', 'a', 't', 'c', 'h', 'm', 'i', 'n', 'i']);
        assert(w_mini@[1]@ =~= seq!['m', 'i', 'n', 'i', 'w', 'a', 't', 'c', 'h']);
        assert(w_mini@[2]@ =~= seq!['m', 'i', 'n', 'i', 'm', 'a', 'l', 'w', 'a', 't', 'c', 'h']);
        assert(w_dash@[0]@ =~= seq!['d', 'a', 's', 'h', 'b', 'o', 'a', 'r', 'd']);
        assert(w_screens@[0]@ =~= seq!['s', 'c', 'r', 'e', 'e', 'n', 's']);
        assert(w_screens@[1]@ =~= seq!['d', 'e', 's', 'k', 't', 'o', 'p']);
        assert(w_kb@[0]@ =~= seq!['k', 'e', 'y', 'b', 'o', 'a', 'r', 'd']);
        assert(w_notify@[0]@ =~= seq!['n', 'o', 't', 'i', 'f', 'y']);
        assert(w_notify@[1]@ =~= seq!['t', 'o', 'a', 's', 't']);
    }
    if key_in(&key, &w_watch) {
        Some(Cmd::Watch(flag))
    } else if key_in(&key, &w_mini) {
        Some(Cmd::WatchMini(flag))
    } else if key_in(&key, &w_dash) {
        Some(Cmd::Dashboard(flag))
    } else if key_in(&key, &w_screens) {
        Some(Cmd::Screens(flag))
    } else if key_in(&key, &w_kb) {
        Some(Cmd::Keyboard(flag))
    } else if key_in(&key, &w_notify) {
        let texts = notify_strings(args);
        if texts.len() == 0 {
            return None;
        }
        proof {
            lemma_chars_deep(texts@[0]);
            assert(texts.deep_view()[0] == texts@[0]@);
        }
        let title = string_of(&texts[0]);
        let body = if texts.len() > 1 {
            proof {
                lemma_chars_deep(texts@[1]);
                assert(texts.deep_view()[1] == texts@[1]@);
            }
            string_of(&texts[1])
        } else {
            String::new()
        };
        Some(Cmd::Notify { title, body })
    } else {
        None
    }
}

impl DeepView for Cmd {
    type V = CmdModel;

    open spec fn deep_view(&self) -> CmdModel {
        self@
    }
}

/// The commands named by a sequence of messages, in order (messages that
/// name none are passed over).
pub open spec fn spec_commands(msgs: Seq<(Seq<char>, Seq<ArgModel>)>) -> Seq<CmdModel>
    decreases msgs.len(),
{
    if msgs.len() == 0 {
        Seq::empty()
    } else {
        let r = spec_commands(msgs.drop_last());
        match spec_command(msgs.last().0, msgs.last().1) {
            Some(c) => r.push(c),
            None => r,
        }
    }
}

/// Every command a packet carries, in order.
pub fn packet_commands(buf: &[u8]) -> (r: Vec<Cmd>)
    ensures
        r.deep_view() == spec_commands(spec_parse_packet(buf@)),
{
    let msgs = parse_packet(buf);
    let mut out: Vec<Cmd> = Vec::new();
    let mut i: usize = 0;
    while i < msgs.len()
        invariant
            0 <= i <= msgs.len(),
            msgs.deep_view() == spec_parse_packet(buf@),
            out.deep_view() == spec_commands(msgs.deep_view().take(i as int)),
        decreases msgs.len() - i,
    {
        proof {
            assert(msgs.deep_view().take(i + 1).drop_last() =~= msgs.deep_view().take(i as int));
            assert(msgs.deep_view().take(i + 1).last() == msgs.deep_view()[i as int]);
        }
        let (addr, args) = &msgs[i];
        match command(addr.as_str(), args.as_slice()) {
            Some(c) => {
                let ghost before = out.deep_view();
                out.push(c);
                assert(out.deep_view() =~= before.push(c@));
            },
            None => {},
        }
        i += 1;
    }
    assert(msgs.deep_view().take(i as int) =~= msgs.deep_view());
    out
}

} // verus!
