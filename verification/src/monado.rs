//! What the Monado link makes of what the service reports: the running game,
//! the app clients the Monado page lists, and each battery-powered device's
//! kind and liveness. Times are milliseconds on a monotonic clock.
use vstd::prelude::*;

use crate::text::{
    ascii_lower_seq, chars_of, contains_chars, contains_seq, lower, lower_ascii_chars, string_of, trim, trim_chars,
    unicode_lower,
};

verus! {

/// What kind of device a battery belongs to.
#[derive(Clone, Copy, Debug, PartialEq, Eq, Structural)]
pub enum BatteryKind {
    Controller,
    Glove,
    Tracker,
    Other,
}

/// Whether a device is live, on but not tracking, or switched off.
#[derive(Clone, Copy, Debug, PartialEq, Eq, Structural)]
pub enum DevState {
    Live,
    /// On, but its pose has been untracked for over a second.
    Lost,
    /// Switched off: the charge is its last reading, not a live one.
    Off,
}

impl Default for DevState {
    fn default() -> (r: Self)
        ensures
            r == DevState::Live,
    {
        DevState::Live
    }
}

/// A running app client (non-overlay session) shown on the Monado page.
#[derive(Clone)]
pub struct ClientInfo {
    pub id: u32,
    pub name: String,
    /// Visible / primary app (the running game), vs a backgrounded session.
    pub is_app: bool,
    /// The currently active/displayed app (Monado "primary").
    pub is_primary: bool,
    /// Whether the link holds this client's controllers frozen.
    pub frozen: bool,
}

/// One client as the service lists it: id, name (`None` when it could not
/// be read) and its state flags.
pub struct ClientReading {
    pub id: u32,
    pub name: Option<String>,
    pub primary: bool,
    pub overlay: bool,
    pub visible: bool,
    pub active: bool,
}

/// Texts equal when ASCII letters are compared without case
/// (`str::eq_ignore_ascii_case`).
pub open spec fn eq_ci(a: Seq<char>, b: Seq<char>) -> bool {
    ascii_lower_seq(a) == ascii_lower_seq(b)
}

pub fn eq_ignore_ascii_case(a: &Vec<char>, b: &Vec<char>) -> (r: bool)
    ensures
        r == eq_ci(a@, b@),
{
    let la = lower_ascii_chars(a);
    let lb = lower_ascii_chars(b);
    if la.len() != lb.len() {
        return false;
    }
    let mut i: usize = 0;
    while i < la.len()
        invariant
            la@ == ascii_lower_seq(a@),
            lb@ == ascii_lower_seq(b@),
            la@.len() == lb@.len(),
            0 <= i <= la@.len(),
            forall|k: int| 0 <= k < i ==> la@[k] == lb@[k],
        decreases la@.len() - i,
    {
        if la[i] != lb[i] {
            return false;
        }
        i += 1;
    }
    assert(la@ =~= lb@);
    true
}

/// A client name worth showing: not blank, and not the library's own
/// connection.
pub open spec fn real_name(n: Seq<char>) -> bool {
    trim(n).len() > 0 && !eq_ci(trim(n), "libmonado"@)
}

pub fn is_real_name(n: &str) -> (r: bool)
    ensures
        r == real_name(n@),
{
    let cs = chars_of(n);
    let t = trim_chars(&cs);
    let own = chars_of("libmonado");
    t.len() > 0 && !eq_ignore_ascii_case(&t, &own)
}

/// The running game: the first primary, non-overlay client with a real name.
pub open spec fn is_running_game(c: ClientReading) -> bool {
    c.primary && !c.overlay && match c.name {
        Some(n) => real_name(n@),
        None => false,
    }
}

pub fn primary_app(clients: &Vec<ClientReading>) -> (r: Option<String>)
    ensures
        match r {
            Some(n) => exists|k: int|
                0 <= k < clients@.len() && #[trigger] is_running_game(clients@[k]) && clients@[k].name
                    == Some(n) && forall|j: int| 0 <= j < k ==> !#[trigger] is_running_game(clients@[j]),
            None => forall|k: int| 0 <= k < clients@.len() ==> !#[trigger] is_running_game(clients@[k]),
        },
{
    let mut i: usize = 0;
    while i < clients.len()
        invariant
            0 <= i <= clients@.len(),
            forall|j: int| 0 <= j < i ==> !#[trigger] is_running_game(clients@[j]),
        decreases clients@.len() - i,
    {
        let c = &clients[i];
        if c.primary && !c.overlay {
            match &c.name {
                Some(n) => {
                    if is_real_name(n.as_str()) {
                        assert(is_running_game(clients@[i as int]));
                        return Some(n.clone());
                    }
                },
                None => {},
            }
        }
        i += 1;
    }
    None
}

/// The game client whose input the dashboard blocks: active, visible, not an
/// overlay.
pub open spec fn spec_is_game(c: ClientReading) -> bool {
    c.active && c.visible && !c.overlay
}

pub fn is_game(c: &ClientReading) -> (r: bool)
    ensures
        r == spec_is_game(*c),
{
    c.active && c.visible && !c.overlay
}

/// The Monado page's entry for a client: overlays and nameless or
/// library-internal sessions are left out; the name is shown trimmed.
pub open spec fn spec_client_entry(c: ClientReading, frozen: Seq<u32>) -> Option<(u32, Seq<char>, bool, bool, bool)> {
    match c.name {
        Some(n) => if !c.overlay && real_name(n@) {
            Some((c.id, trim(n@), c.visible || c.primary, c.primary, frozen.contains(c.id)))
        } else {
            None
        },
        None => None,
    }
}

/// A client entry as plain values.
pub open spec fn entry_of(ci: ClientInfo) -> (u32, Seq<char>, bool, bool, bool) {
    (ci.id, ci.name@, ci.is_app, ci.is_primary, ci.frozen)
}

pub fn client_entry(c: &ClientReading, frozen: &Vec<u32>) -> (r: Option<ClientInfo>)
    ensures
        match r {
            Some(ci) => spec_client_entry(*c, frozen@) == Some(entry_of(ci)),
            None => spec_client_entry(*c, frozen@) is None,
        },
{
    if c.overlay {
        return None;
    }
    let n = match &c.name {
        Some(n) => n,
        None => return None,
    };
    if !is_real_name(n.as_str()) {
        return None;
    }
    let cs = chars_of(n.as_str());
    let t = trim_chars(&cs);
    let mut held = false;
    let mut i: usize = 0;
    while i < frozen.len()
        invariant
            0 <= i <= frozen@.len(),
            held == exists|j: int| 0 <= j < i && frozen@[j] == c.id,
        decreases frozen@.len() - i,
    {
        if frozen[i] == c.id {
            held = true;
        }
        i += 1;
    }
    Some(ClientInfo { id: c.id, name: string_of(&t), is_app: c.visible || c.primary, is_primary: c.primary, frozen: held })
}

/// The Monado page's client list, in the service's order.
pub fn poll_clients(clients: &Vec<ClientReading>, frozen: &Vec<u32>) -> (r: Vec<ClientInfo>)
    ensures
        r@.map_values(|ci: ClientInfo| entry_of(ci)) == clients@.map_values(
            |c: ClientReading| spec_client_entry(c, frozen@),
        ).filter(|e: Option<(u32, Seq<char>, bool, bool, bool)>| e is Some).map_values(
            |e: Option<(u32, Seq<char>, bool, bool, bool)>| e->0,
        ),
{
    let ghost entries = clients@.map_values(|c: ClientReading| spec_client_entry(c, frozen@));
    let ghost keep = |e: Option<(u32, Seq<char>, bool, bool, bool)>| e is Some;
    let ghost unwrap = |e: Option<(u32, Seq<char>, bool, bool, bool)>| e->0;
    let mut out: Vec<ClientInfo> = Vec::new();
    let mut i: usize = 0;
    while i < clients.len()
        invariant
            0 <= i <= clients@.len(),
            entries == clients@.map_values(|c: ClientReading| spec_client_entry(c, frozen@)),
            keep == (|e: Option<(u32, Seq<char>, bool, bool, bool)>| e is Some),
            unwrap == (|e: Option<(u32, Seq<char>, bool, bool, bool)>| e->0),
            out@.map_values(|ci: ClientInfo| entry_of(ci)) == entries.take(i as int).filter(keep).map_values(unwrap),
        decreases clients@.len() - i,
    {
        proof {
            reveal(Seq::filter);
            assert(entries.take(i + 1).drop_last() =~= entries.take(i as int));
        }
        let e = client_entry(&clients[i], frozen);
        match e {
            Some(ci) => {
                let ghost prev = out@;
                let ghost ent = entry_of(ci);
                out.push(ci);
                assert(entries[i as int] == Some(ent));
                assert(entries.take(i + 1).last() == Some(ent));
                assert(entries.take(i + 1).filter(keep) == entries.take(i as int).filter(keep).push(Some(ent)));
                assert(entries.take(i + 1).filter(keep).map_values(unwrap) =~= entries.take(i as int).filter(
                    keep,
                ).map_values(unwrap).push(ent));
                assert(out@.map_values(|ci: ClientInfo| entry_of(ci)) =~= prev.map_values(|ci: ClientInfo| entry_of(ci)).push(ent));
            },
            None => {
                assert(entries.take(i + 1).filter(keep) =~= entries.take(i as int).filter(keep));
            },
        }
        i += 1;
    }
    assert(entries.take(i as int) =~= entries);
    out
}

/// Tracking has to be gone this long before a device reads as `Lost`, so a
/// hand briefly blocked from the base stations doesn't flicker.
pub const LOST_AFTER_MS: u64 = 1000;

/// A device's lowercase name names a glove.
pub open spec fn glove_name(l: Seq<char>) -> bool {
    contains_seq(l, "glove"@) || contains_seq(l, "udcap"@)
}

/// A battery's device kind: gloves by name; controllers by hand role or
/// name; trackers by name; anything else.
pub open spec fn spec_battery_kind(name: Seq<char>, index: u32, left: Option<u32>, right: Option<u32>) -> BatteryKind {
    let l = unicode_lower(name);
    if glove_name(l) {
        BatteryKind::Glove
    } else if left == Some(index) || right == Some(index) || contains_seq(l, "controller"@) || contains_seq(
        l,
        "knuckles"@,
    ) || contains_seq(l, "index"@) {
        BatteryKind::Controller
    } else if contains_seq(l, "tracker"@) {
        BatteryKind::Tracker
    } else {
        BatteryKind::Other
    }
}

fn has(l: &Vec<char>, word: &str) -> (r: bool)
    ensures
        r == contains_seq(l@, word@),
{
    let w = chars_of(word);
    contains_chars(l, &w)
}

pub fn battery_kind(name: &str, index: u32, left: Option<u32>, right: Option<u32>) -> (r: BatteryKind)
    ensures
        r == spec_battery_kind(name@, index, left, right),
{
    let low = lower(name);
    let l = chars_of(low.as_str());
    let role = match left {
        Some(i) => i == index,
        None => false,
    } || match right {
        Some(i) => i == index,
        None => false,
    };
    if has(&l, "glove") || has(&l, "udcap") {
        BatteryKind::Glove
    } else if role || has(&l, "controller") || has(&l, "knuckles") || has(&l, "index") {
        BatteryKind::Controller
    } else if has(&l, "tracker") {
        BatteryKind::Tracker
    } else {
        BatteryKind::Other
    }
}

/// The name of the first device with index `i`, if any.
pub open spec fn name_at(names: Seq<(u32, String)>, i: u32) -> Option<Seq<char>>
    decreases names.len(),
{
    if names.len() == 0 {
        None
    } else if names[0].0 == i {
        Some(names[0].1@)
    } else {
        name_at(names.drop_first(), i)
    }
}

/// A hand role is a glove: the device at the role's index has a glove's
/// name (`names`: index and name of every device).
pub open spec fn role_is_glove(names: Seq<(u32, String)>, role: Option<u32>) -> bool {
    match role {
        Some(i) => match name_at(names, i) {
            Some(n) => glove_name(unicode_lower(n)),
            None => false,
        },
        None => false,
    }
}

pub fn role_glove(names: &Vec<(u32, String)>, role: Option<u32>) -> (r: bool)
    ensures
        r == role_is_glove(names@, role),
{
    let i = match role {
        Some(i) => i,
        None => return false,
    };
    let mut k: usize = 0;
    assert(names@.skip(0) =~= names@);
    while k < names.len()
        invariant
            0 <= k <= names@.len(),
            role == Some(i),
            name_at(names@, i) == name_at(names@.skip(k as int), i),
        decreases names@.len() - k,
    {
        proof {
            assert(names@.skip(k as int).drop_first() =~= names@.skip(k + 1));
        }
        if names[k].0 == i {
            assert(names@.skip(k as int)[0] == names@[k as int]);
            assert(name_at(names@, i) == Some(names@[k as int].1@));
            let low = lower(names[k].1.as_str());
            let l = chars_of(low.as_str());
            return has(&l, "glove") || has(&l, "udcap");
        }
        k += 1;
    }
    false
}

/// When each device (by key) was first seen untracked.
pub struct LostTimers {
    pub entries: Vec<(String, u64)>,
}

impl View for LostTimers {
    type V = Seq<(Seq<char>, u64)>;

    open spec fn view(&self) -> Seq<(Seq<char>, u64)> {
        self.entries@.map_values(|p: (String, u64)| (p.0@, p.1))
    }
}

/// The timer kept for a key: the latest entry's.
pub open spec fn timer_of(e: Seq<(Seq<char>, u64)>, key: Seq<char>) -> Option<u64>
    decreases e.len(),
{
    if e.len() == 0 {
        None
    } else if e.last().0 == key {
        Some(e.last().1)
    } else {
        timer_of(e.drop_last(), key)
    }
}

/// Keeping the entries whose key passes a test keeps exactly the timers of
/// the keys that pass it.
pub proof fn lemma_timer_filter(e: Seq<(Seq<char>, u64)>, keep: spec_fn(Seq<char>) -> bool, key: Seq<char>)
    ensures
        timer_of(e.filter(|p: (Seq<char>, u64)| keep(p.0)), key) == if keep(key) {
            timer_of(e, key)
        } else {
            None
        },
    decreases e.len(),
{
    reveal(Seq::filter);
    let pred = |p: (Seq<char>, u64)| keep(p.0);
    if e.len() > 0 {
        lemma_timer_filter(e.drop_last(), keep, key);
        let rest = e.drop_last().filter(pred);
        if keep(e.last().0) {
            assert(e.filter(pred) == rest.push(e.last()));
            assert(rest.push(e.last()).drop_last() =~= rest);
        } else {
            assert(e.filter(pred) == rest);
        }
    }
}

/// The texts of a list of strings contain `key`.
pub open spec fn seen_in(seen: Seq<String>, key: Seq<char>) -> bool {
    exists|j: int| 0 <= j < seen.len() && #[trigger] seen[j]@ == key
}

impl LostTimers {
    pub fn new() -> (r: Self)
        ensures
            r@.len() == 0,
    {
        LostTimers { entries: Vec::new() }
    }

    /// The timer for `key`, started at `now` when none runs yet.
    pub fn since(&mut self, key: &str, now: u64) -> (r: u64)
        ensures
            match timer_of(old(self)@, key@) {
                Some(t) => r == t && final(self)@ == old(self)@,
                None => r == now && final(self)@ == old(self)@.push((key@, now)),
            },
    {
        let mut k: usize = self.entries.len();
        assert(self@.take(k as int) =~= self@);
        while k > 0
            invariant
                0 <= k <= self.entries@.len(),
                timer_of(self@, key@) == timer_of(self@.take(k as int), key@),
            decreases k,
        {
            proof {
                assert(self@.take(k as int).drop_last() =~= self@.take(k - 1));
            }
            if str_same(self.entries[k - 1].0.as_str(), key) {
                let t = self.entries[k - 1].1;
                return t;
            }
            k -= 1;
        }
        let ghost before = self@;
        self.entries.push((key.to_string(), now));
        assert(self@ =~= before.push((key@, now)));
        now
    }

    /// Forget the timers of devices not seen untracked this round.
    pub fn retain(&mut self, seen: &Vec<String>)
        ensures
            final(self)@ == old(self)@.filter(|p: (Seq<char>, u64)| seen_in(seen@, p.0)),
    {
        let ghost before = self@;
        let ghost pred = |p: (Seq<char>, u64)| seen_in(seen@, p.0);
        let mut kept: Vec<(String, u64)> = Vec::new();
        let mut k: usize = 0;
        while k < self.entries.len()
            invariant
                0 <= k <= self.entries@.len(),
                self@ == before,
                pred == (|p: (Seq<char>, u64)| seen_in(seen@, p.0)),
                kept@.map_values(|p: (String, u64)| (p.0@, p.1)) == before.take(k as int).filter(pred),
            decreases self.entries@.len() - k,
        {
            proof {
                reveal(Seq::filter);
                assert(before.take(k + 1).drop_last() =~= before.take(k as int));
            }
            let keep = seen_has(seen, self.entries[k].0.as_str());
            if keep {
                let e = (self.entries[k].0.clone(), self.entries[k].1);
                let ghost prev = kept@;
                kept.push(e);
                assert(kept@.map_values(|p: (String, u64)| (p.0@, p.1)) =~= prev.map_values(
                    |p: (String, u64)| (p.0@, p.1),
                ).push((e.0@, e.1)));
            }
            k += 1;
        }
        assert(before.take(k as int) =~= before);
        self.entries = kept;
    }
}

/// What the service reports of one device: its index, name, the key its
/// timer is kept under (serial, else `#index`), its battery (`None` when it
/// has none or it could not be read; else whether it charges) and its
/// tracking (`None` when unknown; else connected and tracking).
pub struct DeviceReading {
    pub index: u32,
    pub name: String,
    pub key: String,
    pub battery: Option<bool>,
    pub tracking: Option<(bool, bool)>,
}

/// The battery list's entry for a device: which device, its kind, whether it
/// charges, its liveness.
#[derive(Clone, Copy, Debug, PartialEq, Eq, Structural)]
pub struct BatteryEntry {
    pub device: usize,
    pub kind: BatteryKind,
    pub charging: bool,
    pub state: DevState,
}

/// Switched on but not tracking.
pub open spec fn untracked(d: DeviceReading) -> bool {
    d.battery is Some && d.tracking == Some((true, false))
}

/// Some device among `devs` is untracked under `key`.
pub open spec fn lost_key_in(devs: Seq<DeviceReading>, key: Seq<char>) -> bool {
    exists|j: int| 0 <= j < devs.len() && untracked(devs[j]) && #[trigger] devs[j].key@ == key
}

/// The indices of the devices with a battery, in order.
pub open spec fn with_battery(devs: Seq<DeviceReading>) -> Seq<usize>
    decreases devs.len(),
{
    if devs.len() == 0 {
        Seq::empty()
    } else {
        let rest = with_battery(devs.drop_last());
        if devs.last().battery is Some {
            rest.push((devs.len() - 1) as usize)
        } else {
            rest
        }
    }
}

/// The timer for `key`, or `now` when none ran.
pub open spec fn started(t: Option<u64>, now: u64) -> u64 {
    match t {
        Some(t) => t,
        None => now,
    }
}

/// A device's liveness, given when it was first seen untracked (if ever):
/// off when disconnected, lost once untracked for `LOST_AFTER_MS`, else live.
pub open spec fn spec_dev_state(d: DeviceReading, t: Option<u64>, now: u64) -> DevState {
    match d.tracking {
        Some((false, _)) => DevState::Off,
        Some((true, false)) => if now >= started(t, now) && now - started(t, now) >= LOST_AFTER_MS {
            DevState::Lost
        } else {
            DevState::Live
        },
        _ => DevState::Live,
    }
}

/// Battery entries for the devices that report one (controllers, gloves,
/// trackers), with each one's liveness; the untracked timers are started for
/// newly untracked devices and dropped for devices no longer untracked.
pub fn poll_batteries(
    devices: &Vec<DeviceReading>,
    left: Option<u32>,
    right: Option<u32>,
    timers: &mut LostTimers,
    now: u64,
) -> (r: Vec<BatteryEntry>)
    ensures
        r@.map_values(|e: BatteryEntry| e.device) == with_battery(devices@),
        forall|p: int| 0 <= p < r@.len() ==> {
            let e = #[trigger] r@[p];
            let d = devices@[e.device as int];
            &&& e.kind == spec_battery_kind(d.name@, d.index, left, right)
            &&& e.state == spec_dev_state(d, timer_of(old(timers)@, d.key@), now)
            &&& e.charging == (d.battery == Some(true) && e.state != DevState::Off)
        },
        forall|key: Seq<char>| #[trigger] timer_of(final(timers)@, key) == if lost_key_in(devices@, key) {
            Some(started(timer_of(old(timers)@, key), now))
        } else {
            None
        },
{
    let ghost t0 = timers@;
    let mut out: Vec<BatteryEntry> = Vec::new();
    let mut seen: Vec<String> = Vec::new();
    let mut i: usize = 0;
    while i < devices.len()
        invariant
            0 <= i <= devices@.len(),
            out@.map_values(|e: BatteryEntry| e.device) == with_battery(devices@.take(i as int)),
            forall|p: int| 0 <= p < out@.len() ==> {
                let e = #[trigger] out@[p];
                let d = devices@[e.device as int];
                &&& e.device < i
                &&& e.kind == spec_battery_kind(d.name@, d.index, left, right)
                &&& e.state == spec_dev_state(d, timer_of(t0, d.key@), now)
                &&& e.charging == (d.battery == Some(true) && e.state != DevState::Off)
            },
            forall|key: Seq<char>| #[trigger] timer_of(timers@, key) == if lost_key_in(devices@.take(i as int), key) {
                Some(started(timer_of(t0, key), now))
            } else {
                timer_of(t0, key)
            },
            forall|key: Seq<char>| seen_in(seen@, key) == lost_key_in(devices@.take(i as int), key),
        decreases devices@.len() - i,
    {
        let ghost before = devices@.take(i as int);
        let ghost after = devices@.take(i + 1);
        let ghost seen0 = seen@;
        proof {
            assert(after.drop_last() =~= before);
            assert(after.last() == devices@[i as int]);
            assert forall|key: Seq<char>| #[trigger] lost_key_in(after, key) == (lost_key_in(before, key) || (untracked(
                devices@[i as int],
            ) && devices@[i as int].key@ == key)) by {
                if lost_key_in(after, key) {
                    let j = choose|j: int| 0 <= j < after.len() && untracked(after[j]) && #[trigger] after[j].key@ == key;
                    if j < i {
                        assert(before[j] == after[j]);
                    }
                }
                if lost_key_in(before, key) {
                    let j = choose|j: int| 0 <= j < before.len() && untracked(before[j]) && #[trigger] before[j].key@ == key;
                    assert(after[j] == before[j]);
                }
                if untracked(devices@[i as int]) && devices@[i as int].key@ == key {
                    assert(after[i as int].key@ == key);
                }
            }
        }
        let d = &devices[i];
        match d.battery {
            None => {},
            Some(charging) => {
                let state = match d.tracking {
                    Some((false, _)) => DevState::Off,
                    Some((true, false)) => {
                        let ghost cur = timers@;
                        let since = timers.since(d.key.as_str(), now);
                        let key = d.key.clone();
                        let ghost sv = seen@;
                        seen.push(key);
                        proof {
                            assert forall|k: Seq<char>| seen_in(seen@, k) == (seen_in(sv, k) || k == d.key@) by {
                                if seen_in(seen@, k) {
                                    let j = choose|j: int| 0 <= j < seen@.len() && #[trigger] seen@[j]@ == k;
                                    if j < sv.len() {
                                        assert(sv[j] == seen@[j]);
                                    }
                                }
                                if seen_in(sv, k) {
                                    let j = choose|j: int| 0 <= j < sv.len() && #[trigger] sv[j]@ == k;
                                    assert(seen@[j] == sv[j]);
                                }
                                if k == d.key@ {
                                    assert(seen@[sv.len() as int]@ == k);
                                }
                            }
                            assert forall|k: Seq<char>| k != d.key@ implies #[trigger] timer_of(timers@, k) == timer_of(cur, k) by {
                                if timer_of(cur, d.key@) is None {
                                    assert(timers@.drop_last() =~= cur);
                                }
                            }
                        }
                        if now >= since && now - since >= LOST_AFTER_MS {
                            DevState::Lost
                        } else {
                            DevState::Live
                        }
                    },
                    _ => DevState::Live,
                };
                let kind = battery_kind(d.name.as_str(), d.index, left, right);
                let ghost prev = out@;
                out.push(BatteryEntry { device: i, kind, charging: charging && state != DevState::Off, state });
                assert(out@.map_values(|e: BatteryEntry| e.device) =~= prev.map_values(|e: BatteryEntry| e.device).push(i));
            },
        }
        proof {
            assert forall|k: Seq<char>| seen_in(seen@, k) == lost_key_in(after, k) by {
                assert(lost_key_in(after, k) == (lost_key_in(before, k) || (untracked(devices@[i as int])
                    && devices@[i as int].key@ == k)));
                assert(seen_in(seen0, k) == lost_key_in(before, k));
            }
        }
        i += 1;
    }
    assert(devices@.take(i as int) =~= devices@);
    let ghost cur = timers@;
    timers.retain(&seen);
    proof {
        let keep = |k: Seq<char>| seen_in(seen@, k);
        assert((|p: (Seq<char>, u64)| seen_in(seen@, p.0)) =~= (|p: (Seq<char>, u64)| keep(p.0)));
        assert forall|key: Seq<char>| #[trigger] timer_of(timers@, key) == if lost_key_in(devices@, key) {
            Some(started(timer_of(t0, key), now))
        } else {
            None
        } by {
            lemma_timer_filter(cur, keep, key);
        }
    }
    out
}

// --- the link's worker -------------------------------------------------------

/// A request to the Monado link; `O` is the playspace offset (translation
/// and yaw), carried through as the caller gives it.
pub enum LinkCmd<O> {
    SetBlock(bool),
    Recenter,
    SetOrigin(O),
    SetFreeze { client_id: u32, freeze: bool },
    SetPrimary { client_id: u32 },
    SetHoldPose(bool),
}

/// What the worker does with the service, in order.
#[derive(Clone, Copy, Debug, PartialEq)]
pub enum LinkAction<O> {
    /// Block or unblock the game's controller input.
    ApplyBlock(bool),
    /// `recenter_local_spaces`.
    RecenterSpaces,
    /// Set the tracking origin's offset.
    ApplyOrigin(O),
    /// Freeze or release one client's controllers.
    ApplyFreeze(u32, bool),
    /// Make a client the displayed app.
    ApplyPrimary(u32),
    /// Hold the pose of switched-off controllers (where the service can).
    ApplyHold(bool),
    /// Publish the client list again (the page reflects the change at once).
    RefreshClients,
}

/// What the worker remembers across reconnects: the playspace offset and
/// hold-pose choice to re-apply, and the clients it holds frozen.
pub struct LinkState<O> {
    pub desired_origin: Option<O>,
    pub desired_hold: Option<bool>,
    pub frozen: Vec<u32>,
}

/// No client is listed twice.
pub open spec fn no_repeats(v: Seq<u32>) -> bool {
    forall|a: int, b: int| 0 <= a < b < v.len() ==> v[a] != v[b]
}

impl<O: Copy> LinkState<O> {
    pub fn new() -> (r: Self)
        ensures
            r.desired_origin is None && r.desired_hold is None && r.frozen@.len() == 0,
    {
        LinkState { desired_origin: None, desired_hold: None, frozen: Vec::new() }
    }

    /// The link (re)connected: the offset and hold-pose choice go out again
    /// (the service forgets them on restart).
    pub fn on_connect(&self) -> (r: Vec<LinkAction<O>>)
        ensures
            r@ == match self.desired_origin {
                Some(o) => seq![LinkAction::ApplyOrigin(o)],
                None => Seq::empty(),
            } + match self.desired_hold {
                Some(h) => seq![LinkAction::ApplyHold(h)],
                None => Seq::empty(),
            },
    {
        let mut out: Vec<LinkAction<O>> = Vec::new();
        match self.desired_origin {
            Some(o) => out.push(LinkAction::ApplyOrigin(o)),
            None => {},
        }
        match self.desired_hold {
            Some(h) => out.push(LinkAction::ApplyHold(h)),
            None => {},
        }
        assert(out@ =~= match self.desired_origin {
            Some(o) => seq![LinkAction::ApplyOrigin(o)],
            None => Seq::empty(),
        } + match self.desired_hold {
            Some(h) => seq![LinkAction::ApplyHold(h)],
            None => Seq::empty(),
        });
        out
    }

    /// The service went away: client ids are handed out anew on restart, so
    /// nothing stays frozen.
    pub fn on_disconnect(&mut self)
        ensures
            final(self).frozen@.len() == 0,
            final(self).desired_origin == old(self).desired_origin,
            final(self).desired_hold == old(self).desired_hold,
    {
        self.frozen = Vec::new();
    }

    /// One request: what to do, and what to remember.
    pub fn on_cmd(&mut self, cmd: LinkCmd<O>) -> (r: Vec<LinkAction<O>>)
        requires
            no_repeats(old(self).frozen@),
        ensures
            no_repeats(final(self).frozen@),
            match cmd {
                LinkCmd::SetBlock(b) => r@ == seq![LinkAction::<O>::ApplyBlock(b)] && *final(self) == *old(self),
                LinkCmd::Recenter => r@ == seq![LinkAction::<O>::RecenterSpaces] + match old(self).desired_origin {
                    Some(o) => seq![LinkAction::ApplyOrigin(o)],
                    None => Seq::empty(),
                } && *final(self) == *old(self),
                LinkCmd::SetOrigin(o) => r@ == seq![LinkAction::ApplyOrigin(o)] && final(self).desired_origin == Some(o)
                    && final(self).desired_hold == old(self).desired_hold && final(self).frozen == old(self).frozen,
                LinkCmd::SetFreeze { client_id, freeze } => {
                    &&& r@ == seq![LinkAction::<O>::ApplyFreeze(client_id, freeze), LinkAction::<O>::RefreshClients]
                    &&& final(self).frozen@.to_set() == if freeze {
                        old(self).frozen@.to_set().insert(client_id)
                    } else {
                        old(self).frozen@.to_set().remove(client_id)
                    }
                    &&& final(self).desired_origin == old(self).desired_origin
                    &&& final(self).desired_hold == old(self).desired_hold
                },
                LinkCmd::SetPrimary { client_id } => r@ == seq![
                    LinkAction::<O>::ApplyPrimary(client_id),
                    LinkAction::<O>::RefreshClients,
                ] && *final(self) == *old(self),
                LinkCmd::SetHoldPose(h) => r@ == seq![LinkAction::<O>::ApplyHold(h)] && final(self).desired_hold == Some(h)
                    && final(self).desired_origin == old(self).desired_origin && final(self).frozen == old(self).frozen,
            },
    {
        let mut out: Vec<LinkAction<O>> = Vec::new();
        match cmd {
            LinkCmd::SetBlock(b) => {
                out.push(LinkAction::ApplyBlock(b));
            },
            LinkCmd::Recenter => {
                out.push(LinkAction::RecenterSpaces);
                match self.desired_origin {
                    Some(o) => out.push(LinkAction::ApplyOrigin(o)),
                    None => {},
                }
            },
            LinkCmd::SetOrigin(o) => {
                self.desired_origin = Some(o);
                out.push(LinkAction::ApplyOrigin(o));
            },
            LinkCmd::SetFreeze { client_id, freeze } => {
                let ghost before = self.frozen@;
                let mut kept: Vec<u32> = Vec::new();
                let mut k: usize = 0;
                while k < self.frozen.len()
                    invariant
                        0 <= k <= self.frozen@.len(),
                        self.frozen@ == before,
                        no_repeats(before),
                        no_repeats(kept@),
                        forall|x: u32| #[trigger] kept@.contains(x) <==> (x != client_id && before.take(k as int).contains(x)),
                    decreases self.frozen@.len() - k,
                {
                    let x = self.frozen[k];
                    let ghost t0 = before.take(k as int);
                    let ghost t1 = before.take(k + 1);
                    proof {
                        assert(t1 =~= t0.push(x));
                        assert forall|y: u32| #[trigger] t1.contains(y) <==> (t0.contains(y) || y == x) by {
                            if t1.contains(y) {
                                let a = choose|a: int| 0 <= a < t1.len() && t1[a] == y;
                                if a < k {
                                    assert(t0[a] == y);
                                }
                            }
                            if t0.contains(y) {
                                let a = choose|a: int| 0 <= a < t0.len() && t0[a] == y;
                                assert(t1[a] == y);
                            }
                            if y == x {
                                assert(t1[k as int] == y);
                            }
                        }
                    }
                    if x != client_id {
                        let ghost prev = kept@;
                        kept.push(x);
                        proof {
                            assert(!t0.contains(x)) by {
                                if t0.contains(x) {
                                    let a = choose|a: int| 0 <= a < t0.len() && t0[a] == x;
                                    assert(before[a] == before[k as int]);
                                }
                            }
                            assert forall|a: int, b: int| 0 <= a < b < kept@.len() implies kept@[a] != kept@[b] by {
                                if b == prev.len() {
                                    assert(prev.contains(kept@[a]));
                                }
                            }
                            assert forall|y: u32| #[trigger] kept@.contains(y) <==> (y != client_id && t1.contains(y)) by {
                                if kept@.contains(y) {
                                    let a = choose|a: int| 0 <= a < kept@.len() && kept@[a] == y;
                                    if a < prev.len() {
                                        assert(prev.contains(y));
                                    }
                                }
                                if y != client_id && t1.contains(y) {
                                    if y == x {
                                        assert(kept@[prev.len() as int] == y);
                                    } else {
                                        assert(prev.contains(y));
                                        let a = choose|a: int| 0 <= a < prev.len() && prev[a] == y;
                                        assert(kept@[a] == y);
                                    }
                                }
                            }
                        }
                    }
                    k += 1;
                }
                assert(before.take(k as int) =~= before);
                if freeze {
                    let ghost prev = kept@;
                    kept.push(client_id);
                    proof {
                        assert forall|a: int, b: int| 0 <= a < b < kept@.len() implies kept@[a] != kept@[b] by {
                            if b == prev.len() {
                                assert(prev.contains(kept@[a]));
                            }
                        }
                        assert forall|y: u32| #[trigger] kept@.contains(y) <==> (y == client_id || prev.contains(y)) by {
                            if kept@.contains(y) {
                                let a = choose|a: int| 0 <= a < kept@.len() && kept@[a] == y;
                                if a < prev.len() {
                                    assert(prev[a] == y);
                                }
                            }
                            if prev.contains(y) {
                                let a = choose|a: int| 0 <= a < prev.len() && prev[a] == y;
                                assert(kept@[a] == y);
                            }
                            if y == client_id {
                                assert(kept@[prev.len() as int] == y);
                            }
                        }
                    }
                    assert(kept@.to_set() =~= before.to_set().insert(client_id));
                } else {
                    assert(kept@.to_set() =~= before.to_set().remove(client_id));
                }
                self.frozen = kept;
                out.push(LinkAction::ApplyFreeze(client_id, freeze));
                out.push(LinkAction::RefreshClients);
            },
            LinkCmd::SetPrimary { client_id } => {
                out.push(LinkAction::ApplyPrimary(client_id));
                out.push(LinkAction::RefreshClients);
            },
            LinkCmd::SetHoldPose(h) => {
                self.desired_hold = Some(h);
                out.push(LinkAction::ApplyHold(h));
            },
        }
        proof {
            match cmd {
                LinkCmd::Recenter => {
                    assert(out@ =~= seq![LinkAction::<O>::RecenterSpaces] + match old(self).desired_origin {
                        Some(o) => seq![LinkAction::ApplyOrigin(o)],
                        None => Seq::empty(),
                    });
                },
                _ => {},
            }
        }
        out
    }

    /// The page's freeze toggle for a client.
    pub fn is_frozen(&self, client_id: u32) -> (r: bool)
        ensures
            r == self.frozen@.contains(client_id),
    {
        let mut k: usize = 0;
        while k < self.frozen.len()
            invariant
                0 <= k <= self.frozen@.len(),
                forall|j: int| 0 <= j < k ==> self.frozen@[j] != client_id,
            decreases self.frozen@.len() - k,
        {
            if self.frozen[k] == client_id {
                assert(self.frozen@[k as int] == client_id);
                return true;
            }
            k += 1;
        }
        false
    }
}

fn str_same(a: &str, b: &str) -> (r: bool)
    ensures
        r == (a@ == b@),
{
    crate::text::str_eq(a, b)
}

fn seen_has(seen: &Vec<String>, key: &str) -> (r: bool)
    ensures
        r == seen_in(seen@, key@),
{
    let mut i: usize = 0;
    while i < seen.len()
        invariant
            0 <= i <= seen@.len(),
            forall|j: int| 0 <= j < i ==> seen@[j]@ != key@,
        decreases seen@.len() - i,
    {
        if str_same(seen[i].as_str(), key) {
            return true;
        }
        i += 1;
    }
    false
}

} // verus!
