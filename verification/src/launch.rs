//! Following a game we asked Steam to launch: did it start, did it make it,
//! did it die on the way — and was that death a Proton prefix upgrade (the
//! classic "first launch after a Proton update fails, the second works")?
//!
//! Steam spawns every game under `reaper SteamLaunch AppId=<id> -- …`, and that
//! process lives exactly as long as the game, so a scan of `/proc` for that
//! argument pair tells us the game is up. Times are milliseconds on one
//! monotonic clock.
use std::sync::atomic::{AtomicU8, Ordering};
use std::sync::{Arc, Mutex};
use vstd::prelude::*;

use crate::text::{all_digits, chars_of, is_digit};

verus! {

/// A flat game whose process has lived this long counts as launched.
pub const FLAT_SETTLE_MS: u64 = 12_000;
/// A VR game normally counts once it shows up as an XR client; if that never
/// matches, a process this old is clearly up too.
pub const VR_SETTLE_MS: u64 = 45_000;
/// An exit later than this after launch isn't a launch failure any more.
pub const LAUNCH_WINDOW_MS: u64 = 180_000;

#[derive(Clone, Copy, Debug, PartialEq, Eq)]
pub enum ProcState {
    /// Not scanned yet for this target.
    Unknown,
    Alive,
    /// Missing on two scans in a row.
    Gone,
}

impl ProcState {
    /// The code the watcher thread publishes.
    pub open spec fn spec_code(self) -> u8 {
        match self {
            ProcState::Unknown => 0,
            ProcState::Alive => 1,
            ProcState::Gone => 2,
        }
    }

    pub open spec fn spec_from_code(c: u8) -> ProcState {
        if c == 1 {
            ProcState::Alive
        } else if c == 2 {
            ProcState::Gone
        } else {
            ProcState::Unknown
        }
    }

    pub fn code(self) -> (r: u8)
        ensures
            r == self.spec_code(),
    {
        match self {
            ProcState::Unknown => 0,
            ProcState::Alive => 1,
            ProcState::Gone => 2,
        }
    }

    /// The state a published code stands for (anything unknown is `Unknown`).
    pub fn from_code(c: u8) -> (r: ProcState)
        ensures
            r == Self::spec_from_code(c),
    {
        match c {
            1 => ProcState::Alive,
            2 => ProcState::Gone,
            _ => ProcState::Unknown,
        }
    }
}

/// `SteamLaunch`.
pub open spec fn steam_launch() -> Seq<u8> {
    seq![83u8, 116, 101, 97, 109, 76, 97, 117, 110, 99, 104]
}

/// `AppId=<id>` as UTF-8 bytes.
pub open spec fn app_id_arg(id: Seq<char>) -> Seq<u8> {
    seq![65u8, 112, 112, 73, 100, 61] + vstd::utf8::encode_utf8(id)
}

/// `w` sits in `b` at `at` as one whole NUL-separated argument (so `w`
/// itself holds no NUL).
pub open spec fn arg_at(b: Seq<u8>, at: int, w: Seq<u8>) -> bool {
    &&& !w.contains(0u8)
    &&& 0 <= at
    &&& at == 0 || b[at - 1] == 0
    &&& at + w.len() <= b.len()
    &&& b.subrange(at, at + w.len()) == w
    &&& at + w.len() == b.len() || b[at + w.len()] == 0
}

/// A `SteamLaunch` argument at `at` directly followed by the argument `want`.
pub open spec fn launch_at(b: Seq<u8>, at: int, want: Seq<u8>) -> bool {
    &&& arg_at(b, at, steam_launch())
    &&& at + 11 < b.len()
    &&& arg_at(b, at + 12, want)
}

/// Whether a NUL-separated command line holds `SteamLaunch` immediately
/// followed by the whole argument `AppId=<id>` (reaper's launch of that
/// game); an id holding a NUL is never one argument, so it never matches.
pub open spec fn spec_cmdline_is_launch(b: Seq<u8>, id: Seq<char>) -> bool {
    exists|at: int| launch_at(b, at, app_id_arg(id))
}

fn holds_nul(w: &Vec<u8>) -> (r: bool)
    ensures
        r == w@.contains(0u8),
{
    let mut k: usize = 0;
    while k < w.len()
        invariant
            0 <= k <= w@.len(),
            forall|j: int| 0 <= j < k ==> w@[j] != 0u8,
        decreases w@.len() - k,
    {
        if w[k] == 0 {
            assert(w@[k as int] == 0u8);
            return true;
        }
        k += 1;
    }
    false
}

fn bytes_at(b: &[u8], at: usize, w: &Vec<u8>) -> (r: bool)
    ensures
        r == (at + w@.len() <= b@.len() && b@.subrange(at as int, at + w@.len()) == w@),
{
    if at > b.len() || w.len() > b.len() - at {
        return false;
    }
    let n = b.len();
    let mut k: usize = 0;
    while k < w.len()
        invariant
            n == b@.len(),
            at + w@.len() <= b@.len(),
            0 <= k <= w.len(),
            forall|j: int| 0 <= j < k ==> b@[at + j] == w@[j],
        decreases w.len() - k,
    {
        if b[at + k] != w[k] {
            assert(b@.subrange(at as int, at + w@.len())[k as int] != w@[k as int]);
            return false;
        }
        k += 1;
    }
    assert(b@.subrange(at as int, at + w@.len()) =~= w@);
    true
}

fn arg_matches(b: &[u8], at: usize, w: &Vec<u8>) -> (r: bool)
    requires
        at <= b@.len(),
        !w@.contains(0u8),
    ensures
        r == arg_at(b@, at as int, w@),
{
    if at > 0 && b[at - 1] != 0 {
        return false;
    }
    if !bytes_at(b, at, w) {
        return false;
    }
    at + w.len() == b.len() || b[at + w.len()] == 0
}

/// Whether a reaper command line launches the game `id`.
pub fn cmdline_is_launch(cmdline: &[u8], id: &str) -> (r: bool)
    ensures
        r == spec_cmdline_is_launch(cmdline@, id@),
{
    let mut want: Vec<u8> = vec![65u8, 112, 112, 73, 100, 61];
    let mut idb: Vec<u8> = vstd::slice::slice_to_vec(id.as_bytes());
    let ghost pre = want@;
    want.append(&mut idb);
    assert(want@ =~= app_id_arg(id@));
    let steam: Vec<u8> = vec![83u8, 116, 101, 97, 109, 76, 97, 117, 110, 99, 104];
    assert(steam@ =~= steam_launch());
    if holds_nul(&want) {
        assert forall|p: int| !launch_at(cmdline@, p, want@) by {}
        return false;
    }
    assert(!steam@.contains(0u8)) by {
        assert forall|j: int| 0 <= j < steam@.len() implies steam@[j] != 0u8 by {}
    }
    let mut at: usize = 0;
    while at < cmdline.len()
        invariant
            want@ == app_id_arg(id@),
            steam@ == steam_launch(),
            !want@.contains(0u8),
            !steam@.contains(0u8),
            0 <= at <= cmdline@.len(),
            forall|p: int| 0 <= p < at ==> !launch_at(cmdline@, p, want@),
        decreases cmdline@.len() - at,
    {
        if arg_matches(cmdline, at, &steam) && at + 11 < cmdline.len() && arg_matches(cmdline, at + 12, &want) {
            assert(launch_at(cmdline@, at as int, want@));
            return true;
        }
        at += 1;
    }
    assert forall|p: int| !launch_at(cmdline@, p, want@) by {
        if p >= at && launch_at(cmdline@, p, want@) {
            assert(p + 11 < cmdline@.len());
        }
    }
    false
}

/// A `/proc` entry named like a process id (digits only).
pub fn is_pid_name(name: &str) -> (r: bool)
    ensures
        r == all_digits(name@),
{
    let cs = chars_of(name);
    let mut i: usize = 0;
    while i < cs.len()
        invariant
            0 <= i <= cs@.len(),
            cs@ == name@,
            forall|k: int| 0 <= k < i ==> is_digit(#[trigger] cs@[k]),
        decreases cs@.len() - i,
    {
        if !('0' <= cs[i] && cs[i] <= '9') {
            assert(!is_digit(cs@[i as int]));
            return false;
        }
        i += 1;
    }
    true
}

/// A process command line that is the reaper launching `id` (shorter ones
/// cannot be).
pub fn reaper_launches(cmdline: &[u8], id: &str) -> (r: bool)
    ensures
        r == (cmdline@.len() > 24 && spec_cmdline_is_launch(cmdline@, id@)),
{
    cmdline.len() > 24 && cmdline_is_launch(cmdline, id)
}

/// What came of a launch.
#[derive(Clone, Debug, PartialEq)]
pub enum Outcome {
    Pending,
    /// It's up: an XR client appeared, or the process has settled.
    Launched,
    /// The process came and went before it counted as launched.
    /// `upgraded`: the Proton prefix version changed during that run;
    /// `after`: milliseconds from launch to the exit being noticed.
    Exited { upgraded: bool, after: u64 },
}

/// `a - b`, or zero when `b` is later (how a monotonic clock measures).
pub open spec fn elapsed(now: u64, since: u64) -> u64 {
    if now >= since {
        (now - since) as u64
    } else {
        0
    }
}

/// Whether two optional strings hold the same text.
pub fn opt_text_eq(a: &Option<String>, b: &Option<String>) -> (r: bool)
    ensures
        r == (opt_text(*a) == opt_text(*b)),
{
    match a {
        None => match b {
            None => true,
            Some(_) => false,
        },
        Some(x) => match b {
            Some(y) => {
                let e = x.eq(y);
                proof {
                    if e {
                        assert(opt_text(*a) == Some(x@));
                    }
                }
                e
            },
            None => false,
        },
    }
}

/// The text of an optional string.
pub open spec fn opt_text(o: Option<String>) -> Option<Seq<char>> {
    match o {
        Some(s) => Some(s@),
        None => None,
    }
}

/// One launch being followed, as its callers see it.
pub ghost struct LaunchModel {
    pub name: Seq<char>,
    pub id: Seq<char>,
    pub game_id: Seq<char>,
    pub vr: bool,
    pub uevr: bool,
    pub retried: bool,
    /// When this launch (or its retry) started.
    pub started: u64,
    /// When the process was first seen alive.
    pub seen: Option<u64>,
    /// A poll has reported it launched (an exit after that is no failed
    /// launch).
    pub launched: bool,
    /// The Proton prefix version when the launch started.
    pub prefix: Option<Seq<char>>,
}

impl LaunchModel {
    /// How long the process must live to count, for this kind of game.
    pub open spec fn settle(self) -> u64 {
        if self.vr {
            VR_SETTLE_MS
        } else {
            FLAT_SETTLE_MS
        }
    }
}

/// An exit worth one automatic relaunch (see `TrackedLaunch::should_retry`).
pub open spec fn retry_wanted(m: LaunchModel, o: Outcome) -> bool {
    let died_upgrading = match o {
        Outcome::Exited { upgraded, after } => upgraded && after <= LAUNCH_WINDOW_MS,
        _ => false,
    };
    died_upgrading && !m.retried && !m.uevr
}

/// Only a death during a Proton prefix upgrade is relaunched: an exit
/// without one, a launch that is still pending or counted as launched, a
/// second try and a UEVR launch never are; a first, non-UEVR launch that
/// died upgrading its prefix within the launch window always is.
pub proof fn only_an_upgrade_death_is_retried(m: LaunchModel, after: u64)
    ensures
        !retry_wanted(m, Outcome::Exited { upgraded: false, after }),
        !retry_wanted(m, Outcome::Pending),
        !retry_wanted(m, Outcome::Launched),
        m.retried || m.uevr ==> !retry_wanted(m, Outcome::Exited { upgraded: true, after }),
        !m.retried && !m.uevr && after <= 180_000 ==> retry_wanted(m, Outcome::Exited { upgraded: true, after }),
        after > 180_000 ==> !retry_wanted(m, Outcome::Exited { upgraded: true, after }),
{
}

/// A launch is retried at most once: once it has been started over, no
/// outcome asks for another relaunch (polling leaves the flag alone).
pub proof fn retried_at_most_once(m: LaunchModel, prefix: Option<Seq<char>>, now: u64, o: Outcome)
    ensures
        !retry_wanted(LaunchModel { retried: true, started: now, seen: None, launched: false, prefix, ..m }, o),
{
}

/// One launch being followed.
pub struct TrackedLaunch {
    pub name: String,
    /// Steam AppId (app or non-Steam shortcut): reaper's `AppId=`, the
    /// compatdata folder, the protonfixes id.
    pub id: String,
    /// The `steam://rungameid/` value, to launch it again.
    pub game_id: String,
    pub vr: bool,
    pub uevr: bool,
    pub retried: bool,
    started: u64,
    seen: Option<u64>,
    launched: bool,
    prefix_before: Option<String>,
}

impl View for TrackedLaunch {
    type V = LaunchModel;

    closed spec fn view(&self) -> LaunchModel {
        LaunchModel {
            name: self.name@,
            id: self.id@,
            game_id: self.game_id@,
            vr: self.vr,
            uevr: self.uevr,
            retried: self.retried,
            started: self.started,
            seen: self.seen,
            launched: self.launched,
            prefix: opt_text(self.prefix_before),
        }
    }
}

impl TrackedLaunch {
    /// A launch started at `now`.
    pub fn new(
        name: String,
        id: String,
        game_id: String,
        vr: bool,
        uevr: bool,
        prefix_before: Option<String>,
        now: u64,
    ) -> (r: Self)
        ensures
            r@ == (LaunchModel {
                name: name@,
                id: id@,
                game_id: game_id@,
                vr,
                uevr,
                retried: false,
                started: now,
                seen: None,
                launched: false,
                prefix: opt_text(prefix_before),
            }),
    {
        TrackedLaunch {
            name,
            id,
            game_id,
            vr,
            uevr,
            retried: false,
            started: now,
            seen: None,
            launched: false,
            prefix_before,
        }
    }

    /// The process has been seen at least once.
    pub fn process_seen(&self) -> (r: bool)
        ensures
            r == self@.seen is Some,
    {
        self.seen.is_some()
    }

    /// Too old to still be "launching" (drop the tracker).
    pub fn expired(&self, now: u64) -> (r: bool)
        ensures
            r == (elapsed(now, self@.started) > LAUNCH_WINDOW_MS),
    {
        let age = if now >= self.started {
            now - self.started
        } else {
            0
        };
        age > LAUNCH_WINDOW_MS
    }

    /// We launched it a second time (at `now`): start over, once.
    pub fn restart(&mut self, prefix_now: Option<String>, now: u64)
        ensures
            final(self)@ == (LaunchModel {
                retried: true,
                started: now,
                seen: None,
                launched: false,
                prefix: opt_text(prefix_now),
                ..old(self)@
            }),
    {
        self.retried = true;
        self.started = now;
        self.seen = None;
        self.launched = false;
        self.prefix_before = prefix_now;
    }

    /// Follow the launch one step. `prefix_now` is only asked for when the
    /// game has exited before it counted as launched; once a poll has said
    /// `Launched`, the process going away is no failed launch and the
    /// answer stays `Launched`.
    pub fn poll<F: FnOnce() -> Option<String>>(
        &mut self,
        proc_state: ProcState,
        xr_appeared: bool,
        now: u64,
        prefix_now: F,
    ) -> (r: Outcome)
        requires
            prefix_now.requires(()),
        ensures
            final(self)@ == (LaunchModel {
                seen: final(self)@.seen,
                launched: old(self)@.launched || r == Outcome::Launched,
                ..old(self)@
            }),
            xr_appeared ==> r == Outcome::Launched && final(self)@.seen == old(self)@.seen,
            !xr_appeared && proc_state == ProcState::Alive ==> {
                let seen = match old(self)@.seen {
                    Some(t) => t,
                    None => now,
                };
                &&& final(self)@.seen == Some(seen)
                &&& r == if elapsed(now, seen) >= old(self)@.settle() {
                    Outcome::Launched
                } else {
                    Outcome::Pending
                }
            },
            !xr_appeared && proc_state == ProcState::Gone && old(self)@.seen is Some && old(self)@.launched ==> r
                == Outcome::Launched && final(self)@.seen == old(self)@.seen,
            !xr_appeared && proc_state == ProcState::Gone && old(self)@.seen is Some && !old(self)@.launched ==> {
                &&& final(self)@.seen == old(self)@.seen
                &&& exists|p: Option<String>|
                    prefix_now.ensures((), p) && r == (Outcome::Exited {
                        upgraded: opt_text(p) != old(self)@.prefix,
                        after: elapsed(now, old(self)@.started),
                    })
            },
            !xr_appeared && (proc_state == ProcState::Unknown || (proc_state == ProcState::Gone
                && old(self)@.seen is None)) ==> r == Outcome::Pending && final(self)@.seen == old(
                self,
            )@.seen,
    {
        if xr_appeared {
            self.launched = true;
            return Outcome::Launched;
        }
        match proc_state {
            ProcState::Alive => {
                let seen = match self.seen {
                    Some(t) => t,
                    None => now,
                };
                self.seen = Some(seen);
                let settle = if self.vr {
                    VR_SETTLE_MS
                } else {
                    FLAT_SETTLE_MS
                };
                let age = if now >= seen {
                    now - seen
                } else {
                    0
                };
                if age >= settle {
                    self.launched = true;
                    Outcome::Launched
                } else {
                    Outcome::Pending
                }
            },
            ProcState::Gone => {
                if self.launched && self.seen.is_some() {
                    Outcome::Launched
                } else if self.seen.is_some() {
                    let after = if now >= self.started {
                        now - self.started
                    } else {
                        0
                    };
                    let p = prefix_now();
                    let upgraded = !opt_text_eq(&p, &self.prefix_before);
                    Outcome::Exited { upgraded, after }
                } else {
                    Outcome::Pending
                }
            },
            ProcState::Unknown => Outcome::Pending,
        }
    }

    /// An exit worth one automatic relaunch: Proton rewrote the prefix during
    /// the run (or created it), it died inside the launch window, and we
    /// haven't retried yet. UEVR launches go through the injector: not retried.
    pub fn should_retry(&self, outcome: &Outcome) -> (r: bool)
        ensures
            r == retry_wanted(self@, *outcome),
    {
        let exited_upgraded = match outcome {
            Outcome::Exited { upgraded, after } => *upgraded && *after <= LAUNCH_WINDOW_MS,
            _ => false,
        };
        exited_upgraded && !self.retried && !self.uevr
    }
}

/// The decisions of the `/proc` watcher thread: which AppId it follows and
/// how many scans in a row missed it.
pub struct WatchLoop {
    pub current: Option<String>,
    pub misses: u8,
}

impl WatchLoop {
    pub fn new() -> (r: Self)
        ensures
            r.current is None && r.misses == 0,
    {
        WatchLoop { current: None, misses: 0 }
    }

    /// The wanted target as read this round: a new one starts over (the
    /// caller then publishes `Unknown`, which `true` asks for).
    pub fn retarget(&mut self, want: Option<String>) -> (reset: bool)
        ensures
            reset == (opt_text(want) != opt_text(old(self).current)),
            reset ==> final(self).current == want && final(self).misses == 0,
            !reset ==> *final(self) == *old(self),
    {
        if opt_text_eq(&want, &self.current) {
            false
        } else {
            self.current = want;
            self.misses = 0;
            true
        }
    }

    /// A scan found the process (or not): the state to publish, if any.
    /// Seen resets the misses and reads `Alive`; two misses in a row read
    /// `Gone`; a single miss publishes nothing.
    pub fn scanned(&mut self, found: bool) -> (r: Option<ProcState>)
        ensures
            final(self).current == old(self).current,
            found ==> final(self).misses == 0 && r == Some(ProcState::Alive),
            !found ==> final(self).misses == (if old(self).misses == 255 {
                255
            } else {
                (old(self).misses + 1) as u8
            }) && r == (if final(self).misses >= 2 {
                Some(ProcState::Gone)
            } else {
                None::<ProcState>
            }),
    {
        if found {
            self.misses = 0;
            Some(ProcState::Alive)
        } else {
            self.misses = if self.misses == 255 {
                255
            } else {
                self.misses + 1
            };
            if self.misses >= 2 {
                Some(ProcState::Gone)
            } else {
                None
            }
        }
    }
}

/// Replace what the mutex holds, giving back what it held (`None` when the
/// lock is poisoned, and then nothing is stored). Calls `Mutex::lock`.
#[verifier::external_body]
fn mutex_replace(m: &Mutex<Option<String>>, v: Option<String>) -> (r: Option<Option<String>>) {
    m.lock().ok().map(|mut g| std::mem::replace(&mut *g, v))
}

/// A new watch target resets the published state: the target changed.
pub fn resets(old: &Option<String>, new: &Option<String>) -> (r: bool)
    ensures
        r == (opt_text(*old) != opt_text(*new)),
{
    !opt_text_eq(old, new)
}

/// Watches `/proc` for one Steam AppId's reaper process: the target and the
/// published state, shared with the watcher thread.
pub struct ProcWatch {
    target: Arc<Mutex<Option<String>>>,
    state: Arc<AtomicU8>,
}

impl ProcWatch {
    /// The AppId the watcher thread looks for.
    pub closed spec fn target_slot(&self) -> Arc<Mutex<Option<String>>> {
        self.target
    }

    /// Where the watcher thread publishes the state's code.
    pub closed spec fn state_cell(&self) -> Arc<AtomicU8> {
        self.state
    }

    /// A watch over the shared target and state (the thread holds clones).
    pub fn from_shared(target: Arc<Mutex<Option<String>>>, state: Arc<AtomicU8>) -> (r: Self)
        ensures
            r.target_slot() == target,
            r.state_cell() == state,
    {
        ProcWatch { target, state }
    }

    /// Start (or stop, with `None`) watching an AppId; a new target resets
    /// the state to `Unknown`.
    pub fn watch(&self, id: Option<String>) {
        let keep = match &id {
            Some(s) => Some(s.clone()),
            None => None,
        };
        match mutex_replace(&self.target, id) {
            Some(old) => {
                if resets(&old, &keep) {
                    self.state.store(ProcState::Unknown.code(), Ordering::Relaxed);
                }
            },
            None => {},
        }
    }

    /// The state the watcher thread last published (its code read from the
    /// shared cell); which one that is, is the thread's, so nothing more is
    /// stated.
    pub fn state(&self) -> ProcState {
        ProcState::from_code(self.state.load(Ordering::Relaxed))
    }
}

} // verus!
