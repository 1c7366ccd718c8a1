//! Now-playing and transport for the watch over MPRIS: which player the watch
//! follows, what it shows of it, and the shared slot and command queue the
//! polling thread works through.
use std::sync::mpsc::Sender;
use std::sync::{Arc, Mutex};
use vstd::prelude::*;

use crate::sync::{lock_cloned, send_to};
use crate::text::{
    chars_of, contains_chars, contains_seq, is_prefix, join_seq, join_strings, starts_with, str_eq,
};

verus! {

/// What the watch shows of the followed player.
#[derive(Clone, Debug, Default, PartialEq)]
pub struct MediaState {
    pub player: String,
    pub title: String,
    pub artist: String,
    pub playing: bool,
}

/// A transport request from the watch.
#[derive(Clone, Copy, Debug, PartialEq, Eq, Structural)]
pub enum MediaCmd {
    PlayPause,
    Next,
    Previous,
}

impl MediaCmd {
    /// The `org.mpris.MediaPlayer2.Player` method the request calls.
    pub open spec fn spec_method(self) -> Seq<char> {
        match self {
            MediaCmd::PlayPause => "PlayPause"@,
            MediaCmd::Next => "Next"@,
            MediaCmd::Previous => "Previous"@,
        }
    }

    pub fn method(self) -> (r: &'static str)
        ensures
            r@ == self.spec_method(),
    {
        match self {
            MediaCmd::PlayPause => "PlayPause",
            MediaCmd::Next => "Next",
            MediaCmd::Previous => "Previous",
        }
    }
}

/// The polled state and the command queue, shared with the MPRIS thread.
pub struct Media {
    state: Arc<Mutex<Option<MediaState>>>,
    tx: Sender<MediaCmd>,
}

impl Media {
    /// The slot the MPRIS thread writes the now-playing state into.
    pub closed spec fn slot(&self) -> Arc<Mutex<Option<MediaState>>> {
        self.state
    }

    /// The queue the MPRIS thread takes transport requests from.
    pub closed spec fn queue(&self) -> Sender<MediaCmd> {
        self.tx
    }

    /// A handle on the slot the thread fills and the queue it drains.
    pub fn from_parts(state: Arc<Mutex<Option<MediaState>>>, tx: Sender<MediaCmd>) -> (r: Self)
        ensures
            r.slot() == state,
            r.queue() == tx,
    {
        Media { state, tx }
    }

    /// The last polled now-playing state (`None` with no player, or before
    /// the first poll); the slot is the thread's, so nothing more is stated.
    pub fn state(&self) -> Option<MediaState> {
        lock_cloned(&self.state)
    }

    /// Queue a transport request for the followed player; dropped once the
    /// thread is gone.
    pub fn send(&self, cmd: MediaCmd) {
        let _ = send_to(&self.tx, cmd);
    }
}

/// A bus name that belongs to a media player (not the playerctl proxy).
pub open spec fn is_player_name(n: Seq<char>) -> bool {
    is_prefix("org.mpris.MediaPlayer2."@, n) && !contains_seq(n, "playerctld"@)
}

pub fn is_player(name: &str) -> (r: bool)
    ensures
        r == is_player_name(name@),
{
    let n = chars_of(name);
    let prefix = chars_of("org.mpris.MediaPlayer2.");
    let proxy = chars_of("playerctld");
    starts_with(&n, &prefix) && !contains_chars(&n, &proxy)
}

/// The texts of a list of strings.
pub open spec fn texts(v: Seq<String>) -> Seq<Seq<char>> {
    v.map_values(|s: String| s@)
}

/// The media players among the bus names, in bus order.
pub fn mpris_players(names: &Vec<String>) -> (r: Vec<String>)
    ensures
        texts(r@) == texts(names@).filter(|n: Seq<char>| is_player_name(n)),
{
    let ghost pred = |n: Seq<char>| is_player_name(n);
    let mut out: Vec<String> = Vec::new();
    let mut i: usize = 0;
    while i < names.len()
        invariant
            0 <= i <= names@.len(),
            pred == (|n: Seq<char>| is_player_name(n)),
            texts(out@) == texts(names@).take(i as int).filter(pred),
        decreases names@.len() - i,
    {
        let keep = is_player(names[i].as_str());
        proof {
            reveal(Seq::filter);
            assert(texts(names@).take(i + 1).drop_last() =~= texts(names@).take(i as int));
            assert(texts(names@).take(i + 1).last() == names@[i as int]@);
        }
        if keep {
            out.push(names[i].clone());
            assert(texts(out@) =~= texts(names@).take(i + 1).filter(pred));
        } else {
            assert(texts(out@) =~= texts(names@).take(i + 1).filter(pred));
        }
        i += 1;
    }
    assert(texts(names@).take(i as int) =~= texts(names@));
    out
}

/// The player at `j` reports `Playing`.
pub open spec fn playing_at(st: Seq<String>, j: int) -> bool {
    st[j]@ == "Playing"@
}

/// The player at `j` is the one followed last time.
pub open spec fn current_at(ps: Seq<String>, cur: Option<String>, j: int) -> bool {
    match cur {
        Some(c) => ps[j]@ == c@,
        None => false,
    }
}

/// The choice among the first `n` players: the first playing one; else the
/// last one that was followed before; else the first.
pub open spec fn chosen(ps: Seq<String>, st: Seq<String>, cur: Option<String>, n: int, k: int) -> bool {
    &&& 0 <= k < n
    &&& (exists|j: int| 0 <= j < n && #[trigger] playing_at(st, j)) ==> {
        playing_at(st, k) && forall|j: int| 0 <= j < k ==> !#[trigger] playing_at(st, j)
    }
    &&& (!exists|j: int| 0 <= j < n && #[trigger] playing_at(st, j)) && (exists|j: int|
        0 <= j < n && #[trigger] current_at(ps, cur, j)) ==> {
        current_at(ps, cur, k) && forall|j: int| k < j < n ==> !#[trigger] current_at(ps, cur, j)
    }
    &&& (!exists|j: int| 0 <= j < n && #[trigger] playing_at(st, j)) && (!exists|j: int|
        0 <= j < n && #[trigger] current_at(ps, cur, j)) ==> k == 0
}

/// Which player the watch follows, given each player's `PlaybackStatus`
/// and the one followed last time: `None` with no player.
pub fn choose_player(players: &Vec<String>, statuses: &Vec<String>, current: &Option<String>) -> (r: Option<usize>)
    requires
        players@.len() == statuses@.len(),
    ensures
        r is None <==> players@.len() == 0,
        r matches Some(k) ==> chosen(players@, statuses@, *current, players@.len() as int, k as int),
{
    let ghost ps = players@;
    let ghost st = statuses@;
    let ghost cur = *current;
    let mut best: Option<usize> = None;
    let mut best_playing = false;
    let mut i: usize = 0;
    while i < players.len()
        invariant
            0 <= i <= players@.len(),
            ps == players@,
            st == statuses@,
            cur == *current,
            players@.len() == statuses@.len(),
            best is None <==> i == 0,
            best matches Some(b) ==> chosen(ps, st, cur, i as int, b as int) && best_playing == playing_at(st, b as int),
        decreases players@.len() - i,
    {
        let playing = str_eq(statuses[i].as_str(), "Playing");
        let is_cur = match current {
            Some(c) => str_eq(players[i].as_str(), c.as_str()),
            None => false,
        };
        assert(playing == playing_at(st, i as int));
        assert(is_cur == current_at(ps, cur, i as int));
        let take = match best {
            None => true,
            Some(_) => (playing && !best_playing) || (is_cur && !best_playing),
        };
        let ghost old_best = best;
        if take {
            best = Some(i);
            best_playing = playing;
        }
        proof {
            let n = i + 1;
            match best {
                Some(b) => {
                    if exists|j: int| 0 <= j < n && #[trigger] playing_at(st, j) {
                        if old_best is Some {
                            let ob = old_best->0;
                            if !playing_at(st, ob as int) {
                                assert(forall|j: int| 0 <= j < i ==> !#[trigger] playing_at(st, j));
                            }
                        }
                    }
                    if !exists|j: int| 0 <= j < n && #[trigger] playing_at(st, j) {
                        assert(!exists|j: int| 0 <= j < i && #[trigger] playing_at(st, j));
                        if old_best is Some && !take {
                            assert(!current_at(ps, cur, i as int));
                            if exists|j: int| 0 <= j < n && #[trigger] current_at(ps, cur, j) {
                                let w = choose|j: int| 0 <= j < n && #[trigger] current_at(ps, cur, j);
                                assert(w < i);
                            }
                        }
                    }
                },
                None => {},
            }
        }
        i += 1;
    }
    best
}

/// The status text a player reports while it plays.
pub open spec fn is_playing(status: Seq<char>) -> bool {
    status == "Playing"@
}

/// What the watch shows of the followed player `name`: its `Identity` (else
/// the bus name), the track title, the artists joined with `, `, and whether
/// it plays.
pub fn now_playing(
    name: &str,
    identity: Option<String>,
    title: Option<String>,
    artists: Option<Vec<String>>,
    status: &str,
) -> (r: MediaState)
    ensures
        r.player@ == match identity {
            Some(i) => i@,
            None => name@,
        },
        r.title@ == match title {
            Some(t) => t@,
            None => Seq::<char>::empty(),
        },
        r.artist@ == match artists {
            Some(a) => join_seq(texts(a@), ", "@),
            None => Seq::<char>::empty(),
        },
        r.playing == is_playing(status@),
{
    let player = match identity {
        Some(i) => i,
        None => name.to_string(),
    };
    let title = match title {
        Some(t) => t,
        None => String::new(),
    };
    let artist = match artists {
        Some(a) => join_strings(&a, ", "),
        None => String::new(),
    };
    let playing = str_eq(status, "Playing");
    MediaState { player, title, artist, playing }
}

} // verus!
