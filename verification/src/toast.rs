//! Toasts: the floating notification cards. Every toast goes through
//! [`Toasts`]: one card at a time, queued in arrival order, alarms cutting in
//! front, a flood trimmed to the newest few, and the card on screen hurried
//! along when others wait. Times are milliseconds on one monotonic clock;
//! each card carries the caller's own data (`extra`: placement, icon …).
use std::collections::VecDeque;
use vstd::prelude::*;

verus! {

/// The card's unfold (line, then the card opening), milliseconds.
pub const ENTER_MS: u64 = 340;
/// The card's fold back into its line, milliseconds.
pub const EXIT_MS: u64 = 260;
/// With more cards waiting, the one on screen gets at most this long more.
pub const HURRY_MS: u64 = 1600;
/// An alarm cutting in gives the card on screen this long more.
pub const ALARM_HURRY_MS: u64 = 600;
/// A flood (Discord…) keeps only the latest few.
pub const QUEUE_CAP: usize = 8;

/// What a toast is about — picks its glyph, accent colour, size and dwell.
#[derive(Clone, Copy, PartialEq, Eq, Structural, Debug)]
pub enum Kind {
    /// A desktop (D-Bus) or XSOverlay notification: app eyebrow, icon, body.
    Notification,
    /// The countdown reached zero.
    Timer,
    /// A device is running low.
    Battery,
    /// A neutral hint ("No screen selected").
    Info,
    /// Something didn't happen and needs the user ("Launch it in Steam first").
    Warning,
    /// "Done" feedback for an action taken while the dashboard was hidden.
    Confirm,
    /// The boot greeting.
    Welcome,
    /// Live size / distance / curve while a screen is gripped (updated in place).
    Readout,
}

/// Where a notification came from (shown as a small glyph in the eyebrow).
#[derive(Clone, Copy, PartialEq, Eq, Structural, Debug)]
pub enum Source {
    Desktop,
    XsOverlay,
}

/// How much card a kind gets.
#[derive(Clone, Copy, PartialEq, Eq, Structural, Debug)]
pub enum Size {
    /// One-line pill: glyph + title.
    Compact,
    /// Icon chip + title + body.
    Card,
}

impl Kind {
    pub open spec fn spec_size(self) -> Size {
        match self {
            Kind::Confirm => Size::Compact,
            _ => Size::Card,
        }
    }

    pub fn size(self) -> (r: Size)
        ensures
            r == self.spec_size(),
    {
        match self {
            Kind::Confirm => Size::Compact,
            _ => Size::Card,
        }
    }

    /// Default dwell: milliseconds fully open, between unfold and fold.
    pub open spec fn spec_dwell(self) -> u64 {
        match self {
            Kind::Notification => 5000,
            Kind::Timer | Kind::Battery | Kind::Warning | Kind::Welcome => 6000,
            Kind::Info => 3500,
            Kind::Confirm => 2000,
            Kind::Readout => 700,
        }
    }

    pub fn dwell(self) -> (r: u64)
        ensures
            r == self.spec_dwell(),
    {
        match self {
            Kind::Notification => 5000,
            Kind::Timer | Kind::Battery | Kind::Warning | Kind::Welcome => 6000,
            Kind::Info => 3500,
            Kind::Confirm => 2000,
            Kind::Readout => 700,
        }
    }

    /// Alarms cut in front of whatever is queued.
    pub open spec fn spec_urgent(self) -> bool {
        match self {
            Kind::Timer | Kind::Battery | Kind::Warning | Kind::Welcome | Kind::Confirm => true,
            _ => false,
        }
    }

    pub fn urgent(self) -> (r: bool)
        ensures
            r == self.spec_urgent(),
    {
        match self {
            Kind::Timer | Kind::Battery | Kind::Warning | Kind::Welcome | Kind::Confirm => true,
            _ => false,
        }
    }
}

/// `a + b`, capped at the clock's end.
pub open spec fn sat_add(a: u64, b: u64) -> u64 {
    if a + b > u64::MAX {
        u64::MAX
    } else {
        (a + b) as u64
    }
}

fn add_sat(a: u64, b: u64) -> (r: u64)
    ensures
        r == sat_add(a, b),
{
    if a > u64::MAX - b {
        u64::MAX
    } else {
        a + b
    }
}

/// One card. Build with [`Toast::new`] + the chained setters, hand to [`Toasts`].
pub struct Toast<P> {
    pub kind: Kind,
    /// Eyebrow above the title (the sending app, for notifications).
    pub app: String,
    pub title: String,
    pub body: String,
    pub source: Option<Source>,
    /// Milliseconds fully open.
    pub millis: u64,
    /// The caller placed it (a readout floats over its screen): don't place
    /// it in front of the head.
    pub placed: bool,
    /// Re-place in front of the head every frame.
    pub follow: bool,
    /// When it started showing.
    pub shown_at: Option<u64>,
    /// When it is gone.
    pub until: u64,
    /// The caller's own data for this card.
    pub extra: P,
}

impl<P> Toast<P> {
    /// A card of `kind` with the kind's dwell, not yet shown.
    pub fn new(kind: Kind, title: String, body: String, extra: P) -> (r: Self)
        ensures
            r.kind == kind && r.title == title && r.body == body && r.extra == extra,
            r.app@.len() == 0 && r.source is None,
            r.millis == kind.spec_dwell(),
            !r.placed && !r.follow && r.shown_at is None && r.until == 0,
    {
        Toast {
            kind,
            app: String::new(),
            title,
            body,
            source: None,
            millis: kind.dwell(),
            placed: false,
            follow: false,
            shown_at: None,
            until: 0,
            extra,
        }
    }

    /// Dwell time, milliseconds.
    pub fn millis(self, ms: u64) -> (r: Self)
        ensures
            r == (Toast { millis: ms, ..self }),
    {
        Toast { millis: ms, ..self }
    }

    pub fn app(self, app: String) -> (r: Self)
        ensures
            r == (Toast { app: app, ..self }),
    {
        Toast { app, ..self }
    }

    pub fn source(self, source: Source) -> (r: Self)
        ensures
            r == (Toast { source: Some(source), ..self }),
    {
        Toast { source: Some(source), ..self }
    }

    pub fn follow(self) -> (r: Self)
        ensures
            r == (Toast { follow: true, ..self }),
    {
        Toast { follow: true, ..self }
    }

    /// Placed by the caller (its `extra` says where).
    pub fn at(self) -> (r: Self)
        ensures
            r == (Toast { placed: true, ..self }),
    {
        Toast { placed: true, ..self }
    }

    /// Full lifetime from the first frame: unfold + dwell + fold.
    pub open spec fn lifetime(&self) -> u64 {
        sat_add(sat_add(ENTER_MS, self.millis), EXIT_MS)
    }

    /// Shown from `now` for its lifetime.
    pub open spec fn started(self, now: u64) -> Self {
        Toast { shown_at: Some(now), until: sat_add(now, self.lifetime()), ..self }
    }

    fn start(&mut self, now: u64)
        ensures
            *final(self) == old(self).started(now),
    {
        self.shown_at = Some(now);
        let life = add_sat(add_sat(ENTER_MS, self.millis), EXIT_MS);
        self.until = add_sat(now, life);
    }

    /// Its end brought forward so it's gone within `ms` (fold included).
    pub open spec fn hurried(self, now: u64, ms: u64) -> Self {
        let soonest = sat_add(sat_add(now, ms), EXIT_MS);
        if self.until > soonest {
            Toast { until: soonest, ..self }
        } else {
            self
        }
    }

    fn hurry(&mut self, now: u64, ms: u64)
        ensures
            *final(self) == old(self).hurried(now, ms),
    {
        let soonest = add_sat(add_sat(now, ms), EXIT_MS);
        if self.until > soonest {
            self.until = soonest;
        }
    }
}

/// Index of the first card that is not an alarm, or -1.
pub open spec fn first_plain<P>(q: Seq<Toast<P>>) -> int
    decreases q.len(),
{
    if q.len() == 0 {
        -1
    } else {
        let i = first_plain(q.drop_last());
        if i >= 0 {
            i
        } else if !q.last().kind.spec_urgent() {
            q.len() - 1
        } else {
            -1
        }
    }
}

/// A queue over the cap loses its oldest non-alarm cards until it fits (or
/// only alarms are left).
pub open spec fn capped<P>(q: Seq<Toast<P>>) -> Seq<Toast<P>>
    decreases q.len(),
{
    if q.len() <= QUEUE_CAP {
        q
    } else {
        let i = first_plain(q);
        if i < 0 || i >= q.len() {
            q
        } else {
            capped(q.remove(i))
        }
    }
}

/// The queue: one card showing, the rest waiting in arrival order.
pub struct Toasts<P> {
    pub current: Option<Toast<P>>,
    pub queue: VecDeque<Toast<P>>,
}

proof fn lemma_first_plain<P>(q: Seq<Toast<P>>)
    ensures
        -1 <= first_plain(q) < q.len(),
        first_plain(q) >= 0 ==> !q[first_plain(q)].kind.spec_urgent(),
        first_plain(q) >= 0 ==> forall|k: int| 0 <= k < first_plain(q) ==> q[k].kind.spec_urgent(),
        first_plain(q) < 0 ==> forall|k: int| 0 <= k < q.len() ==> q[k].kind.spec_urgent(),
    decreases q.len(),
{
    if q.len() > 0 {
        let d = q.drop_last();
        lemma_first_plain(d);
        assert forall|k: int| 0 <= k < d.len() implies d[k] == q[k] by {}
    }
}

impl<P> Toasts<P> {
    pub fn new() -> (r: Self)
        ensures
            r.current is None && r.queue@.len() == 0,
    {
        Toasts { current: None, queue: VecDeque::new() }
    }

    fn first_plain_index(&self) -> (r: Option<usize>)
        ensures
            match r {
                Some(i) => i as int == first_plain(self.queue@),
                None => first_plain(self.queue@) == -1,
            },
    {
        proof {
            lemma_first_plain(self.queue@);
        }
        let mut i: usize = 0;
        while i < self.queue.len()
            invariant
                0 <= i <= self.queue@.len(),
                forall|k: int| 0 <= k < i ==> self.queue@[k].kind.spec_urgent(),
            decreases self.queue@.len() - i,
        {
            if !self.queue[i].kind.urgent() {
                proof {
                    lemma_first_plain(self.queue@);
                    let f = first_plain(self.queue@);
                    assert(!self.queue@[i as int].kind.spec_urgent());
                    if f >= 0 && f < i {
                        assert(self.queue@[f].kind.spec_urgent());
                    }
                    if f < 0 {
                        assert(self.queue@[i as int].kind.spec_urgent());
                    }
                }
                return Some(i);
            }
            i += 1;
        }
        None
    }

    /// Queue a card (at `now`). Alarms go to the front and hurry whatever is
    /// showing; the rest wait their turn (a flood keeps only the newest few).
    pub fn push(&mut self, t: Toast<P>, now: u64)
        ensures
            t.kind.spec_urgent() ==> {
                &&& final(self).queue@ == seq![t] + old(self).queue@
                &&& final(self).current == match old(self).current {
                    Some(c) => Some(c.hurried(now, ALARM_HURRY_MS)),
                    None => None,
                }
            },
            !t.kind.spec_urgent() ==> {
                &&& final(self).queue@ == capped(old(self).queue@.push(t))
                &&& final(self).current == old(self).current
            },
    {
        if t.kind.urgent() {
            self.queue.push_front(t);
            match &mut self.current {
                Some(c) => c.hurry(now, ALARM_HURRY_MS),
                None => {},
            }
        } else {
            self.queue.push_back(t);
            while self.queue.len() > QUEUE_CAP
                invariant_except_break
                    capped(old(self).queue@.push(t)) == capped(self.queue@),
                    self.current == old(self).current,
                ensures
                    capped(old(self).queue@.push(t)) == self.queue@,
                    self.current == old(self).current,
                decreases self.queue@.len(),
            {
                match self.first_plain_index() {
                    Some(i) => {
                        proof {
                            lemma_first_plain(self.queue@);
                        }
                        let ghost before = self.queue@;
                        self.queue.remove(i);
                        assert(self.queue@ == before.remove(i as int));
                    },
                    None => {
                        break;
                    },
                }
            }
        }
    }

    /// The live readout while a screen is gripped (at `now`): updates the
    /// showing readout in place (no re-animation), or takes over from
    /// whatever is up, which returns to the front of the queue.
    pub fn readout(&mut self, title: String, body: String, extra: P, now: u64)
        ensures
            match old(self).current {
                Some(c) if c.kind == Kind::Readout => {
                    &&& final(self).queue@ == old(self).queue@
                    &&& final(self).current == Some(
                        Toast {
                            title: title,
                            body: body,
                            extra: extra,
                            until: sat_add(now, (Kind::Readout.spec_dwell() + EXIT_MS) as u64),
                            ..c
                        },
                    )
                },
                Some(c) => {
                    &&& final(self).queue@ == seq![Toast { shown_at: None, ..c }] + old(self).queue@
                    &&& final(self).current matches Some(n) && fresh_readout(n, title, body, extra, now)
                },
                None => {
                    &&& final(self).queue@ == old(self).queue@
                    &&& final(self).current matches Some(n) && fresh_readout(n, title, body, extra, now)
                },
            },
    {
        let is_readout = match &self.current {
            Some(c) => c.kind == Kind::Readout,
            None => false,
        };
        if is_readout {
            match &mut self.current {
                Some(c) => {
                    c.title = title;
                    c.body = body;
                    c.extra = extra;
                    c.until = add_sat(now, Kind::Readout.dwell() + EXIT_MS);
                },
                None => {},
            }
        } else {
            match self.current.take() {
                Some(c) => {
                    let c = Toast { shown_at: None, ..c };
                    self.queue.push_front(c);
                },
                None => {},
            }
            let mut t = Toast::new(Kind::Readout, title, body, extra).at();
            t.start(now);
            self.current = Some(t);
        }
    }

    /// Expire the showing card, start the next (at `now`). Returns the kind
    /// that just started (for a chime). Cards the caller didn't place wait
    /// for a head pose (`hmd_known`).
    pub fn tick(&mut self, now: u64, hmd_known: bool) -> (r: Option<Kind>)
        ensures
            ({
                let cur = match old(self).current {
                    Some(c) => if now >= c.until {
                        None
                    } else {
                        Some(c)
                    },
                    None => None,
                };
                match cur {
                    Some(c) => {
                        &&& r is None
                        &&& final(self).queue@ == old(self).queue@
                        &&& final(self).current == Some(
                            if old(self).queue@.len() > 0 && c.kind == Kind::Notification {
                                c.hurried(now, HURRY_MS)
                            } else {
                                c
                            },
                        )
                    },
                    None => {
                        if old(self).queue@.len() == 0 || (!old(self).queue@[0].placed && !hmd_known) {
                            &&& r is None
                            &&& final(self).queue@ == old(self).queue@
                            &&& final(self).current == cur
                        } else {
                            &&& r == Some(old(self).queue@[0].kind)
                            &&& final(self).queue@ == old(self).queue@.drop_first()
                            &&& final(self).current == Some(old(self).queue@[0].started(now))
                        }
                    },
                }
            }),
    {
        let expired = match &self.current {
            Some(c) => now >= c.until,
            None => false,
        };
        if expired {
            self.current = None;
        }
        let waiting = self.queue.len() > 0;
        match &mut self.current {
            Some(c) => {
                if waiting && c.kind == Kind::Notification {
                    c.hurry(now, HURRY_MS);
                }
                return None;
            },
            None => {},
        }
        if self.queue.len() == 0 {
            return None;
        }
        if !self.queue[0].placed && !hmd_known {
            return None;
        }
        let mut t = match self.queue.pop_front() {
            Some(t) => t,
            None => return None,
        };
        t.start(now);
        let kind = t.kind;
        self.current = Some(t);
        Some(kind)
    }

    pub fn active(&self) -> (r: bool)
        ensures
            r == self.current is Some,
    {
        self.current.is_some()
    }

    /// Cards waiting behind the one on screen.
    pub fn queued(&self) -> (r: usize)
        ensures
            r == self.queue@.len(),
    {
        self.queue.len()
    }
}

/// A readout card just started at `now` over the caller's placement.
pub open spec fn fresh_readout<P>(t: Toast<P>, title: String, body: String, extra: P, now: u64) -> bool {
    &&& t.kind == Kind::Readout
    &&& t.title == title && t.body == body && t.extra == extra
    &&& t.app@.len() == 0 && t.source is None
    &&& t.millis == Kind::Readout.spec_dwell()
    &&& t.placed && !t.follow
    &&& t.shown_at == Some(now)
    &&& t.until == sat_add(now, sat_add(sat_add(ENTER_MS, Kind::Readout.spec_dwell()), EXIT_MS))
}

/// An alarm card.
pub open spec fn is_alarm<P>(t: Toast<P>) -> bool {
    t.kind.spec_urgent()
}

/// Not an alarm.
pub open spec fn is_plain<P>(t: Toast<P>) -> bool {
    !t.kind.spec_urgent()
}

/// The alarms of a queue, in order.
pub open spec fn alarms<P>(q: Seq<Toast<P>>) -> Seq<Toast<P>> {
    q.filter(|t: Toast<P>| is_alarm(t))
}

/// The plain cards of a queue, in order.
pub open spec fn plains<P>(q: Seq<Toast<P>>) -> Seq<Toast<P>> {
    q.filter(|t: Toast<P>| is_plain(t))
}

proof fn lemma_filter_all<P>(q: Seq<Toast<P>>, f: spec_fn(Toast<P>) -> bool)
    requires
        forall|k: int| 0 <= k < q.len() ==> f(q[k]),
    ensures
        q.filter(f) == q,
    decreases q.len(),
{
    reveal(Seq::filter);
    if q.len() > 0 {
        lemma_filter_all(q.drop_last(), f);
        assert(q.drop_last().push(q.last()) =~= q);
    }
}

proof fn lemma_filter_none<P>(q: Seq<Toast<P>>, f: spec_fn(Toast<P>) -> bool)
    requires
        forall|k: int| 0 <= k < q.len() ==> !f(q[k]),
    ensures
        q.filter(f) == Seq::<Toast<P>>::empty(),
    decreases q.len(),
{
    reveal(Seq::filter);
    if q.len() > 0 {
        lemma_filter_none(q.drop_last(), f);
    }
}

/// Dropping the oldest plain card keeps every alarm and the other plain
/// cards, in order.
proof fn lemma_drop_first_plain<P>(q: Seq<Toast<P>>)
    requires
        0 <= first_plain(q) < q.len(),
    ensures
        alarms(q.remove(first_plain(q))) == alarms(q),
        plains(q.remove(first_plain(q))) == plains(q).drop_first(),
{
    lemma_first_plain(q);
    let i = first_plain(q);
    let fa = |t: Toast<P>| is_alarm(t);
    let fp = |t: Toast<P>| is_plain(t);
    let a = q.take(i);
    let m = seq![q[i]];
    let b = q.skip(i + 1);
    assert(q =~= a + m + b);
    assert(q.remove(i) =~= a + b);
    Seq::filter_distributes_over_add(a + m, b, fa);
    Seq::filter_distributes_over_add(a, m, fa);
    Seq::filter_distributes_over_add(a, b, fa);
    Seq::filter_distributes_over_add(a + m, b, fp);
    Seq::filter_distributes_over_add(a, m, fp);
    Seq::filter_distributes_over_add(a, b, fp);
    lemma_filter_all(a, fa);
    lemma_filter_none(a, fp);
    lemma_filter_none(m, fa);
    lemma_filter_all(m, fp);
    assert(a.filter(fp) + m.filter(fp) + b.filter(fp) =~= m + b.filter(fp));
    assert((m + b.filter(fp)).drop_first() =~= b.filter(fp));
    assert(a.filter(fp) + b.filter(fp) =~= b.filter(fp));
}

/// The alarms, which cut in front of whatever is queued, are exactly the
/// timer, a low battery, a warning, the welcome and a confirmation; a
/// notification, an info hint and a live readout wait their turn.
pub proof fn alarms_are_the_urgent_kinds()
    ensures
        Kind::Timer.spec_urgent(),
        Kind::Battery.spec_urgent(),
        Kind::Warning.spec_urgent(),
        Kind::Welcome.spec_urgent(),
        Kind::Confirm.spec_urgent(),
        !Kind::Notification.spec_urgent(),
        !Kind::Info.spec_urgent(),
        !Kind::Readout.spec_urgent(),
{
}

/// A flood keeps every alarm and the newest plain cards: after capping, the
/// alarms are all still there in order, the plain cards left are the last
/// ones that arrived (in order), and the queue fits the cap unless only
/// alarms are left.
pub proof fn capped_keeps_alarms_and_the_newest<P>(q: Seq<Toast<P>>)
    ensures
        alarms(capped(q)) == alarms(q),
        exists|k: int| 0 <= k <= plains(q).len() && plains(capped(q)) == #[trigger] plains(q).skip(k),
        capped(q).len() <= QUEUE_CAP || forall|j: int| 0 <= j < capped(q).len() ==> is_alarm(#[trigger] capped(q)[j]),
    decreases q.len(),
{
    let fp = |t: Toast<P>| is_plain(t);
    lemma_first_plain(q);
    if q.len() <= QUEUE_CAP {
        assert(plains(q).skip(0) =~= plains(q));
    } else {
        let i = first_plain(q);
        if i < 0 || i >= q.len() {
            assert(plains(q).skip(0) =~= plains(q));
        } else {
            let r = q.remove(i);
            lemma_drop_first_plain(q);
            capped_keeps_alarms_and_the_newest(r);
            let k = choose|k: int| 0 <= k <= plains(r).len() && plains(capped(r)) == #[trigger] plains(r).skip(k);
            assert(plains(q).len() > 0) by {
                reveal(Seq::filter);
                let fa = |t: Toast<P>| is_alarm(t);
                let a = q.take(i);
                let m = seq![q[i]];
                let b = q.skip(i + 1);
                assert(q =~= a + m + b);
                Seq::filter_distributes_over_add(a + m, b, fp);
                Seq::filter_distributes_over_add(a, m, fp);
                lemma_filter_all(m, fp);
            }
            assert(plains(r).skip(k) =~= plains(q).skip(k + 1));
            assert(plains(capped(r)) == plains(q).skip(k + 1));
            assert(capped(q) == capped(r));
        }
    }
}

} // verus!
