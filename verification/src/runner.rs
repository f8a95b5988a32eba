//! Scheduling decisions of the script runner: which scheduled event is
//! taken next, when a wait ends, which frame is captured, and when the run
//! is over. Times are nanoseconds since the run started.

use vstd::prelude::*;
use crate::script::ast::{Event, EventView};

verus! {

/// When the runner next wakes: at the next frame tick but no later than a
/// millisecond after the timeline's end; sooner for a pending wait's
/// deadline or, with no wait pending, the next scheduled event; never
/// before `now`.
pub open spec fn spec_next_deadline(now: u64, wait_deadline: Option<u64>, next_event_at: Option<u64>, next_frame: u64, total: u64) -> u64 {
    let a = if next_frame <= total + 1_000_000 { next_frame } else { (total + 1_000_000) as u64 };
    let b = match wait_deadline {
        Some(d) => if d < a { d } else { a },
        None => match next_event_at {
            Some(t) => if t < a { t } else { a },
            None => a,
        },
    };
    if b >= now { b } else { now }
}

/// The next time the runner wakes; see [`spec_next_deadline`].
pub fn compute_next_deadline(now: u64, wait_deadline: Option<u64>, next_event_at: Option<u64>, next_frame: u64, total: u64) -> (r: u64)
    requires
        total + 1_000_000 <= u64::MAX,
    ensures
        r == spec_next_deadline(now, wait_deadline, next_event_at, next_frame, total),
        r >= now,
{
    let cap = total + 1_000_000;
    let mut next = if next_frame <= cap { next_frame } else { cap };
    match wait_deadline {
        Some(d) => {
            if d < next {
                next = d;
            }
        },
        None => {
            match next_event_at {
                Some(t) => {
                    if t < next {
                        next = t;
                    }
                },
                None => {},
            }
        },
    }
    if next >= now { next } else { now }
}

/// What the runner's decisions read of a scheduled event: whether it
/// starts a wait (and for how long), hides or shows the recording, or is
/// input for the terminal.
#[derive(Clone, Copy, Debug, PartialEq, Eq, Structural)]
pub enum ScheduledKind {
    Input,
    Wait { timeout: u64 },
    Hide,
    Show,
}

/// An event of the timeline with the time it is due.
#[derive(Clone, Copy, Debug, PartialEq, Eq, Structural)]
pub struct Scheduled {
    pub at: u64,
    pub kind: ScheduledKind,
}

/// The part of the runner's state that its event decisions read and
/// change: the next event of the timeline, whether events are hidden, and
/// the deadline of a pending wait.
#[derive(Clone, Copy, Debug)]
pub struct LoopState {
    pub event_idx: usize,
    pub hidden: bool,
    pub wait_deadline: Option<u64>,
}

/// What one look at the timeline decided.
#[derive(Clone, Copy, Debug, PartialEq, Eq, Structural)]
pub enum EventStep {
    /// No event is due, or a wait is pending.
    Idle,
    /// The next event was due but hidden: passed over.
    Skip,
    /// The event at this index is due and is to be executed.
    Dispatch(usize),
}

/// The state before the run's first event.
pub open spec fn spec_initial_state() -> LoopState {
    LoopState { event_idx: 0, hidden: false, wait_deadline: None }
}

/// The state before the run's first event: nothing hidden, no wait.
pub fn initial_state() -> (r: LoopState)
    ensures
        r == spec_initial_state(),
{
    LoopState { event_idx: 0, hidden: false, wait_deadline: None }
}

/// A pending wait after the screen was checked: it ends when its pattern
/// matched or its deadline has passed.
pub open spec fn spec_resolve_wait(wait_deadline: Option<u64>, matched: bool, now: u64) -> Option<u64> {
    match wait_deadline {
        Some(d) => if matched || now >= d { None } else { Some(d) },
        None => None,
    }
}

/// Resolves a pending wait; see [`spec_resolve_wait`].
pub fn resolve_wait(wait_deadline: Option<u64>, matched: bool, now: u64) -> (r: Option<u64>)
    ensures
        r == spec_resolve_wait(wait_deadline, matched, now),
{
    match wait_deadline {
        Some(d) => {
            if matched || now >= d {
                None
            } else {
                Some(d)
            }
        },
        None => None,
    }
}

/// One look at the timeline at time `now`. With no wait pending and the
/// next event due, that event is taken: passed over while events are
/// hidden (but for `Show`), else dispatched, `Hide` and `Show` setting
/// whether later events are hidden. Otherwise nothing changes.
pub open spec fn spec_next_event(st: LoopState, timeline: Seq<Scheduled>, now: u64) -> (LoopState, EventStep) {
    if st.wait_deadline is None && st.event_idx < timeline.len() && timeline[st.event_idx as int].at <= now {
        let kind = timeline[st.event_idx as int].kind;
        let moved = LoopState { event_idx: (st.event_idx + 1) as usize, ..st };
        if st.hidden && !(kind is Show) {
            (moved, EventStep::Skip)
        } else {
            let hidden = match kind {
                ScheduledKind::Hide => true,
                ScheduledKind::Show => false,
                _ => st.hidden,
            };
            (LoopState { hidden, ..moved }, EventStep::Dispatch(st.event_idx))
        }
    } else {
        (st, EventStep::Idle)
    }
}

/// One look at the timeline; see [`spec_next_event`]. The runner calls it
/// until it answers [`EventStep::Idle`], executing each dispatched event,
/// and starting a wait with [`start_wait`] when that event is a `Wait`.
pub fn next_event(st: &LoopState, timeline: &[Scheduled], now: u64) -> (r: (LoopState, EventStep))
    ensures
        r == spec_next_event(*st, timeline@, now),
{
    if st.wait_deadline.is_none() && st.event_idx < timeline.len() && timeline[st.event_idx].at <= now {
        let kind = timeline[st.event_idx].kind;
        let moved = LoopState { event_idx: st.event_idx + 1, hidden: st.hidden, wait_deadline: st.wait_deadline };
        let is_show = match kind {
            ScheduledKind::Show => true,
            _ => false,
        };
        if st.hidden && !is_show {
            (moved, EventStep::Skip)
        } else {
            let hidden = match kind {
                ScheduledKind::Hide => true,
                ScheduledKind::Show => false,
                _ => st.hidden,
            };
            (LoopState { hidden, ..moved }, EventStep::Dispatch(st.event_idx))
        }
    } else {
        (*st, EventStep::Idle)
    }
}

/// The state once a dispatched `Wait` started at `elapsed`: its deadline is
/// `timeout` later (the last representable time where that would pass
/// it).
pub fn start_wait(st: &LoopState, elapsed: u64, timeout: u64) -> (r: LoopState)
    ensures
        r == (LoopState {
            wait_deadline: Some(if elapsed + timeout <= u64::MAX { (elapsed + timeout) as u64 } else { u64::MAX }),
            ..*st
        }),
{
    LoopState { wait_deadline: Some(elapsed.saturating_add(timeout)), ..*st }
}

/// The next frame to capture at time `now`, with the tick after it: the
/// next tick when it has come and the recording window (which ends at
/// `total`) still holds it.
pub fn next_capture(next_frame_at: u64, now: u64, total: u64, interval: u64) -> (r: Option<(u64, u64)>)
    requires
        total + interval <= u64::MAX,
    ensures
        r == (if next_frame_at <= now && next_frame_at <= total {
            Some((next_frame_at, (next_frame_at + interval) as u64))
        } else {
            None
        }),
{
    if next_frame_at <= now && next_frame_at <= total {
        Some((next_frame_at, next_frame_at + interval))
    } else {
        None
    }
}

/// Whether the run is over: every event taken, no wait pending, and every
/// frame of the recording window captured.
pub fn run_finished(st: &LoopState, timeline_len: usize, next_frame_at: u64, total: u64) -> (r: bool)
    ensures
        r == (st.event_idx >= timeline_len && st.wait_deadline is None && next_frame_at > total),
{
    st.event_idx >= timeline_len && st.wait_deadline.is_none() && next_frame_at > total
}

/// Events are taken in timeline order, one per look: a look that takes
/// one moves to the next event of the timeline, and one that takes none
/// changes nothing; no look moves past the timeline's end or takes an
/// event that is not yet due or while a wait is pending.
pub proof fn lemma_events_taken_in_order(st: LoopState, timeline: Seq<Scheduled>, now: u64)
    requires
        st.event_idx <= timeline.len(),
        timeline.len() <= usize::MAX,
    ensures
        ({
            let (st2, step) = spec_next_event(st, timeline, now);
            &&& st2.event_idx <= timeline.len()
            &&& st2.wait_deadline == st.wait_deadline
            &&& (step is Idle <==> st2 == st)
            &&& (step is Idle <==> !(st.wait_deadline is None && st.event_idx < timeline.len()
                && timeline[st.event_idx as int].at <= now))
            &&& !(step is Idle) ==> st2.event_idx == st.event_idx + 1
            &&& step matches EventStep::Dispatch(i) ==> i == st.event_idx && (!st.hidden
                || timeline[i as int].kind is Show)
        }),
{
}

/// Once hidden, events other than `Show` are passed over, and nothing is
/// hidden again until a `Show` is dispatched.
pub proof fn lemma_hidden_until_show(st: LoopState, timeline: Seq<Scheduled>, now: u64)
    requires
        st.hidden,
    ensures
        ({
            let (st2, step) = spec_next_event(st, timeline, now);
            &&& step is Skip ==> st2.hidden
            &&& step is Dispatch ==> !st2.hidden && timeline[st.event_idx as int].kind is Show
        }),
{
}

/// A copy of an event.
pub fn copy_event(e: &Event) -> (r: Event)
    ensures
        r@ == e@,
{
    match e {
        Event::Type { text, delay } => Event::Type { text: text.clone(), delay: *delay },
        Event::Sleep(d) => Event::Sleep(*d),
        Event::Key { key, action, count, delay } => Event::Key { key: *key, action: *action, count: *count, delay: *delay },
        Event::Wait { scope, timeout, pattern } => Event::Wait { scope: *scope, timeout: *timeout, pattern: pattern.clone() },
        Event::Screenshot(p) => Event::Screenshot(p.clone()),
        Event::Copy(t) => Event::Copy(t.clone()),
        Event::Paste => Event::Paste,
        Event::Hide => Event::Hide,
        Event::Show => Event::Show,
        Event::Click { col, row, mods, delay } => Event::Click { col: *col, row: *row, mods: *mods, delay: *delay },
        Event::RightClick { col, row, mods, delay } => Event::RightClick { col: *col, row: *row, mods: *mods, delay: *delay },
        Event::DoubleClick { col, row, mods, delay } => Event::DoubleClick { col: *col, row: *row, mods: *mods, delay: *delay },
        Event::MouseDrag { start_col, start_row, end_col, end_row, mods, delay, easing } => Event::MouseDrag {
            start_col: *start_col,
            start_row: *start_row,
            end_col: *end_col,
            end_row: *end_row,
            mods: *mods,
            delay: *delay,
            easing: *easing,
        },
        Event::MouseMove { start_col, start_row, end_col, end_row, mods, delay, easing } => Event::MouseMove {
            start_col: *start_col,
            start_row: *start_row,
            end_col: *end_col,
            end_row: *end_row,
            mods: *mods,
            delay: *delay,
            easing: *easing,
        },
        Event::MouseScroll { col, row, direction, mods, delay } => Event::MouseScroll {
            col: *col,
            row: *row,
            direction: *direction,
            mods: *mods,
            delay: *delay,
        },
        Event::MouseInput { action, button, col, row } => Event::MouseInput { action: *action, button: *button, col: *col, row: *row },
    }
}

/// An event of the run's timeline with the time it is due.
pub struct TimedEvent {
    pub at: u64,
    pub event: Event,
}

/// Model of a timeline: each entry's time and event.
pub open spec fn timed_view(v: Seq<TimedEvent>) -> Seq<(int, EventView)> {
    Seq::new(v.len(), |i: int| (v[i].at as int, v[i].event@))
}

/// The entries one event adds to the timeline when the cursor stands at
/// `cursor`, and where the cursor stands after it. Typed text becomes one
/// entry per character and a key one entry per press (at least one), each
/// `delay` after the one before, the first at the cursor; a pause moves
/// the cursor on; any other event is one entry at the cursor.
pub open spec fn event_entries(e: EventView, cursor: int) -> (Seq<(int, EventView)>, int) {
    match e {
        EventView::Type { text, delay } => (
            Seq::new(text.len(), |i: int| (cursor + i * delay, EventView::Type { text: seq![text[i]], delay: 0 })),
            if text.len() > 0 { cursor + (text.len() - 1) * delay } else { cursor },
        ),
        EventView::Sleep(d) => (Seq::empty(), cursor + d),
        EventView::Key { key, action, count, delay } => {
            let n: int = if count >= 1 { count as int } else { 1 };
            (
                Seq::new(n as nat, |i: int| (cursor + i * delay, EventView::Key { key, action, count: 1, delay: 0 })),
                cursor + (n - 1) * delay,
            )
        },
        _ => (seq![(cursor, e)], cursor),
    }
}

/// The timeline of a run, with the time its last pause or entry ends:
/// the entries of each event in turn, the cursor starting at zero.
pub open spec fn spec_timeline(events: Seq<EventView>) -> (Seq<(int, EventView)>, int)
    decreases events.len(),
{
    if events.len() == 0 {
        (Seq::empty(), 0)
    } else {
        let (prev, c) = spec_timeline(events.drop_last());
        let (more, c2) = event_entries(events.last(), c);
        (prev + more, c2)
    }
}

proof fn lemma_entries_advance(e: EventView, c: int)
    requires
        c >= 0,
    ensures
        event_entries(e, c).1 >= c,
{
    match e {
        EventView::Type { text, delay } => {
            if text.len() > 0 {
                assert((text.len() - 1) * delay >= 0) by (nonlinear_arith)
                    requires
                        text.len() >= 1,
                        delay >= 0,
                ;
            }
        },
        EventView::Key { count, delay, .. } => {
            let n: int = if count >= 1 { count as int } else { 1 };
            assert((n - 1) * delay >= 0) by (nonlinear_arith)
                requires
                    n >= 1,
                    delay >= 0,
            ;
        },
        _ => {},
    }
}

/// The cursor never goes back: the end of a prefix of the events is at
/// most the end of all of them.
proof fn lemma_timeline_end_grows(events: Seq<EventView>, k: int)
    requires
        0 <= k <= events.len(),
    ensures
        0 <= spec_timeline(events.take(k)).1 <= spec_timeline(events).1,
    decreases events.len(),
{
    if events.len() > 0 {
        let d = events.drop_last();
        lemma_timeline_end_grows(d, d.len() as int);
        assert(d.take(d.len() as int) =~= d);
        lemma_entries_advance(events.last(), spec_timeline(d).1);
        if k == events.len() {
            assert(events.take(k) =~= events);
            lemma_timeline_end_grows(d, d.len() as int);
            assert(d.take(d.len() as int) =~= d);
        } else {
            lemma_timeline_end_grows(d, k);
            assert(d.take(k) =~= events.take(k));
            lemma_timeline_end_grows(d, d.len() as int);
            assert(d.take(d.len() as int) =~= d);
        }
    }
}

proof fn lemma_next_tick(j: int, n: int, d: int)
    requires
        1 <= j < n,
        d >= 0,
    ensures
        (j - 1) * d + d == j * d,
        0 <= j * d <= (n - 1) * d,
{
    assert((j - 1) * d + d == j * d) by (nonlinear_arith);
    assert(0 <= j * d <= (n - 1) * d) by (nonlinear_arith)
        requires
            1 <= j < n,
            d >= 0,
    ;
}

/// Appends the entries of one event at `cursor` and gives the cursor after
/// it.
fn push_entries(out: &mut Vec<TimedEvent>, e: &Event, cursor: u64) -> (r: u64)
    requires
        event_entries(e@, cursor as int).1 <= u64::MAX,
    ensures
        timed_view(final(out)@) == timed_view(old(out)@) + event_entries(e@, cursor as int).0,
        r == event_entries(e@, cursor as int).1,
{
    let ghost before = timed_view(out@);
    let ghost ee = event_entries(e@, cursor as int);
    match e {
        Event::Type { text, delay } => {
            let chars = crate::text::chars_of(text.as_str());
            let n = chars.len();
            let mut c = cursor;
            let mut j: usize = 0;
            while j < n
                invariant
                    n == chars@.len(),
                    chars@ == text@,
                    ee == event_entries(e@, cursor as int),
                    e@ == (EventView::Type { text: text@, delay: *delay }),
                    ee.1 <= u64::MAX,
                    j <= n,
                    c == (if j == 0 { cursor as int } else { cursor + (j - 1) * *delay }),
                    timed_view(out@) == before + ee.0.take(j as int),
                decreases n - j,
            {
                let ghost c0 = c;
                if j > 0 {
                    proof {
                        lemma_next_tick(j as int, n as int, *delay as int);
                    }
                    c = c + *delay;
                }
                proof {
                    let jj = j as int;
                    let dd = *delay as int;
                    let cc = c as int;
                    let cu = cursor as int;
                    let c0i = c0 as int;
                    assert(cc == cu + jj * dd) by (nonlinear_arith)
                        requires
                            (jj == 0 && cc == cu) || (jj > 0 && c0i == cu + (jj - 1) * dd && cc == c0i + dd),
                    ;
                }
                let one = vec![chars[j]];
                let t = crate::text::string_from_chars(one.as_slice());
                let ghost prev = out@;
                out.push(TimedEvent { at: c, event: Event::Type { text: t, delay: 0 } });
                proof {
                    assert(one@ =~= seq![text@[j as int]]);
                    assert(ee.0.take(j as int + 1) =~= ee.0.take(j as int).push(ee.0[j as int]));
                    assert(timed_view(out@) =~= timed_view(prev).push((c as int, EventView::Type { text: seq![text@[j as int]], delay: 0 })));
                }
                j = j + 1;
            }
            proof {
                assert(ee.0.take(n as int) =~= ee.0);
            }
            c
        },
        Event::Sleep(d) => {
            proof {
                assert(before + ee.0 =~= before);
            }
            cursor + *d
        },
        Event::Key { key, action, count, delay } => {
            let n: u32 = if *count >= 1 { *count } else { 1 };
            let mut c = cursor;
            let mut j: u32 = 0;
            while j < n
                invariant
                    n >= 1,
                    n == (if *count >= 1 { *count } else { 1 }),
                    ee == event_entries(e@, cursor as int),
                    e@ == (EventView::Key { key: *key, action: *action, count: *count, delay: *delay }),
                    ee.1 <= u64::MAX,
                    j <= n,
                    c == (if j == 0 { cursor as int } else { cursor + (j - 1) * *delay }),
                    timed_view(out@) == before + ee.0.take(j as int),
                decreases n - j,
            {
                let ghost c0 = c;
                if j > 0 {
                    proof {
                        lemma_next_tick(j as int, n as int, *delay as int);
                    }
                    c = c + *delay;
                }
                proof {
                    let jj = j as int;
                    let dd = *delay as int;
                    let cc = c as int;
                    let cu = cursor as int;
                    let c0i = c0 as int;
                    assert(cc == cu + jj * dd) by (nonlinear_arith)
                        requires
                            (jj == 0 && cc == cu) || (jj > 0 && c0i == cu + (jj - 1) * dd && cc == c0i + dd),
                    ;
                }
                let ghost prev = out@;
                out.push(TimedEvent { at: c, event: Event::Key { key: *key, action: *action, count: 1, delay: 0 } });
                proof {
                    assert(ee.0.take(j as int + 1) =~= ee.0.take(j as int).push(ee.0[j as int]));
                    assert(timed_view(out@) =~= timed_view(prev).push(
                        (c as int, EventView::Key { key: *key, action: *action, count: 1, delay: 0 }),
                    ));
                }
                j = j + 1;
            }
            proof {
                assert(ee.0.take(n as int) =~= ee.0);
                lemma_next_tick(n as int, n as int + 1, *delay as int);
            }
            c
        },
        _ => {
            let ghost prev = out@;
            out.push(TimedEvent { at: cursor, event: copy_event(e) });
            proof {
                assert(timed_view(out@) =~= timed_view(prev).push((cursor as int, e@)));
            }
            cursor
        },
    }
}

/// Builds the run's timeline: every event given a time, typed text and
/// repeated keys spread out one entry per character and per press, and the
/// time the last pause or entry ends. Durations are taken as they are:
/// the runner scales them by the playback speed first.
pub fn build_timeline(events: &[Event]) -> (r: (Vec<TimedEvent>, u64))
    requires
        spec_timeline(crate::script::ast::events_view(events@)).1 <= u64::MAX,
    ensures
        timed_view(r.0@) == spec_timeline(crate::script::ast::events_view(events@)).0,
        r.1 == spec_timeline(crate::script::ast::events_view(events@)).1,
{
    let ghost ev = crate::script::ast::events_view(events@);
    let mut out: Vec<TimedEvent> = Vec::new();
    let mut cursor: u64 = 0;
    let mut i: usize = 0;
    proof {
        assert(ev.take(0) =~= Seq::<EventView>::empty());
        assert(timed_view(out@) =~= Seq::<(int, EventView)>::empty());
    }
    while i < events.len()
        invariant
            ev == crate::script::ast::events_view(events@),
            spec_timeline(ev).1 <= u64::MAX,
            i <= events.len(),
            timed_view(out@) == spec_timeline(ev.take(i as int)).0,
            cursor == spec_timeline(ev.take(i as int)).1,
        decreases events.len() - i,
    {
        let ghost t = ev.take(i as int + 1);
        proof {
            assert(t.drop_last() =~= ev.take(i as int));
            assert(t.last() == events@[i as int]@);
            lemma_timeline_end_grows(ev, i as int + 1);
        }
        cursor = push_entries(&mut out, &events[i], cursor);
        i = i + 1;
    }
    proof {
        assert(ev.take(events.len() as int) =~= ev);
    }
    (out, cursor)
}

proof fn lemma_spread_sorted(c: int, d: int, n: int)
    requires
        c >= 0,
        d >= 0,
        n >= 1,
    ensures
        forall|i: int, j: int| 0 <= i <= j < n ==> c <= #[trigger] (c + i * d) <= #[trigger] (c + j * d) <= c + (n - 1) * d,
{
    assert forall|i: int, j: int| 0 <= i <= j < n implies c <= #[trigger] (c + i * d) <= #[trigger] (c + j * d) <= c + (n - 1) * d by {
        assert(0 <= i * d <= j * d <= (n - 1) * d) by (nonlinear_arith)
            requires
                0 <= i <= j < n,
                d >= 0,
        ;
    }
}

proof fn lemma_entries_sorted(e: EventView, c: int)
    requires
        c >= 0,
    ensures
        ({
            let (more, c2) = event_entries(e, c);
            &&& forall|i: int, j: int| 0 <= i <= j < more.len() ==> #[trigger] more[i].0 <= #[trigger] more[j].0
            &&& forall|i: int| 0 <= i < more.len() ==> c <= #[trigger] more[i].0 <= c2
            &&& c <= c2
        }),
{
    lemma_entries_advance(e, c);
    let (more, c2) = event_entries(e, c);
    match e {
        EventView::Type { text, delay } => {
            if text.len() > 0 {
                lemma_spread_sorted(c, delay as int, text.len() as int);
                assert forall|i: int, j: int| 0 <= i <= j < more.len() implies #[trigger] more[i].0 <= #[trigger] more[j].0 by {
                    assert(more[i].0 == c + i * delay && more[j].0 == c + j * delay);
                }
                assert forall|i: int| 0 <= i < more.len() implies c <= #[trigger] more[i].0 <= c2 by {
                    assert(more[i].0 == c + i * delay);
                }
            }
        },
        EventView::Key { count, delay, .. } => {
            let n: int = if count >= 1 { count as int } else { 1 };
            lemma_spread_sorted(c, delay as int, n);
            assert forall|i: int, j: int| 0 <= i <= j < more.len() implies #[trigger] more[i].0 <= #[trigger] more[j].0 by {
                assert(more[i].0 == c + i * delay && more[j].0 == c + j * delay);
            }
            assert forall|i: int| 0 <= i < more.len() implies c <= #[trigger] more[i].0 <= c2 by {
                assert(more[i].0 == c + i * delay);
            }
        },
        _ => {},
    }
}

/// The timeline is in time order: no entry is due before the one ahead of
/// it, and every entry is due between the start and the timeline's end.
pub proof fn lemma_timeline_in_time_order(events: Seq<EventView>)
    ensures
        ({
            let (tl, end) = spec_timeline(events);
            &&& forall|i: int, j: int| 0 <= i <= j < tl.len() ==> #[trigger] tl[i].0 <= #[trigger] tl[j].0
            &&& forall|i: int| 0 <= i < tl.len() ==> 0 <= #[trigger] tl[i].0 <= end
            &&& 0 <= end
        }),
    decreases events.len(),
{
    if events.len() > 0 {
        let d = events.drop_last();
        lemma_timeline_in_time_order(d);
        let (prev, c) = spec_timeline(d);
        lemma_entries_sorted(events.last(), c);
        let (more, c2) = event_entries(events.last(), c);
        let tl = prev + more;
        assert forall|i: int, j: int| 0 <= i <= j < tl.len() implies #[trigger] tl[i].0 <= #[trigger] tl[j].0 by {
            if j < prev.len() {
                assert(tl[i] == prev[i] && tl[j] == prev[j]);
            } else if i < prev.len() {
                assert(tl[i] == prev[i] && tl[j] == more[j - prev.len()]);
                assert(c <= more[j - prev.len()].0);
            } else {
                assert(tl[i] == more[i - prev.len()] && tl[j] == more[j - prev.len()]);
            }
        }
        assert forall|i: int| 0 <= i < tl.len() implies 0 <= #[trigger] tl[i].0 <= c2 by {
            if i < prev.len() {
                assert(tl[i] == prev[i]);
            } else {
                assert(tl[i] == more[i - prev.len()]);
                assert(c <= more[i - prev.len()].0);
            }
        }
    }
}

/// What the runner's decisions read of a timeline event.
pub open spec fn spec_scheduled_kind(e: EventView) -> ScheduledKind {
    match e {
        EventView::Wait { timeout, .. } => ScheduledKind::Wait { timeout },
        EventView::Hide => ScheduledKind::Hide,
        EventView::Show => ScheduledKind::Show,
        _ => ScheduledKind::Input,
    }
}

/// What the runner's decisions read of a timeline event; see
/// [`spec_scheduled_kind`].
pub fn scheduled_kind(e: &Event) -> (r: ScheduledKind)
    ensures
        r == spec_scheduled_kind(e@),
{
    match e {
        Event::Wait { timeout, .. } => ScheduledKind::Wait { timeout: *timeout },
        Event::Hide => ScheduledKind::Hide,
        Event::Show => ScheduledKind::Show,
        _ => ScheduledKind::Input,
    }
}

} // verus!
