//! What holds of the timing of a span over every course of events that a
//! host may put it through.
//!
//! A [`SpanTimingInfo`](crate::tracker::SpanTimingInfo) sees four kinds of
//! events, each on some thread: the thread enters the span, goes on into a
//! tracked sub span, comes back from it, and leaves the span. The laws
//! below are stated over the [`TrackerView`] that such events leave
//! behind, for a clock that is given as the function that measures the
//! nanoseconds between two of its readings. For the clock of a collector
//! that function is its [`measure`](crate::clock::measure), and the
//! collector's contracts say of each of its functions which event it is.

use crate::tracker::TrackerView;
use vstd::prelude::*;

verus! {

/// One event in the life of an open span, as its timing sees it.
pub enum SpanEvent {
    /// `thread` enters the span at the reading `start`.
    Enter { thread: u64, start: u64 },
    /// `thread` goes on into a tracked sub span, leaving the span at the
    /// reading `leave_parent`.
    ChildEnter { thread: u64, leave_parent: u64 },
    /// `thread` comes back from the sub span at the reading `enter_own`.
    ChildExit { thread: u64, enter_own: u64 },
    /// `thread` leaves the span at the reading `end`.
    Exit { thread: u64, end: u64 },
}

/// The timing after one event, measured by `clock`.
pub open spec fn after_event(
    t: TrackerView,
    event: SpanEvent,
    clock: spec_fn(u64, u64) -> nat,
) -> TrackerView {
    match event {
        SpanEvent::Enter { thread, start } => t.entered(thread, start),
        SpanEvent::ChildEnter { thread, leave_parent } => t.child_entered(
            clock(t.per_thread[thread].last_enter_own, leave_parent),
        ),
        SpanEvent::ChildExit { thread, enter_own } => t.child_exited(thread, enter_own),
        SpanEvent::Exit { thread, end } => t.exited(
            thread,
            clock(t.per_thread[thread].last_enter, end),
            clock(t.per_thread[thread].last_enter_own, end),
        ),
    }
}

/// The timing after a course of events, measured by `clock`.
pub open spec fn after_events(
    t: TrackerView,
    events: Seq<SpanEvent>,
    clock: spec_fn(u64, u64) -> nat,
) -> TrackerView
    decreases events.len(),
{
    if events.len() == 0 {
        t
    } else {
        after_event(after_events(t, events.drop_last(), clock), events.last(), clock)
    }
}

/// Where a thread stands in a span that it has entered.
pub struct ThreadPhase {
    /// The reading at which the thread entered the span.
    pub entered_at: u64,
    /// The reading of the last event of the thread in this span.
    pub last: u64,
    /// Whether the thread is in a sub span by now.
    pub away: bool,
}

/// Whether `event` may come next, with the threads standing as `threads`
/// says: a thread enters a span that it is not in, goes into a sub span
/// and comes back from it in turn, leaves the span only from the span
/// itself, and never meets a reading that lies before its last one.
pub open spec fn may_follow(threads: Map<u64, ThreadPhase>, event: SpanEvent) -> bool {
    match event {
        SpanEvent::Enter { thread, start } => !threads.contains_key(thread),
        SpanEvent::ChildEnter { thread, leave_parent } => {
            &&& threads.contains_key(thread)
            &&& !threads[thread].away
            &&& threads[thread].last <= leave_parent
        },
        SpanEvent::ChildExit { thread, enter_own } => {
            &&& threads.contains_key(thread)
            &&& threads[thread].away
            &&& threads[thread].last <= enter_own
        },
        SpanEvent::Exit { thread, end } => {
            &&& threads.contains_key(thread)
            &&& !threads[thread].away
            &&& threads[thread].last <= end
        },
    }
}

/// Where the threads stand after `event`.
pub open spec fn threads_after_event(
    threads: Map<u64, ThreadPhase>,
    event: SpanEvent,
) -> Map<u64, ThreadPhase> {
    match event {
        SpanEvent::Enter { thread, start } => threads.insert(
            thread,
            ThreadPhase { entered_at: start, last: start, away: false },
        ),
        SpanEvent::ChildEnter { thread, leave_parent } => threads.insert(
            thread,
            ThreadPhase { last: leave_parent, away: true, ..threads[thread] },
        ),
        SpanEvent::ChildExit { thread, enter_own } => threads.insert(
            thread,
            ThreadPhase { last: enter_own, away: false, ..threads[thread] },
        ),
        SpanEvent::Exit { thread, end } => threads.remove(thread),
    }
}

/// Where the threads stand after a course of events on a span that no
/// thread was in.
pub open spec fn threads_after(events: Seq<SpanEvent>) -> Map<u64, ThreadPhase>
    decreases events.len(),
{
    if events.len() == 0 {
        Map::empty()
    } else {
        threads_after_event(threads_after(events.drop_last()), events.last())
    }
}

/// Every event of the course may follow those before it.
pub open spec fn follows_protocol(events: Seq<SpanEvent>) -> bool
    decreases events.len(),
{
    events.len() == 0 || {
        &&& follows_protocol(events.drop_last())
        &&& may_follow(threads_after(events.drop_last()), events.last())
    }
}

/// Every thread that entered the span has left it.
pub open spec fn all_threads_left(events: Seq<SpanEvent>) -> bool {
    threads_after(events).dom() =~= Set::empty()
}

/// The clock never measures less over a stretch of time than over two
/// parts of it taken together.
pub open spec fn is_superadditive(clock: spec_fn(u64, u64) -> nat) -> bool {
    forall|a: u64, b: u64, c: u64|
        a <= b <= c ==> #[trigger] clock(a, b) + #[trigger] clock(b, c) <= clock(a, c)
}

/// The clock measures the difference of its readings.
pub open spec fn is_exact(clock: spec_fn(u64, u64) -> nat) -> bool {
    forall|a: u64, b: u64| a <= b ==> #[trigger] clock(a, b) == b - a
}

/// The sum of the values of a finite map.
pub open spec fn total(m: Map<u64, nat>) -> nat
    decreases m.dom().len(),
{
    if m.dom().finite() && m.dom().len() > 0 {
        let k = m.dom().choose();
        m[k] + total(m.remove(k))
    } else {
        0
    }
}

/// The sum of the values of a map is that of any one value and of the rest.
pub proof fn lemma_total_remove(m: Map<u64, nat>, k: u64)
    requires
        m.dom().finite(),
        m.contains_key(k),
    ensures
        total(m) == m[k] + total(m.remove(k)),
    decreases m.dom().len(),
{
    let c = m.dom().choose();
    if c != k {
        lemma_total_remove(m.remove(c), k);
        lemma_total_remove(m.remove(k), c);
        assert(m.remove(c).remove(k) =~= m.remove(k).remove(c));
    }
}

/// A new key adds its value to the sum of the values of a map.
pub proof fn lemma_total_insert(m: Map<u64, nat>, k: u64, v: nat)
    requires
        m.dom().finite(),
    ensures
        total(m.insert(k, v)) == v + total(m.remove(k)),
{
    lemma_total_remove(m.insert(k, v), k);
    assert(m.insert(k, v).remove(k) =~= m.remove(k));
}

/// For each thread in the span, what the clock measures from the reading
/// at which it entered to the reading of its last event.
pub open spec fn stretches(
    threads: Map<u64, ThreadPhase>,
    clock: spec_fn(u64, u64) -> nat,
) -> Map<u64, nat> {
    threads.map_values(|phase: ThreadPhase| clock(phase.entered_at, phase.last))
}

/// The timing remembers the threads that are in the span, and of each the
/// reading at which it entered and, while it is in the span itself, the
/// reading of its last event.
pub open spec fn in_step(t: TrackerView, threads: Map<u64, ThreadPhase>) -> bool {
    &&& threads.dom().finite()
    &&& t.per_thread.dom() == threads.dom()
    &&& forall|thread: u64| #[trigger]
        threads.contains_key(thread) ==> {
            let info = t.per_thread[thread];
            let phase = threads[thread];
            &&& info.last_enter == phase.entered_at
            &&& info.last_enter <= info.last_enter_own <= phase.last
            &&& !phase.away ==> info.last_enter_own == phase.last
        }
}

/// A course of events that follows the protocol keeps the timing in step
/// with the threads.
pub proof fn lemma_in_step(
    call_path: nat,
    created_at: u64,
    events: Seq<SpanEvent>,
    clock: spec_fn(u64, u64) -> nat,
)
    requires
        follows_protocol(events),
    ensures
        in_step(
            after_events(TrackerView::fresh(call_path, created_at), events, clock),
            threads_after(events),
        ),
    decreases events.len(),
{
    if events.len() > 0 {
        lemma_in_step(call_path, created_at, events.drop_last(), clock);
        let after = after_events(TrackerView::fresh(call_path, created_at), events, clock);
        assert(may_follow(threads_after(events.drop_last()), events.last()));
        assert(after.per_thread.dom() =~= threads_after(events).dom());
    }
}

/// What an event does to the total of the stretches: a thread that
/// enters adds its stretch, a thread that leaves takes its stretch away,
/// and a thread that goes into a sub span or comes back from it has its
/// stretch end at the reading of that event.
pub proof fn lemma_total_of_stretches_after_event(
    threads: Map<u64, ThreadPhase>,
    event: SpanEvent,
    clock: spec_fn(u64, u64) -> nat,
)
    requires
        threads.dom().finite(),
        may_follow(threads, event),
    ensures
        ({
            let before = total(stretches(threads, clock));
            let after = total(stretches(threads_after_event(threads, event), clock));
            match event {
                SpanEvent::Enter { thread, start } => after == before + clock(start, start),
                SpanEvent::ChildEnter { thread, leave_parent } => after + clock(
                    threads[thread].entered_at,
                    threads[thread].last,
                ) == before + clock(threads[thread].entered_at, leave_parent),
                SpanEvent::ChildExit { thread, enter_own } => after + clock(
                    threads[thread].entered_at,
                    threads[thread].last,
                ) == before + clock(threads[thread].entered_at, enter_own),
                SpanEvent::Exit { thread, end } => after + clock(
                    threads[thread].entered_at,
                    threads[thread].last,
                ) == before,
            }
        }),
{
    let s = stretches(threads, clock);
    let after = stretches(threads_after_event(threads, event), clock);
    assert(s.dom() =~= threads.dom());
    match event {
        SpanEvent::Enter { thread, start } => {
            assert(after =~= s.insert(thread, clock(start, start)));
            lemma_total_insert(s, thread, clock(start, start));
            assert(s.remove(thread) =~= s);
        },
        SpanEvent::ChildEnter { thread, leave_parent } => {
            let stretch = clock(threads[thread].entered_at, leave_parent);
            assert(after =~= s.insert(thread, stretch));
            lemma_total_insert(s, thread, stretch);
            lemma_total_remove(s, thread);
        },
        SpanEvent::ChildExit { thread, enter_own } => {
            let stretch = clock(threads[thread].entered_at, enter_own);
            assert(after =~= s.insert(thread, stretch));
            lemma_total_insert(s, thread, stretch);
            lemma_total_remove(s, thread);
        },
        SpanEvent::Exit { thread, end } => {
            assert(after =~= s.remove(thread));
            lemma_total_remove(s, thread);
        },
    }
}

/// The step of [`lemma_own_time_within_time_with_children`]: while threads
/// are in the span, its own time exceeds its time with children by no
/// more than what the clock measures for the threads that are still in it.
pub proof fn lemma_own_time_within_stretches(
    call_path: nat,
    created_at: u64,
    events: Seq<SpanEvent>,
    clock: spec_fn(u64, u64) -> nat,
)
    requires
        follows_protocol(events),
        is_superadditive(clock),
    ensures
        ({
            let t = after_events(TrackerView::fresh(call_path, created_at), events, clock);
            t.sum_own <= t.sum_with_children + total(stretches(threads_after(events), clock))
        }),
    decreases events.len(),
{
    if events.len() > 0 {
        lemma_own_time_within_stretches(call_path, created_at, events.drop_last(), clock);
        lemma_in_step(call_path, created_at, events.drop_last(), clock);
        let threads = threads_after(events.drop_last());
        assert(may_follow(threads, events.last()));
        lemma_total_of_stretches_after_event(threads, events.last(), clock);
        match events.last() {
            SpanEvent::Enter { thread, start } => {},
            SpanEvent::ChildEnter { thread, leave_parent } => {
                let phase = threads[thread];
                assert(clock(phase.entered_at, phase.last) + clock(phase.last, leave_parent)
                    <= clock(phase.entered_at, leave_parent));
            },
            SpanEvent::ChildExit { thread, enter_own } => {
                let phase = threads[thread];
                assert(clock(phase.entered_at, phase.last) + clock(phase.last, enter_own) <= clock(
                    phase.entered_at,
                    enter_own,
                ));
            },
            SpanEvent::Exit { thread, end } => {
                let phase = threads[thread];
                assert(clock(phase.entered_at, phase.last) + clock(phase.last, end) <= clock(
                    phase.entered_at,
                    end,
                ));
            },
        }
    }
}

/// Once every thread has left a span, the time that the span was busy
/// itself is no more than the time that it was busy with its sub spans
/// included. This holds after every course of events that follows the
/// protocol, on any number of threads, for every clock that is
/// superadditive.
pub proof fn lemma_own_time_within_time_with_children(
    call_path: nat,
    created_at: u64,
    events: Seq<SpanEvent>,
    clock: spec_fn(u64, u64) -> nat,
)
    requires
        follows_protocol(events),
        all_threads_left(events),
        is_superadditive(clock),
    ensures
        ({
            let t = after_events(TrackerView::fresh(call_path, created_at), events, clock);
            t.sum_own <= t.sum_with_children
        }),
{
    lemma_own_time_within_stretches(call_path, created_at, events, clock);
    assert(stretches(threads_after(events), clock).dom() =~= Set::empty());
}

/// The time that the threads of a span have spent in its sub spans: for
/// each time a thread came back from a sub span, the difference between
/// the reading at which it came back and the one at which it went.
pub open spec fn time_away(events: Seq<SpanEvent>) -> nat
    decreases events.len(),
{
    if events.len() == 0 {
        0
    } else {
        time_away(events.drop_last()) + match events.last() {
            SpanEvent::ChildExit { thread, enter_own } => (enter_own - threads_after(
                events.drop_last(),
            )[thread].last) as nat,
            _ => 0,
        }
    }
}

/// The step of [`lemma_own_time_is_time_with_children_less_time_away`].
pub proof fn lemma_own_time_and_time_away(
    call_path: nat,
    created_at: u64,
    events: Seq<SpanEvent>,
    clock: spec_fn(u64, u64) -> nat,
)
    requires
        follows_protocol(events),
        is_exact(clock),
    ensures
        ({
            let t = after_events(TrackerView::fresh(call_path, created_at), events, clock);
            t.sum_own + time_away(events) == t.sum_with_children + total(
                stretches(threads_after(events), clock),
            )
        }),
    decreases events.len(),
{
    if events.len() > 0 {
        lemma_own_time_and_time_away(call_path, created_at, events.drop_last(), clock);
        lemma_in_step(call_path, created_at, events.drop_last(), clock);
        let threads = threads_after(events.drop_last());
        assert(may_follow(threads, events.last()));
        lemma_total_of_stretches_after_event(threads, events.last(), clock);
        match events.last() {
            SpanEvent::Enter { thread, start } => {},
            SpanEvent::ChildEnter { thread, leave_parent } => {
                let phase = threads[thread];
                assert(clock(phase.last, leave_parent) == leave_parent - phase.last);
            },
            SpanEvent::ChildExit { thread, enter_own } => {},
            SpanEvent::Exit { thread, end } => {
                let phase = threads[thread];
                assert(clock(phase.last, end) == end - phase.last);
                assert(clock(phase.entered_at, end) == end - phase.entered_at);
            },
        }
    }
}

/// Under a clock that measures the difference of its readings, the time
/// that a span was busy itself is exactly the time that it was busy with
/// its sub spans included, less the time that its threads spent in sub
/// spans. This holds once every thread has left the span, after every
/// course of events that follows the protocol: for a span that is entered
/// once and wraps any number of sub spans one after the other, and for any
/// other.
pub proof fn lemma_own_time_is_time_with_children_less_time_away(
    call_path: nat,
    created_at: u64,
    events: Seq<SpanEvent>,
    clock: spec_fn(u64, u64) -> nat,
)
    requires
        follows_protocol(events),
        all_threads_left(events),
        is_exact(clock),
    ensures
        ({
            let t = after_events(TrackerView::fresh(call_path, created_at), events, clock);
            t.sum_own == t.sum_with_children - time_away(events)
        }),
{
    lemma_own_time_and_time_away(call_path, created_at, events, clock);
    assert(stretches(threads_after(events), clock).dom() =~= Set::empty());
}

/// Two threads that are in a span at the same time both count: when
/// `first` and `second` enter a span one after the other and then leave
/// it, in either order, the span's time with children and its own time
/// both grow by what the clock measures for the one thread and by what it
/// measures for the other.
pub proof fn lemma_concurrent_threads_add_up(
    t: TrackerView,
    first: u64,
    second: u64,
    readings: (u64, u64, u64, u64),
    first_leaves_first: bool,
    clock: spec_fn(u64, u64) -> nat,
)
    requires
        first != second,
    ensures
        ({
            let (first_start, second_start, first_end, second_end) = readings;
            let both_in = after_event(
                after_event(t, SpanEvent::Enter { thread: first, start: first_start }, clock),
                SpanEvent::Enter { thread: second, start: second_start },
                clock,
            );
            let first_exit = SpanEvent::Exit { thread: first, end: first_end };
            let second_exit = SpanEvent::Exit { thread: second, end: second_end };
            let both_out = if first_leaves_first {
                after_event(after_event(both_in, first_exit, clock), second_exit, clock)
            } else {
                after_event(after_event(both_in, second_exit, clock), first_exit, clock)
            };
            let measured = clock(first_start, first_end) + clock(second_start, second_end);
            &&& both_out.sum_with_children == t.sum_with_children + measured
            &&& both_out.sum_own == t.sum_own + measured
            &&& both_out.per_thread == t.per_thread.remove(first).remove(second)
            &&& both_out.call_path == t.call_path
        }),
{
    let (first_start, second_start, first_end, second_end) = readings;
    let both_in = after_event(
        after_event(t, SpanEvent::Enter { thread: first, start: first_start }, clock),
        SpanEvent::Enter { thread: second, start: second_start },
        clock,
    );
    let first_exit = SpanEvent::Exit { thread: first, end: first_end };
    let second_exit = SpanEvent::Exit { thread: second, end: second_end };
    let both_out = if first_leaves_first {
        after_event(after_event(both_in, first_exit, clock), second_exit, clock)
    } else {
        after_event(after_event(both_in, second_exit, clock), first_exit, clock)
    };
    assert(both_out.per_thread =~= t.per_thread.remove(first).remove(second));
}

} // verus!
