//! The collector: what happens to the timings when a span is created,
//! entered, left and closed.
//!
//! The host that owns the spans keeps, with each span, the
//! [`SpanTimingInfo`] that [`CallTreeCollector::new_root_span`] or
//! [`CallTreeCollector::new_span`] made for it, and with each root span the
//! [`CallPathPool`] of its call tree. It calls one function of the
//! collector for each piece of storage that an event touches, so that it
//! never has to hold the storage of two spans at once.

use crate::clock::{clock_delta, clock_end, clock_measures, clock_new, clock_start, measure};
use crate::pool::{
    call_path_below,
    has_room,
    with_call_path_below,
    with_closed_span,
    CallPathPool,
    CallPathPoolId,
    SpanMeta,
    TimingOverflow,
    TimingView,
};
use crate::protocol::{after_event, SpanEvent};
use crate::tracker::{SpanTimingInfo, TrackerView};
use quanta::Clock;
use vstd::prelude::*;

verus! {

/// A [`FinishedCallTreeProcessor`] uses the aggregated call tree for
/// something useful.
///
/// Expected use cases:
///
/// * Log the call tree
/// * Generate metrics from the call tree
/// * Do anomaly detection on the call tree
/// * Send the call tree elsewhere for further aggregation
pub trait FinishedCallTreeProcessor {
    /// Takes the call tree of a root span that has just closed.
    fn process_finished_call(&self, pool: CallPathPool)
        requires
            pool.wf(),
    ;
}

/// Collects call trees and hands finished trees to a
/// [`FinishedCallTreeProcessor`].
///
/// Use [`CallTreeCollectorBuilder`] to make one.
pub struct CallTreeCollector<H: FinishedCallTreeProcessor + 'static> {
    /// The clock to use for determining call timings.
    clock: Clock,
    /// Ignore calls beyond this depth.
    max_call_depth: usize,
    processor: H,
}

/// The mathematical content of a [`CallTreeCollector`].
pub struct CollectorView<H> {
    pub clock: Clock,
    pub max_call_depth: nat,
    pub processor: H,
}

impl<H: FinishedCallTreeProcessor + 'static> View for CallTreeCollector<H> {
    type V = CollectorView<H>;

    closed spec fn view(&self) -> CollectorView<H> {
        CollectorView {
            clock: self.clock,
            max_call_depth: self.max_call_depth as nat,
            processor: self.processor,
        }
    }
}

/// Configure & build [`CallTreeCollector`]s.
pub struct CallTreeCollectorBuilder {
    clock: Option<Clock>,
    max_call_depth: usize,
}

/// The mathematical content of a [`CallTreeCollectorBuilder`].
pub struct BuilderView {
    pub clock: Option<Clock>,
    pub max_call_depth: nat,
}

impl View for CallTreeCollectorBuilder {
    type V = BuilderView;

    closed spec fn view(&self) -> BuilderView {
        BuilderView { clock: self.clock, max_call_depth: self.max_call_depth as nat }
    }
}

impl Default for CallTreeCollectorBuilder {
    fn default() -> (builder: CallTreeCollectorBuilder)
        ensures
            builder@ == (BuilderView { clock: None, max_call_depth: 10 }),
    {
        CallTreeCollectorBuilder { clock: None, max_call_depth: 10 }
    }
}

impl CallTreeCollectorBuilder {
    /// The clock to use for measuring execution time.
    ///
    /// The default is to use a real clock, but you can pass
    /// in a mock clock for testing.
    pub fn clock(self, clock: Clock) -> (builder: CallTreeCollectorBuilder)
        ensures
            builder@ == (BuilderView { clock: Some(clock), ..self@ }),
    {
        let mut builder = self;
        builder.clock = Some(clock);
        builder
    }

    /// The maximum call depth of the call tree to record. A collector is
    /// never built with less than `2`.
    ///
    /// Call paths at this depth or below are capped, so their execution
    /// is recorded as if they were inlined.
    pub fn max_call_depth(self, max_call_depth: usize) -> (builder: CallTreeCollectorBuilder)
        ensures
            builder@ == (BuilderView { max_call_depth: max_call_depth as nat, ..self@ }),
    {
        let mut builder = self;
        builder.max_call_depth = max_call_depth;
        builder
    }

    /// Build the [`CallTreeCollector`] handing over the finished call trees
    /// to `processor`.
    pub fn build_with_collector<H>(self, processor: H) -> (collector: CallTreeCollector<H>) where
        H: FinishedCallTreeProcessor + 'static,

        ensures
            collector@.max_call_depth == if self@.max_call_depth < 2 {
                2
            } else {
                self@.max_call_depth
            },
            collector@.processor == processor,
            self@.clock matches Some(clock) ==> collector@.clock == clock,
    {
        let clock = match self.clock {
            Some(clock) => clock,
            None => clock_new(),
        };
        let max_call_depth = if self.max_call_depth < 2 {
            2
        } else {
            self.max_call_depth
        };
        CallTreeCollector { clock, max_call_depth, processor }
    }
}

/// What [`CallTreeCollector::on_child_enter`] leaves behind in the timing
/// of a parent: the timing after a thread went on into a sub span, as
/// `clock` measures it, or the timing as it was where the own time would
/// leave the range of its type. A reading that does not lie after the one
/// it is measured from measures nothing.
pub open spec fn child_enter_outcome(
    before: TrackerView,
    after: TrackerView,
    thread: u64,
    leave_parent: u64,
    clock: spec_fn(u64, u64) -> nat,
    done: Result<(), TimingOverflow>,
) -> bool {
    let then = after_event(before, SpanEvent::ChildEnter { thread, leave_parent }, clock);
    let since = before.per_thread[thread].last_enter_own;
    &&& leave_parent <= since ==> clock(since, leave_parent) == 0
    &&& done is Ok <==> then.sum_own <= u128::MAX
    &&& done is Ok ==> after == then
    &&& done is Err ==> after == before
}

/// What [`CallTreeCollector::on_exit`] leaves behind in the timing of a
/// span: the timing after the thread left the span, as `clock` measures
/// it, or the timing as it was where a sum would leave the range of its
/// type. A reading that does not lie after the one it is measured from
/// measures nothing.
pub open spec fn exit_outcome(
    before: TrackerView,
    after: TrackerView,
    thread: u64,
    end: u64,
    clock: spec_fn(u64, u64) -> nat,
    done: Result<bool, TimingOverflow>,
) -> bool {
    let then = after_event(before, SpanEvent::Exit { thread, end }, clock);
    let entered = before.per_thread[thread];
    &&& end <= entered.last_enter ==> clock(entered.last_enter, end) == 0
    &&& end <= entered.last_enter_own ==> clock(entered.last_enter_own, end) == 0
    &&& done is Ok <==> then.sum_with_children <= u128::MAX && then.sum_own <= u128::MAX
    &&& done is Ok ==> done == Ok::<bool, TimingOverflow>(true) && after == then
    &&& done is Err ==> after == before
}

/// The storage of a root span holds a pool, and that pool is the call
/// tree `p`.
pub open spec fn stores(slot: Option<CallPathPool>, p: Seq<TimingView>) -> bool {
    match slot {
        Some(pool) => pool.wf() && pool@ == p,
        None => false,
    }
}

/// Closes a span that was alive for `span_alive` nanoseconds: folds its
/// timing into its call path in the pool of its root span, and for a root
/// span takes the pool out of its storage.
///
/// The result holds the finished pool if and only if the span is a root
/// span; the storage is empty from then on. Where a count or a sum would
/// leave the range of its type, nothing is folded and nothing is taken out.
pub fn close_span(
    slot: &mut Option<CallPathPool>,
    info: SpanTimingInfo,
    span_alive: u128,
    is_root: bool,
) -> (finished: Result<Option<CallPathPool>, TimingOverflow>)
    requires
        *old(slot) matches Some(pool) && pool.wf() && info@.call_path < pool@.len(),
    ensures
        finished is Ok <==> has_room(
            old(slot).unwrap()@,
            info@.call_path as int,
            span_alive as nat,
            info@.sum_with_children,
            info@.sum_own,
        ),
        finished matches Ok(handoff) ==> {
            let folded = with_closed_span(
                old(slot).unwrap()@,
                info@.call_path as int,
                span_alive as nat,
                info@.sum_with_children,
                info@.sum_own,
            );
            if is_root {
                &&& handoff matches Some(pool)
                &&& pool.wf()
                &&& pool@ == folded
                &&& *final(slot) is None
            } else {
                &&& handoff is None
                &&& stores(*final(slot), folded)
            }
        },
        finished is Err ==> stores(*final(slot), old(slot).unwrap()@),
{
    let mut pool = slot.take().unwrap();
    match pool.fold(info.call_path_idx(), span_alive, info.sum_with_children(), info.sum_own()) {
        Ok(()) => {
            if is_root {
                Ok(Some(pool))
            } else {
                *slot = Some(pool);
                Ok(None)
            }
        },
        Err(overflow) => {
            *slot = Some(pool);
            Err(overflow)
        },
    }
}

/// What [`CallTreeCollector::on_close`] leaves behind in the storage of
/// the root span, for a span that was alive for `span_alive` nanoseconds.
pub open spec fn close_outcome(
    before: Option<CallPathPool>,
    after: Option<CallPathPool>,
    info: TrackerView,
    span_alive: u128,
    is_root: bool,
    done: Result<(), TimingOverflow>,
) -> bool {
    let pool = before.unwrap()@;
    let folded = with_closed_span(
        pool,
        info.call_path as int,
        span_alive as nat,
        info.sum_with_children,
        info.sum_own,
    );
    &&& done is Ok <==> has_room(
        pool,
        info.call_path as int,
        span_alive as nat,
        info.sum_with_children,
        info.sum_own,
    )
    &&& done is Ok && is_root ==> after is None
    &&& done is Ok && !is_root ==> stores(after, folded)
    &&& done is Err ==> stores(after, pool)
}

impl<H: FinishedCallTreeProcessor + 'static> CallTreeCollector<H> {
    /// A root span was created: its call tree starts with its own call
    /// path, and its timing, which remembers the clock reading taken now,
    /// is folded into that path.
    pub fn new_root_span(&self, meta: SpanMeta) -> (created: (CallPathPool, SpanTimingInfo))
        ensures
            created.0.wf(),
            created.0@ == seq![TimingView::fresh(None, 0, meta)],
            created.1@ == TrackerView::fresh(0, created.1@.created_at),
    {
        let pool = CallPathPool::new(meta);
        let info = SpanTimingInfo::for_call_path_idx(pool.root_id(), clock_start(&self.clock));
        (pool, info)
    }

    /// A span was created below a span, in the call tree `pool`. `parent`
    /// is the call path of the span above it, if that span is tracked.
    ///
    /// The result is the timing to keep with the new span, which remembers
    /// the clock reading taken now. It is `None`, and the pool stays as it
    /// is, where the span above is not tracked or where the call path of
    /// the new span would reach the maximum call depth: such a span and
    /// all spans below it are not tracked.
    pub fn new_span(
        &self,
        pool: &mut CallPathPool,
        parent: Option<CallPathPoolId>,
        meta: SpanMeta,
    ) -> (created: Option<SpanTimingInfo>)
        requires
            old(pool).wf(),
            parent matches Some(parent) ==> parent@ < old(pool)@.len(),
        ensures
            final(pool).wf(),
            match parent {
                Some(parent) => {
                    &&& final(pool)@ == with_call_path_below(
                        old(pool)@,
                        parent@ as int,
                        meta,
                        self@.max_call_depth,
                    )
                    &&& match created {
                        Some(info) => {
                            &&& call_path_below(
                                old(pool)@,
                                parent@ as int,
                                meta,
                                self@.max_call_depth,
                            ) == Some(info@.call_path)
                            &&& info@ == TrackerView::fresh(info@.call_path, info@.created_at)
                        },
                        None => call_path_below(
                            old(pool)@,
                            parent@ as int,
                            meta,
                            self@.max_call_depth,
                        ) is None,
                    }
                },
                None => created is None && final(pool)@ == old(pool)@,
            },
    {
        let parent = match parent {
            Some(parent) => parent,
            // We are beyond the maximum call depth.
            None => return None,
        };
        match pool.call_path_below(parent, meta, self.max_call_depth) {
            Some(id) => Some(SpanTimingInfo::for_call_path_idx(id, clock_start(&self.clock))),
            None => None,
        }
    }

    /// Reads the clock as a thread is about to enter or to leave a span.
    /// The host takes this reading first, before it looks up any storage.
    pub fn end_reading(&self) -> (now: u64) {
        clock_end(&self.clock)
    }

    /// `thread` enters a span, whose timing is `info` if the span is
    /// tracked.
    ///
    /// A tracked span remembers the clock reading taken now, both as the
    /// time the thread entered and as the time from which it is busy in
    /// the span itself; the result is `true`, and the parent of the span
    /// is to be told with [`on_child_enter`](Self::on_child_enter). A span
    /// that is not tracked is ignored: the result is `false`, and the
    /// parent is not to be touched.
    pub fn on_enter(&self, info: Option<&mut SpanTimingInfo>, thread: u64) -> (entered: bool)
        ensures
            match info {
                Some(info) => {
                    &&& entered
                    &&& exists|start: u64|
                        (*final(info))@ == #[trigger] after_event(
                            (*info)@,
                            SpanEvent::Enter { thread, start },
                            measure(self@.clock),
                        )
                },
                None => !entered,
            },
    {
        match info {
            Some(info) => {
                let ghost before = info@;
                let start = clock_start(&self.clock);
                info.enter(thread, start);
                assert(info@ == after_event(
                    before,
                    SpanEvent::Enter { thread, start },
                    measure(self@.clock),
                ));
                true
            },
            None => false,
        }
    }

    /// `thread` has entered a tracked sub span of a span, having left that
    /// span at the reading `leave_parent`. `parent` is the timing of the
    /// span that was left, if it is tracked: then what the clock measures
    /// from the reading at which the thread last came to the parent
    /// itself up to `leave_parent` goes to the parent's own time.
    pub fn on_child_enter(
        &self,
        parent: Option<&mut SpanTimingInfo>,
        thread: u64,
        leave_parent: u64,
    ) -> (done: Result<(), TimingOverflow>)
        requires
            parent matches Some(parent) ==> (*parent)@.per_thread.contains_key(thread),
        ensures
            match parent {
                Some(parent) => child_enter_outcome(
                    (*parent)@,
                    (*final(parent))@,
                    thread,
                    leave_parent,
                    measure(self@.clock),
                    done,
                ),
                None => done is Ok,
            },
    {
        match parent {
            Some(parent) => {
                let last_enter_own = parent.thread_info(thread).unwrap().last_enter_own;
                let own = clock_delta(&self.clock, last_enter_own, leave_parent);
                parent.child_entered(own)
            },
            None => Ok(()),
        }
    }

    /// `thread` leaves a span at the reading `end`; `info` is the timing
    /// of the span if it is tracked.
    ///
    /// For a tracked span, what the clock measures from the reading at
    /// which the thread entered up to `end` goes to the span's time with
    /// children, what it measures from the reading at which the thread
    /// last came to the span itself goes to its own time, and the span
    /// forgets the thread; the result is `Ok(true)`, and the parent of the
    /// span is to be told with [`on_child_exit`](Self::on_child_exit). A
    /// span that is not tracked is ignored, and the result is `Ok(false)`.
    pub fn on_exit(&self, info: Option<&mut SpanTimingInfo>, thread: u64, end: u64) -> (done: Result<
        bool,
        TimingOverflow,
    >)
        requires
            info matches Some(info) ==> (*info)@.per_thread.contains_key(thread),
        ensures
            match info {
                Some(info) => exit_outcome(
                    (*info)@,
                    (*final(info))@,
                    thread,
                    end,
                    measure(self@.clock),
                    done,
                ),
                None => done == Ok::<bool, TimingOverflow>(false),
            },
    {
        match info {
            Some(info) => {
                let per_thread = info.thread_info(thread).unwrap();
                let wall = clock_delta(&self.clock, per_thread.last_enter, end);
                let own = clock_delta(&self.clock, per_thread.last_enter_own, end);
                match info.exit(thread, wall, own) {
                    Ok(()) => Ok(true),
                    Err(overflow) => Err(overflow),
                }
            },
            None => Ok(false),
        }
    }

    /// `thread` has left a tracked sub span of a span. `parent` is the
    /// timing of that span, if it is tracked: then, from the clock reading
    /// taken now on, the thread is busy in the parent itself again.
    pub fn on_child_exit(&self, parent: Option<&mut SpanTimingInfo>, thread: u64)
        ensures
            parent matches Some(parent) ==> exists|enter_own: u64|
                (*final(parent))@ == #[trigger] after_event(
                    (*parent)@,
                    SpanEvent::ChildExit { thread, enter_own },
                    measure(self@.clock),
                ),
    {
        match parent {
            Some(parent) => {
                let ghost before = parent@;
                let enter_own = clock_start(&self.clock);
                parent.child_exited(thread, enter_own);
                assert(parent@ == after_event(
                    before,
                    SpanEvent::ChildExit { thread, enter_own },
                    measure(self@.clock),
                ));
            },
            None => {},
        }
    }

    /// A span closes; `info` is its timing if the span is tracked, taken
    /// out of the storage of the span. `slot` is where the root span of
    /// the call tree stores the pool.
    ///
    /// The timing of a tracked span is folded into its call path in the
    /// pool, together with what the clock measures from the reading at
    /// which the span was created up to the reading taken now. If and
    /// only if the span is the root span itself, the pool is then taken
    /// out of `slot` and handed to the processor, once and for all: with
    /// the pool gone from its storage, nothing can fold into it or hand it
    /// over again. A span that is not tracked changes nothing.
    pub fn on_close(
        &self,
        slot: &mut Option<CallPathPool>,
        info: Option<SpanTimingInfo>,
        is_root: bool,
    ) -> (done: Result<(), TimingOverflow>)
        requires
            info matches Some(info) ==> (*old(slot) matches Some(pool) && pool.wf()
                && info@.call_path < pool@.len()),
        ensures
            match info {
                Some(info) => {
                    &&& *final(slot) is None <==> is_root && done is Ok
                    &&& exists|closed_at: u64| #[trigger]
                        close_outcome(
                            *old(slot),
                            *final(slot),
                            info@,
                            clock_measures(self@.clock, info@.created_at, closed_at),
                            is_root,
                            done,
                        )
                },
                None => done is Ok && *final(slot) == *old(slot),
            },
    {
        let info = match info {
            Some(info) => info,
            None => return Ok(()),
        };
        let closed_at = clock_end(&self.clock);
        let span_alive = clock_delta(&self.clock, info.created_at(), closed_at);
        let ghost closing = info@;
        let done = match close_span(slot, info, span_alive, is_root) {
            Ok(Some(pool)) => {
                self.processor.process_finished_call(pool);
                Ok(())
            },
            Ok(None) => Ok(()),
            Err(overflow) => Err(overflow),
        };
        assert(close_outcome(
            *old(slot),
            *slot,
            closing,
            clock_measures(self@.clock, closing.created_at, closed_at),
            is_root,
            done,
        ));
        done
    }
}

} // verus!
