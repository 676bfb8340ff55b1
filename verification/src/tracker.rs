//! The timing of one span while it is open.

use crate::pool::{CallPathPoolId, TimingOverflow};
use std::collections::HashMap;
use vstd::prelude::*;

verus! {

broadcast use vstd::std_specs::hash::group_hash_axioms;

/// What a span remembers of a thread that has entered it and not yet left.
#[derive(Debug, Clone, Copy, PartialEq, Eq, Structural)]
pub struct PerThreadInfo {
    /// The clock reading at which the thread entered the span.
    pub last_enter: u64,
    /// The clock reading from which the thread has been busy in the span
    /// itself: that of entering it, or of coming back from a sub span.
    pub last_enter_own: u64,
}

/// The mathematical content of a [`SpanTimingInfo`].
pub struct TrackerView {
    pub call_path: nat,
    pub created_at: u64,
    pub sum_with_children: nat,
    pub sum_own: nat,
    pub per_thread: Map<u64, PerThreadInfo>,
}

impl TrackerView {
    /// The timing of a span that was created on `call_path` at the clock
    /// reading `created_at` and never entered.
    pub open spec fn fresh(call_path: nat, created_at: u64) -> TrackerView {
        TrackerView {
            call_path,
            created_at,
            sum_with_children: 0,
            sum_own: 0,
            per_thread: Map::empty(),
        }
    }

    /// After `thread` entered the span at the clock reading `start`.
    pub open spec fn entered(self, thread: u64, start: u64) -> TrackerView {
        TrackerView {
            per_thread: self.per_thread.insert(
                thread,
                PerThreadInfo { last_enter: start, last_enter_own: start },
            ),
            ..self
        }
    }

    /// After a thread went on into a sub span, having been busy in the span
    /// itself for `own` nanoseconds since it last came to it.
    pub open spec fn child_entered(self, own: nat) -> TrackerView {
        TrackerView { sum_own: self.sum_own + own, ..self }
    }

    /// After `thread` came back from a sub span at the clock reading
    /// `enter_own`. A thread that is not in the span changes nothing.
    pub open spec fn child_exited(self, thread: u64, enter_own: u64) -> TrackerView {
        if self.per_thread.contains_key(thread) {
            TrackerView {
                per_thread: self.per_thread.insert(
                    thread,
                    PerThreadInfo {
                        last_enter: self.per_thread[thread].last_enter,
                        last_enter_own: enter_own,
                    },
                ),
                ..self
            }
        } else {
            self
        }
    }

    /// After `thread` left the span, `wall` nanoseconds after it entered and
    /// `own` nanoseconds after it last came to the span itself.
    pub open spec fn exited(self, thread: u64, wall: nat, own: nat) -> TrackerView {
        TrackerView {
            sum_with_children: self.sum_with_children + wall,
            sum_own: self.sum_own + own,
            per_thread: self.per_thread.remove(thread),
            ..self
        }
    }
}

/// The span specific information.
///
/// The sums are folded into the referenced call path when the span is
/// closed.
#[derive(Debug, Clone)]
pub struct SpanTimingInfo {
    call_path_idx: CallPathPoolId,
    created_at: u64,
    sum_with_children: u128,
    sum_own: u128,
    /// Per thread info. While not typical, the same span can be
    /// entered multiple times from multiple threads.
    per_thread: HashMap<u64, PerThreadInfo>,
}

impl View for SpanTimingInfo {
    type V = TrackerView;

    closed spec fn view(&self) -> TrackerView {
        TrackerView {
            call_path: self.call_path_idx@,
            created_at: self.created_at,
            sum_with_children: self.sum_with_children as nat,
            sum_own: self.sum_own as nat,
            per_thread: self.per_thread@,
        }
    }
}

impl SpanTimingInfo {
    /// The timing of a span that was created on the call path
    /// `call_path_idx` at the clock reading `created_at`.
    pub fn for_call_path_idx(call_path_idx: CallPathPoolId, created_at: u64) -> (info:
        SpanTimingInfo)
        ensures
            info@ == TrackerView::fresh(call_path_idx@, created_at),
    {
        SpanTimingInfo {
            call_path_idx,
            created_at,
            sum_with_children: 0,
            sum_own: 0,
            per_thread: HashMap::new(),
        }
    }

    /// The call path that the span is folded into when it closes.
    pub fn call_path_idx(&self) -> (id: CallPathPoolId)
        ensures
            id@ == self@.call_path,
    {
        self.call_path_idx
    }

    /// The clock reading at which the span was created.
    pub fn created_at(&self) -> (reading: u64)
        ensures
            reading == self@.created_at,
    {
        self.created_at
    }

    /// The nanoseconds between entering and leaving the span, over all
    /// the times it was left so far.
    pub fn sum_with_children(&self) -> (nanos: u128)
        ensures
            nanos == self@.sum_with_children,
    {
        self.sum_with_children
    }

    /// The nanoseconds for which the span was busy itself, as far as
    /// they are accounted for.
    pub fn sum_own(&self) -> (nanos: u128)
        ensures
            nanos == self@.sum_own,
    {
        self.sum_own
    }

    /// What the span remembers of `thread`, if that thread is in the span.
    pub fn thread_info(&self, thread: u64) -> (info: Option<PerThreadInfo>)
        ensures
            info == if self@.per_thread.contains_key(thread) {
                Some(self@.per_thread[thread])
            } else {
                None
            },
    {
        match self.per_thread.get(&thread) {
            Some(info) => Some(*info),
            None => None,
        }
    }

    /// `thread` enters the span at the clock reading `start`.
    pub fn enter(&mut self, thread: u64, start: u64)
        ensures
            final(self)@ == old(self)@.entered(thread, start),
    {
        self.per_thread.insert(thread, PerThreadInfo { last_enter: start, last_enter_own: start });
    }

    /// A thread goes on into a sub span, `own` nanoseconds after it last
    /// came to the span itself. Where the sum would leave the range of its
    /// type, the timing stays as it is.
    pub fn child_entered(&mut self, own: u128) -> (done: Result<(), TimingOverflow>)
        ensures
            done is Ok <==> old(self)@.sum_own + own <= u128::MAX,
            done is Ok ==> final(self)@ == old(self)@.child_entered(own as nat),
            done is Err ==> final(self)@ == old(self)@,
    {
        match self.sum_own.checked_add(own) {
            Some(sum_own) => {
                self.sum_own = sum_own;
                Ok(())
            },
            None => Err(TimingOverflow),
        }
    }

    /// `thread` comes back from a sub span at the clock reading `enter_own`.
    pub fn child_exited(&mut self, thread: u64, enter_own: u64)
        ensures
            final(self)@ == old(self)@.child_exited(thread, enter_own),
    {
        let last_enter = match self.per_thread.get(&thread) {
            Some(info) => Some(info.last_enter),
            None => None,
        };
        if let Some(last_enter) = last_enter {
            self.per_thread.insert(thread, PerThreadInfo { last_enter, last_enter_own: enter_own });
        }
    }

    /// `thread` leaves the span, `wall` nanoseconds after it entered and
    /// `own` nanoseconds after it last came to the span itself. Where a sum
    /// would leave the range of its type, the timing stays as it is.
    pub fn exit(&mut self, thread: u64, wall: u128, own: u128) -> (done: Result<
        (),
        TimingOverflow,
    >)
        ensures
            done is Ok <==> old(self)@.sum_with_children + wall <= u128::MAX && old(self)@.sum_own
                + own <= u128::MAX,
            done is Ok ==> final(self)@ == old(self)@.exited(thread, wall as nat, own as nat),
            done is Err ==> final(self)@ == old(self)@,
    {
        let sum_with_children = self.sum_with_children.checked_add(wall);
        let sum_own = self.sum_own.checked_add(own);
        match (sum_with_children, sum_own) {
            (Some(sum_with_children), Some(sum_own)) => {
                self.sum_with_children = sum_with_children;
                self.sum_own = sum_own;
                // The same thread may well come again, but a span that many
                // threads enter in turn must not grow without bound.
                self.per_thread.remove(&thread);
                Ok(())
            },
            _ => Err(TimingOverflow),
        }
    }
}

} // verus!
