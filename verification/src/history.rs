//! What holds of a call tree over every course of events that a host may
//! put it through.
//!
//! The pool of a call tree sees two kinds of events: a span is created
//! below a span of some call path, and a span closes. What happened to a
//! span between the two is seen by its own timing alone, so here it comes
//! with the close, as the course of [`SpanEvent`]s that the span went
//! through.

use crate::pool::{
    call_path_below,
    is_call_tree,
    lemma_call_path_below_keeps_tree,
    lemma_closed_span_keeps_tree,
    with_call_path_below,
    with_closed_span,
    SpanMeta,
    TimingView,
};
use crate::protocol::{
    after_event,
    after_events,
    all_threads_left,
    follows_protocol,
    is_superadditive,
    lemma_own_time_within_time_with_children,
    SpanEvent,
};
use crate::tracker::TrackerView;
use vstd::prelude::*;

verus! {

/// One event in the life of a call tree, as its pool sees it.
pub enum TreeEvent {
    /// A span was created at `meta.callsite`, below a span of the call
    /// path `parent`.
    Create { parent: nat, meta: SpanMeta },
    /// A span of the call path `id`, created at the reading `created_at`,
    /// closed at the reading `closed_at` after it went through `events`.
    Close { id: nat, created_at: u64, closed_at: u64, events: Seq<SpanEvent> },
}

/// The pool of a call tree whose root span was just created.
pub open spec fn new_tree(root: SpanMeta) -> Seq<TimingView> {
    seq![TimingView::fresh(None, 0, root)]
}

/// The pool after one event, under the given maximum call depth and with
/// the times measured by `clock`.
pub open spec fn tree_after_event(
    p: Seq<TimingView>,
    event: TreeEvent,
    max_call_depth: nat,
    clock: spec_fn(u64, u64) -> nat,
) -> Seq<TimingView> {
    match event {
        TreeEvent::Create { parent, meta } => with_call_path_below(
            p,
            parent as int,
            meta,
            max_call_depth,
        ),
        TreeEvent::Close { id, created_at, closed_at, events } => {
            let t = after_events(TrackerView::fresh(id, created_at), events, clock);
            with_closed_span(
                p,
                id as int,
                clock(created_at, closed_at),
                t.sum_with_children,
                t.sum_own,
            )
        },
    }
}

/// The pool after a course of events that began with the creation of the
/// root span.
pub open spec fn tree_after(
    root: SpanMeta,
    history: Seq<TreeEvent>,
    max_call_depth: nat,
    clock: spec_fn(u64, u64) -> nat,
) -> Seq<TimingView>
    decreases history.len(),
{
    if history.len() == 0 {
        new_tree(root)
    } else {
        tree_after_event(
            tree_after(root, history.drop_last(), max_call_depth, clock),
            history.last(),
            max_call_depth,
            clock,
        )
    }
}

/// Whether `event` may come next for the pool `p`: it names a call path of
/// the pool, and a span that closes has gone through a course of events
/// that follows the protocol and that every thread has left it.
pub open spec fn may_happen(p: Seq<TimingView>, event: TreeEvent) -> bool {
    match event {
        TreeEvent::Create { parent, meta } => parent < p.len(),
        TreeEvent::Close { id, created_at, closed_at, events } => {
            &&& id < p.len()
            &&& follows_protocol(events)
            &&& all_threads_left(events)
        },
    }
}

/// Every event of the history may happen after those before it.
pub open spec fn is_orderly(
    root: SpanMeta,
    history: Seq<TreeEvent>,
    max_call_depth: nat,
    clock: spec_fn(u64, u64) -> nat,
) -> bool
    decreases history.len(),
{
    history.len() == 0 || {
        &&& is_orderly(root, history.drop_last(), max_call_depth, clock)
        &&& may_happen(
            tree_after(root, history.drop_last(), max_call_depth, clock),
            history.last(),
        )
    }
}

/// No call path of the pool was busy itself for longer than it was busy
/// with its sub spans included.
pub open spec fn is_balanced(p: Seq<TimingView>) -> bool {
    forall|i: int| 0 <= i < p.len() ==> (#[trigger] p[i]).sum_own <= p[i].sum_with_children
}

/// After every orderly course of creating, entering, leaving and closing
/// spans, measured by a superadditive clock, the pool is a call tree in
/// which no call path was busy itself for longer than it was busy with its
/// sub spans included.
pub proof fn lemma_own_time_never_exceeds_time_with_children(
    root: SpanMeta,
    history: Seq<TreeEvent>,
    max_call_depth: nat,
    clock: spec_fn(u64, u64) -> nat,
)
    requires
        is_orderly(root, history, max_call_depth, clock),
        is_superadditive(clock),
    ensures
        is_call_tree(tree_after(root, history, max_call_depth, clock)),
        is_balanced(tree_after(root, history, max_call_depth, clock)),
    decreases history.len(),
{
    if history.len() > 0 {
        lemma_own_time_never_exceeds_time_with_children(
            root,
            history.drop_last(),
            max_call_depth,
            clock,
        );
        let before = tree_after(root, history.drop_last(), max_call_depth, clock);
        match history.last() {
            TreeEvent::Create { parent, meta } => {
                lemma_call_path_below_keeps_tree(before, parent as int, meta, max_call_depth);
            },
            TreeEvent::Close { id, created_at, closed_at, events } => {
                let t = after_events(TrackerView::fresh(id, created_at), events, clock);
                lemma_own_time_within_time_with_children(id, created_at, events, clock);
                lemma_closed_span_keeps_tree(
                    before,
                    id as int,
                    clock(created_at, closed_at),
                    t.sum_with_children,
                    t.sum_own,
                );
            },
        }
    }
}

/// A root span that is entered once and left after the clock measured
/// `d` nanoseconds, with no sub span in between, counts as one call that
/// was busy for `d` nanoseconds, with and without sub spans.
pub proof fn lemma_single_span(
    root: SpanMeta,
    thread: u64,
    readings: (u64, u64, u64, u64),
    clock: spec_fn(u64, u64) -> nat,
)
    ensures
        ({
            let (created_at, start, end, closed_at) = readings;
            let entered = after_event(
                TrackerView::fresh(0, created_at),
                SpanEvent::Enter { thread, start },
                clock,
            );
            let left = after_event(entered, SpanEvent::Exit { thread, end }, clock);
            let tree = with_closed_span(
                new_tree(root),
                0,
                clock(created_at, closed_at),
                left.sum_with_children,
                left.sum_own,
            );
            &&& tree.len() == 1
            &&& tree[0].call_count == 1
            &&& tree[0].sum_with_children == clock(start, end)
            &&& tree[0].sum_own == clock(start, end)
        }),
{
}

/// Two spans that are created at the same callsite below the same call
/// path share one call path: the second span adds no entry to the pool,
/// and once both are closed that one entry counts both calls and holds
/// the sums of their times. The times of each span are given as the time
/// it was alive, the time it was busy with its sub spans included, and
/// the time it was busy itself.
pub proof fn lemma_same_call_path_folds_together(
    p: Seq<TimingView>,
    parent: int,
    meta: SpanMeta,
    max_call_depth: nat,
    first: (nat, nat, nat),
    second: (nat, nat, nat),
)
    requires
        is_call_tree(p),
        0 <= parent < p.len(),
        p[parent].depth + 1 < max_call_depth,
    ensures
        ({
            let once = with_call_path_below(p, parent, meta, max_call_depth);
            let twice = with_call_path_below(once, parent, meta, max_call_depth);
            let id = call_path_below(p, parent, meta, max_call_depth);
            &&& id matches Some(id)
            &&& id < once.len()
            &&& call_path_below(once, parent, meta, max_call_depth) == Some(id)
            &&& twice == once
            &&& {
                let closed = with_closed_span(
                    with_closed_span(twice, id as int, first.0, first.1, first.2),
                    id as int,
                    second.0,
                    second.1,
                    second.2,
                );
                &&& closed.len() == once.len()
                &&& closed[id as int].call_count == once[id as int].call_count + 2
                &&& closed[id as int].span_alive == once[id as int].span_alive + first.0 + second.0
                &&& closed[id as int].sum_with_children == once[id as int].sum_with_children
                    + first.1 + second.1
                &&& closed[id as int].sum_own == once[id as int].sum_own + first.2 + second.2
            }
        }),
{
    if p[parent].children.contains_key(meta.callsite) {
        assert(crate::pool::lists_a_child(p, parent, meta.callsite));
    }
}

/// The pool after spans were created one inside the other, `levels` deep
/// and all at the callsite of `meta`, the outermost of them below a span
/// of the call path `from`. A span inside a span that is not tracked is
/// not tracked either, and leaves the pool as it is.
pub open spec fn nested(
    p: Seq<TimingView>,
    from: int,
    meta: SpanMeta,
    max_call_depth: nat,
    levels: nat,
) -> Seq<TimingView>
    decreases levels,
{
    if levels == 0 {
        p
    } else {
        match call_path_below(p, from, meta, max_call_depth) {
            Some(id) => nested(
                with_call_path_below(p, from, meta, max_call_depth),
                id as int,
                meta,
                max_call_depth,
                (levels - 1) as nat,
            ),
            None => p,
        }
    }
}

/// The pool holds one call path for each depth and nothing else: each
/// entry hangs below the one before it, and the last has no children yet.
pub open spec fn is_chain(p: Seq<TimingView>) -> bool {
    &&& p.len() > 0
    &&& p[0].parent is None
    &&& forall|i: int| 0 <= i < p.len() ==> (#[trigger] p[i]).depth == i
    &&& forall|i: int| 0 < i < p.len() ==> (#[trigger] p[i]).parent == Some((i - 1) as nat)
    &&& p.last().children == Map::<u64, nat>::empty()
}

/// The step of [`lemma_recursion_is_cut_at_max_call_depth`], from any chain.
pub proof fn lemma_nested_extends_chain(
    p: Seq<TimingView>,
    meta: SpanMeta,
    max_call_depth: nat,
    levels: nat,
)
    requires
        is_chain(p),
        p.len() <= max_call_depth,
    ensures
        ({
            let tree = nested(p, p.len() - 1, meta, max_call_depth, levels);
            &&& is_chain(tree)
            &&& tree.len() == if p.len() + levels <= max_call_depth {
                p.len() + levels
            } else {
                max_call_depth
            }
        }),
    decreases levels,
{
    if levels > 0 && p.len() < max_call_depth {
        let last = p.len() - 1;
        assert(!p[last].children.contains_key(meta.callsite));
        let longer = with_call_path_below(p, last, meta, max_call_depth);
        assert(longer.last().children == Map::<u64, nat>::empty());
        lemma_nested_extends_chain(longer, meta, max_call_depth, (levels - 1) as nat);
    }
}

/// A function that calls itself `n` levels deep, each call a span, gives
/// one call path for each level: `n` of them where `n` stays within the
/// maximum call depth, and as many as that maximum otherwise. The spans
/// of the levels beyond are not tracked and add nothing to the pool.
pub proof fn lemma_recursion_is_cut_at_max_call_depth(
    meta: SpanMeta,
    max_call_depth: nat,
    n: nat,
)
    requires
        n >= 1,
        max_call_depth >= 1,
    ensures
        ({
            let tree = nested(new_tree(meta), 0, meta, max_call_depth, (n - 1) as nat);
            &&& tree.len() == if n <= max_call_depth {
                n
            } else {
                max_call_depth
            }
            &&& forall|i: int| 0 <= i < tree.len() ==> (#[trigger] tree[i]).depth == i
            &&& forall|i: int| 0 < i < tree.len() ==> (#[trigger] tree[i]).parent == Some((i - 1) as nat)
        }),
{
    lemma_nested_extends_chain(new_tree(meta), meta, max_call_depth, (n - 1) as nat);
}

} // verus!
