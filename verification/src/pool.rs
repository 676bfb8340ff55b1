//! Call paths and the pool that owns their aggregated timings.

use std::collections::HashMap;
use vstd::prelude::*;
use vstd::std_specs::iter::IteratorSpec;

verus! {

broadcast use vstd::std_specs::hash::group_hash_axioms;

/// What is known of a span from the place in the source that defines it.
/// All spans created at one place share one `SpanMeta`.
#[derive(Debug, Clone, Copy)]
pub struct SpanMeta {
    /// Identifies the place that defines the span.
    pub callsite: u64,
    /// The name of the span, typically that of the instrumented function.
    pub name: &'static str,
    /// The source file of the callsite, where it is known.
    pub file: Option<&'static str>,
    /// The line of the callsite, where it is known.
    pub line: Option<u32>,
}

/// Use a [`CallPathPoolId`] to index a [`CallPathTiming`] in a [`CallPathPool`].
#[derive(Debug, PartialEq, Eq, PartialOrd, Ord, Clone, Copy, Structural)]
pub struct CallPathPoolId(usize);

impl View for CallPathPoolId {
    type V = nat;

    closed spec fn view(&self) -> nat {
        self.0 as nat
    }
}

impl CallPathPoolId {
    /// The position of the call path in its pool.
    pub fn index(self) -> (i: usize)
        ensures
            i == self@,
    {
        self.0
    }
}

/// The mathematical content of a [`CallPathTiming`].
pub struct TimingView {
    pub parent: Option<nat>,
    pub depth: nat,
    pub call_count: nat,
    pub meta: SpanMeta,
    pub children: Map<u64, nat>,
    pub span_alive: nat,
    pub sum_with_children: nat,
    pub sum_own: nat,
}

impl TimingView {
    /// The timing of a call path that no span has been closed on yet.
    pub open spec fn fresh(parent: Option<nat>, depth: nat, meta: SpanMeta) -> TimingView {
        TimingView {
            parent,
            depth,
            call_count: 0,
            meta,
            children: Map::empty(),
            span_alive: 0,
            sum_with_children: 0,
            sum_own: 0,
        }
    }

    /// This timing with `child` recorded as the call path of `callsite` below it.
    pub open spec fn with_child(self, callsite: u64, child: nat) -> TimingView {
        TimingView { children: self.children.insert(callsite, child), ..self }
    }

    /// This timing after one more span was closed on it, which was alive
    /// and busy for the given times.
    pub open spec fn with_call(self, span_alive: nat, sum_with_children: nat, sum_own: nat) -> TimingView {
        TimingView {
            call_count: self.call_count + 1,
            span_alive: self.span_alive + span_alive,
            sum_with_children: self.sum_with_children + sum_with_children,
            sum_own: self.sum_own + sum_own,
            ..self
        }
    }
}

/// A CallPathTiming is an aggregation of all spans with the same
/// call path. That means that their callsite is the same and all
/// the callsites of their ancestor spans are also the same.
#[derive(Debug, Clone)]
pub struct CallPathTiming {
    parent_idx: Option<CallPathPoolId>,
    depth: usize,
    call_count: usize,
    span_meta: SpanMeta,
    children: HashMap<u64, CallPathPoolId>,
    span_alive: u128,
    sum_with_children: u128,
    sum_own: u128,
}

impl View for CallPathTiming {
    type V = TimingView;

    closed spec fn view(&self) -> TimingView {
        TimingView {
            parent: match self.parent_idx {
                Some(id) => Some(id@),
                None => None,
            },
            depth: self.depth as nat,
            call_count: self.call_count as nat,
            meta: self.span_meta,
            children: self.children@.map_values(|id: CallPathPoolId| id@),
            span_alive: self.span_alive as nat,
            sum_with_children: self.sum_with_children as nat,
            sum_own: self.sum_own as nat,
        }
    }
}

impl CallPathTiming {
    /// What is known of the spans on this call path from their callsite,
    /// such as the name of the function that is being executed.
    pub fn static_span_meta(&self) -> (meta: SpanMeta)
        ensures
            meta == self@.meta,
    {
        self.span_meta
    }

    /// The number of times a new span with this call path was created.
    ///
    /// Typically, the number of times a function was called.
    pub fn call_count(&self) -> (count: usize)
        ensures
            count == self@.call_count,
    {
        self.call_count
    }

    /// The total of the nanoseconds for which spans with this call path
    /// were alive, that is between their creation and their close.
    pub fn span_alive(&self) -> (nanos: u128)
        ensures
            nanos == self@.span_alive,
    {
        self.span_alive
    }

    /// The total of the nanoseconds between entering and leaving spans
    /// with this call path. The time spent in sub spans is included.
    pub fn sum_with_children(&self) -> (nanos: u128)
        ensures
            nanos == self@.sum_with_children,
    {
        self.sum_with_children
    }

    /// The total of the nanoseconds between entering and leaving spans
    /// with this call path, without the time during which a sub span
    /// was entered.
    pub fn sum_without_children(&self) -> (nanos: u128)
        ensures
            nanos == self@.sum_own,
    {
        self.sum_own
    }

    /// The ids of all children, in no particular order.
    pub fn children(&self) -> (ids: Vec<CallPathPoolId>)
        ensures
            ids@.len() == self@.children.dom().len(),
            ids@.map_values(|id: CallPathPoolId| id@).to_set() == self@.children.values(),
    {
        let mut ids: Vec<CallPathPoolId> = Vec::new();
        let ghost all = self.children.values().remaining().unref();
        for id in it: self.children.values()
            invariant
                it.seq().unref() == all,
                ids@.len() == it.index(),
                forall|i: int| 0 <= i < ids@.len() ==> ids@[i] == all[i],
        {
            assert(all[it.index()] == *it.seq()[it.index()]);
            ids.push(*id);
        }
        proof {
            let to_index = |id: CallPathPoolId| id@;
            let indices = ids@.map_values(to_index);
            assert(ids@ =~= all);
            assert(self@.children.dom() =~= self.children@.dom());
            assert forall|x: nat| indices.to_set().contains(x) <==> self@.children.values().contains(
                x,
            ) by {
                if indices.to_set().contains(x) {
                    let i = choose|i: int| 0 <= i < indices.len() && indices[i] == x;
                    assert(all.to_set().contains(ids@[i]));
                    let k = choose|k: u64|
                        self.children@.contains_key(k) && self.children@[k] == ids@[i];
                    assert(self@.children.contains_key(k) && self@.children[k] == x);
                }
                if self@.children.values().contains(x) {
                    let k = choose|k: u64| self@.children.contains_key(k) && self@.children[k] == x;
                    assert(self.children@.values().contains(self.children@[k]));
                    assert(all.to_set().contains(self.children@[k]));
                    let i = choose|i: int| 0 <= i < all.len() && all[i] == self.children@[k];
                    assert(indices[i] == x);
                }
            }
            assert(indices.to_set() =~= self@.children.values());
        }
        ids
    }
}

/// A count of calls or a sum of nanoseconds would have left the range of its type.
#[derive(Debug, Clone, Copy, PartialEq, Eq)]
pub struct TimingOverflow;

/// Entry `i` hangs below an earlier entry, one level deeper, and that entry
/// lists it under the callsite of `i`.
pub open spec fn hangs_below_parent(p: Seq<TimingView>, i: int) -> bool {
    &&& p[i].parent matches Some(q)
    &&& q < i
    &&& p[i].depth == p[q as int].depth + 1
    &&& p[q as int].children.contains_key(p[i].meta.callsite)
    &&& p[q as int].children[p[i].meta.callsite] == i
}

/// What entry `q` lists under callsite `k` is a later entry of the pool
/// that hangs below `q` and was created at `k`.
pub open spec fn lists_a_child(p: Seq<TimingView>, q: int, k: u64) -> bool {
    let c = p[q].children[k] as int;
    &&& q < c < p.len()
    &&& p[c].parent == Some(q as nat)
    &&& p[c].meta.callsite == k
}

/// The entries form a tree of call paths: entry 0 is the root, every other
/// entry is the call path of exactly one callsite below an earlier entry.
pub open spec fn is_call_tree(p: Seq<TimingView>) -> bool {
    &&& p.len() > 0
    &&& p[0].parent is None
    &&& p[0].depth == 0
    &&& forall|i: int| 0 < i < p.len() ==> hangs_below_parent(p, i)
    &&& forall|q: int, k: u64|
        0 <= q < p.len() && #[trigger] p[q].children.contains_key(k) ==> lists_a_child(p, q, k)
}

/// The call path of a span created at `meta.callsite` below the call path
/// `parent`, or `None` where that path would reach `max_call_depth`.
pub open spec fn call_path_below(
    p: Seq<TimingView>,
    parent: int,
    meta: SpanMeta,
    max_call_depth: nat,
) -> Option<nat> {
    if p[parent].depth + 1 >= max_call_depth {
        None
    } else if p[parent].children.contains_key(meta.callsite) {
        Some(p[parent].children[meta.callsite])
    } else {
        Some(p.len())
    }
}

/// The pool after a span was created at `meta.callsite` below the call
/// path `parent`: a call path that was not seen before is appended and
/// listed by its parent, anything else leaves the pool as it is.
pub open spec fn with_call_path_below(
    p: Seq<TimingView>,
    parent: int,
    meta: SpanMeta,
    max_call_depth: nat,
) -> Seq<TimingView> {
    if p[parent].depth + 1 >= max_call_depth || p[parent].children.contains_key(meta.callsite) {
        p
    } else {
        p.update(parent, p[parent].with_child(meta.callsite, p.len())).push(
            TimingView::fresh(Some(parent as nat), p[parent].depth + 1, meta),
        )
    }
}

/// Whether the call path `id` can take one more span with the given times
/// without a count or a sum leaving the range of its type.
pub open spec fn has_room(
    p: Seq<TimingView>,
    id: int,
    span_alive: nat,
    sum_with_children: nat,
    sum_own: nat,
) -> bool {
    &&& p[id].call_count < usize::MAX
    &&& p[id].span_alive + span_alive <= u128::MAX
    &&& p[id].sum_with_children + sum_with_children <= u128::MAX
    &&& p[id].sum_own + sum_own <= u128::MAX
}

/// The pool after a span of call path `id` was closed, which was alive and
/// busy for the given times.
pub open spec fn with_closed_span(
    p: Seq<TimingView>,
    id: int,
    span_alive: nat,
    sum_with_children: nat,
    sum_own: nat,
) -> Seq<TimingView> {
    p.update(id, p[id].with_call(span_alive, sum_with_children, sum_own))
}

/// The call paths directly below the call path `q` among the entries
/// before `end`, in the order of their ids.
pub open spec fn children_before(p: Seq<TimingView>, q: int, end: int) -> Seq<nat>
    decreases end,
{
    if end <= q + 1 || end <= 0 {
        Seq::empty()
    } else if p[end - 1].parent == Some(q as nat) {
        children_before(p, q, end - 1).push((end - 1) as nat)
    } else {
        children_before(p, q, end - 1)
    }
}

/// The call paths directly below the call path `q`, in the order of their ids.
pub open spec fn children_in_order(p: Seq<TimingView>, q: int) -> Seq<nat> {
    children_before(p, q, p.len() as int)
}

/// A [`CallPathPool`] contains all [`CallPathTiming`]s of a call tree
/// indexed by [`CallPathPoolId`]s.
#[derive(Debug)]
pub struct CallPathPool {
    pool: Vec<CallPathTiming>,
}

impl View for CallPathPool {
    type V = Seq<TimingView>;

    closed spec fn view(&self) -> Seq<TimingView> {
        self.pool@.map_values(|timing: CallPathTiming| timing@)
    }
}

impl CallPathPool {
    /// The invariant of every pool that this library hands out.
    pub open spec fn wf(&self) -> bool {
        is_call_tree(self@)
    }

    /// The pool of a root span: its own call path and nothing else.
    pub fn new(root_meta: SpanMeta) -> (pool: CallPathPool)
        ensures
            pool.wf(),
            pool@ == seq![TimingView::fresh(None, 0, root_meta)],
    {
        let root = CallPathTiming {
            parent_idx: None,
            depth: 0,
            call_count: 0,
            span_meta: root_meta,
            children: HashMap::new(),
            span_alive: 0,
            sum_with_children: 0,
            sum_own: 0,
        };
        assert(root@.children =~= Map::empty());
        let mut pool: Vec<CallPathTiming> = Vec::new();
        pool.push(root);
        let pool = CallPathPool { pool };
        assert(pool@ =~= seq![TimingView::fresh(None, 0, root_meta)]);
        pool
    }

    /// The number of call paths in the pool.
    pub fn len(&self) -> (len: usize)
        ensures
            len == self@.len(),
    {
        self.pool.len()
    }

    /// The id of the call path of the root span.
    pub fn root_id(&self) -> (id: CallPathPoolId)
        ensures
            id@ == 0,
    {
        CallPathPoolId(0)
    }

    /// The call path of the root span.
    pub fn root(&self) -> (root: &CallPathTiming)
        requires
            self.wf(),
        ensures
            root@ == self@[0],
    {
        &self.pool[0]
    }

    /// The timing of the call path `id`.
    pub fn get(&self, id: CallPathPoolId) -> (timing: &CallPathTiming)
        requires
            id@ < self@.len(),
        ensures
            timing@ == self@[id@ as int],
    {
        &self.pool[id.0]
    }

    /// The ids of the call paths directly below `id`, in ascending order.
    pub fn children_of(&self, id: CallPathPoolId) -> (ids: Vec<CallPathPoolId>)
        requires
            id@ < self@.len(),
        ensures
            ids@.map_values(|id: CallPathPoolId| id@) == children_in_order(self@, id@ as int),
    {
        let mut ids: Vec<CallPathPoolId> = Vec::new();
        let len = self.pool.len();
        assert(self@.len() == len);
        let mut next = id.0 + 1;
        while next < len
            invariant
                id@ < next <= len,
                len == self.pool@.len(),
                len == self@.len(),
                ids@.map_values(|id: CallPathPoolId| id@) == children_before(
                    self@,
                    id@ as int,
                    next as int,
                ),
            decreases len - next,
        {
            let is_child = match self.pool[next].parent_idx {
                Some(parent) => parent.0 == id.0,
                None => false,
            };
            if is_child {
                ids.push(CallPathPoolId(next));
                assert(ids@.map_values(|id: CallPathPoolId| id@) =~= children_before(
                    self@,
                    id@ as int,
                    next as int,
                ).push(next as nat));
            }
            next += 1;
        }
        ids
    }

    /// Finds the call path of a span that was created at `meta.callsite`
    /// below the call path `parent`, and appends it where no span took that
    /// path before. A path that would reach `max_call_depth` is not
    /// tracked: the pool stays as it is and the result is `None`.
    pub fn call_path_below(
        &mut self,
        parent: CallPathPoolId,
        meta: SpanMeta,
        max_call_depth: usize,
    ) -> (id: Option<CallPathPoolId>)
        requires
            old(self).wf(),
            parent@ < old(self)@.len(),
        ensures
            final(self).wf(),
            final(self)@ == with_call_path_below(
                old(self)@,
                parent@ as int,
                meta,
                max_call_depth as nat,
            ),
            match id {
                Some(id) => call_path_below(old(self)@, parent@ as int, meta, max_call_depth as nat)
                    == Some(id@),
                None => call_path_below(old(self)@, parent@ as int, meta, max_call_depth as nat)
                    is None,
            },
    {
        let new_idx = CallPathPoolId(self.pool.len());
        assert(old(self)@[parent@ as int].depth <= parent@) by {
            lemma_depth_at_most_index(old(self)@, parent@ as int);
        }
        let new_depth = self.pool[parent.0].depth + 1;
        if new_depth >= max_call_depth {
            return None;
        }
        match self.pool[parent.0].children.get(&meta.callsite) {
            Some(idx) => Some(*idx),
            None => {
                self.pool[parent.0].children.insert(meta.callsite, new_idx);
                self.pool.push(
                    CallPathTiming {
                        parent_idx: Some(parent),
                        depth: new_depth,
                        call_count: 0,
                        span_meta: meta,
                        children: HashMap::new(),
                        span_alive: 0,
                        sum_with_children: 0,
                        sum_own: 0,
                    },
                );
                proof {
                    let before = old(self)@;
                    let expected = with_call_path_below(
                        before,
                        parent@ as int,
                        meta,
                        max_call_depth as nat,
                    );
                    assert(self@[parent@ as int].children =~= before[parent@ as int].children.insert(
                        meta.callsite,
                        before.len(),
                    ));
                    assert(self@[before.len() as int].children =~= Map::empty());
                    assert(self@ =~= expected);
                    lemma_call_path_below_keeps_tree(
                        before,
                        parent@ as int,
                        meta,
                        max_call_depth as nat,
                    );
                }
                Some(new_idx)
            },
        }
    }

    /// Folds a closed span into its call path `id`: one more call, and the
    /// span's times on top of the sums. Where a count or a sum would leave
    /// the range of its type, the pool stays as it is.
    pub fn fold(
        &mut self,
        id: CallPathPoolId,
        span_alive: u128,
        sum_with_children: u128,
        sum_own: u128,
    ) -> (done: Result<(), TimingOverflow>)
        requires
            old(self).wf(),
            id@ < old(self)@.len(),
        ensures
            final(self).wf(),
            done is Ok <==> has_room(
                old(self)@,
                id@ as int,
                span_alive as nat,
                sum_with_children as nat,
                sum_own as nat,
            ),
            done is Ok ==> final(self)@ == with_closed_span(
                old(self)@,
                id@ as int,
                span_alive as nat,
                sum_with_children as nat,
                sum_own as nat,
            ),
            done is Err ==> final(self)@ == old(self)@,
    {
        let timing = &self.pool[id.0];
        let call_count = timing.call_count.checked_add(1);
        let alive = timing.span_alive.checked_add(span_alive);
        let with_children = timing.sum_with_children.checked_add(sum_with_children);
        let own = timing.sum_own.checked_add(sum_own);
        match (call_count, alive, with_children, own) {
            (Some(call_count), Some(alive), Some(with_children), Some(own)) => {
                let timing = &mut self.pool[id.0];
                timing.call_count = call_count;
                timing.span_alive = alive;
                timing.sum_with_children = with_children;
                timing.sum_own = own;
                proof {
                    let before = old(self)@;
                    assert(self@ =~= with_closed_span(
                        before,
                        id@ as int,
                        span_alive as nat,
                        sum_with_children as nat,
                        sum_own as nat,
                    ));
                    lemma_closed_span_keeps_tree(
                        before,
                        id@ as int,
                        span_alive as nat,
                        sum_with_children as nat,
                        sum_own as nat,
                    );
                }
                Ok(())
            },
            _ => Err(TimingOverflow),
        }
    }
}

/// Folding a closed span into a call path of a call tree leaves a call tree.
pub proof fn lemma_closed_span_keeps_tree(
    p: Seq<TimingView>,
    id: int,
    span_alive: nat,
    sum_with_children: nat,
    sum_own: nat,
)
    requires
        is_call_tree(p),
        0 <= id < p.len(),
    ensures
        is_call_tree(with_closed_span(p, id, span_alive, sum_with_children, sum_own)),
{
    let after = with_closed_span(p, id, span_alive, sum_with_children, sum_own);
    assert forall|i: int| 0 < i < after.len() implies hangs_below_parent(after, i) by {
        assert(hangs_below_parent(p, i));
    }
    assert forall|q: int, k: u64|
        0 <= q < after.len() && #[trigger] after[q].children.contains_key(k) implies lists_a_child(
        after,
        q,
        k,
    ) by {
        assert(lists_a_child(p, q, k));
    }
}

/// Creating a span below a call path of a call tree leaves a call tree.
pub proof fn lemma_call_path_below_keeps_tree(
    p: Seq<TimingView>,
    parent: int,
    meta: SpanMeta,
    max_call_depth: nat,
)
    requires
        is_call_tree(p),
        0 <= parent < p.len(),
    ensures
        is_call_tree(with_call_path_below(p, parent, meta, max_call_depth)),
{
    let after = with_call_path_below(p, parent, meta, max_call_depth);
    if after != p {
        assert forall|i: int| 0 < i < after.len() implies hangs_below_parent(after, i) by {
            if i < p.len() {
                assert(hangs_below_parent(p, i));
            }
        }
        assert forall|q: int, k: u64|
            0 <= q < after.len() && #[trigger] after[q].children.contains_key(k) implies lists_a_child(
            after,
            q,
            k,
        ) by {
            if q < p.len() && p[q].children.contains_key(k) {
                assert(lists_a_child(p, q, k));
            }
        }
    }
}

/// No call path lies deeper than its place in the pool.
pub proof fn lemma_depth_at_most_index(p: Seq<TimingView>, i: int)
    requires
        is_call_tree(p),
        0 <= i < p.len(),
    ensures
        p[i].depth <= i,
    decreases i,
{
    if i > 0 {
        assert(hangs_below_parent(p, i));
        lemma_depth_at_most_index(p, p[i].parent.unwrap() as int);
    }
}

/// Every call path directly below `q` lies behind `q` in the pool.
pub proof fn lemma_children_lie_behind(p: Seq<TimingView>, q: int, end: int)
    requires
        0 <= q,
        end <= p.len(),
    ensures
        ({
            let children = children_before(p, q, end);
            forall|i: int| 0 <= i < children.len() ==> q < #[trigger] children[i] < end
        }),
    decreases end,
{
    if end > q + 1 && end > 0 {
        lemma_children_lie_behind(p, q, end - 1);
        let before = children_before(p, q, end - 1);
        let children = children_before(p, q, end);
        assert forall|i: int| 0 <= i < children.len() implies q < #[trigger] children[i] < end by {
            if i < before.len() {
                assert(children[i] == before[i]);
            }
        }
    }
}

/// The call paths directly below `q` among the entries before `end` are
/// those entries that name `q` as their parent, each of them once and in
/// ascending order.
pub proof fn lemma_children_before(p: Seq<TimingView>, q: int, end: int)
    requires
        0 <= q,
        end <= p.len(),
    ensures
        ({
            let children = children_before(p, q, end);
            &&& forall|c: nat|
                children.contains(c) <==> q < c < end && (#[trigger] p[c as int]).parent == Some(
                    q as nat,
                )
            &&& forall|i: int, j: int|
                0 <= i < j < children.len() ==> #[trigger] children[i] < #[trigger] children[j]
        }),
    decreases end,
{
    let children = children_before(p, q, end);
    if end > q + 1 && end > 0 {
        lemma_children_before(p, q, end - 1);
        lemma_children_lie_behind(p, q, end - 1);
        let before = children_before(p, q, end - 1);
        assert forall|c: nat| q < c < end && (#[trigger] p[c as int]).parent == Some(
            q as nat,
        ) implies children.contains(c) by {
            if c < end - 1 {
                assert(before.contains(c));
                let i = choose|i: int| 0 <= i < before.len() && before[i] == c;
                assert(children[i] == c);
            } else {
                assert(children[children.len() - 1] == c);
            }
        }
        assert forall|c: nat| children.contains(c) implies q < c < end && (#[trigger] p[c as int]).parent
            == Some(q as nat) by {
            let i = choose|i: int| 0 <= i < children.len() && children[i] == c;
            if i < before.len() {
                assert(before.contains(before[i]));
            }
        }
        assert forall|i: int, j: int| 0 <= i < j < children.len() implies #[trigger] children[i]
            < #[trigger] children[j] by {
            assert(children[i] == before[i]);
            if j < before.len() {
                assert(children[j] == before[j]);
            }
        }
    }
}

/// In a call tree, the call paths directly below `q` in the order of
/// their ids are the call paths that `q` lists as its children.
pub proof fn lemma_children_in_order_are_the_children(p: Seq<TimingView>, q: int)
    requires
        is_call_tree(p),
        0 <= q < p.len(),
    ensures
        children_in_order(p, q).to_set() == p[q].children.values(),
        children_in_order(p, q).no_duplicates(),
{
    let children = children_in_order(p, q);
    lemma_children_before(p, q, p.len() as int);
    assert forall|c: nat| children.to_set().contains(c) <==> p[q].children.values().contains(
        c,
    ) by {
        if children.contains(c) {
            assert(hangs_below_parent(p, c as int));
            assert(p[q].children.contains_key(p[c as int].meta.callsite));
        }
        if p[q].children.values().contains(c) {
            let k = choose|k: u64| p[q].children.contains_key(k) && p[q].children[k] == c;
            assert(lists_a_child(p, q, k));
            assert(children.contains(c));
        }
    }
    assert(children.to_set() =~= p[q].children.values());
}

} // verus!
