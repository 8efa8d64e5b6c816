//! Restores sequential order behind a concurrent stage.

use crate::node::Node;
use std::collections::BTreeMap;
use vstd::prelude::*;

verus! {

broadcast use vstd::std_specs::btree::group_btree_axioms;

/// One past the largest sequence id.
pub open spec fn id_limit() -> int {
    u64::MAX + 1
}

/// What is buffered under `id`; nothing when the id has not completed.
pub open spec fn held<O>(buffer: Map<u64, Seq<O>>, id: int) -> Seq<O> {
    if 0 <= id < id_limit() && buffer.contains_key(id as u64) {
        buffer[id as u64]
    } else {
        Seq::empty()
    }
}

/// The outputs of the ids in `lo..hi`, by ascending id.
pub open spec fn outputs_between<O>(buffer: Map<u64, Seq<O>>, lo: int, hi: int) -> Seq<O>
    decreases hi - lo,
{
    if hi <= lo {
        Seq::empty()
    } else {
        outputs_between(buffer, lo, hi - 1) + held(buffer, hi - 1)
    }
}

/// The first id from `from` on that has not completed (`id_limit()` when all have).
pub open spec fn first_missing(ids: Set<u64>, from: int) -> int
    decreases id_limit() - from,
{
    if 0 <= from < id_limit() && ids.contains(from as u64) {
        first_missing(ids, from + 1)
    } else {
        from
    }
}

/// The ids of `buffer` that are not below `from`.
pub open spec fn from_id<O>(buffer: Map<u64, Seq<O>>, from: int) -> Map<u64, Seq<O>> {
    buffer.restrict(Set::new(|id: u64| id >= from))
}

/// The ids in `lo..hi`.
pub open spec fn ids_between(lo: int, hi: int) -> Set<u64> {
    Set::new(|id: u64| lo <= id < hi)
}

/// What an ordering node keeps between calls.
pub struct OrderView<O> {
    /// The next sequence id that may be emitted.
    pub next_expected_id: u64,
    /// Completed ids that wait for a predecessor.
    pub buffer: Map<u64, Seq<O>>,
}

impl<O> OrderView<O> {
    /// The buffer once `output` has been added under `seq_id`.
    pub open spec fn with_output(self, seq_id: u64, output: Seq<O>) -> Map<u64, Seq<O>> {
        self.buffer.insert(seq_id, held(self.buffer, seq_id as int) + output)
    }

    /// One past the last id that can be emitted once `seq_id` has completed.
    pub open spec fn ready_end(self, seq_id: u64) -> int {
        first_missing(self.buffer.dom().insert(seq_id), self.next_expected_id as int)
    }

    /// The state once `output` has been added under `seq_id` and every ready id was emitted.
    pub open spec fn released(self, seq_id: u64, output: Seq<O>) -> OrderView<O> {
        let end = self.ready_end(seq_id);
        OrderView {
            next_expected_id: end as u64,
            buffer: self.with_output(seq_id, output).remove_keys(
                ids_between(self.next_expected_id as int, end),
            ),
        }
    }

    /// What is emitted when `output` is added under `seq_id`.
    pub open spec fn released_items(self, seq_id: u64, output: Seq<O>) -> Seq<O> {
        outputs_between(
            self.with_output(seq_id, output),
            self.next_expected_id as int,
            self.ready_end(seq_id),
        )
    }

    /// The state once `seq_id` has failed: an empty output stands in for it.
    pub open spec fn buried(self, seq_id: u64) -> OrderView<O> {
        OrderView { buffer: self.buffer.insert(seq_id, Seq::empty()), ..self }
    }

    /// The state once everything buffered was emitted.
    pub open spec fn drained(self) -> OrderView<O> {
        OrderView { buffer: Map::empty(), ..self }
    }
}

/// The ordering buffer of a node.
pub struct OrderState<O> {
    next_expected_id: u64,
    buffer: BTreeMap<u64, Vec<O>>,
}

impl<O> View for OrderState<O> {
    type V = OrderView<O>;

    closed spec fn view(&self) -> OrderView<O> {
        OrderView {
            next_expected_id: self.next_expected_id,
            buffer: self.buffer@.map_values(|v: Vec<O>| v@),
        }
    }
}

/// Calls `BTreeMap::pop_first`, which removes the entry with the smallest key and returns it,
/// or returns `None` and leaves the map as it is when the map is empty.
#[verifier::external_body]
fn pop_first<V>(map: &mut BTreeMap<u64, V>) -> (entry: Option<(u64, V)>)
    ensures
        match entry {
            Some((key, value)) => {
                &&& old(map)@.contains_key(key)
                &&& old(map)@[key] == value
                &&& forall|other: u64| old(map)@.contains_key(other) ==> key <= other
                &&& final(map)@ == old(map)@.remove(key)
            },
            None => old(map)@ == Map::<u64, V>::empty() && final(map)@ == old(map)@,
        },
{
    map.pop_first()
}

proof fn lemma_first_missing_bounds(ids: Set<u64>, from: int)
    requires
        0 <= from <= id_limit(),
    ensures
        from <= first_missing(ids, from) <= id_limit(),
        forall|id: u64| from <= id < first_missing(ids, from) ==> #[trigger] ids.contains(id),
        first_missing(ids, from) < id_limit() ==> !ids.contains(first_missing(ids, from) as u64),
    decreases id_limit() - from,
{
    if 0 <= from < id_limit() && ids.contains(from as u64) {
        lemma_first_missing_bounds(ids, from + 1);
    }
}

/// Ids that are not in the buffer add nothing to the outputs of a range.
proof fn lemma_outputs_skip<O>(buffer: Map<u64, Seq<O>>, lo: int, mid: int, hi: int)
    requires
        lo <= mid <= hi,
        forall|id: u64| mid <= id < hi ==> !#[trigger] buffer.contains_key(id),
    ensures
        outputs_between(buffer, lo, hi) == outputs_between(buffer, lo, mid),
    decreases hi - mid,
{
    if mid < hi {
        lemma_outputs_skip(buffer, lo, mid, hi - 1);
        if 0 <= hi - 1 < id_limit() {
            assert(!buffer.contains_key((hi - 1) as u64));
        }
        assert(held(buffer, hi - 1) =~= Seq::<O>::empty());
        assert(outputs_between(buffer, lo, hi) =~= outputs_between(buffer, lo, hi - 1));
    }
}

impl<O> OrderState<O> {
    /// An empty buffer that waits for `start_id`.
    pub fn new(start_id: u64) -> (state: Self)
        ensures
            state@.next_expected_id == start_id,
            state@.buffer == Map::<u64, Seq<O>>::empty(),
    {
        let state = OrderState { next_expected_id: start_id, buffer: BTreeMap::new() };
        assert(state@.buffer =~= Map::<u64, Seq<O>>::empty());
        state
    }

    /// The next sequence id that may be emitted.
    pub fn next_expected_id(&self) -> (id: u64)
        ensures
            id == self@.next_expected_id,
    {
        self.next_expected_id
    }

    /// The number of ids that wait for a predecessor.
    pub fn depth(&self) -> (depth: usize)
        ensures
            depth == self@.buffer.dom().len(),
    {
        assert(self@.buffer.dom() =~= self.buffer@.dom());
        self.buffer.len()
    }

    /// Buffers `output` under `seq_id` and releases every id that is now contiguous.
    pub fn release(&mut self, seq_id: u64, output: Vec<O>) -> (items: Vec<O>)
        requires
            old(self)@.ready_end(seq_id) < id_limit(),
        ensures
            items@ == old(self)@.released_items(seq_id, output@),
            final(self)@ == old(self)@.released(seq_id, output@),
    {
        let mut output = output;
        let ghost before = self@;
        let ghost start = self@.next_expected_id as int;
        let ghost filled = before.with_output(seq_id, output@);
        let ghost end = before.ready_end(seq_id);
        let ghost ids = before.buffer.dom().insert(seq_id);
        let mut slot: Vec<O> = match self.buffer.remove(&seq_id) {
            Some(slot) => slot,
            None => Vec::new(),
        };
        slot.append(&mut output);
        self.buffer.insert(seq_id, slot);
        assert(self@.buffer =~= filled);
        let mut items: Vec<O> = Vec::new();
        proof {
            lemma_first_missing_bounds(ids, start);
            assert(ids =~= filled.dom());
            assert(filled.remove_keys(ids_between(start, start)) =~= filled);
        }
        loop
            invariant
                0 <= start <= self.next_expected_id <= end < id_limit(),
                end == first_missing(ids, start),
                ids == filled.dom(),
                first_missing(ids, self.next_expected_id as int) == end,
                items@ == outputs_between(filled, start, self.next_expected_id as int),
                self@.buffer == filled.remove_keys(
                    ids_between(start, self.next_expected_id as int),
                ),
            ensures
                self.next_expected_id == end,
            decreases end - self.next_expected_id,
        {
            let current_id: u64 = self.next_expected_id;
            let ghost held_before = self@.buffer;
            let ghost raw = self.buffer@;
            assert(held_before.contains_key(current_id) == self.buffer@.contains_key(current_id));
            assert(held_before.contains_key(current_id) == filled.contains_key(current_id));
            match self.buffer.remove(&current_id) {
                Some(ready) => {
                    let mut ready: Vec<O> = ready;
                    assert(ready@ == filled[current_id]) by {
                        assert(held_before[current_id] == raw[current_id]@);
                        assert(held_before[current_id] == filled[current_id]);
                    }
                    items.append(&mut ready);
                    proof {
                        lemma_first_missing_bounds(ids, current_id as int);
                        lemma_first_missing_bounds(ids, current_id + 1);
                    }
                    self.next_expected_id = current_id + 1;
                    assert(self@.buffer =~= held_before.remove(current_id));
                    assert(self@.buffer =~= filled.remove_keys(
                        ids_between(start, current_id + 1),
                    ));
                },
                None => {
                    break;
                },
            }
        }
        items
    }

    /// Marks `seq_id` as completed without output, so that its successors do not wait for it.
    pub fn bury(&mut self, seq_id: u64)
        ensures
            final(self)@ == old(self)@.buried(seq_id),
    {
        self.buffer.insert(seq_id, Vec::new());
        assert(self@.buffer =~= old(self)@.buffer.insert(seq_id, Seq::empty()));
    }

    /// Releases everything that is left, by ascending id, whether or not ids are missing.
    pub fn drain(&mut self) -> (items: Vec<O>)
        ensures
            items@ == outputs_between(old(self)@.buffer, 0, id_limit()),
            final(self)@ == old(self)@.drained(),
    {
        let ghost before = self@.buffer;
        let ghost mut done: int = 0;
        let mut items: Vec<O> = Vec::new();
        assert(from_id(before, 0) =~= before);
        loop
            invariant
                0 <= done <= id_limit(),
                self@.next_expected_id == old(self)@.next_expected_id,
                self@.buffer == from_id(before, done),
                items@ == outputs_between(before, 0, done),
            ensures
                self@.buffer == Map::<u64, Seq<O>>::empty(),
                items@ == outputs_between(before, 0, id_limit()),
            decreases id_limit() - done,
        {
            let ghost rest = self@.buffer;
            let ghost raw = self.buffer@;
            assert(forall|id: u64| rest.contains_key(id) == self.buffer@.contains_key(id));
            match pop_first(&mut self.buffer) {
                Some((id, ready)) => {
                    let mut ready: Vec<O> = ready;
                    proof {
                        assert(rest.contains_key(id));
                        assert(rest[id] == raw[id]@);
                        assert(before.contains_key(id) && before[id] == ready@);
                        assert forall|other: u64| done <= other < id implies !(
                        #[trigger] before.contains_key(other)) by {
                            if before.contains_key(other) {
                                assert(rest.contains_key(other));
                            }
                        }
                        lemma_outputs_skip(before, 0, done, id as int);
                    }
                    items.append(&mut ready);
                    proof {
                        assert(self@.buffer =~= rest.remove(id));
                        assert(self@.buffer =~= from_id(before, id + 1)) by {
                            assert forall|other: u64| #[trigger]
                                self@.buffer.contains_key(other) == from_id(
                                    before,
                                    id + 1,
                                ).contains_key(other) by {
                                if before.contains_key(other) && other >= done {
                                    assert(rest.contains_key(other));
                                }
                            }
                        }
                        done = id + 1;
                    }
                },
                None => {
                    proof {
                        assert(self@.buffer =~= Map::<u64, Seq<O>>::empty());
                        assert forall|other: u64| done <= other < id_limit() implies !(
                        #[trigger] before.contains_key(other)) by {
                            if before.contains_key(other) {
                                assert(rest.contains_key(other));
                            }
                        }
                        lemma_outputs_skip(before, 0, done, id_limit());
                    }
                    break;
                },
            }
        }
        items
    }
}

/// Gives an item the sequence id by which its place is found again.
pub trait Sequenced {
    /// Whether `id` may be the sequence id of the item.
    open spec fn identified_by(&self, id: u64) -> bool {
        true
    }

    /// The sequence id of the item. Ids are strictly increasing and leave no gap.
    fn get_sequence_id(&self) -> (id: u64)
        ensures
            self.identified_by(id),
    ;
}

/// A middleware node that restores sequential ordering in a concurrent pipeline.
///
/// When items are processed concurrently, the order of the results is scrambled. This node
/// buffers results that come early and emits all of them in the order of their sequence ids.
///
/// The ids must be contiguous. If an item is dropped before it reaches this node, its successors
/// are buffered until a flush. An item that fails is replaced by an empty output; results that
/// wait for it are released with the next success, because an error cannot carry them.
pub struct OrderingNode<N, O> {
    /// The node whose results are put in order.
    pub inner_node: N,
    /// What has completed and waits.
    pub state: OrderState<O>,
}

impl<N, O> OrderingNode<N, O> {
    /// Puts the results of `inner_node` in order. `start_id` is the sequence id of the first item
    /// that will come.
    pub fn new(inner_node: N, start_id: u64) -> (node: Self)
        ensures
            node.inner_node == inner_node,
            node.state@ == (OrderView { next_expected_id: start_id, buffer: Map::<u64, Seq<O>>::empty() }),
    {
        OrderingNode { inner_node, state: OrderState::new(start_id) }
    }

    /// The name under which errors are reported.
    pub fn name(&self) -> (name: &'static str)
        ensures
            name@ == "OrderingNode"@,
    {
        "OrderingNode"
    }

    /// Takes the result that the inner node gave for the item `seq_id`, and gives back what may be
    /// emitted now. A failure is passed on, and leaves an empty output in its place.
    pub fn complete<E>(&mut self, seq_id: u64, result: Result<Vec<O>, E>) -> (emitted: Result<
        Vec<O>,
        E,
    >)
        requires
            result is Ok ==> old(self).state@.ready_end(seq_id) < id_limit(),
        ensures
            final(self).inner_node == old(self).inner_node,
            completes(old(self).state@, seq_id, result, final(self).state@, emitted),
    {
        match result {
            Ok(output) => Ok(self.state.release(seq_id, output)),
            Err(error) => {
                self.state.bury(seq_id);
                Err(error)
            },
        }
    }

    /// Takes the result of the inner node's flush, and gives back its outputs followed by all that
    /// is still buffered, by ascending id. A failed inner flush loses nothing that is buffered.
    pub fn complete_flush<E>(&mut self, inner: Result<Vec<O>, E>) -> (items: Vec<O>)
        ensures
            final(self).inner_node == old(self).inner_node,
            final(self).state@ == old(self).state@.drained(),
            items@ == flushed_items(old(self).state@, inner),
    {
        let mut items: Vec<O> = match inner {
            Ok(output) => output,
            Err(_) => Vec::new(),
        };
        let mut rest: Vec<O> = self.state.drain();
        items.append(&mut rest);
        items
    }
}

/// Whether a node in state `before` that gets `result` for the item `seq_id` is left in state
/// `after` and emits `emitted`.
pub open spec fn completes<O, E>(
    before: OrderView<O>,
    seq_id: u64,
    result: Result<Vec<O>, E>,
    after: OrderView<O>,
    emitted: Result<Vec<O>, E>,
) -> bool {
    match result {
        Ok(output) => {
            &&& after == before.released(seq_id, output@)
            &&& emitted matches Ok(items) && items@ == before.released_items(seq_id, output@)
        },
        Err(error) => after == before.buried(seq_id) && emitted == Err::<Vec<O>, E>(error),
    }
}

/// What a flush emits: what the inner node's flush gave, then all that is buffered.
pub open spec fn flushed_items<O, E>(before: OrderView<O>, inner: Result<Vec<O>, E>) -> Seq<O> {
    let given = match inner {
        Ok(output) => output@,
        Err(_) => Seq::empty(),
    };
    given + outputs_between(before.buffer, 0, id_limit())
}

impl<N, O> Node for OrderingNode<N, O> where
    N: Node<Output = Vec<O>>,
    <N as Node>::Input: Sequenced,
 {
    type Input = <N as Node>::Input;

    type Output = Vec<O>;

    type Error = <N as Node>::Error;

    open spec fn accepts(self, input: Self::Input) -> bool {
        &&& self.inner_node.accepts(input)
        &&& forall|id: u64|
            input.identified_by(id) ==> #[trigger] self.state@.ready_end(id) < id_limit()
    }

    open spec fn executes(
        self,
        input: Self::Input,
        after: Self,
        result: Result<Self::Output, Self::Error>,
    ) -> bool {
        exists|id: u64, inner: Result<Vec<O>, Self::Error>|
            {
                &&& input.identified_by(id)
                &&& self.inner_node.executes(input, after.inner_node, inner)
                &&& #[trigger] completes(self.state@, id, inner, after.state@, result)
            }
    }

    open spec fn flushes(self, after: Self, result: Result<Self::Output, Self::Error>) -> bool {
        &&& after.state@ == self.state@.drained()
        &&& exists|inner: Result<Vec<O>, Self::Error>|
            {
                &&& self.inner_node.flushes(after.inner_node, inner)
                &&& result matches Ok(items) && items@ == #[trigger] flushed_items(
                    self.state@,
                    inner,
                )
            }
    }

    /// Executes the inner node on `input`, and emits what its result releases.
    fn execute(&mut self, input: &Self::Input) -> (result: Result<Self::Output, Self::Error>) {
        let seq_id: u64 = input.get_sequence_id();
        let inner = self.inner_node.execute(input);
        self.complete(seq_id, inner)
    }

    /// Flushes the inner node, then releases everything that is buffered.
    fn flush(&mut self) -> (result: Result<Self::Output, Self::Error>) {
        let inner = self.inner_node.flush();
        Ok(self.complete_flush(inner))
    }
}

/// How one item ended: its sequence id, and its outputs unless it failed.
pub struct Completion<O> {
    /// The sequence id of the item.
    pub seq_id: u64,
    /// The outputs of the item, `None` when it failed.
    pub outputs: Option<Seq<O>>,
}

/// The state, and everything emitted so far, once `completions` arrived in that order at a node
/// that started at `start`.
pub open spec fn order_run<O>(start: u64, completions: Seq<Completion<O>>) -> (
    OrderView<O>,
    Seq<O>,
)
    decreases completions.len(),
{
    if completions.len() == 0 {
        (OrderView { next_expected_id: start, buffer: Map::empty() }, Seq::empty())
    } else {
        let (view, emitted) = order_run(start, completions.drop_last());
        let last = completions.last();
        match last.outputs {
            Some(outputs) => (
                view.released(last.seq_id, outputs),
                emitted + view.released_items(last.seq_id, outputs),
            ),
            None => (view.buried(last.seq_id), emitted),
        }
    }
}

/// The outputs of each completed id; a failed id has none.
pub open spec fn completed<O>(completions: Seq<Completion<O>>) -> Map<u64, Seq<O>>
    decreases completions.len(),
{
    if completions.len() == 0 {
        Map::empty()
    } else {
        let last = completions.last();
        let outputs = match last.outputs {
            Some(outputs) => outputs,
            None => Seq::empty(),
        };
        completed(completions.drop_last()).insert(last.seq_id, outputs)
    }
}

/// No id comes before `start`, none completes twice, and some id is still to come.
pub open spec fn well_sequenced<O>(start: u64, completions: Seq<Completion<O>>) -> bool {
    &&& forall|i: int|
        0 <= i < completions.len() ==> start <= #[trigger] completions[i].seq_id
    &&& forall|i: int, j: int|
        0 <= i < j < completions.len() ==> #[trigger] completions[i].seq_id
            != #[trigger] completions[j].seq_id
    &&& first_missing(completed(completions).dom(), start as int) < id_limit()
}

proof fn lemma_first_missing_agrees(a: Set<u64>, b: Set<u64>, from: int)
    requires
        0 <= from <= id_limit(),
        forall|id: u64| from <= id ==> a.contains(id) == #[trigger] b.contains(id),
    ensures
        first_missing(a, from) == first_missing(b, from),
    decreases id_limit() - from,
{
    if from < id_limit() {
        assert(a.contains(from as u64) == b.contains(from as u64));
        if a.contains(from as u64) {
            lemma_first_missing_agrees(a, b, from + 1);
        }
    }
}

proof fn lemma_first_missing_from(ids: Set<u64>, from: int, at: int)
    requires
        0 <= from <= at <= first_missing(ids, from),
        from <= id_limit(),
    ensures
        first_missing(ids, at) == first_missing(ids, from),
    decreases at - from,
{
    if from < at {
        lemma_first_missing_from(ids, from + 1, at);
    }
}

proof fn lemma_first_missing_grows(ids: Set<u64>, more: Set<u64>, from: int)
    requires
        0 <= from <= id_limit(),
        ids.subset_of(more),
    ensures
        first_missing(ids, from) <= first_missing(more, from),
    decreases id_limit() - from,
{
    if from < id_limit() && ids.contains(from as u64) {
        lemma_first_missing_grows(ids, more, from + 1);
    } else {
        lemma_first_missing_bounds(more, from);
    }
}

proof fn lemma_outputs_agree<O>(a: Map<u64, Seq<O>>, b: Map<u64, Seq<O>>, lo: int, hi: int)
    requires
        forall|id: int| lo <= id < hi ==> #[trigger] held(a, id) == held(b, id),
    ensures
        outputs_between(a, lo, hi) == outputs_between(b, lo, hi),
    decreases hi - lo,
{
    if lo < hi {
        lemma_outputs_agree(a, b, lo, hi - 1);
        assert(held(a, hi - 1) == held(b, hi - 1));
    }
}

proof fn lemma_outputs_join<O>(buffer: Map<u64, Seq<O>>, lo: int, mid: int, hi: int)
    requires
        lo <= mid <= hi,
    ensures
        outputs_between(buffer, lo, hi) == outputs_between(buffer, lo, mid) + outputs_between(
            buffer,
            mid,
            hi,
        ),
    decreases hi - mid,
{
    if mid < hi {
        lemma_outputs_join(buffer, lo, mid, hi - 1);
        assert(outputs_between(buffer, lo, hi) =~= outputs_between(buffer, lo, mid)
            + outputs_between(buffer, mid, hi));
    } else {
        assert(outputs_between(buffer, lo, hi) =~= outputs_between(buffer, lo, mid)
            + outputs_between(buffer, mid, hi));
    }
}

proof fn lemma_completed_ids<O>(completions: Seq<Completion<O>>, id: u64)
    ensures
        completed(completions).contains_key(id) <==> exists|i: int|
            0 <= i < completions.len() && #[trigger] completions[i].seq_id == id,
    decreases completions.len(),
{
    if completions.len() > 0 {
        let before = completions.drop_last();
        lemma_completed_ids(before, id);
        if completions.last().seq_id == id {
            assert(completions[completions.len() - 1].seq_id == id);
        }
        if completed(before).contains_key(id) {
            let i = choose|i: int| 0 <= i < before.len() && #[trigger] before[i].seq_id == id;
            assert(completions[i].seq_id == id);
        }
        if exists|i: int| 0 <= i < completions.len() && #[trigger] completions[i].seq_id == id {
            let i = choose|i: int|
                0 <= i < completions.len() && #[trigger] completions[i].seq_id == id;
            if i < completions.len() - 1 {
                assert(before[i].seq_id == id);
            }
        }
    }
}

/// Items leave in the order of their sequence ids: whatever the order in which results arrive,
/// what has been emitted is the outputs of the ids from `start` up to the next expected one, by
/// ascending id, and what is buffered is the outputs of the later ids. Once the latest result is
/// a success, the next expected id is the first that has not completed, so a failed id holds up
/// none of its successors.
pub proof fn emits_in_sequence<O>(start: u64, completions: Seq<Completion<O>>)
    requires
        well_sequenced(start, completions),
    ensures
        ({
            let (view, emitted) = order_run(start, completions);
            let done = completed(completions);
            &&& start <= view.next_expected_id <= first_missing(done.dom(), start as int)
            &&& emitted == outputs_between(done, start as int, view.next_expected_id as int)
            &&& view.buffer == from_id(done, view.next_expected_id as int)
            &&& completions.len() > 0 && completions.last().outputs is Some
                ==> view.next_expected_id == first_missing(done.dom(), start as int)
        }),
    decreases completions.len(),
{
    let done = completed(completions);
    let s = start as int;
    if completions.len() == 0 {
        assert(from_id(done, s) =~= done);
    } else {
        let earlier = completions.drop_last();
        let last = completions.last();
        let was = completed(earlier);
        assert(was.dom().subset_of(done.dom()));
        lemma_first_missing_grows(was.dom(), done.dom(), s);
        assert forall|i: int| 0 <= i < earlier.len() implies start
            <= #[trigger] earlier[i].seq_id by {
            assert(completions[i].seq_id >= start);
        }
        assert forall|i: int, j: int| 0 <= i < j < earlier.len() implies #[trigger] earlier[i].seq_id
            != #[trigger] earlier[j].seq_id by {
            assert(completions[i].seq_id != completions[j].seq_id);
        }
        emits_in_sequence(start, earlier);
        let (view, emitted) = order_run(start, earlier);
        let next = view.next_expected_id as int;
        let id = last.seq_id;
        lemma_completed_ids(earlier, id);
        assert(!was.contains_key(id)) by {
            if was.contains_key(id) {
                let i = choose|i: int|
                    0 <= i < earlier.len() && #[trigger] earlier[i].seq_id == id;
                assert(completions[i].seq_id != completions[completions.len() - 1].seq_id);
            }
        }
        assert(completions[completions.len() - 1].seq_id >= start);
        lemma_first_missing_bounds(was.dom(), s);
        lemma_first_missing_bounds(done.dom(), s);
        assert(id >= next);
        assert forall|k: int| s <= k < next implies #[trigger] held(was, k) == held(done, k) by {}
        lemma_outputs_agree(was, done, s, next);
        match last.outputs {
            Some(outputs) => {
                let filled = view.with_output(id, outputs);
                assert(held(view.buffer, id as int) =~= Seq::<O>::empty());
                assert(Seq::<O>::empty() + outputs =~= outputs);
                assert(filled =~= from_id(done, next));
                assert(view.buffer.dom().insert(id) =~= filled.dom());
                lemma_first_missing_agrees(filled.dom(), done.dom(), next);
                lemma_first_missing_from(done.dom(), s, next);
                let end = view.ready_end(id);
                assert forall|k: int| next <= k < end implies #[trigger] held(filled, k) == held(
                    done,
                    k,
                ) by {}
                lemma_outputs_agree(filled, done, next, end);
                lemma_outputs_join(done, s, next, end);
                assert(filled.remove_keys(ids_between(next, end)) =~= from_id(done, end));
            },
            None => {
                assert(view.buried(id).buffer =~= from_id(done, next));
            },
        }
    }
}

/// No output is lost or emitted twice: what was emitted, followed by what a flush releases, is
/// the outputs of all completed ids by ascending id.
pub proof fn flush_completes_the_sequence<O>(start: u64, completions: Seq<Completion<O>>)
    requires
        well_sequenced(start, completions),
    ensures
        ({
            let (view, emitted) = order_run(start, completions);
            emitted + outputs_between(view.buffer, 0, id_limit()) == outputs_between(
                completed(completions),
                0,
                id_limit(),
            )
        }),
{
    emits_in_sequence(start, completions);
    let (view, emitted) = order_run(start, completions);
    let done = completed(completions);
    let s = start as int;
    let next = view.next_expected_id as int;
    assert forall|id: u64| s > id implies !#[trigger] done.contains_key(id) by {
        lemma_completed_ids(completions, id);
    }
    lemma_outputs_skip(done, 0, 0, s);
    lemma_outputs_join(done, 0, s, next);
    lemma_outputs_join(done, 0, next, id_limit());
    lemma_outputs_skip(view.buffer, 0, 0, next);
    lemma_outputs_join(view.buffer, 0, next, id_limit());
    assert forall|k: int| next <= k < id_limit() implies #[trigger] held(view.buffer, k) == held(
        done,
        k,
    ) by {}
    lemma_outputs_agree(view.buffer, done, next, id_limit());
    assert(outputs_between(view.buffer, 0, id_limit()) =~= outputs_between(
        done,
        next,
        id_limit(),
    ));
    assert(outputs_between(done, 0, s) =~= Seq::<O>::empty());
    assert(outputs_between(done, 0, next) =~= outputs_between(done, s, next));
}

/// The outputs under the ids in `lo..hi`, the smallest id first; an id without an entry has none.
pub open spec fn in_id_order<O>(outputs: Map<u64, Seq<O>>, lo: int, hi: int) -> Seq<O>
    decreases hi - lo,
{
    if hi <= lo {
        Seq::empty()
    } else {
        (if 0 <= lo <= u64::MAX && outputs.contains_key(lo as u64) {
            outputs[lo as u64]
        } else {
            Seq::empty()
        }) + in_id_order(outputs, lo + 1, hi)
    }
}

proof fn lemma_in_id_order<O>(outputs: Map<u64, Seq<O>>, lo: int, hi: int)
    ensures
        in_id_order(outputs, lo, hi) == outputs_between(outputs, lo, hi),
    decreases hi - lo,
{
    if lo < hi {
        lemma_in_id_order(outputs, lo + 1, hi);
        lemma_outputs_join(outputs, lo, lo + 1, hi);
        reveal_with_fuel(outputs_between, 2);
        assert(outputs_between(outputs, lo, lo + 1) =~= held(outputs, lo));
    }
}

/// What is kept for `seq_id` once `output` came: all of it, behind what was buffered.
pub open spec fn kept<O>(buffer: Map<u64, Seq<O>>, seq_id: u64, output: Seq<O>) -> Seq<O> {
    if buffer.contains_key(seq_id) {
        buffer[seq_id] + output
    } else {
        output
    }
}

/// Whether `output`, which completes `seq_id`, turns the buffer `before` into `after` and is
/// answered with `items`: the whole output is kept behind what is buffered for its id, then every
/// id from the next expected one up to the first that is missing leaves the buffer, all of its
/// outputs are emitted by ascending id, and nothing else changes.
pub open spec fn puts_in_order<O>(
    before: OrderView<O>,
    seq_id: u64,
    output: Seq<O>,
    after: OrderView<O>,
    items: Seq<O>,
) -> bool {
    let filled = before.buffer.insert(seq_id, kept(before.buffer, seq_id, output));
    let (from, to) = (before.next_expected_id, after.next_expected_id);
    &&& from <= to
    &&& forall|id: u64| from <= id < to ==> #[trigger] filled.contains_key(id)
    &&& !filled.contains_key(to)
    &&& items == in_id_order(filled, from as int, to as int)
    &&& forall|id: u64| #[trigger]
        after.buffer.contains_key(id) <==> filled.contains_key(id) && !(from <= id < to)
    &&& forall|id: u64| #[trigger] after.buffer.contains_key(id) ==> after.buffer[id] == filled[id]
}

proof fn lemma_released<O>(before: OrderView<O>, seq_id: u64, output: Seq<O>, free: u64)
    requires
        before.next_expected_id <= free,
        free != seq_id,
        !before.buffer.contains_key(free),
    ensures
        before.ready_end(seq_id) < id_limit(),
        puts_in_order(
            before,
            seq_id,
            output,
            before.released(seq_id, output),
            before.released_items(seq_id, output),
        ),
{
    let from = before.next_expected_id as int;
    let ids = before.buffer.dom().insert(seq_id);
    lemma_first_missing_bounds(ids, from);
    let end = before.ready_end(seq_id);
    assert(end <= free) by {
        if end > free {
            assert(ids.contains(free));
        }
    }
    let filled = before.with_output(seq_id, output);
    assert(Seq::<O>::empty() + output =~= output);
    assert(filled.dom() =~= ids);
    lemma_in_id_order(filled, from, end);
    assert forall|id: u64| from <= id < end implies #[trigger] filled.contains_key(id) by {
        assert(ids.contains(id));
    }
}

/// A new buffer is empty and waits for the id that it was made with.
pub proof fn a_new_order_is_empty<N, O>(
    inner_node: N,
    start_id: u64,
    node: OrderingNode<N, O>,
    state: OrderState<O>,
    next: u64,
    depth: usize,
)
    requires
        call_ensures(OrderingNode::<N, O>::new, (inner_node, start_id), node),
        call_ensures(OrderState::<O>::new, (start_id,), state),
        call_ensures(OrderState::<O>::next_expected_id, (&state,), next),
        call_ensures(OrderState::<O>::depth, (&state,), depth),
    ensures
        node.inner_node == inner_node,
        node.state@ == state@,
        next == start_id,
        depth == 0,
        forall|id: u64| !#[trigger] state@.buffer.contains_key(id),
{
}

/// The buffer says truly which id it waits for, and how many ids wait in it.
pub proof fn the_buffer_is_reported<O>(state: OrderState<O>, next: u64, depth: usize)
    requires
        call_ensures(OrderState::<O>::next_expected_id, (&state,), next),
        call_ensures(OrderState::<O>::depth, (&state,), depth),
    ensures
        next == state@.next_expected_id,
        depth == state@.buffer.dom().len(),
{
}

/// A release keeps the whole output and lets every id go that has no gap before it.
pub proof fn a_release_fills_and_empties<O>(
    state: &mut OrderState<O>,
    seq_id: u64,
    output: Vec<O>,
    items: Vec<O>,
    free: u64,
)
    requires
        call_ensures(OrderState::<O>::release, (state, seq_id, output), items),
        old(state)@.next_expected_id <= free,
        free != seq_id,
        !old(state)@.buffer.contains_key(free),
    ensures
        call_requires(OrderState::<O>::release, (state, seq_id, output)),
        puts_in_order(old(state)@, seq_id, output@, final(state)@, items@),
{
    lemma_released(old(state)@, seq_id, output@, free);
}

/// A burial stands in for an id that failed, emits nothing, and touches no other id.
pub proof fn a_burial_leaves_an_empty_place<O>(state: &mut OrderState<O>, seq_id: u64)
    requires
        call_ensures(OrderState::<O>::bury, (state, seq_id), ()),
    ensures
        call_requires(OrderState::<O>::bury, (state, seq_id)),
        final(state)@.next_expected_id == old(state)@.next_expected_id,
        final(state)@.buffer.contains_key(seq_id),
        final(state)@.buffer[seq_id].len() == 0,
        forall|id: u64|
            id != seq_id ==> {
                &&& #[trigger] final(state)@.buffer.contains_key(id) == old(
                    state,
                )@.buffer.contains_key(id)
                &&& final(state)@.buffer.contains_key(id) ==> final(state)@.buffer[id] == old(
                    state,
                )@.buffer[id]
            },
{
}

/// A drain hands out everything that is buffered, by ascending id, and leaves nothing.
pub proof fn a_drain_hands_out_everything<O>(state: &mut OrderState<O>, items: Vec<O>)
    requires
        call_ensures(OrderState::<O>::drain, (state,), items),
    ensures
        call_requires(OrderState::<O>::drain, (state,)),
        items@ == in_id_order(old(state)@.buffer, 0, u64::MAX + 1),
        forall|id: u64| !#[trigger] final(state)@.buffer.contains_key(id),
        final(state)@.next_expected_id == old(state)@.next_expected_id,
{
    lemma_in_id_order(old(state)@.buffer, 0, u64::MAX + 1);
}

/// A success is never answered with an error, and a failure always with its own. A success is put
/// in order whole; a failure leaves an empty place, and nothing else changes.
pub proof fn a_completion_is_put_in_order<N, O, E>(
    node: &mut OrderingNode<N, O>,
    seq_id: u64,
    result: Result<Vec<O>, E>,
    emitted: Result<Vec<O>, E>,
    free: u64,
)
    requires
        call_ensures(OrderingNode::<N, O>::complete::<E>, (node, seq_id, result), emitted),
        result is Ok ==> {
            &&& old(node).state@.next_expected_id <= free
            &&& free != seq_id
            &&& !old(node).state@.buffer.contains_key(free)
        },
    ensures
        call_requires(OrderingNode::<N, O>::complete::<E>, (node, seq_id, result)),
        final(node).inner_node == old(node).inner_node,
        result matches Ok(output) ==> (emitted matches Ok(items) && puts_in_order(
            old(node).state@,
            seq_id,
            output@,
            final(node).state@,
            items@,
        )),
        result matches Err(error) ==> {
            &&& emitted == Err::<Vec<O>, E>(error)
            &&& final(node).state@.next_expected_id == old(node).state@.next_expected_id
            &&& final(node).state@.buffer == old(node).state@.buffer.insert(seq_id, Seq::empty())
        },
{
    if let Ok(output) = result {
        lemma_released(old(node).state@, seq_id, output@, free);
    }
}

/// A flush emits what the inner node's flush gave, then everything that is buffered, by ascending
/// id. When the inner flush failed, it loses nothing that is buffered.
pub proof fn a_flush_empties_the_buffer<N, O, E>(
    node: &mut OrderingNode<N, O>,
    inner: Result<Vec<O>, E>,
    items: Vec<O>,
)
    requires
        call_ensures(OrderingNode::<N, O>::complete_flush::<E>, (node, inner), items),
    ensures
        call_requires(OrderingNode::<N, O>::complete_flush::<E>, (node, inner)),
        ({
            let buffered = in_id_order(old(node).state@.buffer, 0, u64::MAX + 1);
            &&& inner matches Ok(output) ==> items@ == output@ + buffered
            &&& inner is Err ==> items@ == buffered
        }),
        forall|id: u64| !#[trigger] final(node).state@.buffer.contains_key(id),
        final(node).state@.next_expected_id == old(node).state@.next_expected_id,
        final(node).inner_node == old(node).inner_node,
{
    lemma_in_id_order(old(node).state@.buffer, 0, u64::MAX + 1);
    let buffered = in_id_order(old(node).state@.buffer, 0, u64::MAX + 1);
    assert(Seq::<O>::empty() + buffered =~= buffered);
}

/// As a node of a pipeline, it executes the inner node once on the item, and puts its result in
/// order under the id of the item.
pub proof fn an_execution_is_put_in_order<N, O>(
    before: OrderingNode<N, O>,
    input: <N as Node>::Input,
    after: OrderingNode<N, O>,
    result: Result<Vec<O>, <N as Node>::Error>,
) -> (executed: (u64, Result<Vec<O>, <N as Node>::Error>)) where
    N: Node<Output = Vec<O>>,
    <N as Node>::Input: Sequenced,

    requires
        before.executes(input, after, result),
        forall|id: u64|
            input.identified_by(id) ==> exists|free: u64|
                before.state@.next_expected_id <= free && free != id
                    && !#[trigger] before.state@.buffer.contains_key(free),
    ensures
        before.inner_node.accepts(input) ==> before.accepts(input),
        input.identified_by(executed.0),
        before.inner_node.executes(input, after.inner_node, executed.1),
        executed.1 matches Ok(output) ==> (result matches Ok(items) && puts_in_order(
            before.state@,
            executed.0,
            output@,
            after.state@,
            items@,
        )),
        executed.1 matches Err(error) ==> {
            &&& result == Err::<Vec<O>, <N as Node>::Error>(error)
            &&& after.state@.next_expected_id == before.state@.next_expected_id
            &&& after.state@.buffer == before.state@.buffer.insert(executed.0, Seq::empty())
        },
{
    let (id, inner) = choose|id: u64, inner: Result<Vec<O>, <N as Node>::Error>|
        {
            &&& input.identified_by(id)
            &&& before.inner_node.executes(input, after.inner_node, inner)
            &&& #[trigger] completes(before.state@, id, inner, after.state@, result)
        };
    assert forall|other: u64| input.identified_by(other) implies #[trigger] before.state@.ready_end(
        other,
    ) < id_limit() by {
        let free = choose|free: u64|
            before.state@.next_expected_id <= free && free != other
                && !#[trigger] before.state@.buffer.contains_key(free);
        lemma_released(before.state@, other, Seq::<O>::empty(), free);
    }
    if let Ok(output) = inner {
        let free = choose|free: u64|
            before.state@.next_expected_id <= free && free != id
                && !#[trigger] before.state@.buffer.contains_key(free);
        lemma_released(before.state@, id, output@, free);
    }
    (id, inner)
}

/// As a node of a pipeline, its flush never fails: it flushes the inner node once, and empties the
/// buffer behind what that gave.
pub proof fn a_flushed_node_is_empty<N, O>(
    before: OrderingNode<N, O>,
    after: OrderingNode<N, O>,
    result: Result<Vec<O>, <N as Node>::Error>,
) -> (inner: Result<Vec<O>, <N as Node>::Error>) where
    N: Node<Output = Vec<O>>,
    <N as Node>::Input: Sequenced,

    requires
        before.flushes(after, result),
    ensures
        before.inner_node.flushes(after.inner_node, inner),
        result matches Ok(items) && items@ == (match inner {
            Ok(output) => output@,
            Err(_) => Seq::empty(),
        }) + in_id_order(before.state@.buffer, 0, u64::MAX + 1),
        forall|id: u64| !#[trigger] after.state@.buffer.contains_key(id),
        after.state@.next_expected_id == before.state@.next_expected_id,
{
    lemma_in_id_order(before.state@.buffer, 0, u64::MAX + 1);
    choose|inner: Result<Vec<O>, <N as Node>::Error>|
        {
            &&& before.inner_node.flushes(after.inner_node, inner)
            &&& result matches Ok(items) && items@ == #[trigger] flushed_items(
                before.state@,
                inner,
            )
        }
}

/// What the inner node gave for the item `id`, of those that completed with `results` as `ids`
/// says; nothing when it failed, or did not complete.
pub open spec fn output_of<O, E>(
    ids: Seq<u64>,
    results: Seq<Result<Vec<O>, E>>,
    id: int,
) -> Seq<O>
    decreases ids.len(),
{
    if ids.len() == 0 {
        Seq::empty()
    } else if ids.last() == id {
        match results.last() {
            Ok(output) => output@,
            Err(_) => Seq::empty(),
        }
    } else {
        output_of(ids.drop_last(), results.drop_last(), id)
    }
}

/// What the inner node gave for the items with the ids in `lo..hi`, by ascending id.
pub open spec fn outputs_in_sequence<O, E>(
    ids: Seq<u64>,
    results: Seq<Result<Vec<O>, E>>,
    lo: int,
    hi: int,
) -> Seq<O>
    decreases hi - lo,
{
    if hi <= lo {
        Seq::empty()
    } else {
        outputs_in_sequence(ids, results, lo, hi - 1) + output_of(ids, results, hi - 1)
    }
}

/// Everything that a series of calls gave back as a success, in the order of the calls.
pub open spec fn all_emitted<O, E>(emitted: Seq<Result<Vec<O>, E>>) -> Seq<O>
    decreases emitted.len(),
{
    if emitted.len() == 0 {
        Seq::empty()
    } else {
        all_emitted(emitted.drop_last()) + match emitted.last() {
            Ok(items) => items@,
            Err(_) => Seq::empty(),
        }
    }
}

spec fn completion_of<O, E>(id: u64, result: Result<Vec<O>, E>) -> Completion<O> {
    Completion {
        seq_id: id,
        outputs: match result {
            Ok(output) => Some(output@),
            Err(_) => None,
        },
    }
}

spec fn completions_of<O, E>(ids: Seq<u64>, results: Seq<Result<Vec<O>, E>>) -> Seq<Completion<O>> {
    Seq::new(ids.len(), |i: int| completion_of(ids[i], results[i]))
}

proof fn lemma_completions_last<O, E>(ids: Seq<u64>, results: Seq<Result<Vec<O>, E>>)
    requires
        ids.len() == results.len(),
        ids.len() > 0,
    ensures
        completions_of(ids, results).drop_last() == completions_of(
            ids.drop_last(),
            results.drop_last(),
        ),
        completions_of(ids, results).last() == completion_of(ids.last(), results.last()),
{
    assert(completions_of(ids, results).drop_last() =~= completions_of(
        ids.drop_last(),
        results.drop_last(),
    ));
}

proof fn lemma_output_of<O, E>(ids: Seq<u64>, results: Seq<Result<Vec<O>, E>>, id: int)
    requires
        ids.len() == results.len(),
    ensures
        output_of(ids, results, id) == held(completed(completions_of(ids, results)), id),
    decreases ids.len(),
{
    if ids.len() > 0 {
        lemma_completions_last(ids, results);
        lemma_output_of(ids.drop_last(), results.drop_last(), id);
    }
}

proof fn lemma_outputs_in_sequence<O, E>(
    ids: Seq<u64>,
    results: Seq<Result<Vec<O>, E>>,
    lo: int,
    hi: int,
)
    requires
        ids.len() == results.len(),
    ensures
        outputs_in_sequence(ids, results, lo, hi) == outputs_between(
            completed(completions_of(ids, results)),
            lo,
            hi,
        ),
    decreases hi - lo,
{
    if lo < hi {
        lemma_outputs_in_sequence(ids, results, lo, hi - 1);
        lemma_output_of(ids, results, hi - 1);
    }
}

proof fn lemma_calls_run<N, O, E>(
    inner_node: N,
    start: u64,
    states: Seq<OrderingNode<N, O>>,
    calls: Seq<&mut OrderingNode<N, O>>,
    ids: Seq<u64>,
    results: Seq<Result<Vec<O>, E>>,
    emitted: Seq<Result<Vec<O>, E>>,
)
    requires
        calls.len() == ids.len() == results.len() == emitted.len(),
        states.len() == calls.len() + 1,
        call_ensures(OrderingNode::<N, O>::new, (inner_node, start), states[0]),
        forall|i: int|
            0 <= i < calls.len() ==> {
                &&& *calls[i] == states[i]
                &&& *final(calls[i]) == states[i + 1]
                &&& call_ensures(
                    OrderingNode::<N, O>::complete::<E>,
                    (calls[i], #[trigger] ids[i], results[i]),
                    emitted[i],
                )
            },
    ensures
        order_run(start, completions_of(ids, results)) == (
            states.last().state@,
            all_emitted(emitted),
        ),
    decreases calls.len(),
{
    if calls.len() > 0 {
        let n = calls.len() - 1;
        let fewer = ids.drop_last();
        assert forall|i: int| 0 <= i < calls.drop_last().len() implies {
            &&& *calls.drop_last()[i] == states.drop_last()[i]
            &&& *final(calls.drop_last()[i]) == states.drop_last()[i + 1]
            &&& call_ensures(
                OrderingNode::<N, O>::complete::<E>,
                (calls.drop_last()[i], #[trigger] fewer[i], results.drop_last()[i]),
                emitted.drop_last()[i],
            )
        } by {
            assert(ids[i] == fewer[i]);
        }
        lemma_calls_run(
            inner_node,
            start,
            states.drop_last(),
            calls.drop_last(),
            fewer,
            results.drop_last(),
            emitted.drop_last(),
        );
        lemma_completions_last(ids, results);
        assert(ids[n] == ids.last());
        assert(completes(states[n].state@, ids[n], results[n], states[n + 1].state@, emitted[n]));
        assert(all_emitted(emitted.drop_last()) + Seq::<O>::empty() =~= all_emitted(
            emitted.drop_last(),
        ));
    }
}

/// Order is restored and nothing is lost, over any series of calls: when results arrive in any
/// order, each id once and none before the first, then everything that the calls gave back,
/// followed by what the flush adds to the inner node's own, is all that the inner node gave for
/// the items that succeeded, by ascending id. Each failure is handed back to its own call. What is
/// out once a success arrived is everything up to the first id that is still missing.
pub proof fn calls_restore_the_sequence<N, O, E>(
    inner_node: N,
    start: u64,
    states: Seq<OrderingNode<N, O>>,
    calls: Seq<&mut OrderingNode<N, O>>,
    ids: Seq<u64>,
    results: Seq<Result<Vec<O>, E>>,
    emitted: Seq<Result<Vec<O>, E>>,
    flush: &mut OrderingNode<N, O>,
    inner_flush: Result<Vec<O>, E>,
    flushed: Vec<O>,
    missing: u64,
)
    requires
        calls.len() == ids.len() == results.len() == emitted.len(),
        states.len() == calls.len() + 1,
        call_ensures(OrderingNode::<N, O>::new, (inner_node, start), states[0]),
        forall|i: int|
            0 <= i < calls.len() ==> {
                &&& *calls[i] == states[i]
                &&& *final(calls[i]) == states[i + 1]
                &&& call_ensures(
                    OrderingNode::<N, O>::complete::<E>,
                    (calls[i], #[trigger] ids[i], results[i]),
                    emitted[i],
                )
            },
        *old(flush) == states.last(),
        call_ensures(
            OrderingNode::<N, O>::complete_flush::<E>,
            (flush, inner_flush),
            flushed,
        ),
        forall|i: int| 0 <= i < ids.len() ==> start <= #[trigger] ids[i],
        forall|i: int, j: int| 0 <= i < j < ids.len() ==> #[trigger] ids[i] != #[trigger] ids[j],
        start <= missing,
        !ids.contains(missing),
        forall|id: u64| start <= id < missing ==> #[trigger] ids.contains(id),
    ensures
        ({
            let given = match inner_flush {
                Ok(output) => output@,
                Err(_) => Seq::empty(),
            };
            &&& given.len() <= flushed@.len()
            &&& flushed@.take(given.len() as int) == given
            &&& all_emitted(emitted) + flushed@.skip(given.len() as int) == outputs_in_sequence(
                ids,
                results,
                0,
                u64::MAX + 1,
            )
        }),
        forall|i: int|
            0 <= i < calls.len() ==> match #[trigger] results[i] {
                Ok(_) => emitted[i] is Ok,
                Err(error) => emitted[i] == Err::<Vec<O>, E>(error),
            },
        calls.len() > 0 && results.last() is Ok ==> all_emitted(emitted) == outputs_in_sequence(
            ids,
            results,
            start as int,
            missing as int,
        ),
{
    let completions = completions_of(ids, results);
    let done = completed(completions);
    let s = start as int;
    lemma_calls_run(inner_node, start, states, calls, ids, results, emitted);
    assert forall|id: u64| #[trigger] done.contains_key(id) == ids.contains(id) by {
        lemma_completed_ids(completions, id);
        if ids.contains(id) {
            let i = choose|i: int| 0 <= i < ids.len() && ids[i] == id;
            assert(completions[i].seq_id == id);
        }
        if done.contains_key(id) {
            let i = choose|i: int|
                0 <= i < completions.len() && #[trigger] completions[i].seq_id == id;
            assert(ids[i] == id);
        }
    }
    lemma_first_missing_bounds(done.dom(), s);
    let first = first_missing(done.dom(), s);
    assert(first == missing) by {
        if first < missing {
            assert(ids.contains(first as u64));
            assert(done.contains_key(first as u64));
        }
        if first > missing {
            assert(done.dom().contains(missing));
            assert(done.contains_key(missing));
        }
    }
    assert forall|i: int| 0 <= i < completions.len() implies start
        <= #[trigger] completions[i].seq_id by {
        assert(start <= ids[i]);
    }
    assert forall|i: int, j: int| 0 <= i < j < completions.len() implies #[trigger] completions[i].seq_id
        != #[trigger] completions[j].seq_id by {
        assert(ids[i] != ids[j]);
    }
    assert(well_sequenced(start, completions));
    emits_in_sequence(start, completions);
    flush_completes_the_sequence(start, completions);
    lemma_outputs_in_sequence(ids, results, 0, u64::MAX + 1);
    lemma_outputs_in_sequence(ids, results, s, missing as int);
    let given = match inner_flush {
        Ok(output) => output@,
        Err(_) => Seq::empty(),
    };
    let buffered = outputs_between(states.last().state@.buffer, 0, id_limit());
    assert(flushed@ == given + buffered);
    assert(flushed@.take(given.len() as int) =~= given);
    assert(flushed@.skip(given.len() as int) =~= buffered);
    assert forall|i: int| 0 <= i < calls.len() implies match #[trigger] results[i] {
        Ok(_) => emitted[i] is Ok,
        Err(error) => emitted[i] == Err::<Vec<O>, E>(error),
    } by {
        assert(call_ensures(
            OrderingNode::<N, O>::complete::<E>,
            (calls[i], ids[i], results[i]),
            emitted[i],
        ));
        assert(completes(states[i].state@, ids[i], results[i], states[i + 1].state@, emitted[i]));
    }
    if calls.len() > 0 && results.last() is Ok {
        lemma_completions_last(ids, results);
    }
}

/// The errors of an ordering node are reported under its own name.
pub proof fn an_ordering_node_is_named<N, O>(node: OrderingNode<N, O>, name: &'static str)
    requires
        call_ensures(OrderingNode::<N, O>::name, (&node,), name),
    ensures
        name@ == "OrderingNode"@,
{
}

} // verus!
