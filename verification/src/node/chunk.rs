//! Groups items into batches.

use crate::node::Node;
use std::convert::Infallible;
use vstd::prelude::*;

verus! {

/// What a [`ChunkNode`] holds.
pub struct ChunkView<T> {
    /// How many items make a batch.
    pub batch_size: nat,
    /// The items that wait for their batch to fill.
    pub buffer: Seq<T>,
}

impl<T> ChunkView<T> {
    /// The node once it took `item`, and the batches that it gives back: the items that it holds,
    /// when they make a batch.
    pub open spec fn took(self, item: T) -> (ChunkView<T>, Seq<Seq<T>>) {
        let filled = self.buffer.push(item);
        if filled.len() >= self.batch_size {
            (ChunkView { buffer: Seq::empty(), ..self }, seq![filled])
        } else {
            (ChunkView { buffer: filled, ..self }, Seq::empty())
        }
    }

    /// The node once it was flushed, and the batches that it gives back: the items that are left,
    /// if any.
    pub open spec fn flushed(self) -> (ChunkView<T>, Seq<Seq<T>>) {
        (
            ChunkView { buffer: Seq::empty(), ..self },
            if self.buffer.len() > 0 {
                seq![self.buffer]
            } else {
                Seq::empty()
            },
        )
    }
}

/// The items of each batch.
pub open spec fn batches<T>(chunks: Seq<Vec<T>>) -> Seq<Seq<T>> {
    chunks.map_values(|chunk: Vec<T>| chunk@)
}

/// A middleware node that groups individual items into fixed-size batches.
///
/// It clones the items that it takes.
#[derive(Debug)]
pub struct ChunkNode<T> {
    batch_size: usize,
    buffer: Vec<T>,
}

impl<T> View for ChunkNode<T> {
    type V = ChunkView<T>;

    closed spec fn view(&self) -> ChunkView<T> {
        ChunkView { batch_size: self.batch_size as nat, buffer: self.buffer@ }
    }
}

impl<T> ChunkNode<T> {
    /// A node that gives batches of `batch_size` items back. With a size of zero there would be
    /// no batch to fill.
    pub fn new(batch_size: usize) -> (node: Self)
        requires
            batch_size > 0,
        ensures
            node@ == (ChunkView::<T> { batch_size: batch_size as nat, buffer: Seq::empty() }),
    {
        ChunkNode { batch_size, buffer: Vec::new() }
    }

    fn take(&mut self) -> (items: Vec<T>)
        ensures
            items@ == old(self)@.buffer,
            final(self)@ == (ChunkView { buffer: Seq::<T>::empty(), ..old(self)@ }),
    {
        let mut items: Vec<T> = Vec::new();
        std::mem::swap(&mut items, &mut self.buffer);
        items
    }
}

impl<T: Clone> Node for ChunkNode<T> {
    type Input = T;

    type Output = Vec<Vec<T>>;

    type Error = Infallible;

    open spec fn accepts(self, input: T) -> bool {
        true
    }

    open spec fn executes(
        self,
        input: T,
        after: Self,
        result: Result<Vec<Vec<T>>, Infallible>,
    ) -> bool {
        &&& result matches Ok(chunks)
        &&& exists|item: T|
            {
                &&& cloned(input, item)
                &&& (after@, batches(chunks@)) == #[trigger] self@.took(item)
            }
    }

    open spec fn flushes(self, after: Self, result: Result<Vec<Vec<T>>, Infallible>) -> bool {
        &&& result matches Ok(chunks)
        &&& (after@, batches(chunks@)) == self@.flushed()
    }

    fn execute(&mut self, input: &T) -> (result: Result<Vec<Vec<T>>, Infallible>) {
        let item = input.clone();
        let ghost took = self@.took(item);
        self.buffer.push(item);
        let mut chunks: Vec<Vec<T>> = Vec::new();
        if self.buffer.len() >= self.batch_size {
            let chunk = self.take();
            chunks.push(chunk);
        }
        assert(batches(chunks@) =~= took.1);
        Ok(chunks)
    }

    fn flush(&mut self) -> (result: Result<Vec<Vec<T>>, Infallible>) {
        let ghost flushed = self@.flushed();
        let rest = self.take();
        let mut chunks: Vec<Vec<T>> = Vec::new();
        if rest.len() > 0 {
            chunks.push(rest);
        }
        assert(batches(chunks@) =~= flushed.1);
        Ok(chunks)
    }
}

/// The node once it took `items` in turn, and the batches that it gave back.
pub open spec fn chunk_run<T>(node: ChunkView<T>, items: Seq<T>) -> (ChunkView<T>, Seq<Seq<T>>)
    decreases items.len(),
{
    if items.len() == 0 {
        (node, Seq::empty())
    } else {
        let (before, emitted) = chunk_run(node, items.drop_last());
        let (after, more) = before.took(items.last());
        (after, emitted + more)
    }
}

/// Nothing is lost, duplicated or reordered: the batches, one after another, followed by what is
/// left for the flush, are the items. Every batch has the full size, and less than a batch is
/// left.
pub proof fn batches_hold_the_items<T>(node: ChunkView<T>, items: Seq<T>)
    requires
        node.batch_size > 0,
        node.buffer.len() < node.batch_size,
    ensures
        ({
            let (after, emitted) = chunk_run(node, items);
            &&& emitted.flatten() + after.buffer == node.buffer + items
            &&& forall|i: int|
                0 <= i < emitted.len() ==> (#[trigger] emitted[i]).len() == node.batch_size
            &&& after.buffer.len() < node.batch_size
            &&& after.batch_size == node.batch_size
        }),
    decreases items.len(),
{
    let (after, emitted) = chunk_run(node, items);
    if items.len() == 0 {
        assert(emitted.flatten() =~= Seq::<T>::empty());
        assert(emitted.flatten() + after.buffer =~= node.buffer + items);
    } else {
        batches_hold_the_items(node, items.drop_last());
        let (before, earlier) = chunk_run(node, items.drop_last());
        let filled = before.buffer.push(items.last());
        assert(earlier.flatten() + filled =~= (earlier.flatten() + before.buffer).push(
            items.last(),
        ));
        assert((node.buffer + items.drop_last()).push(items.last()) =~= node.buffer + items);
        if filled.len() >= node.batch_size {
            assert(emitted =~= earlier.push(filled));
            earlier.lemma_flatten_push(filled);
            assert(emitted.flatten() + after.buffer =~= node.buffer + items);
        } else {
            assert(emitted =~= earlier);
        }
    }
}

/// A flush hands out what is left, and a second flush has nothing to hand out.
pub proof fn a_second_flush_is_empty<T>(node: ChunkView<T>)
    ensures
        node.flushed().1.flatten() == node.buffer,
        node.flushed().0.flushed() == (node.flushed().0, Seq::<Seq<T>>::empty()),
{
    let empty = Seq::<Seq<T>>::empty();
    assert(empty.flatten() =~= Seq::<T>::empty());
    if node.buffer.len() > 0 {
        empty.lemma_flatten_push(node.buffer);
        assert(empty.push(node.buffer) =~= seq![node.buffer]);
        assert(seq![node.buffer].flatten() =~= node.buffer);
    } else {
        assert(node.flushed().1.flatten() =~= node.buffer);
    }
}

/// The items of the batches, one batch after the other.
pub open spec fn handed_out<T>(chunks: Seq<Vec<T>>) -> Seq<T>
    decreases chunks.len(),
{
    if chunks.len() == 0 {
        Seq::empty()
    } else {
        handed_out(chunks.drop_last()) + chunks.last()@
    }
}

/// The items of all batches that a series of calls gave back.
pub open spec fn all_handed_out<T>(results: Seq<Result<Vec<Vec<T>>, Infallible>>) -> Seq<T>
    decreases results.len(),
{
    if results.len() == 0 {
        Seq::empty()
    } else {
        all_handed_out(results.drop_last()) + match results.last() {
            Ok(chunks) => handed_out(chunks@),
            Err(_) => Seq::empty(),
        }
    }
}

proof fn lemma_handed_out<T>(chunks: Seq<Vec<T>>)
    requires
        chunks.len() <= 1,
    ensures
        handed_out(chunks) == if chunks.len() == 1 {
            chunks[0]@
        } else {
            Seq::empty()
        },
{
    if chunks.len() == 1 {
        assert(handed_out(chunks.drop_last()) =~= Seq::<T>::empty());
        assert(handed_out(chunks) =~= chunks[0]@);
    }
}

/// A new node holds nothing, and any size but zero will do.
pub proof fn a_new_node_is_empty<T>(batch_size: usize, node: ChunkNode<T>)
    requires
        batch_size > 0,
        call_ensures(ChunkNode::<T>::new, (batch_size,), node),
    ensures
        call_requires(ChunkNode::<T>::new, (batch_size,)),
        node@.buffer.len() == 0,
        node@.batch_size == batch_size,
{
}

/// A node takes every item: what it hands out, followed by what it holds afterwards, is what it
/// held and the item. It hands out either nothing, or everything that it holds as one batch, and
/// does so exactly when that makes a batch.
pub proof fn an_item_joins_its_batch<T: Clone>(
    before: ChunkNode<T>,
    input: T,
    after: ChunkNode<T>,
    result: Result<Vec<Vec<T>>, Infallible>,
) -> (item: T)
    requires
        before.executes(input, after, result),
    ensures
        before.accepts(input),
        cloned(input, item),
        after@.batch_size == before@.batch_size,
        result matches Ok(chunks) && {
            &&& handed_out(chunks@) + after@.buffer == before@.buffer.push(item)
            &&& chunks@.len() == 1 <==> before@.buffer.len() + 1 >= before@.batch_size
            &&& chunks@.len() == 0 <==> before@.buffer.len() + 1 < before@.batch_size
            &&& chunks@.len() == 1 ==> after@.buffer.len() == 0
        },
{
    let chunks = result->Ok_0;
    let item = choose|item: T|
        {
            &&& cloned(input, item)
            &&& (after@, batches(chunks@)) == #[trigger] before@.took(item)
        };
    assert(batches(chunks@).len() == chunks@.len());
    lemma_handed_out(chunks@);
    if chunks@.len() == 1 {
        assert(chunks@[0]@ == batches(chunks@)[0]);
    }
    assert(handed_out(chunks@) + after@.buffer =~= before@.buffer.push(item));
    item
}

/// A flush hands out exactly what the node holds, as one batch that is not empty, or as none when
/// there is nothing. Afterwards the node holds nothing and fills batches of the same size.
pub proof fn a_flush_hands_out_the_rest<T: Clone>(
    before: ChunkNode<T>,
    after: ChunkNode<T>,
    result: Result<Vec<Vec<T>>, Infallible>,
)
    requires
        before.flushes(after, result),
    ensures
        after@.batch_size == before@.batch_size,
        after@.buffer.len() == 0,
        result matches Ok(chunks) && {
            &&& handed_out(chunks@) == before@.buffer
            &&& chunks@.len() <= 1
            &&& chunks@.len() == 1 ==> chunks@[0]@.len() > 0
        },
{
    let chunks = result->Ok_0;
    assert(batches(chunks@).len() == chunks@.len());
    lemma_handed_out(chunks@);
    if chunks@.len() == 1 {
        assert(chunks@[0]@ == batches(chunks@)[0]);
    }
    assert(handed_out(chunks@) =~= before@.buffer);
}

proof fn lemma_taken<T: Clone>(
    nodes: Seq<ChunkNode<T>>,
    inputs: Seq<T>,
    results: Seq<Result<Vec<Vec<T>>, Infallible>>,
) -> (items: Seq<T>)
    requires
        nodes.len() == inputs.len() + 1,
        results.len() == inputs.len(),
        nodes[0]@.buffer.len() < nodes[0]@.batch_size,
        forall|i: int|
            0 <= i < inputs.len() ==> nodes[i].executes(
                #[trigger] inputs[i],
                nodes[i + 1],
                results[i],
            ),
    ensures
        items.len() == inputs.len(),
        forall|i: int| 0 <= i < inputs.len() ==> cloned(#[trigger] inputs[i], items[i]),
        forall|i: int| 0 <= i < results.len() ==> (#[trigger] results[i]) is Ok,
        forall|i: int, j: int|
            0 <= i < results.len() && 0 <= j < results[i]->Ok_0@.len() ==> (
            #[trigger] results[i]->Ok_0@[j])@.len() == nodes[0]@.batch_size,
        all_handed_out(results) + nodes.last()@.buffer == nodes[0]@.buffer + items,
        nodes.last()@.buffer.len() < nodes[0]@.batch_size,
        nodes.last()@.batch_size == nodes[0]@.batch_size,
    decreases inputs.len(),
{
    if inputs.len() == 0 {
        let items = Seq::<T>::empty();
        assert(all_handed_out(results) + nodes.last()@.buffer =~= nodes[0]@.buffer + items);
        items
    } else {
        let some = nodes.drop_last();
        let some_inputs = inputs.drop_last();
        let some_results = results.drop_last();
        assert forall|i: int| 0 <= i < some_inputs.len() implies some[i].executes(
            #[trigger] some_inputs[i],
            some[i + 1],
            some_results[i],
        ) by {
            assert(nodes[i].executes(inputs[i], nodes[i + 1], results[i]));
        }
        let earlier = lemma_taken(some, some_inputs, some_results);
        let n = inputs.len() - 1;
        assert(nodes[n].executes(inputs[n], nodes[n + 1], results[n]));
        let item = an_item_joins_its_batch(nodes[n], inputs[n], nodes[n + 1], results[n]);
        let items = earlier.push(item);
        assert forall|i: int| 0 <= i < inputs.len() implies cloned(
            #[trigger] inputs[i],
            items[i],
        ) by {
            if i < n {
                assert(cloned(some_inputs[i], earlier[i]));
            }
        }
        assert forall|i: int| 0 <= i < results.len() implies (#[trigger] results[i]) is Ok by {
            if i < n {
                assert(some_results[i] is Ok);
            }
        }
        lemma_handed_out(results[n]->Ok_0@);
        assert forall|i: int, j: int|
            0 <= i < results.len() && 0 <= j < results[i]->Ok_0@.len() implies (
        #[trigger] results[i]->Ok_0@[j])@.len() == nodes[0]@.batch_size by {
            if i < n {
                assert(some_results[i]->Ok_0@[j]@.len() == nodes[0]@.batch_size);
            } else {
                assert(j == 0);
                assert(handed_out(results[n]->Ok_0@).len() == nodes[n]@.buffer.len() + 1);
            }
        }
        assert(all_handed_out(results) + nodes.last()@.buffer =~= all_handed_out(some_results) + (
        handed_out(results[n]->Ok_0@) + nodes.last()@.buffer));
        assert(all_handed_out(results) + nodes.last()@.buffer =~= (all_handed_out(some_results)
            + nodes[n]@.buffer).push(item));
        assert(all_handed_out(results) + nodes.last()@.buffer =~= nodes[0]@.buffer + items);
        items
    }
}

/// Nothing is lost, added or moved between the calls: a new node that takes items and is then
/// flushed has handed out, in all its batches one after the other, exactly the items. Before the
/// flush every batch has the full size, and as many items are out as make full batches.
pub proof fn everything_taken_is_handed_out<T: Clone>(
    batch_size: usize,
    nodes: Seq<ChunkNode<T>>,
    inputs: Seq<T>,
    results: Seq<Result<Vec<Vec<T>>, Infallible>>,
    flushed: ChunkNode<T>,
    rest: Result<Vec<Vec<T>>, Infallible>,
) -> (items: Seq<T>)
    requires
        batch_size > 0,
        nodes.len() == inputs.len() + 1,
        results.len() == inputs.len(),
        call_ensures(ChunkNode::<T>::new, (batch_size,), nodes[0]),
        forall|i: int|
            0 <= i < inputs.len() ==> nodes[i].executes(
                #[trigger] inputs[i],
                nodes[i + 1],
                results[i],
            ),
        nodes.last().flushes(flushed, rest),
    ensures
        items.len() == inputs.len(),
        forall|i: int| 0 <= i < inputs.len() ==> cloned(#[trigger] inputs[i], items[i]),
        forall|i: int| 0 <= i < results.len() ==> (#[trigger] results[i]) is Ok,
        all_handed_out(results.push(rest)) == items,
        all_handed_out(results) == items.take(inputs.len() - inputs.len() % batch_size as nat),
        forall|i: int, j: int|
            0 <= i < results.len() && 0 <= j < results[i]->Ok_0@.len() ==> (
            #[trigger] results[i]->Ok_0@[j])@.len() == batch_size,
        flushed@.buffer.len() == 0,
{
    let items = lemma_taken(nodes, inputs, results);
    let held = nodes.last()@.buffer;
    let out = all_handed_out(results);
    assert(nodes[0]@.buffer + items =~= items);
    a_flush_hands_out_the_rest(nodes.last(), flushed, rest);
    assert(results.push(rest).drop_last() =~= results);
    lemma_full_batches(results, batch_size as nat);
    vstd::arithmetic::div_mod::lemma_fundamental_div_mod_converse_mod(
        items.len() as int,
        batch_size as int,
        full_batches(results) as int,
        held.len() as int,
    );
    assert(out =~= items.take(out.len() as int)) by {
        assert(out =~= (out + held).take(out.len() as int));
    }
    items
}

spec fn full_batches<T>(results: Seq<Result<Vec<Vec<T>>, Infallible>>) -> nat
    decreases results.len(),
{
    if results.len() == 0 {
        0
    } else {
        full_batches(results.drop_last()) + results.last()->Ok_0@.len()
    }
}

proof fn lemma_chunk_sizes<T>(chunks: Seq<Vec<T>>, size: nat)
    requires
        forall|j: int| 0 <= j < chunks.len() ==> (#[trigger] chunks[j])@.len() == size,
    ensures
        handed_out(chunks).len() == chunks.len() * size,
    decreases chunks.len(),
{
    if chunks.len() > 0 {
        let fewer = chunks.drop_last();
        assert forall|j: int| 0 <= j < fewer.len() implies (
        #[trigger] fewer[j])@.len() == size by {
            assert(chunks[j]@.len() == size);
        }
        lemma_chunk_sizes(fewer, size);
        assert(chunks[chunks.len() - 1]@.len() == size);
        assert(chunks.len() * size == fewer.len() * size + size) by (nonlinear_arith)
            requires
                chunks.len() == fewer.len() + 1,
        ;
    } else {
        assert(chunks.len() * size == 0) by (nonlinear_arith)
            requires
                chunks.len() == 0,
        ;
    }
}

proof fn lemma_full_batches<T>(results: Seq<Result<Vec<Vec<T>>, Infallible>>, size: nat)
    requires
        forall|i: int| 0 <= i < results.len() ==> (#[trigger] results[i]) is Ok,
        forall|i: int, j: int|
            0 <= i < results.len() && 0 <= j < results[i]->Ok_0@.len() ==> (
            #[trigger] results[i]->Ok_0@[j])@.len() == size,
    ensures
        all_handed_out(results).len() == full_batches(results) * size,
    decreases results.len(),
{
    if results.len() > 0 {
        let fewer = results.drop_last();
        let n = results.len() - 1;
        assert forall|i: int, j: int|
            0 <= i < fewer.len() && 0 <= j < fewer[i]->Ok_0@.len() implies (
        #[trigger] fewer[i]->Ok_0@[j])@.len() == size by {
            assert(results[i]->Ok_0@[j]@.len() == size);
        }
        assert forall|i: int| 0 <= i < fewer.len() implies (#[trigger] fewer[i]) is Ok by {
            assert(results[i] is Ok);
        }
        lemma_full_batches(fewer, size);
        assert(results[n] is Ok);
        let chunks = results[n]->Ok_0@;
        assert forall|j: int| 0 <= j < chunks.len() implies (
        #[trigger] chunks[j])@.len() == size by {
            assert(results[n]->Ok_0@[j]@.len() == size);
        }
        lemma_chunk_sizes(chunks, size);
        assert((full_batches(fewer) + chunks.len()) * size == full_batches(fewer) * size
            + chunks.len() * size) by (nonlinear_arith);
    } else {
        assert(full_batches(results) * size == 0) by (nonlinear_arith)
            requires
                full_batches(results) == 0,
        ;
    }
}

} // verus!
