//! What batching and the order of completion can and cannot change.
//!
//! A run cuts the numbered records into batches, validates each batch on
//! its own, and collects the issue lists of the batches in the order in
//! which the batches are finished. The laws below say that the issues found
//! are the same for every batch size and every order of completion, and that
//! a collector that preserves order hands them out as one pass over the
//! records would have found them.

use crate::engine::{
    arrival_outcome, effective_batch_size, lemma_slot_beyond_width, numbered, ordered_outcome,
    slot, width,
};
use crate::executor::{batch_issues, lemma_batch_issues_concat, record_issues};
use crate::issue::IssueView;
use crate::validator::Validator;
use vstd::multiset::*;
use vstd::prelude::*;
use vstd::seq_lib::*;

verus! {

/// The batches that a run cuts `items` into, in the order in which it hands
/// them out: each holds as many records as fill a batch, but for the last,
/// which holds what is left.
pub open spec fn batches_of(items: Seq<(usize, Seq<u8>)>, batch_size: usize) -> Seq<
    Seq<(usize, Seq<u8>)>,
>
    decreases items.len(),
{
    let size = effective_batch_size(batch_size) as int;
    if items.len() == 0 {
        Seq::empty()
    } else if items.len() <= size {
        seq![items]
    } else {
        seq![items.take(size)] + batches_of(items.skip(size), batch_size)
    }
}

/// The batches that come out when `items` are handed, one after the other,
/// to a dispatcher in which `waiting` wait, and the input is then ended: an
/// item that fills the batch sends it off, and what waits at the end is the
/// last batch.
pub open spec fn dispatched(
    waiting: Seq<(usize, Seq<u8>)>,
    items: Seq<(usize, Seq<u8>)>,
    batch_size: usize,
) -> Seq<Seq<(usize, Seq<u8>)>>
    decreases items.len(),
{
    if items.len() == 0 {
        if waiting.len() == 0 {
            Seq::empty()
        } else {
            seq![waiting]
        }
    } else if waiting.len() + 1 >= effective_batch_size(batch_size) {
        seq![waiting.push(items.first())] + dispatched(
            Seq::empty(),
            items.drop_first(),
            batch_size,
        )
    } else {
        dispatched(waiting.push(items.first()), items.drop_first(), batch_size)
    }
}

/// A dispatcher cuts its input into full batches and a last batch of what
/// is left.
pub proof fn lemma_dispatched_batches(
    waiting: Seq<(usize, Seq<u8>)>,
    items: Seq<(usize, Seq<u8>)>,
    batch_size: usize,
)
    requires
        waiting.len() < effective_batch_size(batch_size),
    ensures
        dispatched(waiting, items, batch_size) == batches_of(waiting + items, batch_size),
    decreases items.len(),
{
    let size = effective_batch_size(batch_size) as int;
    let whole = waiting + items;
    if items.len() == 0 {
        assert(whole =~= waiting);
    } else {
        let first = items.first();
        let rest = items.drop_first();
        if waiting.len() + 1 >= size {
            lemma_dispatched_batches(Seq::empty(), rest, batch_size);
            assert(Seq::<(usize, Seq<u8>)>::empty() + rest =~= rest);
            assert(whole.take(size) =~= waiting.push(first));
            if whole.len() > size {
                assert(whole.skip(size) =~= rest);
            } else {
                assert(whole =~= waiting.push(first));
                assert(rest.len() == 0);
                assert(seq![whole] + Seq::<Seq<(usize, Seq<u8>)>>::empty() =~= seq![whole]);
            }
        } else {
            lemma_dispatched_batches(waiting.push(first), rest, batch_size);
            assert(waiting.push(first) + rest =~= whole);
        }
    }
}

/// The issue list of each batch.
pub open spec fn batch_results<V: Validator>(
    validators: Seq<V>,
    batches: Seq<Seq<(usize, Seq<u8>)>>,
) -> Seq<Seq<IssueView>> {
    batches.map_values(|batch: Seq<(usize, Seq<u8>)>| batch_issues(validators, batch))
}

/// The batches hold every record once, in order, and none is empty or
/// larger than the batch size.
pub proof fn lemma_batches_cover(items: Seq<(usize, Seq<u8>)>, batch_size: usize)
    ensures
        batches_of(items, batch_size).flatten() == items,
        forall|k: int|
            0 <= k < batches_of(items, batch_size).len() ==> 0 < (#[trigger] batches_of(
                items,
                batch_size,
            )[k]).len() <= effective_batch_size(batch_size),
    decreases items.len(),
{
    let size = effective_batch_size(batch_size) as int;
    if items.len() == 0 {
    } else if items.len() <= size {
        seq![items].lemma_flatten_singleton();
    } else {
        let rest = batches_of(items.skip(size), batch_size);
        lemma_batches_cover(items.skip(size), batch_size);
        lemma_flatten_concat(seq![items.take(size)], rest);
        seq![items.take(size)].lemma_flatten_singleton();
        assert(items.take(size) + items.skip(size) =~= items);
    }
}

/// Validating batch by batch finds what validating all records in one pass
/// finds, in the same order, whatever the batch size.
pub proof fn lemma_batching_keeps_issues<V: Validator>(
    validators: Seq<V>,
    items: Seq<(usize, Seq<u8>)>,
    batch_size: usize,
)
    ensures
        batch_results(validators, batches_of(items, batch_size)).flatten() == batch_issues(
            validators,
            items,
        ),
    decreases items.len(),
{
    let size = effective_batch_size(batch_size) as int;
    let each = |batch: Seq<(usize, Seq<u8>)>| batch_issues(validators, batch);
    if items.len() == 0 {
        assert(batch_results(validators, batches_of(items, batch_size)) =~= Seq::<
            Seq<IssueView>,
        >::empty());
        assert(batch_issues(validators, items) =~= Seq::<IssueView>::empty());
    } else if items.len() <= size {
        assert(batch_results(validators, seq![items]) =~= seq![batch_issues(validators, items)]);
        seq![batch_issues(validators, items)].lemma_flatten_singleton();
    } else {
        let first = items.take(size);
        let rest = items.skip(size);
        lemma_batching_keeps_issues(validators, rest, batch_size);
        assert(batch_results(validators, batches_of(items, batch_size)) =~= seq![
            batch_issues(validators, first),
        ] + batch_results(validators, batches_of(rest, batch_size)));
        lemma_flatten_concat(
            seq![batch_issues(validators, first)],
            batch_results(validators, batches_of(rest, batch_size)),
        );
        seq![batch_issues(validators, first)].lemma_flatten_singleton();
        lemma_batch_issues_concat(validators, first, rest);
        assert(first + rest =~= items);
    }
}

proof fn lemma_flatten_remove<A>(lists: Seq<Seq<A>>, k: int)
    requires
        0 <= k < lists.len(),
    ensures
        lists.flatten().to_multiset() == lists.remove(k).flatten().to_multiset().add(
            lists[k].to_multiset(),
        ),
{
    let front = lists.take(k);
    let back = lists.skip(k + 1);
    assert(lists =~= front + seq![lists[k]] + back);
    assert(lists.remove(k) =~= front + back);
    lemma_flatten_concat(front + seq![lists[k]], back);
    lemma_flatten_concat(front, seq![lists[k]]);
    lemma_flatten_concat(front, back);
    seq![lists[k]].lemma_flatten_singleton();
    lemma_multiset_commutative(front.flatten() + lists[k], back.flatten());
    lemma_multiset_commutative(front.flatten(), lists[k]);
    lemma_multiset_commutative(front.flatten(), back.flatten());
    assert(lists.flatten().to_multiset() =~= lists.remove(k).flatten().to_multiset().add(
        lists[k].to_multiset(),
    ));
}

/// The order in which the issue lists of the batches arrive does not change
/// which issues there are, nor how often each occurs.
pub proof fn lemma_arrival_order_irrelevant(
    chunks: Seq<Seq<IssueView>>,
    arrived: Seq<Seq<IssueView>>,
)
    requires
        arrived.to_multiset() == chunks.to_multiset(),
    ensures
        arrived.flatten().to_multiset() == chunks.flatten().to_multiset(),
    decreases arrived.len(),
{
    broadcast use group_multiset_axioms;

    to_multiset_len(arrived);
    to_multiset_len(chunks);
    if arrived.len() == 0 {
        assert(arrived.flatten() =~= chunks.flatten());
    } else {
        let last = arrived.last();
        let front = arrived.drop_last();
        assert(arrived =~= front.push(last));
        to_multiset_build(front, last);
        assert(arrived.to_multiset().count(last) > 0);
        to_multiset_contains(chunks, last);
        let k = choose|k: int| 0 <= k < chunks.len() && chunks[k] == last;
        to_multiset_remove(chunks, k);
        assert(front.to_multiset() =~= arrived.to_multiset().remove(last));
        lemma_arrival_order_irrelevant(chunks.remove(k), front);
        lemma_flatten_remove(chunks, k);
        front.lemma_flatten_push(last);
        lemma_multiset_commutative(front.flatten(), last);
        assert(arrived.flatten().to_multiset() =~= chunks.flatten().to_multiset());
    }
}

/// Batching does not change the result: for any two batch sizes, and for
/// any order in which the batches of either run are finished, the two runs
/// report the same issues, each as often as the other.
pub proof fn lemma_batch_size_irrelevant<V: Validator>(
    validators: Seq<V>,
    records: Seq<Seq<u8>>,
    size_a: usize,
    size_b: usize,
    arrived_a: Seq<Seq<IssueView>>,
    arrived_b: Seq<Seq<IssueView>>,
)
    requires
        arrived_a.to_multiset() == batch_results(
            validators,
            batches_of(numbered(records), size_a),
        ).to_multiset(),
        arrived_b.to_multiset() == batch_results(
            validators,
            batches_of(numbered(records), size_b),
        ).to_multiset(),
    ensures
        arrived_a.flatten().to_multiset() == arrived_b.flatten().to_multiset(),
        arrived_a.flatten().to_multiset() == batch_issues(
            validators,
            numbered(records),
        ).to_multiset(),
{
    let items = numbered(records);
    lemma_arrival_order_irrelevant(
        batch_results(validators, batches_of(items, size_a)),
        arrived_a,
    );
    lemma_arrival_order_irrelevant(
        batch_results(validators, batches_of(items, size_b)),
        arrived_b,
    );
    lemma_batching_keeps_issues(validators, items, size_a);
    lemma_batching_keeps_issues(validators, items, size_b);
}

/// Every batch's issue list has arrived exactly once, under the batch's
/// sequence number, in some order.
pub open spec fn arrived_once_each(
    arrivals: Seq<(usize, Seq<IssueView>)>,
    chunks: Seq<Seq<IssueView>>,
) -> bool {
    &&& forall|i: int|
        0 <= i < arrivals.len() ==> (#[trigger] arrivals[i]).0 < chunks.len() && arrivals[i].1
            == chunks[arrivals[i].0 as int]
    &&& forall|k: int| 0 <= k < chunks.len() ==> #[trigger] arrived_once(arrivals, k)
}

/// Exactly one arrival has sequence number `k`.
pub open spec fn arrived_once(arrivals: Seq<(usize, Seq<IssueView>)>, k: int) -> bool {
    exists|i: int| #[trigger] sole_arrival(arrivals, i, k)
}

/// Arrival `i` is the only one with sequence number `k`.
pub open spec fn sole_arrival(arrivals: Seq<(usize, Seq<IssueView>)>, i: int, k: int) -> bool {
    &&& 0 <= i < arrivals.len()
    &&& arrivals[i].0 == k
    &&& forall|j: int| 0 <= j < arrivals.len() && j != i ==> (#[trigger] arrivals[j]).0 != k
}

proof fn lemma_slot_absent(arrivals: Seq<(usize, Seq<IssueView>)>, k: int)
    requires
        forall|j: int| 0 <= j < arrivals.len() ==> (#[trigger] arrivals[j]).0 != k,
    ensures
        slot(arrivals, k) == Seq::<IssueView>::empty(),
    decreases arrivals.len(),
{
    if arrivals.len() > 0 {
        let front = arrivals.drop_last();
        assert forall|j: int| 0 <= j < front.len() implies (#[trigger] front[j]).0 != k by {
            assert(front[j] == arrivals[j]);
        }
        lemma_slot_absent(front, k);
    }
}

proof fn lemma_slot_sole(arrivals: Seq<(usize, Seq<IssueView>)>, i: int, k: int)
    requires
        sole_arrival(arrivals, i, k),
    ensures
        slot(arrivals, k) == arrivals[i].1,
    decreases arrivals.len(),
{
    let front = arrivals.drop_last();
    if i == arrivals.len() - 1 {
        assert forall|j: int| 0 <= j < front.len() implies (#[trigger] front[j]).0 != k by {
            assert(front[j] == arrivals[j]);
        }
        lemma_slot_absent(front, k);
        assert(slot(arrivals, k) =~= arrivals[i].1);
    } else {
        assert(sole_arrival(front, i, k)) by {
            assert(front[i] == arrivals[i]);
            assert forall|j: int| 0 <= j < front.len() && j != i implies (#[trigger] front[j]).0
                != k by {
                assert(front[j] == arrivals[j]);
            }
        }
        lemma_slot_sole(front, i, k);
        assert(arrivals.last().0 != k);
        assert(slot(arrivals, k) =~= arrivals[i].1);
    }
}

proof fn lemma_width_bounds(arrivals: Seq<(usize, Seq<IssueView>)>, bound: nat)
    requires
        forall|i: int| 0 <= i < arrivals.len() ==> (#[trigger] arrivals[i]).0 < bound,
    ensures
        width(arrivals) <= bound,
        forall|i: int| 0 <= i < arrivals.len() ==> (#[trigger] arrivals[i]).0 < width(arrivals),
    decreases arrivals.len(),
{
    if arrivals.len() > 0 {
        let front = arrivals.drop_last();
        assert forall|i: int| 0 <= i < front.len() implies (#[trigger] front[i]).0 < bound by {
            assert(front[i] == arrivals[i]);
        }
        lemma_width_bounds(front, bound);
        assert forall|i: int| 0 <= i < arrivals.len() implies (#[trigger] arrivals[i]).0 < width(
            arrivals,
        ) by {
            if i < front.len() {
                assert(front[i] == arrivals[i]);
            }
        }
    }
}

/// A collector that preserves order hands out the issues in the order of
/// the batches, in whatever order the batches were finished.
pub proof fn lemma_order_preserved(
    arrivals: Seq<(usize, Seq<IssueView>)>,
    chunks: Seq<Seq<IssueView>>,
)
    requires
        arrived_once_each(arrivals, chunks),
    ensures
        ordered_outcome(arrivals) == chunks.flatten(),
{
    lemma_width_bounds(arrivals, chunks.len());
    assert(width(arrivals) == chunks.len()) by {
        if chunks.len() > 0 {
            let top = chunks.len() - 1;
            assert(arrived_once(arrivals, top));
            let i = choose|i: int| #[trigger] sole_arrival(arrivals, i, top);
            assert(arrivals[i].0 < width(arrivals));
        }
    }
    assert forall|k: int| 0 <= k < chunks.len() implies slot(arrivals, k) == chunks[k] by {
        assert(arrived_once(arrivals, k));
        let i = choose|i: int| #[trigger] sole_arrival(arrivals, i, k);
        lemma_slot_sole(arrivals, i, k);
    }
    assert(Seq::new(width(arrivals), |k: int| slot(arrivals, k)) =~= chunks);
}

/// The numbers of `items` do not go down from one record to the next.
pub open spec fn numbers_ascend(items: Seq<(usize, Seq<u8>)>) -> bool {
    forall|i: int, j: int| 0 <= i <= j < items.len() ==> items[i].0 <= items[j].0
}

proof fn lemma_record_issues_tagged<V: Validator>(validators: Seq<V>, record: (usize, Seq<u8>))
    ensures
        forall|i: int|
            0 <= i < record_issues(validators, record).len() ==> (#[trigger] record_issues(
                validators,
                record,
            )[i]).line_number == record.0,
    decreases validators.len(),
{
    let each = |validator: V| validator.issues_for(record.1, record.0);
    if validators.len() == 0 {
        assert(validators.map_values(each) =~= Seq::<Seq<IssueView>>::empty());
    } else {
        let front = validators.drop_last();
        let last = validators.last();
        lemma_record_issues_tagged(front, record);
        last.lemma_issues_tagged(record.1, record.0);
        assert(validators.map_values(each) =~= front.map_values(each).push(each(last)));
        front.map_values(each).lemma_flatten_push(each(last));
    }
}

proof fn lemma_batch_issues_numbers<V: Validator>(
    validators: Seq<V>,
    items: Seq<(usize, Seq<u8>)>,
)
    requires
        numbers_ascend(items),
    ensures
        forall|i: int, j: int|
            0 <= i <= j < batch_issues(validators, items).len() ==> batch_issues(
                validators,
                items,
            )[i].line_number <= batch_issues(validators, items)[j].line_number,
        forall|i: int|
            0 <= i < batch_issues(validators, items).len() ==> items.len() > 0 && (
            #[trigger] batch_issues(validators, items)[i]).line_number <= items.last().0,
    decreases items.len(),
{
    let each = |record: (usize, Seq<u8>)| record_issues(validators, record);
    if items.len() == 0 {
        assert(items.map_values(each) =~= Seq::<Seq<IssueView>>::empty());
    } else {
        let front = items.drop_last();
        let last = items.last();
        assert(numbers_ascend(front)) by {
            assert forall|i: int, j: int| 0 <= i <= j < front.len() implies front[i].0
                <= front[j].0 by {
                assert(front[i] == items[i] && front[j] == items[j]);
            }
        }
        lemma_batch_issues_numbers(validators, front);
        lemma_record_issues_tagged(validators, last);
        assert(items.map_values(each) =~= front.map_values(each).push(each(last)));
        front.map_values(each).lemma_flatten_push(each(last));
        if front.len() > 0 {
            assert(front.last() == items[front.len() - 1]);
        }
    }
}

/// With order preserved, a run hands out the issues sorted by record
/// number and, for one record, in the order in which the validators were
/// configured: exactly the issues of one pass over the records, whatever
/// the batch size and the order in which the batches were finished.
pub proof fn lemma_ordered_run<V: Validator>(
    validators: Seq<V>,
    records: Seq<Seq<u8>>,
    batch_size: usize,
    arrivals: Seq<(usize, Seq<IssueView>)>,
)
    requires
        records.len() <= usize::MAX,
        arrived_once_each(
            arrivals,
            batch_results(validators, batches_of(numbered(records), batch_size)),
        ),
    ensures
        ordered_outcome(arrivals) == batch_issues(validators, numbered(records)),
        forall|i: int, j: int|
            0 <= i <= j < ordered_outcome(arrivals).len() ==> ordered_outcome(
                arrivals,
            )[i].line_number <= ordered_outcome(arrivals)[j].line_number,
{
    let items = numbered(records);
    lemma_order_preserved(arrivals, batch_results(validators, batches_of(items, batch_size)));
    lemma_batching_keeps_issues(validators, items, batch_size);
    assert(numbers_ascend(items));
    lemma_batch_issues_numbers(validators, items);
}

} // verus!
