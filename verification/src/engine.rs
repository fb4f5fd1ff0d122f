//! Batching records, collecting the issues of the batches, and a complete
//! run over bytes held in memory.

use crate::executor::{batch_issues, lemma_batch_issues_concat, numbered_views, WorkerPool};
use crate::issue::{issue_views, lemma_issue_views_concat, IssueView, ValidationIssue};
use crate::reader::OptimizedQuoteAwareReader;
use crate::records::{
    after_first_record, first_record, lemma_after_first_record_shorter, split_records,
};
use crate::validator::Validator;
use vstd::prelude::*;

verus! {

/// The settings of one validation run.
pub struct ValidationOptions {
    /// Number of worker threads.
    pub threads: usize,
    /// Greatest number of records in a batch. Zero is taken as one.
    pub batch_size: usize,
    /// Size of the read buffer, in bytes.
    pub buffer_size: usize,
    /// Whether the issues are to come out in the order of the records.
    pub preserve_order: bool,
}

impl Default for ValidationOptions {
    /// Eight threads, batches of a hundred thousand records, a read buffer of
    /// eight mebibytes, and no promise about the order of the issues.
    fn default() -> (options: Self)
        ensures
            options.threads == 8,
            options.batch_size == 100_000,
            options.buffer_size == 8 * 1024 * 1024,
            !options.preserve_order,
    {
        Self {
            threads: 8,
            batch_size: 100_000,
            buffer_size: 8 * 1024 * 1024,
            preserve_order: false,
        }
    }
}

/// The number of records that fill a batch.
pub open spec fn effective_batch_size(batch_size: usize) -> nat {
    if batch_size == 0 {
        1
    } else {
        batch_size as nat
    }
}

/// A group of consecutively numbered records that is validated as one unit
/// of work.
pub struct Batch {
    /// Position of the batch among the batches of the run, from zero.
    pub sequence: usize,
    /// The records, each with its number.
    pub lines: Vec<(usize, Vec<u8>)>,
}

/// Numbers the records of a run in the order in which they are read and
/// groups them into batches.
pub struct BatchDispatcher {
    batch: Vec<(usize, Vec<u8>)>,
    batch_size: usize,
    line_number: usize,
    dispatched: usize,
}

impl BatchDispatcher {
    /// The number of records taken so far. The next record gets the
    /// following number.
    pub closed spec fn records_seen(&self) -> nat {
        self.line_number as nat
    }

    /// The number of batches handed out so far.
    pub closed spec fn batches_sent(&self) -> nat {
        self.dispatched as nat
    }

    /// The records that wait for their batch to fill.
    pub closed spec fn pending(&self) -> Seq<(usize, Seq<u8>)> {
        numbered_views(self.batch@)
    }

    /// The configured batch size.
    pub closed spec fn batch_size(&self) -> usize {
        self.batch_size
    }

    /// The waiting records are the last ones taken, fewer than fill a
    /// batch, and every batch handed out held at least one record.
    pub closed spec fn wf(&self) -> bool {
        &&& self.batch@.len() < effective_batch_size(self.batch_size)
        &&& self.dispatched + self.batch@.len() <= self.line_number
        &&& forall|i: int|
            0 <= i < self.batch@.len() ==> (#[trigger] self.batch@[i]).0 == self.line_number
                - self.batch@.len() + 1 + i
    }

    /// A dispatcher that has taken no record.
    pub fn new(batch_size: usize) -> (dispatcher: Self)
        ensures
            dispatcher.wf(),
            dispatcher.records_seen() == 0,
            dispatcher.batches_sent() == 0,
            dispatcher.pending() == Seq::<(usize, Seq<u8>)>::empty(),
            dispatcher.batch_size() == batch_size,
    {
        let dispatcher = Self { batch: Vec::new(), batch_size, line_number: 0, dispatched: 0 };
        assert(dispatcher.pending() =~= Seq::<(usize, Seq<u8>)>::empty());
        dispatcher
    }

    /// The number of records taken so far.
    pub fn records_taken(&self) -> (taken: usize)
        ensures
            taken == self.records_seen(),
    {
        self.line_number
    }

    /// Takes the next record and gives it the next number. Returns the batch
    /// that the record fills, if it fills one.
    pub fn push(&mut self, record: Vec<u8>) -> (full: Option<Batch>)
        requires
            old(self).wf(),
            old(self).records_seen() < usize::MAX,
        ensures
            final(self).wf(),
            final(self).batch_size() == old(self).batch_size(),
            final(self).records_seen() == old(self).records_seen() + 1,
            old(self).pending().len() + 1 >= effective_batch_size(old(self).batch_size()) ==> {
                &&& full is Some
                &&& full->Some_0.sequence == old(self).batches_sent()
                &&& numbered_views(full->Some_0.lines@) == old(self).pending().push(
                    ((old(self).records_seen() + 1) as usize, record@),
                )
                &&& final(self).pending() == Seq::<(usize, Seq<u8>)>::empty()
                &&& final(self).batches_sent() == old(self).batches_sent() + 1
            },
            old(self).pending().len() + 1 < effective_batch_size(old(self).batch_size()) ==> {
                &&& full is None
                &&& final(self).pending() == old(self).pending().push(
                    ((old(self).records_seen() + 1) as usize, record@),
                )
                &&& final(self).batches_sent() == old(self).batches_sent()
            },
    {
        self.line_number = self.line_number + 1;
        self.batch.push((self.line_number, record));
        assert(self.pending() =~= old(self).pending().push((self.line_number, record@)));
        if self.batch.len() >= self.batch_size {
            let mut lines: Vec<(usize, Vec<u8>)> = Vec::new();
            std::mem::swap(&mut lines, &mut self.batch);
            let sequence = self.dispatched;
            self.dispatched = self.dispatched + 1;
            assert(self.pending() =~= Seq::<(usize, Seq<u8>)>::empty());
            Some(Batch { sequence, lines })
        } else {
            None
        }
    }

    /// Ends the input. Returns the records that still wait, as a last batch
    /// that may be smaller than the others, if any record waits.
    pub fn finish(&mut self) -> (last: Option<Batch>)
        requires
            old(self).wf(),
        ensures
            final(self).wf(),
            final(self).batch_size() == old(self).batch_size(),
            final(self).records_seen() == old(self).records_seen(),
            final(self).pending() == Seq::<(usize, Seq<u8>)>::empty(),
            old(self).pending().len() == 0 ==> {
                &&& last is None
                &&& final(self).batches_sent() == old(self).batches_sent()
            },
            old(self).pending().len() > 0 ==> {
                &&& last is Some
                &&& last->Some_0.sequence == old(self).batches_sent()
                &&& numbered_views(last->Some_0.lines@) == old(self).pending()
                &&& final(self).batches_sent() == old(self).batches_sent() + 1
            },
    {
        if self.batch.is_empty() {
            assert(self.pending() =~= Seq::<(usize, Seq<u8>)>::empty());
            None
        } else {
            let mut lines: Vec<(usize, Vec<u8>)> = Vec::new();
            std::mem::swap(&mut lines, &mut self.batch);
            let sequence = self.dispatched;
            self.dispatched = self.dispatched + 1;
            assert(self.pending() =~= Seq::<(usize, Seq<u8>)>::empty());
            Some(Batch { sequence, lines })
        }
    }
}

/// What has arrived for batch `k`: the issues of every arrival with that
/// sequence number, in the order of arrival.
pub open spec fn slot(arrivals: Seq<(usize, Seq<IssueView>)>, k: int) -> Seq<IssueView>
    decreases arrivals.len(),
{
    if arrivals.len() == 0 {
        Seq::empty()
    } else {
        slot(arrivals.drop_last(), k) + if arrivals.last().0 == k {
            arrivals.last().1
        } else {
            Seq::empty()
        }
    }
}

/// One more than the greatest sequence number that has arrived; zero where
/// nothing has.
pub open spec fn width(arrivals: Seq<(usize, Seq<IssueView>)>) -> nat
    decreases arrivals.len(),
{
    if arrivals.len() == 0 {
        0
    } else if width(arrivals.drop_last()) > arrivals.last().0 {
        width(arrivals.drop_last())
    } else {
        (arrivals.last().0 + 1) as nat
    }
}

/// The issues in the order of the batches: what arrived for batch zero, then
/// what arrived for batch one, and so on.
pub open spec fn ordered_outcome(arrivals: Seq<(usize, Seq<IssueView>)>) -> Seq<IssueView> {
    Seq::new(width(arrivals), |k: int| slot(arrivals, k)).flatten()
}

/// The issues in the order of arrival.
pub open spec fn arrival_outcome(arrivals: Seq<(usize, Seq<IssueView>)>) -> Seq<IssueView> {
    arrivals.map_values(|arrival: (usize, Seq<IssueView>)| arrival.1).flatten()
}

/// Gathers the issue lists of the batches as they arrive, in whatever
/// order, and hands out all issues at the end: in the order of arrival, or,
/// where order is to be preserved, in the order of the batches.
pub struct IssueCollector {
    preserve_order: bool,
    slots: Vec<Vec<ValidationIssue>>,
    issues: Vec<ValidationIssue>,
    arrivals: Ghost<Seq<(usize, Seq<IssueView>)>>,
}

impl IssueCollector {
    /// What has arrived so far: sequence number and issues of each arrival.
    pub closed spec fn arrivals(&self) -> Seq<(usize, Seq<IssueView>)> {
        self.arrivals@
    }

    /// Whether the issues come out in the order of the batches.
    pub closed spec fn preserves_order(&self) -> bool {
        self.preserve_order
    }

    /// What is held is what has arrived.
    pub closed spec fn wf(&self) -> bool {
        if self.preserve_order {
            &&& self.issues@.len() == 0
            &&& self.slots@.len() == width(self.arrivals@)
            &&& forall|k: int|
                0 <= k < self.slots@.len() ==> issue_views((#[trigger] self.slots@[k])@) == slot(
                    self.arrivals@,
                    k,
                )
        } else {
            &&& self.slots@.len() == 0
            &&& issue_views(self.issues@) == arrival_outcome(self.arrivals@)
        }
    }

    /// A collector to which nothing has arrived.
    pub fn new(preserve_order: bool) -> (collector: Self)
        ensures
            collector.wf(),
            collector.preserves_order() == preserve_order,
            collector.arrivals() == Seq::<(usize, Seq<IssueView>)>::empty(),
    {
        let collector = Self {
            preserve_order,
            slots: Vec::new(),
            issues: Vec::new(),
            arrivals: Ghost(Seq::empty()),
        };
        assert(issue_views(collector.issues@) =~= arrival_outcome(collector.arrivals@));
        collector
    }

    /// Takes the issues of the batch with the given sequence number.
    pub fn accept(&mut self, sequence: usize, chunk: Vec<ValidationIssue>)
        requires
            old(self).wf(),
            sequence < usize::MAX,
        ensures
            final(self).wf(),
            final(self).preserves_order() == old(self).preserves_order(),
            final(self).arrivals() == old(self).arrivals().push((sequence, issue_views(chunk@))),
    {
        let ghost before = self.arrivals@;
        let ghost arrival = (sequence, issue_views(chunk@));
        let ghost after = before.push(arrival);
        let mut chunk = chunk;
        assert(after.drop_last() =~= before);
        if self.preserve_order {
            while self.slots.len() <= sequence
                invariant
                    sequence < usize::MAX,
                    self.preserve_order == old(self).preserve_order,
                    self.arrivals == old(self).arrivals,
                    self.issues@ == old(self).issues@,
                    self.slots@.len() >= old(self).slots@.len(),
                    self.slots@.len() <= old(self).slots@.len() || self.slots@.len() <= sequence
                        + 1,
                    forall|k: int|
                        0 <= k < old(self).slots@.len() ==> self.slots@[k] == old(self).slots@[k],
                    forall|k: int|
                        old(self).slots@.len() <= k < self.slots@.len() ==> (
                        #[trigger] self.slots@[k])@.len() == 0,
                decreases sequence + 1 - self.slots@.len(),
            {
                self.slots.push(Vec::new());
            }
            let ghost grown = self.slots@;
            proof {
                lemma_issue_views_concat(grown[sequence as int]@, chunk@);
            }
            self.slots[sequence].append(&mut chunk);
            self.arrivals = Ghost(after);
            proof {
                assert forall|k: int| 0 <= k < self.slots@.len() implies issue_views(
                    (#[trigger] self.slots@[k])@,
                ) == slot(after, k) by {
                    if k < old(self).slots@.len() {
                        assert(issue_views(old(self).slots@[k]@) == slot(before, k));
                    } else {
                        lemma_slot_beyond_width(before, k);
                        assert(issue_views(grown[k]@) =~= Seq::<IssueView>::empty());
                    }
                    if k == sequence {
                        assert(slot(after, k) == slot(before, k) + arrival.1);
                    } else {
                        assert(self.slots@[k] == grown[k]);
                        assert(slot(after, k) =~= slot(before, k));
                    }
                }
            }
        } else {
            proof {
                lemma_issue_views_concat(self.issues@, chunk@);
                let each = |arrival: (usize, Seq<IssueView>)| arrival.1;
                assert(after.map_values(each) =~= before.map_values(each).push(arrival.1));
                before.map_values(each).lemma_flatten_push(arrival.1);
            }
            self.issues.append(&mut chunk);
            self.arrivals = Ghost(after);
        }
    }

    /// All issues that have arrived: in the order of the batches where order
    /// is preserved, else in the order of arrival.
    pub fn finish(self) -> (issues: Vec<ValidationIssue>)
        requires
            self.wf(),
        ensures
            self.preserves_order() ==> issue_views(issues@) == ordered_outcome(self.arrivals()),
            !self.preserves_order() ==> issue_views(issues@) == arrival_outcome(self.arrivals()),
    {
        if self.preserve_order {
            let ghost per_slot = Seq::new(
                width(self.arrivals@),
                |k: int| slot(self.arrivals@, k),
            );
            let mut issues: Vec<ValidationIssue> = Vec::new();
            let mut slots = self.slots;
            let ghost all = slots@;
            let mut i: usize = 0;
            assert(per_slot.take(0) =~= Seq::<Seq<IssueView>>::empty());
            assert(issue_views(issues@) =~= per_slot.take(0).flatten());
            while i < slots.len()
                invariant
                    i <= slots.len(),
                    slots@.len() == all.len(),
                    all.len() == per_slot.len(),
                    forall|k: int| i <= k < all.len() ==> slots@[k] == all[k],
                    forall|k: int|
                        0 <= k < all.len() ==> issue_views((#[trigger] all[k])@) == per_slot[k],
                    issue_views(issues@) == per_slot.take(i as int).flatten(),
                decreases slots.len() - i,
            {
                let ghost before = issues@;
                let mut list: Vec<ValidationIssue> = Vec::new();
                std::mem::swap(&mut list, &mut slots[i]);
                issues.append(&mut list);
                proof {
                    lemma_issue_views_concat(before, all[i as int]@);
                    assert(per_slot.take(i as int + 1) =~= per_slot.take(i as int).push(
                        per_slot[i as int],
                    ));
                    per_slot.take(i as int).lemma_flatten_push(per_slot[i as int]);
                }
                i += 1;
            }
            assert(per_slot.take(per_slot.len() as int) =~= per_slot);
            issues
        } else {
            self.issues
        }
    }
}

/// Nothing has arrived for a batch whose number is beyond every sequence
/// number seen.
pub proof fn lemma_slot_beyond_width(arrivals: Seq<(usize, Seq<IssueView>)>, k: int)
    requires
        width(arrivals) <= k,
    ensures
        slot(arrivals, k) == Seq::<IssueView>::empty(),
    decreases arrivals.len(),
{
    if arrivals.len() > 0 {
        lemma_slot_beyond_width(arrivals.drop_last(), k);
    }
}

/// The number of batches that are under validation: those handed out whose
/// result has not come back.
pub open spec fn in_flight(sent: usize, received: usize) -> nat {
    if sent >= received {
        (sent - received) as nat
    } else {
        0
    }
}

/// Whether handing out the next batch has to wait for a result to come
/// back: it has to where a limit is set and as many batches as the limit
/// allows are under validation. A limit of zero is taken as one.
pub fn must_wait(sent: usize, received: usize, limit: Option<usize>) -> (wait: bool)
    ensures
        wait == (limit is Some && in_flight(sent, received) >= if limit->Some_0 == 0 {
            1
        } else {
            limit->Some_0
        }),
{
    match limit {
        Some(most) => {
            let allowed = if most == 0 {
                1
            } else {
                most
            };
            sent >= received && sent - received >= allowed
        },
        None => false,
    }
}

/// Whether every batch that was handed out has delivered its result. A run
/// that ends with a result missing has lost issues and must be given up.
pub fn all_delivered(sent: usize, received: usize) -> (done: bool)
    ensures
        done == (sent == received),
{
    sent == received
}

/// The arrivals came in the order of the batches: the first has sequence
/// number zero, the second one, and so on.
pub open spec fn in_sequence(arrivals: Seq<(usize, Seq<IssueView>)>) -> bool {
    forall|j: int| 0 <= j < arrivals.len() ==> (#[trigger] arrivals[j]).0 == j
}

/// One more arrival adds its issues behind those that arrived before.
pub proof fn lemma_arrival_outcome_push(
    arrivals: Seq<(usize, Seq<IssueView>)>,
    arrival: (usize, Seq<IssueView>),
)
    ensures
        arrival_outcome(arrivals.push(arrival)) == arrival_outcome(arrivals) + arrival.1,
{
    let each = |arrival: (usize, Seq<IssueView>)| arrival.1;
    assert(arrivals.push(arrival).map_values(each) =~= arrivals.map_values(each).push(arrival.1));
    arrivals.map_values(each).lemma_flatten_push(arrival.1);
}

proof fn lemma_in_sequence_slots(arrivals: Seq<(usize, Seq<IssueView>)>)
    requires
        in_sequence(arrivals),
    ensures
        width(arrivals) == arrivals.len(),
        forall|k: int| 0 <= k < arrivals.len() ==> slot(arrivals, k) == arrivals[k].1,
    decreases arrivals.len(),
{
    if arrivals.len() > 0 {
        let front = arrivals.drop_last();
        lemma_in_sequence_slots(front);
        assert forall|k: int| 0 <= k < arrivals.len() implies slot(arrivals, k)
            == arrivals[k].1 by {
            if k < front.len() {
                assert(slot(front, k) == front[k].1);
                assert(slot(arrivals, k) =~= slot(front, k));
            } else {
                lemma_slot_beyond_width(front, k);
                assert(slot(arrivals, k) =~= arrivals.last().1);
            }
        }
    }
}

/// Where the batches arrive in the order in which they were handed out,
/// preserving order changes nothing.
pub proof fn lemma_in_sequence_outcome(arrivals: Seq<(usize, Seq<IssueView>)>)
    requires
        in_sequence(arrivals),
    ensures
        ordered_outcome(arrivals) == arrival_outcome(arrivals),
{
    lemma_in_sequence_slots(arrivals);
    assert(Seq::new(width(arrivals), |k: int| slot(arrivals, k)) =~= arrivals.map_values(
        |arrival: (usize, Seq<IssueView>)| arrival.1,
    ));
}

/// The records of a run with their numbers: the first record read is number
/// one, and no number is left out.
pub open spec fn numbered(records: Seq<Seq<u8>>) -> Seq<(usize, Seq<u8>)> {
    Seq::new(records.len(), |i: int| ((i + 1) as usize, records[i]))
}

/// Validates all records of `input`: reads them, numbers them from one,
/// groups them into batches, validates each batch on a pool of
/// `options.threads` worker threads and collects the issues.
///
/// One batch is under validation at a time, so the issues come out in the
/// order of the records and, for one record, in the order of the validators,
/// whatever the options say: the batch size, the number of threads and the
/// buffer size change how the work is done and nothing of its result.
pub fn validate_bytes<V: Validator>(
    input: &[u8],
    validators: &[V],
    options: &ValidationOptions,
) -> (issues: Vec<ValidationIssue>)
    ensures
        issue_views(issues@) == batch_issues(validators@, numbered(split_records(input@))),
{
    let mut reader = OptimizedQuoteAwareReader::new(input, options.buffer_size);
    let mut dispatcher = BatchDispatcher::new(options.batch_size);
    let mut collector = IssueCollector::new(options.preserve_order);
    let workers = WorkerPool::new(options.threads);
    let ghost records = split_records(input@);
    let ghost all = numbered(records);
    proof {
        assert(input@.len() == input.len());
        assert(records.skip(0) =~= records);
        assert(dispatcher.pending() =~= all.subrange(0, 0));
        assert(all.take(0) =~= Seq::<(usize, Seq<u8>)>::empty());
        assert(batch_issues(validators@, all.take(0)) =~= Seq::<IssueView>::empty());
        assert(arrival_outcome(collector.arrivals()) =~= Seq::<IssueView>::empty());
    }
    loop
        invariant
            dispatcher.wf(),
            collector.wf(),
            records == split_records(input@),
            all == numbered(records),
            dispatcher.batch_size() == options.batch_size,
            collector.preserves_order() == options.preserve_order,
            dispatcher.records_seen() <= records.len(),
            dispatcher.records_seen() + reader.remaining().len() <= input@.len() <= usize::MAX,
            split_records(reader.remaining()) == records.skip(dispatcher.records_seen() as int),
            dispatcher.batches_sent() + dispatcher.pending().len() <= dispatcher.records_seen(),
            dispatcher.pending() == all.subrange(
                dispatcher.records_seen() - dispatcher.pending().len(),
                dispatcher.records_seen() as int,
            ),
            in_sequence(collector.arrivals()),
            collector.arrivals().len() == dispatcher.batches_sent(),
            arrival_outcome(collector.arrivals()) == batch_issues(
                validators@,
                all.take(dispatcher.records_seen() - dispatcher.pending().len()),
            ),
        decreases reader.remaining().len(),
    {
        let ghost rest = reader.remaining();
        let ghost seen = dispatcher.records_seen() as int;
        let ghost waiting = dispatcher.pending();
        let ghost arrived = collector.arrivals();
        match reader.next_logical_line() {
            Some(record) => {
                proof {
                    assert(rest.len() > 0);
                    lemma_after_first_record_shorter(rest);
                    assert(split_records(rest) =~= seq![first_record(rest)] + split_records(
                        after_first_record(rest),
                    ));
                    assert(records.skip(seen).len() > 0);
                    assert(split_records(rest)[0] == first_record(rest));
                    assert(records.skip(seen)[0] == records[seen]);
                    assert(split_records(after_first_record(rest)) =~= split_records(rest).skip(
                        1,
                    ));
                    assert(records.skip(seen).skip(1) =~= records.skip(seen + 1));
                    assert(all[seen] == ((seen + 1) as usize, record@));
                    assert(waiting.push(all[seen]) =~= all.subrange(
                        seen - waiting.len(),
                        seen + 1,
                    ));
                }
                match dispatcher.push(record) {
                    Some(batch) => {
                        let found = workers.run_batch(&batch.lines, validators);
                        collector.accept(batch.sequence, found);
                        proof {
                            lemma_arrival_outcome_push(
                                arrived,
                                (batch.sequence, issue_views(found@)),
                            );
                            lemma_batch_issues_concat(
                                validators@,
                                all.take(seen - waiting.len()),
                                all.subrange(seen - waiting.len(), seen + 1),
                            );
                            assert(all.take(seen - waiting.len()) + all.subrange(
                                seen - waiting.len(),
                                seen + 1,
                            ) =~= all.take(seen + 1));
                            assert(dispatcher.pending() =~= all.subrange(seen + 1, seen + 1));
                        }
                    },
                    None => {},
                }
            },
            None => {
                proof {
                    assert(records.skip(seen).len() == 0);
                }
                match dispatcher.finish() {
                    Some(batch) => {
                        let found = workers.run_batch(&batch.lines, validators);
                        collector.accept(batch.sequence, found);
                        proof {
                            lemma_arrival_outcome_push(
                                arrived,
                                (batch.sequence, issue_views(found@)),
                            );
                            lemma_batch_issues_concat(
                                validators@,
                                all.take(seen - waiting.len()),
                                all.subrange(seen - waiting.len(), seen),
                            );
                            assert(all.take(seen - waiting.len()) + all.subrange(
                                seen - waiting.len(),
                                seen,
                            ) =~= all);
                        }
                    },
                    None => {
                        assert(all.take(seen) =~= all);
                    },
                }
                proof {
                    lemma_in_sequence_outcome(collector.arrivals());
                }
                return collector.finish();
            },
        }
    }
}

} // verus!
