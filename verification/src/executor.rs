//! Running every validator against every record of a batch.

use crate::issue::{
    issue_views, lemma_issue_views_concat, IssueView, ValidationIssue,
};
use crate::validator::Validator;
use rayon::iter::IntoParallelRefIterator;
use rayon::iter::ParallelIterator;
use rayon::ThreadPool;
use rayon::ThreadPoolBuilder;
use vstd::prelude::*;

verus! {

/// The contents of a batch: each record's number and bytes.
pub open spec fn numbered_views(lines: Seq<(usize, Vec<u8>)>) -> Seq<(usize, Seq<u8>)> {
    lines.map_values(|line: (usize, Vec<u8>)| (line.0, line.1@))
}

/// The issues of one record: those of the first validator, then those of the
/// second, and so on in the order in which the validators were configured.
pub open spec fn record_issues<V: Validator>(validators: Seq<V>, record: (usize, Seq<u8>)) -> Seq<
    IssueView,
> {
    validators.map_values(|validator: V| validator.issues_for(record.1, record.0)).flatten()
}

/// The issues of a batch: those of its first record, then those of its
/// second, and so on.
pub open spec fn batch_issues<V: Validator>(validators: Seq<V>, batch: Seq<(usize, Seq<u8>)>)
    -> Seq<IssueView> {
    batch.map_values(|record: (usize, Seq<u8>)| record_issues(validators, record)).flatten()
}

/// The issues of a batch with one more record are those of the batch
/// followed by those of the record.
pub proof fn lemma_batch_issues_push<V: Validator>(
    validators: Seq<V>,
    batch: Seq<(usize, Seq<u8>)>,
    record: (usize, Seq<u8>),
)
    ensures
        batch_issues(validators, batch.push(record)) == batch_issues(validators, batch)
            + record_issues(validators, record),
{
    let per_record = batch.map_values(
        |record: (usize, Seq<u8>)| record_issues(validators, record),
    );
    assert(batch.push(record).map_values(
        |record: (usize, Seq<u8>)| record_issues(validators, record),
    ) =~= per_record.push(record_issues(validators, record)));
    per_record.lemma_flatten_push(record_issues(validators, record));
}

/// The issues of two batches laid end to end are the issues of the first
/// followed by those of the second.
pub proof fn lemma_batch_issues_concat<V: Validator>(
    validators: Seq<V>,
    left: Seq<(usize, Seq<u8>)>,
    right: Seq<(usize, Seq<u8>)>,
)
    ensures
        batch_issues(validators, left + right) == batch_issues(validators, left) + batch_issues(
            validators,
            right,
        ),
{
    let each = |record: (usize, Seq<u8>)| record_issues(validators, record);
    assert((left + right).map_values(each) =~= left.map_values(each) + right.map_values(each));
    vstd::seq_lib::lemma_flatten_concat(left.map_values(each), right.map_values(each));
}

/// Runs every validator against one record and returns what they report.
pub fn validate_record<V: Validator>(validators: &[V], line: &[u8], line_number: usize) -> (issues:
    Vec<ValidationIssue>)
    ensures
        issue_views(issues@) == record_issues(validators@, (line_number, line@)),
{
    let mut issues: Vec<ValidationIssue> = Vec::new();
    let ghost each = |validator: V| validator.issues_for(line@, line_number);
    let mut i: usize = 0;
    assert(validators@.take(0).map_values(each) =~= Seq::<Seq<IssueView>>::empty());
    assert(issue_views(issues@) =~= validators@.take(0).map_values(each).flatten());
    while i < validators.len()
        invariant
            i <= validators.len(),
            each == |validator: V| validator.issues_for(line@, line_number),
            issue_views(issues@) == validators@.take(i as int).map_values(each).flatten(),
        decreases validators.len() - i,
    {
        validators[i].validate(line, line_number, &mut issues);
        proof {
            let done = validators@.take(i as int).map_values(each);
            assert(validators@.take(i as int + 1).map_values(each) =~= done.push(
                each(validators@[i as int]),
            ));
            done.lemma_flatten_push(each(validators@[i as int]));
        }
        i += 1;
    }
    assert(validators@.take(validators.len() as int) =~= validators@);
    issues
}

/// Moves the issues of every list of `lists`, in order, behind those of `issues`.
fn append_all(issues: &mut Vec<ValidationIssue>, lists: Vec<Vec<ValidationIssue>>)
    ensures
        issue_views(final(issues)@) == issue_views(old(issues)@) + lists@.map_values(
            |list: Vec<ValidationIssue>| issue_views(list@),
        ).flatten(),
{
    let ghost each = |list: Vec<ValidationIssue>| issue_views(list@);
    let ghost all = lists@;
    let mut lists = lists;
    let mut i: usize = 0;
    assert(all.take(0).map_values(each) =~= Seq::<Seq<IssueView>>::empty());
    assert(issue_views(issues@) =~= issue_views(old(issues)@) + all.take(0).map_values(
        each,
    ).flatten());
    while i < lists.len()
        invariant
            i <= lists.len(),
            lists@.len() == all.len(),
            each == |list: Vec<ValidationIssue>| issue_views(list@),
            forall|j: int| i <= j < all.len() ==> lists@[j] == all[j],
            issue_views(issues@) == issue_views(old(issues)@) + all.take(i as int).map_values(
                each,
            ).flatten(),
        decreases lists.len() - i,
    {
        let ghost before = issues@;
        let mut list: Vec<ValidationIssue> = Vec::new();
        std::mem::swap(&mut list, &mut lists[i]);
        issues.append(&mut list);
        proof {
            lemma_issue_views_concat(before, all[i as int]@);
            let done = all.take(i as int).map_values(each);
            assert(all.take(i as int + 1).map_values(each) =~= done.push(each(all[i as int])));
            done.lemma_flatten_push(each(all[i as int]));
        }
        i += 1;
    }
    assert(all.take(all.len() as int) =~= all);
}

/// `rayon`'s `par_iter().map(..).collect()` over the records of a batch:
/// the result holds, at each record's place, what `validate_record` returns
/// for that record, whichever thread ran it.
#[verifier::external_body]
fn validate_records_in_parallel<V: Validator>(
    lines: &Vec<(usize, Vec<u8>)>,
    validators: &[V],
) -> (per_record: Vec<Vec<ValidationIssue>>)
    ensures
        per_record@.len() == lines@.len(),
        forall|i: int|
            0 <= i < lines@.len() ==> issue_views((#[trigger] per_record@[i])@) == record_issues(
                validators@,
                (lines@[i].0, lines@[i].1@),
            ),
{
    lines.par_iter().map(|line| validate_record(validators, line.1.as_slice(), line.0)).collect()
}

/// Validates a batch on the calling thread: every validator against every
/// record, record by record.
pub fn process_batch<V: Validator>(lines: &Vec<(usize, Vec<u8>)>, validators: &[V]) -> (issues:
    Vec<ValidationIssue>)
    ensures
        issue_views(issues@) == batch_issues(validators@, numbered_views(lines@)),
{
    let mut issues: Vec<ValidationIssue> = Vec::new();
    let ghost batch = numbered_views(lines@);
    let mut i: usize = 0;
    assert(batch_issues(validators@, batch.take(0)) =~= Seq::<IssueView>::empty());
    assert(issue_views(issues@) =~= batch_issues(validators@, batch.take(0)));
    while i < lines.len()
        invariant
            i <= lines.len(),
            batch == numbered_views(lines@),
            issue_views(issues@) == batch_issues(validators@, batch.take(i as int)),
        decreases lines.len() - i,
    {
        let ghost before = issues@;
        let mut found = validate_record(validators, lines[i].1.as_slice(), lines[i].0);
        issues.append(&mut found);
        proof {
            lemma_issue_views_concat(before, found@);
            lemma_batch_issues_push(validators@, batch.take(i as int), batch[i as int]);
            assert(batch.take(i as int + 1) =~= batch.take(i as int).push(batch[i as int]));
        }
        i += 1;
    }
    assert(batch.take(lines.len() as int) =~= batch);
    issues
}

/// Validates a batch with its records spread over the threads of the
/// current pool. The result is the same as that of [`process_batch`]: the
/// issues stand in the order of the records, whichever record was finished
/// first.
pub fn execute_validators<V: Validator>(lines: &Vec<(usize, Vec<u8>)>, validators: &[V]) -> (issues:
    Vec<ValidationIssue>)
    ensures
        issue_views(issues@) == batch_issues(validators@, numbered_views(lines@)),
{
    let per_record = validate_records_in_parallel(lines, validators);
    let mut issues: Vec<ValidationIssue> = Vec::new();
    proof {
        let each = |list: Vec<ValidationIssue>| issue_views(list@);
        let per = |record: (usize, Seq<u8>)| record_issues(validators@, record);
        assert(per_record@.map_values(each) =~= numbered_views(lines@).map_values(per));
    }
    append_all(&mut issues, per_record);
    issues
}

/// `rayon::ThreadPool`, a set of worker threads. Nothing inside it is
/// visible to proofs.
#[verifier::external_type_specification]
#[verifier::external_body]
pub struct ExThreadPool(ThreadPool);

/// The number of worker threads that `pool` was started with.
pub uninterp spec fn pool_threads(pool: ThreadPool) -> nat;

/// `ThreadPoolBuilder::build` for a pool of `threads` threads, or of as many
/// as `rayon` chooses where `threads` is zero. Whether the threads can be
/// started is up to the system, so no pool is promised; a pool that was
/// asked to have a non-zero number of threads has at most that many.
#[verifier::external_body]
fn build_pool(threads: usize) -> (pool: Option<ThreadPool>)
    ensures
        threads > 0 && pool is Some ==> pool_threads(pool->Some_0) <= threads,
{
    ThreadPoolBuilder::new().num_threads(threads).build().ok()
}

/// `ThreadPool::current_num_threads`: the number of threads in the pool.
#[verifier::external_body]
fn pool_size(pool: &ThreadPool) -> (n: usize)
    ensures
        n == pool_threads(*pool),
{
    pool.current_num_threads()
}

/// `ThreadPool::install`: runs [`execute_validators`] on the threads of
/// `pool` and returns what it returns.
#[verifier::external_body]
fn install_batch<V: Validator>(
    pool: &ThreadPool,
    lines: &Vec<(usize, Vec<u8>)>,
    validators: &[V],
) -> (issues: Vec<ValidationIssue>)
    ensures
        issue_views(issues@) == batch_issues(validators@, numbered_views(lines@)),
{
    pool.install(|| execute_validators(lines, validators))
}

/// A bounded set of worker threads that all batches of a run share.
pub struct WorkerPool {
    pool: Option<ThreadPool>,
}

impl WorkerPool {
    /// The number of worker threads of the pool; none where the pool is
    /// empty.
    pub closed spec fn worker_threads(&self) -> nat {
        match self.pool {
            Some(pool) => pool_threads(pool),
            None => 0,
        }
    }

    /// A pool of at most `threads` threads; zero leaves the number to
    /// `rayon`. Where the system does not start the threads the pool is
    /// empty, and batches are validated on the thread that hands them in.
    pub fn new(threads: usize) -> (workers: Self)
        ensures
            threads > 0 ==> workers.worker_threads() <= threads,
    {
        Self { pool: build_pool(threads) }
    }

    /// The number of worker threads of the pool.
    pub fn thread_count(&self) -> (n: usize)
        ensures
            n == self.worker_threads(),
    {
        match &self.pool {
            Some(pool) => pool_size(pool),
            None => 0,
        }
    }

    /// Validates a batch on the threads of the pool. The result does not
    /// depend on the number of threads: it is that of [`process_batch`].
    pub fn run_batch<V: Validator>(
        &self,
        lines: &Vec<(usize, Vec<u8>)>,
        validators: &[V],
    ) -> (issues: Vec<ValidationIssue>)
        ensures
            issue_views(issues@) == batch_issues(validators@, numbered_views(lines@)),
    {
        match &self.pool {
            Some(pool) => install_batch(pool, lines, validators),
            None => process_batch(lines, validators),
        }
    }
}

} // verus!
