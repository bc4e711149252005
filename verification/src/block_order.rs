//! Ordering restoration: results of the blocks of a corpus that workers hand
//! in, in whatever order they complete, are put back into the order of the
//! blocks before the records leave.

use crate::benchmark_runner::{collected, record};
use crate::corpus::{block_numbers, Corpus};
use crate::executor::{ExecutionReport, ExecutorError};
use crate::metrics::{metrics_views, MetricsView, WorkloadMetrics};
use vstd::prelude::*;

verus! {

/// A result that a worker handed in: the place of the block in its corpus,
/// and what the backend answered for it.
pub type Completion = (usize, Result<ExecutionReport, ExecutorError>);

/// The place in `completed` of the first result for block `block`, or -1
/// where there is none.
pub open spec fn completion_of(completed: Seq<Completion>, block: int) -> int
    decreases completed.len(),
{
    if completed.len() == 0 {
        -1
    } else {
        let before = completion_of(completed.drop_last(), block);
        if before >= 0 {
            before
        } else if completed.last().0 == block {
            completed.len() - 1
        } else {
            -1
        }
    }
}

/// There is one result per block: as many results as blocks, and a result
/// for every block.
pub open spec fn is_complete(blocks: nat, completed: Seq<Completion>) -> bool {
    &&& completed.len() == blocks
    &&& forall|i: int| 0 <= i < blocks ==> #[trigger] completion_of(completed, i) >= 0
}

/// The answers of the backend in the order of the blocks, whatever the order
/// in which they were handed in.
pub open spec fn in_block_order(blocks: nat, completed: Seq<Completion>) -> Seq<
    Result<ExecutionReport, ExecutorError>,
> {
    Seq::new(blocks, |i: int| completed[completion_of(completed, i)].1)
}

/// Where `completion_of` is not negative it is the place of a result for the
/// block, and no result before it is for that block; where it is negative
/// there is no result for the block.
pub proof fn lemma_completion_of(completed: Seq<Completion>, block: int)
    ensures
        -1 <= completion_of(completed, block) < completed.len(),
        completion_of(completed, block) >= 0 ==> completed[completion_of(completed, block)].0
            == block,
        forall|k: int|
            0 <= k < completed.len() && (completion_of(completed, block) < 0 || k < completion_of(
                completed,
                block,
            )) ==> (#[trigger] completed[k]).0 != block,
    decreases completed.len(),
{
    if completed.len() > 0 {
        let front = completed.drop_last();
        lemma_completion_of(front, block);
        assert forall|k: int|
            0 <= k < completed.len() && (completion_of(completed, block) < 0 || k < completion_of(
                completed,
                block,
            )) implies (#[trigger] completed[k]).0 != block by {
            if k < front.len() {
                assert(front[k] == completed[k]);
            }
        }
    }
}

/// With one result per block, every result is for a block of the corpus and
/// is the only result for that block, so it stands at its block's place in
/// `in_block_order`.
pub proof fn lemma_complete_is_permutation(blocks: nat, completed: Seq<Completion>)
    requires
        is_complete(blocks, completed),
    ensures
        forall|k: int| 0 <= k < completed.len() ==> 0 <= (#[trigger] completed[k]).0 < blocks,
        forall|k: int|
            0 <= k < completed.len() ==> completion_of(
                completed,
                (#[trigger] completed[k]).0 as int,
            ) == k,
        forall|k: int|
            0 <= k < completed.len() ==> in_block_order(
                blocks,
                completed,
            )[(#[trigger] completed[k]).0 as int] == completed[k].1,
{
    let n = blocks as int;
    let place = |i: int| completion_of(completed, i);
    let all = vstd::set_lib::set_int_range(0, n);
    let image = all.map(place);
    vstd::set_lib::lemma_int_range(0, n);
    assert forall|i: int| 0 <= i < n implies 0 <= #[trigger] place(i) < n && completed[place(i)].0
        == i by {
        assert(completion_of(completed, i) >= 0);
        lemma_completion_of(completed, i);
    }
    assert(vstd::relations::injective_on(place, all)) by {
        assert forall|a: int, b: int|
            all.contains(a) && all.contains(b) && #[trigger] place(a) == #[trigger] place(
                b,
            ) implies a == b by {
            assert(completed[place(a)].0 == a);
            assert(completed[place(b)].0 == b);
        }
    }
    vstd::set_lib::lemma_map_size(all, image, place);
    assert(image.subset_of(all)) by {
        assert forall|k: int| image.contains(k) implies all.contains(k) by {
            let i = choose|i: int| all.contains(i) && k == place(i);
            assert(0 <= place(i) < n);
        }
    }
    vstd::set_lib::lemma_subset_equality(image, all);
    assert forall|k: int| 0 <= k < completed.len() implies {
        &&& 0 <= (#[trigger] completed[k]).0 < blocks
        &&& completion_of(completed, completed[k].0 as int) == k
        &&& in_block_order(blocks, completed)[completed[k].0 as int] == completed[k].1
    } by {
        assert(all.contains(k));
        assert(image.contains(k));
        let i = choose|i: int| all.contains(i) && k == place(i);
        assert(completed[place(i)].0 == i);
    }
}

/// The place of the first result for block `block`, if there is one.
fn find_completion(completed: &Vec<Completion>, block: usize) -> (r: Option<usize>)
    ensures
        match r {
            Some(k) => completion_of(completed@, block as int) == k && k < completed@.len(),
            None => completion_of(completed@, block as int) < 0,
        },
{
    let mut k: usize = 0;
    proof {
        assert(completed@.take(0) =~= Seq::<Completion>::empty());
    }
    while k < completed.len()
        invariant
            k <= completed@.len(),
            completion_of(completed@.take(k as int), block as int) < 0,
        decreases completed@.len() - k,
    {
        proof {
            assert(completed@.take(k + 1).drop_last() =~= completed@.take(k as int));
            assert(completed@.take(k + 1).last() == completed@[k as int]);
        }
        if completed[k].0 == block {
            proof {
                lemma_found_stays(completed@, k as int, block as int);
            }
            return Some(k);
        }
        k += 1;
    }
    proof {
        assert(completed@.take(k as int) =~= completed@);
    }
    None
}

/// A result that is the first for its block among the first `k + 1` results
/// is the first for its block among all.
proof fn lemma_found_stays(completed: Seq<Completion>, k: int, block: int)
    requires
        0 <= k < completed.len(),
        completion_of(completed.take(k + 1), block) == k,
    ensures
        completion_of(completed, block) == k,
    decreases completed.len(),
{
    if completed.len() > k + 1 {
        let front = completed.drop_last();
        assert(front.take(k + 1) =~= completed.take(k + 1));
        lemma_found_stays(front, k, block);
    } else {
        assert(completed.take(k + 1) =~= completed);
    }
}

/// A copy of an error.
fn copy_error(e: &ExecutorError) -> (r: ExecutorError)
    ensures
        r == *e,
{
    match e {
        ExecutorError::Setup(message) => ExecutorError::Setup(message.clone()),
        ExecutorError::Execution(message) => ExecutorError::Execution(message.clone()),
        ExecutorError::Timeout(message) => ExecutorError::Timeout(message.clone()),
    }
}

/// Puts the results of a corpus that workers handed in, in whatever order
/// they completed, back into the order of the blocks, and gathers the
/// records as a run in block order would have.
///
/// Returns `None` unless there is one result per block. Otherwise returns
/// what the answers come to in block order: one record per block, the record
/// of block `i` at place `i`; or the error of the first block, in block
/// order, on which the backend failed.
pub fn collect_in_block_order<P, N>(corpus: &Corpus<P, N>, completed: &Vec<Completion>) -> (r:
    Option<Result<Vec<WorkloadMetrics>, ExecutorError>>)
    ensures
        match r {
            None => !is_complete(corpus@.blocks.len(), completed@),
            Some(Ok(metrics)) => is_complete(corpus@.blocks.len(), completed@) && collected(
                corpus@.name,
                block_numbers(corpus@.blocks),
                in_block_order(corpus@.blocks.len(), completed@),
            ) == Ok::<Seq<MetricsView>, ExecutorError>(metrics_views(metrics@)),
            Some(Err(e)) => is_complete(corpus@.blocks.len(), completed@) && collected(
                corpus@.name,
                block_numbers(corpus@.blocks),
                in_block_order(corpus@.blocks.len(), completed@),
            ) == Err::<Seq<MetricsView>, ExecutorError>(e),
        },
{
    let blocks = corpus.blocks_and_witnesses();
    let name = corpus.name();
    let n = blocks.len();
    if completed.len() != n {
        return None;
    }
    let mut places: Vec<usize> = Vec::new();
    let mut i: usize = 0;
    while i < n
        invariant
            i <= n,
            n == blocks@.len(),
            completed@.len() == n,
            places@.len() == i,
            forall|j: int| 0 <= j < i ==> completion_of(completed@, j) == #[trigger] places@[j],
        decreases n - i,
    {
        match find_completion(completed, i) {
            Some(k) => {
                places.push(k);
            },
            None => {
                return None;
            },
        }
        i += 1;
    }
    let ghost numbers = block_numbers(blocks@);
    let ghost ordered = in_block_order(n as nat, completed@);
    let mut metrics: Vec<WorkloadMetrics> = Vec::new();
    let mut i: usize = 0;
    proof {
        assert(metrics_views(metrics@) =~= Seq::<MetricsView>::empty());
        assert(ordered.take(0) =~= Seq::<Result<ExecutionReport, ExecutorError>>::empty());
        assert forall|j: int| 0 <= j < n implies #[trigger] completion_of(completed@, j) >= 0 by {
            assert(completion_of(completed@, j) == places@[j]);
        }
    }
    while i < n
        invariant
            i <= n,
            n == blocks@.len(),
            completed@.len() == n,
            places@.len() == n,
            name@ == corpus@.name,
            blocks@ == corpus@.blocks,
            numbers == block_numbers(blocks@),
            ordered == in_block_order(n as nat, completed@),
            is_complete(n as nat, completed@),
            forall|j: int| 0 <= j < n ==> completion_of(completed@, j) == #[trigger] places@[j],
            collected(name@, numbers, ordered.take(i as int)) == Ok::<
                Seq<MetricsView>,
                ExecutorError,
            >(metrics_views(metrics@)),
        decreases n - i,
    {
        let ghost done = metrics_views(metrics@);
        proof {
            assert(ordered.take(i + 1).drop_last() =~= ordered.take(i as int));
            assert(ordered.take(i + 1).last() == ordered[i as int]);
            assert(completion_of(completed@, i as int) == places@[i as int]);
            lemma_completion_of(completed@, i as int);
        }
        match &completed[places[i]].1 {
            Ok(report) => {
                let entry = record(name, blocks[i].block_number, report);
                metrics.push(entry);
                proof {
                    assert(numbers[i as int] == blocks@[i as int].block_number);
                    assert(metrics_views(metrics@) =~= done.push(entry@));
                }
            },
            Err(e) => {
                let error = copy_error(e);
                proof {
                    lemma_failure_stays(name@, numbers, ordered, i + 1);
                }
                return Some(Err(error));
            },
        }
        i += 1;
    }
    proof {
        assert(ordered.take(i as int) =~= ordered);
    }
    Some(Ok(metrics))
}

/// A run that has failed after its first `k` answers has failed for good,
/// with the same error.
pub proof fn lemma_failure_stays(
    corpus_name: Seq<char>,
    numbers: Seq<u64>,
    outcomes: Seq<Result<ExecutionReport, ExecutorError>>,
    k: int,
)
    requires
        0 <= k <= outcomes.len(),
        collected(corpus_name, numbers, outcomes.take(k)) is Err,
    ensures
        collected(corpus_name, numbers, outcomes) == collected(corpus_name, numbers, outcomes.take(k)),
    decreases outcomes.len(),
{
    if k < outcomes.len() {
        let front = outcomes.drop_last();
        assert(front.take(k) =~= outcomes.take(k));
        lemma_failure_stays(corpus_name, numbers, front, k);
    } else {
        assert(outcomes.take(k) =~= outcomes);
    }
}

} // verus!
