//! The benchmark orchestrator: runs the blocks of a corpus through a backend,
//! in order, and gathers one metrics record per block.

use crate::corpus::{block_numbers, BlockWitnessPair, Corpus};
use crate::executor::{ExecutionReport, ExecutorError};
use crate::metrics::{
    is_pretty_json_of, metrics_views, parsed_metrics, MetricsView, WorkloadMetrics,
};
use crate::text::{decimal, decimal_string, ends_with};
use vstd::prelude::*;

verus! {

/// The name under which the metrics of a block are kept: the corpus name, a
/// hyphen, and the block number in decimal.
pub open spec fn workload_name_of(corpus_name: Seq<char>, block_number: u64) -> Seq<char> {
    corpus_name + seq!['-'] + decimal(block_number as nat)
}

/// The metrics record of a block, from what the backend reported for it.
pub open spec fn report_metrics(
    corpus_name: Seq<char>,
    block_number: u64,
    report: ExecutionReport,
) -> MetricsView {
    MetricsView {
        name: workload_name_of(corpus_name, block_number),
        total_num_cycles: report.total_num_cycles,
        region_cycles: report.region_cycles@,
    }
}

/// What the run of a corpus comes to, given what the backend answered for its
/// first blocks, in order: one record per block while the backend reports,
/// and the first error that it answers instead.
pub open spec fn collected(
    corpus_name: Seq<char>,
    numbers: Seq<u64>,
    outcomes: Seq<Result<ExecutionReport, ExecutorError>>,
) -> Result<Seq<MetricsView>, ExecutorError>
    decreases outcomes.len(),
{
    if outcomes.len() == 0 {
        Ok(Seq::empty())
    } else {
        match collected(corpus_name, numbers, outcomes.drop_last()) {
            Err(e) => Err(e),
            Ok(done) => match outcomes.last() {
                Ok(report) => Ok(
                    done.push(report_metrics(corpus_name, numbers[outcomes.len() - 1], report)),
                ),
                Err(e) => Err(e),
            },
        }
    }
}

/// Every one of the first answers is a report, and `metrics` holds the record
/// of each block at the block's own place.
pub open spec fn all_recorded(
    corpus_name: Seq<char>,
    numbers: Seq<u64>,
    outcomes: Seq<Result<ExecutionReport, ExecutorError>>,
    metrics: Seq<MetricsView>,
) -> bool {
    &&& metrics.len() == outcomes.len()
    &&& forall|i: int|
        0 <= i < outcomes.len() ==> (#[trigger] outcomes[i]) is Ok && metrics[i] == report_metrics(
            corpus_name,
            numbers[i],
            outcomes[i]->Ok_0,
        )
}

/// `e` is the first error among the answers.
pub open spec fn first_failure(
    outcomes: Seq<Result<ExecutionReport, ExecutorError>>,
    e: ExecutorError,
) -> bool {
    exists|k: int|
        {
            &&& 0 <= k < outcomes.len()
            &&& #[trigger] outcomes[k] == Err::<ExecutionReport, ExecutorError>(e)
            &&& forall|j: int| 0 <= j < k ==> (#[trigger] outcomes[j]) is Ok
        }
}

/// What `collected` comes to, spelled out. It is `Ok` exactly when every
/// answer is a report, and then holds the record of each block at the
/// block's own place. Otherwise it is the first error among the answers.
pub proof fn lemma_collected(
    corpus_name: Seq<char>,
    numbers: Seq<u64>,
    outcomes: Seq<Result<ExecutionReport, ExecutorError>>,
)
    ensures
        match collected(corpus_name, numbers, outcomes) {
            Ok(metrics) => all_recorded(corpus_name, numbers, outcomes, metrics),
            Err(e) => first_failure(outcomes, e),
        },
    decreases outcomes.len(),
{
    if outcomes.len() > 0 {
        let front = outcomes.drop_last();
        lemma_collected(corpus_name, numbers, front);
        match collected(corpus_name, numbers, front) {
            Ok(done) => {
                match outcomes.last() {
                    Ok(report) => {
                        let metrics = collected(corpus_name, numbers, outcomes)->Ok_0;
                        assert forall|i: int| 0 <= i < outcomes.len() implies (#[trigger] outcomes[i]) is Ok
                            && metrics[i] == report_metrics(
                            corpus_name,
                            numbers[i],
                            outcomes[i]->Ok_0,
                        ) by {
                            if i < front.len() {
                                assert(front[i] == outcomes[i]);
                            }
                        }
                    },
                    Err(e) => {
                        let k = outcomes.len() - 1;
                        assert(outcomes[k] == Err::<ExecutionReport, ExecutorError>(e));
                        assert forall|j: int| 0 <= j < k implies (#[trigger] outcomes[j]) is Ok by {
                            assert(front[j] == outcomes[j]);
                        }
                    },
                }
            },
            Err(e) => {
                let k = choose|k: int|
                    {
                        &&& 0 <= k < front.len()
                        &&& #[trigger] front[k] == Err::<ExecutionReport, ExecutorError>(e)
                        &&& forall|j: int| 0 <= j < k ==> (#[trigger] front[j]) is Ok
                    };
                assert(outcomes[k] == front[k]);
                assert forall|j: int| 0 <= j < k implies (#[trigger] outcomes[j]) is Ok by {
                    assert(front[j] == outcomes[j]);
                }
            },
        }
    }
}

/// Order preservation. Where the run of a corpus ends well, there is one
/// record per block, and the record at place `i` is that of block `i`: its
/// name is the corpus name, a hyphen and the number of block `i`, so it ends
/// with that number.
pub proof fn lemma_order_preserved(
    corpus_name: Seq<char>,
    numbers: Seq<u64>,
    outcomes: Seq<Result<ExecutionReport, ExecutorError>>,
)
    requires
        outcomes.len() == numbers.len(),
        collected(corpus_name, numbers, outcomes) is Ok,
    ensures
        collected(corpus_name, numbers, outcomes)->Ok_0.len() == numbers.len(),
        forall|i: int|
            0 <= i < numbers.len() ==> (#[trigger] collected(
                corpus_name,
                numbers,
                outcomes,
            )->Ok_0[i]).name == workload_name_of(corpus_name, numbers[i]),
        forall|i: int|
            0 <= i < numbers.len() ==> ends_with(
                (#[trigger] collected(corpus_name, numbers, outcomes)->Ok_0[i]).name,
                decimal(numbers[i] as nat),
            ),
{
    lemma_collected(corpus_name, numbers, outcomes);
    let metrics = collected(corpus_name, numbers, outcomes)->Ok_0;
    assert forall|i: int| 0 <= i < numbers.len() implies (#[trigger] metrics[i]).name
        == workload_name_of(corpus_name, numbers[i]) && ends_with(
        metrics[i].name,
        decimal(numbers[i] as nat),
    ) by {
        assert(outcomes[i] is Ok);
        let name = workload_name_of(corpus_name, numbers[i]);
        let numeral = decimal(numbers[i] as nat);
        assert(name.subrange(name.len() - numeral.len(), name.len() as int) =~= numeral);
    }
}

/// Degraded metrics are accepted. Where the backend answers every block with
/// a report, the run ends well whatever the reports hold; reports without any
/// region give records without any region.
pub proof fn lemma_degraded_accepted(
    corpus_name: Seq<char>,
    numbers: Seq<u64>,
    outcomes: Seq<Result<ExecutionReport, ExecutorError>>,
)
    requires
        forall|i: int| 0 <= i < outcomes.len() ==> (#[trigger] outcomes[i]) is Ok,
    ensures
        collected(corpus_name, numbers, outcomes) is Ok,
        collected(corpus_name, numbers, outcomes)->Ok_0.len() == outcomes.len(),
        forall|i: int|
            0 <= i < outcomes.len() && (#[trigger] outcomes[i])->Ok_0.region_cycles@ == Map::<
                Seq<char>,
                u64,
            >::empty() ==> collected(corpus_name, numbers, outcomes)->Ok_0[i].region_cycles
                == Map::<Seq<char>, u64>::empty(),
{
    lemma_collected(corpus_name, numbers, outcomes);
    if collected(corpus_name, numbers, outcomes) is Err {
        let e = collected(corpus_name, numbers, outcomes)->Err_0;
        let k = choose|k: int|
            0 <= k < outcomes.len() && #[trigger] outcomes[k] == Err::<ExecutionReport, ExecutorError>(
                e,
            );
        assert(outcomes[k] is Ok);
    }
}

/// The name of the metrics of a block.
pub fn workload_name(corpus_name: &str, block_number: u64) -> (r: String)
    ensures
        r@ == workload_name_of(corpus_name@, block_number),
{
    let mut r = String::from_str(corpus_name);
    proof {
        reveal_strlit("-");
        assert("-"@ =~= seq!['-']);
    }
    r.append("-");
    let number = decimal_string(block_number);
    r.append(number.as_str());
    r
}

/// The metrics record of a block, from what the backend reported for it.
pub fn record(corpus_name: &str, block_number: u64, report: &ExecutionReport) -> (r: WorkloadMetrics)
    ensures
        r@ == report_metrics(corpus_name@, block_number, *report),
{
    WorkloadMetrics {
        name: workload_name(corpus_name, block_number),
        total_num_cycles: report.total_num_cycles,
        region_cycles: report.region_cycles.clone(),
    }
}

/// `result` is a possible end of running `corpus` through `executor`: the
/// backend was asked for the blocks in order, up to the first that it failed
/// on, and `result` is what its answers come to.
pub open spec fn is_run_of<P, N, F>(
    corpus: Corpus<P, N>,
    elf: &[u8],
    executor: F,
    result: Result<Seq<MetricsView>, ExecutorError>,
) -> bool where F: Fn(&BlockWitnessPair<P>, &N, &[u8]) -> Result<ExecutionReport, ExecutorError> {
    exists|outcomes: Seq<Result<ExecutionReport, ExecutorError>>|
        {
            &&& outcomes.len() <= corpus@.blocks.len()
            &&& forall|i: int|
                0 <= i < outcomes.len() ==> call_ensures(
                    executor,
                    (&corpus@.blocks[i], &corpus@.network, elf),
                    #[trigger] outcomes[i],
                )
            &&& result is Ok ==> outcomes.len() == corpus@.blocks.len()
            &&& #[trigger] collected(
                corpus@.name,
                block_numbers(corpus@.blocks),
                outcomes,
            ) == result
        }
}

/// Runs every block of `corpus` through `executor`, in order, and returns one
/// record per block, named after the corpus and the block's number. The
/// first block on which the backend fails ends the run: its error is
/// returned, and the blocks after it are not executed.
pub fn run_corpus<P, N, F>(corpus: &Corpus<P, N>, elf: &[u8], executor: &F) -> (r: Result<
    Vec<WorkloadMetrics>,
    ExecutorError,
>) where F: Fn(&BlockWitnessPair<P>, &N, &[u8]) -> Result<ExecutionReport, ExecutorError>
    requires
        forall|i: int|
            0 <= i < corpus@.blocks.len() ==> call_requires(
                *executor,
                (&#[trigger] corpus@.blocks[i], &corpus@.network, elf),
            ),
    ensures
        match r {
            Ok(metrics) => is_run_of(*corpus, elf, *executor, Ok(metrics_views(metrics@))),
            Err(e) => is_run_of(*corpus, elf, *executor, Err(e)),
        },
{
    let blocks = corpus.blocks_and_witnesses();
    let network = corpus.network();
    let name = corpus.name();
    let ghost numbers = block_numbers(blocks@);
    let ghost mut outcomes: Seq<Result<ExecutionReport, ExecutorError>> = Seq::empty();
    let mut metrics: Vec<WorkloadMetrics> = Vec::new();
    let mut i: usize = 0;
    proof {
        assert(metrics_views(metrics@) =~= Seq::<MetricsView>::empty());
    }
    while i < blocks.len()
        invariant
            i <= blocks@.len(),
            blocks@ == corpus@.blocks,
            *network == corpus@.network,
            name@ == corpus@.name,
            numbers == block_numbers(blocks@),
            outcomes.len() == i,
            forall|j: int|
                0 <= j < blocks@.len() ==> call_requires(
                    *executor,
                    (&#[trigger] blocks@[j], network, elf),
                ),
            forall|j: int|
                0 <= j < i ==> call_ensures(
                    *executor,
                    (&blocks@[j], network, elf),
                    #[trigger] outcomes[j],
                ),
            collected(name@, numbers, outcomes) == Ok::<Seq<MetricsView>, ExecutorError>(
                metrics_views(metrics@),
            ),
        decreases blocks@.len() - i,
    {
        let outcome = executor(&blocks[i], network, elf);
        let ghost before = outcomes;
        let ghost done = metrics_views(metrics@);
        proof {
            outcomes = outcomes.push(outcome);
            assert(outcomes.drop_last() =~= before);
        }
        match outcome {
            Ok(report) => {
                let entry = record(name, blocks[i].block_number, &report);
                metrics.push(entry);
                proof {
                    assert(numbers[i as int] == blocks@[i as int].block_number);
                    assert(metrics_views(metrics@) =~= done.push(entry@));
                }
            },
            Err(e) => {
                proof {
                    assert(collected(name@, numbers, outcomes) == Err::<
                        Seq<MetricsView>,
                        ExecutorError,
                    >(e));
                }
                return Err(e);
            },
        }
        i += 1;
    }
    Ok(metrics)
}

/// The directory under which all metrics are kept: `<workspace>/zkevm-metrics`.
pub open spec fn metrics_root_of(workspace_root: Seq<char>) -> Seq<char> {
    workspace_root + seq!['/'] + "zkevm-metrics"@
}

/// Where the metrics of a corpus are kept for a backend:
/// `<root>/<backend>/<corpus>.json`.
pub open spec fn metrics_path_of(root: Seq<char>, backend: Seq<char>, corpus_name: Seq<char>) -> Seq<
    char,
> {
    root + seq!['/'] + backend + seq!['/'] + corpus_name + ".json"@
}

/// Corpora of different names have different metrics files, so that no two
/// corpora of a run, and no two workers, write to the same path.
pub proof fn lemma_metrics_paths_differ(
    root: Seq<char>,
    backend: Seq<char>,
    one: Seq<char>,
    other: Seq<char>,
)
    requires
        one != other,
    ensures
        metrics_path_of(root, backend, one) != metrics_path_of(root, backend, other),
{
    let before = root + seq!['/'] + backend + seq!['/'];
    let after = ".json"@;
    let p = metrics_path_of(root, backend, one);
    let q = metrics_path_of(root, backend, other);
    assert(p =~= before + one + after);
    assert(q =~= before + other + after);
    if p == q {
        assert(one.len() == other.len());
        assert forall|i: int| 0 <= i < one.len() implies one[i] == other[i] by {
            assert(p[before.len() + i] == one[i]);
            assert(q[before.len() + i] == other[i]);
        }
        assert(one =~= other);
    }
}

/// The directory under which all metrics are kept.
pub fn metrics_root(workspace_root: &str) -> (r: String)
    ensures
        r@ == metrics_root_of(workspace_root@),
{
    proof {
        reveal_strlit("/");
        assert("/"@ =~= seq!['/']);
    }
    let mut r = String::from_str(workspace_root);
    r.append("/");
    r.append("zkevm-metrics");
    r
}

/// The path of the metrics file of a corpus for a backend.
pub fn metrics_path(root: &str, backend: &str, corpus_name: &str) -> (r: String)
    ensures
        r@ == metrics_path_of(root@, backend@, corpus_name@),
{
    proof {
        reveal_strlit("/");
        assert("/"@ =~= seq!['/']);
    }
    let mut r = String::from_str(root);
    r.append("/");
    r.append(backend);
    r.append("/");
    r.append(corpus_name);
    r.append(".json");
    r
}

/// A metrics file to be written: its path, and the text that it is to hold.
#[derive(Debug, Clone, PartialEq, Eq)]
pub struct MetricsFile {
    pub path: String,
    pub contents: String,
}

/// How a benchmark ended: the metrics files of the corpora that ran to their
/// end, in the order of the corpora, and the error that stopped the run, if
/// one did.
#[derive(Debug)]
pub struct BenchmarkRun {
    pub files: Vec<MetricsFile>,
    pub failure: Option<ExecutorError>,
}

/// `file` is the metrics file of a run of `corpus` that ended well: it lies
/// at the path of the corpus for the backend, and holds what is written for
/// the records of the run.
pub open spec fn is_metrics_file_of<P, N, F>(
    file: MetricsFile,
    corpus: Corpus<P, N>,
    elf: &[u8],
    root: Seq<char>,
    backend: Seq<char>,
    executor: F,
) -> bool where F: Fn(&BlockWitnessPair<P>, &N, &[u8]) -> Result<ExecutionReport, ExecutorError> {
    &&& file.path@ == metrics_path_of(root, backend, corpus@.name)
    &&& exists|metrics: Seq<MetricsView>|
        {
            &&& #[trigger] is_run_of(corpus, elf, executor, Ok(metrics))
            &&& is_pretty_json_of(file.contents@, metrics)
            &&& parsed_metrics(file.contents@) == Some(metrics)
        }
}

/// Runs the corpora through `zkvm_executor`, one after the other, and returns
/// for each the metrics file to be written under `metrics_root`, for the
/// backend named `metrics_path_prefix`.
///
/// The first corpus with a block on which the backend fails ends the whole
/// run. The files of the corpora before it are returned together with the
/// error; for the failing corpus there is no file.
pub fn run_benchmark<P, N, F>(
    corpora: &[Corpus<P, N>],
    elf: &[u8],
    metrics_root: &str,
    metrics_path_prefix: &str,
    zkvm_executor: &F,
) -> (r: BenchmarkRun) where
    F: Fn(&BlockWitnessPair<P>, &N, &[u8]) -> Result<ExecutionReport, ExecutorError>,

    requires
        forall|c: int, i: int|
            0 <= c < corpora@.len() && 0 <= i < corpora@[c]@.blocks.len() ==> call_requires(
                *zkvm_executor,
                (&#[trigger] corpora@[c]@.blocks[i], &corpora@[c]@.network, elf),
            ),
    ensures
        r.files@.len() <= corpora@.len(),
        forall|c: int|
            0 <= c < r.files@.len() ==> is_metrics_file_of(
                #[trigger] r.files@[c],
                corpora@[c],
                elf,
                metrics_root@,
                metrics_path_prefix@,
                *zkvm_executor,
            ),
        match r.failure {
            None => r.files@.len() == corpora@.len(),
            Some(e) => r.files@.len() < corpora@.len() && is_run_of(
                corpora@[r.files@.len() as int],
                elf,
                *zkvm_executor,
                Err(e),
            ),
        },
{
    let mut files: Vec<MetricsFile> = Vec::new();
    let mut c: usize = 0;
    while c < corpora.len()
        invariant
            c <= corpora@.len(),
            files@.len() == c,
            forall|d: int, i: int|
                0 <= d < corpora@.len() && 0 <= i < corpora@[d]@.blocks.len() ==> call_requires(
                    *zkvm_executor,
                    (&#[trigger] corpora@[d]@.blocks[i], &corpora@[d]@.network, elf),
                ),
            forall|d: int|
                0 <= d < c ==> is_metrics_file_of(
                    #[trigger] files@[d],
                    corpora@[d],
                    elf,
                    metrics_root@,
                    metrics_path_prefix@,
                    *zkvm_executor,
                ),
        decreases corpora@.len() - c,
    {
        let corpus = &corpora[c];
        match run_corpus(corpus, elf, zkvm_executor) {
            Ok(metrics) => {
                let path = metrics_path(metrics_root, metrics_path_prefix, corpus.name());
                let contents = match WorkloadMetrics::to_json_pretty(metrics.as_slice()) {
                    Ok(text) => text,
                    Err(_) => vstd::pervasive::unreached(),
                };
                let file = MetricsFile { path, contents };
                proof {
                    assert(is_run_of(*corpus, elf, *zkvm_executor, Ok(metrics_views(metrics@))));
                    assert(is_pretty_json_of(file.contents@, metrics_views(metrics@)));
                }
                files.push(file);
            },
            Err(e) => {
                return BenchmarkRun { files, failure: Some(e) };
            },
        }
        c += 1;
    }
    BenchmarkRun { files, failure: None }
}

} // verus!
