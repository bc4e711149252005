use zkevm_benchmark::block_order::{collect_in_block_order, Completion};
use zkevm_benchmark::benchmark_runner::{
    metrics_path, metrics_root, record, run_benchmark, run_corpus,
    workload_name,
};
use zkevm_benchmark::corpus::{BlockWitnessPair, Corpus};
use zkevm_benchmark::executor::{ExecutionReport, ExecutorError};
use zkevm_benchmark::metrics::WorkloadMetrics;
use zkevm_benchmark::regions::RegionCycles;

type TestCorpus = Corpus<u64, &'static str>;

fn corpus(name: &str, numbers: &[u64]) -> TestCorpus {
    let pairs = numbers.iter().map(|n| BlockWitnessPair { block_number: *n, payload: n * 10 }).collect();
    Corpus::new(name.to_string(), pairs, "Prague").unwrap()
}

fn regions(entries: &[(&str, u64)]) -> RegionCycles {
    let mut r = RegionCycles::new();
    for (name, cycles) in entries {
        r.insert(name.to_string(), *cycles);
    }
    r
}

fn always_succeeds(
    pair: &BlockWitnessPair<u64>,
    _network: &&'static str,
    elf: &[u8],
) -> Result<ExecutionReport, ExecutorError> {
    Ok(ExecutionReport {
        total_num_cycles: pair.payload + elf.len() as u64,
        region_cycles: regions(&[("read_input", 1), ("validation", pair.block_number)]),
    })
}

fn reports_no_regions(
    pair: &BlockWitnessPair<u64>,
    _network: &&'static str,
    _elf: &[u8],
) -> Result<ExecutionReport, ExecutorError> {
    Ok(ExecutionReport { total_num_cycles: pair.block_number, region_cycles: RegionCycles::new() })
}

fn fails_on_block_eight(
    pair: &BlockWitnessPair<u64>,
    network: &&'static str,
    elf: &[u8],
) -> Result<ExecutionReport, ExecutorError> {
    if pair.block_number == 8 {
        Err(ExecutorError::Execution("block 8 did not validate".to_string()))
    } else {
        always_succeeds(pair, network, elf)
    }
}

#[test]
fn workload_names() {
    assert_eq!(workload_name("testA", 3), "testA-3");
    assert_eq!(workload_name("testA", 0), "testA-0");
    assert_eq!(workload_name("", 12), "-12");
    assert_eq!(workload_name("a-b", u64::MAX), "a-b-18446744073709551615");
}

#[test]
fn record_of_a_report() {
    let report = ExecutionReport { total_num_cycles: 42, region_cycles: regions(&[("setup", 2)]) };
    let metrics = record("testA", 7, &report);
    assert_eq!(
        metrics,
        WorkloadMetrics {
            name: "testA-7".to_string(),
            total_num_cycles: 42,
            region_cycles: regions(&[("setup", 2)]),
        }
    );
}

#[test]
fn metrics_paths() {
    assert_eq!(metrics_root("/ws"), "/ws/zkevm-metrics");
    assert_eq!(metrics_path("/out", "succinct", "testA"), "/out/succinct/testA.json");
    assert_eq!(
        metrics_path(&metrics_root("/ws"), "risc0", "testB"),
        format!("{}/{}/{}/{}.json", "/ws", "zkevm-metrics", "risc0", "testB")
    );
}

#[test]
fn run_gives_one_record_per_block_in_block_order() {
    let testa = corpus("testA", &[7, 8, 9]);
    let metrics = run_corpus(&testa, &[0u8; 4], &always_succeeds).unwrap();
    assert_eq!(metrics.len(), 3);
    let names: Vec<&str> = metrics.iter().map(|m| m.name.as_str()).collect();
    assert_eq!(names, vec!["testA-7", "testA-8", "testA-9"]);
    let totals: Vec<u64> = metrics.iter().map(|m| m.total_num_cycles).collect();
    assert_eq!(totals, vec![74, 84, 94]);
    assert_eq!(metrics[1].region_cycles, regions(&[("validation", 8), ("read_input", 1)]));
}

#[test]
fn record_names_end_with_the_block_number() {
    let numbers = [0u64, 5, 5, 10, 4_000_000_000, u64::MAX];
    let c = corpus("chain", &numbers);
    let metrics = run_corpus(&c, &[], &always_succeeds).unwrap();
    assert_eq!(metrics.len(), numbers.len());
    for (m, n) in metrics.iter().zip(numbers.iter()) {
        assert!(m.name.ends_with(&n.to_string()));
        assert_eq!(m.name, format!("chain-{}", n));
    }
}

#[test]
fn failure_on_a_block_aborts_the_corpus() {
    let testa = corpus("testA", &[7, 8, 9]);
    let r = run_corpus(&testa, &[], &fails_on_block_eight);
    assert_eq!(r, Err(ExecutorError::Execution("block 8 did not validate".to_string())));
}

#[test]
fn blocks_after_a_failure_are_not_executed() {
    let asked = std::cell::RefCell::new(Vec::new());
    let executor = |pair: &BlockWitnessPair<u64>, network: &&'static str, elf: &[u8]| {
        asked.borrow_mut().push(pair.block_number);
        fails_on_block_eight(pair, network, elf)
    };
    let testa = corpus("testA", &[7, 8, 9]);
    assert!(run_corpus(&testa, &[], &executor).is_err());
    assert_eq!(*asked.borrow(), vec![7, 8]);
}

#[test]
fn setup_and_timeout_errors_abort_as_well() {
    let testa = corpus("testA", &[1, 2]);
    let setup = |_: &BlockWitnessPair<u64>, _: &&'static str, _: &[u8]| {
        Err::<ExecutionReport, ExecutorError>(ExecutorError::Setup("no program".to_string()))
    };
    assert_eq!(run_corpus(&testa, &[], &setup), Err(ExecutorError::Setup("no program".to_string())));
    let timeout = |_: &BlockWitnessPair<u64>, _: &&'static str, _: &[u8]| {
        Err::<ExecutionReport, ExecutorError>(ExecutorError::Timeout("too slow".to_string()))
    };
    assert_eq!(run_corpus(&testa, &[], &timeout), Err(ExecutorError::Timeout("too slow".to_string())));
}

#[test]
fn reports_without_regions_are_accepted() {
    let testa = corpus("testA", &[1, 2, 3]);
    let metrics = run_corpus(&testa, &[], &reports_no_regions).unwrap();
    assert_eq!(metrics.len(), 3);
    for m in &metrics {
        assert!(m.region_cycles.is_empty());
    }
    let run = run_benchmark(&vec![testa], &[], "/out", "risc0", &reports_no_regions);
    assert!(run.failure.is_none());
    assert_eq!(run.files.len(), 1);
    assert_eq!(WorkloadMetrics::from_json(&run.files[0].contents).unwrap(), metrics);
}

#[test]
fn executor_sees_pair_network_and_program() {
    let testa = corpus("testA", &[3]);
    let executor = |pair: &BlockWitnessPair<u64>, network: &&'static str, elf: &[u8]| {
        assert_eq!(pair.payload, 30);
        assert_eq!(*network, "Prague");
        assert_eq!(elf, &[1u8, 2, 3][..]);
        Ok::<ExecutionReport, ExecutorError>(ExecutionReport {
            total_num_cycles: 1,
            region_cycles: RegionCycles::new(),
        })
    };
    assert_eq!(run_corpus(&testa, &[1, 2, 3], &executor).unwrap().len(), 1);
}

#[test]
fn benchmark_writes_one_file_per_corpus() {
    let corpora = vec![corpus("testA", &[7, 8, 9]), corpus("testB", &[1])];
    let run = run_benchmark(&corpora, &[0u8; 4], "/root/out", "stub", &always_succeeds);
    assert!(run.failure.is_none());
    assert_eq!(run.files.len(), 2);
    assert_eq!(run.files[0].path, "/root/out/stub/testA.json");
    assert_eq!(run.files[1].path, "/root/out/stub/testB.json");
    let testa = WorkloadMetrics::from_json(&run.files[0].contents).unwrap();
    let names: Vec<&str> = testa.iter().map(|m| m.name.as_str()).collect();
    assert_eq!(names, vec!["testA-7", "testA-8", "testA-9"]);
    assert_eq!(testa, run_corpus(&corpora[0], &[0u8; 4], &always_succeeds).unwrap());
    assert_eq!(
        run.files[1].contents,
        WorkloadMetrics::to_json_pretty(&run_corpus(&corpora[1], &[0u8; 4], &always_succeeds).unwrap())
            .unwrap()
    );
}

#[test]
fn benchmark_stops_at_the_failing_corpus_and_keeps_earlier_files() {
    let corpora = vec![corpus("first", &[1, 2]), corpus("testA", &[7, 8, 9]), corpus("last", &[3])];
    let run = run_benchmark(&corpora, &[], "/out", "stub", &fails_on_block_eight);
    assert_eq!(run.failure, Some(ExecutorError::Execution("block 8 did not validate".to_string())));
    assert_eq!(run.files.len(), 1);
    assert_eq!(run.files[0].path, "/out/stub/first.json");
    assert!(run.files.iter().all(|f| !f.path.ends_with("testA.json")));
}

#[test]
fn benchmark_of_no_corpus_writes_nothing() {
    let corpora: Vec<TestCorpus> = Vec::new();
    let run = run_benchmark(&corpora, &[], "/out", "stub", &always_succeeds);
    assert!(run.failure.is_none());
    assert!(run.files.is_empty());
}

fn completion(block: usize, total: u64) -> Completion {
    (block, Ok(ExecutionReport { total_num_cycles: total, region_cycles: RegionCycles::new() }))
}

#[test]
fn results_in_any_completion_order_come_out_in_block_order() {
    let testa = corpus("testA", &[7, 8, 9]);
    let orders: [[usize; 3]; 6] = [[0, 1, 2], [0, 2, 1], [1, 0, 2], [1, 2, 0], [2, 0, 1], [2, 1, 0]];
    for order in orders {
        let completed: Vec<Completion> = order.iter().map(|b| completion(*b, 100 + *b as u64)).collect();
        let metrics = collect_in_block_order(&testa, &completed).unwrap().unwrap();
        let names: Vec<&str> = metrics.iter().map(|m| m.name.as_str()).collect();
        assert_eq!(names, vec!["testA-7", "testA-8", "testA-9"]);
        let totals: Vec<u64> = metrics.iter().map(|m| m.total_num_cycles).collect();
        assert_eq!(totals, vec![100, 101, 102]);
    }
}

#[test]
fn incomplete_results_are_refused() {
    let testa = corpus("testA", &[7, 8, 9]);
    assert_eq!(collect_in_block_order(&testa, &vec![]), None);
    assert_eq!(collect_in_block_order(&testa, &vec![completion(0, 1), completion(1, 1)]), None);
    assert_eq!(
        collect_in_block_order(&testa, &vec![completion(0, 1), completion(1, 1), completion(1, 2)]),
        None
    );
    assert_eq!(
        collect_in_block_order(&testa, &vec![completion(0, 1), completion(1, 1), completion(3, 2)]),
        None
    );
    assert_eq!(
        collect_in_block_order(
            &testa,
            &vec![completion(0, 1), completion(1, 1), completion(2, 2), completion(2, 2)]
        ),
        None
    );
}

#[test]
fn first_failure_in_block_order_wins() {
    let testa = corpus("testA", &[7, 8, 9]);
    let completed: Vec<Completion> = vec![
        (2, Err(ExecutorError::Execution("late".to_string()))),
        (0, Ok(ExecutionReport { total_num_cycles: 1, region_cycles: RegionCycles::new() })),
        (1, Err(ExecutorError::Timeout("early".to_string()))),
    ];
    assert_eq!(
        collect_in_block_order(&testa, &completed),
        Some(Err(ExecutorError::Timeout("early".to_string())))
    );
}

#[test]
fn corpora_of_different_names_get_different_files() {
    let names = ["testA", "testB", "testA.json", "test", "testA/x", ""];
    for a in names {
        for b in names {
            assert_eq!(a == b, metrics_path("/out", "stub", a) == metrics_path("/out", "stub", b));
        }
    }
}
