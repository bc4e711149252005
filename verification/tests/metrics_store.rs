use std::io::{Read, Write};
use zkevm_benchmark::metrics::{MetricsError, WorkloadMetrics};
use zkevm_benchmark::regions::RegionCycles;

fn regions(entries: &[(&str, u64)]) -> RegionCycles {
    let mut r = RegionCycles::new();
    for (name, cycles) in entries {
        r.insert(name.to_string(), *cycles);
    }
    r
}

// A fixed sample for the round trips.
fn sample() -> Vec<WorkloadMetrics> {
    vec![
        WorkloadMetrics {
            name: "fft".into(),
            total_num_cycles: 1_000,
            region_cycles: regions(&[("setup", 100), ("compute", 800), ("teardown", 100)]),
        },
        WorkloadMetrics {
            name: "aes".into(),
            total_num_cycles: 2_000,
            region_cycles: regions(&[("init", 200), ("encrypt", 1_600), ("final", 200)]),
        },
    ]
}

fn fft() -> Vec<WorkloadMetrics> {
    vec![WorkloadMetrics {
        name: "fft".into(),
        total_num_cycles: 1_000,
        region_cycles: regions(&[("setup", 100), ("compute", 800), ("teardown", 100)]),
    }]
}

fn into_serde_err(e: MetricsError) -> serde_json::Error {
    match e {
        MetricsError::Serde(e) => e,
        MetricsError::Io(e) => panic!("unexpected IO error in test: {e}"),
    }
}

#[test]
fn round_trip_json() {
    let workloads = sample();
    let json = WorkloadMetrics::to_json(&workloads).expect("serialize");
    let parsed = WorkloadMetrics::from_json(&json).expect("deserialize");
    assert_eq!(workloads, parsed);
}

#[test]
fn bad_json_is_error() {
    let bad = "{this is not valid json}";
    let err = WorkloadMetrics::from_json(bad).unwrap_err();
    assert!(into_serde_err(err).is_data());
}

#[test]
fn round_trip_pretty_json() {
    let workloads = fft();
    let json = WorkloadMetrics::to_json_pretty(&workloads).expect("serialize");
    let parsed = WorkloadMetrics::from_json(&json).expect("deserialize");
    assert_eq!(workloads, parsed);
    assert_eq!(parsed.len(), 1);
    assert_eq!(parsed[0].name, "fft");
    assert_eq!(parsed[0].total_num_cycles, 1_000);
    assert_eq!(parsed[0].region_cycles.get("setup"), Some(100));
    assert_eq!(parsed[0].region_cycles.get("compute"), Some(800));
    assert_eq!(parsed[0].region_cycles.get("teardown"), Some(100));
    assert_eq!(parsed[0].region_cycles.len(), 3);
}

#[test]
fn compact_text_is_exact() {
    let json = WorkloadMetrics::to_json(&fft()).unwrap();
    assert_eq!(
        json,
        "[{\"name\":\"fft\",\"region_cycles\":{\"compute\":800,\"setup\":100,\"teardown\":100},\"total_num_cycles\":1000}]"
    );
}

#[test]
fn pretty_text_is_exact() {
    let json = WorkloadMetrics::to_json_pretty(&fft()).unwrap();
    let expected = "[\n  {\n    \"name\": \"fft\",\n    \"region_cycles\": {\n      \"compute\": 800,\n      \"setup\": 100,\n      \"teardown\": 100\n    },\n    \"total_num_cycles\": 1000\n  }\n]";
    assert_eq!(json, expected);
}

#[test]
fn empty_list_round_trips() {
    let none: Vec<WorkloadMetrics> = Vec::new();
    let json = WorkloadMetrics::to_json(&none).unwrap();
    assert_eq!(json, "[]");
    assert_eq!(WorkloadMetrics::from_json(&json).unwrap(), none);
    assert_eq!(WorkloadMetrics::from_json(" [ ] ").unwrap(), none);
}

#[test]
fn empty_region_breakdown_round_trips() {
    let degraded = vec![WorkloadMetrics {
        name: "risc0-1".into(),
        total_num_cycles: 77,
        region_cycles: RegionCycles::new(),
    }];
    let json = WorkloadMetrics::to_json(&degraded).unwrap();
    assert_eq!(json, "[{\"name\":\"risc0-1\",\"region_cycles\":{},\"total_num_cycles\":77}]");
    assert_eq!(WorkloadMetrics::from_json(&json).unwrap(), degraded);
}

#[test]
fn names_with_quotes_and_unicode_round_trip() {
    let odd = vec![WorkloadMetrics {
        name: "a \"quoted\" \\ name\n\twith \u{1F600} and \u{0}".into(),
        total_num_cycles: u64::MAX,
        region_cycles: regions(&[("", 0), ("r\u{e9}gion \"x\"", u64::MAX), ("name", 1)]),
    }];
    let compact = WorkloadMetrics::to_json(&odd).unwrap();
    assert_eq!(WorkloadMetrics::from_json(&compact).unwrap(), odd);
    let pretty = WorkloadMetrics::to_json_pretty(&odd).unwrap();
    assert_eq!(WorkloadMetrics::from_json(&pretty).unwrap(), odd);
}

#[test]
fn reads_the_schema_in_any_field_order_and_passes_over_other_fields() {
    let text = "[{\"total_num_cycles\": 5, \"comment\": [1.5, null], \"region_cycles\": {\"b\": 2, \"a\": 1}, \"name\": \"w\"}]";
    let parsed = WorkloadMetrics::from_json(text).unwrap();
    let expected = vec![WorkloadMetrics {
        name: "w".into(),
        total_num_cycles: 5,
        region_cycles: regions(&[("a", 1), ("b", 2)]),
    }];
    assert_eq!(parsed, expected);
}

#[test]
fn syntax_errors_are_serde_errors() {
    for bad in ["", "[", "[{\"name\": }]", "[1, 2", "[] trailing", "not json at all"] {
        match WorkloadMetrics::from_json(bad) {
            Err(MetricsError::Serde(_)) => {}
            other => panic!("expected a serde error for {bad:?}, got {other:?}"),
        }
    }
}

#[test]
fn truncated_text_is_a_syntax_error() {
    let err = WorkloadMetrics::from_json("[{\"name\": \"fft\", ").unwrap_err();
    let err = into_serde_err(err);
    assert!(err.is_eof() || err.is_syntax());
    assert!(!err.is_io());
}

#[test]
fn schema_violations_are_data_errors() {
    let cases = [
        "{}",
        "3",
        "[3]",
        "[[]]",
        "[{}]",
        "[{\"name\": \"w\", \"total_num_cycles\": 1}]",
        "[{\"name\": \"w\", \"region_cycles\": {}}]",
        "[{\"total_num_cycles\": 1, \"region_cycles\": {}}]",
        "[{\"name\": 7, \"total_num_cycles\": 1, \"region_cycles\": {}}]",
        "[{\"name\": \"w\", \"total_num_cycles\": -1, \"region_cycles\": {}}]",
        "[{\"name\": \"w\", \"total_num_cycles\": 1.5, \"region_cycles\": {}}]",
        "[{\"name\": \"w\", \"total_num_cycles\": \"1\", \"region_cycles\": {}}]",
        "[{\"name\": \"w\", \"total_num_cycles\": 18446744073709551616, \"region_cycles\": {}}]",
        "[{\"name\": \"w\", \"total_num_cycles\": 1, \"region_cycles\": []}]",
        "[{\"name\": \"w\", \"total_num_cycles\": 1, \"region_cycles\": {\"a\": \"1\"}}]",
        "[{\"name\": \"w\", \"total_num_cycles\": 1, \"region_cycles\": {\"a\": 1, \"b\": null}}]",
    ];
    for bad in cases {
        match WorkloadMetrics::from_json(bad) {
            Err(MetricsError::Serde(e)) => assert!(e.is_data(), "{bad}: {e}"),
            other => panic!("expected a data error for {bad:?}, got {other:?}"),
        }
    }
}

#[test]
fn one_bad_entry_fails_the_whole_list() {
    let text = "[{\"name\": \"a\", \"total_num_cycles\": 1, \"region_cycles\": {}}, {\"name\": \"b\"}]";
    assert!(WorkloadMetrics::from_json(text).is_err());
}

#[test]
fn largest_count_is_read() {
    let text = "[{\"name\": \"w\", \"total_num_cycles\": 18446744073709551615, \"region_cycles\": {}}]";
    let parsed = WorkloadMetrics::from_json(text).unwrap();
    assert_eq!(parsed[0].total_num_cycles, u64::MAX);
}

#[test]
fn file_round_trip() {
    // Create a named temporary file.
    let mut temp_file = tempfile::NamedTempFile::new().expect("temporary file");

    let workloads = sample();

    // Write, read, compare using the temporary file.
    let json = WorkloadMetrics::to_json_pretty(&workloads).expect("serialize");
    temp_file.write_all(json.as_bytes()).expect("write");
    temp_file.flush().expect("flush");
    let mut contents = String::new();
    temp_file.reopen().expect("reopen").read_to_string(&mut contents).expect("read");
    let read_back = WorkloadMetrics::from_json(&contents).expect("deserialize");
    assert_eq!(workloads, read_back);
}
