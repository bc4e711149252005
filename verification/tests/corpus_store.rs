use serde_json::Value;
use zkevm_benchmark::blocks_and_witnesses::{is_storable, BwError, BlocksAndWitnesses};
use zkevm_benchmark::depth::fits_depth;

fn doc(text: &str) -> Value {
    serde_json::from_str(text).unwrap()
}

fn nested(levels: usize) -> Value {
    let mut v = Value::Null;
    for _ in 0..levels {
        v = Value::Array(vec![v]);
    }
    v
}

fn sample() -> Vec<BlocksAndWitnesses> {
    vec![
        BlocksAndWitnesses {
            name: "testA".to_string(),
            blocks_and_witnesses: vec![
                doc("{\"block\": {\"header\": {\"number\": \"0x1\"}, \"body\": []}, \"witness\": {\"state\": [\"0xab\"]}}"),
                doc("{\"block\": {\"header\": {\"number\": \"0x2\"}, \"body\": [1, -2, 2.5, null, true]}, \"witness\": {}}"),
            ],
            network: doc("{\"config\": {\"chainId\": 1, \"pragueTime\": 0}, \"alloc\": {}}"),
        },
        BlocksAndWitnesses { name: "empty \"quoted\"".to_string(), blocks_and_witnesses: vec![], network: Value::Null },
    ]
}

fn serde_error(e: BwError) -> serde_json::Error {
    match e {
        BwError::Serde(e) => e,
        BwError::Io(e) => panic!("unexpected IO error in test: {e}"),
    }
}

#[test]
fn corpora_round_trip() {
    let corpora = sample();
    let json = BlocksAndWitnesses::to_json(&corpora).expect("serialize");
    let parsed = BlocksAndWitnesses::from_json(&json).expect("deserialize");
    assert_eq!(corpora, parsed);
    let compact = BlocksAndWitnesses::to_json_compact(&corpora).expect("serialize");
    assert_eq!(BlocksAndWitnesses::from_json(&compact).expect("deserialize"), corpora);
    assert!(compact.len() < json.len());
}

#[test]
fn corpus_text_is_exact() {
    let one = vec![BlocksAndWitnesses {
        name: "testA".to_string(),
        blocks_and_witnesses: vec![doc("{\"block\": 1}"), doc("[2]")],
        network: doc("\"Prague\""),
    }];
    assert_eq!(
        BlocksAndWitnesses::to_json_compact(&one).unwrap(),
        "[{\"blocks_and_witnesses\":[{\"block\":1},[2]],\"name\":\"testA\",\"network\":\"Prague\"}]"
    );
    assert_eq!(
        BlocksAndWitnesses::to_json(&one).unwrap(),
        "[\n  {\n    \"blocks_and_witnesses\": [\n      {\n        \"block\": 1\n      },\n      [\n        2\n      ]\n    ],\n    \"name\": \"testA\",\n    \"network\": \"Prague\"\n  }\n]"
    );
}

#[test]
fn no_corpora_round_trip() {
    let none: Vec<BlocksAndWitnesses> = Vec::new();
    assert_eq!(BlocksAndWitnesses::to_json_compact(&none).unwrap(), "[]");
    assert_eq!(BlocksAndWitnesses::from_json("[]").unwrap(), none);
}

#[test]
fn numbers_that_are_no_integers_round_trip() {
    let corpora = vec![BlocksAndWitnesses {
        name: "floats".to_string(),
        blocks_and_witnesses: vec![doc("[0.1, 1e300, 5.875e22, -0.0, 1.7976931348623157e308, 5e-324, 0.30000000000000004]")],
        network: doc("18446744073709551615"),
    }];
    let json = BlocksAndWitnesses::to_json(&corpora).unwrap();
    assert_eq!(BlocksAndWitnesses::from_json(&json).unwrap(), corpora);
}

#[test]
fn corpus_reading_passes_over_other_fields() {
    let text = "[{\"network\": 7, \"extra\": true, \"name\": \"c\", \"blocks_and_witnesses\": [1]}]";
    let parsed = BlocksAndWitnesses::from_json(text).unwrap();
    assert_eq!(
        parsed,
        vec![BlocksAndWitnesses {
            name: "c".to_string(),
            blocks_and_witnesses: vec![doc("1")],
            network: doc("7"),
        }]
    );
}

#[test]
fn corpus_schema_violations_are_data_errors() {
    let cases = [
        "{}",
        "[1]",
        "[{}]",
        "[{\"name\": \"c\", \"blocks_and_witnesses\": []}]",
        "[{\"name\": \"c\", \"network\": null}]",
        "[{\"blocks_and_witnesses\": [], \"network\": null}]",
        "[{\"name\": 1, \"blocks_and_witnesses\": [], \"network\": null}]",
        "[{\"name\": \"c\", \"blocks_and_witnesses\": {}, \"network\": null}]",
    ];
    for bad in cases {
        match BlocksAndWitnesses::from_json(bad) {
            Err(BwError::Serde(e)) => assert!(e.is_data(), "{bad}: {e}"),
            other => panic!("expected a data error for {bad:?}, got {other:?}"),
        }
    }
}

#[test]
fn corpus_syntax_errors_are_serde_errors() {
    let err = serde_error(BlocksAndWitnesses::from_json("[{\"name\": ").unwrap_err());
    assert!(!err.is_io());
    assert!(BlocksAndWitnesses::from_json("").is_err());
}

#[test]
fn depth_of_documents() {
    assert!(fits_depth(&doc("1"), 0));
    assert!(fits_depth(&doc("\"s\""), 0));
    assert!(fits_depth(&Value::Null, 0));
    assert!(!fits_depth(&doc("[]"), 0));
    assert!(!fits_depth(&doc("{}"), 0));
    assert!(fits_depth(&doc("[]"), 1));
    assert!(fits_depth(&doc("{\"a\": 1, \"b\": \"x\"}"), 1));
    assert!(!fits_depth(&doc("{\"a\": 1, \"b\": [1]}"), 1));
    assert!(fits_depth(&doc("{\"a\": 1, \"b\": [1]}"), 2));
    assert!(!fits_depth(&doc("[1, 2, {\"a\": {}}]"), 2));
    assert!(fits_depth(&doc("[1, 2, {\"a\": {}}]"), 3));
    assert!(fits_depth(&nested(98), 98));
    assert!(!fits_depth(&nested(99), 98));
}

#[test]
fn documents_that_nest_too_deeply_are_not_stored() {
    let deepest = BlocksAndWitnesses {
        name: "deep".to_string(),
        blocks_and_witnesses: vec![nested(98)],
        network: nested(98),
    };
    assert!(is_storable(&deepest));
    let json = BlocksAndWitnesses::to_json(&[deepest.clone()]).unwrap();
    assert_eq!(BlocksAndWitnesses::from_json(&json).unwrap(), vec![deepest]);

    let too_deep_pair = BlocksAndWitnesses {
        name: "deep".to_string(),
        blocks_and_witnesses: vec![Value::Null, nested(99)],
        network: Value::Null,
    };
    assert!(!is_storable(&too_deep_pair));
    assert!(serde_error(BlocksAndWitnesses::to_json(&[too_deep_pair.clone()]).unwrap_err()).is_data());
    assert!(BlocksAndWitnesses::to_json_compact(&[too_deep_pair]).is_err());

    let too_deep_network = BlocksAndWitnesses {
        name: "deep".to_string(),
        blocks_and_witnesses: vec![],
        network: nested(99),
    };
    assert!(!is_storable(&too_deep_network));
    assert!(BlocksAndWitnesses::to_json(&[too_deep_network]).is_err());
}

#[test]
fn written_text_is_reproduced_after_reading() {
    let text = "[{\"blocks_and_witnesses\":[-0.0,0.0,1e-7,1.2345678901234568e+20,-1,\"\\u0000\"],\"name\":\"n\",\"network\":{\"a\":[],\"b\":{}}}]";
    let corpora = BlocksAndWitnesses::from_json(text).unwrap();
    assert_eq!(BlocksAndWitnesses::to_json_compact(&corpora).unwrap(), text);
    let pretty = BlocksAndWitnesses::to_json(&corpora).unwrap();
    let again = BlocksAndWitnesses::from_json(&pretty).unwrap();
    assert_eq!(BlocksAndWitnesses::to_json_compact(&again).unwrap(), text);
}
