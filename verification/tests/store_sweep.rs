use serde_json::Value;
use zkevm_benchmark::blocks_and_witnesses::BlocksAndWitnesses;
use zkevm_benchmark::metrics::WorkloadMetrics;
use zkevm_benchmark::regions::RegionCycles;

// A small deterministic generator, so that the sweeps below are repeatable.
struct Lcg(u64);

impl Lcg {
    fn next(&mut self) -> u64 {
        self.0 = self.0.wrapping_mul(6364136223846793005).wrapping_add(1442695040888963407);
        self.0 >> 11
    }

    fn below(&mut self, n: u64) -> u64 {
        self.next() % n
    }

    fn number(&mut self) -> u64 {
        match self.below(5) {
            0 => 0,
            1 => u64::MAX,
            2 => self.below(10),
            3 => self.next(),
            _ => self.next() << 11 | self.below(2048),
        }
    }

    fn text(&mut self) -> String {
        let alphabet: [char; 16] = [
            'a', 'Z', '0', ' ', '"', '\\', '/', '\n', '\t', '\u{0}', '\u{1f}', '\u{7f}', '\u{e9}',
            '\u{2028}', '\u{1F600}', '{',
        ];
        let len = self.below(12);
        (0..len).map(|_| alphabet[self.below(16) as usize]).collect()
    }
}

fn metrics(rng: &mut Lcg) -> Vec<WorkloadMetrics> {
    let count = rng.below(5);
    (0..count)
        .map(|_| {
            let mut region_cycles = RegionCycles::new();
            for _ in 0..rng.below(6) {
                let name = rng.text();
                let cycles = rng.number();
                region_cycles.insert(name, cycles);
            }
            WorkloadMetrics { name: rng.text(), total_num_cycles: rng.number(), region_cycles }
        })
        .collect()
}

fn document(rng: &mut Lcg, depth: u64) -> Value {
    let kinds = if depth == 0 { 6 } else { 8 };
    match rng.below(kinds) {
        0 => Value::Null,
        1 => Value::Bool(rng.below(2) == 0),
        2 => Value::from(rng.number()),
        3 => Value::from(-((rng.next() >> 2) as i64)),
        4 => Value::from(f64::from_bits(rng.next() << 11 | rng.below(2048))),
        5 => Value::String(rng.text()),
        6 => Value::Array((0..rng.below(4)).map(|_| document(rng, depth - 1)).collect()),
        _ => {
            let mut object = serde_json::Map::new();
            for _ in 0..rng.below(4) {
                let key = rng.text();
                let value = document(rng, depth - 1);
                object.insert(key, value);
            }
            Value::Object(object)
        }
    }
}

fn corpora(rng: &mut Lcg) -> Vec<BlocksAndWitnesses> {
    let count = rng.below(4);
    (0..count)
        .map(|_| BlocksAndWitnesses {
            name: rng.text(),
            blocks_and_witnesses: (0..rng.below(4)).map(|_| document(rng, 4)).collect(),
            network: document(rng, 4),
        })
        .collect()
}

#[test]
fn metrics_read_back_as_written() {
    let mut rng = Lcg(0x5eed);
    for _ in 0..300 {
        let written = metrics(&mut rng);
        let compact = WorkloadMetrics::to_json(&written).unwrap();
        assert_eq!(WorkloadMetrics::from_json(&compact).unwrap(), written);
        let pretty = WorkloadMetrics::to_json_pretty(&written).unwrap();
        assert_eq!(WorkloadMetrics::from_json(&pretty).unwrap(), written);
    }
}

#[test]
fn corpora_read_back_as_written() {
    let mut rng = Lcg(0xc0ffee);
    for _ in 0..300 {
        let written = corpora(&mut rng);
        let pretty = BlocksAndWitnesses::to_json(&written).unwrap();
        assert_eq!(BlocksAndWitnesses::from_json(&pretty).unwrap(), written);
        let compact = BlocksAndWitnesses::to_json_compact(&written).unwrap();
        assert_eq!(BlocksAndWitnesses::from_json(&compact).unwrap(), written);
    }
}

#[test]
fn metrics_text_does_not_depend_on_the_order_of_regions() {
    let mut rng = Lcg(7);
    for _ in 0..50 {
        let mut names: Vec<String> = (0..6).map(|i| format!("{}{}", rng.text(), i)).collect();
        let mut forward = RegionCycles::new();
        for (i, name) in names.iter().enumerate() {
            forward.insert(name.clone(), i as u64);
        }
        let mut backward = RegionCycles::new();
        names.reverse();
        for (i, name) in names.iter().enumerate() {
            backward.insert(name.clone(), (5 - i) as u64);
        }
        let one = vec![WorkloadMetrics { name: "w".into(), total_num_cycles: 1, region_cycles: forward }];
        let two = vec![WorkloadMetrics { name: "w".into(), total_num_cycles: 1, region_cycles: backward }];
        assert_eq!(one, two);
        assert_eq!(WorkloadMetrics::to_json(&one).unwrap(), WorkloadMetrics::to_json(&two).unwrap());
    }
}
