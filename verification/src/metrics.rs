//! Workload metrics and their JSON store.
//!
//! A metrics file is a JSON array of objects, one per workload:
//! `{ "name": string, "total_num_cycles": u64, "region_cycles": { string: u64 } }`.

use crate::depth::lemma_within_deeper;
use crate::json::{
    compact_json, data_error, max_depth, number_value, object_entries,
    object_get, object_keys, object_value, parse_document, parsed_document, pretty_json,
    render_compact, render_pretty, string_value, value_as_object, value_as_str, value_as_u64,
    within_depth,
};
use crate::regions::{entries_map, keys_distinct, lemma_entries_map, RegionCycles};
use vstd::prelude::*;

verus! {

/// `std::io::Error`. Nothing of its inside is known here.
#[verifier::external_type_specification]
#[verifier::external_body]
pub struct ExIoError(std::io::Error);

/// Cycle-count metrics of one workload: the total, and a breakdown by named
/// region that may be empty.
#[derive(Debug, Clone, PartialEq)]
pub struct WorkloadMetrics {
    /// Name of the workload.
    pub name: String,
    /// Total number of cycles of the whole execution.
    pub total_num_cycles: u64,
    /// Cycles by region.
    pub region_cycles: RegionCycles,
}

/// What a `WorkloadMetrics` stands for.
pub struct MetricsView {
    pub name: Seq<char>,
    pub total_num_cycles: u64,
    pub region_cycles: Map<Seq<char>, u64>,
}

impl View for WorkloadMetrics {
    type V = MetricsView;

    open spec fn view(&self) -> MetricsView {
        MetricsView {
            name: self.name@,
            total_num_cycles: self.total_num_cycles,
            region_cycles: self.region_cycles@,
        }
    }
}

/// The views of a list of metrics, in order.
pub open spec fn metrics_views(items: Seq<WorkloadMetrics>) -> Seq<MetricsView> {
    Seq::new(items.len(), |i: int| items[i]@)
}

/// Why metrics could not be stored or read.
#[derive(Debug)]
pub enum MetricsError {
    /// The text is not JSON, or not JSON of the metrics schema.
    Serde(serde_json::Error),
    /// The file system refused.
    Io(std::io::Error),
}

/// The field that holds the name of a workload.
pub open spec fn name_key() -> Seq<char> {
    "name"@
}

/// The field that holds the total cycle count of a workload.
pub open spec fn total_key() -> Seq<char> {
    "total_num_cycles"@
}

/// The field that holds the cycle counts by region of a workload.
pub open spec fn regions_key() -> Seq<char> {
    "region_cycles"@
}

/// The region breakdown that a JSON value spells: an object whose values are
/// all numbers that fit `u64`.
pub open spec fn regions_of(v: serde_json::Value) -> Option<Map<Seq<char>, u64>> {
    match value_as_object(v) {
        Some(entries) => if forall|k: Seq<char>| #[trigger]
            entries.contains_key(k) ==> value_as_u64(entries[k]) is Some {
            Some(
                Map::new(
                    |k: Seq<char>| entries.contains_key(k),
                    |k: Seq<char>| value_as_u64(entries[k]).unwrap(),
                ),
            )
        } else {
            None
        },
        None => None,
    }
}

/// The metrics that a JSON value spells: an object with the three fields of
/// the schema, each of its type. Other fields are passed over.
pub open spec fn entry_of(v: serde_json::Value) -> Option<MetricsView> {
    match value_as_object(v) {
        Some(fields) => if fields.contains_key(name_key()) && value_as_str(fields[name_key()]) is Some
            && fields.contains_key(total_key()) && value_as_u64(fields[total_key()]) is Some
            && fields.contains_key(regions_key()) && regions_of(fields[regions_key()]) is Some {
            Some(
                MetricsView {
                    name: value_as_str(fields[name_key()]).unwrap(),
                    total_num_cycles: value_as_u64(fields[total_key()]).unwrap(),
                    region_cycles: regions_of(fields[regions_key()]).unwrap(),
                },
            )
        } else {
            None
        },
        None => None,
    }
}

/// The list of metrics that an array of JSON values spells, if every element
/// spells one.
pub open spec fn document_of(doc: Seq<serde_json::Value>) -> Option<Seq<MetricsView>> {
    if forall|i: int| 0 <= i < doc.len() ==> (#[trigger] entry_of(doc[i])) is Some {
        Some(Seq::new(doc.len(), |i: int| entry_of(doc[i]).unwrap()))
    } else {
        None
    }
}

/// The list of metrics that a text spells: it must be a JSON array of which
/// every element spells one.
pub open spec fn parsed_metrics(text: Seq<char>) -> Option<Seq<MetricsView>> {
    match parsed_document(text) {
        Some(doc) => document_of(doc),
        None => None,
    }
}

/// `v` is the object that is written for `m`: the three fields of the schema
/// and no other, with a region object that has the regions of `m` and no
/// other.
pub open spec fn encodes(v: serde_json::Value, m: MetricsView) -> bool {
    &&& value_as_object(v) matches Some(fields)
    &&& forall|k: Seq<char>| #[trigger]
        fields.contains_key(k) <==> k == name_key() || k == total_key() || k == regions_key()
    &&& value_as_str(fields[name_key()]) == Some(m.name)
    &&& value_as_u64(fields[total_key()]) == Some(m.total_num_cycles)
    &&& value_as_object(fields[regions_key()]) matches Some(regions)
    &&& forall|k: Seq<char>| #[trigger] regions.contains_key(k) <==> m.region_cycles.contains_key(k)
    &&& forall|k: Seq<char>| #[trigger]
        regions.contains_key(k) ==> value_as_u64(regions[k]) == Some(m.region_cycles[k])
}

/// `doc` is the array that is written for `items`, element by element.
pub open spec fn encodes_all(doc: Seq<serde_json::Value>, items: Seq<MetricsView>) -> bool {
    &&& doc.len() == items.len()
    &&& forall|i: int| 0 <= i < doc.len() ==> encodes(#[trigger] doc[i], items[i])
}

/// What is written for a workload spells that workload.
pub proof fn lemma_encoded_entry(v: serde_json::Value, m: MetricsView)
    requires
        encodes(v, m),
    ensures
        entry_of(v) == Some(m),
{
    let fields = value_as_object(v).unwrap();
    let regions = value_as_object(fields[regions_key()]).unwrap();
    assert(fields.contains_key(name_key()));
    assert(fields.contains_key(total_key()));
    assert(fields.contains_key(regions_key()));
    assert(regions_of(fields[regions_key()]).unwrap() =~= m.region_cycles);
}

/// What is written for a list of workloads spells that list.
pub proof fn lemma_encoded_document(doc: Seq<serde_json::Value>, items: Seq<MetricsView>)
    requires
        encodes_all(doc, items),
    ensures
        document_of(doc) == Some(items),
{
    assert forall|i: int| 0 <= i < doc.len() implies (#[trigger] entry_of(doc[i])) == Some(
        items[i],
    ) by {
        lemma_encoded_entry(doc[i], items[i]);
    }
    assert(document_of(doc).unwrap() =~= items);
}

/// `text` is the compact text that is written for `items`.
pub open spec fn is_compact_json_of(text: Seq<char>, items: Seq<MetricsView>) -> bool {
    exists|doc: Seq<serde_json::Value>|
        #[trigger] encodes_all(doc, items) && text == compact_json(doc) && parsed_document(text)
            == Some(doc)
}

/// `text` is the indented text that is written for `items`.
pub open spec fn is_pretty_json_of(text: Seq<char>, items: Seq<MetricsView>) -> bool {
    exists|doc: Seq<serde_json::Value>|
        #[trigger] encodes_all(doc, items) && text == pretty_json(doc) && parsed_document(text)
            == Some(doc)
}

/// Round trip. What `to_json` or `to_json_pretty` writes for a list of
/// metrics, `from_json` reads as that same list: the read succeeds, and what
/// it returns has the views `items`.
pub proof fn lemma_round_trip(
    text: Seq<char>,
    items: Seq<MetricsView>,
    read: Result<Vec<WorkloadMetrics>, MetricsError>,
)
    requires
        is_compact_json_of(text, items) || is_pretty_json_of(text, items),
        match read {
            Ok(back) => parsed_metrics(text) == Some(metrics_views(back@)),
            Err(e) => parsed_metrics(text) is None && e is Serde,
        },
    ensures
        parsed_metrics(text) == Some(items),
        read matches Ok(back) && metrics_views(back@) == items,
{
    let doc = choose|doc: Seq<serde_json::Value>|
        #[trigger] encodes_all(doc, items) && parsed_document(text) == Some(doc);
    lemma_encoded_document(doc, items);
}

/// The JSON object of a region breakdown: one number under each region name.
fn encode_regions(regions: &RegionCycles) -> (r: serde_json::Value)
    ensures
        value_as_object(r) matches Some(written) && (forall|k: Seq<char>| #[trigger]
            written.contains_key(k) <==> regions@.contains_key(k)) && (forall|k: Seq<char>| #[trigger]
            written.contains_key(k) ==> value_as_u64(written[k]) == Some(regions@[k])),
        within_depth(r, 1),
{
    let entries = regions.entries();
    let mut object = serde_json::Map::new();
    let mut i: usize = 0;
    proof {
        lemma_entries_map(entries@);
    }
    while i < entries.len()
        invariant
            i <= entries@.len(),
            keys_distinct(entries@),
            forall|k: Seq<char>| #[trigger]
                object_entries(object).contains_key(k) <==> exists|j: int|
                    0 <= j < i && #[trigger] entries@[j].0@ == k,
            forall|j: int|
                0 <= j < i ==> value_as_u64(object_entries(object)[#[trigger] entries@[j].0@]) == Some(
                    entries@[j].1,
                ),
            forall|k: Seq<char>| #[trigger]
                object_entries(object).contains_key(k) ==> within_depth(object_entries(object)[k], 0),
        decreases entries@.len() - i,
    {
        let ghost before = object_entries(object);
        let key = entries[i].0.clone();
        let value = number_value(entries[i].1);
        object.insert(key, value);
        proof {
            let now = object_entries(object);
            assert forall|k: Seq<char>| #[trigger] now.contains_key(k) implies exists|j: int|
                0 <= j < i + 1 && #[trigger] entries@[j].0@ == k by {
                if k == entries@[i as int].0@ {
                } else {
                    assert(before.contains_key(k));
                    let j = choose|j: int| 0 <= j < i && #[trigger] entries@[j].0@ == k;
                    assert(entries@[j].0@ == k);
                }
            }
            assert forall|k: Seq<char>|
                (exists|j: int| 0 <= j < i + 1 && #[trigger] entries@[j].0@ == k) implies #[trigger] now.contains_key(
                k,
            ) by {
                let j = choose|j: int| 0 <= j < i + 1 && #[trigger] entries@[j].0@ == k;
                if j < i {
                    assert(before.contains_key(k));
                }
            }
            assert forall|j: int| 0 <= j < i + 1 implies value_as_u64(
                now[#[trigger] entries@[j].0@],
            ) == Some(entries@[j].1) by {
                if j < i {
                    assert(entries@[j].0@ != entries@[i as int].0@);
                }
            }
        }
        i += 1;
    }
    let ghost written = object_entries(object);
    proof {
        assert forall|k: Seq<char>| #[trigger] written.contains_key(k) implies regions@.contains_key(
            k,
        ) && value_as_u64(written[k]) == Some(regions@[k]) by {
            let j = choose|j: int| 0 <= j < i && #[trigger] entries@[j].0@ == k;
            assert(entries_map(entries@).contains_key(entries@[j].0@));
        }
        assert forall|k: Seq<char>| regions@.contains_key(k) implies #[trigger] written.contains_key(
            k,
        ) by {
            let j = choose|j: int| 0 <= j < entries@.len() && #[trigger] entries@[j].0@ == k;
            assert(entries@[j].0@ == k);
        }
    }
    object_value(object)
}

/// The JSON object of one workload.
fn encode_entry(metrics: &WorkloadMetrics) -> (r: serde_json::Value)
    ensures
        encodes(r, metrics@),
        within_depth(r, 2),
{
    let mut object = serde_json::Map::new();
    object.insert(String::from_str("name"), string_value(metrics.name.clone()));
    object.insert(String::from_str("total_num_cycles"), number_value(metrics.total_num_cycles));
    object.insert(String::from_str("region_cycles"), encode_regions(&metrics.region_cycles));
    proof {
        reveal_strlit("name");
        reveal_strlit("total_num_cycles");
        reveal_strlit("region_cycles");
        assert(name_key().len() == 4);
        assert(total_key().len() == 16);
        assert(regions_key().len() == 13);
        assert forall|k: Seq<char>| #[trigger] object_entries(object).contains_key(k) implies within_depth(
            object_entries(object)[k],
            1,
        ) by {}
    }
    object_value(object)
}

/// The JSON array of a list of workloads.
fn encode_document(items: &[WorkloadMetrics]) -> (doc: Vec<serde_json::Value>)
    ensures
        encodes_all(doc@, metrics_views(items@)),
        forall|i: int| 0 <= i < doc@.len() ==> within_depth(#[trigger] doc@[i], max_depth()),
{
    let mut doc: Vec<serde_json::Value> = Vec::new();
    let mut i: usize = 0;
    while i < items.len()
        invariant
            i <= items@.len(),
            doc@.len() == i,
            forall|j: int| 0 <= j < i ==> encodes(#[trigger] doc@[j], items@[j]@),
            forall|j: int| 0 <= j < i ==> within_depth(#[trigger] doc@[j], max_depth()),
        decreases items@.len() - i,
    {
        let entry = encode_entry(&items[i]);
        proof {
            lemma_within_deeper(entry, 2, max_depth());
        }
        doc.push(entry);
        i += 1;
    }
    doc
}

/// Reads a region breakdown from the JSON value that spells it.
fn decode_regions(v: &serde_json::Value) -> (r: Option<RegionCycles>)
    ensures
        match r {
            Some(regions) => regions_of(*v) == Some(regions@),
            None => regions_of(*v) is None,
        },
{
    let object = match v.as_object() {
        Some(object) => object,
        None => {
            return None;
        },
    };
    let ghost entries = object_entries(*object);
    let keys = object_keys(object);
    let mut regions = RegionCycles::new();
    let mut i: usize = 0;
    while i < keys.len()
        invariant
            i <= keys@.len(),
            entries == object_entries(*object),
            value_as_object(*v) == Some(entries),
            forall|j: int| 0 <= j < keys@.len() ==> entries.contains_key(#[trigger] keys@[j]@),
            forall|j: int| 0 <= j < i ==> value_as_u64(entries[#[trigger] keys@[j]@]) is Some,
            forall|k: Seq<char>| #[trigger]
                regions@.contains_key(k) <==> exists|j: int| 0 <= j < i && #[trigger] keys@[j]@ == k,
            forall|k: Seq<char>| #[trigger]
                regions@.contains_key(k) ==> Some(regions@[k]) == value_as_u64(entries[k]),
        decreases keys@.len() - i,
    {
        let ghost before = regions@;
        let cycles = match object_get(object, keys[i].as_str()) {
            Some(value) => match value.as_u64() {
                Some(cycles) => cycles,
                None => {
                    return None;
                },
            },
            None => {
                return None;
            },
        };
        regions.insert(keys[i].clone(), cycles);
        proof {
            assert forall|k: Seq<char>| #[trigger] regions@.contains_key(k) implies exists|j: int|
                0 <= j < i + 1 && #[trigger] keys@[j]@ == k by {
                if k == keys@[i as int]@ {
                } else {
                    assert(before.contains_key(k));
                    let j = choose|j: int| 0 <= j < i && #[trigger] keys@[j]@ == k;
                    assert(keys@[j]@ == k);
                }
            }
            assert forall|k: Seq<char>|
                (exists|j: int| 0 <= j < i + 1 && #[trigger] keys@[j]@ == k) implies #[trigger] regions@.contains_key(
                k,
            ) by {
                let j = choose|j: int| 0 <= j < i + 1 && #[trigger] keys@[j]@ == k;
                if j < i {
                    assert(before.contains_key(k));
                }
            }
        }
        i += 1;
    }
    proof {
        assert forall|k: Seq<char>| #[trigger] entries.contains_key(k) implies value_as_u64(
            entries[k],
        ) is Some && regions@.contains_key(k) by {
            let j = choose|j: int| 0 <= j < keys@.len() && #[trigger] keys@[j]@ == k;
            assert(value_as_u64(entries[keys@[j]@]) is Some);
        }
        assert(regions_of(*v).unwrap() =~= regions@);
    }
    Some(regions)
}

/// Reads one workload from the JSON value that spells it.
fn decode_entry(v: &serde_json::Value) -> (r: Option<WorkloadMetrics>)
    ensures
        match r {
            Some(metrics) => entry_of(*v) == Some(metrics@),
            None => entry_of(*v) is None,
        },
{
    let fields = match v.as_object() {
        Some(fields) => fields,
        None => {
            return None;
        },
    };
    let name = match object_get(fields, "name") {
        Some(value) => match value.as_str() {
            Some(name) => String::from_str(name),
            None => {
                return None;
            },
        },
        None => {
            return None;
        },
    };
    let total_num_cycles = match object_get(fields, "total_num_cycles") {
        Some(value) => match value.as_u64() {
            Some(total) => total,
            None => {
                return None;
            },
        },
        None => {
            return None;
        },
    };
    let region_cycles = match object_get(fields, "region_cycles") {
        Some(value) => match decode_regions(value) {
            Some(regions) => regions,
            None => {
                return None;
            },
        },
        None => {
            return None;
        },
    };
    Some(WorkloadMetrics { name, total_num_cycles, region_cycles })
}

impl WorkloadMetrics {
    /// Writes a list of metrics as compact JSON.
    ///
    /// Always succeeds. The text is what `serde_json` writes, without
    /// whitespace, for the array that holds one object per workload, and it
    /// spells `items` again when read.
    pub fn to_json(items: &[WorkloadMetrics]) -> (r: Result<String, MetricsError>)
        ensures
            match r {
                Ok(text) => is_compact_json_of(text@, metrics_views(items@)) && parsed_metrics(text@)
                    == Some(metrics_views(items@)),
                Err(_) => false,
            },
    {
        let doc = encode_document(items);
        proof {
            lemma_encoded_document(doc@, metrics_views(items@));
        }
        match render_compact(&doc) {
            Ok(text) => {
                assert(encodes_all(doc@, metrics_views(items@)));
                Ok(text)
            },
            Err(e) => Err(MetricsError::Serde(e)),
        }
    }

    /// Writes a list of metrics as indented JSON, the form in which metrics
    /// files are kept.
    ///
    /// Always succeeds. The text is what `serde_json` writes, indented, for
    /// the array that holds one object per workload, and it spells `items`
    /// again when read.
    pub fn to_json_pretty(items: &[WorkloadMetrics]) -> (r: Result<String, MetricsError>)
        ensures
            match r {
                Ok(text) => is_pretty_json_of(text@, metrics_views(items@)) && parsed_metrics(text@)
                    == Some(metrics_views(items@)),
                Err(_) => false,
            },
    {
        let doc = encode_document(items);
        proof {
            lemma_encoded_document(doc@, metrics_views(items@));
        }
        match render_pretty(&doc) {
            Ok(text) => {
                assert(encodes_all(doc@, metrics_views(items@)));
                Ok(text)
            },
            Err(e) => Err(MetricsError::Serde(e)),
        }
    }

    /// Reads a list of metrics from JSON.
    ///
    /// Succeeds exactly on the texts that spell a list of metrics, and then
    /// returns that list. Every other text is answered with
    /// `MetricsError::Serde`.
    pub fn from_json(json: &str) -> (r: Result<Vec<WorkloadMetrics>, MetricsError>)
        ensures
            match r {
                Ok(items) => parsed_metrics(json@) == Some(metrics_views(items@)),
                Err(e) => parsed_metrics(json@) is None && e is Serde,
            },
    {
        let doc = match parse_document(json) {
            Ok(doc) => doc,
            Err(e) => {
                return Err(MetricsError::Serde(e));
            },
        };
        let mut items: Vec<WorkloadMetrics> = Vec::new();
        let mut i: usize = 0;
        while i < doc.len()
            invariant
                i <= doc@.len(),
                items@.len() == i,
                parsed_document(json@) == Some(doc@),
                forall|j: int| 0 <= j < i ==> (#[trigger] entry_of(doc@[j])) == Some(items@[j]@),
            decreases doc@.len() - i,
        {
            match decode_entry(&doc[i]) {
                Some(metrics) => {
                    items.push(metrics);
                },
                None => {
                    proof {
                        assert(entry_of(doc@[i as int]) is None);
                    }
                    return Err(
                        MetricsError::Serde(
                            data_error(
                                "expected an object with a string `name`, an unsigned `total_num_cycles` and a map of unsigned `region_cycles`",
                            ),
                        ),
                    );
                },
            }
            i += 1;
        }
        proof {
            assert(document_of(doc@).unwrap() =~= metrics_views(items@));
        }
        Ok(items)
    }
}

} // verus!
