//! The corpus store: lists of corpora as JSON.
//!
//! A corpus file is a JSON array of objects, one per corpus:
//! `{ "name": string, "blocks_and_witnesses": [...], "network": ... }`.
//! The pairs and the network specification are JSON documents of the crates
//! that define blocks, witnesses and genesis; the store keeps them as they
//! are.

use crate::depth::{fits_depth, lemma_within_deeper};
use crate::json::{
    array_value, compact_json, data_error, max_depth, object_entries, object_get, object_value,
    parse_document, parsed_document, pretty_json, render_compact, render_pretty, string_value,
    value_as_array, value_as_object, value_as_str, within_depth,
};
use vstd::prelude::*;

verus! {

/// A corpus as it is stored: its name, and its pairs and network
/// specification as JSON documents.
#[derive(Debug, Clone, PartialEq)]
pub struct BlocksAndWitnesses {
    /// Name of the test case.
    pub name: String,
    /// The block/witness pairs, in order.
    pub blocks_and_witnesses: Vec<serde_json::Value>,
    /// The network specification.
    pub network: serde_json::Value,
}

/// What a `BlocksAndWitnesses` stands for.
pub struct BlocksAndWitnessesView {
    pub name: Seq<char>,
    pub blocks: Seq<serde_json::Value>,
    pub network: serde_json::Value,
}

impl View for BlocksAndWitnesses {
    type V = BlocksAndWitnessesView;

    open spec fn view(&self) -> BlocksAndWitnessesView {
        BlocksAndWitnessesView {
            name: self.name@,
            blocks: self.blocks_and_witnesses@,
            network: self.network,
        }
    }
}

/// The views of a list of stored corpora, in order.
pub open spec fn stored_views(items: Seq<BlocksAndWitnesses>) -> Seq<BlocksAndWitnessesView> {
    Seq::new(items.len(), |i: int| items[i]@)
}

/// Why corpora could not be stored or read.
#[derive(Debug)]
pub enum BwError {
    /// The text is not JSON, or not JSON of the corpus schema; or a document
    /// nests too deeply to be written.
    Serde(serde_json::Error),
    /// The file system refused.
    Io(std::io::Error),
}

/// The field that holds the name of a corpus.
pub open spec fn corpus_name_key() -> Seq<char> {
    "name"@
}

/// The field that holds the pairs of a corpus.
pub open spec fn blocks_key() -> Seq<char> {
    "blocks_and_witnesses"@
}

/// The field that holds the network specification of a corpus.
pub open spec fn network_key() -> Seq<char> {
    "network"@
}

/// How deeply the document of a pair or of a network specification may nest
/// to be stored.
pub open spec fn payload_depth() -> nat {
    98
}

/// The pairs and the network specification of `c` nest at most
/// `payload_depth()` deep.
pub open spec fn storable(c: BlocksAndWitnessesView) -> bool {
    &&& forall|j: int| 0 <= j < c.blocks.len() ==> within_depth(#[trigger] c.blocks[j], payload_depth())
    &&& within_depth(c.network, payload_depth())
}

/// The corpus that a JSON value spells: an object with a string `name`, an
/// array `blocks_and_witnesses` and a `network`. Other fields are passed
/// over.
pub open spec fn corpus_of(v: serde_json::Value) -> Option<BlocksAndWitnessesView> {
    match value_as_object(v) {
        Some(fields) => if fields.contains_key(corpus_name_key()) && value_as_str(
            fields[corpus_name_key()],
        ) is Some && fields.contains_key(blocks_key()) && value_as_array(fields[blocks_key()]) is Some
            && fields.contains_key(network_key()) {
            Some(
                BlocksAndWitnessesView {
                    name: value_as_str(fields[corpus_name_key()]).unwrap(),
                    blocks: value_as_array(fields[blocks_key()]).unwrap(),
                    network: fields[network_key()],
                },
            )
        } else {
            None
        },
        None => None,
    }
}

/// The list of corpora that an array of JSON values spells, if every element
/// spells one.
pub open spec fn corpora_of(doc: Seq<serde_json::Value>) -> Option<Seq<BlocksAndWitnessesView>> {
    if forall|i: int| 0 <= i < doc.len() ==> (#[trigger] corpus_of(doc[i])) is Some {
        Some(Seq::new(doc.len(), |i: int| corpus_of(doc[i]).unwrap()))
    } else {
        None
    }
}

/// The list of corpora that a text spells: it must be a JSON array of which
/// every element spells one.
pub open spec fn parsed_corpora(text: Seq<char>) -> Option<Seq<BlocksAndWitnessesView>> {
    match parsed_document(text) {
        Some(doc) => corpora_of(doc),
        None => None,
    }
}

/// `v` is the object that is written for `c`: the three fields of the schema
/// and no other, holding the name, the pairs and the network specification
/// of `c`.
pub open spec fn frames(v: serde_json::Value, c: BlocksAndWitnessesView) -> bool {
    &&& value_as_object(v) matches Some(fields)
    &&& forall|k: Seq<char>| #[trigger]
        fields.contains_key(k) <==> k == corpus_name_key() || k == blocks_key() || k == network_key()
    &&& value_as_str(fields[corpus_name_key()]) == Some(c.name)
    &&& value_as_array(fields[blocks_key()]) == Some(c.blocks)
    &&& fields[network_key()] == c.network
}

/// `doc` is the array that is written for `items`, element by element.
pub open spec fn frames_all(doc: Seq<serde_json::Value>, items: Seq<BlocksAndWitnessesView>) -> bool {
    &&& doc.len() == items.len()
    &&& forall|i: int| 0 <= i < doc.len() ==> frames(#[trigger] doc[i], items[i])
}

/// `text` is the indented text that is written for `items`.
pub open spec fn is_pretty_corpora_of(text: Seq<char>, items: Seq<BlocksAndWitnessesView>) -> bool {
    exists|doc: Seq<serde_json::Value>|
        #[trigger] frames_all(doc, items) && text == pretty_json(doc) && parsed_document(text) == Some(
            doc,
        )
}

/// `text` is the compact text that is written for `items`.
pub open spec fn is_compact_corpora_of(text: Seq<char>, items: Seq<BlocksAndWitnessesView>) -> bool {
    exists|doc: Seq<serde_json::Value>|
        #[trigger] frames_all(doc, items) && text == compact_json(doc) && parsed_document(text)
            == Some(doc)
}

/// What is written for a list of corpora spells that list.
pub proof fn lemma_framed_document(doc: Seq<serde_json::Value>, items: Seq<BlocksAndWitnessesView>)
    requires
        frames_all(doc, items),
    ensures
        corpora_of(doc) == Some(items),
{
    assert forall|i: int| 0 <= i < doc.len() implies (#[trigger] corpus_of(doc[i])) == Some(
        items[i],
    ) by {
        let fields = value_as_object(doc[i]).unwrap();
        assert(frames(doc[i], items[i]));
        assert(fields.contains_key(corpus_name_key()));
        assert(fields.contains_key(blocks_key()));
        assert(fields.contains_key(network_key()));
    }
    assert(corpora_of(doc).unwrap() =~= items);
}

/// Round trip. What `to_json` or `to_json_compact` writes for a list of
/// corpora, `from_json` reads as that same list: the read succeeds, and what
/// it returns has the views `items`.
pub proof fn lemma_corpus_round_trip(
    text: Seq<char>,
    items: Seq<BlocksAndWitnessesView>,
    read: Result<Vec<BlocksAndWitnesses>, BwError>,
)
    requires
        is_pretty_corpora_of(text, items) || is_compact_corpora_of(text, items),
        match read {
            Ok(back) => parsed_corpora(text) == Some(stored_views(back@)),
            Err(e) => parsed_corpora(text) is None && e is Serde,
        },
    ensures
        parsed_corpora(text) == Some(items),
        read matches Ok(back) && stored_views(back@) == items,
{
    let doc = choose|doc: Seq<serde_json::Value>|
        #[trigger] frames_all(doc, items) && parsed_document(text) == Some(doc);
    lemma_framed_document(doc, items);
}

/// A copy of a list of JSON values.
fn copy_values(values: &Vec<serde_json::Value>) -> (r: Vec<serde_json::Value>)
    ensures
        r@ == values@,
{
    let mut copies: Vec<serde_json::Value> = Vec::new();
    let mut i: usize = 0;
    while i < values.len()
        invariant
            i <= values@.len(),
            copies@.len() == i,
            forall|j: int| 0 <= j < i ==> #[trigger] copies@[j] == values@[j],
        decreases values@.len() - i,
    {
        copies.push(values[i].clone());
        i += 1;
    }
    proof {
        assert(copies@ =~= values@);
    }
    copies
}

/// Whether the pairs and the network specification of `corpus` nest at most
/// `payload_depth()` deep.
pub fn is_storable(corpus: &BlocksAndWitnesses) -> (r: bool)
    ensures
        r == storable(corpus@),
{
    let mut j: usize = 0;
    while j < corpus.blocks_and_witnesses.len()
        invariant
            j <= corpus.blocks_and_witnesses@.len(),
            forall|k: int|
                0 <= k < j ==> within_depth(#[trigger] corpus.blocks_and_witnesses@[k], payload_depth()),
        decreases corpus.blocks_and_witnesses@.len() - j,
    {
        if !fits_depth(&corpus.blocks_and_witnesses[j], 98) {
            proof {
                assert(!within_depth(corpus@.blocks[j as int], payload_depth()));
            }
            return false;
        }
        j += 1;
    }
    fits_depth(&corpus.network, 98)
}

/// The JSON object of one corpus.
fn encode_corpus(corpus: &BlocksAndWitnesses) -> (r: serde_json::Value)
    requires
        storable(corpus@),
    ensures
        frames(r, corpus@),
        within_depth(r, max_depth()),
{
    let pairs = array_value(copy_values(&corpus.blocks_and_witnesses));
    let network = corpus.network.clone();
    proof {
        assert forall|j: int| 0 <= j < corpus@.blocks.len() implies within_depth(
            #[trigger] value_as_array(pairs)->Some_0[j],
            payload_depth(),
        ) by {
            assert(within_depth(corpus@.blocks[j], payload_depth()));
        }
        assert(within_depth(pairs, 99));
        lemma_within_deeper(network, payload_depth(), 99);
    }
    let mut object = serde_json::Map::new();
    object.insert(String::from_str("name"), string_value(corpus.name.clone()));
    object.insert(String::from_str("blocks_and_witnesses"), pairs);
    object.insert(String::from_str("network"), network);
    proof {
        reveal_strlit("name");
        reveal_strlit("blocks_and_witnesses");
        reveal_strlit("network");
        assert(corpus_name_key().len() == 4);
        assert(blocks_key().len() == 20);
        assert(network_key().len() == 7);
        assert forall|k: Seq<char>| #[trigger] object_entries(object).contains_key(k) implies within_depth(
            object_entries(object)[k],
            99,
        ) by {}
    }
    object_value(object)
}

/// The JSON array of a list of corpora, or `None` where one of them is not
/// storable.
fn encode_corpora(items: &[BlocksAndWitnesses]) -> (r: Option<Vec<serde_json::Value>>)
    ensures
        match r {
            Some(doc) => {
                &&& frames_all(doc@, stored_views(items@))
                &&& forall|i: int| 0 <= i < doc@.len() ==> within_depth(#[trigger] doc@[i], max_depth())
                &&& forall|i: int| 0 <= i < items@.len() ==> storable(#[trigger] items@[i]@)
            },
            None => exists|i: int| 0 <= i < items@.len() && !storable(#[trigger] items@[i]@),
        },
{
    let mut doc: Vec<serde_json::Value> = Vec::new();
    let mut i: usize = 0;
    while i < items.len()
        invariant
            i <= items@.len(),
            doc@.len() == i,
            forall|j: int| 0 <= j < i ==> frames(#[trigger] doc@[j], items@[j]@),
            forall|j: int| 0 <= j < i ==> within_depth(#[trigger] doc@[j], max_depth()),
            forall|j: int| 0 <= j < i ==> storable(#[trigger] items@[j]@),
        decreases items@.len() - i,
    {
        if !is_storable(&items[i]) {
            return None;
        }
        doc.push(encode_corpus(&items[i]));
        i += 1;
    }
    Some(doc)
}

/// Reads one corpus from the JSON value that spells it.
fn decode_corpus(v: &serde_json::Value) -> (r: Option<BlocksAndWitnesses>)
    ensures
        match r {
            Some(corpus) => corpus_of(*v) == Some(corpus@),
            None => corpus_of(*v) is None,
        },
{
    let fields = match v.as_object() {
        Some(fields) => fields,
        None => {
            return None;
        },
    };
    let name = match object_get(fields, "name") {
        Some(value) => match value.as_str() {
            Some(name) => String::from_str(name),
            None => {
                return None;
            },
        },
        None => {
            return None;
        },
    };
    let blocks_and_witnesses = match object_get(fields, "blocks_and_witnesses") {
        Some(value) => match value.as_array() {
            Some(pairs) => copy_values(pairs),
            None => {
                return None;
            },
        },
        None => {
            return None;
        },
    };
    let network = match object_get(fields, "network") {
        Some(value) => value.clone(),
        None => {
            return None;
        },
    };
    Some(BlocksAndWitnesses { name, blocks_and_witnesses, network })
}

impl BlocksAndWitnesses {
    /// Writes a list of corpora as indented JSON, the form in which corpus
    /// files are kept.
    ///
    /// Succeeds unless the document of a pair or of a network specification
    /// nests deeper than `payload_depth()`. The text is what `serde_json`
    /// writes, indented, for the array that holds one object per corpus, and
    /// it spells `items` again when read.
    pub fn to_json(items: &[BlocksAndWitnesses]) -> (r: Result<String, BwError>)
        ensures
            match r {
                Ok(text) => {
                    &&& forall|i: int| 0 <= i < items@.len() ==> storable(#[trigger] items@[i]@)
                    &&& is_pretty_corpora_of(text@, stored_views(items@))
                    &&& parsed_corpora(text@) == Some(stored_views(items@))
                },
                Err(e) => e is Serde && exists|i: int|
                    0 <= i < items@.len() && !storable(#[trigger] items@[i]@),
            },
    {
        let doc = match encode_corpora(items) {
            Some(doc) => doc,
            None => {
                return Err(BwError::Serde(data_error("a document nests too deeply to be stored")));
            },
        };
        proof {
            lemma_framed_document(doc@, stored_views(items@));
        }
        match render_pretty(&doc) {
            Ok(text) => {
                assert(frames_all(doc@, stored_views(items@)));
                Ok(text)
            },
            Err(e) => Err(BwError::Serde(e)),
        }
    }

    /// Writes a list of corpora as compact JSON: as `to_json`, without
    /// whitespace.
    pub fn to_json_compact(items: &[BlocksAndWitnesses]) -> (r: Result<String, BwError>)
        ensures
            match r {
                Ok(text) => {
                    &&& forall|i: int| 0 <= i < items@.len() ==> storable(#[trigger] items@[i]@)
                    &&& is_compact_corpora_of(text@, stored_views(items@))
                    &&& parsed_corpora(text@) == Some(stored_views(items@))
                },
                Err(e) => e is Serde && exists|i: int|
                    0 <= i < items@.len() && !storable(#[trigger] items@[i]@),
            },
    {
        let doc = match encode_corpora(items) {
            Some(doc) => doc,
            None => {
                return Err(BwError::Serde(data_error("a document nests too deeply to be stored")));
            },
        };
        proof {
            lemma_framed_document(doc@, stored_views(items@));
        }
        match render_compact(&doc) {
            Ok(text) => {
                assert(frames_all(doc@, stored_views(items@)));
                Ok(text)
            },
            Err(e) => Err(BwError::Serde(e)),
        }
    }

    /// Reads a list of corpora from JSON.
    ///
    /// Succeeds exactly on the texts that spell a list of corpora, and then
    /// returns that list. Every other text is answered with `BwError::Serde`.
    pub fn from_json(json: &str) -> (r: Result<Vec<BlocksAndWitnesses>, BwError>)
        ensures
            match r {
                Ok(items) => parsed_corpora(json@) == Some(stored_views(items@)),
                Err(e) => parsed_corpora(json@) is None && e is Serde,
            },
    {
        let doc = match parse_document(json) {
            Ok(doc) => doc,
            Err(e) => {
                return Err(BwError::Serde(e));
            },
        };
        let mut items: Vec<BlocksAndWitnesses> = Vec::new();
        let mut i: usize = 0;
        while i < doc.len()
            invariant
                i <= doc@.len(),
                items@.len() == i,
                parsed_document(json@) == Some(doc@),
                forall|j: int| 0 <= j < i ==> (#[trigger] corpus_of(doc@[j])) == Some(items@[j]@),
            decreases doc@.len() - i,
        {
            match decode_corpus(&doc[i]) {
                Some(corpus) => {
                    items.push(corpus);
                },
                None => {
                    proof {
                        assert(corpus_of(doc@[i as int]) is None);
                    }
                    return Err(
                        BwError::Serde(
                            data_error(
                                "expected an object with a string `name`, an array `blocks_and_witnesses` and a `network`",
                            ),
                        ),
                    );
                },
            }
            i += 1;
        }
        proof {
            assert(corpora_of(doc@).unwrap() =~= stored_views(items@));
        }
        Ok(items)
    }
}

} // verus!
