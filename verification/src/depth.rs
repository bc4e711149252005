//! How deeply JSON values nest.

use crate::json::{object_entries, object_get, object_keys, value_as_array, value_as_object, within_depth};
use vstd::prelude::*;

verus! {

/// What nests at most `depth` deep nests at most `deeper` deep.
pub proof fn lemma_within_deeper(v: serde_json::Value, depth: nat, deeper: nat)
    requires
        within_depth(v, depth),
        depth <= deeper,
    ensures
        within_depth(v, deeper),
    decreases depth,
{
    if let Some(items) = value_as_array(v) {
        assert forall|i: int| 0 <= i < items.len() implies within_depth(
            #[trigger] items[i],
            (deeper - 1) as nat,
        ) by {
            lemma_within_deeper(items[i], (depth - 1) as nat, (deeper - 1) as nat);
        }
    }
    if let Some(entries) = value_as_object(v) {
        assert forall|k: Seq<char>| #[trigger] entries.contains_key(k) implies within_depth(
            entries[k],
            (deeper - 1) as nat,
        ) by {
            lemma_within_deeper(entries[k], (depth - 1) as nat, (deeper - 1) as nat);
        }
    }
}

/// Whether the arrays and objects of `v` nest at most `depth` deep.
pub fn fits_depth(v: &serde_json::Value, depth: usize) -> (r: bool)
    ensures
        r == within_depth(*v, depth as nat),
    decreases depth,
{
    match v.as_array() {
        Some(items) => {
            if depth == 0 {
                return false;
            }
            let mut i: usize = 0;
            while i < items.len()
                invariant
                    i <= items@.len(),
                    depth > 0,
                    value_as_array(*v) == Some(items@),
                    forall|j: int| 0 <= j < i ==> within_depth(#[trigger] items@[j], (depth - 1) as nat),
                decreases items@.len() - i,
            {
                if !fits_depth(&items[i], depth - 1) {
                    proof {
                        let held = value_as_array(*v)->Some_0;
                        assert(held == items@);
                        assert(!within_depth(held[i as int], (depth - 1) as nat));
                    }
                    return false;
                }
                i += 1;
            }
        },
        None => {},
    }
    match v.as_object() {
        Some(object) => {
            if depth == 0 {
                return false;
            }
            let ghost entries = object_entries(*object);
            let keys = object_keys(object);
            let mut i: usize = 0;
            while i < keys.len()
                invariant
                    i <= keys@.len(),
                    depth > 0,
                    entries == object_entries(*object),
                    value_as_object(*v) == Some(entries),
                    forall|j: int| 0 <= j < keys@.len() ==> entries.contains_key(#[trigger] keys@[j]@),
                    forall|j: int|
                        0 <= j < i ==> within_depth(entries[#[trigger] keys@[j]@], (depth - 1) as nat),
                decreases keys@.len() - i,
            {
                match object_get(object, keys[i].as_str()) {
                    Some(value) => {
                        if !fits_depth(value, depth - 1) {
                            proof {
                                let held = value_as_object(*v)->Some_0;
                                assert(held == entries);
                                assert(held.contains_key(keys@[i as int]@));
                                assert(!within_depth(held[keys@[i as int]@], (depth - 1) as nat));
                            }
                            return false;
                        }
                    },
                    None => {},
                }
                i += 1;
            }
            proof {
                assert forall|k: Seq<char>| #[trigger] entries.contains_key(k) implies within_depth(
                    entries[k],
                    (depth - 1) as nat,
                ) by {
                    let j = choose|j: int| 0 <= j < keys@.len() && #[trigger] keys@[j]@ == k;
                    assert(within_depth(entries[keys@[j]@], (depth - 1) as nat));
                }
            }
        },
        None => {},
    }
    true
}

} // verus!
