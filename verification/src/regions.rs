//! Per-region cycle counts: a finite map from region names to cycles.

use vstd::prelude::*;
use vstd::std_specs::cmp::PartialEqSpecImpl;

verus! {

/// No region name occurs twice in `entries`.
pub open spec fn keys_distinct(entries: Seq<(String, u64)>) -> bool {
    forall|i: int, j: int|
        0 <= i < j < entries.len() ==> #[trigger] entries[i].0@ != #[trigger] entries[j].0@
}

/// The map that a list of `(region, cycles)` entries stands for. Where a name
/// occurs twice, the later entry counts.
pub open spec fn entries_map(entries: Seq<(String, u64)>) -> Map<Seq<char>, u64>
    decreases entries.len(),
{
    if entries.len() == 0 {
        Map::empty()
    } else {
        entries_map(entries.drop_last()).insert(entries.last().0@, entries.last().1)
    }
}

/// With distinct names, the map of a list holds exactly the list's entries.
pub proof fn lemma_entries_map(entries: Seq<(String, u64)>)
    requires
        keys_distinct(entries),
    ensures
        forall|i: int|
            0 <= i < entries.len() ==> entries_map(entries).contains_key(#[trigger] entries[i].0@)
                && entries_map(entries)[entries[i].0@] == entries[i].1,
        forall|k: Seq<char>|
            entries_map(entries).contains_key(k) ==> exists|i: int|
                0 <= i < entries.len() && #[trigger] entries[i].0@ == k,
        entries_map(entries).dom().finite(),
        entries_map(entries).dom().len() == entries.len(),
    decreases entries.len(),
{
    if entries.len() > 0 {
        let front = entries.drop_last();
        let last = entries.last();
        lemma_entries_map(front);
        assert forall|i: int| 0 <= i < entries.len() implies entries_map(entries).contains_key(
            #[trigger] entries[i].0@,
        ) && entries_map(entries)[entries[i].0@] == entries[i].1 by {
            if i < front.len() {
                assert(front[i] == entries[i]);
                assert(entries[i].0@ != entries[entries.len() - 1].0@);
            }
        }
        assert forall|k: Seq<char>| entries_map(entries).contains_key(k) implies exists|i: int|
            0 <= i < entries.len() && #[trigger] entries[i].0@ == k by {
            if k == last.0@ {
                assert(entries[entries.len() - 1].0@ == k);
            } else {
                let i = choose|i: int| 0 <= i < front.len() && #[trigger] front[i].0@ == k;
                assert(entries[i].0@ == k);
            }
        }
        assert(!entries_map(front).contains_key(last.0@)) by {
            if entries_map(front).contains_key(last.0@) {
                let i = choose|i: int| 0 <= i < front.len() && #[trigger] front[i].0@ == last.0@;
                assert(entries[i].0@ == entries[entries.len() - 1].0@);
            }
        }
    }
}

/// Replacing the count of an entry, under the same name, changes the map at
/// that name alone.
proof fn lemma_replace(entries: Seq<(String, u64)>, at: int, entry: (String, u64))
    requires
        keys_distinct(entries),
        0 <= at < entries.len(),
        entry.0@ == entries[at].0@,
    ensures
        keys_distinct(entries.update(at, entry)),
        entries_map(entries.update(at, entry)) == entries_map(entries).insert(entry.0@, entry.1),
{
    let now = entries.update(at, entry);
    assert(keys_distinct(now)) by {
        assert forall|a: int, b: int| 0 <= a < b < now.len() implies #[trigger] now[a].0@
            != #[trigger] now[b].0@ by {
            assert(now[a].0@ == entries[a].0@);
            assert(now[b].0@ == entries[b].0@);
        }
    }
    lemma_entries_map(entries);
    lemma_entries_map(now);
    let target = entries_map(entries).insert(entry.0@, entry.1);
    assert forall|k: Seq<char>| #[trigger] entries_map(now).dom().contains(k) implies target.dom().contains(k) by {
        let a = choose|a: int| 0 <= a < now.len() && #[trigger] now[a].0@ == k;
        assert(entries[a].0@ == k);
        assert(entries_map(entries).contains_key(entries[a].0@));
    }
    assert forall|k: Seq<char>| #[trigger] target.dom().contains(k) implies entries_map(now).dom().contains(k)
        && entries_map(now)[k] == target[k] by {
        if k == entry.0@ {
            assert(now[at].0@ == k);
            assert(entries_map(now).contains_key(now[at].0@));
        } else {
            assert(entries_map(entries).contains_key(k));
            let a = choose|a: int| 0 <= a < entries.len() && #[trigger] entries[a].0@ == k;
            assert(now[a] == entries[a]);
            assert(entries_map(now).contains_key(now[a].0@));
            assert(entries_map(entries).contains_key(entries[a].0@));
        }
    }
    assert(entries_map(now).dom() =~= target.dom());
    assert(entries_map(now) =~= target);
}

/// Appending an entry under a new name adds it to the map.
proof fn lemma_append(entries: Seq<(String, u64)>, entry: (String, u64))
    requires
        keys_distinct(entries),
        forall|j: int| 0 <= j < entries.len() ==> #[trigger] entries[j].0@ != entry.0@,
    ensures
        keys_distinct(entries.push(entry)),
        entries_map(entries.push(entry)) == entries_map(entries).insert(entry.0@, entry.1),
{
    let now = entries.push(entry);
    assert(now.drop_last() =~= entries);
    assert forall|a: int, b: int| 0 <= a < b < now.len() implies #[trigger] now[a].0@
        != #[trigger] now[b].0@ by {
        assert(now[a] == entries[a]);
        if b < entries.len() {
            assert(now[b] == entries[b]);
        }
    }
}

/// The place of the entry named `region`, if there is one.
fn position(entries: &Vec<(String, u64)>, region: &String) -> (r: Option<usize>)
    ensures
        match r {
            Some(i) => i < entries@.len() && entries@[i as int].0@ == region@,
            None => forall|j: int| 0 <= j < entries@.len() ==> #[trigger] entries@[j].0@ != region@,
        },
{
    let mut i: usize = 0;
    while i < entries.len()
        invariant
            i <= entries@.len(),
            forall|j: int| 0 <= j < i ==> #[trigger] entries@[j].0@ != region@,
        decreases entries@.len() - i,
    {
        if entries[i].0 == *region {
            return Some(i);
        }
        i += 1;
    }
    None
}

/// Cycle counts by region name. Each name has at most one count; the order in
/// which regions were recorded carries no meaning.
#[derive(Debug)]
pub struct RegionCycles {
    entries: Vec<(String, u64)>,
}

impl View for RegionCycles {
    type V = Map<Seq<char>, u64>;

    closed spec fn view(&self) -> Map<Seq<char>, u64> {
        entries_map(self.entries@)
    }
}

impl RegionCycles {
    #[verifier::type_invariant]
    spec fn well_formed(&self) -> bool {
        keys_distinct(self.entries@)
    }

    /// The entries in the order in which `entries` hands them out.
    pub closed spec fn listing(&self) -> Seq<(String, u64)> {
        self.entries@
    }

    /// A breakdown without regions.
    pub fn new() -> (r: Self)
        ensures
            r@ == Map::<Seq<char>, u64>::empty(),
    {
        RegionCycles { entries: Vec::new() }
    }

    /// The number of regions.
    pub fn len(&self) -> (n: usize)
        ensures
            self@.dom().finite(),
            n == self@.dom().len(),
    {
        proof {
            use_type_invariant(self);
            lemma_entries_map(self.entries@);
        }
        self.entries.len()
    }

    /// Whether there is no region at all.
    pub fn is_empty(&self) -> (r: bool)
        ensures
            r <==> self@ == Map::<Seq<char>, u64>::empty(),
    {
        proof {
            use_type_invariant(self);
            lemma_entries_map(self.entries@);
            if self.entries@.len() == 0 {
                assert(self@ =~= Map::<Seq<char>, u64>::empty());
            } else {
                assert(self@.contains_key(self.entries@[0].0@));
            }
        }
        self.entries.len() == 0
    }

    /// The cycles recorded for `region`, if any.
    pub fn get(&self, region: &str) -> (r: Option<u64>)
        ensures
            r == if self@.contains_key(region@) {
                Some(self@[region@])
            } else {
                None
            },
    {
        proof {
            use_type_invariant(self);
            lemma_entries_map(self.entries@);
        }
        let wanted = String::from_str(region);
        match position(&self.entries, &wanted) {
            Some(i) => Some(self.entries[i].1),
            None => None,
        }
    }

    /// Records `cycles` for `region`, in place of what was recorded for it
    /// before, and returns the earlier count if there was one.
    pub fn insert(&mut self, region: String, cycles: u64) -> (previous: Option<u64>)
        ensures
            final(self)@ == old(self)@.insert(region@, cycles),
            previous == if old(self)@.contains_key(region@) {
                Some(old(self)@[region@])
            } else {
                None
            },
    {
        proof {
            use_type_invariant(&*self);
            lemma_entries_map(self.entries@);
        }
        let found = position(&self.entries, &region);
        let ghost earlier = self.entries@;
        let ghost name = region@;
        let mut entries: Vec<(String, u64)> = Vec::new();
        std::mem::swap(&mut self.entries, &mut entries);
        let previous = match found {
            Some(i) => {
                let before = entries[i].1;
                entries.set(i, (region, cycles));
                proof {
                    lemma_replace(earlier, i as int, entries@[i as int]);
                }
                Some(before)
            },
            None => {
                entries.push((region, cycles));
                proof {
                    lemma_append(earlier, entries@.last());
                }
                None
            },
        };
        self.entries = entries;
        previous
    }

    /// The regions with their counts, each region once.
    pub fn entries(&self) -> (r: &Vec<(String, u64)>)
        ensures
            r@ == self.listing(),
            keys_distinct(r@),
            self@ == entries_map(r@),
    {
        proof {
            use_type_invariant(self);
        }
        &self.entries
    }
}

impl Clone for RegionCycles {
    fn clone(&self) -> (r: Self)
        ensures
            r@ == self@,
    {
        proof {
            use_type_invariant(self);
        }
        let mut entries: Vec<(String, u64)> = Vec::new();
        let mut i: usize = 0;
        while i < self.entries.len()
            invariant
                i <= self.entries@.len(),
                entries@.len() == i,
                forall|j: int| 0 <= j < i ==> #[trigger] entries@[j] == self.entries@[j],
            decreases self.entries@.len() - i,
        {
            entries.push((self.entries[i].0.clone(), self.entries[i].1));
            i += 1;
        }
        proof {
            assert(entries@ =~= self.entries@);
        }
        RegionCycles { entries }
    }
}

impl PartialEq for RegionCycles {
    /// Two breakdowns are equal when they record the same count for the same
    /// regions, in whatever order.
    fn eq(&self, other: &Self) -> (r: bool) {
        proof {
            use_type_invariant(self);
            use_type_invariant(other);
            lemma_entries_map(self.entries@);
            lemma_entries_map(other.entries@);
        }
        if self.entries.len() != other.entries.len() {
            return false;
        }
        let mut i: usize = 0;
        while i < self.entries.len()
            invariant
                i <= self.entries@.len(),
                keys_distinct(self.entries@),
                self@ == entries_map(self.entries@),
                forall|j: int|
                    0 <= j < i ==> other@.contains_key(#[trigger] self.entries@[j].0@) && other@[self.entries@[j].0@]
                        == self.entries@[j].1,
            decreases self.entries@.len() - i,
        {
            proof {
                lemma_entries_map(self.entries@);
            }
            let theirs = other.get(self.entries[i].0.as_str());
            match theirs {
                Some(cycles) => {
                    if cycles != self.entries[i].1 {
                        return false;
                    }
                },
                None => {
                    return false;
                },
            }
            i += 1;
        }
        proof {
            use_type_invariant(self);
            use_type_invariant(other);
            lemma_entries_map(self.entries@);
            lemma_entries_map(other.entries@);
        }
        proof {
            assert(self@.dom().subset_of(other@.dom())) by {
                assert forall|k: Seq<char>| self@.dom().contains(k) implies other@.dom().contains(
                    k,
                ) by {
                    let j = choose|j: int|
                        0 <= j < self.entries@.len() && #[trigger] self.entries@[j].0@ == k;
                    assert(other@.contains_key(self.entries@[j].0@));
                }
            }
            vstd::set_lib::lemma_subset_equality(self@.dom(), other@.dom());
            assert(self@ =~= other@) by {
                assert forall|k: Seq<char>| self@.dom().contains(k) implies self@[k] == other@[k] by {
                    let j = choose|j: int|
                        0 <= j < self.entries@.len() && #[trigger] self.entries@[j].0@ == k;
                    assert(other@[self.entries@[j].0@] == self.entries@[j].1);
                }
            }
        }
        true
    }
}

impl PartialEqSpecImpl for RegionCycles {
    open spec fn obeys_eq_spec() -> bool {
        true
    }

    open spec fn eq_spec(&self, other: &Self) -> bool {
        self@ == other@
    }
}

} // verus!
