//! Corpora: named, ordered collections of block/witness pairs that share one
//! network specification.

use vstd::prelude::*;

verus! {

/// One unit of work: a block with its execution witness. Of the block only
/// its number is read here; block and witness themselves are carried along
/// as `payload`.
#[derive(Debug, Clone, PartialEq)]
pub struct BlockWitnessPair<P> {
    /// The number of the block.
    pub block_number: u64,
    /// The block and its witness.
    pub payload: P,
}

/// The block numbers of a list of pairs, in order.
pub open spec fn block_numbers<P>(pairs: Seq<BlockWitnessPair<P>>) -> Seq<u64> {
    Seq::new(pairs.len(), |i: int| pairs[i].block_number)
}

/// No number is followed by a smaller one.
pub open spec fn ascending(numbers: Seq<u64>) -> bool {
    forall|i: int, j: int| 0 <= i < j < numbers.len() ==> numbers[i] <= numbers[j]
}

/// What a corpus asks of its blocks: there is at least one, and they come in
/// ascending order of block number.
pub open spec fn valid_chain(numbers: Seq<u64>) -> bool {
    numbers.len() > 0 && ascending(numbers)
}

/// Why a list of pairs is no corpus.
#[derive(Debug, Clone, Copy, PartialEq, Eq, Structural)]
pub enum InvalidCorpus {
    /// There is no block.
    Empty,
    /// A block is followed by one with a smaller number.
    OutOfOrder,
}

/// A named collection of block/witness pairs of one test case, with the
/// network specification under which they are validated. It holds at least
/// one pair, and its pairs come in ascending order of block number.
#[derive(Debug)]
pub struct Corpus<P, N> {
    name: String,
    blocks_and_witnesses: Vec<BlockWitnessPair<P>>,
    network: N,
}

/// What a corpus stands for: its name, its pairs in order, and its network
/// specification.
pub struct CorpusView<P, N> {
    pub name: Seq<char>,
    pub blocks: Seq<BlockWitnessPair<P>>,
    pub network: N,
}

impl<P, N> View for Corpus<P, N> {
    type V = CorpusView<P, N>;

    closed spec fn view(&self) -> CorpusView<P, N> {
        CorpusView { name: self.name@, blocks: self.blocks_and_witnesses@, network: self.network }
    }
}

/// The views of a list of corpora, in order.
pub open spec fn corpus_views<P, N>(corpora: Seq<Corpus<P, N>>) -> Seq<CorpusView<P, N>> {
    Seq::new(corpora.len(), |i: int| corpora[i]@)
}

/// Whether the pairs come in ascending order of block number.
pub fn is_ascending<P>(pairs: &Vec<BlockWitnessPair<P>>) -> (r: bool)
    ensures
        r == ascending(block_numbers(pairs@)),
{
    let ghost numbers = block_numbers(pairs@);
    let mut i: usize = 1;
    while i < pairs.len()
        invariant
            1 <= i,
            numbers == block_numbers(pairs@),
            forall|a: int, b: int| 0 <= a < b < i && b < numbers.len() ==> numbers[a] <= numbers[b],
        decreases pairs@.len() - i,
    {
        if pairs[i - 1].block_number > pairs[i].block_number {
            proof {
                assert(numbers[i - 1] > numbers[i as int]);
            }
            return false;
        }
        proof {
            assert forall|a: int, b: int| 0 <= a < b < i + 1 && b < numbers.len() implies numbers[a]
                <= numbers[b] by {
                if b == i {
                    assert(numbers[i - 1] <= numbers[i as int]);
                    if a < i - 1 {
                        assert(numbers[a] <= numbers[i - 1]);
                    }
                }
            }
        }
        i += 1;
    }
    true
}

impl<P, N> Corpus<P, N> {
    #[verifier::type_invariant]
    spec fn well_formed(&self) -> bool {
        valid_chain(block_numbers(self.blocks_and_witnesses@))
    }

    /// Makes a corpus of `blocks_and_witnesses`, which must be a valid chain:
    /// not empty, and in ascending order of block number.
    pub fn new(name: String, blocks_and_witnesses: Vec<BlockWitnessPair<P>>, network: N) -> (r: Result<
        Self,
        InvalidCorpus,
    >)
        ensures
            match r {
                Ok(corpus) => {
                    &&& valid_chain(block_numbers(blocks_and_witnesses@))
                    &&& corpus@ == (CorpusView { name: name@, blocks: blocks_and_witnesses@, network })
                },
                Err(InvalidCorpus::Empty) => blocks_and_witnesses@.len() == 0,
                Err(InvalidCorpus::OutOfOrder) => blocks_and_witnesses@.len() > 0 && !ascending(
                    block_numbers(blocks_and_witnesses@),
                ),
            },
    {
        if blocks_and_witnesses.len() == 0 {
            Err(InvalidCorpus::Empty)
        } else if !is_ascending(&blocks_and_witnesses) {
            Err(InvalidCorpus::OutOfOrder)
        } else {
            Ok(Corpus { name, blocks_and_witnesses, network })
        }
    }

    /// The name of the corpus.
    pub fn name(&self) -> (r: &str)
        ensures
            r@ == self@.name,
    {
        self.name.as_str()
    }

    /// The pairs of the corpus: at least one, in ascending order of block
    /// number.
    pub fn blocks_and_witnesses(&self) -> (r: &Vec<BlockWitnessPair<P>>)
        ensures
            r@ == self@.blocks,
            valid_chain(block_numbers(r@)),
    {
        proof {
            use_type_invariant(self);
        }
        &self.blocks_and_witnesses
    }

    /// The network specification of the corpus.
    pub fn network(&self) -> (r: &N)
        ensures
            *r == self@.network,
    {
        &self.network
    }
}

} // verus!
