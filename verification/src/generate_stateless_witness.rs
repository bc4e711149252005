//! The corpus generator: from the test cases of a fixture file to corpora.
//!
//! Loading fixtures and producing witnesses is the work of a validator that
//! lives outside this crate. What is decided here is which test cases are
//! run, what a run contributes, and when generation fails.
//!
//! Generation for a fixture file is all or nothing: the first test case whose
//! run fails ends it with that failure, and nothing is emitted for the file.

use crate::corpus::{
    ascending, block_numbers, corpus_views, valid_chain, BlockWitnessPair, Corpus,
    CorpusView, InvalidCorpus,
};
use crate::text::same_text;
use vstd::prelude::*;

verus! {

/// One named test case of a fixture file: the tag of the network fork under
/// which it runs, and its definition, which is handed to the validator as it
/// is.
#[derive(Debug, Clone, PartialEq)]
pub struct TestCase<C> {
    pub name: String,
    pub network: String,
    pub definition: C,
}

/// Why no corpus could be generated.
#[derive(Debug, Clone, PartialEq, Eq)]
pub enum GenerationError {
    /// A fixture file could not be loaded.
    Load(String),
    /// A fixture file could not be parsed.
    Parse(String),
    /// The validator failed while it produced the witnesses of a test case.
    Witness(String),
    /// The blocks of the named test case do not come in ascending order.
    BlockOrder(String),
    /// The named test case would give a corpus under a name that another
    /// corpus of the same run already bears.
    DuplicateName(String),
}

/// What the validator hands back for a test case: the block/witness pairs of
/// its chain segment, in order, with the network specification; or a failure.
pub type Outcome<P, N> = Result<(Vec<BlockWitnessPair<P>>, N), GenerationError>;

/// `fork` is one of the excluded fork tags.
pub open spec fn fork_excluded(excluded: Seq<String>, fork: Seq<char>) -> bool {
    exists|i: int| 0 <= i < excluded.len() && #[trigger] excluded[i]@ == fork
}

/// What one test case contributes, given what the validator made of it.
///
/// A test case of an excluded fork contributes nothing, whatever the
/// validator would make of it. Otherwise a failure of the validator is the
/// failure of the generation; a run without blocks contributes nothing;
/// blocks out of order are a failure; and blocks in order make one corpus,
/// named after the test case.
pub open spec fn contribution<C, P, N>(
    test: TestCase<C>,
    excluded: Seq<String>,
    outcome: Outcome<P, N>,
) -> Result<Option<CorpusView<P, N>>, GenerationError> {
    if fork_excluded(excluded, test.network@) {
        Ok(None)
    } else {
        match outcome {
            Err(e) => Err(e),
            Ok((pairs, network)) => if pairs@.len() == 0 {
                Ok(None)
            } else if !ascending(block_numbers(pairs@)) {
                Err(GenerationError::BlockOrder(test.name))
            } else {
                Ok(Some(CorpusView { name: test.name@, blocks: pairs@, network }))
            },
        }
    }
}

/// The names that the corpora bear.
pub open spec fn names_of<P, N>(corpora: Seq<CorpusView<P, N>>) -> Set<Seq<char>> {
    Set::new(|name: Seq<char>| exists|j: int| 0 <= j < corpora.len() && #[trigger] corpora[j].name == name)
}

/// What the test cases of a fixture file come to, given what the validator
/// made of each and the names that earlier corpora of the run bear: the
/// corpora that they contribute, in the order of the test cases, or the first
/// failure. A test case whose corpus would bear a name already taken, by an
/// earlier corpus of the run or of the file, is a failure.
pub open spec fn generated<C, P, N>(
    tests: Seq<TestCase<C>>,
    excluded: Seq<String>,
    outcomes: Seq<Outcome<P, N>>,
    taken: Set<Seq<char>>,
) -> Result<Seq<CorpusView<P, N>>, GenerationError>
    decreases tests.len(),
{
    if tests.len() == 0 {
        Ok(Seq::empty())
    } else {
        match generated(tests.drop_last(), excluded, outcomes.drop_last(), taken) {
            Err(e) => Err(e),
            Ok(done) => match contribution(tests.last(), excluded, outcomes.last()) {
                Err(e) => Err(e),
                Ok(None) => Ok(done),
                Ok(Some(corpus)) => if taken.contains(corpus.name) || names_of(done).contains(
                    corpus.name,
                ) {
                    Err(GenerationError::DuplicateName(tests.last().name))
                } else {
                    Ok(done.push(corpus))
                },
            },
        }
    }
}

/// Whether `fork` is one of the excluded fork tags.
pub fn is_excluded(excluded: &Vec<String>, fork: &String) -> (r: bool)
    ensures
        r == fork_excluded(excluded@, fork@),
{
    let mut i: usize = 0;
    while i < excluded.len()
        invariant
            i <= excluded@.len(),
            forall|j: int| 0 <= j < i ==> #[trigger] excluded@[j]@ != fork@,
        decreases excluded@.len() - i,
    {
        if excluded[i] == *fork {
            return true;
        }
        i += 1;
    }
    false
}

/// What a test case contributes, given what the validator made of it.
pub fn contribute<C, P, N>(test: &TestCase<C>, excluded: &Vec<String>, outcome: Outcome<P, N>) -> (r:
    Result<Option<Corpus<P, N>>, GenerationError>)
    ensures
        match r {
            Ok(Some(corpus)) => contribution(*test, excluded@, outcome) == Ok::<
                Option<CorpusView<P, N>>,
                GenerationError,
            >(Some(corpus@)),
            Ok(None) => contribution(*test, excluded@, outcome) == Ok::<
                Option<CorpusView<P, N>>,
                GenerationError,
            >(None),
            Err(e) => contribution(*test, excluded@, outcome) == Err::<
                Option<CorpusView<P, N>>,
                GenerationError,
            >(e),
        },
{
    if is_excluded(excluded, &test.network) {
        return Ok(None);
    }
    match outcome {
        Err(e) => Err(e),
        Ok((pairs, network)) => {
            match Corpus::new(test.name.clone(), pairs, network) {
                Ok(corpus) => Ok(Some(corpus)),
                Err(InvalidCorpus::Empty) => Ok(None),
                Err(InvalidCorpus::OutOfOrder) => Err(GenerationError::BlockOrder(test.name.clone())),
            }
        },
    }
}

/// `result` is a possible end of generating from `tests`: the validator was
/// asked for the test cases of forks that are not excluded, in order, up to
/// the first failure, and `result` is what its answers come to.
pub open spec fn is_generation_of<C, P, N, R>(
    tests: Seq<TestCase<C>>,
    excluded: Seq<String>,
    run_case: R,
    taken: Set<Seq<char>>,
    result: Result<Seq<CorpusView<P, N>>, GenerationError>,
) -> bool where R: Fn(&TestCase<C>) -> Outcome<P, N> {
    exists|outcomes: Seq<Outcome<P, N>>|
        {
            &&& outcomes.len() <= tests.len()
            &&& forall|i: int|
                0 <= i < outcomes.len() && !fork_excluded(excluded, tests[i].network@)
                    ==> call_ensures(run_case, (&tests[i],), #[trigger] outcomes[i])
            &&& result is Ok ==> outcomes.len() == tests.len()
            &&& #[trigger] generated(tests.take(outcomes.len() as int), excluded, outcomes, taken)
                == result
        }
}

/// No two of the corpora bear the same name, and none bears a name in
/// `taken`.
pub open spec fn names_fresh<P, N>(corpora: Seq<CorpusView<P, N>>, taken: Set<Seq<char>>) -> bool {
    &&& forall|a: int, b: int|
        0 <= a < b < corpora.len() ==> (#[trigger] corpora[a]).name != (#[trigger] corpora[b]).name
    &&& forall|a: int| 0 <= a < corpora.len() ==> !taken.contains((#[trigger] corpora[a]).name)
}

/// Every corpus that is generated holds at least one block, and holds its
/// blocks in ascending order.
pub proof fn lemma_generated_valid<C, P, N>(
    tests: Seq<TestCase<C>>,
    excluded: Seq<String>,
    outcomes: Seq<Outcome<P, N>>,
    taken: Set<Seq<char>>,
)
    ensures
        generated(tests, excluded, outcomes, taken) matches Ok(corpora) ==> forall|j: int|
            0 <= j < corpora.len() ==> valid_chain(block_numbers((#[trigger] corpora[j]).blocks)),
    decreases tests.len(),
{
    if tests.len() > 0 {
        lemma_generated_valid(tests.drop_last(), excluded, outcomes.drop_last(), taken);
    }
}

/// The corpora that are generated bear names of their own: no two the same
/// name, and none a name that was taken before.
pub proof fn lemma_generated_names_fresh<C, P, N>(
    tests: Seq<TestCase<C>>,
    excluded: Seq<String>,
    outcomes: Seq<Outcome<P, N>>,
    taken: Set<Seq<char>>,
)
    ensures
        generated(tests, excluded, outcomes, taken) matches Ok(corpora) ==> names_fresh(corpora, taken),
    decreases tests.len(),
{
    if tests.len() > 0 {
        lemma_generated_names_fresh(tests.drop_last(), excluded, outcomes.drop_last(), taken);
        if let Ok(corpora) = generated(tests, excluded, outcomes, taken) {
            let done = generated(tests.drop_last(), excluded, outcomes.drop_last(), taken)->Ok_0;
            assert forall|a: int, b: int| 0 <= a < b < corpora.len() implies (#[trigger] corpora[a]).name
                != (#[trigger] corpora[b]).name by {
                if b < done.len() {
                    assert(corpora[a] == done[a]);
                    assert(corpora[b] == done[b]);
                } else {
                    assert(corpora[a] == done[a]);
                    assert(!names_of(done).contains(corpora[b].name));
                }
            }
            assert forall|a: int| 0 <= a < corpora.len() implies !taken.contains(
                (#[trigger] corpora[a]).name,
            ) by {
                if a < done.len() {
                    assert(corpora[a] == done[a]);
                }
            }
        }
    }
}

/// Every corpus that is generated is named after a test case whose fork is
/// not excluded.
pub proof fn lemma_generated_from_retained<C, P, N>(
    tests: Seq<TestCase<C>>,
    excluded: Seq<String>,
    outcomes: Seq<Outcome<P, N>>,
    taken: Set<Seq<char>>,
)
    ensures
        generated(tests, excluded, outcomes, taken) matches Ok(corpora) ==> forall|j: int|
            0 <= j < corpora.len() ==> exists|i: int|
                0 <= i < tests.len() && (#[trigger] tests[i]).name@ == (#[trigger] corpora[j]).name
                    && !fork_excluded(excluded, tests[i].network@),
    decreases tests.len(),
{
    if tests.len() > 0 {
        let front = tests.drop_last();
        lemma_generated_from_retained(front, excluded, outcomes.drop_last(), taken);
        if let Ok(corpora) = generated(tests, excluded, outcomes, taken) {
            let done = generated(front, excluded, outcomes.drop_last(), taken)->Ok_0;
            assert forall|j: int| 0 <= j < corpora.len() implies exists|i: int|
                0 <= i < tests.len() && (#[trigger] tests[i]).name@ == (#[trigger] corpora[j]).name
                    && !fork_excluded(excluded, tests[i].network@) by {
                if j < done.len() {
                    assert(corpora[j] == done[j]);
                    let i = choose|i: int|
                        0 <= i < front.len() && (#[trigger] front[i]).name@ == done[j].name
                            && !fork_excluded(excluded, front[i].network@);
                    assert(tests[i] == front[i]);
                } else {
                    let i = tests.len() - 1;
                    assert(tests[i].name@ == corpora[j].name);
                }
            }
        }
    }
}

/// Fork exclusion. A test case of an excluded fork contributes no corpus:
/// what is generated is what would be generated without that test case.
pub proof fn lemma_excluded_contributes_nothing<C, P, N>(
    tests: Seq<TestCase<C>>,
    excluded: Seq<String>,
    outcomes: Seq<Outcome<P, N>>,
    taken: Set<Seq<char>>,
    at: int,
)
    requires
        outcomes.len() == tests.len(),
        0 <= at < tests.len(),
        fork_excluded(excluded, tests[at].network@),
    ensures
        generated(tests, excluded, outcomes, taken) == generated(
            tests.remove(at),
            excluded,
            outcomes.remove(at),
            taken,
        ),
    decreases tests.len(),
{
    if at == tests.len() - 1 {
        assert(tests.remove(at) =~= tests.drop_last());
        assert(outcomes.remove(at) =~= outcomes.drop_last());
    } else {
        lemma_excluded_contributes_nothing(
            tests.drop_last(),
            excluded,
            outcomes.drop_last(),
            taken,
            at,
        );
        assert(tests.remove(at).drop_last() =~= tests.drop_last().remove(at));
        assert(outcomes.remove(at).drop_last() =~= outcomes.drop_last().remove(at));
        assert(tests.remove(at).last() == tests.last());
        assert(outcomes.remove(at).last() == outcomes.last());
    }
}

/// Whether one of the corpora bears the name `name`.
pub fn is_name_taken<P, N>(corpora: &Vec<Corpus<P, N>>, name: &str) -> (r: bool)
    ensures
        r == names_of(corpus_views(corpora@)).contains(name@),
{
    let mut j: usize = 0;
    while j < corpora.len()
        invariant
            j <= corpora@.len(),
            forall|k: int| 0 <= k < j ==> (#[trigger] corpora@[k])@.name != name@,
        decreases corpora@.len() - j,
    {
        if same_text(corpora[j].name(), name) {
            proof {
                assert(corpus_views(corpora@)[j as int].name == name@);
            }
            return true;
        }
        j += 1;
    }
    proof {
        if names_of(corpus_views(corpora@)).contains(name@) {
            let k = choose|k: int|
                0 <= k < corpus_views(corpora@).len() && #[trigger] corpus_views(corpora@)[k].name
                    == name@;
            assert(corpora@[k]@.name == name@);
        }
    }
    false
}

/// Generates the corpora of the test cases of one fixture file, in a run
/// that has generated `earlier` before.
fn generate_after<C, P, N, R>(
    earlier: &Vec<Corpus<P, N>>,
    tests: &Vec<TestCase<C>>,
    excluded: &Vec<String>,
    run_case: &R,
) -> (r: Result<Vec<Corpus<P, N>>, GenerationError>) where
    R: Fn(&TestCase<C>) -> Outcome<P, N>,

    requires
        forall|i: int|
            0 <= i < tests@.len() && !fork_excluded(excluded@, tests@[i].network@) ==> call_requires(
                *run_case,
                (&#[trigger] tests@[i],),
            ),
    ensures
        match r {
            Ok(corpora) => {
                &&& is_generation_of(
                    tests@,
                    excluded@,
                    *run_case,
                    names_of(corpus_views(earlier@)),
                    Ok(corpus_views(corpora@)),
                )
                &&& forall|j: int|
                    0 <= j < corpora@.len() ==> valid_chain(
                        block_numbers((#[trigger] corpora@[j])@.blocks),
                    )
                &&& names_fresh(corpus_views(corpora@), names_of(corpus_views(earlier@)))
            },
            Err(e) => is_generation_of::<C, P, N, R>(
                tests@,
                excluded@,
                *run_case,
                names_of(corpus_views(earlier@)),
                Err(e),
            ),
        },
{
    let ghost taken = names_of(corpus_views(earlier@));
    let ghost mut outcomes: Seq<Outcome<P, N>> = Seq::empty();
    let mut corpora: Vec<Corpus<P, N>> = Vec::new();
    let mut i: usize = 0;
    proof {
        assert(corpus_views(corpora@) =~= Seq::<CorpusView<P, N>>::empty());
        assert(tests@.take(0) =~= Seq::<TestCase<C>>::empty());
    }
    while i < tests.len()
        invariant
            i <= tests@.len(),
            outcomes.len() == i,
            taken == names_of(corpus_views(earlier@)),
            forall|j: int|
                0 <= j < tests@.len() && !fork_excluded(excluded@, tests@[j].network@)
                    ==> call_requires(*run_case, (&#[trigger] tests@[j],)),
            forall|j: int|
                0 <= j < i && !fork_excluded(excluded@, tests@[j].network@) ==> call_ensures(
                    *run_case,
                    (&tests@[j],),
                    #[trigger] outcomes[j],
                ),
            generated(tests@.take(i as int), excluded@, outcomes, taken) == Ok::<
                Seq<CorpusView<P, N>>,
                GenerationError,
            >(corpus_views(corpora@)),
        decreases tests@.len() - i,
    {
        let test = &tests[i];
        let ghost before = outcomes;
        let ghost done = corpus_views(corpora@);
        proof {
            assert(tests@.take(i + 1).drop_last() =~= tests@.take(i as int));
            assert(tests@.take(i + 1).last() == tests@[i as int]);
        }
        if is_excluded(excluded, &test.network) {
            proof {
                outcomes = outcomes.push(arbitrary());
                assert(outcomes.drop_last() =~= before);
            }
        } else {
            let outcome = run_case(test);
            proof {
                outcomes = outcomes.push(outcome);
                assert(outcomes.drop_last() =~= before);
            }
            match contribute(test, excluded, outcome) {
                Ok(Some(corpus)) => {
                    if is_name_taken(earlier, corpus.name()) || is_name_taken(
                        &corpora,
                        corpus.name(),
                    ) {
                        let e = GenerationError::DuplicateName(test.name.clone());
                        proof {
                            assert(generated(tests@.take(i + 1), excluded@, outcomes, taken) == Err::<
                                Seq<CorpusView<P, N>>,
                                GenerationError,
                            >(e));
                        }
                        return Err(e);
                    }
                    corpora.push(corpus);
                    proof {
                        assert(corpus_views(corpora@) =~= done.push(corpus@));
                    }
                },
                Ok(None) => {},
                Err(e) => {
                    proof {
                        assert(generated(tests@.take(i + 1), excluded@, outcomes, taken) == Err::<
                            Seq<CorpusView<P, N>>,
                            GenerationError,
                        >(e));
                    }
                    return Err(e);
                },
            }
        }
        i += 1;
    }
    proof {
        assert(tests@.take(i as int) =~= tests@);
        lemma_generated_valid(tests@, excluded@, outcomes, taken);
        lemma_generated_names_fresh(tests@, excluded@, outcomes, taken);
        let views = corpus_views(corpora@);
        let made = generated(tests@, excluded@, outcomes, taken)->Ok_0;
        assert(made == views);
        assert forall|j: int| 0 <= j < corpora@.len() implies valid_chain(
            block_numbers((#[trigger] corpora@[j])@.blocks),
        ) by {
            assert(valid_chain(block_numbers(made[j].blocks)));
            assert(views[j] == corpora@[j]@);
        }
    }
    Ok(corpora)
}

/// Generates the corpora of the test cases of one fixture file.
///
/// Test cases of excluded forks are passed over without asking the
/// validator. Every other test case is run, in order, and contributes one
/// corpus named after it, which holds the pairs that the validator produced,
/// in their order; a run without blocks contributes nothing. The first run
/// that fails, that hands back blocks out of order, or whose corpus would
/// bear the name of an earlier one, ends the generation with that failure,
/// and the test cases after it are not run.
pub fn generate<C, P, N, R>(tests: &Vec<TestCase<C>>, excluded: &Vec<String>, run_case: &R) -> (r:
    Result<Vec<Corpus<P, N>>, GenerationError>) where R: Fn(&TestCase<C>) -> Outcome<P, N>
    requires
        forall|i: int|
            0 <= i < tests@.len() && !fork_excluded(excluded@, tests@[i].network@) ==> call_requires(
                *run_case,
                (&#[trigger] tests@[i],),
            ),
    ensures
        match r {
            Ok(corpora) => {
                &&& is_generation_of(
                    tests@,
                    excluded@,
                    *run_case,
                    Set::empty(),
                    Ok(corpus_views(corpora@)),
                )
                &&& forall|j: int|
                    0 <= j < corpora@.len() ==> valid_chain(
                        block_numbers((#[trigger] corpora@[j])@.blocks),
                    )
                &&& names_fresh(corpus_views(corpora@), Set::empty())
            },
            Err(e) => is_generation_of::<C, P, N, R>(tests@, excluded@, *run_case, Set::empty(), Err(e)),
        },
{
    let earlier: Vec<Corpus<P, N>> = Vec::new();
    proof {
        assert(names_of(corpus_views(earlier@)) =~= Set::<Seq<char>>::empty());
    }
    generate_after(&earlier, tests, excluded, run_case)
}

/// A fixture file as it was loaded: its path, and its test cases or the
/// reason why there are none.
#[derive(Debug, PartialEq)]
pub struct FixtureFile<C> {
    pub path: String,
    pub tests: Result<Vec<TestCase<C>>, GenerationError>,
}

/// How the generation over a batch of fixture files ended: the corpora of the
/// files that generated, in the order of the files, and for each file that
/// did not, its place in the batch with the failure.
#[derive(Debug)]
pub struct GenerationRun<P, N> {
    pub corpora: Vec<Corpus<P, N>>,
    pub failures: Vec<(usize, GenerationError)>,
}

/// The corpora of the files that generated, file after file.
pub open spec fn merged_corpora<P, N>(
    results: Seq<Result<Seq<CorpusView<P, N>>, GenerationError>>,
) -> Seq<CorpusView<P, N>>
    decreases results.len(),
{
    if results.len() == 0 {
        Seq::empty()
    } else {
        match results.last() {
            Ok(corpora) => merged_corpora(results.drop_last()) + corpora,
            Err(_) => merged_corpora(results.drop_last()),
        }
    }
}

/// The failures of the files that did not generate, each with the place of
/// its file.
pub open spec fn merged_failures<P, N>(
    results: Seq<Result<Seq<CorpusView<P, N>>, GenerationError>>,
) -> Seq<(usize, GenerationError)>
    decreases results.len(),
{
    if results.len() == 0 {
        Seq::empty()
    } else {
        match results.last() {
            Ok(_) => merged_failures(results.drop_last()),
            Err(e) => merged_failures(results.drop_last()).push(((results.len() - 1) as usize, e)),
        }
    }
}

/// `result` is a possible end of generating from `file`, in a run whose
/// earlier corpora bear the names `taken`: the failure to load the file, or a
/// possible end of generating from its test cases.
pub open spec fn is_file_result<C, P, N, R>(
    file: FixtureFile<C>,
    excluded: Seq<String>,
    run_case: R,
    taken: Set<Seq<char>>,
    result: Result<Seq<CorpusView<P, N>>, GenerationError>,
) -> bool where R: Fn(&TestCase<C>) -> Outcome<P, N> {
    match file.tests {
        Ok(tests) => is_generation_of(tests@, excluded, run_case, taken, result),
        Err(e) => result == Err::<Seq<CorpusView<P, N>>, GenerationError>(e),
    }
}

/// `corpora` and `failures` are a possible end of generating from the batch
/// `files`: each file ended in one of its possible ways, with the names of
/// the corpora of the files before it taken; `corpora` are the corpora of
/// the files that generated, file after file, and `failures` the failures of
/// the others.
pub open spec fn is_batch_of<C, P, N, R>(
    files: Seq<FixtureFile<C>>,
    excluded: Seq<String>,
    run_case: R,
    corpora: Seq<CorpusView<P, N>>,
    failures: Seq<(usize, GenerationError)>,
) -> bool where R: Fn(&TestCase<C>) -> Outcome<P, N> {
    exists|results: Seq<Result<Seq<CorpusView<P, N>>, GenerationError>>|
        {
            &&& results.len() == files.len()
            &&& forall|f: int|
                0 <= f < files.len() ==> is_file_result(
                    files[f],
                    excluded,
                    run_case,
                    names_of(merged_corpora(results.take(f))),
                    #[trigger] results[f],
                )
            &&& corpora == #[trigger] merged_corpora(results)
            &&& failures == merged_failures(results)
        }
}

/// A copy of an error.
fn copy_failure(e: &GenerationError) -> (r: GenerationError)
    ensures
        r == *e,
{
    match e {
        GenerationError::Load(message) => GenerationError::Load(message.clone()),
        GenerationError::Parse(message) => GenerationError::Parse(message.clone()),
        GenerationError::Witness(message) => GenerationError::Witness(message.clone()),
        GenerationError::BlockOrder(name) => GenerationError::BlockOrder(name.clone()),
        GenerationError::DuplicateName(name) => GenerationError::DuplicateName(name.clone()),
    }
}

/// Corpora with names of their own, followed by corpora with names of their
/// own that are none of the former's, have names of their own.
proof fn lemma_fresh_append<P, N>(held: Seq<CorpusView<P, N>>, added: Seq<CorpusView<P, N>>)
    requires
        names_fresh(held, Set::empty()),
        names_fresh(added, names_of(held)),
    ensures
        names_fresh(held + added, Set::empty()),
{
    let all = held + added;
    assert forall|a: int, b: int| 0 <= a < b < all.len() implies (#[trigger] all[a]).name
        != (#[trigger] all[b]).name by {
        if b < held.len() {
            assert(all[a] == held[a] && all[b] == held[b]);
        } else if a < held.len() {
            assert(all[a] == held[a] && all[b] == added[b - held.len()]);
            assert(names_of(held).contains(held[a].name));
        } else {
            assert(all[a] == added[a - held.len()] && all[b] == added[b - held.len()]);
        }
    }
}

/// Generates the corpora of a batch of fixture files.
///
/// Each file generates by itself, all or nothing, as `generate` says, with
/// the names of the corpora of the files before it taken. A file that could
/// not be loaded, or whose generation failed, contributes no corpus and is
/// listed among the failures; the files after it still generate. No two
/// corpora of the run bear the same name.
pub fn generate_all<C, P, N, R>(files: &Vec<FixtureFile<C>>, excluded: &Vec<String>, run_case: &R) -> (r:
    GenerationRun<P, N>) where R: Fn(&TestCase<C>) -> Outcome<P, N>
    requires
        forall|f: int, i: int|
            0 <= f < files@.len() && files@[f].tests is Ok && 0 <= i < files@[f].tests->Ok_0@.len()
                && !fork_excluded(excluded@, files@[f].tests->Ok_0@[i].network@) ==> call_requires(
                *run_case,
                (&#[trigger] files@[f].tests->Ok_0@[i],),
            ),
    ensures
        is_batch_of(files@, excluded@, *run_case, corpus_views(r.corpora@), r.failures@),
        forall|j: int|
            0 <= j < r.corpora@.len() ==> valid_chain(block_numbers((#[trigger] r.corpora@[j])@.blocks)),
        names_fresh(corpus_views(r.corpora@), Set::empty()),
{
    let ghost mut results: Seq<Result<Seq<CorpusView<P, N>>, GenerationError>> = Seq::empty();
    let mut corpora: Vec<Corpus<P, N>> = Vec::new();
    let mut failures: Vec<(usize, GenerationError)> = Vec::new();
    let mut f: usize = 0;
    proof {
        assert(corpus_views(corpora@) =~= merged_corpora(results));
    }
    while f < files.len()
        invariant
            f <= files@.len(),
            results.len() == f,
            forall|g: int, i: int|
                0 <= g < files@.len() && files@[g].tests is Ok && 0 <= i
                    < files@[g].tests->Ok_0@.len() && !fork_excluded(
                    excluded@,
                    files@[g].tests->Ok_0@[i].network@,
                ) ==> call_requires(*run_case, (&#[trigger] files@[g].tests->Ok_0@[i],)),
            forall|g: int|
                0 <= g < f ==> is_file_result(
                    files@[g],
                    excluded@,
                    *run_case,
                    names_of(merged_corpora(results.take(g))),
                    #[trigger] results[g],
                ),
            corpus_views(corpora@) == merged_corpora(results),
            failures@ == merged_failures(results),
            forall|j: int|
                0 <= j < corpora@.len() ==> valid_chain(
                    block_numbers((#[trigger] corpora@[j])@.blocks),
                ),
            names_fresh(corpus_views(corpora@), Set::empty()),
        decreases files@.len() - f,
    {
        let ghost before = results;
        let ghost views_before = corpus_views(corpora@);
        let ghost held = corpora@;
        proof {
            assert(results.take(f as int) =~= results);
        }
        match &files[f].tests {
            Ok(tests) => {
                match generate_after(&corpora, tests, excluded, run_case) {
                    Ok(mut made) => {
                        proof {
                            results = results.push(Ok(corpus_views(made@)));
                            assert(results.drop_last() =~= before);
                        }
                        let ghost added = made@;
                        corpora.append(&mut made);
                        proof {
                            assert(corpus_views(corpora@) =~= views_before + corpus_views(added));
                            lemma_fresh_append(views_before, corpus_views(added));
                            assert forall|j: int| 0 <= j < corpora@.len() implies valid_chain(
                                block_numbers((#[trigger] corpora@[j])@.blocks),
                            ) by {
                                if j < held.len() {
                                    assert(corpora@[j] == held[j]);
                                } else {
                                    assert(corpora@[j] == added[j - held.len()]);
                                }
                            }
                        }
                    },
                    Err(e) => {
                        proof {
                            results = results.push(Err(e));
                            assert(results.drop_last() =~= before);
                        }
                        failures.push((f, e));
                    },
                }
            },
            Err(e) => {
                let failure = copy_failure(e);
                proof {
                    results = results.push(Err(failure));
                    assert(results.drop_last() =~= before);
                }
                failures.push((f, failure));
            },
        }
        proof {
            assert forall|g: int| 0 <= g < f + 1 implies is_file_result(
                files@[g],
                excluded@,
                *run_case,
                names_of(merged_corpora(results.take(g))),
                #[trigger] results[g],
            ) by {
                assert(results.take(g) =~= before.take(g));
                assert(results[g] == if g < f {
                    before[g]
                } else {
                    results[f as int]
                });
            }
        }
        f += 1;
    }
    proof {
        assert(corpus_views(corpora@) == merged_corpora(results));
    }
    GenerationRun { corpora, failures }
}

} // verus!
