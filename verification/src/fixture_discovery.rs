//! Fixture discovery: which of the paths below the fixture root are fixture
//! files.
//!
//! Walking the directory tree is left to the caller, who hands in what the
//! walk listed.

use crate::paths::{file_name, file_name_of, join, joined};
use crate::text::{ends_with, has_suffix};
use vstd::prelude::*;

verus! {

/// Why fixtures could not be discovered.
#[derive(Debug, Clone, PartialEq, Eq)]
pub enum DiscoveryError {
    /// The fixture root, whose path is given, does not exist.
    RootMissing(String),
}

/// The entries whose file name ends with `extension`, in the order of the
/// listing.
pub open spec fn with_extension(entries: Seq<String>, extension: Seq<char>) -> Seq<String>
    decreases entries.len(),
{
    if entries.len() == 0 {
        Seq::empty()
    } else {
        let front = with_extension(entries.drop_last(), extension);
        if ends_with(file_name_of(entries.last()@), extension) {
            front.push(entries.last())
        } else {
            front
        }
    }
}

/// The path of a fixture suite: `<workspace>/zkevm-fixtures/fixtures/<suite>`.
pub open spec fn fixtures_path_of(workspace_root: Seq<char>, suite: Seq<char>) -> Seq<char> {
    joined(joined(joined(workspace_root, "zkevm-fixtures"@), "fixtures"@), suite)
}

/// Of the paths that a walk below the fixture root listed, those whose file
/// name ends with `extension`.
pub fn find_all_files_with_extension(entries: &Vec<String>, extension: &str) -> (r: Vec<String>)
    ensures
        r@ == with_extension(entries@, extension@),
{
    let mut found: Vec<String> = Vec::new();
    let mut i: usize = 0;
    proof {
        assert(entries@.take(0) =~= Seq::<String>::empty());
    }
    while i < entries.len()
        invariant
            i <= entries@.len(),
            found@ == with_extension(entries@.take(i as int), extension@),
        decreases entries@.len() - i,
    {
        proof {
            assert(entries@.take(i + 1).drop_last() =~= entries@.take(i as int));
            assert(entries@.take(i + 1).last() == entries@[i as int]);
        }
        if has_suffix(file_name(entries[i].as_str()), extension) {
            found.push(entries[i].clone());
        }
        i += 1;
    }
    proof {
        assert(entries@.take(i as int) =~= entries@);
    }
    found
}

/// The fixture files below `root`, given the listing of a walk below it, or
/// `None` where `root` does not exist. A missing root is an error, not an
/// empty result.
pub fn discover(root: &str, listing: Option<&Vec<String>>, extension: &str) -> (r: Result<
    Vec<String>,
    DiscoveryError,
>)
    ensures
        match r {
            Ok(files) => listing matches Some(entries) && files@ == with_extension(
                entries@,
                extension@,
            ),
            Err(DiscoveryError::RootMissing(path)) => listing is None && path@ == root@,
        },
{
    match listing {
        Some(entries) => Ok(find_all_files_with_extension(entries, extension)),
        None => Err(DiscoveryError::RootMissing(String::from_str(root))),
    }
}

/// The path of a fixture suite below the workspace root.
pub fn path_to_zkevm_fixtures(workspace_root: &str, suite: &str) -> (r: String)
    ensures
        r@ == fixtures_path_of(workspace_root@, suite@),
{
    let fixtures = join(workspace_root, "zkevm-fixtures");
    let fixtures = join(fixtures.as_str(), "fixtures");
    join(fixtures.as_str(), suite)
}

} // verus!
