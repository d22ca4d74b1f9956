//! Change detection: deciding whether the files a glob pattern matches have
//! changed since the cache state last recorded them, and recording a new
//! observed state.
//!
//! The caller resolves the pattern against the filesystem and reads each
//! matched file; this module is handed the resolved snapshot as a vector of
//! (path, content) pairs and does all comparing and recording.

use vstd::prelude::*;
use vstd::seq_lib::seq_to_set_is_finite;
use vstd::set_lib::lemma_subset_equality;

use crate::digest::{file_digest, hash_contents};
use crate::state::{contains_path, path_set, string_views, GlobState};
use crate::CheckResult;

verus! {

/// Why a check or a record could not be carried out.
#[derive(PartialEq, Eq, Structural, Debug)]
pub enum GlobError {
    /// The glob pattern does not parse.
    InvalidPattern,
}

/// Whether a glob expression is well-formed; parsing depends on the
/// expression alone.
pub uninterp spec fn glob_parses(pattern: Seq<char>) -> bool;

/// Relies on wax::Glob::new: builds a matcher from a glob expression,
/// failing exactly on malformed expressions.
#[verifier::external_body]
fn glob_syntax_ok(pattern: &str) -> (r: bool)
    ensures
        r == glob_parses(pattern@),
{
    wax::Glob::new(pattern).is_ok()
}

/// The paths of a resolved snapshot handed in as (path, content) pairs.
pub open spec fn entry_paths(files: Seq<(String, Vec<u8>)>) -> Seq<Seq<char>> {
    files.map_values(|f: (String, Vec<u8>)| f.0@)
}

/// The set of paths of a resolved snapshot.
pub open spec fn entry_path_set(files: Seq<(String, Vec<u8>)>) -> Set<Seq<char>> {
    entry_paths(files).to_set()
}

/// The path-to-digest map the current files stand for; a later entry for
/// the same path wins.
pub open spec fn digest_map(files: Seq<(String, Vec<u8>)>) -> Map<Seq<char>, Seq<char>>
    decreases files.len(),
{
    if files.len() == 0 {
        Map::empty()
    } else {
        digest_map(files.drop_last()).insert(
            files.last().0@,
            file_digest(files.last().1@),
        )
    }
}

/// The cache state is current for `pattern`: it records exactly this set of
/// paths, and for every matched file the digest of its current content.
pub open spec fn up_to_date(s: GlobState, pattern: Seq<char>, files: Seq<(String, Vec<u8>)>) -> bool {
    &&& s.snapshots().contains_key(pattern)
    &&& s.snapshots()[pattern] == entry_path_set(files)
    &&& forall|i: int|
        0 <= i < files.len() ==> {
            &&& s.hashes().contains_key(#[trigger] files[i].0@)
            &&& s.hashes()[files[i].0@] == file_digest(files[i].1@)
        }
}

/// The digest map before a record: the given state's, or empty on a first
/// run.
pub open spec fn prior_hashes(state: Option<GlobState>) -> Map<Seq<char>, Seq<char>> {
    match state {
        Some(s) => s.hashes(),
        None => Map::empty(),
    }
}

/// The snapshot map before a record: the given state's, or empty on a first
/// run.
pub open spec fn prior_snapshots(state: Option<GlobState>) -> Map<Seq<char>, Set<Seq<char>>> {
    match state {
        Some(s) => s.snapshots(),
        None => Map::empty(),
    }
}

/// Whether a stored snapshot lists exactly the paths of the current files,
/// as sets.
#[verifier::loop_isolation(false)]
fn snapshot_matches(stored: &Vec<String>, files: &Vec<(String, Vec<u8>)>) -> (r: bool)
    requires
        string_views(stored@).no_duplicates(),
        entry_paths(files@).no_duplicates(),
    ensures
        r == (path_set(stored@) == entry_path_set(files@)),
{
    let n = files.len();
    if stored.len() != n {
        proof {
            string_views(stored@).unique_seq_to_set();
            entry_paths(files@).unique_seq_to_set();
            assert(path_set(stored@).len() != entry_path_set(files@).len());
        }
        return false;
    }
    let mut i: usize = 0;
    while i < n
        invariant
            i <= n,
            forall|j: int| 0 <= j < i ==> path_set(stored@).contains(#[trigger] files@[j].0@),
        decreases n - i,
    {
        let e = &files[i];
        if !contains_path(stored, &e.0) {
            proof {
                assert(entry_paths(files@)[i as int] == files@[i as int].0@);
                assert(entry_path_set(files@).contains(files@[i as int].0@));
            }
            return false;
        }
        i = i + 1;
    }
    proof {
        assert forall|x: Seq<char>| entry_path_set(files@).contains(x) implies path_set(
            stored@,
        ).contains(x) by {
            let j = choose|j: int|
                0 <= j < entry_paths(files@).len() && entry_paths(files@)[j] == x;
            assert(path_set(stored@).contains(files@[j].0@));
        }
        string_views(stored@).unique_seq_to_set();
        entry_paths(files@).unique_seq_to_set();
        seq_to_set_is_finite::<Seq<char>>(string_views(stored@));
        seq_to_set_is_finite::<Seq<char>>(entry_paths(files@));
        lemma_subset_equality(entry_path_set(files@), path_set(stored@));
    }
    true
}

/// Classifies the current files matched by `pattern` against the recorded
/// cache state.
///
/// With no cache state at all the answer is `Changed`, before anything else
/// is looked at. Otherwise a malformed pattern is an error; a pattern with
/// no recorded snapshot, a snapshot that differs as a set, or any file whose
/// current digest is not the recorded one answers `Changed`; and a cache
/// that is current answers `Unchanged`.
#[verifier::loop_isolation(false)]
pub fn check_glob(state: Option<&GlobState>, pattern: &str, files: &Vec<(String, Vec<u8>)>) -> (r:
    Result<CheckResult, GlobError>)
    requires
        match state {
            Some(s) => s.wf(),
            None => true,
        },
        entry_paths(files@).no_duplicates(),
    ensures
        match state {
            None => r == Ok::<CheckResult, GlobError>(CheckResult::Changed),
            Some(s) => if !glob_parses(pattern@) {
                r == Err::<CheckResult, GlobError>(GlobError::InvalidPattern)
            } else if up_to_date(*s, pattern@, files@) {
                r == Ok::<CheckResult, GlobError>(CheckResult::Unchanged)
            } else {
                r == Ok::<CheckResult, GlobError>(CheckResult::Changed)
            },
        },
{
    match state {
        None => Ok(CheckResult::Changed),
        Some(s) => {
            if !glob_syntax_ok(pattern) {
                return Err(GlobError::InvalidPattern);
            }
            let pat = pattern.to_owned();
            match s.snapshot_for(&pat) {
                None => Ok(CheckResult::Changed),
                Some(stored) => {
                    if !snapshot_matches(stored, files) {
                        Ok(CheckResult::Changed)
                    } else {
                        let n = files.len();
                        let mut i: usize = 0;
                        while i < n
                            invariant
                                i <= n,
                                forall|j: int|
                                    0 <= j < i ==> {
                                        &&& s.hashes().contains_key(#[trigger] files@[j].0@)
                                        &&& s.hashes()[files@[j].0@] == file_digest(files@[j].1@)
                                    },
                            decreases n - i,
                        {
                            let e = &files[i];
                            let d = hash_contents(&e.1);
                            match s.hash_for(&e.0) {
                                None => {
                                    return Ok(CheckResult::Changed);
                                },
                                Some(h) => {
                                    if !(*h == d) {
                                        return Ok(CheckResult::Changed);
                                    }
                                },
                            }
                            i = i + 1;
                        }
                        Ok(CheckResult::Unchanged)
                    }
                },
            }
        },
    }
}

/// Records the current observed state for `pattern`: the snapshot stored
/// for this exact pattern is replaced by the current set of paths, and the
/// digest of every matched file's current content is upserted into the
/// shared digest map, the new value winning over any earlier one. Entries
/// for other patterns and other files are untouched. A malformed pattern is
/// an error and nothing is recorded.
#[verifier::loop_isolation(false)]
pub fn write_glob(state: Option<GlobState>, pattern: &str, files: &Vec<(String, Vec<u8>)>) -> (r:
    Result<GlobState, GlobError>)
    requires
        match state {
            Some(s) => s.wf(),
            None => true,
        },
        entry_paths(files@).no_duplicates(),
    ensures
        !glob_parses(pattern@) ==> r == Err::<GlobState, GlobError>(GlobError::InvalidPattern),
        glob_parses(pattern@) ==> {
            &&& r is Ok
            &&& r->Ok_0.wf()
            &&& r->Ok_0.snapshots() == prior_snapshots(state).insert(
                pattern@,
                entry_path_set(files@),
            )
            &&& r->Ok_0.hashes() == prior_hashes(state).union_prefer_right(digest_map(files@))
        },
{
    if !glob_syntax_ok(pattern) {
        return Err(GlobError::InvalidPattern);
    }
    let mut s = match state {
        None => GlobState::empty(),
        Some(s0) => s0,
    };
    let n = files.len();
    let mut paths: Vec<String> = Vec::new();
    let mut i: usize = 0;
    while i < n
        invariant
            i <= n,
            paths@.len() == i,
            forall|j: int| 0 <= j < i ==> paths@[j]@ == files@[j].0@,
        decreases n - i,
    {
        let e = &files[i];
        paths.push(e.0.clone());
        i = i + 1;
    }
    proof {
        assert(string_views(paths@) =~= entry_paths(files@));
    }
    s.set_snapshot(pattern.to_owned(), paths);
    let mut k: usize = 0;
    proof {
        assert(files@.take(0) =~= Seq::<(String, Vec<u8>)>::empty());
        assert(prior_hashes(state).union_prefer_right(Map::empty()) =~= prior_hashes(state));
    }
    while k < n
        invariant
            k <= n,
            s.wf(),
            s.snapshots() == prior_snapshots(state).insert(pattern@, entry_path_set(files@)),
            s.hashes() == prior_hashes(state).union_prefer_right(digest_map(files@.take(k as int))),
        decreases n - k,
    {
        let e = &files[k];
        let d = hash_contents(&e.1);
        s.upsert_hash(e.0.clone(), d);
        proof {
            assert(files@.take(k + 1).drop_last() =~= files@.take(k as int));
            assert(files@.take(k + 1).last() == files@[k as int]);
            assert(prior_hashes(state).union_prefer_right(digest_map(files@.take(k + 1)))
                =~= prior_hashes(state).union_prefer_right(
                digest_map(files@.take(k as int)),
            ).insert(files@[k as int].0@, file_digest(files@[k as int].1@)));
        }
        k = k + 1;
    }
    proof {
        assert(files@.take(n as int) =~= files@);
    }
    Ok(s)
}

} // verus!
