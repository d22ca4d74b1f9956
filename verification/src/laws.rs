//! Properties of the change-detection engine, stated over the same spec
//! functions that the contracts of `check_glob` and `write_glob` use, and
//! proved once and for all.

use vstd::prelude::*;

use crate::detect::{
    digest_map, entry_path_set, entry_paths, prior_hashes, prior_snapshots, up_to_date,
};
use crate::digest::file_digest;
use crate::state::{hash_map_of, snapshot_map_of, GlobState};

verus! {

/// In the digest map of a duplicate-free snapshot, each file's path maps to
/// the digest of that file's content.
proof fn lemma_digest_map_at(files: Seq<(String, Vec<u8>)>, i: int)
    requires
        entry_paths(files).no_duplicates(),
        0 <= i < files.len(),
    ensures
        digest_map(files).contains_key(files[i].0@),
        digest_map(files)[files[i].0@] == file_digest(files[i].1@),
    decreases files.len(),
{
    assert(entry_paths(files)[i] == files[i].0@);
    if i < files.len() - 1 {
        assert(entry_paths(files)[files.len() - 1] == files[files.len() - 1].0@);
        assert(entry_paths(files.drop_last()) =~= entry_paths(files).drop_last());
        lemma_digest_map_at(files.drop_last(), i);
    }
}

/// A path no file of the snapshot bears is no key of its digest map.
proof fn lemma_digest_map_keys(files: Seq<(String, Vec<u8>)>, k: Seq<char>)
    requires
        !entry_paths(files).contains(k),
    ensures
        !digest_map(files).contains_key(k),
    decreases files.len(),
{
    if files.len() > 0 {
        assert(entry_paths(files)[files.len() - 1] == files.last().0@);
        assert(entry_paths(files.drop_last()) =~= entry_paths(files).drop_last());
        assert(!entry_paths(files.drop_last()).contains(k)) by {
            if entry_paths(files.drop_last()).contains(k) {
                let j = choose|j: int|
                    0 <= j < entry_paths(files.drop_last()).len() && entry_paths(
                        files.drop_last(),
                    )[j] == k;
                assert(entry_paths(files)[j] == k);
            }
        }
        lemma_digest_map_keys(files.drop_last(), k);
    }
}

/// After a record for `pattern`, and with the matched files unchanged on
/// disk, the cache is current for `pattern`: a following `check_glob`
/// answers `Unchanged`, and does so however often it is repeated, since a
/// check mutates nothing.
pub proof fn lemma_record_then_check(
    state: Option<GlobState>,
    recorded: GlobState,
    pattern: Seq<char>,
    files: Seq<(String, Vec<u8>)>,
)
    requires
        entry_paths(files).no_duplicates(),
        recorded.snapshots() == prior_snapshots(state).insert(pattern, entry_path_set(files)),
        recorded.hashes() == prior_hashes(state).union_prefer_right(digest_map(files)),
    ensures
        up_to_date(recorded, pattern, files),
{
    assert forall|i: int| 0 <= i < files.len() implies recorded.hashes().contains_key(
        #[trigger] files[i].0@,
    ) && recorded.hashes()[files[i].0@] == file_digest(files[i].1@) by {
        lemma_digest_map_at(files, i);
    }
}

/// A change in the matched set of paths is detected: when the snapshot
/// recorded for `pattern` is the path set of one list of files, the cache
/// is out of date for any list whose path set differs — a file added or one
/// removed — so `check_glob` answers `Changed`.
pub proof fn lemma_snapshot_change_detected(
    s: GlobState,
    pattern: Seq<char>,
    files_then: Seq<(String, Vec<u8>)>,
    files_now: Seq<(String, Vec<u8>)>,
)
    requires
        s.snapshots().contains_key(pattern),
        s.snapshots()[pattern] == entry_path_set(files_then),
        entry_path_set(files_now) != entry_path_set(files_then),
    ensures
        !up_to_date(s, pattern, files_now),
{
}

/// A content change is detected as far as the digests tell it apart: when
/// the cache is current for one list of files, it is out of date for files
/// with the same paths in the same order but, at some position, content
/// whose digest differs — so `check_glob` answers `Changed`. Two contents
/// with equal SHA-256 digests are indistinguishable to the engine.
pub proof fn lemma_content_change_detected(
    s: GlobState,
    pattern: Seq<char>,
    files_then: Seq<(String, Vec<u8>)>,
    files_now: Seq<(String, Vec<u8>)>,
    i: int,
)
    requires
        0 <= i < files_then.len(),
        files_now.len() == files_then.len(),
        forall|j: int| 0 <= j < files_now.len() ==> files_now[j].0@ == files_then[j].0@,
        up_to_date(s, pattern, files_then),
        file_digest(files_now[i].1@) != file_digest(files_then[i].1@),
    ensures
        !up_to_date(s, pattern, files_now),
{
    if up_to_date(s, pattern, files_now) {
        assert(s.hashes()[files_then[i].0@] == file_digest(files_then[i].1@));
        assert(s.hashes()[files_now[i].0@] == file_digest(files_now[i].1@));
    }
}

/// The digest map is shared across patterns: a record upserts the digest of
/// every file the recorded pattern matched, and leaves every other file's
/// entry exactly as it was — so a later check of any other pattern that
/// matches one of these files consults the updated digest.
pub proof fn lemma_shared_hashes(
    state: Option<GlobState>,
    recorded: GlobState,
    files: Seq<(String, Vec<u8>)>,
    i: int,
    other: Seq<char>,
)
    requires
        entry_paths(files).no_duplicates(),
        0 <= i < files.len(),
        !entry_paths(files).contains(other),
        recorded.hashes() == prior_hashes(state).union_prefer_right(digest_map(files)),
    ensures
        recorded.hashes().contains_key(files[i].0@),
        recorded.hashes()[files[i].0@] == file_digest(files[i].1@),
        recorded.hashes().contains_key(other) <==> prior_hashes(state).contains_key(other),
        recorded.hashes().contains_key(other) ==> recorded.hashes()[other] == prior_hashes(state)[
            other
        ],
{
    lemma_digest_map_at(files, i);
    lemma_digest_map_keys(files, other);
}

/// Round trip: a state rebuilt from another state's exported entries
/// presents the same digest map and the same snapshot map.
pub proof fn lemma_entries_round_trip(
    s: GlobState,
    hashes: Seq<(String, String)>,
    snapshots: Seq<(String, Vec<String>)>,
    t: GlobState,
)
    requires
        hash_map_of(hashes) == s.hashes(),
        snapshot_map_of(snapshots) == s.snapshots(),
        t.hashes() == hash_map_of(hashes),
        t.snapshots() == snapshot_map_of(snapshots),
    ensures
        t.hashes() == s.hashes(),
        t.snapshots() == s.snapshots(),
{
}

} // verus!
