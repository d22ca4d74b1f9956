//! The cache state: the last recorded content digest per file path and the
//! last recorded snapshot (set of matched paths) per glob pattern.
//!
//! Both maps are kept as vectors of entries; a later entry for the same key
//! wins, so pushing an entry is an upsert at the level of the map views.

use vstd::prelude::*;

verus! {

/// The character sequences a vector of strings stands for.
pub open spec fn string_views(s: Seq<String>) -> Seq<Seq<char>> {
    s.map_values(|x: String| x@)
}

/// The set of paths a snapshot vector stands for.
pub open spec fn path_set(s: Seq<String>) -> Set<Seq<char>> {
    string_views(s).to_set()
}

/// The path-to-digest map a sequence of entries stands for; a later entry
/// for the same path wins.
pub open spec fn hash_map_of(s: Seq<(String, String)>) -> Map<Seq<char>, Seq<char>>
    decreases s.len(),
{
    if s.len() == 0 {
        Map::empty()
    } else {
        hash_map_of(s.drop_last()).insert(s.last().0@, s.last().1@)
    }
}

/// The pattern-to-snapshot map a sequence of entries stands for; a later
/// entry for the same pattern wins.
pub open spec fn snapshot_map_of(s: Seq<(String, Vec<String>)>) -> Map<Seq<char>, Set<Seq<char>>>
    decreases s.len(),
{
    if s.len() == 0 {
        Map::empty()
    } else {
        snapshot_map_of(s.drop_last()).insert(s.last().0@, path_set(s.last().1@))
    }
}

/// The aggregate persisted document: one digest map shared by all patterns,
/// and one snapshot per pattern.
pub struct GlobState {
    file_hashes: Vec<(String, String)>,
    glob_results: Vec<(String, Vec<String>)>,
}

/// Entries at or past position `i` never mention key `k`, so the map the
/// whole sequence stands for agrees at `k` with the map of the prefix.
proof fn lemma_hash_map_skip(s: Seq<(String, String)>, i: int, k: Seq<char>)
    requires
        0 <= i <= s.len(),
        forall|j: int| i <= j < s.len() ==> s[j].0@ != k,
    ensures
        hash_map_of(s).contains_key(k) <==> hash_map_of(s.take(i)).contains_key(k),
        hash_map_of(s).contains_key(k) ==> hash_map_of(s)[k] == hash_map_of(s.take(i))[k],
    decreases s.len() - i,
{
    if i == s.len() {
        assert(s.take(i) =~= s);
    } else {
        let s0 = s.drop_last();
        assert(s[s.len() - 1].0@ != k);
        lemma_hash_map_skip(s0, i, k);
        assert(s0.take(i) =~= s.take(i));
    }
}

/// The same prefix argument for the snapshot map.
proof fn lemma_snapshot_map_skip(s: Seq<(String, Vec<String>)>, i: int, k: Seq<char>)
    requires
        0 <= i <= s.len(),
        forall|j: int| i <= j < s.len() ==> s[j].0@ != k,
    ensures
        snapshot_map_of(s).contains_key(k) <==> snapshot_map_of(s.take(i)).contains_key(k),
        snapshot_map_of(s).contains_key(k) ==> snapshot_map_of(s)[k] == snapshot_map_of(s.take(i))[k],
    decreases s.len() - i,
{
    if i == s.len() {
        assert(s.take(i) =~= s);
    } else {
        let s0 = s.drop_last();
        assert(s[s.len() - 1].0@ != k);
        lemma_snapshot_map_skip(s0, i, k);
        assert(s0.take(i) =~= s.take(i));
    }
}

/// Taking views commutes with appending one string.
proof fn lemma_views_push(s: Seq<String>, x: String)
    ensures
        string_views(s.push(x)) =~= string_views(s).push(x@),
{
}

/// The path set of a vector grows by one path when the vector grows by one
/// string.
proof fn lemma_path_set_push(s: Seq<String>, x: String)
    ensures
        path_set(s.push(x)) =~= path_set(s).insert(x@),
{
    lemma_views_push(s, x);
    string_views(s).lemma_push_to_set_commute(x@);
}

/// A path is in the path set exactly when some element of the vector views
/// to it.
proof fn lemma_path_set_contains(s: Seq<String>, x: Seq<char>)
    ensures
        path_set(s).contains(x) <==> exists|i: int| 0 <= i < s.len() && s[i]@ == x,
{
    if path_set(s).contains(x) {
        let i = choose|i: int| 0 <= i < string_views(s).len() && string_views(s)[i] == x;
        assert(s[i]@ == x);
    }
    if exists|i: int| 0 <= i < s.len() && s[i]@ == x {
        let i = choose|i: int| 0 <= i < s.len() && s[i]@ == x;
        assert(string_views(s)[i] == x);
        assert(string_views(s).contains(x));
    }
}

/// Whether a path occurs in the vector.
pub fn contains_path(v: &Vec<String>, x: &String) -> (r: bool)
    ensures
        r == path_set(v@).contains(x@),
{
    let n = v.len();
    let mut i: usize = 0;
    while i < n
        invariant
            i <= n,
            n == v@.len(),
            forall|j: int| 0 <= j < i ==> v@[j]@ != x@,
        decreases n - i,
    {
        let e = &v[i];
        if *e == *x {
            assert(string_views(v@)[i as int] == x@);
            return true;
        }
        i = i + 1;
    }
    assert(forall|j: int| 0 <= j < string_views(v@).len() ==> string_views(v@)[j] != x@);
    false
}

impl GlobState {
    /// The per-file digest map this state records.
    pub closed spec fn hashes(&self) -> Map<Seq<char>, Seq<char>> {
        hash_map_of(self.file_hashes@)
    }

    /// The per-pattern snapshot map this state records.
    pub closed spec fn snapshots(&self) -> Map<Seq<char>, Set<Seq<char>>> {
        snapshot_map_of(self.glob_results@)
    }

    /// Every stored snapshot lists each path once.
    pub closed spec fn wf(&self) -> bool {
        forall|i: int|
            0 <= i < self.glob_results@.len() ==> (#[trigger] string_views(
                self.glob_results@[i].1@,
            )).no_duplicates()
    }

    /// The empty state: nothing recorded, as on a first run.
    pub fn empty() -> (s: GlobState)
        ensures
            s.wf(),
            s.hashes() == Map::<Seq<char>, Seq<char>>::empty(),
            s.snapshots() == Map::<Seq<char>, Set<Seq<char>>>::empty(),
    {
        GlobState { file_hashes: Vec::new(), glob_results: Vec::new() }
    }

    /// The digest recorded for the given path, if any.
    pub fn hash_for(&self, path: &String) -> (r: Option<&String>)
        ensures
            match r {
                Some(d) => self.hashes().contains_key(path@) && d@ == self.hashes()[path@],
                None => !self.hashes().contains_key(path@),
            },
    {
        let n = self.file_hashes.len();
        let mut i: usize = n;
        while i > 0
            invariant
                i <= n,
                n == self.file_hashes@.len(),
                forall|j: int| i <= j < n ==> self.file_hashes@[j].0@ != path@,
            decreases i,
        {
            i = i - 1;
            let e = &self.file_hashes[i];
            if e.0 == *path {
                proof {
                    lemma_hash_map_skip(self.file_hashes@, i + 1, path@);
                    assert(self.file_hashes@.take(i + 1).drop_last() =~= self.file_hashes@.take(
                        i as int,
                    ));
                    assert(self.file_hashes@.take(i + 1).last() == self.file_hashes@[i as int]);
                }
                return Some(&e.1);
            }
        }
        proof {
            lemma_hash_map_skip(self.file_hashes@, 0, path@);
            assert(self.file_hashes@.take(0) =~= Seq::<(String, String)>::empty());
        }
        None
    }

    /// The snapshot recorded for the given pattern, if any.
    pub fn snapshot_for(&self, pattern: &String) -> (r: Option<&Vec<String>>)
        requires
            self.wf(),
        ensures
            match r {
                Some(v) => self.snapshots().contains_key(pattern@) && path_set(v@)
                    == self.snapshots()[pattern@] && string_views(v@).no_duplicates(),
                None => !self.snapshots().contains_key(pattern@),
            },
    {
        let n = self.glob_results.len();
        let mut i: usize = n;
        while i > 0
            invariant
                self.wf(),
                i <= n,
                n == self.glob_results@.len(),
                forall|j: int| i <= j < n ==> self.glob_results@[j].0@ != pattern@,
            decreases i,
        {
            i = i - 1;
            let e = &self.glob_results[i];
            if e.0 == *pattern {
                proof {
                    assert(string_views(self.glob_results@[i as int].1@).no_duplicates());
                    lemma_snapshot_map_skip(self.glob_results@, i + 1, pattern@);
                    assert(self.glob_results@.take(i + 1).drop_last() =~= self.glob_results@.take(
                        i as int,
                    ));
                    assert(self.glob_results@.take(i + 1).last() == self.glob_results@[i as int]);
                }
                return Some(&e.1);
            }
        }
        proof {
            lemma_snapshot_map_skip(self.glob_results@, 0, pattern@);
            assert(self.glob_results@.take(0) =~= Seq::<(String, Vec<String>)>::empty());
        }
        None
    }

    /// Records the digest for a path, replacing any earlier entry.
    pub fn upsert_hash(&mut self, path: String, digest: String)
        requires
            old(self).wf(),
        ensures
            final(self).wf(),
            final(self).hashes() == old(self).hashes().insert(path@, digest@),
            final(self).snapshots() == old(self).snapshots(),
    {
        let ghost s0 = self.file_hashes@;
        self.file_hashes.push((path, digest));
        proof {
            assert(self.file_hashes@.drop_last() =~= s0);
        }
    }

    /// Records the snapshot for a pattern, replacing any earlier entry.
    pub fn set_snapshot(&mut self, pattern: String, snapshot: Vec<String>)
        requires
            old(self).wf(),
            string_views(snapshot@).no_duplicates(),
        ensures
            final(self).wf(),
            final(self).hashes() == old(self).hashes(),
            final(self).snapshots() == old(self).snapshots().insert(
                pattern@,
                path_set(snapshot@),
            ),
    {
        let ghost s0 = self.glob_results@;
        self.glob_results.push((pattern, snapshot));
        proof {
            assert(self.glob_results@.drop_last() =~= s0);
            assert(forall|i: int|
                0 <= i < s0.len() ==> self.glob_results@[i] == s0[i]);
        }
    }

    /// The recorded (path, digest) entries, for persisting.
    pub fn hash_entries(&self) -> (r: &Vec<(String, String)>)
        ensures
            hash_map_of(r@) == self.hashes(),
    {
        &self.file_hashes
    }

    /// The recorded (pattern, snapshot) entries, for persisting.
    pub fn snapshot_entries(&self) -> (r: &Vec<(String, Vec<String>)>)
        ensures
            snapshot_map_of(r@) == self.snapshots(),
    {
        &self.glob_results
    }

    /// Rebuilds a state from persisted entries. A path listed twice in one
    /// snapshot is kept once; the set each snapshot stands for is unchanged.
    pub fn from_entries(hashes: Vec<(String, String)>, snapshots: Vec<(String, Vec<String>)>) -> (s:
        GlobState)
        ensures
            s.wf(),
            s.hashes() == hash_map_of(hashes@),
            s.snapshots() == snapshot_map_of(snapshots@),
    {
        let n = snapshots.len();
        let mut cleaned: Vec<(String, Vec<String>)> = Vec::new();
        let mut i: usize = 0;
        while i < n
            invariant
                i <= n,
                n == snapshots@.len(),
                snapshot_map_of(cleaned@) == snapshot_map_of(snapshots@.take(i as int)),
                forall|j: int|
                    0 <= j < cleaned@.len() ==> string_views(
                        #[trigger] cleaned@[j].1@,
                    ).no_duplicates(),
            decreases n - i,
        {
            let ghost c0 = cleaned@;
            let e = &snapshots[i];
            let snap = dedup_paths(&e.1);
            cleaned.push((e.0.clone(), snap));
            proof {
                assert(cleaned@.drop_last() =~= c0);
                assert(snapshots@.take(i + 1).drop_last() =~= snapshots@.take(i as int));
                assert(snapshots@.take(i + 1).last() == snapshots@[i as int]);
                assert(forall|j: int| 0 <= j < c0.len() ==> cleaned@[j] == c0[j]);
            }
            i = i + 1;
        }
        proof {
            assert(snapshots@.take(n as int) =~= snapshots@);
        }
        GlobState { file_hashes: hashes, glob_results: cleaned }
    }
}

/// Removes repeated paths; the set of paths is unchanged.
pub fn dedup_paths(v: &Vec<String>) -> (r: Vec<String>)
    ensures
        string_views(r@).no_duplicates(),
        path_set(r@) == path_set(v@),
{
    let n = v.len();
    let mut r: Vec<String> = Vec::new();
    let mut i: usize = 0;
    while i < n
        invariant
            i <= n,
            n == v@.len(),
            string_views(r@).no_duplicates(),
            path_set(r@) == path_set(v@.take(i as int)),
        decreases n - i,
    {
        let ghost r0 = r@;
        let ghost x = v@[i as int]@;
        let e = &v[i];
        if !contains_path(&r, e) {
            r.push(e.clone());
            proof {
                assert(r@ =~= r0.push(r@.last()));
                lemma_path_set_push(r0, r@.last());
                lemma_path_set_contains(r0, x);
                let sv = string_views(r@);
                assert(forall|j: int| 0 <= j < r0.len() ==> sv[j] == string_views(r0)[j]);
                assert(sv[r0.len() as int] == x);
                assert forall|a: int, b: int|
                    0 <= a < sv.len() && 0 <= b < sv.len() && a != b implies sv[a] != sv[b] by {
                    if a < r0.len() && b < r0.len() {
                        assert(string_views(r0)[a] != string_views(r0)[b]);
                    } else if a < r0.len() && b == r0.len() {
                        assert(r0[a]@ != x);
                    } else if b < r0.len() && a == r0.len() {
                        assert(r0[b]@ != x);
                    }
                }
            }
        } else {
            proof {
                assert(path_set(r@).contains(x));
            }
        }
        proof {
            assert(v@.take(i + 1) =~= v@.take(i as int).push(v@[i as int]));
            lemma_path_set_push(v@.take(i as int), v@[i as int]);
            assert(path_set(r@) =~= path_set(v@.take(i + 1)));
        }
        i = i + 1;
    }
    proof {
        assert(v@.take(n as int) =~= v@);
    }
    r
}

} // verus!
