//! Cache store decisions: validity-checked lookup, pruning, and deletion outcomes.

use vstd::prelude::*;
use crate::record::ImageInfo;

verus! {

/// A stored row is still valid for a file when it was written for the same
/// path, modification time and size.
pub open spec fn row_valid(row: ImageInfo, path: Seq<char>, mtime: i64, size: u64) -> bool {
    row.path@ == path && row.modified_at == mtime && row.size == size
}

/// Validity-checked cache lookup: the stored row for `path`, if any, is
/// returned unchanged when its modification time and size equal the ones
/// observed now; any mismatch is a miss.
pub fn cache_get(row: Option<ImageInfo>, path: &str, mtime: i64, size: u64) -> (r: Option<ImageInfo>)
    ensures
        match row {
            Some(s) => if row_valid(s, path@, mtime, size) {
                r == Some(s)
            } else {
                r is None
            },
            None => r is None,
        },
{
    match row {
        Some(s) => {
            if same_text(s.path.as_str(), path) && s.modified_at == mtime && s.size == size {
                Some(s)
            } else {
                None
            }
        },
        None => None,
    }
}

/// A file whose path, size and modification time are those of its stored
/// row is served from the store: the lookup returns that row unchanged, so
/// nothing is read or recomputed.
pub proof fn lemma_unchanged_file_hits(row: ImageInfo, path: Seq<char>, mtime: i64, size: u64)
    requires
        row.path@ == path,
        row.modified_at == mtime,
        row.size == size,
    ensures
        row_valid(row, path, mtime, size),
{
}

/// A change of a file's size or of its modification time always makes its
/// stored row a miss, so the file is processed again.
pub proof fn lemma_changed_file_misses(row: ImageInfo, path: Seq<char>, mtime: i64, size: u64)
    requires
        row.modified_at != mtime || row.size != size,
    ensures
        !row_valid(row, path, mtime, size),
{
}

/// Whether two texts hold the same characters.
pub fn same_text(a: &str, b: &str) -> (r: bool)
    ensures
        r == (a@ == b@),
{
    let n = a.unicode_len();
    if n != b.unicode_len() {
        return false;
    }
    let mut i: usize = 0;
    while i < n
        invariant
            n == a@.len(),
            n == b@.len(),
            i <= n,
            forall|k: int| 0 <= k < i ==> a@[k] == b@[k],
        decreases n - i,
    {
        if a.get_char(i) != b.get_char(i) {
            return false;
        }
        i += 1;
    }
    assert(a@ =~= b@);
    true
}

pub open spec fn texts(v: Seq<String>) -> Seq<Seq<char>> {
    v.map_values(|s: String| s@)
}

fn contains_text(v: &Vec<String>, p: &String) -> (r: bool)
    ensures
        r == texts(v@).contains(p@),
{
    let mut i: usize = 0;
    while i < v.len()
        invariant
            i <= v@.len(),
            forall|k: int| 0 <= k < i ==> v@[k]@ != p@,
        decreases v@.len() - i,
    {
        if same_text(v[i].as_str(), p.as_str()) {
            assert(texts(v@)[i as int] == p@);
            return true;
        }
        i += 1;
    }
    assert forall|k: int| 0 <= k < texts(v@).len() implies texts(v@)[k] != p@ by {
        assert(texts(v@)[k] == v@[k]@);
    }
    false
}

/// Pruning: the stored paths that are absent from `valid_paths`, which are
/// the rows to delete; every other stored row stays.
pub fn cache_prune(stored: &Vec<String>, valid_paths: &Vec<String>) -> (r: Vec<String>)
    ensures
        forall|p: Seq<char>| #[trigger] texts(r@).contains(p) <==> texts(stored@).contains(p) && !texts(valid_paths@).contains(p),
{
    let mut r: Vec<String> = Vec::new();
    let mut i: usize = 0;
    while i < stored.len()
        invariant
            i <= stored@.len(),
            forall|p: Seq<char>| #[trigger] texts(r@).contains(p) <==> texts(stored@.take(i as int)).contains(p)
                && !texts(valid_paths@).contains(p),
        decreases stored@.len() - i,
    {
        let ghost before = r@;
        if !contains_text(valid_paths, &stored[i]) {
            r.push(stored[i].clone());
        }
        proof {
            assert(texts(stored@.take(i + 1)) =~= texts(stored@.take(i as int)).push(stored@[i as int]@));
            if texts(r@) != texts(before) {
                assert(texts(r@) =~= texts(before).push(stored@[i as int]@));
            } else {
                assert(r@ == before);
            }
            assert forall|p: Seq<char>| #[trigger] texts(r@).contains(p) <==> texts(stored@.take(i + 1)).contains(p)
                && !texts(valid_paths@).contains(p) by {
                let t = texts(stored@.take(i as int));
                let t1 = texts(stored@.take(i + 1));
                let q = stored@[i as int]@;
                assert(t1 == t.push(q));
                lemma_push_contains(t, q, p);
                if texts(r@) != texts(before) {
                    lemma_push_contains(texts(before), q, p);
                }
            }
        }
        i += 1;
    }
    assert(stored@.take(stored@.len() as int) =~= stored@);
    r
}

proof fn lemma_push_contains(s: Seq<Seq<char>>, q: Seq<char>, p: Seq<char>)
    ensures
        s.push(q).contains(p) <==> s.contains(p) || p == q,
{
    let t = s.push(q);
    if t.contains(p) {
        let k = choose|k: int| 0 <= k < t.len() && t[k] == p;
        if k < s.len() {
            assert(s[k] == p);
        }
    }
    if s.contains(p) {
        let k = choose|k: int| 0 <= k < s.len() && s[k] == p;
        assert(t[k] == p);
    }
    if p == q {
        assert(t[s.len() as int] == p);
    }
}

/// After pruning, the rows that stay are exactly the stored rows whose paths
/// the scan reported: no valid row is removed and no stale row stays.
pub proof fn lemma_prune_keeps_exactly_valid(stored: Seq<Seq<char>>, valid: Seq<Seq<char>>, removed: Seq<Seq<char>>)
    requires
        forall|p: Seq<char>| #[trigger] removed.contains(p) <==> stored.contains(p) && !valid.contains(p),
    ensures
        stored.to_set().difference(removed.to_set()) == stored.to_set().intersect(valid.to_set()),
{
    assert(stored.to_set().difference(removed.to_set()) =~= stored.to_set().intersect(valid.to_set())) by {
        assert forall|p: Seq<char>| stored.to_set().difference(removed.to_set()).contains(p) <==> stored.to_set().intersect(
            valid.to_set(),
        ).contains(p) by {
            assert(removed.to_set().contains(p) == removed.contains(p));
            assert(stored.to_set().contains(p) == stored.contains(p));
            assert(valid.to_set().contains(p) == valid.contains(p));
        }
    }
}

/// Outcome of deleting one file: the path, whether it was removed, and the
/// error text where it was not.
#[derive(Debug, Clone)]
pub struct DeleteOutcome {
    pub path: String,
    pub deleted: bool,
    pub error: Option<String>,
}

/// The outcome record for one path from the result of removing its file.
pub fn delete_outcome(path: String, removal: Result<(), String>) -> (r: DeleteOutcome)
    ensures
        r.path == path,
        r.deleted == removal is Ok,
        match removal {
            Ok(_) => r.error is None,
            Err(e) => r.error == Some(e),
        },
{
    match removal {
        Ok(_) => DeleteOutcome { path, deleted: true, error: None },
        Err(e) => DeleteOutcome { path, deleted: false, error: Some(e) },
    }
}

} // verus!
