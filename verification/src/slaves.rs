//! Choosing which slave photos are compared: everything the `--slave`
//! values name, less any master photo, in path order with duplicates
//! removed.
//!
//! Globbing and canonicalising read the filesystem and are done by the
//! caller; each candidate and each master arrives as its path together with
//! its canonical form, when it has one.

use vstd::prelude::*;
use std::path::PathBuf;

verus! {

#[verifier::external_type_specification]
#[verifier::external_body]
pub struct ExPathBuf(std::path::PathBuf);

/// The encoded bytes a `PathBuf` holds (`OsStr::as_encoded_bytes` of it).
pub uninterp spec fn path_bytes(p: PathBuf) -> Seq<u8>;

/// Whether the path with the first bytes sorts before the one with the
/// second under std's `Ord for Path`, which compares the paths component by
/// component.
pub uninterp spec fn path_less(a: Seq<u8>, b: Seq<u8>) -> bool;

/// Two paths are equal under std's `Path` equality: neither sorts before
/// the other (`Ord for Path` agrees with its `PartialEq`).
pub open spec fn path_equal(a: Seq<u8>, b: Seq<u8>) -> bool {
    !path_less(a, b) && !path_less(b, a)
}

/// `a` and `b` are the same path.
pub open spec fn same_path(a: PathBuf, b: PathBuf) -> bool {
    path_equal(path_bytes(a), path_bytes(b))
}

/// `a` sorts before `b`.
pub open spec fn path_before(a: PathBuf, b: PathBuf) -> bool {
    path_less(path_bytes(a), path_bytes(b))
}

/// Where one path sorts against another.
#[derive(PartialEq, Eq, Structural)]
pub enum PathOrder {
    Before,
    Same,
    After,
}

/// Calls std's `Ord::cmp` on two paths. Its result is named `path_less`
/// (of their `path_bytes`); since `Ord` is a total order, exactly one of
/// before, same and after holds, and the clauses state its transitivity
/// for the paths compared.
#[verifier::external_body]
fn path_order(a: &PathBuf, b: &PathBuf) -> (o: PathOrder)
    ensures
        (o == PathOrder::Before) == path_less(path_bytes(*a), path_bytes(*b)),
        (o == PathOrder::After) == path_less(path_bytes(*b), path_bytes(*a)),
        o == PathOrder::Before ==> forall|c: Seq<u8>|
            #[trigger] path_less(path_bytes(*b), c) ==> path_less(path_bytes(*a), c),
        o == PathOrder::After ==> forall|c: Seq<u8>|
            #[trigger] path_less(path_bytes(*a), c) ==> path_less(path_bytes(*b), c),
{
    match a.cmp(b) {
        std::cmp::Ordering::Less => PathOrder::Before,
        std::cmp::Ordering::Equal => PathOrder::Same,
        std::cmp::Ordering::Greater => PathOrder::After,
    }
}

/// A photo given as its path and its canonical form, when it has one.
pub type Photo = (PathBuf, Option<PathBuf>);

/// A candidate is this master photo: their canonical forms are equal when
/// both have one, else their paths as given are equal.
pub open spec fn matches_master(c: Photo, m: Photo) -> bool {
    match (c.1, m.1) {
        (Some(cc), Some(mc)) => same_path(cc, mc),
        _ => same_path(c.0, m.0),
    }
}

/// A candidate is one of the master photos.
pub open spec fn is_master_photo(c: Photo, masters: Seq<Photo>) -> bool {
    exists|j: int| 0 <= j < masters.len() && matches_master(c, #[trigger] masters[j])
}

/// Whether `c` is one of the master photos.
fn is_master(c: &Photo, masters: &[Photo]) -> (r: bool)
    ensures
        r == is_master_photo(*c, masters@),
{
    let mut j: usize = 0;
    while j < masters.len()
        invariant
            j <= masters@.len(),
            forall|t: int| 0 <= t < j ==> !matches_master(*c, #[trigger] masters@[t]),
        decreases masters@.len() - j,
    {
        let m = &masters[j];
        let same = match (&c.1, &m.1) {
            (Some(cc), Some(mc)) => path_order(cc, mc) == PathOrder::Same,
            _ => path_order(&c.0, &m.0) == PathOrder::Same,
        };
        if same {
            assert(matches_master(*c, masters@[j as int]));
            return true;
        }
        j = j + 1;
    }
    false
}

/// The path of candidate `i`.
pub open spec fn candidate_path(candidates: Seq<Photo>, i: int) -> PathBuf {
    candidates[i].0
}

/// Which candidates are compared, as indices into `candidates`: no master
/// photo, every other candidate's path represented, in strictly increasing
/// path order (so no path twice). Of equal paths the first given is kept.
pub fn select_slaves(candidates: &[Photo], masters: &[Photo]) -> (kept: Vec<usize>)
    ensures
        forall|k: int|
            0 <= k < kept@.len() ==> #[trigger] kept@[k] < candidates@.len() && !is_master_photo(
                candidates@[kept@[k] as int],
                masters@,
            ),
        forall|i: int|
            0 <= i < candidates@.len() && !is_master_photo(#[trigger] candidates@[i], masters@)
                ==> exists|k: int|
                0 <= k < kept@.len() && (kept@[k] == i || same_path(
                    candidate_path(candidates@, #[trigger] kept@[k] as int),
                    candidate_path(candidates@, i),
                )),
        forall|a: int, b: int|
            0 <= a < b < kept@.len() ==> path_before(
                candidate_path(candidates@, #[trigger] kept@[a] as int),
                candidate_path(candidates@, #[trigger] kept@[b] as int),
            ),
        forall|k: int, j: int|
            0 <= k < kept@.len() && 0 <= j < masters@.len() ==> match (
                candidates@[#[trigger] kept@[k] as int].1,
                #[trigger] masters@[j].1,
            ) {
                (Some(cc), Some(mc)) => path_less(path_bytes(cc), path_bytes(mc)) || path_less(
                    path_bytes(mc),
                    path_bytes(cc),
                ),
                _ => path_less(path_bytes(candidates@[kept@[k] as int].0), path_bytes(masters@[j].0))
                    || path_less(path_bytes(masters@[j].0), path_bytes(candidates@[kept@[k] as int].0)),
            },
{
    let n = candidates.len();
    let mut kept: Vec<usize> = Vec::new();
    let mut i: usize = 0;
    while i < n
        invariant
            n == candidates@.len(),
            i <= n,
            forall|k: int|
                0 <= k < kept@.len() ==> #[trigger] kept@[k] < i && !is_master_photo(
                    candidates@[kept@[k] as int],
                    masters@,
                ),
            forall|j: int|
                0 <= j < i && !is_master_photo(#[trigger] candidates@[j], masters@) ==> exists|k: int|
                    0 <= k < kept@.len() && (kept@[k] == j || same_path(
                        candidate_path(candidates@, #[trigger] kept@[k] as int),
                        candidate_path(candidates@, j),
                    )),
            forall|a: int, b: int|
                0 <= a < b < kept@.len() ==> path_before(
                    candidate_path(candidates@, #[trigger] kept@[a] as int),
                    candidate_path(candidates@, #[trigger] kept@[b] as int),
                ),
        decreases n - i,
    {
        if !is_master(&candidates[i], masters) {
            let ghost x = candidate_path(candidates@, i as int);
            let mut p: usize = 0;
            let mut stop = false;
            let mut dup = false;
            while p < kept.len() && !stop
                invariant
                    n == candidates@.len(),
                    i < n,
                    x == candidate_path(candidates@, i as int),
                    p <= kept@.len(),
                    forall|k: int| 0 <= k < kept@.len() ==> #[trigger] kept@[k] < i,
                    forall|k: int|
                        0 <= k < p ==> path_before(
                            candidate_path(candidates@, #[trigger] kept@[k] as int),
                            x,
                        ),
                    !stop ==> !dup,
                    stop ==> p < kept@.len(),
                    stop && dup ==> same_path(candidate_path(candidates@, kept@[p as int] as int), x),
                    stop && !dup ==> path_before(x, candidate_path(candidates@, kept@[p as int] as int))
                        && forall|c: Seq<u8>|
                        #[trigger] path_less(
                            path_bytes(candidate_path(candidates@, kept@[p as int] as int)),
                            c,
                        ) ==> path_less(path_bytes(x), c),
                decreases kept@.len() - p + (if stop { 0int } else { 1int }),
            {
                let o = path_order(&candidates[kept[p]].0, &candidates[i].0);
                match o {
                    PathOrder::Before => {
                        p = p + 1;
                    },
                    PathOrder::Same => {
                        stop = true;
                        dup = true;
                    },
                    PathOrder::After => {
                        stop = true;
                    },
                }
            }
            if dup {
                assert(kept@[p as int] < i);
                assert forall|j: int|
                    0 <= j < i + 1 && !is_master_photo(
                        #[trigger] candidates@[j],
                        masters@,
                    ) implies exists|k: int|
                    0 <= k < kept@.len() && (kept@[k] == j || same_path(
                        candidate_path(candidates@, #[trigger] kept@[k] as int),
                        candidate_path(candidates@, j),
                    )) by {
                    if j == i {
                        assert(same_path(
                            candidate_path(candidates@, kept@[p as int] as int),
                            candidate_path(candidates@, j),
                        ));
                    }
                }
            } else {
                let ghost old_kept = kept@;
                kept.insert(p, i);
                assert(kept@[p as int] == i);
                assert forall|k: int| 0 <= k < kept@.len() implies #[trigger] kept@[k] < i + 1
                    && !is_master_photo(candidates@[kept@[k] as int], masters@) by {
                    if k < p {
                        assert(kept@[k] == old_kept[k]);
                    } else if k > p {
                        assert(kept@[k] == old_kept[k - 1]);
                    }
                }
                assert forall|j: int|
                    0 <= j < i + 1 && !is_master_photo(
                        #[trigger] candidates@[j],
                        masters@,
                    ) implies exists|k: int|
                    0 <= k < kept@.len() && (kept@[k] == j || same_path(
                        candidate_path(candidates@, #[trigger] kept@[k] as int),
                        candidate_path(candidates@, j),
                    )) by {
                    if j < i {
                        let k0 = choose|k: int|
                            0 <= k < old_kept.len() && (old_kept[k] == j || same_path(
                                candidate_path(candidates@, #[trigger] old_kept[k] as int),
                                candidate_path(candidates@, j),
                            ));
                        if k0 < p {
                            assert(kept@[k0] == old_kept[k0]);
                        } else {
                            assert(kept@[k0 + 1] == old_kept[k0]);
                        }
                    }
                }
                assert forall|a: int, b: int| 0 <= a < b < kept@.len() implies path_before(
                    candidate_path(candidates@, #[trigger] kept@[a] as int),
                    candidate_path(candidates@, #[trigger] kept@[b] as int),
                ) by {
                    if b < p {
                        assert(kept@[a] == old_kept[a] && kept@[b] == old_kept[b]);
                    } else if b == p {
                        assert(kept@[a] == old_kept[a]);
                    } else if a > p {
                        assert(kept@[a] == old_kept[a - 1] && kept@[b] == old_kept[b - 1]);
                    } else if a == p {
                        assert(kept@[b] == old_kept[b - 1]);
                        if b - 1 > p {
                            assert(path_before(
                                candidate_path(candidates@, old_kept[p as int] as int),
                                candidate_path(candidates@, old_kept[b - 1] as int),
                            ));
                        }
                    } else {
                        assert(kept@[a] == old_kept[a] && kept@[b] == old_kept[b - 1]);
                    }
                }
            }
        }
        i = i + 1;
    }
    assert forall|k: int, j: int| 0 <= k < kept@.len() && 0 <= j < masters@.len() implies match (
        candidates@[#[trigger] kept@[k] as int].1,
        #[trigger] masters@[j].1,
    ) {
        (Some(cc), Some(mc)) => path_less(path_bytes(cc), path_bytes(mc)) || path_less(
            path_bytes(mc),
            path_bytes(cc),
        ),
        _ => path_less(path_bytes(candidates@[kept@[k] as int].0), path_bytes(masters@[j].0))
            || path_less(path_bytes(masters@[j].0), path_bytes(candidates@[kept@[k] as int].0)),
    } by {
        assert(!is_master_photo(candidates@[kept@[k] as int], masters@));
        assert(!matches_master(candidates@[kept@[k] as int], masters@[j]));
    }
    kept
}

/// A candidate whose canonical form equals that of any master photo (any
/// one of them, not just the first), or, when either lacks a canonical
/// form, whose path as given equals that master's, is a master photo, so
/// `select_slaves` never keeps it.
pub proof fn lemma_master_never_selected(c: Photo, masters: Seq<Photo>, j: int)
    requires
        0 <= j < masters.len(),
        match (c.1, masters[j].1) {
            (Some(cc), Some(mc)) => !path_less(path_bytes(cc), path_bytes(mc)) && !path_less(
                path_bytes(mc),
                path_bytes(cc),
            ),
            _ => !path_less(path_bytes(c.0), path_bytes(masters[j].0)) && !path_less(
                path_bytes(masters[j].0),
                path_bytes(c.0),
            ),
        },
    ensures
        is_master_photo(c, masters),
{
    assert(matches_master(c, masters[j]));
}

} // verus!
