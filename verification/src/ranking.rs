//! Picking and ordering results by a score.
//!
//! Scores are given as `i64` keys: a float is passed in through
//! `total_order_key` of its bits, so comparing keys is comparing the floats
//! in IEEE 754 total order.

use vstd::prelude::*;

verus! {

/// The integer that IEEE 754 total order gives a 64-bit float with these
/// bits: a non-negative float keeps its bit pattern, a float with the sign
/// bit set maps below every non-negative one, larger magnitudes lower.
pub open spec fn total_order_value(bits: u64) -> int {
    if bits < 0x8000_0000_0000_0000u64 {
        bits as int
    } else {
        -1 - (bits - 0x8000_0000_0000_0000u64)
    }
}

/// The sort key of a 64-bit float, from its bits (`f64::to_bits`): keys
/// compare as the floats do under IEEE 754 total order, the order
/// `f64::total_cmp` uses.
pub fn total_order_key(bits: u64) -> (key: i64)
    ensures
        key as int == total_order_value(bits),
        bits < 0x8000_0000_0000_0000u64 ==> key as int == bits as int,
        bits >= 0x8000_0000_0000_0000u64 ==> key < 0 && key as int == -1 - (bits as int
            - 0x8000_0000_0000_0000int),
{
    let b = bits as i64;
    let key = b ^ ((((b >> 63u64) as u64) >> 1u64) as i64);
    assert(key as int == total_order_value(bits)) by (bit_vector)
        requires
            b == bits as i64,
            key == b ^ ((((b >> 63u64) as u64) >> 1u64) as i64),
    ;
    key
}

/// Keys follow IEEE 754 total order: among non-negative floats (sign bit
/// clear) a larger bit pattern is a larger float and gets a larger key;
/// among floats with the sign bit set a larger bit pattern is a larger
/// magnitude, a smaller float, and gets a smaller key; and every float with
/// the sign bit set keys below every one without. So distinct bit patterns
/// never share a key.
pub proof fn lemma_total_order_key_monotone(a: u64, b: u64)
    ensures
        a < b < 0x8000_0000_0000_0000u64 ==> total_order_value(a) < total_order_value(b),
        0x8000_0000_0000_0000u64 <= a < b ==> total_order_value(a) > total_order_value(b),
        a < 0x8000_0000_0000_0000u64 <= b ==> total_order_value(b) < 0 <= total_order_value(a),
        a != b ==> total_order_value(a) != total_order_value(b),
{
}

/// Result `i` is listed before result `j`: it scores higher, or it scores the
/// same and came first (a stable ordering).
pub open spec fn ranks_before(keys: Seq<i64>, i: int, j: int) -> bool {
    keys[i] > keys[j] || (keys[i] == keys[j] && i < j)
}

/// How many results are shown: all of them, or at most `max`.
pub open spec fn shown_count(n: nat, max: Option<usize>) -> nat {
    match max {
        Some(m) => if m < n {
            m as nat
        } else {
            n
        },
        None => n,
    }
}

/// `--max m` shows exactly the `m` best results, or all of them when there
/// are no more than `m`; without `--max` every result is shown.
pub proof fn lemma_shown_count_is_min(n: nat, max: Option<usize>)
    ensures
        max matches Some(m) ==> shown_count(n, max) == if m < n {
            m as nat
        } else {
            n
        },
        max matches Some(m) ==> shown_count(n, max) <= m && shown_count(n, max) <= n,
        max matches Some(m) ==> (m < n ==> shown_count(n, max) == m),
        max is None ==> shown_count(n, max) == n,
{
}

/// `order` lists indices of `keys` best first, and every index it leaves
/// out ranks after every index it lists.
pub open spec fn is_best_first(keys: Seq<i64>, order: Seq<usize>) -> bool {
    &&& forall|k: int| 0 <= k < order.len() ==> #[trigger] order[k] < keys.len()
    &&& forall|a: int, b: int|
        0 <= a < b < order.len() ==> ranks_before(keys, #[trigger] order[a] as int, #[trigger] order[b] as int)
    &&& forall|k: int, j: usize|
        #![trigger order[k], order.contains(j)]
        0 <= k < order.len() && j < keys.len() && !order.contains(j) ==> ranks_before(
            keys,
            order[k] as int,
            j as int,
        )
}

/// The index of the highest key; where several share it, the last of them
/// (as `Iterator::max_by` picks). `None` for no keys.
pub fn last_max_index(keys: &[i64]) -> (r: Option<usize>)
    ensures
        r is None <==> keys@.len() == 0,
        r matches Some(i) ==> {
            &&& i < keys@.len()
            &&& forall|j: int| 0 <= j < keys@.len() ==> keys@[j] <= keys@[i as int]
            &&& forall|j: int| i < j < keys@.len() ==> keys@[j] < keys@[i as int]
        },
{
    let n = keys.len();
    if n == 0 {
        return None;
    }
    let mut best: usize = 0;
    let mut i: usize = 1;
    while i < n
        invariant
            n == keys@.len(),
            0 <= best < i <= n,
            forall|j: int| 0 <= j < i ==> keys@[j] <= keys@[best as int],
            forall|j: int| best < j < i ==> keys@[j] < keys@[best as int],
        decreases n - i,
    {
        if keys[i] >= keys[best] {
            best = i;
        }
        i = i + 1;
    }
    Some(best)
}

/// Indices of `keys` ordered best first (highest key first, ties in their
/// given order), cut to the first `max` when a limit is given.
pub fn rank_best_first(keys: &[i64], max: Option<usize>) -> (order: Vec<usize>)
    ensures
        order@.len() == shown_count(keys@.len(), max),
        is_best_first(keys@, order@),
        max matches Some(m) ==> order@.len() == if m < keys@.len() {
            m as int
        } else {
            keys@.len() as int
        },
        max is None ==> order@.len() == keys@.len(),
        forall|k: int| 0 <= k < order@.len() ==> #[trigger] order@[k] < keys@.len(),
        forall|a: int, b: int|
            0 <= a < b < order@.len() ==> keys@[#[trigger] order@[a] as int] > keys@[#[trigger] order@[b] as int]
                || (keys@[order@[a] as int] == keys@[order@[b] as int] && order@[a] < order@[b]),
        forall|k: int, j: usize|
            #![trigger order@[k], order@.contains(j)]
            0 <= k < order@.len() && j < keys@.len() && !order@.contains(j) ==> keys@[order@[k] as int]
                > keys@[j as int] || (keys@[order@[k] as int] == keys@[j as int] && order@[k] < j),
        order@.len() == keys@.len() ==> forall|j: usize| #![trigger order@.contains(j)] j < keys@.len()
            ==> order@.contains(j),
{
    let n = keys.len();
    let mut order: Vec<usize> = Vec::new();
    let mut i: usize = 0;
    while i < n
        invariant
            n == keys@.len(),
            i <= n,
            order@.len() == i,
            forall|k: int| 0 <= k < order@.len() ==> #[trigger] order@[k] < i,
            forall|a: int, b: int|
                0 <= a < b < order@.len() ==> ranks_before(
                    keys@,
                    #[trigger] order@[a] as int,
                    #[trigger] order@[b] as int,
                ),
            forall|j: usize| j < i ==> #[trigger] order@.contains(j),
        decreases n - i,
    {
        let mut p: usize = 0;
        while p < i && keys[order[p]] >= keys[i]
            invariant
                n == keys@.len(),
                i < n,
                order@.len() == i,
                p <= i,
                forall|k: int| 0 <= k < order@.len() ==> #[trigger] order@[k] < i,
                forall|k: int| 0 <= k < p ==> ranks_before(keys@, #[trigger] order@[k] as int, i as int),
            decreases i - p,
        {
            p = p + 1;
        }
        assert forall|k: int| p <= k < order@.len() implies ranks_before(
            keys@,
            i as int,
            #[trigger] order@[k] as int,
        ) by {
            if k > p {
                assert(ranks_before(keys@, order@[p as int] as int, order@[k] as int));
            }
        }
        let ghost before = order@;
        order.insert(p, i);
        assert forall|j: usize| j < i + 1 implies #[trigger] order@.contains(j) by {
            if j == i {
                assert(order@[p as int] == i);
            } else {
                assert(before.contains(j));
                let q = choose|q: int| 0 <= q < before.len() && before[q] == j;
                if q < p {
                    assert(order@[q] == j);
                } else {
                    assert(order@[q + 1] == j);
                }
            }
        }
        i = i + 1;
    }
    let limit: usize = match max {
        Some(m) => if m < n {
            m
        } else {
            n
        },
        None => n,
    };
    let ghost full = order@;
    order.truncate(limit);
    assert(limit == n ==> order@ =~= full);
    assert forall|k: int, j: usize|
        #![trigger order@[k], order@.contains(j)]
        0 <= k < order@.len() && j < n && !order@.contains(j) implies ranks_before(
        keys@,
        order@[k] as int,
        j as int,
    ) by {
        assert(full.contains(j));
        let q = choose|q: int| 0 <= q < full.len() && full[q] == j;
        if q < limit {
            assert(order@[q] == j);
        }
        assert(ranks_before(keys@, full[k] as int, full[q] as int));
    }
    order
}


/// Two best-first listings of the same keys agree on their first `k`
/// places, as far as the shorter one reaches.
proof fn lemma_best_first_agree_upto(keys: Seq<i64>, full: Seq<usize>, shown: Seq<usize>, k: int)
    requires
        is_best_first(keys, full),
        is_best_first(keys, shown),
        shown.len() <= full.len(),
        0 <= k <= shown.len(),
    ensures
        forall|t: int| 0 <= t < k ==> shown[t] == full[t],
    decreases k,
{
    if k > 0 {
        lemma_best_first_agree_upto(keys, full, shown, k - 1);
        let t = k - 1;
        let x = shown[t];
        let y = full[t];
        if x != y {
            // `shown` puts x ahead of y.
            if shown.contains(y) {
                let q = choose|q: int| 0 <= q < shown.len() && shown[q] == y;
                if q < t {
                    assert(full[q] == y);
                    assert(ranks_before(keys, full[q] as int, full[t] as int));
                }
                assert(ranks_before(keys, shown[t] as int, shown[q] as int));
            } else {
                assert(y < keys.len());
                assert(ranks_before(keys, shown[t] as int, y as int));
            }
            // `full` puts y ahead of x.
            if full.contains(x) {
                let q = choose|q: int| 0 <= q < full.len() && full[q] == x;
                if q < t {
                    assert(shown[q] == x);
                    assert(ranks_before(keys, shown[q] as int, shown[t] as int));
                }
                assert(ranks_before(keys, full[t] as int, full[q] as int));
            } else {
                assert(x < keys.len());
                assert(ranks_before(keys, full[t] as int, x as int));
            }
        }
    }
}

/// Limiting the output with `--max` only trims the tail: any best-first
/// listing is the start of any longer best-first listing of the same keys,
/// so `rank_best_first(keys, Some(m))` is the first `m` entries of
/// `rank_best_first(keys, None)`, and two listings of one length are equal.
pub proof fn lemma_limit_only_trims(keys: Seq<i64>, full: Seq<usize>, shown: Seq<usize>)
    requires
        is_best_first(keys, full),
        is_best_first(keys, shown),
        shown.len() <= full.len(),
    ensures
        shown == full.subrange(0, shown.len() as int),
{
    lemma_best_first_agree_upto(keys, full, shown, shown.len() as int);
    assert(shown =~= full.subrange(0, shown.len() as int));
}


/// A best-first listing shows scores in non-increasing order, never lists a
/// result twice, and keeps results with equal scores in their given order.
pub proof fn lemma_best_first_is_descending(keys: Seq<i64>, order: Seq<usize>)
    requires
        is_best_first(keys, order),
    ensures
        forall|a: int, b: int|
            0 <= a < b < order.len() ==> keys[#[trigger] order[a] as int] >= keys[#[trigger] order[b] as int],
        forall|a: int, b: int| 0 <= a < b < order.len() ==> #[trigger] order[a] != #[trigger] order[b],
        forall|a: int, b: int|
            0 <= a < b < order.len() && keys[order[a] as int] == keys[order[b] as int] ==> #[trigger] order[a]
                < #[trigger] order[b],
{
    assert forall|a: int, b: int| 0 <= a < b < order.len() implies keys[#[trigger] order[a] as int]
        >= keys[#[trigger] order[b] as int] && order[a] != order[b] by {
        assert(ranks_before(keys, order[a] as int, order[b] as int));
    }
}

} // verus!
