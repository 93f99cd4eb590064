//! Pairing of detector spots into two-fragment events.
//!
//! The combined data list one line per spot: `(sweep, x, y, brightness)`, the
//! spots of one laser shot (one sweep) on consecutive lines. A shot whose spots
//! form a group of exactly two consecutive lines is a candidate pair; a group is
//! only complete once a line of another sweep follows it, so the last group of
//! the list is never taken. The angle of each pair is computed from the two
//! spots outside this library.

use vstd::prelude::*;

verus! {

/// One line of the combined data: sweep number, column, row and brightness.
pub type SpotRecord = (u64, u16, u16, u8);

/// Two spots of one sweep that make a candidate pair.
#[derive(Clone, Copy, Debug, PartialEq, Eq)]
pub struct PairCandidate {
    /// The sweep both spots belong to.
    pub id: u64,
    /// Column and row of the first spot.
    pub first: (u16, u16),
    /// Column and row of the second spot.
    pub second: (u16, u16),
}

/// Whether the records `i` and `i + 1` are a complete group of exactly two:
/// they share a sweep, the record before them (if any) and the record after
/// them (which must exist) belong to other sweeps.
pub open spec fn is_pair_at(r: Seq<SpotRecord>, i: int) -> bool {
    &&& 0 <= i
    &&& i + 2 < r.len()
    &&& (i == 0 || r[i - 1].0 != r[i].0)
    &&& r[i + 1].0 == r[i].0
    &&& r[i + 2].0 != r[i].0
}

/// The pair made of records `i` and `i + 1`.
pub open spec fn pair_at(r: Seq<SpotRecord>, i: int) -> PairCandidate {
    PairCandidate { id: r[i].0, first: (r[i].1, r[i].2), second: (r[i + 1].1, r[i + 1].2) }
}

/// The pairs that start before record `k`, in the order of the records.
pub open spec fn pairs_before(r: Seq<SpotRecord>, k: int) -> Seq<PairCandidate>
    decreases k,
{
    if k <= 0 {
        Seq::empty()
    } else if is_pair_at(r, k - 1) {
        pairs_before(r, k - 1).push(pair_at(r, k - 1))
    } else {
        pairs_before(r, k - 1)
    }
}

/// All candidate pairs of the list `records`, in order.
pub fn pair_candidates(records: &Vec<SpotRecord>) -> (r: Vec<PairCandidate>)
    ensures
        r@ == pairs_before(records@, records@.len() as int),
{
    let n = records.len();
    let mut out: Vec<PairCandidate> = Vec::new();
    let mut i: usize = 0;
    while i < n
        invariant
            i <= n,
            n == records@.len(),
            out@ == pairs_before(records@, i as int),
        decreases n - i,
    {
        let starts_group = i == 0 || records[i - 1].0 != records[i].0;
        if starts_group && 2 < n - i && records[i + 1].0 == records[i].0 && records[i + 2].0
            != records[i].0 {
            out.push(
                PairCandidate {
                    id: records[i].0,
                    first: (records[i].1, records[i].2),
                    second: (records[i + 1].1, records[i + 1].2),
                },
            );
        }
        i = i + 1;
    }
    out
}

/// Every candidate pair is made of two consecutive records of one sweep,
/// with other sweeps before and after them.
pub proof fn lemma_pairs_are_groups_of_two(r: Seq<SpotRecord>, k: int, j: int)
    requires
        0 <= j < pairs_before(r, k).len(),
    ensures
        exists|i: int| 0 <= i < k && #[trigger] is_pair_at(r, i) && pairs_before(r, k)[j] == pair_at(r, i),
    decreases k,
{
    if k > 0 {
        if is_pair_at(r, k - 1) && j == pairs_before(r, k - 1).len() {
            assert(is_pair_at(r, k - 1));
        } else {
            lemma_pairs_are_groups_of_two(r, k - 1, j);
        }
    }
}

/// The pairs before record `k` only grow as `k` grows.
proof fn lemma_pairs_before_prefix(r: Seq<SpotRecord>, k1: int, k2: int)
    requires
        k1 <= k2,
    ensures
        pairs_before(r, k1).len() <= pairs_before(r, k2).len(),
        forall|j: int| 0 <= j < pairs_before(r, k1).len() ==> #[trigger] pairs_before(r, k2)[j] == pairs_before(r, k1)[j],
    decreases k2 - k1,
{
    if k1 < k2 {
        lemma_pairs_before_prefix(r, k1, k2 - 1);
    }
}

/// Every group of exactly two consecutive records of one sweep that another
/// sweep's record follows (and none of its sweep precedes) gives a pair.
pub proof fn lemma_pair_candidates_complete(r: Seq<SpotRecord>, i: int)
    requires
        0 <= i && i + 2 < r.len() && (i == 0 || r[i - 1].0 != r[i].0) && r[i + 1].0 == r[i].0
                && r[i + 2].0 != r[i].0,
    ensures
        pairs_before(r, r.len() as int).contains((PairCandidate { id: r[i].0, first: (r[i].1, r[i].2), second: (r[i + 1].1, r[i + 1].2) })),
{
    let p = (PairCandidate { id: r[i].0, first: (r[i].1, r[i].2), second: (r[i + 1].1, r[i + 1].2) });
    assert(pairs_before(r, i + 1).last() == p);
    lemma_pairs_before_prefix(r, i + 1, r.len() as int);
    let j = pairs_before(r, i + 1).len() - 1;
    assert(pairs_before(r, r.len() as int)[j] == p);
}

/// The record at which the `j`-th pair before record `k` starts.
spec fn pair_origin(r: Seq<SpotRecord>, k: int, j: int) -> int
    decreases k,
{
    if k <= 0 {
        0
    } else if is_pair_at(r, k - 1) && j == pairs_before(r, k - 1).len() {
        k - 1
    } else {
        pair_origin(r, k - 1, j)
    }
}

proof fn lemma_pair_origin(r: Seq<SpotRecord>, k: int, j: int)
    requires
        0 <= j < pairs_before(r, k).len(),
    ensures
        is_pair_at(r, pair_origin(r, k, j)),
        pair_origin(r, k, j) < k,
        pairs_before(r, k)[j] == pair_at(r, pair_origin(r, k, j)),
        forall|j2: int| j < j2 < pairs_before(r, k).len() ==> pair_origin(r, k, j) < #[trigger] pair_origin(r, k, j2),
    decreases k,
{
    if k > 0 {
        let prev = pairs_before(r, k - 1);
        if is_pair_at(r, k - 1) && j == prev.len() {
        } else {
            lemma_pair_origin(r, k - 1, j);
            assert forall|j2: int| j < j2 < pairs_before(r, k).len() implies pair_origin(r, k, j) < #[trigger] pair_origin(r, k, j2) by {
                if j2 < prev.len() {
                    lemma_pair_origin(r, k - 1, j2);
                }
            }
        }
    }
}

/// Every pair is made of a group of exactly two consecutive records of one
/// sweep, another sweep's record before (if any) and after it.
pub proof fn lemma_pair_candidates_sound(r: Seq<SpotRecord>, j: int)
    requires
        0 <= j < pairs_before(r, r.len() as int).len(),
    ensures
        exists|i: int|
            #![trigger r[i]]
            0 <= i && i + 2 < r.len() && (i == 0 || r[i - 1].0 != r[i].0) && r[i + 1].0 == r[i].0
                && r[i + 2].0 != r[i].0
                && pairs_before(r, r.len() as int)[j] == (PairCandidate { id: r[i].0, first: (r[i].1, r[i].2), second: (r[i + 1].1, r[i + 1].2) }),
{
    lemma_pair_origin(r, r.len() as int, j);
    let i = pair_origin(r, r.len() as int, j);
    assert(r[i] == r[i]);
}

/// The pairs come in the order of their groups, one pair per group: later
/// pairs start at later records.
pub proof fn lemma_pair_candidates_ordered(r: Seq<SpotRecord>, j1: int, j2: int)
    requires
        0 <= j1 < j2 < pairs_before(r, r.len() as int).len(),
    ensures
        exists|i1: int, i2: int|
            #![trigger r[i1], r[i2]]
            i1 < i2 && 0 <= i1 && i1 + 2 < r.len() && (i1 == 0 || r[i1 - 1].0 != r[i1].0) && r[i1 + 1].0 == r[i1].0
                && r[i1 + 2].0 != r[i1].0
                && 0 <= i2 && i2 + 2 < r.len() && (i2 == 0 || r[i2 - 1].0 != r[i2].0) && r[i2 + 1].0 == r[i2].0
                && r[i2 + 2].0 != r[i2].0
                && pairs_before(r, r.len() as int)[j1] == (PairCandidate { id: r[i1].0, first: (r[i1].1, r[i1].2), second: (r[i1 + 1].1, r[i1 + 1].2) })
                && pairs_before(r, r.len() as int)[j2] == (PairCandidate { id: r[i2].0, first: (r[i2].1, r[i2].2), second: (r[i2 + 1].1, r[i2 + 1].2) }),
{
    let n = r.len() as int;
    lemma_pair_origin(r, n, j1);
    lemma_pair_origin(r, n, j2);
    let i1 = pair_origin(r, n, j1);
    let i2 = pair_origin(r, n, j2);
    assert(i1 < i2);
    assert(is_pair_at(r, i1) && is_pair_at(r, i2));
    let p1 = pairs_before(r, n)[j1];
    let p2 = pairs_before(r, n)[j2];
    assert(p1 == pair_at(r, i1) && p2 == pair_at(r, i2));
}

} // verus!
