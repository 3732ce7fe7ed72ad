//! The in-memory vector index and its top-k ranking by similarity.
//!
//! Similarities are fixed-point integers (millionths), so that ranking, ties and
//! truncation are exact; ties go to the entry inserted first.
use vstd::prelude::*;
use crate::record::CustomerFeedback;

verus! {

/// Entry `i` ranks before entry `j`: a higher similarity, or an equal one and an
/// earlier insertion.
pub open spec fn ranks_before(scores: Seq<i64>, i: int, j: int) -> bool {
    scores[i] > scores[j] || (scores[i] == scores[j] && i < j)
}

pub open spec fn min_nat(a: nat, b: nat) -> nat {
    if a < b {
        a
    } else {
        b
    }
}

/// `r` lists the `k` best-ranked entries (all of them when there are fewer), best first.
pub open spec fn is_top_k(scores: Seq<i64>, k: nat, r: Seq<usize>) -> bool {
    &&& r.len() == min_nat(k, scores.len())
    &&& forall|a: int| 0 <= a < r.len() ==> (#[trigger] r[a] as int) < scores.len()
    &&& forall|a: int, b: int|
        0 <= a < b < r.len() ==> ranks_before(scores, #[trigger] r[a] as int, #[trigger] r[b] as int)
    &&& forall|p: int, a: int|
        0 <= p < scores.len() && !r.contains(p as usize) && 0 <= a < r.len() ==> #[trigger] ranks_before(
            scores,
            r[a] as int,
            p,
        )
}

proof fn lemma_covers(r: Seq<usize>, n: nat)
    requires
        r.no_duplicates(),
        forall|p: usize| (p as nat) < n ==> #[trigger] r.contains(p),
        n <= usize::MAX + 1,
    ensures
        r.len() >= n,
    decreases n,
{
    if n > 0 {
        let last = (n - 1) as usize;
        assert(r.contains(last));
        let idx = choose|idx: int| 0 <= idx < r.len() && r[idx] == last;
        let rest = r.remove(idx);
        assert forall|p: usize| (p as nat) < n - 1 implies #[trigger] rest.contains(p) by {
            assert(r.contains(p));
            let j = choose|j: int| 0 <= j < r.len() && r[j] == p;
            if j < idx {
                assert(rest[j] == r[j]);
            } else {
                assert(j != idx);
                assert(rest[j - 1] == r[j]);
            }
        }
        assert(rest.no_duplicates()) by {
            assert forall|a: int, b: int| 0 <= a < rest.len() && 0 <= b < rest.len() && a != b implies rest[a]
                != rest[b] by {
                let ra = if a < idx { a } else { a + 1 };
                let rb = if b < idx { b } else { b + 1 };
                assert(rest[a] == r[ra]);
                assert(rest[b] == r[rb]);
            }
        }
        lemma_covers(rest, (n - 1) as nat);
    }
}

/// Returns the positions of the `k` entries with the highest scores, best first, ties
/// going to the lower position; all positions, ranked, when `k` is at least their number.
pub fn top_k(scores: &Vec<i64>, k: usize) -> (r: Vec<usize>)
    ensures
        is_top_k(scores@, k as nat, r@),
{
    let n = scores.len();
    let mut chosen: Vec<bool> = Vec::new();
    while chosen.len() < n
        invariant
            chosen.len() <= n,
            forall|p: int| 0 <= p < chosen.len() ==> !#[trigger] chosen[p],
        decreases n - chosen.len(),
    {
        chosen.push(false);
    }
    let mut r: Vec<usize> = Vec::new();
    while r.len() < k && r.len() < n
        invariant
            n == scores.len(),
            chosen.len() == n,
            r.len() <= n,
            r.len() <= k,
            forall|p: int| 0 <= p < n ==> (#[trigger] chosen[p] <==> r@.contains(p as usize)),
            forall|a: int| 0 <= a < r.len() ==> (#[trigger] r[a] as int) < n,
            forall|a: int, b: int|
                0 <= a < b < r.len() ==> ranks_before(scores@, #[trigger] r[a] as int, #[trigger] r[b] as int),
            forall|p: int, a: int|
                0 <= p < n && !chosen[p] && 0 <= a < r.len() ==> #[trigger] ranks_before(scores@, r[a] as int, p),
        decreases n - r.len(),
    {
        proof {
            assert(r@.no_duplicates()) by {
                assert forall|a: int, b: int| 0 <= a < r.len() && 0 <= b < r.len() && a != b implies r[a] != r[b] by {
                    if a < b {
                        assert(ranks_before(scores@, r[a] as int, r[b] as int));
                    } else {
                        assert(ranks_before(scores@, r[b] as int, r[a] as int));
                    }
                }
            }
            if forall|p: int| 0 <= p < n ==> !!#[trigger] chosen[p] {
                assert forall|p: usize| (p as nat) < n implies #[trigger] r@.contains(p) by {
                    assert(chosen[p as int]);
                }
                lemma_covers(r@, n as nat);
            }
        }
        let mut best: usize = n;
        let mut i: usize = 0;
        while i < n
            invariant
                n == scores.len(),
                chosen.len() == n,
                i <= n,
                best == n || (best < i && !chosen[best as int]),
                best == n ==> forall|p: int| 0 <= p < i ==> #[trigger] chosen[p],
                best < n ==> forall|p: int|
                    0 <= p < i && !chosen[p] && p != best ==> ranks_before(scores@, best as int, p),
            decreases n - i,
        {
            if !chosen[i] && (best == n || scores[i] > scores[best]) {
                best = i;
            }
            i = i + 1;
        }
        assert(best < n);
        proof {
            assert forall|p: int| 0 <= p < n && !chosen[p] && p != best implies ranks_before(
                scores@,
                best as int,
                p,
            ) by {}
        }
        let ghost r0 = r@;
        let ghost c0 = chosen@;
        chosen.set(best, true);
        r.push(best);
        proof {
            assert forall|p: int| 0 <= p < n implies (#[trigger] chosen[p] <==> r@.contains(p as usize)) by {
                if p == best {
                    assert(r@[r0.len() as int] == best);
                } else {
                    assert(c0[p] == chosen[p]);
                    if r0.contains(p as usize) {
                        let j = choose|j: int| 0 <= j < r0.len() && r0[j] == p as usize;
                        assert(r@[j] == p as usize);
                    }
                    if r@.contains(p as usize) {
                        let j = choose|j: int| 0 <= j < r@.len() && r@[j] == p as usize;
                        assert(j < r0.len());
                        assert(r0[j] == p as usize);
                    }
                }
            }
            assert forall|a: int, b: int|
                0 <= a < b < r.len() implies ranks_before(scores@, #[trigger] r[a] as int, #[trigger] r[b] as int) by {
                if b == r0.len() {
                    assert(r[a] == r0[a]);
                    assert(!c0[best as int]);
                } else {
                    assert(r[a] == r0[a]);
                    assert(r[b] == r0[b]);
                }
            }
            assert forall|p: int, a: int|
                0 <= p < n && !chosen[p] && 0 <= a < r.len() implies #[trigger] ranks_before(
                scores@,
                r[a] as int,
                p,
            ) by {
                assert(c0[p] == chosen[p] || p == best);
                if a < r0.len() {
                    assert(r[a] == r0[a]);
                }
            }
        }
    }
    proof {
        assert forall|p: int, a: int|
            0 <= p < scores.len() && !r@.contains(p as usize) && 0 <= a < r.len() implies #[trigger] ranks_before(
            scores@,
            r[a] as int,
            p,
        ) by {
            assert(!chosen[p]);
        }
    }
    r
}


/// A self-match comes first: when entry `j` has the highest similarity (as a query
/// embedded from its own text has) and no earlier entry scores as high, any query
/// for at least one entry returns `j` first.
pub proof fn self_match_ranks_first(scores: Seq<i64>, k: nat, r: Seq<usize>, j: int)
    requires
        is_top_k(scores, k, r),
        scores.len() <= usize::MAX,
        k >= 1,
        0 <= j < scores.len(),
        forall|i: int| 0 <= i < scores.len() ==> scores[i] <= scores[j],
        forall|i: int| 0 <= i < j ==> scores[i] < scores[j],
    ensures
        r.len() >= 1,
        r[0] as int == j,
{
    assert(r.len() >= 1);
    if r[0] as int != j {
        if r.contains(j as usize) {
            let a = choose|a: int| 0 <= a < r.len() && r[a] == j as usize;
            assert(r[a] as int == j);
            assert(a != 0);
            assert(ranks_before(scores, r[0] as int, r[a] as int));
        } else {
            assert(ranks_before(scores, r[0] as int, j));
        }
    }
}

/// A query on an empty index returns no entry, whatever `k`.
pub proof fn empty_index_query(scores: Seq<i64>, k: nat, r: Seq<usize>)
    requires
        is_top_k(scores, k, r),
        scores.len() == 0,
    ensures
        r.len() == 0,
{
}

/// A query for at least as many entries as the index holds returns every entry once,
/// ranked.
pub proof fn query_beyond_size(scores: Seq<i64>, k: nat, r: Seq<usize>)
    requires
        is_top_k(scores, k, r),
        k >= scores.len(),
    ensures
        r.len() == scores.len(),
        r.no_duplicates(),
        forall|p: usize| (p as nat) < scores.len() ==> #[trigger] r.contains(p),
        forall|a: int, b: int|
            0 <= a < b < r.len() ==> ranks_before(scores, #[trigger] r[a] as int, #[trigger] r[b] as int),
{
    assert forall|a: int, b: int| 0 <= a < r.len() && 0 <= b < r.len() && a != b implies r[a] != r[b] by {
        if a < b {
            assert(ranks_before(scores, r[a] as int, r[b] as int));
        } else {
            assert(ranks_before(scores, r[b] as int, r[a] as int));
        }
    }
    assert forall|p: usize| (p as nat) < scores.len() implies #[trigger] r.contains(p) by {
        lemma_full_covers(r, scores.len(), p);
    }
}

proof fn lemma_full_covers(r: Seq<usize>, n: nat, missing: usize)
    requires
        r.no_duplicates(),
        r.len() == n,
        forall|a: int| 0 <= a < r.len() ==> (#[trigger] r[a] as nat) < n,
        (missing as nat) < n,
    ensures
        r.contains(missing),
{
    if !r.contains(missing) {
        let s = r.push(missing);
    assert(s.no_duplicates()) by {
        assert forall|a: int, b: int| 0 <= a < s.len() && 0 <= b < s.len() && a != b implies s[a] != s[b] by {
            if a < r.len() && b < r.len() {
                assert(s[a] == r[a] && s[b] == r[b]);
            } else if a < r.len() {
                assert(s[a] == r[a]);
            } else {
                assert(s[b] == r[b]);
            }
        }
    }
        lemma_fits(s, n);
    }
}

proof fn lemma_fits(s: Seq<usize>, n: nat)
    requires
        s.no_duplicates(),
        forall|a: int| 0 <= a < s.len() ==> (#[trigger] s[a] as nat) < n,
    ensures
        s.len() <= n,
    decreases n,
{
    if n == 0 {
        if s.len() > 0 {
            assert((s[0] as nat) < 0);
        }
    } else {
        let top = (n - 1) as usize;
        if s.contains(top) {
            let idx = choose|idx: int| 0 <= idx < s.len() && s[idx] == top;
            let rest = s.remove(idx);
            assert forall|a: int| 0 <= a < rest.len() implies (#[trigger] rest[a] as nat) < n - 1 by {
                let sa = if a < idx { a } else { a + 1 };
                assert(rest[a] == s[sa]);
                assert(sa != idx);
            }
            assert(rest.no_duplicates()) by {
                assert forall|a: int, b: int| 0 <= a < rest.len() && 0 <= b < rest.len() && a != b implies rest[a]
                    != rest[b] by {
                    let sa = if a < idx { a } else { a + 1 };
                    let sb = if b < idx { b } else { b + 1 };
                    assert(rest[a] == s[sa]);
                    assert(rest[b] == s[sb]);
                }
            }
            lemma_fits(rest, (n - 1) as nat);
        } else {
            assert forall|a: int| 0 <= a < s.len() implies (#[trigger] s[a] as nat) < n - 1 by {
                if s[a] == top {
                    assert(s.contains(top));
                }
            }
            lemma_fits(s, (n - 1) as nat);
        }
    }
}


/// One retrieved entry: its similarity to the query and its position in the index.
#[derive(Clone, Copy, Debug, PartialEq, Eq, Structural)]
pub struct Hit {
    pub score: i64,
    pub position: usize,
}

/// The positions that a list of hits names, in order.
pub open spec fn hit_positions(hits: Seq<Hit>) -> Seq<usize> {
    hits.map_values(|h: Hit| h.position)
}

/// A build-once, read-many index of records and their embeddings, in insertion order.
pub struct VectorIndex<E> {
    entries: Vec<(CustomerFeedback, E)>,
}

impl<E> VectorIndex<E> {
    /// The entries, in insertion order.
    pub closed spec fn entries(&self) -> Seq<(CustomerFeedback, E)> {
        self.entries@
    }

    /// Builds the index from (record, embedding) pairs, keeping their order and any
    /// repeated identifiers.
    pub fn build(entries: Vec<(CustomerFeedback, E)>) -> (r: Self)
        ensures
            r.entries() == entries@,
    {
        VectorIndex { entries }
    }

    pub fn len(&self) -> (r: usize)
        ensures
            r == self.entries().len(),
    {
        self.entries.len()
    }

    pub fn is_empty(&self) -> (r: bool)
        ensures
            r == (self.entries().len() == 0),
    {
        self.entries.len() == 0
    }

    /// The record at `position`.
    pub fn record(&self, position: usize) -> (r: &CustomerFeedback)
        requires
            position < self.entries().len(),
        ensures
            *r == self.entries()[position as int].0,
    {
        &self.entries[position].0
    }

    /// The embedding at `position`.
    pub fn embedding(&self, position: usize) -> (r: &E)
        requires
            position < self.entries().len(),
        ensures
            *r == self.entries()[position as int].1,
    {
        &self.entries[position].1
    }

    /// The `k` entries most similar to the query, best first, given the similarity of
    /// the query to each entry in insertion order. An empty index gives no hit.
    pub fn query(&self, scores: &Vec<i64>, k: usize) -> (r: Vec<Hit>)
        requires
            scores@.len() == self.entries().len(),
        ensures
            is_top_k(scores@, k as nat, hit_positions(r@)),
            forall|a: int| 0 <= a < r@.len() ==> (#[trigger] r@[a].position as int) < self.entries().len(),
            forall|a: int| 0 <= a < r@.len() ==> #[trigger] r@[a].score == scores@[r@[a].position as int],
    {
        let top = top_k(scores, k);
        let mut hits: Vec<Hit> = Vec::new();
        let mut i: usize = 0;
        while i < top.len()
            invariant
                i <= top.len(),
                is_top_k(scores@, k as nat, top@),
                hits@.len() == i,
                forall|a: int| 0 <= a < i ==> (#[trigger] hits@[a]).position == top@[a],
                forall|a: int| 0 <= a < i ==> #[trigger] hits@[a].score == scores@[hits@[a].position as int],
            decreases top.len() - i,
        {
            let position = top[i];
            hits.push(Hit { score: scores[position], position });
            i = i + 1;
        }
        assert(hit_positions(hits@) =~= top@);
        assert forall|a: int| 0 <= a < hits@.len() implies (#[trigger] hits@[a].position as int) < self.entries().len() by {
            assert(hits@[a].position == top@[a]);
        }
        hits
    }
}

} // verus!
