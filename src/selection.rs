use crate::ranking::{
    lemma_sort_desc, sort_by_confidence, sort_desc, sorted_desc, labels_of, Candidate,
};
use vstd::prelude::*;

verus! {

/// Confidence drop between entries `i - 1` and `i`; zero outside `1..s.len()`.
pub open spec fn gap(s: Seq<Candidate>, i: int) -> int {
    if 1 <= i < s.len() {
        s[i - 1].1 - s[i].1
    } else {
        0
    }
}

/// First index `i` in `1..n` whose drop `gap(s, i)` is the largest and
/// positive; zero when no drop among the first `n` entries is positive.
pub open spec fn widest_gap(s: Seq<Candidate>, n: int) -> int
    decreases n,
{
    if n <= 1 {
        0
    } else {
        let b = widest_gap(s, n - 1);
        if gap(s, n - 1) > gap(s, b) {
            n - 1
        } else {
            b
        }
    }
}

/// How many of the sorted entries MCut keeps: those before the widest
/// drop, and at least the first one.
pub open spec fn mcut_keep(s: Seq<Candidate>) -> int {
    if s.len() == 0 {
        0
    } else if widest_gap(s, s.len() as int) == 0 {
        1
    } else {
        widest_gap(s, s.len() as int)
    }
}

/// Candidates that MCut keeps, highest confidence first.
pub open spec fn mcut_kept(p: Seq<Candidate>) -> Seq<Candidate> {
    sort_desc(p).take(mcut_keep(sort_desc(p)))
}

/// Candidates whose confidence is at least `t`, in their given order.
pub open spec fn at_least(p: Seq<Candidate>, t: u32) -> Seq<Candidate>
    decreases p.len(),
{
    if p.len() == 0 {
        p
    } else if p.last().1 >= t {
        at_least(p.drop_last(), t).push(p.last())
    } else {
        at_least(p.drop_last(), t)
    }
}

/// The candidates that one category keeps.
pub open spec fn selected(p: Seq<Candidate>, threshold: u32, use_mcut: bool, floor: Option<u32>) -> Seq<
    Candidate,
> {
    if use_mcut {
        match floor {
            Some(f) => at_least(mcut_kept(p), f),
            None => mcut_kept(p),
        }
    } else {
        at_least(p, threshold)
    }
}

/// `widest_gap` is the first index of the largest drop.
pub proof fn lemma_widest_gap(s: Seq<Candidate>, n: int)
    requires
        n <= s.len(),
    ensures
        0 <= widest_gap(s, n) < if n < 1 { 1 } else { n },
        gap(s, widest_gap(s, n)) >= 0,
        forall|j: int| 1 <= j < n ==> #[trigger] gap(s, j) <= gap(s, widest_gap(s, n)),
        forall|j: int| 1 <= j < widest_gap(s, n) ==> #[trigger] gap(s, j) < gap(s, widest_gap(s, n)),
        widest_gap(s, n) == 0 ==> forall|j: int| 1 <= j < n ==> #[trigger] gap(s, j) <= 0,
    decreases n,
{
    if n > 1 {
        lemma_widest_gap(s, n - 1);
    }
}

/// Every member of `at_least(p, t)` reaches `t`, and comes from `p`.
pub proof fn lemma_at_least(p: Seq<Candidate>, t: u32)
    ensures
        forall|k: int| 0 <= k < at_least(p, t).len() ==> at_least(p, t)[k].1 >= t,
        forall|k: int|
            0 <= k < at_least(p, t).len() ==> p.contains(#[trigger] at_least(p, t)[k]),
        at_least(p, t).len() <= p.len(),
        forall|k: int| 0 <= k < p.len() && p[k].1 >= t ==> at_least(p, t).contains(p[k]),
    decreases p.len(),
{
    if p.len() > 0 {
        let q = p.drop_last();
        lemma_at_least(q, t);
        let r = at_least(p, t);
        assert forall|k: int| 0 <= k < r.len() implies p.contains(#[trigger] r[k]) by {
            if k < at_least(q, t).len() {
                let w = choose|w: int| 0 <= w < q.len() && q[w] == at_least(q, t)[k];
                assert(p[w] == q[w]);
            } else {
                assert(p[p.len() - 1] == r[k]);
            }
        }
        assert forall|k: int| 0 <= k < p.len() && p[k].1 >= t implies r.contains(p[k]) by {
            if k < q.len() {
                assert(q[k] == p[k]);
                let w = choose|w: int| 0 <= w < at_least(q, t).len() && at_least(q, t)[w] == q[k];
                assert(r[w] == at_least(q, t)[w]);
            } else {
                assert(r[r.len() - 1] == p[k]);
            }
        }
    }
}

/// Keeps the candidates whose confidence is at least `threshold`, in order.
pub fn filter_at_least(p: &Vec<Candidate>, threshold: u32) -> (r: Vec<Candidate>)
    ensures
        r@ == at_least(p@, threshold),
{
    let mut out: Vec<Candidate> = Vec::new();
    let mut i: usize = 0;
    while i < p.len()
        invariant
            0 <= i <= p.len(),
            out@ == at_least(p@.subrange(0, i as int), threshold),
        decreases p.len() - i,
    {
        let c = p[i];
        proof {
            let s = p@.subrange(0, i as int + 1);
            assert(s.drop_last() =~= p@.subrange(0, i as int));
            assert(s.last() == c);
        }
        if c.1 >= threshold {
            out.push(c);
        }
        i = i + 1;
    }
    assert(p@.subrange(0, p.len() as int) =~= p@);
    out
}

/// MCut: sorts the candidates by confidence, highest first, and keeps those
/// before the widest confidence drop (at least one of a non-empty list).
pub fn mcut_select(p: &Vec<Candidate>) -> (r: Vec<Candidate>)
    ensures
        r@ == mcut_kept(p@),
{
    let sorted = sort_by_confidence(p);
    proof {
        lemma_sort_desc(p@);
    }
    let n = sorted.len();
    if n == 0 {
        return Vec::new();
    }
    let mut best: usize = 0;
    let mut best_diff: u32 = 0;
    let mut i: usize = 1;
    while i < n
        invariant
            n == sorted.len(),
            sorted@ == sort_desc(p@),
            sorted_desc(sorted@),
            1 <= i <= n,
            best as int == widest_gap(sorted@, i as int),
            best_diff as int == gap(sorted@, best as int),
        decreases n - i,
    {
        proof {
            lemma_widest_gap(sorted@, i as int);
        }
        let diff = sorted[i - 1].1 - sorted[i].1;
        if diff > best_diff {
            best_diff = diff;
            best = i;
        }
        i = i + 1;
    }
    let keep: usize = if best == 0 { 1 } else { best };
    proof {
        lemma_widest_gap(sorted@, n as int);
    }
    let mut out: Vec<Candidate> = Vec::new();
    let mut k: usize = 0;
    while k < keep
        invariant
            keep <= n,
            n == sorted.len(),
            0 <= k <= keep,
            out@ == sorted@.take(k as int),
        decreases keep - k,
    {
        out.push(sorted[k]);
        assert(sorted@.take(k as int + 1) =~= sorted@.take(k as int).push(sorted@[k as int]));
        k = k + 1;
    }
    out
}

/// Label indices that MCut keeps, highest confidence first.
pub fn apply_mcut_threshold(probabilities: Vec<Candidate>) -> (r: Vec<usize>)
    ensures
        r@ == labels_of(mcut_kept(probabilities@)),
{
    let kept = mcut_select(&probabilities);
    label_indices(&kept)
}

/// The label index of each candidate, in order.
pub fn label_indices(p: &Vec<Candidate>) -> (r: Vec<usize>)
    ensures
        r@ == labels_of(p@),
{
    let mut out: Vec<usize> = Vec::new();
    let mut i: usize = 0;
    while i < p.len()
        invariant
            0 <= i <= p.len(),
            out@ =~= labels_of(p@.take(i as int)),
        decreases p.len() - i,
    {
        out.push(p[i].0);
        i = i + 1;
    }
    assert(p@.take(p.len() as int) =~= p@);
    out
}

/// The candidates one category keeps: a fixed threshold, or MCut with an
/// optional floor.
pub fn select_candidates(
    probabilities: &Vec<Candidate>,
    threshold: u32,
    use_mcut: bool,
    min_threshold: Option<u32>,
) -> (r: Vec<Candidate>)
    ensures
        r@ == selected(probabilities@, threshold, use_mcut, min_threshold),
{
    if use_mcut {
        let kept = mcut_select(probabilities);
        match min_threshold {
            Some(f) => filter_at_least(&kept, f),
            None => kept,
        }
    } else {
        filter_at_least(probabilities, threshold)
    }
}

/// Label indices that one category keeps: a fixed threshold (inclusive), or
/// MCut with an optional floor.
pub fn apply_threshold_filter(
    probabilities: &Vec<Candidate>,
    threshold: u32,
    use_mcut: bool,
    min_threshold: Option<u32>,
) -> (r: Vec<usize>)
    ensures
        r@ == labels_of(selected(probabilities@, threshold, use_mcut, min_threshold)),
{
    let kept = select_candidates(probabilities, threshold, use_mcut, min_threshold);
    label_indices(&kept)
}

} // verus!
