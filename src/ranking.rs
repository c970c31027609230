use vstd::prelude::*;

verus! {

broadcast use vstd::seq_lib::group_to_multiset_ensures;

/// A candidate label: its model output index and its confidence.
///
/// Confidences are fixed-point probabilities, in millionths
/// (`CONFIDENCE_SCALE` stands for 1.0).
pub type Candidate = (usize, u32);

/// Fixed-point value of probability 1.0.
pub const CONFIDENCE_SCALE: u32 = 1_000_000;

/// Position at which `x` enters `s`: after every leading entry whose
/// confidence is at least that of `x`.
pub open spec fn insert_pos(s: Seq<Candidate>, x: Candidate) -> int
    decreases s.len(),
{
    if s.len() == 0 {
        0
    } else if s[0].1 >= x.1 {
        1 + insert_pos(s.drop_first(), x)
    } else {
        0
    }
}

pub open spec fn insert_desc(s: Seq<Candidate>, x: Candidate) -> Seq<Candidate> {
    s.insert(insert_pos(s, x), x)
}

/// Stable sort by confidence, highest first: entries of equal confidence
/// keep their relative order.
pub open spec fn sort_desc(s: Seq<Candidate>) -> Seq<Candidate>
    decreases s.len(),
{
    if s.len() == 0 {
        s
    } else {
        insert_desc(sort_desc(s.drop_last()), s.last())
    }
}

pub open spec fn sorted_desc(s: Seq<Candidate>) -> bool {
    forall|i: int, j: int| 0 <= i < j < s.len() ==> s[i].1 >= s[j].1
}

pub open spec fn labels_of(s: Seq<Candidate>) -> Seq<usize> {
    s.map_values(|c: Candidate| c.0)
}

proof fn lemma_insert_pos_bounds(s: Seq<Candidate>, x: Candidate)
    ensures
        0 <= insert_pos(s, x) <= s.len(),
        forall|k: int| 0 <= k < insert_pos(s, x) ==> s[k].1 >= x.1,
        insert_pos(s, x) < s.len() ==> s[insert_pos(s, x)].1 < x.1,
    decreases s.len(),
{
    if s.len() > 0 && s[0].1 >= x.1 {
        lemma_insert_pos_bounds(s.drop_first(), x);
        assert forall|k: int| 0 <= k < insert_pos(s, x) implies s[k].1 >= x.1 by {
            if k > 0 {
                assert(s[k] == s.drop_first()[k - 1]);
            }
        }
    }
}

/// The scan that stops at the first entry below `x` finds `insert_pos`.
proof fn lemma_insert_pos_is(s: Seq<Candidate>, x: Candidate, j: int)
    requires
        0 <= j <= s.len(),
        forall|k: int| 0 <= k < j ==> s[k].1 >= x.1,
        j < s.len() ==> s[j].1 < x.1,
    ensures
        insert_pos(s, x) == j,
    decreases s.len(),
{
    if s.len() > 0 && j > 0 {
        let t = s.drop_first();
        assert forall|k: int| 0 <= k < j - 1 implies t[k].1 >= x.1 by {
            assert(t[k] == s[k + 1]);
        }
        if j - 1 < t.len() {
            assert(t[j - 1] == s[j]);
        }
        lemma_insert_pos_is(t, x, j - 1);
    }
}

proof fn lemma_insert_desc_sorted(s: Seq<Candidate>, x: Candidate)
    requires
        sorted_desc(s),
    ensures
        sorted_desc(insert_desc(s, x)),
{
    lemma_insert_pos_bounds(s, x);
    let p = insert_pos(s, x);
    let r = insert_desc(s, x);
    assert forall|i: int, j: int| 0 <= i < j < r.len() implies r[i].1 >= r[j].1 by {
        if j < p {
            assert(r[i] == s[i] && r[j] == s[j]);
        } else if j == p {
            assert(r[i] == s[i]);
        } else if i < p {
            assert(r[i] == s[i] && r[j] == s[j - 1]);
            assert(s[i].1 >= x.1);
            assert(s[p].1 < x.1);
        } else if i == p {
            assert(r[j] == s[j - 1]);
            assert(s[p].1 < x.1);
            if j - 1 > p {
                assert(s[p].1 >= s[j - 1].1);
            }
        } else {
            assert(r[i] == s[i - 1] && r[j] == s[j - 1]);
        }
    }
}

/// `sort_desc` yields a list ordered by confidence, highest first, that
/// holds exactly the entries it was given.
pub proof fn lemma_sort_desc(s: Seq<Candidate>)
    ensures
        sorted_desc(sort_desc(s)),
        sort_desc(s).to_multiset() =~= s.to_multiset(),
        sort_desc(s).len() == s.len(),
    decreases s.len(),
{
    if s.len() > 0 {
        let t = sort_desc(s.drop_last());
        lemma_sort_desc(s.drop_last());
        lemma_insert_desc_sorted(t, s.last());
        lemma_insert_pos_bounds(t, s.last());
        vstd::seq_lib::to_multiset_insert(t, insert_pos(t, s.last()), s.last());
        assert(s.drop_last().push(s.last()) =~= s);
        vstd::seq_lib::to_multiset_build(s.drop_last(), s.last());
    }
}

/// Sorts `v` by confidence, highest first; ties keep their order.
pub fn sort_by_confidence(v: &Vec<Candidate>) -> (r: Vec<Candidate>)
    ensures
        r@ == sort_desc(v@),
{
    let mut out: Vec<Candidate> = Vec::new();
    let n = v.len();
    let mut i: usize = 0;
    while i < n
        invariant
            n == v.len(),
            0 <= i <= n,
            out@ == sort_desc(v@.subrange(0, i as int)),
        decreases n - i,
    {
        let x = v[i];
        proof {
            lemma_sort_desc(v@.subrange(0, i as int));
        }
        let mut j: usize = 0;
        while j < out.len() && out[j].1 >= x.1
            invariant
                0 <= j <= out.len(),
                out.len() == i,
                forall|k: int| 0 <= k < j ==> out@[k].1 >= x.1,
            decreases out.len() - j,
        {
            j = j + 1;
        }
        proof {
            lemma_insert_pos_is(out@, x, j as int);
            let s = v@.subrange(0, i as int + 1);
            assert(s.drop_last() =~= v@.subrange(0, i as int));
            assert(s.last() == x);
        }
        out.insert(j, x);
        i = i + 1;
    }
    assert(v@.subrange(0, n as int) =~= v@);
    out
}

} // verus!
