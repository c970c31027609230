use crate::labels::{Category, LabelCatalog, LabelEntry};
use crate::ranking::{lemma_sort_desc, sort_by_confidence, sort_desc, sorted_desc, Candidate};
use crate::selection::{at_least, lemma_at_least, lemma_widest_gap, mcut_kept, select_candidates, selected};
use vstd::prelude::*;

verus! {

broadcast use vstd::seq_lib::group_to_multiset_ensures;

/// A tag chosen for an image, with its confidence in millionths.
#[derive(Debug)]
pub struct TagPrediction {
    pub name: String,
    pub confidence: u32,
}

/// Per-call postprocessing configuration. Thresholds are confidences in
/// millionths.
#[derive(Clone, Copy, Debug)]
pub struct InferenceParams {
    pub general_threshold: u32,
    pub character_threshold: u32,
    pub general_mcut_enabled: bool,
    pub character_mcut_enabled: bool,
    pub max_tags: u32,
}

/// Lowest confidence a character tag needs when MCut selects characters.
pub const CHARACTER_MCUT_FLOOR: u32 = 150_000;

impl Default for InferenceParams {
    /// General threshold 0.35, character threshold 0.85, MCut off, 50 tags.
    fn default() -> (p: InferenceParams)
        ensures
            p.general_threshold == 350_000,
            p.character_threshold == 850_000,
            !p.general_mcut_enabled,
            !p.character_mcut_enabled,
            p.max_tags == 50,
    {
        InferenceParams {
            general_threshold: 350_000,
            character_threshold: 850_000,
            general_mcut_enabled: false,
            character_mcut_enabled: false,
            max_tags: 50,
        }
    }
}

/// Candidates of category `cat`, in output-index order: each index below
/// `probs.len()` that the catalog labels with `cat`, with its confidence.
pub open spec fn category_candidates(
    probs: Seq<u32>,
    labels: Map<usize, LabelEntry>,
    cat: Category,
) -> Seq<Candidate>
    decreases probs.len(),
{
    if probs.len() == 0 {
        Seq::empty()
    } else {
        let rest = category_candidates(probs.drop_last(), labels, cat);
        let i = (probs.len() - 1) as usize;
        if labels.contains_key(i) && labels[i].category == cat {
            rest.push((i, probs.last()))
        } else {
            rest
        }
    }
}

/// Every index that the catalog labels, in output-index order.
pub open spec fn labelled_candidates(probs: Seq<u32>, labels: Map<usize, LabelEntry>) -> Seq<
    Candidate,
>
    decreases probs.len(),
{
    if probs.len() == 0 {
        Seq::empty()
    } else {
        let rest = labelled_candidates(probs.drop_last(), labels);
        let i = (probs.len() - 1) as usize;
        if labels.contains_key(i) {
            rest.push((i, probs.last()))
        } else {
            rest
        }
    }
}

/// The rating category's choice: the first of the most confident ratings,
/// or nothing when there is no rating candidate.
pub open spec fn rating_pick(r: Seq<Candidate>) -> Seq<Candidate> {
    if r.len() == 0 {
        Seq::empty()
    } else {
        seq![sort_desc(r)[0]]
    }
}

/// Rating winner, then the general tags kept, then the character tags kept.
pub open spec fn assembled(
    probs: Seq<u32>,
    labels: Map<usize, LabelEntry>,
    params: InferenceParams,
) -> Seq<Candidate> {
    rating_pick(category_candidates(probs, labels, Category::Rating)) + selected(
        category_candidates(probs, labels, Category::General),
        params.general_threshold,
        params.general_mcut_enabled,
        None,
    ) + selected(
        category_candidates(probs, labels, Category::Character),
        params.character_threshold,
        params.character_mcut_enabled,
        Some(CHARACTER_MCUT_FLOOR),
    )
}

/// The tag name the catalog gives a candidate.
pub open spec fn name_of(c: Candidate, labels: Map<usize, LabelEntry>) -> Seq<char> {
    labels[c.0].name@
}

/// Some candidate of `s` carries the tag name `n`.
pub open spec fn has_name(s: Seq<Candidate>, labels: Map<usize, LabelEntry>, n: Seq<char>) -> bool
    decreases s.len(),
{
    s.len() > 0 && (name_of(s.last(), labels) == n || has_name(s.drop_last(), labels, n))
}

/// `s` with every candidate dropped whose tag name an earlier one carries.
pub open spec fn dedup_names(s: Seq<Candidate>, labels: Map<usize, LabelEntry>) -> Seq<Candidate>
    decreases s.len(),
{
    if s.len() == 0 {
        s
    } else {
        let d = dedup_names(s.drop_last(), labels);
        if has_name(d, labels, name_of(s.last(), labels)) {
            d
        } else {
            d.push(s.last())
        }
    }
}

/// No two candidates of `s` carry the same tag name.
pub open spec fn distinct_names(s: Seq<Candidate>, labels: Map<usize, LabelEntry>) -> bool {
    forall|i: int, j: int|
        0 <= i < j < s.len() ==> name_of(#[trigger] s[i], labels) != name_of(#[trigger] s[j], labels)
}

/// The final list: the assembled tags by confidence, highest first (ties
/// in assembly order), one per tag name (the first), cut to `max_tags`.
pub open spec fn ranked(
    probs: Seq<u32>,
    labels: Map<usize, LabelEntry>,
    params: InferenceParams,
) -> Seq<Candidate> {
    let s = dedup_names(sort_desc(assembled(probs, labels, params)), labels);
    if s.len() <= params.max_tags {
        s
    } else {
        s.take(params.max_tags as int)
    }
}

/// Every candidate names an index that the catalog labels.
pub open spec fn in_catalog(s: Seq<Candidate>, labels: Map<usize, LabelEntry>) -> bool {
    forall|k: int| 0 <= k < s.len() ==> labels.contains_key(#[trigger] s[k].0)
}

proof fn lemma_members_in_catalog(s: Seq<Candidate>, t: Seq<Candidate>, labels: Map<usize, LabelEntry>)
    requires
        in_catalog(t, labels),
        forall|k: int| 0 <= k < s.len() ==> t.contains(#[trigger] s[k]),
    ensures
        in_catalog(s, labels),
{
    assert forall|k: int| 0 <= k < s.len() implies labels.contains_key(#[trigger] s[k].0) by {
        let w = choose|w: int| 0 <= w < t.len() && t[w] == s[k];
        assert(labels.contains_key(t[w].0));
    }
}

proof fn lemma_sort_desc_in_catalog(s: Seq<Candidate>, labels: Map<usize, LabelEntry>)
    requires
        in_catalog(s, labels),
    ensures
        in_catalog(sort_desc(s), labels),
{
    lemma_sort_desc(s);
    let r = sort_desc(s);
    assert forall|k: int| 0 <= k < r.len() implies s.contains(#[trigger] r[k]) by {
        assert(r.contains(r[k]));
        assert(r.to_multiset().count(r[k]) > 0);
        assert(s.to_multiset().count(r[k]) > 0);
    }
    lemma_members_in_catalog(r, s, labels);
}

proof fn lemma_category_candidates(probs: Seq<u32>, labels: Map<usize, LabelEntry>, cat: Category)
    requires
        probs.len() <= usize::MAX,
    ensures
        in_catalog(category_candidates(probs, labels, cat), labels),
        forall|k: int|
            0 <= k < category_candidates(probs, labels, cat).len() ==> {
                let c = #[trigger] category_candidates(probs, labels, cat)[k];
                &&& c.0 < probs.len()
                &&& c.1 == probs[c.0 as int]
                &&& labels[c.0].category == cat
            },
    decreases probs.len(),
{
    if probs.len() > 0 {
        lemma_category_candidates(probs.drop_last(), labels, cat);
    }
}

proof fn lemma_labelled_candidates(probs: Seq<u32>, labels: Map<usize, LabelEntry>)
    requires
        probs.len() <= usize::MAX,
    ensures
        in_catalog(labelled_candidates(probs, labels), labels),
    decreases probs.len(),
{
    if probs.len() > 0 {
        lemma_labelled_candidates(probs.drop_last(), labels);
    }
}

proof fn lemma_selected_in_catalog(
    p: Seq<Candidate>,
    labels: Map<usize, LabelEntry>,
    threshold: u32,
    use_mcut: bool,
    floor: Option<u32>,
)
    requires
        in_catalog(p, labels),
    ensures
        in_catalog(selected(p, threshold, use_mcut, floor), labels),
{
    if use_mcut {
        lemma_sort_desc_in_catalog(p, labels);
        let m = mcut_kept(p);
        let sp = sort_desc(p);
        lemma_sort_desc(p);
        lemma_widest_gap(sp, sp.len() as int);
        assert forall|k: int| 0 <= k < m.len() implies labels.contains_key(#[trigger] m[k].0) by {
            assert(m[k] == sp[k]);
        }
        match floor {
            Some(f) => {
                lemma_at_least(m, f);
                lemma_members_in_catalog(at_least(m, f), m, labels);
            },
            None => {},
        }
    } else {
        lemma_at_least(p, threshold);
        lemma_members_in_catalog(at_least(p, threshold), p, labels);
    }
}

/// `has_name` holds exactly when some candidate carries the name.
pub proof fn lemma_has_name(s: Seq<Candidate>, labels: Map<usize, LabelEntry>, n: Seq<char>)
    ensures
        has_name(s, labels, n) <==> exists|k: int| 0 <= k < s.len() && name_of(#[trigger] s[k], labels) == n,
    decreases s.len(),
{
    if s.len() > 0 {
        let t = s.drop_last();
        lemma_has_name(t, labels, n);
        if has_name(t, labels, n) {
            let k = choose|k: int| 0 <= k < t.len() && name_of(#[trigger] t[k], labels) == n;
            assert(s[k] == t[k]);
        }
        if exists|k: int| 0 <= k < s.len() && name_of(#[trigger] s[k], labels) == n {
            let k = choose|k: int| 0 <= k < s.len() && name_of(#[trigger] s[k], labels) == n;
            if k < t.len() {
                assert(t[k] == s[k]);
            }
        }
    }
}

/// Dropping repeated names keeps a sub-list of `s` with distinct names, keeps
/// every name, and keeps the order by confidence.
pub proof fn lemma_dedup_names(s: Seq<Candidate>, labels: Map<usize, LabelEntry>)
    ensures
        dedup_names(s, labels).len() <= s.len(),
        forall|k: int|
            0 <= k < dedup_names(s, labels).len() ==> s.contains(#[trigger] dedup_names(s, labels)[k]),
        distinct_names(dedup_names(s, labels), labels),
        forall|n: Seq<char>| has_name(dedup_names(s, labels), labels, n) <==> has_name(s, labels, n),
        sorted_desc(s) ==> sorted_desc(dedup_names(s, labels)),
    decreases s.len(),
{
    if s.len() > 0 {
        let t = s.drop_last();
        let x = s.last();
        let d = dedup_names(t, labels);
        let r = dedup_names(s, labels);
        lemma_dedup_names(t, labels);
        assert forall|k: int| 0 <= k < r.len() implies s.contains(#[trigger] r[k]) by {
            if k < d.len() {
                let w = choose|w: int| 0 <= w < t.len() && t[w] == d[k];
                assert(s[w] == t[w]);
                assert(r[k] == d[k]);
            } else {
                assert(s[s.len() - 1] == r[k]);
            }
        }
        lemma_has_name(d, labels, name_of(x, labels));
        assert forall|i: int, j: int| 0 <= i < j < r.len() implies name_of(#[trigger] r[i], labels)
            != name_of(#[trigger] r[j], labels) by {
            if j < d.len() {
                assert(r[i] == d[i] && r[j] == d[j]);
            } else {
                assert(r[i] == d[i]);
                assert(r[j] == x);
            }
        }
        assert forall|n: Seq<char>| has_name(r, labels, n) <==> has_name(s, labels, n) by {
            assert(s.last() == x && s.drop_last() == t);
            assert(has_name(s, labels, n) == (name_of(x, labels) == n || has_name(t, labels, n)));
            assert(has_name(d, labels, n) == has_name(t, labels, n));
            if !has_name(d, labels, name_of(x, labels)) {
                assert(r.drop_last() =~= d);
                assert(r.last() == x);
                assert(has_name(r, labels, n) == (name_of(x, labels) == n || has_name(d, labels, n)));
            } else {
                assert(r == d);
            }
        }
        if sorted_desc(s) {
            assert(sorted_desc(t));
            assert forall|i: int, j: int| 0 <= i < j < r.len() implies r[i].1 >= r[j].1 by {
                if j < d.len() {
                    assert(r[i] == d[i] && r[j] == d[j]);
                } else {
                    assert(r[i] == d[i]);
                    let w = choose|w: int| 0 <= w < t.len() && t[w] == d[i];
                    assert(s[w] == t[w]);
                    assert(s[w].1 >= s[s.len() - 1].1);
                }
            }
        }
    }
}

/// Every entry of the sorted assembled list is labelled by the catalog.
proof fn lemma_sorted_assembled_in_catalog(
    probs: Seq<u32>,
    labels: Map<usize, LabelEntry>,
    params: InferenceParams,
)
    requires
        probs.len() <= usize::MAX,
    ensures
        in_catalog(sort_desc(assembled(probs, labels, params)), labels),
{
    let r = category_candidates(probs, labels, Category::Rating);
    let g = category_candidates(probs, labels, Category::General);
    let c = category_candidates(probs, labels, Category::Character);
    lemma_category_candidates(probs, labels, Category::Rating);
    lemma_category_candidates(probs, labels, Category::General);
    lemma_category_candidates(probs, labels, Category::Character);
    lemma_sort_desc_in_catalog(r, labels);
    lemma_sort_desc(r);
    lemma_selected_in_catalog(g, labels, params.general_threshold, params.general_mcut_enabled, None);
    lemma_selected_in_catalog(
        c,
        labels,
        params.character_threshold,
        params.character_mcut_enabled,
        Some(CHARACTER_MCUT_FLOOR),
    );
    let a = assembled(probs, labels, params);
    assert(in_catalog(a, labels));
    lemma_sort_desc_in_catalog(a, labels);
}

/// Every entry of the final list is labelled by the catalog.
proof fn lemma_ranked_in_catalog(
    probs: Seq<u32>,
    labels: Map<usize, LabelEntry>,
    params: InferenceParams,
)
    requires
        probs.len() <= usize::MAX,
    ensures
        in_catalog(ranked(probs, labels, params), labels),
{
    let s = sort_desc(assembled(probs, labels, params));
    lemma_sorted_assembled_in_catalog(probs, labels, params);
    lemma_dedup_names(s, labels);
    let d = dedup_names(s, labels);
    lemma_members_in_catalog(d, s, labels);
    let r = ranked(probs, labels, params);
    assert forall|k: int| 0 <= k < r.len() implies labels.contains_key(#[trigger] r[k].0) by {
        assert(r[k] == d[k]);
    }
}

/// The final tag list never holds more than `max_tags` entries, runs by
/// confidence, highest first, and names each tag once.
pub proof fn lemma_ranked_capped_and_sorted(
    probs: Seq<u32>,
    labels: Map<usize, LabelEntry>,
    params: InferenceParams,
)
    ensures
        ranked(probs, labels, params).len() <= params.max_tags,
        sorted_desc(ranked(probs, labels, params)),
        distinct_names(ranked(probs, labels, params), labels),
{
    let s = sort_desc(assembled(probs, labels, params));
    lemma_sort_desc(assembled(probs, labels, params));
    lemma_dedup_names(s, labels);
    let d = dedup_names(s, labels);
    let r = ranked(probs, labels, params);
    assert forall|i: int, j: int| 0 <= i < j < r.len() implies name_of(#[trigger] r[i], labels)
        != name_of(#[trigger] r[j], labels) && r[i].1 >= r[j].1 by {
        assert(r[i] == d[i] && r[j] == d[j]);
    }
}

proof fn lemma_sort_desc_members(s: Seq<Candidate>)
    ensures
        forall|k: int| 0 <= k < sort_desc(s).len() ==> s.contains(#[trigger] sort_desc(s)[k]),
        forall|x: Candidate| s.contains(x) ==> sort_desc(s).contains(x),
{
    lemma_sort_desc(s);
    let r = sort_desc(s);
    assert forall|k: int| 0 <= k < r.len() implies s.contains(#[trigger] r[k]) by {
        assert(r.contains(r[k]));
        assert(r.to_multiset().count(r[k]) > 0);
        assert(s.to_multiset().count(r[k]) > 0);
    }
    assert forall|x: Candidate| s.contains(x) implies r.contains(x) by {
        assert(s.to_multiset().count(x) > 0);
        assert(r.to_multiset().count(x) > 0);
    }
}

proof fn lemma_selected_members(p: Seq<Candidate>, threshold: u32, use_mcut: bool, floor: Option<u32>)
    ensures
        forall|k: int|
            0 <= k < selected(p, threshold, use_mcut, floor).len() ==> p.contains(
                #[trigger] selected(p, threshold, use_mcut, floor)[k],
            ),
{
    let r = selected(p, threshold, use_mcut, floor);
    if use_mcut {
        let sp = sort_desc(p);
        let m = mcut_kept(p);
        lemma_sort_desc_members(p);
        lemma_sort_desc(p);
        lemma_widest_gap(sp, sp.len() as int);
        assert forall|k: int| 0 <= k < m.len() implies p.contains(#[trigger] m[k]) by {
            assert(m[k] == sp[k]);
        }
        match floor {
            Some(f) => {
                lemma_at_least(m, f);
                assert forall|k: int| 0 <= k < r.len() implies p.contains(#[trigger] r[k]) by {
                    let w = choose|w: int| 0 <= w < m.len() && m[w] == r[k];
                    assert(p.contains(m[w]));
                }
            },
            None => {},
        }
    } else {
        lemma_at_least(p, threshold);
    }
}

/// Every entry of the final list comes from the assembled list.
proof fn lemma_ranked_members(probs: Seq<u32>, labels: Map<usize, LabelEntry>, params: InferenceParams)
    ensures
        forall|k: int|
            0 <= k < ranked(probs, labels, params).len() ==> assembled(probs, labels, params).contains(
                #[trigger] ranked(probs, labels, params)[k],
            ),
{
    let a = assembled(probs, labels, params);
    let s = sort_desc(a);
    let d = dedup_names(s, labels);
    let r = ranked(probs, labels, params);
    lemma_sort_desc_members(a);
    lemma_dedup_names(s, labels);
    assert forall|k: int| 0 <= k < r.len() implies a.contains(#[trigger] r[k]) by {
        assert(r[k] == d[k]);
        let w = choose|w: int| 0 <= w < s.len() && s[w] == d[k];
        assert(a.contains(s[w]));
    }
}

/// In the final list, the only entry of the rating category is the rating
/// winner: with no rating candidate there is none, and no other rating label
/// ever appears.
pub proof fn lemma_ranked_rating_entries(
    probs: Seq<u32>,
    labels: Map<usize, LabelEntry>,
    params: InferenceParams,
)
    requires
        probs.len() <= usize::MAX,
    ensures
        forall|k: int|
            0 <= k < ranked(probs, labels, params).len() && labels[(#[trigger] ranked(
                probs,
                labels,
                params,
            )[k]).0].category == Category::Rating ==> {
                let r = category_candidates(probs, labels, Category::Rating);
                &&& r.len() > 0
                &&& ranked(probs, labels, params)[k] == rating_pick(r)[0]
            },
{
    let r = category_candidates(probs, labels, Category::Rating);
    let g = category_candidates(probs, labels, Category::General);
    let c = category_candidates(probs, labels, Category::Character);
    let rp = rating_pick(r);
    let gs = selected(g, params.general_threshold, params.general_mcut_enabled, None);
    let cs = selected(
        c,
        params.character_threshold,
        params.character_mcut_enabled,
        Some(CHARACTER_MCUT_FLOOR),
    );
    let a = assembled(probs, labels, params);
    let rk = ranked(probs, labels, params);
    lemma_category_candidates(probs, labels, Category::General);
    lemma_category_candidates(probs, labels, Category::Character);
    lemma_selected_members(g, params.general_threshold, params.general_mcut_enabled, None);
    lemma_selected_members(
        c,
        params.character_threshold,
        params.character_mcut_enabled,
        Some(CHARACTER_MCUT_FLOOR),
    );
    lemma_ranked_members(probs, labels, params);
    assert(a == rp + gs + cs);
    assert forall|k: int|
        0 <= k < rk.len() && labels[(#[trigger] rk[k]).0].category == Category::Rating implies r.len()
        > 0 && rk[k] == rp[0] by {
        let x = rk[k];
        let w = choose|w: int| 0 <= w < a.len() && a[w] == x;
        if w < rp.len() {
            assert(a[w] == rp[w]);
        } else if w < rp.len() + gs.len() {
            assert(a[w] == gs[w - rp.len()]);
            let u = choose|u: int| 0 <= u < g.len() && g[u] == gs[w - rp.len()];
            assert(labels[g[u].0].category == Category::General);
        } else {
            assert(a[w] == cs[w - rp.len() - gs.len()]);
            let u = choose|u: int| 0 <= u < c.len() && c[u] == cs[w - rp.len() - gs.len()];
            assert(labels[c[u].0].category == Category::Character);
        }
    }
}

/// When nothing is cut by `max_tags`, the final list carries the rating
/// winner's tag name (on the winner itself, or on an entry of that name that
/// ranks before it).
pub proof fn lemma_rating_name_kept(probs: Seq<u32>, labels: Map<usize, LabelEntry>, params: InferenceParams)
    requires
        category_candidates(probs, labels, Category::Rating).len() > 0,
        assembled(probs, labels, params).len() <= params.max_tags,
    ensures
        has_name(
            ranked(probs, labels, params),
            labels,
            name_of(rating_pick(category_candidates(probs, labels, Category::Rating))[0], labels),
        ),
{
    let r = category_candidates(probs, labels, Category::Rating);
    let w = rating_pick(r)[0];
    let a = assembled(probs, labels, params);
    let s = sort_desc(a);
    let n = name_of(w, labels);
    assert(a[0] == w);
    assert(a.contains(w));
    lemma_sort_desc_members(a);
    lemma_sort_desc(a);
    lemma_dedup_names(s, labels);
    let ix = choose|ix: int| 0 <= ix < s.len() && s[ix] == w;
    lemma_has_name(s, labels, n);
    assert(name_of(s[ix], labels) == n);
    assert(has_name(dedup_names(s, labels), labels, n));
}

/// The rating category yields exactly one tag when it has a candidate, none
/// otherwise; the one it yields has the highest rating confidence.
pub proof fn lemma_rating_pick(r: Seq<Candidate>)
    ensures
        r.len() > 0 ==> rating_pick(r).len() == 1,
        r.len() == 0 ==> rating_pick(r).len() == 0,
        r.len() > 0 ==> r.contains(rating_pick(r)[0]),
        r.len() > 0 ==> forall|k: int| 0 <= k < r.len() ==> r[k].1 <= rating_pick(r)[0].1,
{
    if r.len() > 0 {
        lemma_sort_desc(r);
        let s = sort_desc(r);
        assert(s.contains(s[0]));
        assert(s.to_multiset().count(s[0]) > 0);
        assert forall|k: int| 0 <= k < r.len() implies r[k].1 <= s[0].1 by {
            assert(r.contains(r[k]));
            assert(r.to_multiset().count(r[k]) > 0);
            assert(s.to_multiset().count(r[k]) > 0);
            let w = choose|w: int| 0 <= w < s.len() && s[w] == r[k];
            if w > 0 {
                assert(s[0].1 >= s[w].1);
            }
        }
    }
}

/// Splits the labelled outputs into rating, general and character
/// candidates, each in output-index order.
pub fn split_by_category(probabilities: &Vec<u32>, catalog: &LabelCatalog) -> (r: (
    Vec<Candidate>,
    Vec<Candidate>,
    Vec<Candidate>,
))
    ensures
        r.0@ == category_candidates(probabilities@, catalog@, Category::Rating),
        r.1@ == category_candidates(probabilities@, catalog@, Category::General),
        r.2@ == category_candidates(probabilities@, catalog@, Category::Character),
{
    let mut rating: Vec<Candidate> = Vec::new();
    let mut general: Vec<Candidate> = Vec::new();
    let mut character: Vec<Candidate> = Vec::new();
    let mut i: usize = 0;
    while i < probabilities.len()
        invariant
            0 <= i <= probabilities.len(),
            rating@ == category_candidates(
                probabilities@.subrange(0, i as int),
                catalog@,
                Category::Rating,
            ),
            general@ == category_candidates(
                probabilities@.subrange(0, i as int),
                catalog@,
                Category::General,
            ),
            character@ == category_candidates(
                probabilities@.subrange(0, i as int),
                catalog@,
                Category::Character,
            ),
        decreases probabilities.len() - i,
    {
        let p = probabilities[i];
        proof {
            let s = probabilities@.subrange(0, i as int + 1);
            assert(s.drop_last() =~= probabilities@.subrange(0, i as int));
            assert(s.last() == p);
        }
        match catalog.get(i) {
            Some(entry) => {
                match entry.category {
                    Category::Rating => rating.push((i, p)),
                    Category::General => general.push((i, p)),
                    Category::Character => character.push((i, p)),
                    Category::Other => {},
                }
            },
            None => {},
        }
        i = i + 1;
    }
    assert(probabilities@.subrange(0, probabilities.len() as int) =~= probabilities@);
    (rating, general, character)
}

/// The rating winner: the first of the most confident rating candidates, or
/// nothing when there is none.
pub fn select_rating(rating: &Vec<Candidate>) -> (r: Vec<Candidate>)
    ensures
        r@ == rating_pick(rating@),
{
    let mut out: Vec<Candidate> = Vec::new();
    if rating.len() > 0 {
        let sorted = sort_by_confidence(rating);
        proof {
            lemma_sort_desc(rating@);
        }
        out.push(sorted[0]);
        assert(out@ =~= seq![sort_desc(rating@)[0]]);
    }
    out
}

fn append_all(dst: &mut Vec<Candidate>, src: &Vec<Candidate>)
    ensures
        final(dst)@ == old(dst)@ + src@,
{
    let ghost start = dst@;
    let mut i: usize = 0;
    while i < src.len()
        invariant
            0 <= i <= src.len(),
            dst@ =~= start + src@.take(i as int),
        decreases src.len() - i,
    {
        dst.push(src[i]);
        assert(src@.take(i as int + 1) =~= src@.take(i as int).push(src@[i as int]));
        i = i + 1;
    }
    assert(src@.take(src.len() as int) =~= src@);
}

/// Keeps the first candidate of each tag name, in order.
pub fn dedup_by_name(s: &Vec<Candidate>, catalog: &LabelCatalog) -> (r: Vec<Candidate>)
    requires
        in_catalog(s@, catalog@),
    ensures
        r@ == dedup_names(s@, catalog@),
{
    let mut kept: Vec<Candidate> = Vec::new();
    let mut names: Vec<String> = Vec::new();
    let mut i: usize = 0;
    while i < s.len()
        invariant
            0 <= i <= s.len(),
            in_catalog(s@, catalog@),
            kept@ == dedup_names(s@.take(i as int), catalog@),
            names.len() == kept.len(),
            forall|k: int| 0 <= k < names.len() ==> #[trigger] names[k]@ == name_of(kept@[k], catalog@),
        decreases s.len() - i,
    {
        let c = s[i];
        proof {
            assert(s@.take(i as int + 1).drop_last() =~= s@.take(i as int));
            assert(s@.take(i as int + 1).last() == c);
            assert(catalog@.contains_key(s@[i as int].0));
        }
        match catalog.get(c.0) {
            Some(entry) => {
                let name = entry.name.clone();
                let mut found = false;
                let mut k: usize = 0;
                while k < names.len()
                    invariant
                        0 <= k <= names.len(),
                        names.len() == kept.len(),
                        name@ == name_of(c, catalog@),
                        forall|q: int| 0 <= q < names.len() ==> #[trigger] names[q]@ == name_of(kept@[q], catalog@),
                        found <==> exists|q: int| 0 <= q < k && name_of(#[trigger] kept@[q], catalog@) == name@,
                    decreases names.len() - k,
                {
                    if names[k] == name {
                        found = true;
                    }
                    proof {
                        if names[k as int]@ == name@ {
                            assert(name_of(kept@[k as int], catalog@) == name@);
                        }
                        if exists|q: int| 0 <= q < k + 1 && name_of(#[trigger] kept@[q], catalog@) == name@ {
                            let q = choose|q: int| 0 <= q < k + 1 && name_of(#[trigger] kept@[q], catalog@) == name@;
                            if q == k {
                                assert(names[k as int]@ == name@);
                            }
                        }
                    }
                    k = k + 1;
                }
                proof {
                    lemma_has_name(kept@, catalog@, name@);
                }
                if !found {
                    kept.push(c);
                    names.push(name);
                }
            },
            None => {},
        }
        i = i + 1;
    }
    assert(s@.take(s.len() as int) =~= s@);
    kept
}

/// The final list as candidates: rating winner, general and character tags
/// kept, by confidence, one per tag name, cut to `max_tags`.
pub fn rank_candidates(probabilities: &Vec<u32>, catalog: &LabelCatalog, params: &InferenceParams) -> (r:
    Vec<Candidate>)
    ensures
        r@ == ranked(probabilities@, catalog@, *params),
{
    let (rating, general, character) = split_by_category(probabilities, catalog);
    let mut all = select_rating(&rating);
    let g = select_candidates(
        &general,
        params.general_threshold,
        params.general_mcut_enabled,
        None,
    );
    let c = select_candidates(
        &character,
        params.character_threshold,
        params.character_mcut_enabled,
        Some(CHARACTER_MCUT_FLOOR),
    );
    append_all(&mut all, &g);
    append_all(&mut all, &c);
    let ordered = sort_by_confidence(&all);
    let _n = probabilities.len();
    proof {
        lemma_sort_desc(all@);
        lemma_sorted_assembled_in_catalog(probabilities@, catalog@, *params);
    }
    let sorted = dedup_by_name(&ordered, catalog);
    let cap = params.max_tags as usize;
    if sorted.len() <= cap {
        sorted
    } else {
        let mut out: Vec<Candidate> = Vec::new();
        let mut k: usize = 0;
        while k < cap
            invariant
                cap < sorted.len(),
                0 <= k <= cap,
                out@ == sorted@.take(k as int),
            decreases cap - k,
        {
            out.push(sorted[k]);
            assert(sorted@.take(k as int + 1) =~= sorted@.take(k as int).push(sorted@[k as int]));
            k = k + 1;
        }
        out
    }
}

/// Names each candidate by the catalog.
pub fn to_predictions(c: &Vec<Candidate>, catalog: &LabelCatalog) -> (r: Vec<TagPrediction>)
    requires
        in_catalog(c@, catalog@),
    ensures
        r.len() == c.len(),
        forall|k: int|
            0 <= k < r.len() ==> {
                &&& r[k].confidence == c@[k].1
                &&& r[k].name@ == catalog@[c@[k].0].name@
            },
{
    let mut out: Vec<TagPrediction> = Vec::new();
    let mut i: usize = 0;
    while i < c.len()
        invariant
            0 <= i <= c.len(),
            in_catalog(c@, catalog@),
            out.len() == i,
            forall|k: int|
                0 <= k < i ==> {
                    &&& out[k].confidence == c@[k].1
                    &&& out[k].name@ == catalog@[c@[k].0].name@
                },
        decreases c.len() - i,
    {
        let (index, confidence) = c[i];
        assert(catalog@.contains_key(c@[i as int].0));
        match catalog.get(index) {
            Some(entry) => {
                out.push(TagPrediction { name: entry.name.clone(), confidence });
            },
            None => {},
        }
        i = i + 1;
    }
    out
}

/// Turns per-index confidences into the ranked, deduplicated, capped tag list.
pub fn rank_tags(probabilities: &Vec<u32>, catalog: &LabelCatalog, params: &InferenceParams) -> (r:
    Vec<TagPrediction>)
    ensures
        r.len() == ranked(probabilities@, catalog@, *params).len(),
        forall|k: int|
            0 <= k < r.len() ==> {
                let c = #[trigger] ranked(probabilities@, catalog@, *params)[k];
                &&& r[k].confidence == c.1
                &&& catalog@.contains_key(c.0)
                &&& r[k].name@ == catalog@[c.0].name@
            },
        forall|i: int, j: int| 0 <= i < j < r.len() ==> r[i].name@ != r[j].name@,
{
    let ranked_candidates = rank_candidates(probabilities, catalog, params);
    let _n = probabilities.len();
    proof {
        lemma_ranked_in_catalog(probabilities@, catalog@, *params);
        lemma_ranked_capped_and_sorted(probabilities@, catalog@, *params);
    }
    let r = to_predictions(&ranked_candidates, catalog);
    proof {
        let rk = ranked(probabilities@, catalog@, *params);
        assert forall|i: int, j: int| 0 <= i < j < r.len() implies r[i].name@ != r[j].name@ by {
            assert(name_of(rk[i], catalog@) != name_of(rk[j], catalog@));
        }
    }
    r
}

} // verus!

verus! {

/// One labelled output with its category and position, for introspection.
#[derive(Debug)]
pub struct PredictionDetail {
    pub name: String,
    pub confidence: u32,
    pub category: Category,
    pub tag_id: usize,
    pub index: usize,
}

/// Every labelled output, split by category; each list by confidence,
/// highest first.
#[derive(Debug)]
pub struct CategoryPredictions {
    pub rating: Vec<PredictionDetail>,
    pub general: Vec<PredictionDetail>,
    pub character: Vec<PredictionDetail>,
    pub all: Vec<PredictionDetail>,
}

/// `d` lists the candidates `c`, named and categorized by the catalog.
pub open spec fn details_of(d: Seq<PredictionDetail>, c: Seq<Candidate>, labels: Map<usize, LabelEntry>) -> bool {
    &&& d.len() == c.len()
    &&& forall|k: int|
        0 <= k < d.len() ==> {
            &&& (#[trigger] d[k]).confidence == c[k].1
            &&& d[k].index == c[k].0
            &&& d[k].tag_id == c[k].0
            &&& d[k].name@ == labels[c[k].0].name@
            &&& d[k].category == labels[c[k].0].category
        }
}

fn to_details(c: &Vec<Candidate>, catalog: &LabelCatalog) -> (r: Vec<PredictionDetail>)
    requires
        in_catalog(c@, catalog@),
    ensures
        details_of(r@, c@, catalog@),
{
    let mut out: Vec<PredictionDetail> = Vec::new();
    let mut i: usize = 0;
    while i < c.len()
        invariant
            0 <= i <= c.len(),
            in_catalog(c@, catalog@),
            details_of(out@, c@.take(i as int), catalog@),
        decreases c.len() - i,
    {
        let (index, confidence) = c[i];
        assert(catalog@.contains_key(c@[i as int].0));
        match catalog.get(index) {
            Some(entry) => {
                out.push(
                    PredictionDetail {
                        name: entry.name.clone(),
                        confidence,
                        category: entry.category,
                        tag_id: index,
                        index,
                    },
                );
            },
            None => {},
        }
        i = i + 1;
    }
    assert(c@.take(c.len() as int) =~= c@);
    out
}

/// Every labelled output (any category), in output-index order.
pub fn labelled(probabilities: &Vec<u32>, catalog: &LabelCatalog) -> (r: Vec<Candidate>)
    ensures
        r@ == labelled_candidates(probabilities@, catalog@),
{
    let mut out: Vec<Candidate> = Vec::new();
    let mut i: usize = 0;
    while i < probabilities.len()
        invariant
            0 <= i <= probabilities.len(),
            out@ == labelled_candidates(probabilities@.subrange(0, i as int), catalog@),
        decreases probabilities.len() - i,
    {
        let p = probabilities[i];
        proof {
            let s = probabilities@.subrange(0, i as int + 1);
            assert(s.drop_last() =~= probabilities@.subrange(0, i as int));
            assert(s.last() == p);
        }
        if catalog.get(i).is_some() {
            out.push((i, p));
        }
        i = i + 1;
    }
    assert(probabilities@.subrange(0, probabilities.len() as int) =~= probabilities@);
    out
}

/// Every labelled output, split by category, each list sorted by confidence
/// (ties in output-index order).
pub fn categorize_predictions(probabilities: &Vec<u32>, catalog: &LabelCatalog) -> (r:
    CategoryPredictions)
    ensures
        details_of(
            r.rating@,
            sort_desc(category_candidates(probabilities@, catalog@, Category::Rating)),
            catalog@,
        ),
        details_of(
            r.general@,
            sort_desc(category_candidates(probabilities@, catalog@, Category::General)),
            catalog@,
        ),
        details_of(
            r.character@,
            sort_desc(category_candidates(probabilities@, catalog@, Category::Character)),
            catalog@,
        ),
        details_of(r.all@, sort_desc(labelled_candidates(probabilities@, catalog@)), catalog@),
{
    let _n = probabilities.len();
    let (rating, general, character) = split_by_category(probabilities, catalog);
    let all = labelled(probabilities, catalog);
    proof {
        lemma_category_candidates(probabilities@, catalog@, Category::Rating);
        lemma_category_candidates(probabilities@, catalog@, Category::General);
        lemma_category_candidates(probabilities@, catalog@, Category::Character);
        lemma_labelled_candidates(probabilities@, catalog@);
        lemma_sort_desc_in_catalog(rating@, catalog@);
        lemma_sort_desc_in_catalog(general@, catalog@);
        lemma_sort_desc_in_catalog(character@, catalog@);
        lemma_sort_desc_in_catalog(all@, catalog@);
    }
    CategoryPredictions {
        rating: to_details(&sort_by_confidence(&rating), catalog),
        general: to_details(&sort_by_confidence(&general), catalog),
        character: to_details(&sort_by_confidence(&character), catalog),
        all: to_details(&sort_by_confidence(&all), catalog),
    }
}

} // verus!
