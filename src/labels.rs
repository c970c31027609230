use std::collections::HashMap;
use crate::error::ModelError;
use crate::text::{
    chars_of, lemma_split_on_len, parse_unsigned, parse_unsigned_range, split_on, split_ranges, string_of_range, strip_cr,
    text_lines,
};
use vstd::prelude::*;

verus! {

broadcast use vstd::std_specs::hash::group_hash_axioms;

/// Catalog code of the rating category.
pub const RATING_CATEGORY: u32 = 9;
/// Catalog code of the general category.
pub const GENERAL_CATEGORY: u32 = 0;
/// Catalog code of the character category.
pub const CHARACTER_CATEGORY: u32 = 4;

/// Selection policy family a label belongs to.
#[derive(Clone, Copy, Debug, PartialEq, Eq, Structural)]
pub enum Category {
    Rating,
    General,
    Character,
    Other,
}

pub open spec fn category_of_code(code: u32) -> Category {
    if code == RATING_CATEGORY {
        Category::Rating
    } else if code == GENERAL_CATEGORY {
        Category::General
    } else if code == CHARACTER_CATEGORY {
        Category::Character
    } else {
        Category::Other
    }
}

impl Category {
    /// Category named by a catalog code; unknown codes fall into `Other`.
    pub fn from_code(code: u32) -> (c: Category)
        ensures
            c == category_of_code(code),
    {
        if code == RATING_CATEGORY {
            Category::Rating
        } else if code == GENERAL_CATEGORY {
            Category::General
        } else if code == CHARACTER_CATEGORY {
            Category::Character
        } else {
            Category::Other
        }
    }
}

/// One row of the label catalog: the tag name and its category.
#[derive(Clone, Debug)]
pub struct LabelEntry {
    pub name: String,
    pub category: Category,
}

/// Read-only lookup from model output index to label.
pub struct LabelCatalog {
    entries: HashMap<usize, LabelEntry>,
}

impl View for LabelCatalog {
    type V = Map<usize, LabelEntry>;

    closed spec fn view(&self) -> Map<usize, LabelEntry> {
        self.entries@
    }
}

impl LabelCatalog {
    /// A catalog without labels.
    pub fn new() -> (c: LabelCatalog)
        ensures
            c@ == Map::<usize, LabelEntry>::empty(),
    {
        LabelCatalog { entries: HashMap::new() }
    }

    /// Adds or replaces the label at `index`.
    pub fn insert(&mut self, index: usize, entry: LabelEntry)
        ensures
            final(self)@ == old(self)@.insert(index, entry),
    {
        self.entries.insert(index, entry);
    }

    /// The label at `index`, if the catalog has one.
    pub fn get(&self, index: usize) -> (r: Option<&LabelEntry>)
        ensures
            match r {
                Some(e) => self@.contains_key(index) && *e == self@[index],
                None => !self@.contains_key(index),
            },
    {
        self.entries.get(&index)
    }

    /// Number of labels.
    pub fn len(&self) -> (n: usize)
        ensures
            n == self@.len(),
    {
        proof {
            vstd::std_specs::hash::axiom_hashmap_view_finite_dom(self.entries);
        }
        self.entries.len()
    }

    pub fn is_empty(&self) -> (b: bool)
        ensures
            b == (self@.len() == 0),
    {
        self.len() == 0
    }
}

} // verus!

verus! {

/// Fields of one catalog row: output index, tag name and category code, when
/// the row has at least four comma-separated fields and both numbers parse.
pub open spec fn parse_row(line: Seq<char>) -> Option<(usize, Seq<char>, u32)> {
    let f = split_on(line, ',');
    if f.len() >= 4 && parse_unsigned(f[0], usize::MAX as nat) is Some && parse_unsigned(
        f[2],
        u32::MAX as nat,
    ) is Some {
        Some(
            (
                parse_unsigned(f[0], usize::MAX as nat)->0 as usize,
                f[1],
                parse_unsigned(f[2], u32::MAX as nat)->0 as u32,
            ),
        )
    } else {
        None
    }
}

/// Labels that the rows define; a later row for the same index replaces an
/// earlier one, and rows that do not parse are skipped.
pub open spec fn catalog_of_rows(rows: Seq<Seq<char>>) -> Map<usize, (Seq<char>, Category)>
    decreases rows.len(),
{
    if rows.len() == 0 {
        Map::empty()
    } else {
        let m = catalog_of_rows(rows.drop_last());
        match parse_row(rows.last()) {
            Some(r) => m.insert(r.0, (r.1, category_of_code(r.2))),
            None => m,
        }
    }
}

/// Labels that a catalog text defines: its lines after the header line.
pub open spec fn catalog_of_text(s: Seq<char>) -> Map<usize, (Seq<char>, Category)> {
    let lines = text_lines(s);
    if lines.len() == 0 {
        Map::empty()
    } else {
        catalog_of_rows(lines.drop_first())
    }
}

/// The catalog holds exactly the labels of `m`.
pub open spec fn describes(c: Map<usize, LabelEntry>, m: Map<usize, (Seq<char>, Category)>) -> bool {
    &&& c.dom() == m.dom()
    &&& forall|k: usize| #[trigger]
        c.contains_key(k) ==> c[k].name@ == m[k].0 && c[k].category == m[k].1
}

proof fn lemma_catalog_of_rows_finite(rows: Seq<Seq<char>>)
    ensures
        catalog_of_rows(rows).dom().finite(),
    decreases rows.len(),
{
    if rows.len() > 0 {
        lemma_catalog_of_rows_finite(rows.drop_last());
    }
}

/// Reads one catalog row from `chars[start..end]`.
fn parse_row_range(chars: &Vec<char>, start: usize, end: usize) -> (r: Option<(usize, String, u32)>)
    requires
        start <= end <= chars.len(),
    ensures
        match parse_row(chars@.subrange(start as int, end as int)) {
            Some(t) => match r {
                Some(v) => v.0 == t.0 && v.1@ == t.1 && v.2 == t.2,
                None => false,
            },
            None => r is None,
        },
{
    let fields = split_ranges(chars, start, end, ',');
    let ghost f = split_on(chars@.subrange(start as int, end as int), ',');
    if fields.len() < 4 {
        return None;
    }
    let index = parse_unsigned_range(chars, fields[0].0, fields[0].1, usize::MAX as u64);
    let code = parse_unsigned_range(chars, fields[2].0, fields[2].1, u32::MAX as u64);
    match (index, code) {
        (Some(i), Some(c)) => {
            let name = string_of_range(chars, fields[1].0, fields[1].1);
            Some((i as usize, name, c as u32))
        },
        _ => None,
    }
}

/// How many catalog rows do not parse and are skipped.
pub open spec fn skipped_rows(rows: Seq<Seq<char>>) -> nat
    decreases rows.len(),
{
    if rows.len() == 0 {
        0
    } else {
        skipped_rows(rows.drop_last()) + if parse_row(rows.last()) is None {
            1nat
        } else {
            0nat
        }
    }
}

/// How many rows after the header of a catalog text are skipped.
pub open spec fn skipped_in_text(s: Seq<char>) -> nat {
    let lines = text_lines(s);
    if lines.len() == 0 {
        0
    } else {
        skipped_rows(lines.drop_first())
    }
}

/// Reads a label catalog (a header line, then rows `index,name,category,...`)
/// and counts the rows it skips: those with fewer than four fields or with an
/// unreadable index or category.
pub fn scan_label_catalog(content: &str) -> (r: (LabelCatalog, usize))
    ensures
        describes(r.0@, catalog_of_text(content@)),
        catalog_of_text(content@).dom().finite(),
        r.1 == skipped_in_text(content@),
{
    let chars = chars_of(content);
    let n = chars.len();
    let pieces = split_ranges(&chars, 0, n, '\n');
    let np = pieces.len();
    let ghost s = content@;
    let ghost p = split_on(chars@.subrange(0, n as int), '\n');
    assert(chars@.subrange(0, n as int) =~= s);
    proof {
        lemma_split_on_len(s, '\n');
    }
    let ghost lines = text_lines(s);
    let nl: usize = if pieces[np - 1].0 == pieces[np - 1].1 {
        np - 1
    } else {
        np
    };
    assert(lines.len() == nl);
    let mut catalog = LabelCatalog::new();
    let mut skipped: usize = 0;
    let mut k: usize = 1;
    while k < nl
        invariant
            1 <= k,
            nl <= np,
            np == pieces.len(),
            np == p.len(),
            n == chars.len(),
            lines == text_lines(s),
            p == split_on(s, '\n'),
            chars@ == s,
            lines.len() == nl,
            k <= nl || nl == 0,
            forall|j: int|
                0 <= j < np ==> {
                    &&& 0 <= (#[trigger] pieces[j]).0 <= pieces[j].1 <= n
                    &&& chars@.subrange(pieces[j].0 as int, pieces[j].1 as int) == p[j]
                },
            nl > 0 ==> describes(catalog@, catalog_of_rows(lines.subrange(1, k as int))),
            nl == 0 ==> catalog@ == Map::<usize, LabelEntry>::empty(),
            nl > 0 ==> skipped == skipped_rows(lines.subrange(1, k as int)),
            nl == 0 ==> skipped == 0,
            skipped < k,
        decreases nl - k,
    {
        let (a, b0) = pieces[k];
        let mut b = b0;
        if k + 1 < np && b > a && chars[b - 1] == '\r' {
            b = b - 1;
        }
        proof {
            if k + 1 < np {
                assert(lines[k as int] == strip_cr(p[k as int]));
                assert(chars@.subrange(a as int, b as int) =~= strip_cr(p[k as int]));
            } else {
                assert(lines[k as int] == p[k as int]);
            }
            let rows = lines.subrange(1, k as int + 1);
            assert(rows.drop_last() =~= lines.subrange(1, k as int));
            assert(rows.last() == chars@.subrange(a as int, b as int));
        }
        match parse_row_range(&chars, a, b) {
            Some((index, name, code)) => {
                catalog.insert(index, LabelEntry { name, category: Category::from_code(code) });
            },
            None => {
                skipped = skipped + 1;
            },
        }
        k = k + 1;
    }
    let ghost m = catalog_of_text(s);
    proof {
        if nl > 0 {
            assert(lines.subrange(1, nl as int) =~= lines.drop_first());
            lemma_catalog_of_rows_finite(lines.drop_first());
        } else {
            assert(m =~= Map::<usize, (Seq<char>, Category)>::empty());
        }
        assert(describes(catalog@, m));
    }
    (catalog, skipped)
}

/// Parses a label catalog: a header line, then rows `index,name,category,...`.
/// Rows with fewer than four fields or with an unreadable index or category
/// are skipped (`scan_label_catalog` counts them); a catalog left without any
/// label is an error.
pub fn parse_label_catalog(content: &str) -> (r: Result<LabelCatalog, ModelError>)
    ensures
        match r {
            Ok(c) => describes(c@, catalog_of_text(content@)) && c@.len() > 0,
            Err(e) => e == ModelError::LabelMapEmpty && catalog_of_text(content@) == Map::<
                usize,
                (Seq<char>, Category),
            >::empty(),
        },
{
    let (catalog, _skipped) = scan_label_catalog(content);
    let ghost m = catalog_of_text(content@);
    if catalog.is_empty() {
        proof {
            assert(m.dom().finite());
            m.dom().lemma_len0_is_empty();
            assert(m =~= Map::<usize, (Seq<char>, Category)>::empty());
        }
        Err(ModelError::LabelMapEmpty)
    } else {
        Ok(catalog)
    }
}

} // verus!
