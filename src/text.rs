use crate::strings::push_char;
use vstd::prelude::*;

verus! {

/// Pieces of `s` between occurrences of `sep`; always at least one piece.
pub open spec fn split_on(s: Seq<char>, sep: char) -> Seq<Seq<char>>
    decreases s.len(),
{
    if s.len() == 0 {
        seq![Seq::empty()]
    } else {
        let r = split_on(s.drop_last(), sep);
        if s.last() == sep {
            r.push(Seq::empty())
        } else {
            r.update(r.len() - 1, r.last().push(s.last()))
        }
    }
}

/// `split_on` always yields at least one piece.
pub proof fn lemma_split_on_len(s: Seq<char>, sep: char)
    ensures
        split_on(s, sep).len() >= 1,
    decreases s.len(),
{
    if s.len() > 0 {
        lemma_split_on_len(s.drop_last(), sep);
    }
}

pub open spec fn strip_cr(l: Seq<char>) -> Seq<char> {
    if l.len() > 0 && l.last() == '\r' {
        l.drop_last()
    } else {
        l
    }
}

/// The lines of a text as `str::lines` yields them: split at `\n`, a `\r`
/// before a `\n` dropped, and no empty line after a final line ending.
pub open spec fn text_lines(s: Seq<char>) -> Seq<Seq<char>> {
    let p = split_on(s, '\n');
    let terminated = p.drop_last().map_values(|l: Seq<char>| strip_cr(l));
    if p.last().len() == 0 {
        terminated
    } else {
        terminated.push(p.last())
    }
}

pub open spec fn is_digit(c: char) -> bool {
    '0' <= c <= '9'
}

pub open spec fn digit_value(c: char) -> nat {
    (c as nat - '0' as nat) as nat
}

/// Decimal value of a string of digits.
pub open spec fn digits_value(s: Seq<char>) -> nat
    decreases s.len(),
{
    if s.len() == 0 {
        0
    } else {
        digits_value(s.drop_last()) * 10 + digit_value(s.last())
    }
}

pub open spec fn unsigned_digits(s: Seq<char>) -> Seq<char> {
    if s.len() > 0 && s[0] == '+' {
        s.drop_first()
    } else {
        s
    }
}

/// An unsigned decimal as `str::parse` reads it into a type whose largest
/// value is `max`: an optional `+`, then one or more digits, nothing else.
pub open spec fn parse_unsigned(s: Seq<char>, max: nat) -> Option<nat> {
    let d = unsigned_digits(s);
    if d.len() > 0 && (forall|i: int| 0 <= i < d.len() ==> is_digit(#[trigger] d[i]))
        && digits_value(d) <= max {
        Some(digits_value(d))
    } else {
        None
    }
}

/// Every character of `s` as a vector.
pub fn chars_of(s: &str) -> (r: Vec<char>)
    ensures
        r@ == s@,
{
    broadcast use vstd::string::axiom_spec_iter;

    let mut out: Vec<char> = Vec::new();
    for c in it: s.chars()
        invariant
            out@ == it.seq().take(it.index() as int),
            it.seq() == s@,
    {
        out.push(c);
        assert(it.seq().take(it.index() + 1) =~= it.seq().take(it.index() as int).push(c));
    }
    assert(s@.take(s@.len() as int) =~= s@);
    out
}

/// Half-open ranges of `chars[start..end]` between occurrences of `sep`.
pub fn split_ranges(chars: &Vec<char>, start: usize, end: usize, sep: char) -> (r: Vec<
    (usize, usize),
>)
    requires
        start <= end <= chars.len(),
    ensures
        r.len() == split_on(chars@.subrange(start as int, end as int), sep).len(),
        forall|k: int|
            0 <= k < r.len() ==> {
                &&& start <= (#[trigger] r[k]).0 <= r[k].1 <= end
                &&& chars@.subrange(r[k].0 as int, r[k].1 as int) == split_on(
                    chars@.subrange(start as int, end as int),
                    sep,
                )[k]
            },
{
    proof {
        lemma_split_on_len(chars@.subrange(start as int, start as int), sep);
    }
    let mut done: Vec<(usize, usize)> = Vec::new();
    let mut cur: usize = start;
    let mut i: usize = start;
    while i < end
        invariant
            start <= cur <= i <= end <= chars.len(),
            done.len() + 1 == split_on(chars@.subrange(start as int, i as int), sep).len(),
            forall|k: int|
                0 <= k < done.len() ==> {
                    &&& start <= (#[trigger] done[k]).0 <= done[k].1 <= end
                    &&& chars@.subrange(done[k].0 as int, done[k].1 as int) == split_on(
                        chars@.subrange(start as int, i as int),
                        sep,
                    )[k]
                },
            chars@.subrange(cur as int, i as int) == split_on(
                chars@.subrange(start as int, i as int),
                sep,
            ).last(),
        decreases end - i,
    {
        let ghost before = split_on(chars@.subrange(start as int, i as int), sep);
        proof {
            let s = chars@.subrange(start as int, i as int + 1);
            assert(s.drop_last() =~= chars@.subrange(start as int, i as int));
            assert(s.last() == chars@[i as int]);
        }
        if chars[i] == sep {
            done.push((cur, i));
            cur = i + 1;
            assert(chars@.subrange(cur as int, i as int + 1) =~= Seq::<char>::empty());
        } else {
            assert(chars@.subrange(cur as int, i as int + 1) =~= chars@.subrange(
                cur as int,
                i as int,
            ).push(chars@[i as int]));
        }
        i = i + 1;
    }
    done.push((cur, end));
    done
}

proof fn lemma_digits_step(s: Seq<char>, c: char)
    ensures
        digits_value(s.push(c)) == digits_value(s) * 10 + digit_value(c),
{
    assert(s.push(c).drop_last() =~= s);
}

/// Reads `chars[start..end]` as `str::parse` reads an unsigned integer whose
/// largest value is `max`.
pub fn parse_unsigned_range(chars: &Vec<char>, start: usize, end: usize, max: u64) -> (r: Option<u64>)
    requires
        start <= end <= chars.len(),
    ensures
        match parse_unsigned(chars@.subrange(start as int, end as int), max as nat) {
            Some(v) => r == Some(v as u64),
            None => r is None,
        },
{
    let ghost s = chars@.subrange(start as int, end as int);
    let mut from = start;
    if start < end && chars[start] == '+' {
        from = start + 1;
        assert(s.drop_first() =~= chars@.subrange(from as int, end as int));
    } else {
        assert(s =~= chars@.subrange(from as int, end as int));
    }
    if from == end {
        return None;
    }
    let ghost d = chars@.subrange(from as int, end as int);
    assert(unsigned_digits(s) == d);
    let mut acc: u64 = 0;
    let mut overflow = false;
    let mut i: usize = from;
    while i < end
        invariant
            start <= from < end <= chars.len(),
            from <= i <= end,
            d == chars@.subrange(from as int, end as int),
            s == chars@.subrange(start as int, end as int),
            unsigned_digits(s) == d,
            forall|k: int| 0 <= k < i - from ==> is_digit(#[trigger] d[k]),
            !overflow ==> acc as nat == digits_value(chars@.subrange(from as int, i as int)),
            !overflow ==> acc <= max,
            overflow ==> digits_value(chars@.subrange(from as int, i as int)) > max,
        decreases end - i,
    {
        let c = chars[i];
        if !('0' <= c && c <= '9') {
            assert(!is_digit(d[i - from]));
            return None;
        }
        let dv = (c as u32 - '0' as u32) as u64;
        let ghost prev = digits_value(chars@.subrange(from as int, i as int));
        proof {
            assert(chars@.subrange(from as int, i as int + 1) =~= chars@.subrange(
                from as int,
                i as int,
            ).push(c));
            lemma_digits_step(chars@.subrange(from as int, i as int), c);
        }
        if overflow {
            assert(prev * 10 + dv >= prev) by (nonlinear_arith);
        } else if dv > max || acc > (max - dv) / 10 {
            overflow = true;
            assert(acc * 10 + dv > max) by (nonlinear_arith)
                requires
                    dv > max || acc > (max - dv) / 10,
                    dv <= max ==> (max - dv) / 10 * 10 + dv <= max,
            ;
        } else {
            assert(acc * 10 + dv <= max) by (nonlinear_arith)
                requires
                    acc <= (max - dv) / 10,
                    dv <= max,
            ;
            acc = acc * 10 + dv;
        }
        assert(is_digit(d[i - from]));
        i = i + 1;
    }
    assert(chars@.subrange(from as int, end as int) == chars@.subrange(from as int, i as int));
    if overflow {
        None
    } else {
        Some(acc)
    }
}

/// The string made of `chars[start..end]`.
pub fn string_of_range(chars: &Vec<char>, start: usize, end: usize) -> (r: String)
    requires
        start <= end <= chars.len(),
    ensures
        r@ == chars@.subrange(start as int, end as int),
{
    let mut out = String::new();
    let mut i = start;
    while i < end
        invariant
            start <= i <= end <= chars.len(),
            out@ == chars@.subrange(start as int, i as int),
        decreases end - i,
    {
        push_char(&mut out, chars[i]);
        assert(chars@.subrange(start as int, i as int + 1) =~= chars@.subrange(
            start as int,
            i as int,
        ).push(chars@[i as int]));
        i = i + 1;
    }
    out
}

} // verus!
