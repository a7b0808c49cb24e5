//! Text building blocks shared by the types that render themselves: decimal
//! numerals and separator-joined lists.

use vstd::prelude::*;
use vstd::string::StringExecFns;

verus! {

/// The character of the decimal digit `d`.
pub open spec fn digit_char(d: nat) -> char {
    if d == 0 {
        '0'
    } else if d == 1 {
        '1'
    } else if d == 2 {
        '2'
    } else if d == 3 {
        '3'
    } else if d == 4 {
        '4'
    } else if d == 5 {
        '5'
    } else if d == 6 {
        '6'
    } else if d == 7 {
        '7'
    } else if d == 8 {
        '8'
    } else {
        '9'
    }
}

/// The decimal numeral of `n`, without leading zeros.
pub open spec fn numeral(n: nat) -> Seq<char>
    decreases n,
{
    if n < 10 {
        seq![digit_char(n)]
    } else {
        numeral(n / 10).push(digit_char(n % 10))
    }
}

/// The decimal numeral of `n`, with a minus sign in front of a negative one.
pub open spec fn signed_numeral(n: int) -> Seq<char> {
    if n < 0 {
        seq!['-'] + numeral((-n) as nat)
    } else {
        numeral(n as nat)
    }
}

/// `parts` in order, with `sep` between each two neighbours.
pub open spec fn joined(parts: Seq<Seq<char>>, sep: Seq<char>) -> Seq<char>
    decreases parts.len(),
{
    if parts.len() == 0 {
        Seq::empty()
    } else if parts.len() == 1 {
        parts[0]
    } else {
        joined(parts.drop_last(), sep) + sep + parts.last()
    }
}

/// The contents of each string of `items`.
pub open spec fn texts(items: Seq<String>) -> Seq<Seq<char>> {
    Seq::new(items.len(), |k: int| items[k]@)
}

fn digit(d: u64) -> (s: &'static str)
    requires
        d < 10,
    ensures
        s@ == seq![digit_char(d as nat)],
{
    proof {
        reveal_strlit("0");
        reveal_strlit("1");
        reveal_strlit("2");
        reveal_strlit("3");
        reveal_strlit("4");
        reveal_strlit("5");
        reveal_strlit("6");
        reveal_strlit("7");
        reveal_strlit("8");
        reveal_strlit("9");
    }
    let s = if d == 0 {
        "0"
    } else if d == 1 {
        "1"
    } else if d == 2 {
        "2"
    } else if d == 3 {
        "3"
    } else if d == 4 {
        "4"
    } else if d == 5 {
        "5"
    } else if d == 6 {
        "6"
    } else if d == 7 {
        "7"
    } else if d == 8 {
        "8"
    } else {
        "9"
    };
    assert(s@ =~= seq![digit_char(d as nat)]);
    s
}

/// Writes `n` in decimal.
pub fn decimal(n: u64) -> (s: String)
    ensures
        s@ == numeral(n as nat),
    decreases n,
{
    if n < 10 {
        String::from_str(digit(n))
    } else {
        let mut s = decimal(n / 10);
        s.append(digit(n % 10));
        assert(s@ =~= numeral(n as nat));
        s
    }
}

/// Writes `n` in decimal, with a minus sign if it is negative.
pub fn signed_decimal(n: i64) -> (s: String)
    ensures
        s@ == signed_numeral(n as int),
{
    if n < 0 {
        let magnitude: u64 = ((-(n + 1)) as u64) + 1;
        let mut s = String::from_str("-");
        let digits = decimal(magnitude);
        s.append(digits.as_str());
        proof {
            reveal_strlit("-");
            assert(s@ =~= signed_numeral(n as int));
        }
        s
    } else {
        decimal(n as u64)
    }
}

/// Joins the strings `parts[start..end]` with `sep` between each two
/// neighbours.
pub fn join(parts: &Vec<String>, start: usize, end: usize, sep: &str) -> (s: String)
    requires
        start <= end <= parts@.len(),
    ensures
        s@ == joined(texts(parts@).subrange(start as int, end as int), sep@),
{
    let ghost all = texts(parts@);
    let mut s = String::new();
    let mut k: usize = start;
    while k < end
        invariant
            start <= k <= end <= parts@.len(),
            all == texts(parts@),
            s@ == joined(all.subrange(start as int, k as int), sep@),
        decreases end - k,
    {
        if k != start {
            s.append(sep);
        }
        s.append(parts[k].as_str());
        proof {
            let before = all.subrange(start as int, k as int);
            let after = all.subrange(start as int, k + 1);
            assert(after.drop_last() =~= before);
            assert(after.last() == parts@[k as int]@);
            if k == start {
                assert(s@ =~= after[0]);
            } else {
                assert(s@ =~= joined(before, sep@) + sep@ + after.last());
            }
        }
        k = k + 1;
    }
    s
}

/// The text that the standard `{:?}` format gives for a string whose
/// characters are `s`: the string in double quotes, with the characters that
/// need it written as escapes.
pub uninterp spec fn debug_text(s: Seq<char>) -> Seq<char>;

/// Formats `s` with the standard library's `{:?}`, that is by `str`'s
/// `Debug`. Nothing is proved of it: the contract only gives the result its
/// name, `debug_text` of the characters of `s`, which that format fixes.
#[verifier::external_body]
pub(crate) fn quoted(s: &str) -> (text: String)
    ensures
        text@ == debug_text(s@),
{
    format!("{:?}", s)
}

} // verus!
