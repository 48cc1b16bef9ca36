//! Texts: comparing them and their ends, and writing numbers in decimal.

use vstd::prelude::*;
use vstd::string::*;

verus! {

/// The decimal digit `d`.
pub open spec fn digit(d: int) -> char {
    if d == 0 {
        '0'
    } else if d == 1 {
        '1'
    } else if d == 2 {
        '2'
    } else if d == 3 {
        '3'
    } else if d == 4 {
        '4'
    } else if d == 5 {
        '5'
    } else if d == 6 {
        '6'
    } else if d == 7 {
        '7'
    } else if d == 8 {
        '8'
    } else {
        '9'
    }
}

/// A natural number in decimal, without leading zeros.
pub open spec fn nat_text(n: int) -> Seq<char>
    decreases n,
{
    if n < 10 {
        seq![digit(n)]
    } else {
        nat_text(n / 10).push(digit(n % 10))
    }
}

/// An integer in decimal, without leading zeros, with a minus sign where it is negative.
pub open spec fn int_text(n: int) -> Seq<char> {
    if n < 0 {
        seq!['-'] + nat_text(-n)
    } else {
        nat_text(n)
    }
}

/// Whether two texts are the same.
pub fn text_eq(a: &str, b: &str) -> (same: bool)
    ensures
        same == (a@ == b@),
{
    let left: String = a.to_owned();
    let right: String = b.to_owned();
    left == right
}

/// Appends the decimal digit `d`.
fn push_digit(out: &mut String, d: u64)
    requires
        d < 10,
    ensures
        final(out)@ == old(out)@.push(digit(d as int)),
{
    proof {
        reveal_strlit("0");
        reveal_strlit("1");
        reveal_strlit("2");
        reveal_strlit("3");
        reveal_strlit("4");
        reveal_strlit("5");
        reveal_strlit("6");
        reveal_strlit("7");
        reveal_strlit("8");
        reveal_strlit("9");
    }
    let text: &str = if d == 0 {
        "0"
    } else if d == 1 {
        "1"
    } else if d == 2 {
        "2"
    } else if d == 3 {
        "3"
    } else if d == 4 {
        "4"
    } else if d == 5 {
        "5"
    } else if d == 6 {
        "6"
    } else if d == 7 {
        "7"
    } else if d == 8 {
        "8"
    } else {
        "9"
    };
    assert(text@ =~= seq![digit(d as int)]);
    out.append(text);
    assert(out@ =~= old(out)@.push(digit(d as int)));
}

/// Appends a natural number in decimal.
pub fn push_nat(out: &mut String, n: u64)
    ensures
        final(out)@ == old(out)@ + nat_text(n as int),
    decreases n,
{
    if n >= 10 {
        push_nat(out, n / 10);
    }
    push_digit(out, n % 10);
    assert(out@ =~= old(out)@ + nat_text(n as int));
}

/// Appends an integer in decimal.
pub fn push_int(out: &mut String, n: i64)
    ensures
        final(out)@ == old(out)@ + int_text(n as int),
{
    if n < 0 {
        proof {
            reveal_strlit("-");
        }
        out.append("-");
        if n == i64::MIN {
            push_nat(out, 0x8000_0000_0000_0000);
        } else {
            push_nat(out, (-n) as u64);
        }
        assert("-"@ =~= seq!['-']);
        assert(out@ =~= old(out)@ + int_text(n as int));
    } else {
        push_nat(out, n as u64);
    }
}

/// Whether `text` ends with `suffix`.
pub open spec fn ends_in(text: Seq<char>, suffix: Seq<char>) -> bool {
    text.len() >= suffix.len() && text.skip(text.len() - suffix.len()) == suffix
}

/// A letter from A to Z in lower case; any other character as it is.
pub open spec fn lower_case(c: char) -> char {
    if 'A' <= c && c <= 'Z' {
        (c as u32 + 32) as char
    } else {
        c
    }
}

/// A text with every letter from A to Z in lower case.
pub open spec fn lower_cased(text: Seq<char>) -> Seq<char> {
    Seq::new(text.len(), |i: int| lower_case(text[i]))
}

/// Whether `text` ends with `suffix`.
pub fn ends_with(text: &str, suffix: &str) -> (result: bool)
    ensures
        result == ends_in(text@, suffix@),
{
    let length: usize = text.unicode_len();
    let count: usize = suffix.unicode_len();
    if length < count {
        return false;
    }
    let start: usize = length - count;
    let ghost tail = text@.skip(start as int);
    let mut i: usize = 0;
    while i < count
        invariant
            i <= count,
            count == suffix@.len(),
            length == text@.len(),
            start == length - count,
            tail == text@.skip(start as int),
            forall|j: int| 0 <= j < i ==> tail[j] == suffix@[j],
        decreases count - i,
    {
        if text.get_char(start + i) != suffix.get_char(i) {
            assert(tail[i as int] != suffix@[i as int]);
            return false;
        }
        i = i + 1;
    }
    assert(tail =~= suffix@);
    true
}

/// Whether a character, put in lower case, is `lower`.
fn is_lower_case(c: char, lower: char) -> (result: bool)
    ensures
        result == (lower_case(c) == lower),
{
    if 'A' <= c && c <= 'Z' {
        (c as u32) + 32 == lower as u32
    } else {
        c == lower
    }
}

/// Whether `text`, put in lower case, ends with `suffix`.
pub fn ends_with_any_case(text: &str, suffix: &str) -> (result: bool)
    ensures
        result == ends_in(lower_cased(text@), suffix@),
{
    let length: usize = text.unicode_len();
    let count: usize = suffix.unicode_len();
    if length < count {
        return false;
    }
    let start: usize = length - count;
    let ghost tail = lower_cased(text@).skip(start as int);
    let mut i: usize = 0;
    while i < count
        invariant
            i <= count,
            count == suffix@.len(),
            length == text@.len(),
            start == length - count,
            tail == lower_cased(text@).skip(start as int),
            forall|j: int| 0 <= j < i ==> tail[j] == suffix@[j],
        decreases count - i,
    {
        let c: char = text.get_char(start + i);
        assert(tail[i as int] == lower_case(c));
        if !is_lower_case(c, suffix.get_char(i)) {
            assert(tail[i as int] != suffix@[i as int]);
            return false;
        }
        i = i + 1;
    }
    assert(tail =~= suffix@);
    true
}

} // verus!
