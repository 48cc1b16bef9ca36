//! Texts and dictionaries: what is written can be read.

use crate::doubles::{integer_is_unique, is_integer};
use crate::text::{digit, ends_in, int_text, lower_cased, nat_text};
use crate::variant::{
    bool_under, dict_under, int_of, int_under, lemma_place, list_under, lookup, place_of,
    text_under, texts_under, with_entry, Double, Entry, Value,
};
use vstd::prelude::*;

verus! {

/// The number that a decimal digit stands for.
pub open spec fn digit_value(c: char) -> int {
    c as int - '0' as int
}

/// The number that decimal digits spell, the most significant first.
pub open spec fn digits_value(text: Seq<char>) -> int
    decreases text.len(),
{
    if text.len() == 0 {
        0
    } else {
        10 * digits_value(text.drop_last()) + digit_value(text.last())
    }
}

/// A number in decimal spells itself, in digits, without a leading zero.
pub proof fn numbers_spell_themselves(n: int)
    requires
        n >= 0,
    ensures
        digits_value(nat_text(n)) == n,
        nat_text(n).len() > 0,
        forall|i: int| 0 <= i < nat_text(n).len() ==> '0' <= #[trigger] nat_text(n)[i] <= '9',
        n > 0 ==> nat_text(n)[0] != '0',
    decreases n,
{
    let text = nat_text(n);
    if n < 10 {
        assert(text.drop_last() =~= Seq::<char>::empty());
        assert(digits_value(text.drop_last()) == 0);
        assert(digit_value(digit(n)) == n);
    } else {
        numbers_spell_themselves(n / 10);
        let before = nat_text(n / 10);
        assert(text.drop_last() =~= before);
        assert(digit_value(digit(n % 10)) == n % 10);
        assert(text[0] == before[0]);
        assert forall|i: int| 0 <= i < text.len() implies '0' <= #[trigger] text[i] <= '9' by {
            if i < before.len() {
                assert(text[i] == before[i]);
            }
        }
    }
}

/// Two integers in decimal differ; a negative one starts with a minus sign.
pub proof fn integers_are_told_apart(a: int, b: int)
    ensures
        int_text(a) == int_text(b) ==> a == b,
        a < 0 <==> int_text(a)[0] == '-',
        a >= 0 ==> digits_value(int_text(a)) == a,
        a < 0 ==> digits_value(int_text(a).skip(1)) == -a,
{
    lemma_integer(a);
    lemma_integer(b);
}

proof fn lemma_integer(a: int)
    ensures
        a < 0 <==> int_text(a)[0] == '-',
        a >= 0 ==> digits_value(int_text(a)) == a,
        a < 0 ==> digits_value(int_text(a).skip(1)) == -a,
{
    if a < 0 {
        numbers_spell_themselves(-a);
        assert(int_text(a).skip(1) =~= nat_text(-a));
    } else {
        numbers_spell_themselves(a);
        assert('0' <= nat_text(a)[0] <= '9');
    }
}

/// Putting a text in lower case changes only capital letters, each to its own small letter, and
/// changes nothing the second time.
pub proof fn lower_case_stays(text: Seq<char>)
    ensures
        lower_cased(text).len() == text.len(),
        lower_cased(lower_cased(text)) == lower_cased(text),
        forall|i: int|
            0 <= i < text.len() ==> {
                let c = #[trigger] text[i];
                &&& 'A' <= c <= 'Z' ==> lower_cased(text)[i] as int - 'a' as int == c as int
                    - 'A' as int
                &&& !('A' <= c <= 'Z') ==> lower_cased(text)[i] == c
            },
{
    assert(lower_cased(lower_cased(text)) =~= lower_cased(text));
}

/// An ending without capital letters is still there in lower case.
pub proof fn lower_case_keeps_endings(text: Seq<char>, suffix: Seq<char>)
    requires
        forall|i: int| 0 <= i < suffix.len() ==> !('A' <= #[trigger] suffix[i] <= 'Z'),
    ensures
        ends_in(text, suffix) ==> ends_in(lower_cased(text), suffix),
{
    if ends_in(text, suffix) {
        let from = text.len() - suffix.len();
        assert forall|i: int| 0 <= i < suffix.len() implies lower_cased(text).skip(from)[i]
            == #[trigger] suffix[i] by {
            assert(text.skip(from)[i] == suffix[i]);
        }
        assert(lower_cased(text).skip(from) =~= suffix);
    }
}

/// A text ends in another one exactly where something stands before that.
pub proof fn endings_come_last(before: Seq<char>, suffix: Seq<char>, text: Seq<char>)
    ensures
        ends_in(before + suffix, suffix),
        ends_in(text, suffix) ==> exists|start: Seq<char>| text == #[trigger] (start + suffix),
{
    assert((before + suffix).skip(before.len() as int) =~= suffix);
    if ends_in(text, suffix) {
        let start = text.take(text.len() - suffix.len());
        assert(text =~= start + suffix);
    }
}

/// Looking up gives the value of the first entry that has the key, and nothing where none has it.
pub proof fn lookups_find_the_first(entries: Seq<Entry>, key: Seq<char>)
    ensures
        lookup(entries, key) is None <==> forall|i: int|
            0 <= i < entries.len() ==> (#[trigger] entries[i]).key != Some(key),
        lookup(entries, key) matches Some(value) ==> exists|i: int|
            0 <= i < entries.len() && (#[trigger] entries[i]).key == Some(key) && entries[i].value
                == value && forall|j: int|
                0 <= j < i ==> (#[trigger] entries[j]).key != Some(key),
{
    lemma_place(entries, key);
    let p = place_of(entries, key);
    if p < entries.len() {
        assert(entries[p].key == Some(key));
    }
}

/// Setting a key keeps the order of the others: a key that is there keeps its place, and a new one
/// goes behind all others.
pub proof fn keys_keep_their_places(entries: Seq<Entry>, key: Seq<char>, value: Value, i: int)
    requires
        0 <= i < entries.len(),
    ensures
        entries.len() <= with_entry(entries, key, value).len() <= entries.len() + 1,
        with_entry(entries, key, value)[i].key == entries[i].key,
        entries[i].key != Some(key) ==> with_entry(entries, key, value)[i] == entries[i],
        lookup(entries, key) is None ==> with_entry(entries, key, value).len() == entries.len() + 1,
{
    lemma_place(entries, key);
}

/// What is set under a key is read back as what it is, and as nothing else.
pub proof fn values_are_read_as_they_are(entries: Seq<Entry>, key: Seq<char>)
    ensures
        lookup(entries, key) is None ==> text_under(entries, key) is None && int_under(entries, key)
            is None && bool_under(entries, key) is None && list_under(entries, key) is None
            && dict_under(entries, key) is None && texts_under(entries, key) is None,
        lookup(entries, key) matches Some(value) ==> {
            &&& value matches Value::Text(text) ==> text_under(entries, key) == Some(text)
            &&& value matches Value::Bool(flag) ==> bool_under(entries, key) == Some(flag)
            &&& value matches Value::List(items) ==> list_under(entries, key) == Some(items)
            &&& value matches Value::Dict(inner) ==> dict_under(entries, key) == Some(inner)
            &&& value matches Value::TextList(list) ==> texts_under(entries, key) == Some(list)
            &&& value matches Value::Int(number) ==> (i32::MIN <= number <= i32::MAX ==> int_under(
                entries,
                key,
            ) == Some(number as i32))
            &&& value matches Value::Int(number) ==> (number < i32::MIN || number > i32::MAX
                ==> int_under(entries, key) is None)
            &&& !(value is Text) ==> text_under(entries, key) is None
            &&& !(value is Bool) ==> bool_under(entries, key) is None
            &&& !(value is List) ==> list_under(entries, key) is None
            &&& !(value is Dict) ==> dict_under(entries, key) is None
            &&& !(value is TextList) ==> texts_under(entries, key) is None
            &&& !(value is Int) && !(value is Float) ==> int_under(entries, key) is None
        },
{
}

/// A number in double precision is an integer where it is one, and none where it has a fraction or
/// does not fit.
pub proof fn whole_numbers_are_integers(number: Double, n: i32)
    ensures
        is_integer(number.bits, n as int) ==> int_of(Value::Float(number)) == Some(n),
        int_of(Value::Float(number)) matches Some(found) ==> is_integer(number.bits, found as int),
        is_integer(0, 0),
{
    if is_integer(number.bits, n as int) {
        let found = choose|m: i32| #[trigger] is_integer(number.bits, m as int);
        integer_is_unique(number.bits, found as int, n as int);
    }
    assert(0int * vstd::arithmetic::power2::pow2(1074) == 0) by (nonlinear_arith);
}

} // verus!
