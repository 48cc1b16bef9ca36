//! Values of the kinds that a scene file or an option list can hold.

use crate::doubles::{exact_i32, exact_int, widen, widened};
use crate::extents::LocalBox;
use crate::floats::F32;
use crate::text::text_eq;
use vstd::prelude::*;

verus! {

/// A double-precision number: its bits, and the bits of the single-precision number nearest to it.
#[derive(Clone, Copy, Debug, PartialEq, Eq, Structural)]
pub struct Double {
    pub bits: u64,
    pub single: F32,
}

/// A value.
#[derive(Debug)]
pub enum Variant {
    Nil,
    Bool(bool),
    Int(i64),
    Float(Double),
    Text(String),
    TextList(Vec<String>),
    List(Vec<Variant>),
    Dict(Dictionary),
    Bounds(LocalBox),
    /// A value of a kind that nothing here looks into.
    Other,
}

/// One entry of a dictionary. The key is kept where it is a text.
#[derive(Debug)]
pub struct DictEntry {
    pub key: Option<String>,
    pub value: Variant,
}

/// A dictionary: entries in the order in which they were added.
#[derive(Debug)]
pub struct Dictionary {
    pub entries: Vec<DictEntry>,
}

/// What a value is, apart from how it is stored.
#[verifier::ext_equal]
pub ghost enum Value {
    Nil,
    Bool(bool),
    Int(i64),
    Float(Double),
    Text(Seq<char>),
    TextList(Seq<Seq<char>>),
    List(Seq<Value>),
    Dict(Seq<Entry>),
    Bounds(LocalBox),
    Other,
}

/// What an entry of a dictionary is.
#[verifier::ext_equal]
pub ghost struct Entry {
    pub key: Option<Seq<char>>,
    pub value: Value,
}

/// The texts of a list.
pub open spec fn texts(list: Seq<String>) -> Seq<Seq<char>> {
    Seq::new(list.len(), |i: int| list[i]@)
}

/// What a value is.
pub open spec fn value_of(variant: Variant) -> Value
    decreases variant,
{
    match variant {
        Variant::Nil => Value::Nil,
        Variant::Bool(flag) => Value::Bool(flag),
        Variant::Int(number) => Value::Int(number),
        Variant::Float(number) => Value::Float(number),
        Variant::Text(text) => Value::Text(text@),
        Variant::TextList(list) => Value::TextList(texts(list@)),
        Variant::List(items) => Value::List(values_of(items@)),
        Variant::Dict(dict) => Value::Dict(entries_of(dict.entries@)),
        Variant::Bounds(bounds) => Value::Bounds(bounds),
        Variant::Other => Value::Other,
    }
}

/// What the values of a list are.
pub open spec fn values_of(items: Seq<Variant>) -> Seq<Value>
    decreases items,
{
    Seq::new(
        items.len(),
        |i: int|
            if 0 <= i < items.len() {
                value_of(items[i])
            } else {
                Value::Nil
            },
    )
}

/// What the entries of a dictionary are.
pub open spec fn entries_of(entries: Seq<DictEntry>) -> Seq<Entry>
    decreases entries,
{
    Seq::new(
        entries.len(),
        |i: int|
            if 0 <= i < entries.len() {
                entry_of(entries[i])
            } else {
                Entry { key: None, value: Value::Nil }
            },
    )
}

/// What an entry of a dictionary is.
pub open spec fn entry_of(entry: DictEntry) -> Entry
    decreases entry,
{
    Entry {
        key: match entry.key {
            Some(key) => Some(key@),
            None => None,
        },
        value: value_of(entry.value),
    }
}

impl View for Variant {
    type V = Value;

    open spec fn view(&self) -> Value {
        value_of(*self)
    }
}

impl View for Dictionary {
    type V = Seq<Entry>;

    open spec fn view(&self) -> Seq<Entry> {
        entries_of(self.entries@)
    }
}

/// The place of the first entry with the given key; the number of entries if there is none.
pub open spec fn place_of(entries: Seq<Entry>, key: Seq<char>) -> int
    decreases entries.len(),
{
    if entries.len() == 0 {
        0
    } else {
        let earlier = place_of(entries.drop_last(), key);
        if earlier < entries.len() - 1 || entries.last().key == Some(key) {
            earlier
        } else {
            entries.len() as int
        }
    }
}

/// The value under the given key.
pub open spec fn lookup(entries: Seq<Entry>, key: Seq<char>) -> Option<Value> {
    if place_of(entries, key) < entries.len() {
        Some(entries[place_of(entries, key)].value)
    } else {
        None
    }
}

/// The entries with the given key set to the given value.
pub open spec fn with_entry(entries: Seq<Entry>, key: Seq<char>, value: Value) -> Seq<Entry> {
    if place_of(entries, key) < entries.len() {
        entries.update(place_of(entries, key), Entry { key: Some(key), value })
    } else {
        entries.push(Entry { key: Some(key), value })
    }
}

/// The place of a key is that of the first entry that has it.
pub proof fn lemma_place(entries: Seq<Entry>, key: Seq<char>)
    ensures
        0 <= place_of(entries, key) <= entries.len(),
        place_of(entries, key) < entries.len() ==> entries[place_of(entries, key)].key == Some(key),
        forall|i: int|
            0 <= i < place_of(entries, key) ==> (#[trigger] entries[i]).key != Some(key),
    decreases entries.len(),
{
    if entries.len() > 0 {
        let rest = entries.drop_last();
        lemma_place(rest, key);
        assert forall|i: int| 0 <= i < place_of(entries, key) implies (#[trigger] entries[i]).key
            != Some(key) by {
            if i < rest.len() {
                assert(rest[i] == entries[i]);
            }
        }
    }
}

/// An entry with the key, behind none that has it, is at the key's place.
pub proof fn lemma_place_is(entries: Seq<Entry>, key: Seq<char>, i: int)
    requires
        0 <= i < entries.len(),
        entries[i].key == Some(key),
        forall|j: int| 0 <= j < i ==> (#[trigger] entries[j]).key != Some(key),
    ensures
        place_of(entries, key) == i,
{
    lemma_place(entries, key);
    let p = place_of(entries, key);
    if p > i {
        assert(entries[i].key != Some(key));
    } else if p < i {
        assert(entries[p].key != Some(key));
    }
}

/// A key that no entry has is found nowhere.
pub proof fn lemma_no_place(entries: Seq<Entry>, key: Seq<char>)
    requires
        forall|j: int| 0 <= j < entries.len() ==> (#[trigger] entries[j]).key != Some(key),
    ensures
        place_of(entries, key) == entries.len(),
{
    lemma_place(entries, key);
    let p = place_of(entries, key);
    if p < entries.len() {
        assert(entries[p].key != Some(key));
    }
}

/// Looking up gives what was set under the key last, and setting one key leaves the others alone.
pub proof fn lookup_after_set(entries: Seq<Entry>, key: Seq<char>, value: Value, other: Seq<char>)
    ensures
        lookup(with_entry(entries, key, value), other) == (if other == key {
            Some(value)
        } else {
            lookup(entries, other)
        }),
{
    let after = with_entry(entries, key, value);
    lemma_place(entries, key);
    lemma_place(entries, other);
    let k = place_of(entries, key);
    let o = place_of(entries, other);
    if other == key {
        assert forall|j: int| 0 <= j < k implies (#[trigger] after[j]).key != Some(key) by {
            assert(after[j] == entries[j]);
        }
        lemma_place_is(after, key, k);
    } else if o < entries.len() {
        assert(after[o] == entries[o]);
        assert forall|j: int| 0 <= j < o implies (#[trigger] after[j]).key != Some(other) by {
            if j != k {
                assert(after[j] == entries[j]);
            }
        }
        lemma_place_is(after, other, o);
    } else {
        assert forall|j: int| 0 <= j < after.len() implies (#[trigger] after[j]).key != Some(
            other,
        ) by {
            if j < entries.len() && j != k {
                assert(after[j] == entries[j]);
            }
        }
        lemma_no_place(after, other);
    }
}

impl Dictionary {
    /// An empty dictionary.
    pub fn new() -> (dict: Dictionary)
        ensures
            dict@ == Seq::<Entry>::empty(),
    {
        let dict = Dictionary { entries: Vec::new() };
        assert(dict@ =~= Seq::empty());
        dict
    }

    /// The place of the first entry with the given key.
    fn find(&self, key: &str) -> (place: usize)
        ensures
            place == place_of(self@, key@),
            place <= self.entries@.len(),
    {
        let mut i: usize = 0;
        while i < self.entries.len()
            invariant
                i <= self.entries@.len(),
                forall|j: int| 0 <= j < i ==> (#[trigger] self@[j]).key != Some(key@),
            decreases self.entries@.len() - i,
        {
            let found: bool = match &self.entries[i].key {
                Some(own) => text_eq(own.as_str(), key),
                None => false,
            };
            assert(self@[i as int] == entry_of(self.entries@[i as int]));
            if found {
                proof {
                    lemma_place_is(self@, key@, i as int);
                }
                return i;
            }
            i = i + 1;
        }
        proof {
            lemma_no_place(self@, key@);
        }
        i
    }

    /// The value under the given key.
    pub fn get(&self, key: &str) -> (value: Option<&Variant>)
        ensures
            match value {
                Some(variant) => lookup(self@, key@) == Some(variant@),
                None => lookup(self@, key@) == None::<Value>,
            },
    {
        let place: usize = self.find(key);
        if place < self.entries.len() {
            assert(self@[place as int] == entry_of(self.entries@[place as int]));
            Some(&self.entries[place].value)
        } else {
            None
        }
    }

    /// Whether there is a value under the given key.
    pub fn contains_key(&self, key: &str) -> (result: bool)
        ensures
            result == (lookup(self@, key@) is Some),
    {
        self.find(key) < self.entries.len()
    }

    /// Sets the value under the given key.
    pub fn set(&mut self, key: &str, value: Variant)
        ensures
            final(self)@ == with_entry(old(self)@, key@, value@),
    {
        let place: usize = self.find(key);
        let entry = DictEntry { key: Some(key.to_owned()), value };
        assert(entry_of(entry) == Entry { key: Some(key@), value: value@ });
        if place < self.entries.len() {
            self.entries.set(place, entry);
        } else {
            self.entries.push(entry);
        }
        assert(self@ =~= with_entry(old(self)@, key@, value@));
    }

    /// A dictionary with the same contents.
    pub fn duplicate(&self) -> (copy: Dictionary)
        ensures
            copy@ == self@,
        decreases self,
    {
        let mut entries: Vec<DictEntry> = Vec::new();
        let mut i: usize = 0;
        while i < self.entries.len()
            invariant
                i <= self.entries@.len(),
                entries@.len() == i,
                forall|j: int|
                    0 <= j < i ==> entry_of(#[trigger] entries@[j]) == entry_of(self.entries@[j]),
            decreases self.entries@.len() - i,
        {
            let key: Option<String> = match &self.entries[i].key {
                Some(key) => Some(key.clone()),
                None => None,
            };
            let value: Variant = self.entries[i].value.duplicate();
            entries.push(DictEntry { key, value });
            i = i + 1;
        }
        let copy = Dictionary { entries };
        assert(copy@ =~= self@);
        copy
    }
}

/// A list of the same texts.
pub fn duplicate_texts(list: &Vec<String>) -> (copy: Vec<String>)
    ensures
        texts(copy@) == texts(list@),
{
    let mut copy: Vec<String> = Vec::new();
    let mut i: usize = 0;
    while i < list.len()
        invariant
            i <= list@.len(),
            copy@.len() == i,
            forall|j: int| 0 <= j < i ==> (#[trigger] copy@[j])@ == list@[j]@,
        decreases list@.len() - i,
    {
        copy.push(list[i].clone());
        i = i + 1;
    }
    assert(texts(copy@) =~= texts(list@));
    copy
}

/// A list of the same values.
fn duplicate_values(items: &Vec<Variant>) -> (copies: Vec<Variant>)
    ensures
        values_of(copies@) == values_of(items@),
    decreases items,
{
    let mut copies: Vec<Variant> = Vec::new();
    let mut i: usize = 0;
    while i < items.len()
        invariant
            i <= items@.len(),
            copies@.len() == i,
            forall|j: int|
                0 <= j < i ==> value_of(#[trigger] copies@[j]) == value_of(items@[j]),
        decreases items@.len() - i,
    {
        copies.push(items[i].duplicate());
        i = i + 1;
    }
    assert(values_of(copies@) =~= values_of(items@));
    copies
}

impl Variant {
    /// A value with the same contents.
    pub fn duplicate(&self) -> (copy: Variant)
        ensures
            copy@ == self@,
        decreases self,
    {
        match self {
            Variant::Nil => Variant::Nil,
            Variant::Bool(flag) => Variant::Bool(*flag),
            Variant::Int(number) => Variant::Int(*number),
            Variant::Float(number) => Variant::Float(*number),
            Variant::Text(text) => Variant::Text(text.clone()),
            Variant::TextList(list) => Variant::TextList(duplicate_texts(list)),
            Variant::List(items) => Variant::List(duplicate_values(items)),
            Variant::Dict(dict) => Variant::Dict(dict.duplicate()),
            Variant::Bounds(bounds) => Variant::Bounds(*bounds),
            Variant::Other => Variant::Other,
        }
    }
}

/// The integer that a value is: an integer in the range of 32 bits, or a number that is one.
pub open spec fn int_of(value: Value) -> Option<i32> {
    match value {
        Value::Int(number) => if i32::MIN <= number <= i32::MAX {
            Some(number as i32)
        } else {
            None
        },
        Value::Float(number) => exact_int(number.bits),
        _ => None,
    }
}

/// The list under a key.
pub open spec fn list_under(entries: Seq<Entry>, key: Seq<char>) -> Option<Seq<Value>> {
    match lookup(entries, key) {
        Some(Value::List(items)) => Some(items),
        _ => None,
    }
}

/// The dictionary under a key.
pub open spec fn dict_under(entries: Seq<Entry>, key: Seq<char>) -> Option<Seq<Entry>> {
    match lookup(entries, key) {
        Some(Value::Dict(inner)) => Some(inner),
        _ => None,
    }
}

/// The text under a key.
pub open spec fn text_under(entries: Seq<Entry>, key: Seq<char>) -> Option<Seq<char>> {
    match lookup(entries, key) {
        Some(Value::Text(text)) => Some(text),
        _ => None,
    }
}

/// The texts under a key.
pub open spec fn texts_under(entries: Seq<Entry>, key: Seq<char>) -> Option<Seq<Seq<char>>> {
    match lookup(entries, key) {
        Some(Value::TextList(list)) => Some(list),
        _ => None,
    }
}

/// The truth value under a key.
pub open spec fn bool_under(entries: Seq<Entry>, key: Seq<char>) -> Option<bool> {
    match lookup(entries, key) {
        Some(Value::Bool(flag)) => Some(flag),
        _ => None,
    }
}

/// The integer under a key.
pub open spec fn int_under(entries: Seq<Entry>, key: Seq<char>) -> Option<i32> {
    match lookup(entries, key) {
        Some(value) => int_of(value),
        None => None,
    }
}

/// The value that a single-precision number is.
pub open spec fn single_value(number: F32) -> Value {
    Value::Float(Double { bits: widened(number), single: number })
}

/// The value that a single-precision number is.
pub fn single_variant(number: F32) -> (variant: Variant)
    ensures
        variant@ == single_value(number),
{
    Variant::Float(Double { bits: widen(number), single: number })
}

/// The text that an optional string holds.
pub open spec fn optional_text(text: Option<String>) -> Option<Seq<char>> {
    match text {
        Some(text) => Some(text@),
        None => None,
    }
}

/// The integer that a value is.
pub fn variant_to_i32(variant: &Variant) -> (result: Option<i32>)
    ensures
        result == int_of(variant@),
{
    match variant {
        Variant::Int(number) => if *number >= i32::MIN as i64 && *number <= i32::MAX as i64 {
            Some(*number as i32)
        } else {
            None
        },
        Variant::Float(number) => exact_i32(number.bits),
        _ => None,
    }
}

/// The list under a key.
pub fn dict_array<'a>(dict: &'a Dictionary, key: &str) -> (list: Option<&'a Vec<Variant>>)
    ensures
        match list {
            Some(items) => list_under(dict@, key@) == Some(values_of(items@)),
            None => list_under(dict@, key@) == None::<Seq<Value>>,
        },
{
    match dict.get(key) {
        Some(Variant::List(items)) => Some(items),
        _ => None,
    }
}

/// The dictionary under a key.
pub fn dict_dictionary<'a>(dict: &'a Dictionary, key: &str) -> (inner: Option<&'a Dictionary>)
    ensures
        match inner {
            Some(inner) => dict_under(dict@, key@) == Some(inner@),
            None => dict_under(dict@, key@) == None::<Seq<Entry>>,
        },
{
    match dict.get(key) {
        Some(Variant::Dict(inner)) => Some(inner),
        _ => None,
    }
}

/// The text under a key.
pub fn dict_string(dict: &Dictionary, key: &str) -> (text: Option<String>)
    ensures
        optional_text(text) == text_under(dict@, key@),
{
    match dict.get(key) {
        Some(Variant::Text(text)) => Some(text.clone()),
        _ => None,
    }
}

/// The texts under a key.
pub fn dict_strings(dict: &Dictionary, key: &str) -> (list: Option<Vec<String>>)
    ensures
        match list {
            Some(list) => texts_under(dict@, key@) == Some(texts(list@)),
            None => texts_under(dict@, key@) == None::<Seq<Seq<char>>>,
        },
{
    match dict.get(key) {
        Some(Variant::TextList(list)) => Some(duplicate_texts(list)),
        _ => None,
    }
}

/// The integer under a key.
pub fn dict_i32(dict: &Dictionary, key: &str) -> (number: Option<i32>)
    ensures
        number == int_under(dict@, key@),
{
    match dict.get(key) {
        Some(variant) => variant_to_i32(variant),
        None => None,
    }
}

/// The truth value under a key.
pub fn dict_bool(dict: &Dictionary, key: &str) -> (flag: Option<bool>)
    ensures
        flag == bool_under(dict@, key@),
{
    match dict.get(key) {
        Some(Variant::Bool(flag)) => Some(*flag),
        _ => None,
    }
}

} // verus!
