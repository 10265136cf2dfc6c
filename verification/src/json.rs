//! JSON values.
use vstd::prelude::*;

use crate::text::{opt_str, opt_text, same_text, texts};

verus! {

/// A JSON number.
#[derive(Clone, Debug, PartialEq, Eq)]
pub enum JsonNumber {
    /// A whole number from zero up.
    Unsigned(u64),
    /// A whole number below zero.
    Negative(i64),
    /// Any other number, as it is written.
    Other(String),
}

/// A JSON value. An object holds its entries in the order of their keys, each
/// key once.
#[derive(Debug, PartialEq, Eq)]
pub enum Json {
    Null,
    Bool(bool),
    Number(JsonNumber),
    Text(String),
    List(Vec<Json>),
    Object(Vec<(String, Json)>),
}

/// The mathematical value of a [`Json`].
#[verifier::ext_equal]
pub enum JsonView {
    Null,
    Bool(bool),
    Unsigned(u64),
    Negative(i64),
    Other(Seq<char>),
    Text(Seq<char>),
    List(Seq<JsonView>),
    Object(Seq<(Seq<char>, JsonView)>),
}

/// The mathematical value of a JSON value.
pub open spec fn json_view(value: Json) -> JsonView
    decreases value,
{
    match value {
        Json::Null => JsonView::Null,
        Json::Bool(b) => JsonView::Bool(b),
        Json::Number(JsonNumber::Unsigned(n)) => JsonView::Unsigned(n),
        Json::Number(JsonNumber::Negative(n)) => JsonView::Negative(n),
        Json::Number(JsonNumber::Other(text)) => JsonView::Other(text@),
        Json::Text(text) => JsonView::Text(text@),
        Json::List(items) => JsonView::List(json_views(items@)),
        Json::Object(entries) => JsonView::Object(entry_views(entries@)),
    }
}

/// The mathematical values of some JSON values.
pub open spec fn json_views(items: Seq<Json>) -> Seq<JsonView>
    decreases items,
{
    if items.len() == 0 {
        Seq::empty()
    } else {
        json_views(items.drop_last()).push(json_view(items.last()))
    }
}

/// The mathematical values of an object's entries.
pub open spec fn entry_views(entries: Seq<(String, Json)>) -> Seq<(Seq<char>, JsonView)>
    decreases entries,
{
    if entries.len() == 0 {
        Seq::empty()
    } else {
        entry_views(entries.drop_last()).push((entries.last().0@, json_view(entries.last().1)))
    }
}

impl View for Json {
    type V = JsonView;

    open spec fn view(&self) -> JsonView {
        json_view(*self)
    }
}

/// Each item of a list has its own mathematical value.
pub broadcast proof fn lemma_json_views(items: Seq<Json>)
    ensures
        #[trigger] json_views(items).len() == items.len(),
        forall|i: int| 0 <= i < items.len() ==> #[trigger] json_views(items)[i] == items[i]@,
    decreases items.len(),
{
    if items.len() > 0 {
        lemma_json_views(items.drop_last());
    }
}

/// Each entry of an object has its own mathematical value.
pub broadcast proof fn lemma_entry_views(entries: Seq<(String, Json)>)
    ensures
        #[trigger] entry_views(entries).len() == entries.len(),
        forall|i: int|
            0 <= i < entries.len() ==> #[trigger] entry_views(entries)[i] == (
                entries[i].0@,
                entries[i].1@,
            ),
    decreases entries.len(),
{
    if entries.len() > 0 {
        lemma_entry_views(entries.drop_last());
    }
}

/// The value of the first entry with a key.
pub open spec fn entry(entries: Seq<(Seq<char>, JsonView)>, key: Seq<char>) -> Option<JsonView>
    decreases entries.len(),
{
    if entries.len() == 0 {
        None
    } else if entries[0].0 == key {
        Some(entries[0].1)
    } else {
        entry(entries.skip(1), key)
    }
}

impl JsonView {
    /// What an object holds under a key. Nothing where it has no such key, and
    /// nothing in a value that is no object.
    pub open spec fn get(self, key: Seq<char>) -> Option<JsonView> {
        match self {
            JsonView::Object(entries) => entry(entries, key),
            _ => None,
        }
    }

    /// What an object holds under a key, `Null` where it holds nothing there.
    pub open spec fn field(self, key: Seq<char>) -> JsonView {
        match self.get(key) {
            Some(value) => value,
            None => JsonView::Null,
        }
    }

    /// The text of a text value.
    pub open spec fn text(self) -> Option<Seq<char>> {
        match self {
            JsonView::Text(text) => Some(text),
            _ => None,
        }
    }

    /// The truth value of a boolean.
    pub open spec fn truth(self) -> Option<bool> {
        match self {
            JsonView::Bool(b) => Some(b),
            _ => None,
        }
    }

    /// The number of a whole number from zero up.
    pub open spec fn unsigned(self) -> Option<u64> {
        match self {
            JsonView::Unsigned(n) => Some(n),
            _ => None,
        }
    }

    /// The items of a list.
    pub open spec fn items(self) -> Option<Seq<JsonView>> {
        match self {
            JsonView::List(items) => Some(items),
            _ => None,
        }
    }

    /// How many items a list holds; none where the value is no list.
    pub open spec fn count(self) -> nat {
        match self {
            JsonView::List(items) => items.len(),
            _ => 0,
        }
    }
}

impl Json {
    /// A copy of the value.
    pub fn copy(&self) -> (out: Json)
        ensures
            out@ == self@,
        decreases self,
    {
        broadcast use {lemma_json_views, lemma_entry_views};

        match self {
            Json::Null => Json::Null,
            Json::Bool(b) => Json::Bool(*b),
            Json::Number(JsonNumber::Unsigned(n)) => Json::Number(JsonNumber::Unsigned(*n)),
            Json::Number(JsonNumber::Negative(n)) => Json::Number(JsonNumber::Negative(*n)),
            Json::Number(JsonNumber::Other(text)) => Json::Number(JsonNumber::Other(text.clone())),
            Json::Text(text) => Json::Text(text.clone()),
            Json::List(items) => {
                let mut out: Vec<Json> = Vec::new();
                let mut at: usize = 0;
                while at < items.len()
                    invariant
                        at == out.len(),
                        at <= items.len(),
                        decreases_to!(self => items@),
                        forall|i: int| 0 <= i < at ==> (#[trigger] out@[i])@ == items@[i]@,
                    decreases items.len() - at,
                {
                    out.push(items[at].copy());
                    at += 1;
                }
                assert(json_views(out@) =~= json_views(items@));
                Json::List(out)
            },
            Json::Object(entries) => {
                let mut out: Vec<(String, Json)> = Vec::new();
                let mut at: usize = 0;
                while at < entries.len()
                    invariant
                        at == out.len(),
                        at <= entries.len(),
                        decreases_to!(self => entries@),
                        forall|i: int|
                            0 <= i < at ==> (#[trigger] out@[i]).0@ == entries@[i].0@
                                && out@[i].1@ == entries@[i].1@,
                    decreases entries.len() - at,
                {
                    let key = entries[at].0.clone();
                    let value = entries[at].1.copy();
                    out.push((key, value));
                    at += 1;
                }
                assert(entry_views(out@) =~= entry_views(entries@));
                Json::Object(out)
            },
        }
    }

    /// What an object holds under a key.
    pub fn get(&self, key: &str) -> (found: Option<&Json>)
        ensures
            match found {
                Some(value) => self@.get(key@) == Some(value@),
                None => self@.get(key@) is None,
            },
            found matches Some(value) ==> decreases_to!(self => value),
    {
        broadcast use lemma_entry_views;

        match self {
            Json::Object(entries) => {
                let mut at: usize = 0;
                assert(entry_views(entries@).skip(0) =~= entry_views(entries@));
                while at < entries.len()
                    invariant
                        at <= entries.len(),
                        entry(entry_views(entries@), key@) == entry(
                            entry_views(entries@).skip(at as int),
                            key@,
                        ),
                        self@ == JsonView::Object(entry_views(entries@)),
                        decreases_to!(self => entries@),
                    decreases entries.len() - at,
                {
                    proof {
                        lemma_entry_views(entries@);
                    }
                    assert(entry_views(entries@).skip(at as int)[0] == entry_views(entries@)[at as int]);
                    if same_text(entries[at].0.as_str(), key) {
                        assert(decreases_to!(entries@ => entries@[at as int]));
                        assert(decreases_to!(entries@[at as int] => entries@[at as int].1));
                        return Some(&entries[at].1);
                    }
                    assert(entry_views(entries@).skip(at as int).skip(1) =~= entry_views(entries@).skip(
                        at + 1,
                    ));
                    at += 1;
                }
                None
            },
            _ => None,
        }
    }

    /// The text that an object holds under a key.
    pub fn get_text(&self, key: &str) -> (found: Option<&str>)
        ensures
            opt_str(found) == self@.field(key@).text(),
    {
        match self.get(key) {
            Some(value) => value.as_text(),
            None => None,
        }
    }

    /// How many items a list holds that stands under a key of an object.
    pub fn count_at(&self, key: &str) -> (count: usize)
        ensures
            count == self@.field(key@).count(),
    {
        match self.get(key) {
            Some(Json::List(items)) => {
                proof {
                    lemma_json_views(items@);
                }
                items.len()
            },
            _ => 0,
        }
    }

    /// The text of a text value.
    pub fn as_text(&self) -> (text: Option<&str>)
        ensures
            opt_str(text) == self@.text(),
    {
        match self {
            Json::Text(text) => Some(text.as_str()),
            _ => None,
        }
    }

    /// The truth value of a boolean.
    pub fn as_bool(&self) -> (truth: Option<bool>)
        ensures
            truth == self@.truth(),
    {
        match self {
            Json::Bool(b) => Some(*b),
            _ => None,
        }
    }

    /// The number of a whole number from zero up.
    pub fn as_u64(&self) -> (number: Option<u64>)
        ensures
            number == self@.unsigned(),
    {
        match self {
            Json::Number(JsonNumber::Unsigned(n)) => Some(*n),
            _ => None,
        }
    }
}

impl Clone for Json {
    fn clone(&self) -> (out: Json)
        ensures
            out@ == self@,
    {
        self.copy()
    }
}

/// A JSON text value.
pub fn text_value(text: &str) -> (value: Json)
    ensures
        value@ == JsonView::Text(text@),
{
    Json::Text(text.to_owned())
}

/// A JSON truth value.
pub fn bool_value(truth: bool) -> (value: Json)
    ensures
        value@ == JsonView::Bool(truth),
{
    Json::Bool(truth)
}

/// A JSON list of texts.
pub open spec fn text_list(list: Seq<Seq<char>>) -> JsonView {
    JsonView::List(Seq::new(list.len(), |i: int| JsonView::Text(list[i])))
}

/// A JSON list of texts.
pub fn text_list_value(list: &Vec<String>) -> (value: Json)
    ensures
        value@ == text_list(texts(list@)),
{
    let mut items: Vec<Json> = Vec::new();
    let mut at: usize = 0;
    while at < list.len()
        invariant
            at == items.len(),
            at <= list.len(),
            forall|i: int| 0 <= i < at ==> (#[trigger] items@[i])@ == JsonView::Text(list@[i]@),
        decreases list.len() - at,
    {
        items.push(text_value(list[at].as_str()));
        at += 1;
    }
    proof {
        lemma_json_views(items@);
        assert(json_views(items@) =~= text_list(texts(list@))->List_0);
    }
    Json::List(items)
}

/// A JSON whole number.
pub fn number_value(n: u64) -> (value: Json)
    ensures
        value@ == JsonView::Unsigned(n),
{
    Json::Number(JsonNumber::Unsigned(n))
}

/// A whole number as JSON.
pub open spec fn signed_json(n: i64) -> JsonView {
    if n < 0 {
        JsonView::Negative(n)
    } else {
        JsonView::Unsigned(n as u64)
    }
}

/// A whole number as JSON.
pub fn signed_value(n: i64) -> (value: Json)
    ensures
        value@ == signed_json(n),
{
    if n < 0 {
        Json::Number(JsonNumber::Negative(n))
    } else {
        Json::Number(JsonNumber::Unsigned(n as u64))
    }
}

/// A JSON text, or `Null` where there is none.
pub open spec fn optional_text(text: Option<Seq<char>>) -> JsonView {
    match text {
        Some(text) => JsonView::Text(text),
        None => JsonView::Null,
    }
}

/// A JSON text, or `Null` where there is none.
pub fn optional_text_value(text: &Option<String>) -> (value: Json)
    ensures
        value@ == optional_text(opt_text(*text)),
{
    match text {
        Some(text) => Json::Text(text.clone()),
        None => Json::Null,
    }
}

/// An empty object.
pub open spec fn no_entries() -> Seq<(Seq<char>, JsonView)> {
    Seq::empty()
}

/// The entries of a JSON object that is being put together.
pub struct Entries {
    entries: Vec<(String, Json)>,
}

impl View for Entries {
    type V = Seq<(Seq<char>, JsonView)>;

    closed spec fn view(&self) -> Seq<(Seq<char>, JsonView)> {
        entry_views(self.entries@)
    }
}

impl Entries {
    /// No entries yet.
    pub fn new() -> (out: Entries)
        ensures
            out@ == no_entries(),
    {
        Entries { entries: Vec::new() }
    }

    /// The entries so far and one more.
    pub fn with(self, key: &str, value: Json) -> (out: Entries)
        ensures
            out@ == self@.push((key@, value@)),
    {
        let ghost before = self.entries@;
        let mut entries = self.entries;
        entries.push((key.to_owned(), value));
        assert(entries@.drop_last() =~= before);
        Entries { entries }
    }

    /// The entries so far and a text.
    pub fn with_text(self, key: &str, text: &str) -> (out: Entries)
        ensures
            out@ == self@.push((key@, JsonView::Text(text@))),
    {
        self.with(key, text_value(text))
    }

    /// The entries so far and a truth value.
    pub fn with_bool(self, key: &str, truth: bool) -> (out: Entries)
        ensures
            out@ == self@.push((key@, JsonView::Bool(truth))),
    {
        self.with(key, bool_value(truth))
    }

    /// The entries so far and a whole number.
    pub fn with_number(self, key: &str, n: u64) -> (out: Entries)
        ensures
            out@ == self@.push((key@, JsonView::Unsigned(n))),
    {
        self.with(key, number_value(n))
    }

    /// The object that holds the entries.
    pub fn object(self) -> (out: Json)
        ensures
            out@ == JsonView::Object(self@),
    {
        Json::Object(self.entries)
    }
}

/// Under a key an object holds the value of the first of its entries with that key.
pub proof fn law_objects_give_the_first_entry_of_a_key(
    entries: Seq<(Seq<char>, JsonView)>,
    key: Seq<char>,
    k: int,
)
    requires
        0 <= k < entries.len(),
        entries[k].0 == key,
        forall|j: int| 0 <= j < k ==> (#[trigger] entries[j]).0 != key,
    ensures
        entry(entries, key) == Some(entries[k].1),
        JsonView::Object(entries).get(key) == Some(entries[k].1),
        JsonView::Object(entries).field(key) == entries[k].1,
    decreases entries.len(),
{
    if k > 0 {
        let rest = entries.skip(1);
        assert(entries[0].0 != key);
        assert forall|j: int| 0 <= j < k - 1 implies (#[trigger] rest[j]).0 != key by {
            assert(entries[j + 1].0 != key);
        }
        law_objects_give_the_first_entry_of_a_key(rest, key, k - 1);
    }
}

/// Nothing stands under a key that no entry has, and nothing in a value that is no object.
pub proof fn law_nothing_stands_under_a_missing_key(value: JsonView, key: Seq<char>)
    requires
        value matches JsonView::Object(entries) ==> forall|j: int|
            0 <= j < entries.len() ==> (#[trigger] entries[j]).0 != key,
    ensures
        value.get(key) is None,
        value.field(key) == JsonView::Null,
{
    if let JsonView::Object(entries) = value {
        lemma_no_entry(entries, key);
    }
}

proof fn lemma_no_entry(entries: Seq<(Seq<char>, JsonView)>, key: Seq<char>)
    requires
        forall|j: int| 0 <= j < entries.len() ==> (#[trigger] entries[j]).0 != key,
    ensures
        entry(entries, key) is None,
    decreases entries.len(),
{
    if entries.len() > 0 {
        let rest = entries.skip(1);
        assert(entries[0].0 != key);
        assert forall|j: int| 0 <= j < rest.len() implies (#[trigger] rest[j]).0 != key by {
            assert(entries[j + 1].0 != key);
        }
        lemma_no_entry(rest, key);
    }
}

/// An object has a key exactly where one of its entries has it.
pub proof fn law_object_has_the_keys_of_its_entries(
    entries: Seq<(Seq<char>, JsonView)>,
    key: Seq<char>,
)
    ensures
        JsonView::Object(entries).get(key) is Some <==> exists|k: int|
            0 <= k < entries.len() && (#[trigger] entries[k]).0 == key,
        entry(entries, key) == JsonView::Object(entries).get(key),
    decreases entries.len(),
{
    let value = JsonView::Object(entries);
    if exists|k: int| 0 <= k < entries.len() && (#[trigger] entries[k]).0 == key {
        if entries[0].0 != key {
            let k = choose|k: int| 0 <= k < entries.len() && (#[trigger] entries[k]).0 == key;
            let rest = entries.skip(1);
            assert(rest[k - 1].0 == key);
            law_object_has_the_keys_of_its_entries(rest, key);
            assert(JsonView::Object(rest).get(key) is Some);
        }
    } else {
        assert forall|j: int| 0 <= j < entries.len() implies (#[trigger] entries[j]).0 != key by {}
        lemma_no_entry(entries, key);
    }
}

/// A value is read as a text, a truth value, a number or a list exactly where it is one.
pub proof fn law_values_are_read_as_what_they_are(
    value: JsonView,
    text: Seq<char>,
    truth: bool,
    number: u64,
    items: Seq<JsonView>,
)
    ensures
        value.text() == Some(text) <==> value == JsonView::Text(text),
        value.truth() == Some(truth) <==> value == JsonView::Bool(truth),
        value.unsigned() == Some(number) <==> value == JsonView::Unsigned(number),
        value.items() == Some(items) <==> value == JsonView::List(items),
        value == JsonView::List(items) ==> value.count() == items.len(),
        !(value is List) ==> value.count() == 0,
{
}

/// A number below zero is a negative one and any other an unsigned one, of the same value; a
/// list of texts holds each of them; a text that is missing is nothing.
pub proof fn law_values_stand_for_what_they_are_made_of(
    n: i64,
    list: Seq<Seq<char>>,
    i: int,
    text: Seq<char>,
)
    ensures
        n < 0 ==> signed_json(n) == JsonView::Negative(n),
        n >= 0 ==> (signed_json(n) matches JsonView::Unsigned(m) && m == n),
        text_list(list) matches JsonView::List(items) && items.len() == list.len() && (0 <= i
            < list.len() ==> items[i] == JsonView::Text(list[i])),
        optional_text(Some(text)) == JsonView::Text(text),
        optional_text(None) == JsonView::Null,
{
}

} // verus!
