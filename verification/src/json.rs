//! JSON values: what they stand for, how they are read and built, and their
//! passage to and from text.
//!
//! [`Json`] holds a value as plain data, and all logic of the crate works on
//! it. Text and bytes are parsed and printed by `serde_json`; [`ValueParts`]
//! is where its value type and this one meet.
use crate::text::{opt_str, same_text, texts};
use vstd::prelude::*;

verus! {

// ---------------------------------------------------------------------------
// The model
// ---------------------------------------------------------------------------
/// What a JSON number stands for: an integer, or a number that is none, as
/// `serde_json` holds it.
pub enum NumberModel {
    Integer(int),
    Float(serde_json::Number),
}

/// What a JSON value stands for. An object is a map: the order of its entries
/// does not matter.
pub enum JsonModel {
    Null,
    Bool(bool),
    Number(NumberModel),
    Text(Seq<char>),
    Array(Seq<JsonModel>),
    Object(Map<Seq<char>, JsonModel>),
}

/// A JSON number.
#[derive(Debug)]
pub enum JsonNumber {
    Unsigned(u64),
    Signed(i64),
    Float(serde_json::Number),
}

/// A JSON value.
#[derive(Debug)]
pub enum Json {
    Null,
    Bool(bool),
    Number(JsonNumber),
    Text(String),
    Array(Vec<Json>),
    Object(JsonObject),
}

/// The entries of a JSON object. Where a key occurs twice, the later entry
/// counts.
#[derive(Debug)]
pub struct JsonObject {
    pub entries: Vec<(String, Json)>,
}

impl View for JsonNumber {
    type V = NumberModel;

    open spec fn view(&self) -> NumberModel {
        match *self {
            JsonNumber::Unsigned(u) => NumberModel::Integer(u as int),
            JsonNumber::Signed(i) => NumberModel::Integer(i as int),
            JsonNumber::Float(n) => number_content(n),
        }
    }
}

/// What `json` stands for.
pub open spec fn json_model(json: Json) -> JsonModel
    decreases json,
{
    match json {
        Json::Null => JsonModel::Null,
        Json::Bool(b) => JsonModel::Bool(b),
        Json::Number(n) => JsonModel::Number(n@),
        Json::Text(s) => JsonModel::Text(s@),
        Json::Array(items) => JsonModel::Array(items_model(items@)),
        Json::Object(object) => JsonModel::Object(entries_model(object.entries@)),
    }
}

/// What each of `items` stands for.
pub open spec fn items_model(items: Seq<Json>) -> Seq<JsonModel>
    decreases items,
{
    Seq::new(
        items.len(),
        |i: int|
            if 0 <= i < items.len() {
                json_model(items[i])
            } else {
                JsonModel::Null
            },
    )
}

/// The map that `entries` spell, the later ones over the earlier ones.
pub open spec fn entries_model(entries: Seq<(String, Json)>) -> Map<Seq<char>, JsonModel>
    decreases entries,
{
    if entries.len() == 0 {
        Map::empty()
    } else {
        entries_model(entries.drop_last()).insert(entries.last().0@, json_model(entries.last().1))
    }
}

impl View for Json {
    type V = JsonModel;

    open spec fn view(&self) -> JsonModel {
        json_model(*self)
    }
}

impl View for JsonObject {
    type V = Map<Seq<char>, JsonModel>;

    open spec fn view(&self) -> Map<Seq<char>, JsonModel> {
        entries_model(self.entries@)
    }
}

/// `n` as an unsigned integer of 64 bits, where it is one.
pub open spec fn number_as_u64(n: NumberModel) -> Option<u64> {
    match n {
        NumberModel::Integer(i) if 0 <= i <= u64::MAX => Some(i as u64),
        _ => None,
    }
}

/// `n` as a signed integer of 64 bits, where it is one.
pub open spec fn number_as_i64(n: NumberModel) -> Option<i64> {
    match n {
        NumberModel::Integer(i) if i64::MIN <= i <= i64::MAX => Some(i as i64),
        _ => None,
    }
}

/// The value of the field `key`, where `json` is an object that has it.
pub open spec fn field(json: JsonModel, key: Seq<char>) -> Option<JsonModel> {
    match json {
        JsonModel::Object(map) if map.contains_key(key) => Some(map[key]),
        _ => None,
    }
}

/// The value of the field `key`, and null without it.
pub open spec fn field_or_null(json: JsonModel, key: Seq<char>) -> JsonModel {
    match field(json, key) {
        Some(value) => value,
        None => JsonModel::Null,
    }
}

/// The text that `json` is, if it is one.
pub open spec fn text_of(json: JsonModel) -> Option<Seq<char>> {
    match json {
        JsonModel::Text(s) => Some(s),
        _ => None,
    }
}

/// The unsigned integer of 64 bits that `json` is, if it is one.
pub open spec fn u64_of(json: JsonModel) -> Option<u64> {
    match json {
        JsonModel::Number(n) => number_as_u64(n),
        _ => None,
    }
}

/// The signed integer of 64 bits that `json` is, if it is one.
pub open spec fn i64_of(json: JsonModel) -> Option<i64> {
    match json {
        JsonModel::Number(n) => number_as_i64(n),
        _ => None,
    }
}

/// The text in the field `key`, where there is one.
pub open spec fn text_field(json: JsonModel, key: Seq<char>) -> Option<Seq<char>> {
    match field(json, key) {
        Some(value) => text_of(value),
        None => None,
    }
}

/// The unsigned integer in the field `key`, where there is one.
pub open spec fn u64_field(json: JsonModel, key: Seq<char>) -> Option<u64> {
    match field(json, key) {
        Some(value) => u64_of(value),
        None => None,
    }
}

/// The integer `i` as a JSON value.
pub open spec fn integer(i: int) -> JsonModel {
    JsonModel::Number(NumberModel::Integer(i))
}

// ---------------------------------------------------------------------------
// Copying, reading
// ---------------------------------------------------------------------------
impl Clone for Json {
    fn clone(&self) -> (r: Self)
        ensures
            r@ == self@,
        decreases self,
    {
        match self {
            Json::Null => Json::Null,
            Json::Bool(b) => Json::Bool(*b),
            Json::Number(JsonNumber::Unsigned(u)) => Json::Number(JsonNumber::Unsigned(*u)),
            Json::Number(JsonNumber::Signed(i)) => Json::Number(JsonNumber::Signed(*i)),
            Json::Number(JsonNumber::Float(n)) => Json::Number(JsonNumber::Float(n.clone())),
            Json::Text(s) => Json::Text(s.clone()),
            Json::Array(items) => {
                let mut out: Vec<Json> = Vec::new();
                let mut i: usize = 0;
                while i < items.len()
                    invariant
                        self matches Json::Array(v) && v == items,
                        i <= items@.len(),
                        out@.len() == i,
                        forall|j: int| 0 <= j < i ==> json_model(out@[j]) == json_model(items@[j]),
                    decreases items@.len() - i,
                {
                    out.push(items[i].clone());
                    i += 1;
                }
                assert(items_model(out@) =~= items_model(items@));
                Json::Array(out)
            },
            Json::Object(object) => {
                let mut out: Vec<(String, Json)> = Vec::new();
                let mut i: usize = 0;
                while i < object.entries.len()
                    invariant
                        self matches Json::Object(o) && o == object,
                        i <= object.entries@.len(),
                        out@.len() == i,
                        entries_model(out@) == entries_model(object.entries@.take(i as int)),
                    decreases object.entries@.len() - i,
                {
                    let ghost before = out@;
                    out.push((object.entries[i].0.clone(), object.entries[i].1.clone()));
                    assert(out@.drop_last() =~= before);
                    assert(object.entries@.take(i + 1).drop_last() =~= object.entries@.take(
                        i as int,
                    ));
                    i += 1;
                }
                assert(object.entries@.take(i as int) =~= object.entries@);
                Json::Object(JsonObject { entries: out })
            },
        }
    }
}

impl Clone for JsonObject {
    fn clone(&self) -> (r: Self)
        ensures
            r@ == self@,
    {
        let mut out: Vec<(String, Json)> = Vec::new();
        let mut i: usize = 0;
        while i < self.entries.len()
            invariant
                i <= self.entries@.len(),
                out@.len() == i,
                entries_model(out@) == entries_model(self.entries@.take(i as int)),
            decreases self.entries@.len() - i,
        {
            let ghost before = out@;
            out.push((self.entries[i].0.clone(), self.entries[i].1.clone()));
            assert(out@.drop_last() =~= before);
            assert(self.entries@.take(i + 1).drop_last() =~= self.entries@.take(i as int));
            i += 1;
        }
        assert(self.entries@.take(i as int) =~= self.entries@);
        JsonObject { entries: out }
    }
}

/// A copy of `values`.
pub fn copy_values(values: &Vec<Json>) -> (r: Vec<Json>)
    ensures
        items_model(r@) == items_model(values@),
{
    let mut out: Vec<Json> = Vec::new();
    let mut i: usize = 0;
    while i < values.len()
        invariant
            i <= values@.len(),
            out@.len() == i,
            forall|j: int| 0 <= j < i ==> json_model(out@[j]) == json_model(values@[j]),
        decreases values@.len() - i,
    {
        out.push(values[i].clone());
        i += 1;
    }
    assert(items_model(out@) =~= items_model(values@));
    out
}

impl Json {
    /// The text `s` as a JSON value.
    pub fn text(s: &str) -> (r: Json)
        ensures
            r@ == JsonModel::Text(s@),
    {
        Json::Text(s.to_string())
    }

    /// The number `u` as a JSON value.
    pub fn unsigned(u: u64) -> (r: Json)
        ensures
            r@ == integer(u as int),
    {
        Json::Number(JsonNumber::Unsigned(u))
    }

    pub fn is_null(&self) -> (r: bool)
        ensures
            r == (self@ is Null),
    {
        match self {
            Json::Null => true,
            _ => false,
        }
    }

    pub fn is_text(&self) -> (r: bool)
        ensures
            r == (self@ is Text),
    {
        match self {
            Json::Text(_) => true,
            _ => false,
        }
    }

    pub fn is_boolean(&self) -> (r: bool)
        ensures
            r == (self@ is Bool),
    {
        match self {
            Json::Bool(_) => true,
            _ => false,
        }
    }

    pub fn is_number(&self) -> (r: bool)
        ensures
            r == (self@ is Number),
    {
        match self {
            Json::Number(_) => true,
            _ => false,
        }
    }

    /// The text that the value is, if it is one.
    pub fn as_str(&self) -> (r: Option<&str>)
        ensures
            opt_str(r) == text_of(self@),
    {
        match self {
            Json::Text(s) => Some(s.as_str()),
            _ => None,
        }
    }

    /// The unsigned integer of 64 bits that the value is, if it is one.
    pub fn as_u64(&self) -> (r: Option<u64>)
        ensures
            r == u64_of(self@),
    {
        match self {
            Json::Number(JsonNumber::Unsigned(u)) => Some(*u),
            Json::Number(JsonNumber::Signed(i)) => if *i >= 0 {
                Some(*i as u64)
            } else {
                None
            },
            Json::Number(JsonNumber::Float(n)) => n.as_u64(),
            _ => None,
        }
    }

    /// The signed integer of 64 bits that the value is, if it is one.
    pub fn as_i64(&self) -> (r: Option<i64>)
        ensures
            r == i64_of(self@),
    {
        match self {
            Json::Number(JsonNumber::Unsigned(u)) => if *u <= i64::MAX as u64 {
                Some(*u as i64)
            } else {
                None
            },
            Json::Number(JsonNumber::Signed(i)) => Some(*i),
            Json::Number(JsonNumber::Float(n)) => n.as_i64(),
            _ => None,
        }
    }

    /// The items of the value, if it is an array.
    pub fn as_array(&self) -> (r: Option<&Vec<Json>>)
        ensures
            match r {
                Some(items) => self@ == JsonModel::Array(items_model(items@)),
                None => !(self@ is Array),
            },
    {
        match self {
            Json::Array(items) => Some(items),
            _ => None,
        }
    }

    /// The entries of the value, if it is an object.
    pub fn as_object(&self) -> (r: Option<&JsonObject>)
        ensures
            match r {
                Some(object) => self@ == JsonModel::Object(object@),
                None => !(self@ is Object),
            },
    {
        match self {
            Json::Object(object) => Some(object),
            _ => None,
        }
    }

    /// The value of the field `key`, where the value is an object that has it.
    pub fn get(&self, key: &str) -> (r: Option<&Json>)
        ensures
            match r {
                Some(value) => field(self@, key@) == Some(value@),
                None => field(self@, key@) is None,
            },
    {
        match self {
            Json::Object(object) => object.get(key),
            _ => None,
        }
    }

    /// A copy of the value of the field `key`, and null without it.
    pub fn get_or_null(&self, key: &str) -> (r: Json)
        ensures
            r@ == field_or_null(self@, key@),
    {
        match self.get(key) {
            Some(value) => value.clone(),
            None => Json::Null,
        }
    }

    /// The text in the field `key`, where there is one.
    pub fn get_str(&self, key: &str) -> (r: Option<&str>)
        ensures
            opt_str(r) == text_field(self@, key@),
    {
        match self.get(key) {
            Some(value) => value.as_str(),
            None => None,
        }
    }

    /// The unsigned integer in the field `key`, where there is one.
    pub fn get_u64(&self, key: &str) -> (r: Option<u64>)
        ensures
            r == u64_field(self@, key@),
    {
        match self.get(key) {
            Some(value) => value.as_u64(),
            None => None,
        }
    }
}

/// The texts in the field `key` of `values`, in order; values without one are
/// left out.
pub open spec fn field_texts(values: Seq<JsonModel>, key: Seq<char>) -> Seq<Seq<char>>
    decreases values.len(),
{
    if values.len() == 0 {
        Seq::empty()
    } else {
        let before = field_texts(values.drop_last(), key);
        match text_field(values.last(), key) {
            Some(text) => before.push(text),
            None => before,
        }
    }
}

/// The texts in the field `key` of `values`, in order.
pub fn collect_field(values: &Vec<Json>, key: &str) -> (r: Vec<String>)
    ensures
        texts(r@) == field_texts(items_model(values@), key@),
{
    let ghost models = items_model(values@);
    let mut out: Vec<String> = Vec::new();
    let mut i: usize = 0;
    assert(models.take(0) =~= Seq::empty());
    assert(texts(out@) =~= Seq::empty());
    while i < values.len()
        invariant
            i <= values@.len(),
            models == items_model(values@),
            texts(out@) == field_texts(models.take(i as int), key@),
        decreases values@.len() - i,
    {
        assert(models.take(i + 1).drop_last() =~= models.take(i as int));
        assert(models.take(i + 1).last() == json_model(values@[i as int]));
        if let Some(text) = values[i].get_str(key) {
            let ghost before = out@;
            out.push(text.to_string());
            assert(texts(out@) =~= texts(before).push(text@));
        }
        i += 1;
    }
    assert(models.take(i as int) =~= models);
    out
}

// ---------------------------------------------------------------------------
// Objects
// ---------------------------------------------------------------------------
/// `i` is the place of the last entry with the key `key`.
spec fn last_entry(entries: Seq<(String, Json)>, key: Seq<char>, i: int) -> bool {
    &&& 0 <= i < entries.len()
    &&& entries[i].0@ == key
    &&& forall|j: int| i < j < entries.len() ==> (#[trigger] entries[j]).0@ != key
}

proof fn lemma_last_entry_counts(entries: Seq<(String, Json)>, key: Seq<char>, i: int)
    requires
        last_entry(entries, key, i),
    ensures
        entries_model(entries).contains_key(key),
        entries_model(entries)[key] == json_model(entries[i].1),
    decreases entries.len(),
{
    if i < entries.len() - 1 {
        assert(entries[entries.len() - 1].0@ != key);
        assert(entries.drop_last()[i] == entries[i]);
        assert forall|j: int| i < j < entries.drop_last().len() implies (
        #[trigger] entries.drop_last()[j]).0@ != key by {
            assert(entries.drop_last()[j] == entries[j]);
        }
        lemma_last_entry_counts(entries.drop_last(), key, i);
    }
}

proof fn lemma_no_entry(entries: Seq<(String, Json)>, key: Seq<char>)
    requires
        forall|j: int| 0 <= j < entries.len() ==> (#[trigger] entries[j]).0@ != key,
    ensures
        !entries_model(entries).contains_key(key),
    decreases entries.len(),
{
    if entries.len() > 0 {
        assert(entries[entries.len() - 1].0@ != key);
        assert forall|j: int| 0 <= j < entries.drop_last().len() implies (
        #[trigger] entries.drop_last()[j]).0@ != key by {
            assert(entries.drop_last()[j] == entries[j]);
        }
        lemma_no_entry(entries.drop_last(), key);
    }
}

proof fn lemma_replace_entry(entries: Seq<(String, Json)>, i: int, entry: (String, Json))
    requires
        last_entry(entries, entry.0@, i),
    ensures
        entries_model(entries.update(i, entry)) == entries_model(entries).insert(
            entry.0@,
            json_model(entry.1),
        ),
    decreases entries.len(),
{
    let updated = entries.update(i, entry);
    if i == entries.len() - 1 {
        assert(updated.drop_last() =~= entries.drop_last());
        assert(entries_model(updated) =~= entries_model(entries).insert(
            entry.0@,
            json_model(entry.1),
        ));
    } else {
        assert(entries[entries.len() - 1].0@ != entry.0@);
        assert(entries.drop_last()[i] == entries[i]);
        assert forall|j: int| i < j < entries.drop_last().len() implies (
        #[trigger] entries.drop_last()[j]).0@ != entry.0@ by {
            assert(entries.drop_last()[j] == entries[j]);
        }
        lemma_replace_entry(entries.drop_last(), i, entry);
        assert(updated.drop_last() =~= entries.drop_last().update(i, entry));
        assert(entries_model(updated) =~= entries_model(entries).insert(
            entry.0@,
            json_model(entry.1),
        ));
    }
}

impl JsonObject {
    /// The object without entries.
    pub fn new() -> (r: JsonObject)
        ensures
            r@ == Map::<Seq<char>, JsonModel>::empty(),
    {
        JsonObject { entries: Vec::new() }
    }

    fn find(&self, key: &str) -> (r: Option<usize>)
        ensures
            match r {
                Some(i) => last_entry(self.entries@, key@, i as int),
                None => forall|j: int|
                    0 <= j < self.entries@.len() ==> (#[trigger] self.entries@[j]).0@ != key@,
            },
    {
        let mut i: usize = self.entries.len();
        while i > 0
            invariant
                i <= self.entries@.len(),
                forall|j: int|
                    i <= j < self.entries@.len() ==> (#[trigger] self.entries@[j]).0@ != key@,
            decreases i,
        {
            i -= 1;
            if same_text(self.entries[i].0.as_str(), key) {
                return Some(i);
            }
        }
        None
    }

    /// The value of `key`, if the object has it.
    pub fn get(&self, key: &str) -> (r: Option<&Json>)
        ensures
            match r {
                Some(value) => self@.contains_key(key@) && self@[key@] == value@,
                None => !self@.contains_key(key@),
            },
    {
        match self.find(key) {
            Some(i) => {
                proof {
                    lemma_last_entry_counts(self.entries@, key@, i as int);
                }
                Some(&self.entries[i].1)
            },
            None => {
                proof {
                    lemma_no_entry(self.entries@, key@);
                }
                None
            },
        }
    }

    /// Whether the object has the key `key`.
    pub fn contains_key(&self, key: &str) -> (r: bool)
        ensures
            r == self@.contains_key(key@),
    {
        self.get(key).is_some()
    }

    /// Gives `key` the value `value`, in place of the one it had.
    pub fn insert(&mut self, key: &str, value: Json)
        ensures
            final(self)@ == old(self)@.insert(key@, value@),
    {
        match self.find(key) {
            Some(i) => {
                let entry = (key.to_string(), value);
                proof {
                    lemma_replace_entry(self.entries@, i as int, entry);
                }
                self.entries.set(i, entry);
            },
            None => {
                let ghost before = self.entries@;
                self.entries.push((key.to_string(), value));
                assert(self.entries@.drop_last() =~= before);
            },
        }
    }

    /// The object with `value` for `key`.
    pub fn with(self, key: &str, value: Json) -> (r: JsonObject)
        ensures
            r@ == self@.insert(key@, value@),
    {
        let mut object = self;
        object.insert(key, value);
        object
    }

    /// Takes over all entries of `other`, in place of those with the same keys.
    pub fn extend(&mut self, other: &JsonObject)
        ensures
            final(self)@ == old(self)@.union_prefer_right(other@),
    {
        let ghost start = self@;
        let mut i: usize = 0;
        assert(self@ =~= start.union_prefer_right(entries_model(other.entries@.take(0))));
        while i < other.entries.len()
            invariant
                i <= other.entries@.len(),
                self@ == start.union_prefer_right(entries_model(other.entries@.take(i as int))),
            decreases other.entries@.len() - i,
        {
            assert(other.entries@.take(i + 1).drop_last() =~= other.entries@.take(i as int));
            self.insert(other.entries[i].0.as_str(), other.entries[i].1.clone());
            assert(self@ =~= start.union_prefer_right(entries_model(other.entries@.take(i + 1))));
            i += 1;
        }
        assert(other.entries@.take(i as int) =~= other.entries@);
    }
}

// ---------------------------------------------------------------------------
// Values of serde_json
// ---------------------------------------------------------------------------
/// `serde_json::Number`, kept as it is where a number is no integer.
#[verifier::external_type_specification]
#[verifier::external_body]
pub struct ExNumber(serde_json::Number);

/// `serde_json::Value`, the tree that its parser builds and its printer reads.
#[verifier::external_type_specification]
#[verifier::external_body]
pub struct ExValue(serde_json::Value);

/// `serde_json::Error`, carried along for its message.
#[verifier::external_type_specification]
#[verifier::external_body]
pub struct ExJsonError(serde_json::Error);

/// The number that a `serde_json::Number` holds.
pub uninterp spec fn number_content(n: serde_json::Number) -> NumberModel;

/// The JSON value that a `serde_json::Value` holds: the contents of the tree.
pub uninterp spec fn value_content(value: serde_json::Value) -> JsonModel;

/// `serde_json::Number::as_u64`: the number, where it is an integer from 0 to
/// `u64::MAX`.
pub assume_specification[ serde_json::Number::as_u64 ](n: &serde_json::Number) -> (r: Option<u64>)
    ensures
        r == number_as_u64(number_content(*n)),
;

/// `serde_json::Number::as_i64`: the number, where it is an integer from
/// `i64::MIN` to `i64::MAX`.
pub assume_specification[ serde_json::Number::as_i64 ](n: &serde_json::Number) -> (r: Option<i64>)
    ensures
        r == number_as_i64(number_content(*n)),
;

/// `Clone` of `serde_json::Number`: the same number.
pub assume_specification[ <serde_json::Number as Clone>::clone ](n: &serde_json::Number) -> (r:
    serde_json::Number)
    ensures
        r == *n,
;

/// `serde_json::Number::from` of an unsigned integer: a number that holds it.
#[verifier::external_body]
fn number_from_u64(u: u64) -> (n: serde_json::Number)
    ensures
        number_content(n) == NumberModel::Integer(u as int),
{
    serde_json::Number::from(u)
}

/// `serde_json::Number::from` of a signed integer: a number that holds it.
#[verifier::external_body]
fn number_from_i64(i: i64) -> (n: serde_json::Number)
    ensures
        number_content(n) == NumberModel::Integer(i as int),
{
    serde_json::Number::from(i)
}

/// The variants of `serde_json::Value`, one for one.
pub enum ValueParts {
    Null,
    Bool(bool),
    Number(serde_json::Number),
    Text(String),
    Array(Vec<serde_json::Value>),
    Object(Vec<(String, serde_json::Value)>),
}

/// What each of `items` holds.
pub open spec fn value_items(items: Seq<serde_json::Value>) -> Seq<JsonModel> {
    items.map_values(|v: serde_json::Value| value_content(v))
}

/// The map that `entries` spell, the later ones over the earlier ones.
pub open spec fn value_entries(entries: Seq<(String, serde_json::Value)>) -> Map<
    Seq<char>,
    JsonModel,
>
    decreases entries.len(),
{
    if entries.len() == 0 {
        Map::empty()
    } else {
        value_entries(entries.drop_last()).insert(
            entries.last().0@,
            value_content(entries.last().1),
        )
    }
}

/// What a value with the parts `parts` holds.
pub open spec fn parts_content(parts: ValueParts) -> JsonModel {
    match parts {
        ValueParts::Null => JsonModel::Null,
        ValueParts::Bool(b) => JsonModel::Bool(b),
        ValueParts::Number(n) => JsonModel::Number(number_content(n)),
        ValueParts::Text(s) => JsonModel::Text(s@),
        ValueParts::Array(items) => JsonModel::Array(value_items(items@)),
        ValueParts::Object(entries) => JsonModel::Object(value_entries(entries@)),
    }
}

/// No two of `entries` have the same key.
pub open spec fn distinct_keys(entries: Seq<(String, serde_json::Value)>) -> bool {
    forall|i: int, j: int| 0 <= i < j < entries.len() ==> entries[i].0@ != entries[j].0@
}

/// The variants of `serde_json::Value` told apart: the parts hold what the
/// value held, and `serde_json::Map` hands out each of its keys once.
#[verifier::external_body]
fn open_value(value: serde_json::Value) -> (parts: ValueParts)
    ensures
        parts_content(parts) == value_content(value),
        parts matches ValueParts::Object(entries) ==> distinct_keys(entries@),
{
    match value {
        serde_json::Value::Null => ValueParts::Null,
        serde_json::Value::Bool(b) => ValueParts::Bool(b),
        serde_json::Value::Number(n) => ValueParts::Number(n),
        serde_json::Value::String(s) => ValueParts::Text(s),
        serde_json::Value::Array(items) => ValueParts::Array(items),
        serde_json::Value::Object(map) => ValueParts::Object(map.into_iter().collect()),
    }
}

/// A `serde_json::Value` put together: it holds what the parts hold. Each key
/// of an object is handed to `serde_json::Map` once.
#[verifier::external_body]
fn close_value(parts: ValueParts) -> (value: serde_json::Value)
    requires
        parts matches ValueParts::Object(entries) ==> distinct_keys(entries@),
    ensures
        value_content(value) == parts_content(parts),
{
    match parts {
        ValueParts::Null => serde_json::Value::Null,
        ValueParts::Bool(b) => serde_json::Value::Bool(b),
        ValueParts::Number(n) => serde_json::Value::Number(n),
        ValueParts::Text(s) => serde_json::Value::String(s),
        ValueParts::Array(items) => serde_json::Value::Array(items),
        ValueParts::Object(entries) => serde_json::Value::Object(entries.into_iter().collect()),
    }
}

proof fn lemma_value_entries_hold(entries: Seq<(String, serde_json::Value)>, i: int)
    requires
        0 <= i < entries.len(),
        distinct_keys(entries),
    ensures
        value_entries(entries).contains_key(entries[i].0@),
        value_entries(entries)[entries[i].0@] == value_content(entries[i].1),
    decreases entries.len(),
{
    if i < entries.len() - 1 {
        lemma_value_entries_hold(entries.drop_last(), i);
        assert(entries.drop_last()[i] == entries[i]);
    }
}

proof fn lemma_replace_value(
    entries: Seq<(String, serde_json::Value)>,
    i: int,
    entry: (String, serde_json::Value),
)
    requires
        0 <= i < entries.len(),
        distinct_keys(entries),
        entries[i].0@ == entry.0@,
    ensures
        distinct_keys(entries.update(i, entry)),
        value_entries(entries.update(i, entry)) == value_entries(entries).insert(
            entry.0@,
            value_content(entry.1),
        ),
    decreases entries.len(),
{
    let updated = entries.update(i, entry);
    if i == entries.len() - 1 {
        assert(updated.drop_last() =~= entries.drop_last());
    } else {
        lemma_replace_value(entries.drop_last(), i, entry);
        assert(updated.drop_last() =~= entries.drop_last().update(i, entry));
        assert(entries.last().0@ != entry.0@);
    }
    assert(value_entries(updated) =~= value_entries(entries).insert(
        entry.0@,
        value_content(entry.1),
    ));
}

/// Adds an entry to `entries`, in place of the one with the same key if there
/// is one.
fn put_entry(
    entries: &mut Vec<(String, serde_json::Value)>,
    key: String,
    value: serde_json::Value,
)
    requires
        distinct_keys(old(entries)@),
    ensures
        distinct_keys(final(entries)@),
        value_entries(final(entries)@) == value_entries(old(entries)@).insert(
            key@,
            value_content(value),
        ),
{
    let ghost before = entries@;
    let mut i: usize = 0;
    while i < entries.len()
        invariant
            i <= entries@.len(),
            entries@ == before,
            before == old(entries)@,
            distinct_keys(before),
            forall|j: int| 0 <= j < i ==> (#[trigger] before[j]).0@ != key@,
        decreases entries@.len() - i,
    {
        if same_text(entries[i].0.as_str(), key.as_str()) {
            let entry = (key, value);
            proof {
                lemma_replace_value(before, i as int, entry);
            }
            entries.set(i, entry);
            return;
        }
        i += 1;
    }
    entries.push((key, value));
    assert(entries@.drop_last() =~= before);
}

fn json_number(n: serde_json::Number) -> (r: JsonNumber)
    ensures
        r@ == number_content(n),
{
    if let Some(u) = n.as_u64() {
        JsonNumber::Unsigned(u)
    } else if let Some(i) = n.as_i64() {
        JsonNumber::Signed(i)
    } else {
        JsonNumber::Float(n)
    }
}

/// The value that `value` holds, as plain data.
fn json_from_value(value: serde_json::Value) -> (json: Json)
    ensures
        json@ == value_content(value),
    decreases value_content(value),
{
    let ghost content = value_content(value);
    match open_value(value) {
        ValueParts::Null => Json::Null,
        ValueParts::Bool(b) => Json::Bool(b),
        ValueParts::Number(n) => Json::Number(json_number(n)),
        ValueParts::Text(s) => Json::Text(s),
        ValueParts::Array(items) => {
            let ghost all = items@;
            let mut out: Vec<Json> = Vec::new();
            for item in iter: items
                invariant
                    iter.seq() == all,
                    content == value_content(value),
                    content == JsonModel::Array(value_items(all)),
                    out@.len() == iter.index(),
                    forall|i: int|
                        0 <= i < out@.len() ==> json_model(out@[i]) == value_content(all[i]),
            {
                proof {
                    let k = out@.len() as int;
                    assert(content->Array_0[k] == value_content(all[k]));
                    assert(decreases_to!(content => content->Array_0[k]));
                }
                out.push(json_from_value(item));
            }
            assert(items_model(out@) =~= value_items(all));
            Json::Array(out)
        },
        ValueParts::Object(entries) => {
            let ghost all = entries@;
            let mut out: Vec<(String, Json)> = Vec::new();
            for entry in iter: entries
                invariant
                    iter.seq() == all,
                    content == value_content(value),
                    content == JsonModel::Object(value_entries(all)),
                    distinct_keys(all),
                    out@.len() == iter.index(),
                    entries_model(out@) == value_entries(all.take(iter.index())),
            {
                let (key, item) = entry;
                let ghost before = out@;
                proof {
                    lemma_value_entries_hold(all, iter.index());
                    assert(decreases_to!(content => content->Object_0[key@]));
                    assert(all.take(iter.index() + 1).drop_last() =~= all.take(iter.index()));
                }
                out.push((key, json_from_value(item)));
                assert(out@.drop_last() =~= before);
            }
            assert(all.take(all.len() as int) =~= all);
            Json::Object(JsonObject { entries: out })
        },
    }
}

/// A value of `serde_json` that holds what `json` stands for.
pub fn value_from_json(json: &Json) -> (value: serde_json::Value)
    ensures
        value_content(value) == json@,
    decreases json,
{
    let parts = match json {
        Json::Null => ValueParts::Null,
        Json::Bool(b) => ValueParts::Bool(*b),
        Json::Number(JsonNumber::Unsigned(u)) => ValueParts::Number(number_from_u64(*u)),
        Json::Number(JsonNumber::Signed(i)) => ValueParts::Number(number_from_i64(*i)),
        Json::Number(JsonNumber::Float(n)) => ValueParts::Number(n.clone()),
        Json::Text(s) => ValueParts::Text(s.clone()),
        Json::Array(items) => {
            let mut out: Vec<serde_json::Value> = Vec::new();
            let mut i: usize = 0;
            while i < items.len()
                invariant
                    json matches Json::Array(v) && v == items,
                    i <= items@.len(),
                    out@.len() == i,
                    forall|j: int| 0 <= j < i ==> value_content(out@[j]) == json_model(items@[j]),
                decreases items@.len() - i,
            {
                out.push(value_from_json(&items[i]));
                i += 1;
            }
            assert(value_items(out@) =~= items_model(items@));
            ValueParts::Array(out)
        },
        Json::Object(object) => {
            let mut out: Vec<(String, serde_json::Value)> = Vec::new();
            let mut i: usize = 0;
            while i < object.entries.len()
                invariant
                    json matches Json::Object(o) && o == object,
                    i <= object.entries@.len(),
                    distinct_keys(out@),
                    value_entries(out@) == entries_model(object.entries@.take(i as int)),
                decreases object.entries@.len() - i,
            {
                let value = value_from_json(&object.entries[i].1);
                put_entry(&mut out, object.entries[i].0.clone(), value);
                assert(object.entries@.take(i + 1).drop_last() =~= object.entries@.take(i as int));
                i += 1;
            }
            assert(object.entries@.take(i as int) =~= object.entries@);
            ValueParts::Object(out)
        },
    };
    close_value(parts)
}

// ---------------------------------------------------------------------------
// Equality
// ---------------------------------------------------------------------------
/// What `==` on `serde_json::Value` says of two values that hold this.
pub uninterp spec fn equal_values(a: JsonModel, b: JsonModel) -> bool;

/// `==` on `serde_json::Value`: [`equal_values`] names what it says. Values
/// that hold the same are equal, and a value without floating point numbers
/// equals no other. (Zero and negative zero, as floating point numbers, are
/// equal and not the same.)
#[verifier::external_body]
fn same_value(a: &serde_json::Value, b: &serde_json::Value) -> (r: bool)
    ensures
        r == equal_values(value_content(*a), value_content(*b)),
        value_content(*a) == value_content(*b) ==> r,
        r && survives(value_content(*a)) ==> value_content(*a) == value_content(*b),
{
    a == b
}

impl vstd::std_specs::cmp::PartialEqSpecImpl for Json {
    open spec fn obeys_eq_spec() -> bool {
        true
    }

    open spec fn eq_spec(&self, other: &Json) -> bool {
        equal_values(self@, other@)
    }
}

/// Values are compared as `serde_json` compares them: the order of the entries
/// of an object does not matter.
impl PartialEq for Json {
    fn eq(&self, other: &Json) -> (r: bool)
        ensures
            self@ == other@ ==> r,
            r && survives(self@) ==> self@ == other@,
    {
        same_value(&value_from_json(self), &value_from_json(other))
    }
}

// ---------------------------------------------------------------------------
// Text
// ---------------------------------------------------------------------------
/// The value that `serde_json::from_str` reads from a text, if it accepts it.
pub uninterp spec fn parsed_text(text: Seq<char>) -> Option<JsonModel>;

/// The value that `serde_json::from_slice` reads from bytes, if it accepts them.
pub uninterp spec fn parsed_bytes(bytes: Seq<u8>) -> Option<JsonModel>;

/// The text that `serde_json::to_string` writes for a value.
pub uninterp spec fn printed_text(json: JsonModel) -> Seq<char>;

/// The bytes that `serde_json::to_vec` writes for a value.
pub uninterp spec fn printed_bytes(json: JsonModel) -> Seq<u8>;

/// The bytes that `serde_json::to_vec_pretty` writes for a value.
pub uninterp spec fn pretty_bytes(json: JsonModel) -> Seq<u8>;

/// A value without floating point numbers whose arrays and objects are nested
/// at most `depth` deep.
pub open spec fn is_plain(json: JsonModel, depth: nat) -> bool
    decreases depth,
{
    match json {
        JsonModel::Null | JsonModel::Bool(_) | JsonModel::Text(_) => true,
        JsonModel::Number(n) => n is Integer,
        JsonModel::Array(items) => depth > 0 && (forall|i: int|
            0 <= i < items.len() ==> is_plain(#[trigger] items[i], (depth - 1) as nat)),
        JsonModel::Object(map) => depth > 0 && (forall|key: Seq<char>| #[trigger]
            map.contains_key(key) ==> is_plain(map[key], (depth - 1) as nat)),
    }
}

/// How deep arrays and objects may be nested for the parser to accept them.
pub const MAX_DEPTH: u8 = 127;

/// A value that reading gives back when it has been written: the parser stops
/// at [`MAX_DEPTH`], and may read a floating point number slightly off.
pub open spec fn survives(json: JsonModel) -> bool {
    is_plain(json, MAX_DEPTH as nat)
}

/// `serde_json::from_str` for a value: [`parsed_text`] names what it reads.
#[verifier::external_body]
fn parse_value(text: &str) -> (r: Result<serde_json::Value, serde_json::Error>)
    ensures
        match r {
            Ok(value) => parsed_text(text@) == Some(value_content(value)),
            Err(_) => parsed_text(text@) is None,
        },
{
    serde_json::from_str::<serde_json::Value>(text)
}

/// `serde_json::from_slice` for a value: [`parsed_bytes`] names what it reads.
#[verifier::external_body]
fn parse_value_bytes(bytes: &[u8]) -> (r: Result<serde_json::Value, serde_json::Error>)
    ensures
        match r {
            Ok(value) => parsed_bytes(bytes@) == Some(value_content(value)),
            Err(_) => parsed_bytes(bytes@) is None,
        },
{
    serde_json::from_slice::<serde_json::Value>(bytes)
}

/// `serde_json::to_string` for a value: it succeeds, since the keys are
/// strings; [`printed_text`] names what it writes, and `serde_json::from_str`
/// reads a value that [`survives`] back.
#[verifier::external_body]
fn print_value(value: &serde_json::Value) -> (r: Result<String, serde_json::Error>)
    ensures
        r is Ok,
        r->Ok_0@ == printed_text(value_content(*value)),
        survives(value_content(*value)) ==> parsed_text(r->Ok_0@) == Some(value_content(*value)),
{
    serde_json::to_string(value)
}

/// `serde_json::to_vec` for a value: it succeeds, since the keys are strings;
/// [`printed_bytes`] names what it writes, and `serde_json::from_slice` reads
/// a value that [`survives`] back.
#[verifier::external_body]
fn print_value_bytes(value: &serde_json::Value) -> (r: Result<Vec<u8>, serde_json::Error>)
    ensures
        r is Ok,
        r->Ok_0@ == printed_bytes(value_content(*value)),
        survives(value_content(*value)) ==> parsed_bytes(r->Ok_0@) == Some(value_content(*value)),
{
    serde_json::to_vec(value)
}

/// `serde_json::to_vec_pretty` for a value: it succeeds, since the keys are
/// strings; [`pretty_bytes`] names what it writes, and `serde_json::from_slice`
/// reads a value that [`survives`] back.
#[verifier::external_body]
fn print_value_pretty(value: &serde_json::Value) -> (r: Result<Vec<u8>, serde_json::Error>)
    ensures
        r is Ok,
        r->Ok_0@ == pretty_bytes(value_content(*value)),
        survives(value_content(*value)) ==> parsed_bytes(r->Ok_0@) == Some(value_content(*value)),
{
    serde_json::to_vec_pretty(value)
}

/// Why a value could not be read or written.
#[derive(Debug)]
pub enum JsonError {
    Malformed(serde_json::Error),
    Unprintable(serde_json::Error),
}

impl Json {
    /// Reads a value from text.
    pub fn parse(text: &str) -> (r: Result<Json, JsonError>)
        ensures
            match r {
                Ok(json) => parsed_text(text@) == Some(json@),
                Err(error) => error is Malformed && parsed_text(text@) is None,
            },
    {
        match parse_value(text) {
            Ok(value) => Ok(json_from_value(value)),
            Err(error) => Err(JsonError::Malformed(error)),
        }
    }

    /// Reads a value from bytes.
    pub fn parse_bytes(bytes: &[u8]) -> (r: Result<Json, JsonError>)
        ensures
            match r {
                Ok(json) => parsed_bytes(bytes@) == Some(json@),
                Err(error) => error is Malformed && parsed_bytes(bytes@) is None,
            },
    {
        match parse_value_bytes(bytes) {
            Ok(value) => Ok(json_from_value(value)),
            Err(error) => Err(JsonError::Malformed(error)),
        }
    }

    /// Writes the value as text.
    pub fn print(&self) -> (r: Result<String, JsonError>)
        ensures
            r is Ok,
            r->Ok_0@ == printed_text(self@),
            survives(self@) ==> parsed_text(r->Ok_0@) == Some(self@),
    {
        match print_value(&value_from_json(self)) {
            Ok(text) => Ok(text),
            Err(error) => Err(JsonError::Unprintable(error)),
        }
    }

    /// Writes the value as bytes.
    pub fn print_bytes(&self) -> (r: Result<Vec<u8>, JsonError>)
        ensures
            r is Ok,
            r->Ok_0@ == printed_bytes(self@),
            survives(self@) ==> parsed_bytes(r->Ok_0@) == Some(self@),
    {
        match print_value_bytes(&value_from_json(self)) {
            Ok(bytes) => Ok(bytes),
            Err(error) => Err(JsonError::Unprintable(error)),
        }
    }

    /// Writes the value as bytes, on several lines and indented.
    pub fn print_pretty(&self) -> (r: Result<Vec<u8>, JsonError>)
        ensures
            r is Ok,
            r->Ok_0@ == pretty_bytes(self@),
            survives(self@) ==> parsed_bytes(r->Ok_0@) == Some(self@),
    {
        match print_value_pretty(&value_from_json(self)) {
            Ok(bytes) => Ok(bytes),
            Err(error) => Err(JsonError::Unprintable(error)),
        }
    }
}

// ---------------------------------------------------------------------------
// Laws
// ---------------------------------------------------------------------------
/// An object has the fields that its entries name and no others, and other values
/// have none.
pub proof fn objects_have_their_fields(
    map: Map<Seq<char>, JsonModel>,
    key: Seq<char>,
    other: JsonModel,
)
    ensures
        map.contains_key(key) ==> field(JsonModel::Object(map), key) == Some(map[key])
            && field_or_null(JsonModel::Object(map), key) == map[key],
        !map.contains_key(key) ==> field(JsonModel::Object(map), key) is None && field_or_null(
            JsonModel::Object(map),
            key,
        ) == JsonModel::Null,
        !(other is Object) ==> field(other, key) is None && field_or_null(other, key)
            == JsonModel::Null,
{
}

/// A field is read as a text or as a number of 64 bits where it is one, and not
/// otherwise.
pub proof fn fields_are_read_by_kind(json: JsonModel, key: Seq<char>, text: Seq<char>, n: int)
    ensures
        field(json, key) == Some(JsonModel::Text(text)) ==> text_field(json, key) == Some(text)
            && u64_field(json, key) is None,
        field(json, key) == Some(JsonModel::Number(NumberModel::Integer(n))) ==> text_field(
            json,
            key,
        ) is None,
        field(json, key) == Some(JsonModel::Number(NumberModel::Integer(n))) && 0 <= n
            <= 18446744073709551615 ==> u64_field(json, key) == Some(n as u64),
        field(json, key) == Some(JsonModel::Number(NumberModel::Integer(n))) && (n < 0 || n
            > 18446744073709551615) ==> u64_field(json, key) is None,
        field(json, key) is None ==> text_field(json, key) is None && u64_field(json, key) is None,
        -9223372036854775808 <= n <= 9223372036854775807 ==> i64_of(integer(n)) == Some(n as i64),
        n < -9223372036854775808 || n > 9223372036854775807 ==> i64_of(integer(n)) is None,
{
}

/// The texts of a field are those of the values that have one there, in their
/// order.
pub proof fn texts_of_a_field_follow_their_values(
    first: Seq<JsonModel>,
    value: JsonModel,
    rest: Seq<JsonModel>,
    key: Seq<char>,
)
    ensures
        field_texts(Seq::empty(), key) == Seq::<Seq<char>>::empty(),
        field_texts(seq![value], key) == (match field(value, key) {
            Some(JsonModel::Text(text)) => seq![text],
            _ => Seq::empty(),
        }),
        field_texts(first + rest, key) == field_texts(first, key) + field_texts(rest, key),
    decreases rest.len(),
{
    let one = seq![value];
    assert(one.drop_last() =~= Seq::empty());
    assert(field_texts(one.drop_last(), key) =~= Seq::empty());
    assert(field_texts(one, key) =~= (match field(value, key) {
        Some(JsonModel::Text(text)) => seq![text],
        _ => Seq::empty(),
    }));
    let all = first + rest;
    if rest.len() == 0 {
        assert(all =~= first);
        assert(field_texts(first, key) + field_texts(rest, key) =~= field_texts(first, key));
    } else {
        texts_of_a_field_follow_their_values(first, value, rest.drop_last(), key);
        assert(all.drop_last() =~= first + rest.drop_last());
        assert(all.last() == rest.last());
        assert(field_texts(all, key) =~= field_texts(first, key) + field_texts(rest, key));
    }
}

/// The items of an array stand for themselves, in their order.
pub proof fn items_stand_in_their_order(items: Seq<Json>)
    ensures
        items_model(items).len() == items.len(),
        forall|i: int|
            0 <= i < items.len() ==> #[trigger] items_model(items)[i] == json_model(items[i]),
{
}

/// Of several entries of an object with one key the last one counts, and a key
/// that no entry has is not there.
pub proof fn the_last_entry_counts(entries: Seq<(String, Json)>, key: Seq<char>, i: int)
    ensures
        0 <= i < entries.len() && entries[i].0@ == key && (forall|j: int|
            i < j < entries.len() ==> (#[trigger] entries[j]).0@ != key) ==> entries_model(
            entries,
        ).contains_key(key) && entries_model(entries)[key] == json_model(entries[i].1),
        (forall|j: int| 0 <= j < entries.len() ==> (#[trigger] entries[j]).0@ != key)
            ==> !entries_model(entries).contains_key(key),
{
    if 0 <= i < entries.len() && entries[i].0@ == key && (forall|j: int|
        i < j < entries.len() ==> (#[trigger] entries[j]).0@ != key) {
        lemma_last_entry_counts(entries, key, i);
    }
    if forall|j: int| 0 <= j < entries.len() ==> (#[trigger] entries[j]).0@ != key {
        lemma_no_entry(entries, key);
    }
}

} // verus!
