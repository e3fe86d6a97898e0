//! JSON documents as far as log records read them: the fields of a top-level
//! object, each either a string or some other value carried as JSON text.

use vstd::prelude::*;

verus! {

/// `serde_json::Error`, the failure of serde_json's parser. Nothing is
/// known of what it holds.
#[verifier::external_type_specification]
#[verifier::external_body]
pub struct ExJsonError(serde_json::Error);

/// The value of one field of a JSON object.
#[derive(Clone, Debug, PartialEq, Eq)]
pub enum JsonValue {
    /// A JSON string, with its escapes resolved.
    Text(String),
    /// Any other JSON value, written as compact JSON text.
    Raw(String),
}

/// What a `JsonValue` stands for.
pub enum JsonValueView {
    Text(Seq<char>),
    Raw(Seq<char>),
}

impl View for JsonValue {
    type V = JsonValueView;

    open spec fn view(&self) -> JsonValueView {
        match self {
            JsonValue::Text(s) => JsonValueView::Text(s@),
            JsonValue::Raw(s) => JsonValueView::Raw(s@),
        }
    }
}

/// A field list: names with their values, in order.
pub type Fields = Seq<(Seq<char>, JsonValueView)>;

/// What a JSON text holds at its top level.
pub enum JsonShape {
    /// An object, with its fields in the order in which the parser's map
    /// hands them out.
    Object(Fields),
    /// A value that is no object.
    Other,
}

/// What `text` holds as JSON, or `None` where it is not one JSON value.
pub uninterp spec fn json_document(text: Seq<char>) -> Option<JsonShape>;

/// Whether `text` is one JSON value.
pub open spec fn is_json(text: Seq<char>) -> bool {
    json_document(text) is Some
}

/// The value of the first field of `fields` named `key`.
pub open spec fn lookup(fields: Fields, key: Seq<char>) -> Option<JsonValueView>
    decreases fields.len(),
{
    if fields.len() == 0 {
        None
    } else if fields[0].0 == key {
        Some(fields[0].1)
    } else {
        lookup(fields.drop_first(), key)
    }
}

/// The string held by the first field of `fields` named `key`; `None` where
/// there is no such field or it holds no string.
pub open spec fn lookup_text(fields: Fields, key: Seq<char>) -> Option<Seq<char>> {
    match lookup(fields, key) {
        Some(JsonValueView::Text(s)) => Some(s),
        _ => None,
    }
}

/// `fields` with `key` set to `value`: the first field named `key` takes
/// the value; where there is none, a new field stands at the end.
pub open spec fn inserted(fields: Fields, key: Seq<char>, value: JsonValueView) -> Fields
    decreases fields.len(),
{
    if fields.len() == 0 {
        seq![(key, value)]
    } else if fields[0].0 == key {
        seq![(key, value)] + fields.drop_first()
    } else {
        seq![fields[0]] + inserted(fields.drop_first(), key, value)
    }
}

/// `fields` without the fields whose name `drop` accepts, the others in
/// their order.
pub open spec fn without(fields: Fields, drop: spec_fn(Seq<char>) -> bool) -> Fields {
    fields.filter(|f: (Seq<char>, JsonValueView)| !drop(f.0))
}

/// The fields of a JSON object.
#[derive(Clone, Debug, PartialEq, Eq)]
pub struct Metadata {
    pub fields: Vec<(String, JsonValue)>,
}

impl View for Metadata {
    type V = Fields;

    open spec fn view(&self) -> Fields {
        self.fields@.map_values(|f: (String, JsonValue)| (f.0@, f.1@))
    }
}

/// A parsed JSON text.
#[derive(Clone, Debug, PartialEq, Eq)]
pub enum JsonDocument {
    /// A JSON object.
    Object(Metadata),
    /// Any other JSON value.
    Other,
}

impl JsonValue {
    /// A value that stands for the same as `self`.
    pub fn duplicate(&self) -> (v: JsonValue)
        ensures
            v@ == self@,
    {
        match self {
            JsonValue::Text(s) => JsonValue::Text(s.clone()),
            JsonValue::Raw(s) => JsonValue::Raw(s.clone()),
        }
    }
}

impl JsonDocument {
    /// What the document holds at its top level.
    pub open spec fn shape(self) -> JsonShape {
        match self {
            JsonDocument::Object(m) => JsonShape::Object(m@),
            JsonDocument::Other => JsonShape::Other,
        }
    }
}

/// Calls `serde_json::from_str::<serde_json::Value>`. On success the result
/// is the named document of the text: for an object its fields as the map
/// hands them out, a string field as its string and any other field as the
/// text that `Value`'s `Display` writes for it. On failure the text has no
/// named document, and the error is serde_json's own.
#[verifier::external_body]
fn parse_value(text: &str) -> (r: Result<JsonDocument, serde_json::Error>)
    ensures
        match r {
            Ok(doc) => json_document(text@) == Some(doc.shape()),
            Err(_) => json_document(text@) is None,
        },
{
    match serde_json::from_str::<serde_json::Value>(text)? {
        serde_json::Value::Object(map) => Ok(JsonDocument::Object(Metadata {
            fields: map.into_iter().map(|(k, v)| match v {
                serde_json::Value::String(s) => (k, JsonValue::Text(s)),
                other => (k, JsonValue::Raw(other.to_string())),
            }).collect(),
        })),
        _ => Ok(JsonDocument::Other),
    }
}

/// Calls `to_string` on a `serde_json::Error`: the message that its
/// `Display` writes. Nothing is claimed of the message.
#[verifier::external_body]
fn error_text(e: &serde_json::Error) -> String
{
    e.to_string()
}

/// Parses `text` as one JSON value. A text that is not JSON gives the
/// parser's message.
pub fn parse_json(text: &str) -> (r: Result<JsonDocument, String>)
    ensures
        match r {
            Ok(doc) => json_document(text@) == Some(doc.shape()),
            Err(_) => !is_json(text@),
        },
{
    match parse_value(text) {
        Ok(doc) => Ok(doc),
        Err(e) => Err(error_text(&e)),
    }
}

/// Whether `text` is one JSON value.
pub fn is_valid_json(text: &str) -> (b: bool)
    ensures
        b == is_json(text@),
{
    parse_value(text).is_ok()
}

impl Metadata {
    /// No fields.
    pub fn new() -> (m: Metadata)
        ensures
            m@ == Seq::<(Seq<char>, JsonValueView)>::empty(),
    {
        let m = Metadata { fields: Vec::new() };
        assert(m@ =~= Seq::<(Seq<char>, JsonValueView)>::empty());
        m
    }

    /// The number of fields.
    pub fn len(&self) -> (n: usize)
        ensures
            n == self@.len(),
    {
        self.fields.len()
    }

    /// Sets the field named `key` to `value`: the first field of that
    /// name takes the value, and where there is none, a new field joins
    /// the others at the end.
    pub fn insert(&mut self, key: String, value: JsonValue)
        ensures
            final(self)@ == inserted(old(self)@, key@, value@),
    {
        let mut i: usize = 0;
        assert(self@.skip(0) == self@);
        assert(Seq::<(Seq<char>, JsonValueView)>::empty() + inserted(self@, key@, value@)
            == inserted(self@, key@, value@));
        while i < self.fields.len()
            invariant
                i <= self.fields.len(),
                *self == *old(self),
                inserted(self@, key@, value@) == self@.take(i as int) + inserted(
                    self@.skip(i as int),
                    key@,
                    value@,
                ),
            decreases self.fields.len() - i,
        {
            proof {
                let rest = self@.skip(i as int);
                assert(rest[0] == self@[i as int]);
                assert(rest.drop_first() == self@.skip(i + 1));
                assert(self@.take(i + 1) == self@.take(i as int).push(self@[i as int]));
            }
            if self.fields[i].0 == key {
                let ghost rest = self@.skip(i as int);
                let ghost head = self@.take(i as int);
                self.fields.set(i, (key, value));
                proof {
                    assert(self@ =~= head + seq![(key@, value@)] + rest.drop_first());
                    assert(head + (seq![(key@, value@)] + rest.drop_first()) == head + seq![
                        (key@, value@),
                    ] + rest.drop_first());
                }
                return ;
            }
            proof {
                let rest = self@.skip(i as int);
                let head = self@.take(i as int);
                assert(head + (seq![rest[0]] + inserted(rest.drop_first(), key@, value@))
                    == head.push(rest[0]) + inserted(rest.drop_first(), key@, value@));
            }
            i += 1;
        }
        proof {
            assert(self@.take(i as int) == self@);
            assert(self@.skip(i as int) == Seq::<(Seq<char>, JsonValueView)>::empty());
        }
        let ghost before = self@;
        self.fields.push((key, value));
        proof {
            assert(self@ =~= before + seq![(key@, value@)]);
        }
    }

    /// The value of the first field named `key`.
    pub fn get(&self, key: &String) -> (r: Option<&JsonValue>)
        ensures
            match r {
                Some(v) => lookup(self@, key@) == Some(v@),
                None => lookup(self@, key@) is None,
            },
    {
        let mut i: usize = 0;
        assert(self@.skip(0) == self@);
        while i < self.fields.len()
            invariant
                i <= self.fields.len(),
                lookup(self@, key@) == lookup(self@.skip(i as int), key@),
            decreases self.fields.len() - i,
        {
            proof {
                let rest = self@.skip(i as int);
                assert(rest[0] == self@[i as int]);
                assert(rest.drop_first() == self@.skip(i + 1));
            }
            if self.fields[i].0 == *key {
                return Some(&self.fields[i].1);
            }
            i += 1;
        }
        None
    }

    /// The string held by the first field named `key`.
    pub fn get_text(&self, key: &String) -> (r: Option<&String>)
        ensures
            match r {
                Some(s) => lookup_text(self@, key@) == Some(s@),
                None => lookup_text(self@, key@) is None,
            },
    {
        match self.get(key) {
            Some(JsonValue::Text(s)) => Some(s),
            _ => None,
        }
    }
}

} // verus!
