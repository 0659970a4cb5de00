//! JSON values, as the codec reads them.
//!
//! The text of a document is parsed by `serde_json`. What comes back is copied
//! into `JsonValue`, a tree of plain values that the rest of the crate reads.
//! A number keeps the text of its literal, so that no digit is lost before its
//! type is known.

use vstd::prelude::*;
use vstd::std_specs::vec::axiom_vec_index_decreases;

verus! {

/// A JSON value.
#[derive(Debug, PartialEq, Eq)]
pub enum JsonValue {
    Null,
    Bool(bool),
    /// A number, as the text of its literal.
    Number(String),
    Text(String),
    Array(Vec<JsonValue>),
    /// An object, as its members in order.
    Object(Vec<JsonMember>),
}

/// A member of a JSON object.
#[derive(Debug, PartialEq, Eq)]
pub struct JsonMember {
    pub key: String,
    pub value: JsonValue,
}

/// The mathematical model of a JSON value.
pub enum JsonModel {
    Null,
    Bool(bool),
    Number(Seq<char>),
    Text(Seq<char>),
    Array(Seq<JsonModel>),
    Object(Seq<MemberModel>),
}

/// The mathematical model of a member of a JSON object.
pub struct MemberModel {
    pub key: Seq<char>,
    pub value: JsonModel,
}

impl View for JsonValue {
    type V = JsonModel;

    open spec fn view(&self) -> JsonModel
        decreases self,
    {
        match self {
            JsonValue::Null => JsonModel::Null,
            JsonValue::Bool(b) => JsonModel::Bool(*b),
            JsonValue::Number(literal) => JsonModel::Number(literal@),
            JsonValue::Text(text) => JsonModel::Text(text@),
            JsonValue::Array(items) => JsonModel::Array(
                Seq::new(
                    items@.len(),
                    |i: int|
                        if 0 <= i < items@.len() {
                            items@[i].view()
                        } else {
                            JsonModel::Null
                        },
                ),
            ),
            JsonValue::Object(members) => JsonModel::Object(
                Seq::new(
                    members@.len(),
                    |i: int|
                        if 0 <= i < members@.len() {
                            members@[i].view()
                        } else {
                            MemberModel { key: Seq::empty(), value: JsonModel::Null }
                        },
                ),
            ),
        }
    }
}

impl View for JsonMember {
    type V = MemberModel;

    open spec fn view(&self) -> MemberModel
        decreases self,
    {
        MemberModel { key: self.key@, value: self.value.view() }
    }
}

impl Clone for JsonValue {
    fn clone(&self) -> (r: Self)
        ensures
            r@ == self@,
        decreases self,
    {
        match self {
            JsonValue::Null => JsonValue::Null,
            JsonValue::Bool(b) => JsonValue::Bool(*b),
            JsonValue::Number(literal) => JsonValue::Number(literal.clone()),
            JsonValue::Text(text) => JsonValue::Text(text.clone()),
            JsonValue::Array(items) => {
                let mut copies: Vec<JsonValue> = Vec::new();
                let mut i: usize = 0;
                while i < items.len()
                    invariant
                        i <= items.len(),
                        *self == JsonValue::Array(*items),
                        copies@.len() == i,
                        forall|k: int| 0 <= k < i ==> (#[trigger] copies@[k])@ == items@[k]@,
                    decreases items.len() - i,
                {
                    proof {
                        axiom_vec_index_decreases(*items, i as int);
                        assert(decreases_to!(*self => self->Array_0));
                    }
                    let copy = items[i].clone();
                    copies.push(copy);
                    i += 1;
                }
                assert(JsonValue::Array(copies)@->Array_0 =~= self@->Array_0);
                JsonValue::Array(copies)
            },
            JsonValue::Object(members) => {
                let mut copies: Vec<JsonMember> = Vec::new();
                let mut i: usize = 0;
                while i < members.len()
                    invariant
                        i <= members.len(),
                        *self == JsonValue::Object(*members),
                        copies@.len() == i,
                        forall|k: int| 0 <= k < i ==> (#[trigger] copies@[k])@ == members@[k]@,
                    decreases members.len() - i,
                {
                    proof {
                        axiom_vec_index_decreases(*members, i as int);
                        assert(decreases_to!(*self => self->Object_0));
                        assert(decreases_to!(members[i as int] => members[i as int].value));
                    }
                    let value = members[i].value.clone();
                    copies.push(JsonMember { key: members[i].key.clone(), value });
                    i += 1;
                }
                assert(JsonValue::Object(copies)@->Object_0 =~= self@->Object_0);
                JsonValue::Object(copies)
            },
        }
    }
}

impl Clone for JsonMember {
    fn clone(&self) -> (r: Self)
        ensures
            r@ == self@,
    {
        JsonMember { key: self.key.clone(), value: self.value.clone() }
    }
}

/// The value of the first member of that key.
pub open spec fn member(members: Seq<MemberModel>, key: Seq<char>) -> Option<JsonModel>
    decreases members.len(),
{
    if members.len() == 0 {
        None
    } else if members[0].key == key {
        Some(members[0].value)
    } else {
        member(members.skip(1), key)
    }
}

impl JsonModel {
    /// What an object holds under `key`: `Null` where the value is no object
    /// or has no such member.
    pub open spec fn field(self, key: Seq<char>) -> JsonModel {
        match self {
            JsonModel::Object(members) => match member(members, key) {
                Some(value) => value,
                None => JsonModel::Null,
            },
            _ => JsonModel::Null,
        }
    }
}

#[verifier::external_type_specification]
#[verifier::external_body]
pub struct ExValue(serde_json::Value);

#[verifier::external_type_specification]
#[verifier::external_body]
pub struct ExError(serde_json::Error);

/// The value that a text is the JSON document of; `None` where it is none.
pub uninterp spec fn json_document(text: Seq<char>) -> Option<JsonModel>;

/// What a value of `serde_json` holds.
pub uninterp spec fn json_content(value: serde_json::Value) -> JsonModel;

/// `serde_json::from_str`, asked for a `serde_json::Value`: the text is parsed
/// as one JSON document. It either gives the document's value or fails, and
/// which of the two depends on the text alone.
#[verifier::external_body]
fn value_from_str(text: &str) -> (r: Result<serde_json::Value, serde_json::Error>)
    ensures
        match r {
            Ok(value) => json_document(text@) == Some(json_content(value)),
            Err(_) => json_document(text@) is None,
        },
{
    serde_json::from_str::<serde_json::Value>(text)
}

/// Copies a `serde_json::Value` into a `JsonValue`, variant by variant. A
/// number hands over the text that `Number::as_str` gives: the literal it was
/// parsed from, with a `+` set before an exponent that had no sign.
#[verifier::external_body]
fn copy_value(value: serde_json::Value) -> (r: JsonValue)
    ensures
        r@ == json_content(value),
{
    match value {
        serde_json::Value::Null => JsonValue::Null,
        serde_json::Value::Bool(b) => JsonValue::Bool(b),
        serde_json::Value::Number(n) => JsonValue::Number(n.as_str().to_owned()),
        serde_json::Value::String(s) => JsonValue::Text(s),
        serde_json::Value::Array(a) => JsonValue::Array(a.into_iter().map(copy_value).collect()),
        serde_json::Value::Object(m) => JsonValue::Object(
            m.into_iter().map(|(key, v)| JsonMember { key, value: copy_value(v) }).collect(),
        ),
    }
}

/// The message of a `serde_json::Error`, as its `Display` writes it.
#[verifier::external_body]
fn error_message(error: &serde_json::Error) -> (r: String) {
    error.to_string()
}

/// Parses a text as one JSON document.
///
/// The error is the parser's message.
pub fn parse_json(text: &str) -> (r: Result<JsonValue, String>)
    ensures
        match r {
            Ok(value) => json_document(text@) == Some(value@),
            Err(_) => json_document(text@) is None,
        },
{
    match value_from_str(text) {
        Ok(value) => Ok(copy_value(value)),
        Err(error) => Err(error_message(&error)),
    }
}

impl JsonValue {
    /// The value of the first member of that key, where this is an object
    /// that has one.
    pub fn get(&self, key: &str) -> (r: Option<&JsonValue>)
        ensures
            match r {
                Some(value) => self@ matches JsonModel::Object(members) && member(members, key@)
                    == Some(value@),
                None => self@ matches JsonModel::Object(members) ==> member(members, key@) is None,
            },
    {
        match self {
            JsonValue::Object(members) => {
                let wanted = key.to_owned();
                let ghost all = self@->Object_0;
                assert(member(all, key@) == member(all.skip(0), key@)) by {
                    assert(all.skip(0) =~= all);
                }
                let mut i: usize = 0;
                while i < members.len()
                    invariant
                        i <= members.len(),
                        wanted@ == key@,
                        self@ == JsonModel::Object(all),
                        all.len() == members@.len(),
                        forall|j: int|
                            0 <= j < all.len() ==> all[j] == #[trigger] members@[j]@,
                        member(all, key@) == member(all.skip(i as int), key@),
                    decreases members.len() - i,
                {
                    let ghost rest = all.skip(i as int);
                    assert(rest[0] == all[i as int]);
                    assert(rest.skip(1) =~= all.skip(i + 1));
                    assert(all[i as int] == members@[i as int]@);
                    if members[i].key == wanted {
                        return Some(&members[i].value);
                    }
                    i += 1;
                }
                None
            },
            _ => None,
        }
    }
}

} // verus!
