//! Call arguments as a caller writes them, and call results as a caller
//! reads them.

use vstd::prelude::*;
use crate::chars::without_whitespace;
use crate::codec::{decode, decoded, encode, encoded};
use crate::descriptor::{lemma_named_is_name, parse, type_named, Primitive, TypeDescriptor};
use crate::error::{
    outcome, DecodeError, DecodeFault, EncodeError, EncodeFault, KeyError, ParseError, ParseFault,
};
use crate::json::{json_document, parse_json, JsonModel, JsonValue};
use crate::utils::crypto::{base64url_decode, base64url_decoded};
use crate::value::{coerced, coerced_items};

verus! {

/// The arguments of a call, in order: for each its type name and the JSON
/// text of its value.
#[derive(Debug)]
pub struct CallArguments {
    pub arguments: Vec<(String, String)>,
}

impl View for CallArguments {
    type V = Seq<(Seq<char>, Seq<char>)>;

    open spec fn view(&self) -> Seq<(Seq<char>, Seq<char>)> {
        Seq::new(self.arguments@.len(), |i: int| (self.arguments@[i].0@, self.arguments@[i].1@))
    }
}

/// The type name and the value text of an entry that holds both as strings.
pub open spec fn argument_pair(entry: JsonModel) -> Option<(Seq<char>, Seq<char>)> {
    match entry.field("argument_type"@) {
        JsonModel::Text(name) => match entry.field("argument_value"@) {
            JsonModel::Text(value) => Some((name, value)),
            _ => None,
        },
        _ => None,
    }
}

/// The pairs of the entries that hold both fields, in the order of the
/// entries. An entry that lacks one is passed over.
pub open spec fn argument_pairs(entries: Seq<JsonModel>) -> Seq<(Seq<char>, Seq<char>)>
    decreases entries.len(),
{
    if entries.len() == 0 {
        Seq::empty()
    } else {
        match argument_pair(entries.last()) {
            Some(pair) => argument_pairs(entries.drop_last()).push(pair),
            None => argument_pairs(entries.drop_last()),
        }
    }
}

/// The arguments that a document lists under `arguments`.
pub open spec fn arguments_of(document: JsonModel) -> Result<
    Seq<(Seq<char>, Seq<char>)>,
    ParseFault,
> {
    match document.field("arguments"@) {
        JsonModel::Array(entries) => Ok(argument_pairs(entries)),
        _ => Err(ParseFault::MissingField("arguments"@)),
    }
}

/// The arguments that a text lists, given the document that the text spells.
pub open spec fn arguments_read(document: Option<JsonModel>) -> Result<
    Seq<(Seq<char>, Seq<char>)>,
    ParseFault,
> {
    match document {
        None => Err(ParseFault::InvalidJson),
        Some(value) => arguments_of(value),
    }
}

/// What an object holds under `key`, as `JsonModel::field` says it.
fn field<'a>(value: &'a JsonValue, key: &str) -> (r: Option<&'a JsonValue>)
    ensures
        match r {
            Some(found) => value@.field(key@) == found@,
            None => value@.field(key@) == JsonModel::Null,
        },
{
    value.get(key)
}

/// The text of a string value.
fn text_of(value: Option<&JsonValue>) -> (r: Option<&String>)
    ensures
        match r {
            Some(text) => value matches Some(v) && v@ == JsonModel::Text(text@),
            None => value matches Some(v) ==> !(v@ is Text),
        },
{
    match value {
        Some(JsonValue::Text(text)) => Some(text),
        _ => None,
    }
}

impl CallArguments {
    /// Reads the arguments that a document lists.
    ///
    /// The document is an object whose field `arguments` holds an array. An
    /// entry of the array counts where its fields `argument_type` and
    /// `argument_value` are both strings; any other entry is passed over.
    pub fn from_value(document: &JsonValue) -> (r: Result<CallArguments, ParseError>)
        ensures
            outcome(r) == arguments_of(document@),
    {
        let entries = match field(document, "arguments") {
            Some(JsonValue::Array(entries)) => entries,
            _ => {
                return Err(ParseError::MissingField("arguments".to_owned()));
            },
        };
        let ghost all = document@.field("arguments"@)->Array_0;
        let mut arguments: Vec<(String, String)> = Vec::new();
        let mut i: usize = 0;
        assert(all.take(0) =~= Seq::<JsonModel>::empty());
        assert((CallArguments { arguments })@ =~= Seq::<(Seq<char>, Seq<char>)>::empty());
        while i < entries.len()
            invariant
                i <= entries.len(),
                all.len() == entries.len(),
                forall|k: int| 0 <= k < all.len() ==> all[k] == #[trigger] entries@[k]@,
                (CallArguments { arguments })@ == argument_pairs(all.take(i as int)),
            decreases entries.len() - i,
        {
            let ghost before = (CallArguments { arguments })@;
            assert(all.take(i + 1).drop_last() =~= all.take(i as int));
            assert(all.take(i + 1).last() == entries@[i as int]@);
            let entry = &entries[i];
            if let Some(name) = text_of(field(entry, "argument_type")) {
                if let Some(value) = text_of(field(entry, "argument_value")) {
                    arguments.push((name.clone(), value.clone()));
                    assert((CallArguments { arguments })@ =~= before.push((name@, value@)));
                }
            }
            i += 1;
        }
        assert(all.take(i as int) =~= all);
        Ok(CallArguments { arguments })
    }

    /// Reads the arguments that a JSON text lists.
    pub fn from_json(json_data: &str) -> (r: Result<CallArguments, ParseError>)
        ensures
            outcome(r) == arguments_read(json_document(json_data@)),
    {
        match parse_json(json_data) {
            Err(message) => Err(ParseError::InvalidJson(message)),
            Ok(document) => CallArguments::from_value(&document),
        }
    }
}

/// An entry that lacks a field leaves the list as it was; one that holds
/// both adds its pair at the end.
pub proof fn lemma_argument_pairs_push(entries: Seq<JsonModel>, entry: JsonModel)
    ensures
        argument_pair(entry) is None ==> argument_pairs(entries.push(entry)) == argument_pairs(
            entries,
        ),
        argument_pair(entry) matches Some(pair) ==> argument_pairs(entries.push(entry))
            == argument_pairs(entries).push(pair),
        argument_pairs(entries).len() <= entries.len(),
    decreases entries.len(),
{
    assert(entries.push(entry).drop_last() =~= entries);
    if entries.len() > 0 {
        lemma_argument_pairs_push(entries.drop_last(), entries.last());
    }
}

/// The arguments of two lists of entries, one after the other, are the
/// arguments of the first followed by those of the second.
pub proof fn lemma_argument_pairs_concat(a: Seq<JsonModel>, b: Seq<JsonModel>)
    ensures
        argument_pairs(a + b) == argument_pairs(a) + argument_pairs(b),
    decreases b.len(),
{
    if b.len() == 0 {
        assert(a + b =~= a);
        assert(argument_pairs(a) + argument_pairs(b) =~= argument_pairs(a));
    } else {
        assert((a + b).drop_last() =~= a + b.drop_last());
        lemma_argument_pairs_concat(a, b.drop_last());
        match argument_pair(b.last()) {
            Some(pair) => {
                assert((argument_pairs(a) + argument_pairs(b.drop_last())).push(pair)
                    =~= argument_pairs(a) + argument_pairs(b.drop_last()).push(pair));
            },
            None => {},
        }
    }
}

/// Leniency: an entry that lacks `argument_type` or `argument_value`, or
/// holds either as something else than a string, is dropped wherever it
/// stands, and the entries around it count as if it were not there.
pub proof fn lemma_entry_without_field_dropped(
    before: Seq<JsonModel>,
    entry: JsonModel,
    after: Seq<JsonModel>,
)
    requires
        !(entry.field("argument_type"@) is Text) || !(entry.field("argument_value"@) is Text),
    ensures
        argument_pairs(before + seq![entry] + after) == argument_pairs(before + after),
{
    lemma_argument_pairs_concat(before + seq![entry], after);
    lemma_argument_pairs_concat(before, seq![entry]);
    lemma_argument_pairs_concat(before, after);
    lemma_argument_pairs_push(Seq::empty(), entry);
    assert(Seq::<JsonModel>::empty().push(entry) =~= seq![entry]);
    assert(argument_pairs(Seq::<JsonModel>::empty()) =~= Seq::empty());
    assert(argument_pairs(before) + argument_pairs(seq![entry]) =~= argument_pairs(before));
}

/// The bytes of a value under a type name, given the document that the
/// value's text spells.
///
/// The type name is looked at first: under a name that stands for no
/// supported type, the value's text is not read.
pub open spec fn serialized(name: Seq<char>, document: Option<JsonModel>) -> Result<
    Seq<u8>,
    EncodeFault,
> {
    match type_named(name) {
        None => Err(EncodeFault::UnsupportedType(name)),
        Some(d) => match document {
            None => Err(EncodeFault::InvalidJson),
            Some(value) => encoded(d, value),
        },
    }
}

/// The text of the value at the front of `bytes` under a type name.
pub open spec fn call_result_text(bytes: Seq<u8>, name: Seq<char>) -> Result<
    Seq<char>,
    DecodeFault,
> {
    match type_named(name) {
        None => Err(DecodeFault::UnsupportedType(name)),
        Some(d) => decoded(d, bytes),
    }
}

/// A type that has a name is supported: under a name that parses, no value
/// is refused for its type's sake.
pub proof fn lemma_named_type_is_supported(name: Seq<char>, document: Option<JsonModel>)
    requires
        type_named(name) is Some,
    ensures
        type_named(name).unwrap().supported(),
        !(serialized(name, document) matches Err(EncodeFault::UnsupportedType(_))),
{
    lemma_named_is_name(without_whitespace(name));
    let d = type_named(name).unwrap();
    if let Some(value) = document {
        lemma_coerced_never_unsupported(d, value);
    }
}

/// Reading a value under a type never finds the type unsupported.
pub proof fn lemma_coerced_never_unsupported(d: TypeDescriptor, j: JsonModel)
    ensures
        !(coerced(d, j) matches Err(EncodeFault::UnsupportedType(_))),
    decreases d.rank(), 0nat,
{
    match d {
        TypeDescriptor::Primitive(kind) => {},
        TypeDescriptor::FixedBytes(n) => {
            if let JsonModel::Array(items) = j {
                lemma_coerced_items_never_unsupported(
                    TypeDescriptor::Primitive(Primitive::U8),
                    items,
                );
            }
        },
        TypeDescriptor::Sequence(inner) => {
            if let JsonModel::Array(items) = j {
                lemma_coerced_items_never_unsupported(*inner, items);
            }
        },
        TypeDescriptor::Optional(inner) => {
            lemma_coerced_never_unsupported(*inner, j);
        },
    }
}

/// Reading the items of an array never finds their type unsupported.
pub proof fn lemma_coerced_items_never_unsupported(d: TypeDescriptor, items: Seq<JsonModel>)
    ensures
        !(coerced_items(d, items) matches Err(EncodeFault::UnsupportedType(_))),
    decreases d.rank(), items.len() + 1,
{
    if items.len() > 0 {
        lemma_coerced_items_never_unsupported(d, items.drop_last());
        lemma_coerced_never_unsupported(d, items.last());
    }
}

/// Encodes a JSON value under a type name.
pub fn serialize_value(value: &JsonValue, data_type: &str) -> (r: Result<Vec<u8>, EncodeError>)
    ensures
        outcome(r) == serialized(data_type@, Some(value@)),
{
    match parse(data_type) {
        Err(_) => Err(EncodeError::UnsupportedType(data_type.to_owned())),
        Ok(d) => encode(&d, value),
    }
}

/// Encodes a call argument: the JSON text of a value, under a type name.
pub fn serialize_call_arguments(value: &str, data_type: &str) -> (r: Result<Vec<u8>, EncodeError>)
    ensures
        outcome(r) == serialized(data_type@, json_document(value@)),
{
    match parse(data_type) {
        Err(_) => Err(EncodeError::UnsupportedType(data_type.to_owned())),
        Ok(d) => match parse_json(value) {
            Err(message) => Err(EncodeError::InvalidJson(message)),
            Ok(document) => encode(&d, &document),
        },
    }
}

/// Decodes a call result under a type name, as text.
///
/// Bytes after the value are not looked at.
pub fn call_result_to_data_type(vec: &Vec<u8>, data_type: String) -> (r: Result<
    String,
    DecodeError,
>)
    ensures
        outcome(r) == call_result_text(vec@, data_type@),
{
    match parse(data_type.as_str()) {
        Err(_) => Err(DecodeError::UnsupportedType(data_type)),
        Ok(d) => decode(&d, vec.as_slice()),
    }
}

/// Decodes a Base64URL text that stands for 32 bytes.
pub fn base64url_to_bytes32(base64url: &str) -> (r: Result<[u8; 32], KeyError>)
    ensures
        match base64url_decoded(base64url@) {
            None => r == Err::<[u8; 32], KeyError>(KeyError::InvalidBase64Encoding),
            Some(bytes) => if bytes.len() == 32 {
                r matches Ok(array) && array@ == bytes
            } else {
                r == Err::<[u8; 32], KeyError>(KeyError::IncorrectBase64urlLength)
            },
        },
{
    match base64url_decode(base64url) {
        None => Err(KeyError::InvalidBase64Encoding),
        Some(bytes) => {
            if bytes.len() != 32 {
                return Err(KeyError::IncorrectBase64urlLength);
            }
            let mut array = [0u8; 32];
            let mut i: usize = 0;
            while i < 32
                invariant
                    i <= 32,
                    bytes.len() == 32,
                    forall|k: int| 0 <= k < i ==> array@[k] == bytes@[k],
                decreases 32 - i,
            {
                array[i] = bytes[i];
                i += 1;
            }
            assert(array@ =~= bytes@);
            Ok(array)
        },
    }
}

} // verus!
