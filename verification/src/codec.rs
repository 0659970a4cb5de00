//! Encoding a JSON value under a type, and decoding bytes under a type.

use vstd::prelude::*;
use crate::decimal::{integer_of, lemma_decimal_of_integer};
use crate::descriptor::{Primitive, TypeDescriptor};
use crate::error::{outcome, DecodeError, DecodeFault, EncodeError, EncodeFault};
use crate::json::{JsonModel, JsonValue};
use crate::value::{
    coerce, coerced, coerced_items, has_type, is_typed, lemma_coerced_has_type,
    lemma_coerced_items_have_type, rendered, TypedValue, ValueModel,
};
use crate::wire::{
    lemma_unwire_wire, lemma_unwire_wire_integer, lemma_wire_unwire, read_value, unwire, wire,
    wire_items, write_value,
};

verus! {

/// The bytes of a JSON value under the type `d`.
///
/// A descriptor outside the supported shapes is an error, whatever the value.
pub open spec fn encoded(d: TypeDescriptor, j: JsonModel) -> Result<Seq<u8>, EncodeFault> {
    if !d.supported() {
        Err(EncodeFault::UnsupportedType(d.name()))
    } else {
        match coerced(d, j) {
            Ok(v) => Ok(wire(d, v)),
            Err(e) => Err(e),
        }
    }
}

/// The bytes of a typed value under the type `d`.
///
/// A descriptor outside the supported shapes is an error, whatever the value,
/// and a value of another type is a mismatch.
pub open spec fn encoded_value(d: TypeDescriptor, v: ValueModel) -> Result<Seq<u8>, EncodeFault> {
    if !d.supported() {
        Err(EncodeFault::UnsupportedType(d.name()))
    } else if !has_type(v, d) {
        Err(EncodeFault::TypeMismatch)
    } else {
        Ok(wire(d, v))
    }
}

/// The value of type `d` at the front of `bytes`.
///
/// Bytes after the value are not looked at. A descriptor outside the
/// supported shapes is an error, whatever the bytes.
pub open spec fn decoded_value(d: TypeDescriptor, bytes: Seq<u8>) -> Result<
    ValueModel,
    DecodeFault,
> {
    if !d.supported() {
        Err(DecodeFault::UnsupportedType(d.name()))
    } else {
        match unwire(d, bytes) {
            Ok(t) => Ok(t.value),
            Err(e) => Err(e),
        }
    }
}

/// The text of the value of type `d` at the front of `bytes`.
pub open spec fn decoded(d: TypeDescriptor, bytes: Seq<u8>) -> Result<Seq<char>, DecodeFault> {
    match decoded_value(d, bytes) {
        Ok(v) => Ok(rendered(v)),
        Err(e) => Err(e),
    }
}

/// Encodes a JSON value under a type.
pub fn encode(descriptor: &TypeDescriptor, value: &JsonValue) -> (r: Result<Vec<u8>, EncodeError>)
    ensures
        outcome(r) == encoded(*descriptor, value@),
{
    if !descriptor.is_supported() {
        return Err(EncodeError::UnsupportedType(descriptor.to_name()));
    }
    match coerce(descriptor, value) {
        Err(e) => Err(e),
        Ok(v) => {
            proof {
                lemma_coerced_has_type(*descriptor, value@);
            }
            let mut out: Vec<u8> = Vec::new();
            write_value(descriptor, &v, &mut out);
            assert(out@ =~= wire(*descriptor, v@));
            Ok(out)
        },
    }
}

/// Encodes a typed value under a type.
pub fn encode_value(descriptor: &TypeDescriptor, value: &TypedValue) -> (r: Result<
    Vec<u8>,
    EncodeError,
>)
    ensures
        outcome(r) == encoded_value(*descriptor, value@),
{
    if !descriptor.is_supported() {
        return Err(EncodeError::UnsupportedType(descriptor.to_name()));
    }
    if !is_typed(value, descriptor) {
        return Err(EncodeError::TypeMismatch);
    }
    let mut out: Vec<u8> = Vec::new();
    write_value(descriptor, value, &mut out);
    assert(out@ =~= wire(*descriptor, value@));
    Ok(out)
}

/// Reads the value of a type at the front of a buffer.
///
/// Bytes after the value are not looked at.
pub fn decode_value(descriptor: &TypeDescriptor, bytes: &[u8]) -> (r: Result<
    TypedValue,
    DecodeError,
>)
    ensures
        outcome(r) == decoded_value(*descriptor, bytes@),
{
    if !descriptor.is_supported() {
        return Err(DecodeError::UnsupportedType(descriptor.to_name()));
    }
    assert(bytes@.skip(0) =~= bytes@);
    match read_value(descriptor, bytes, 0) {
        Ok((v, _)) => Ok(v),
        Err(e) => Err(e),
    }
}

/// Decodes the value of a type at the front of a buffer, as text.
///
/// Bytes after the value are not looked at.
pub fn decode(descriptor: &TypeDescriptor, bytes: &[u8]) -> (r: Result<String, DecodeError>)
    ensures
        outcome(r) == decoded(*descriptor, bytes@),
{
    match decode_value(descriptor, bytes) {
        Ok(v) => Ok(v.to_text()),
        Err(e) => Err(e),
    }
}

/// Round trip: what was encoded under a supported type decodes, under the
/// same type, to the text of the value that was encoded, whatever bytes
/// follow.
pub proof fn lemma_round_trip(d: TypeDescriptor, j: JsonModel, rest: Seq<u8>)
    requires
        encoded(d, j) is Ok,
    ensures
        coerced(d, j) is Ok,
        decoded(d, encoded(d, j)->Ok_0 + rest) == Ok::<Seq<char>, DecodeFault>(
            rendered(coerced(d, j)->Ok_0),
        ),
{
    lemma_coerced_has_type(d, j);
    lemma_unwire_wire(d, coerced(d, j)->Ok_0, rest);
}

/// Round trip, for a typed value: what it was encoded to decodes to the value
/// itself, and to its text, whatever bytes follow.
pub proof fn lemma_value_round_trip(d: TypeDescriptor, v: ValueModel, rest: Seq<u8>)
    requires
        encoded_value(d, v) is Ok,
    ensures
        decoded_value(d, encoded_value(d, v)->Ok_0 + rest) == Ok::<ValueModel, DecodeFault>(v),
        decoded(d, encoded_value(d, v)->Ok_0 + rest) == Ok::<Seq<char>, DecodeFault>(rendered(v)),
{
    lemma_unwire_wire(d, v, rest);
}

/// Canonical form: what was decoded encodes again to the bytes it was decoded
/// from, so that the bytes of a value are the only ones that decode to it.
pub proof fn lemma_decoded_is_canonical(d: TypeDescriptor, bytes: Seq<u8>)
    requires
        decoded_value(d, bytes) is Ok,
    ensures
        encoded_value(d, decoded_value(d, bytes)->Ok_0) is Ok,
        encoded_value(d, decoded_value(d, bytes)->Ok_0)->Ok_0.is_prefix_of(bytes),
{
    lemma_wire_unwire(d, bytes);
    let t = unwire(d, bytes)->Ok_0;
    assert(bytes.take(t.used as int).is_prefix_of(bytes));
}

/// The bytes of values of one byte each are as many as the values.
pub proof fn lemma_wire_bytes_len(items: Seq<ValueModel>)
    requires
        forall|i: int|
            0 <= i < items.len() ==> has_type(
                #[trigger] items[i],
                TypeDescriptor::Primitive(Primitive::U8),
            ),
    ensures
        wire_items(TypeDescriptor::Primitive(Primitive::U8), items).len() == items.len(),
    decreases items.len(),
{
    if items.len() > 0 {
        let init = items.drop_last();
        assert forall|i: int| 0 <= i < init.len() implies has_type(
            #[trigger] init[i],
            TypeDescriptor::Primitive(Primitive::U8),
        ) by {
            assert(init[i] == items[i]);
        }
        lemma_wire_bytes_len(init);
        let last = items.last();
        assert(has_type(items[items.len() - 1], TypeDescriptor::Primitive(Primitive::U8)));
        assert(last == ValueModel::Int(last->Int_0));
        lemma_unwire_wire_integer(Primitive::U8, last->Int_0, Seq::empty());
        assert(wire(TypeDescriptor::Primitive(Primitive::U8), last).len() == 1);
    }
}

/// A fixed array takes an array of exactly its length: any other length is a
/// type mismatch, and what is accepted is encoded in exactly that many bytes.
pub proof fn lemma_fixed_bytes_exact(n: usize, j: JsonModel)
    requires
        n == 32 || n == 64,
    ensures
        j matches JsonModel::Array(items) && items.len() != n ==> encoded(
            TypeDescriptor::FixedBytes(n),
            j,
        ) == Err::<Seq<u8>, EncodeFault>(EncodeFault::TypeMismatch),
        !(j is Array) ==> encoded(TypeDescriptor::FixedBytes(n), j) == Err::<Seq<u8>, EncodeFault>(
            EncodeFault::TypeMismatch,
        ),
        encoded(TypeDescriptor::FixedBytes(n), j) matches Ok(bytes) ==> bytes.len() == n,
{
    let d = TypeDescriptor::FixedBytes(n);
    if encoded(d, j) is Ok {
        let items = j->Array_0;
        lemma_coerced_items_have_type(TypeDescriptor::Primitive(Primitive::U8), items);
        lemma_wire_bytes_len(coerced_items(TypeDescriptor::Primitive(Primitive::U8), items)->Ok_0);
    }
}

/// An integer literal outside the range of its type overflows; one inside is
/// encoded, and decodes back to the literal itself.
pub proof fn lemma_integer_boundary(kind: Primitive, literal: Seq<char>, rest: Seq<u8>)
    requires
        kind.is_integer(),
        integer_of(literal) is Some,
    ensures
        ({
            let n = integer_of(literal).unwrap();
            let d = TypeDescriptor::Primitive(kind);
            let j = JsonModel::Number(literal);
            if kind.min_value() <= n <= kind.max_value() {
                &&& encoded(d, j) is Ok
                &&& decoded(d, encoded(d, j)->Ok_0 + rest) == Ok::<Seq<char>, DecodeFault>(literal)
            } else {
                encoded(d, j) == Err::<Seq<u8>, EncodeFault>(EncodeFault::NumericOverflow)
            }
        }),
{
    let n = integer_of(literal).unwrap();
    let d = TypeDescriptor::Primitive(kind);
    let j = JsonModel::Number(literal);
    if kind.min_value() <= n <= kind.max_value() {
        lemma_round_trip(d, j, rest);
        lemma_decimal_of_integer(literal);
    }
}

} // verus!
