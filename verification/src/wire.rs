//! The canonical binary form of typed values.
//!
//! Integers are little-endian in the width of their type, negative ones in
//! two's complement. A boolean is one byte, 0 or 1. A string is its UTF-8 bytes
//! behind a four-byte little-endian length. A sequence is its items behind a
//! four-byte little-endian count. An optional is one byte, 0 or 1, and the
//! value after a 1. A fixed array is its bytes and nothing else.

use vstd::prelude::*;
use vstd::slice::{slice_subrange, slice_to_vec};
use vstd::utf8::{
    decode_utf8, decode_utf8_encode_utf8, encode_utf8, encode_utf8_decode_utf8,
    encode_utf8_valid_utf8, valid_utf8,
};
use crate::descriptor::{Primitive, TypeDescriptor};
use crate::endian::{
    from_twos_complement, le_bytes, le_value, lemma_from_twos_complement_round_trip,
    lemma_le_bytes_len, lemma_le_bytes_of_value, lemma_le_value_bound, lemma_le_value_of_bytes,
    lemma_radix_values, lemma_twos_complement_round_trip, radix, read_le, twos_complement,
    write_le,
};
use crate::error::{DecodeError, DecodeFault};
use crate::value::{has_type, lemma_list_view, models, TypedValue, ValueModel};

verus! {

/// The bytes of a value of a primitive kind.
pub open spec fn wire_primitive(kind: Primitive, v: ValueModel) -> Seq<u8> {
    match kind {
        Primitive::Bool => seq![if v == ValueModel::Bool(true) { 1u8 } else { 0u8 }],
        Primitive::Str => le_bytes(encode_utf8(v->Text_0).len(), 4) + encode_utf8(v->Text_0),
        _ => le_bytes(twos_complement(v->Int_0, kind.width()), kind.width()),
    }
}

/// The bytes of a value of type `d`.
pub open spec fn wire(d: TypeDescriptor, v: ValueModel) -> Seq<u8>
    decreases d.rank(), 0nat,
{
    match d {
        TypeDescriptor::Primitive(kind) => wire_primitive(kind, v),
        TypeDescriptor::FixedBytes(_) => wire_items(
            TypeDescriptor::Primitive(Primitive::U8),
            v->List_0,
        ),
        TypeDescriptor::Sequence(inner) => le_bytes(v->List_0.len(), 4) + wire_items(
            *inner,
            v->List_0,
        ),
        TypeDescriptor::Optional(inner) => match v {
            ValueModel::Present(x) => seq![1u8] + wire(*inner, *x),
            _ => seq![0u8],
        },
    }
}

/// The bytes of values of type `d`, one after the other.
pub open spec fn wire_items(d: TypeDescriptor, items: Seq<ValueModel>) -> Seq<u8>
    decreases d.rank(), items.len() + 1,
{
    if items.len() == 0 {
        Seq::empty()
    } else {
        wire_items(d, items.drop_last()) + wire(d, items.last())
    }
}

/// A value read from the front of a buffer, and the number of bytes it took.
pub struct Taken {
    pub value: ValueModel,
    pub used: nat,
}

/// Values read from the front of a buffer, and the number of bytes they took.
pub struct TakenItems {
    pub values: Seq<ValueModel>,
    pub used: nat,
}

/// The value of a primitive kind at the front of `bytes`.
pub open spec fn unwire_primitive(kind: Primitive, bytes: Seq<u8>) -> Result<Taken, DecodeFault> {
    match kind {
        Primitive::Bool => if bytes.len() < 1 {
            Err(DecodeFault::TruncatedBuffer)
        } else if bytes[0] == 0 {
            Ok(Taken { value: ValueModel::Bool(false), used: 1 })
        } else if bytes[0] == 1 {
            Ok(Taken { value: ValueModel::Bool(true), used: 1 })
        } else {
            Err(DecodeFault::InvalidEncoding)
        },
        Primitive::Str => if bytes.len() < 4 {
            Err(DecodeFault::TruncatedBuffer)
        } else {
            let n = le_value(bytes.take(4));
            if bytes.len() < 4 + n {
                Err(DecodeFault::TruncatedBuffer)
            } else if !valid_utf8(bytes.subrange(4, 4 + n as int)) {
                Err(DecodeFault::InvalidEncoding)
            } else {
                Ok(
                    Taken {
                        value: ValueModel::Text(decode_utf8(bytes.subrange(4, 4 + n as int))),
                        used: 4 + n,
                    },
                )
            }
        },
        _ => if bytes.len() < kind.width() {
            Err(DecodeFault::TruncatedBuffer)
        } else {
            let u = le_value(bytes.take(kind.width() as int));
            Ok(
                Taken {
                    value: ValueModel::Int(
                        if kind.is_signed() {
                            from_twos_complement(u, kind.width())
                        } else {
                            u as int
                        },
                    ),
                    used: kind.width(),
                },
            )
        },
    }
}

/// The value of type `d` at the front of `bytes`. What follows it is not read.
pub open spec fn unwire(d: TypeDescriptor, bytes: Seq<u8>) -> Result<Taken, DecodeFault>
    decreases d.rank(), 0nat,
{
    match d {
        TypeDescriptor::Primitive(kind) => unwire_primitive(kind, bytes),
        TypeDescriptor::FixedBytes(n) => match unwire_items(
            TypeDescriptor::Primitive(Primitive::U8),
            bytes,
            n as nat,
        ) {
            Ok(t) => Ok(Taken { value: ValueModel::List(t.values), used: t.used }),
            Err(e) => Err(e),
        },
        TypeDescriptor::Sequence(inner) => if bytes.len() < 4 {
            Err(DecodeFault::TruncatedBuffer)
        } else {
            match unwire_items(*inner, bytes.skip(4), le_value(bytes.take(4))) {
                Ok(t) => Ok(Taken { value: ValueModel::List(t.values), used: 4 + t.used }),
                Err(e) => Err(e),
            }
        },
        TypeDescriptor::Optional(inner) => if bytes.len() < 1 {
            Err(DecodeFault::TruncatedBuffer)
        } else if bytes[0] == 0 {
            Ok(Taken { value: ValueModel::Absent, used: 1 })
        } else if bytes[0] == 1 {
            match unwire(*inner, bytes.skip(1)) {
                Ok(t) => Ok(Taken { value: ValueModel::Present(Box::new(t.value)), used: 1 + t.used }),
                Err(e) => Err(e),
            }
        } else {
            Err(DecodeFault::InvalidEncoding)
        },
    }
}

/// The first `count` values of type `d` at the front of `bytes`, one after
/// the other. The first one that cannot be read decides the error.
pub open spec fn unwire_items(d: TypeDescriptor, bytes: Seq<u8>, count: nat) -> Result<
    TakenItems,
    DecodeFault,
>
    decreases d.rank(), count + 1,
{
    if count == 0 {
        Ok(TakenItems { values: Seq::empty(), used: 0 })
    } else {
        match unwire_items(d, bytes, (count - 1) as nat) {
            Err(e) => Err(e),
            Ok(init) => match unwire(d, bytes.skip(init.used as int)) {
                Err(e) => Err(e),
                Ok(t) => Ok(
                    TakenItems { values: init.values.push(t.value), used: init.used + t.used },
                ),
            },
        }
    }
}

/// The range of an integer kind, in terms of its width.
pub proof fn lemma_kind_range(kind: Primitive)
    requires
        kind.is_integer(),
    ensures
        kind.is_signed() ==> kind.min_value() == -(radix(kind.width()) / 2) && kind.max_value()
            == radix(kind.width()) / 2 - 1,
        !kind.is_signed() ==> kind.min_value() == 0 && kind.max_value() == radix(kind.width()) - 1,
        0 < kind.width() <= 16,
{
    lemma_radix_values();
}

/// An integer within the range of its kind is read back from its bytes.
pub proof fn lemma_unwire_wire_integer(kind: Primitive, n: int, rest: Seq<u8>)
    requires
        kind.is_integer(),
        kind.min_value() <= n <= kind.max_value(),
    ensures
        unwire_primitive(kind, wire_primitive(kind, ValueModel::Int(n)) + rest) == Ok::<
            Taken,
            DecodeFault,
        >(Taken { value: ValueModel::Int(n), used: kind.width() }),
        wire_primitive(kind, ValueModel::Int(n)).len() == kind.width(),
{
    let w = kind.width();
    let u = twos_complement(n, w);
    let body = le_bytes(u, w);
    lemma_kind_range(kind);
    lemma_radix_values();
    lemma_le_bytes_len(u, w);
    if kind.is_signed() {
        lemma_twos_complement_round_trip(n, w);
    }
    lemma_le_value_of_bytes(u, w);
    assert((body + rest).take(w as int) =~= body);
}

/// A value of a primitive kind is read back from its bytes, whatever follows.
pub proof fn lemma_unwire_wire_primitive(kind: Primitive, v: ValueModel, rest: Seq<u8>)
    requires
        has_type(v, TypeDescriptor::Primitive(kind)),
    ensures
        unwire_primitive(kind, wire_primitive(kind, v) + rest) == Ok::<Taken, DecodeFault>(
            Taken { value: v, used: wire_primitive(kind, v).len() },
        ),
{
    match kind {
        Primitive::Bool => {
            assert(v == ValueModel::Bool(true) || v == ValueModel::Bool(false));
        },
        Primitive::Str => {
            let s = v->Text_0;
            let body = encode_utf8(s);
            let head = le_bytes(body.len(), 4);
            let all = head + body + rest;
            lemma_radix_values();
            lemma_le_bytes_len(body.len(), 4);
            lemma_le_value_of_bytes(body.len(), 4);
            assert(all.take(4) =~= head);
            assert(all.subrange(4, 4 + body.len() as int) =~= body);
            encode_utf8_valid_utf8(s);
            encode_utf8_decode_utf8(s);
        },
        _ => {
            lemma_unwire_wire_integer(kind, v->Int_0, rest);
        },
    }
}

/// A value is read back from its bytes, whatever follows them.
pub proof fn lemma_unwire_wire(d: TypeDescriptor, v: ValueModel, rest: Seq<u8>)
    requires
        has_type(v, d),
    ensures
        unwire(d, wire(d, v) + rest) == Ok::<Taken, DecodeFault>(
            Taken { value: v, used: wire(d, v).len() },
        ),
    decreases d.rank(), 0nat,
{
    match d {
        TypeDescriptor::Primitive(kind) => {
            lemma_unwire_wire_primitive(kind, v, rest);
        },
        TypeDescriptor::FixedBytes(n) => {
            lemma_unwire_wire_items(TypeDescriptor::Primitive(Primitive::U8), v->List_0, rest);
        },
        TypeDescriptor::Sequence(inner) => {
            let items = v->List_0;
            let head = le_bytes(items.len(), 4);
            let body = wire_items(*inner, items);
            let all = head + body + rest;
            lemma_radix_values();
            lemma_le_bytes_len(items.len(), 4);
            lemma_le_value_of_bytes(items.len(), 4);
            assert(all.take(4) =~= head);
            assert(all.skip(4) =~= body + rest);
            lemma_unwire_wire_items(*inner, items, rest);
        },
        TypeDescriptor::Optional(inner) => {
            match v {
                ValueModel::Present(x) => {
                    let all = seq![1u8] + wire(*inner, *x) + rest;
                    assert(all.skip(1) =~= wire(*inner, *x) + rest);
                    lemma_unwire_wire(*inner, *x, rest);
                },
                _ => {},
            }
        },
    }
}

/// Values are read back from their bytes, whatever follows them.
pub proof fn lemma_unwire_wire_items(d: TypeDescriptor, items: Seq<ValueModel>, rest: Seq<u8>)
    requires
        forall|i: int| 0 <= i < items.len() ==> has_type(#[trigger] items[i], d),
    ensures
        unwire_items(d, wire_items(d, items) + rest, items.len()) == Ok::<TakenItems, DecodeFault>(
            TakenItems { values: items, used: wire_items(d, items).len() },
        ),
    decreases d.rank(), items.len() + 1,
{
    if items.len() > 0 {
        let init = items.drop_last();
        let last = items.last();
        let all = wire_items(d, items) + rest;
        assert forall|i: int| 0 <= i < init.len() implies has_type(#[trigger] init[i], d) by {
            assert(init[i] == items[i]);
        }
        assert(all =~= wire_items(d, init) + (wire(d, last) + rest));
        lemma_unwire_wire_items(d, init, wire(d, last) + rest);
        assert(all.skip(wire_items(d, init).len() as int) =~= wire(d, last) + rest);
        lemma_unwire_wire(d, last, rest);
        assert(init.push(last) =~= items);
    } else {
        assert(items =~= Seq::<ValueModel>::empty());
    }
}

/// What is read as a primitive value has that kind, and its bytes are the
/// bytes it was read from.
pub proof fn lemma_wire_unwire_primitive(kind: Primitive, bytes: Seq<u8>)
    requires
        unwire_primitive(kind, bytes) is Ok,
    ensures
        ({
            let t = unwire_primitive(kind, bytes)->Ok_0;
            &&& t.used <= bytes.len()
            &&& has_type(t.value, TypeDescriptor::Primitive(kind))
            &&& wire_primitive(kind, t.value) == bytes.take(t.used as int)
        }),
{
    let t = unwire_primitive(kind, bytes)->Ok_0;
    match kind {
        Primitive::Bool => {
            assert(wire_primitive(kind, t.value) =~= bytes.take(1));
        },
        Primitive::Str => {
            let n = le_value(bytes.take(4));
            let body = bytes.subrange(4, 4 + n as int);
            lemma_le_value_bound(bytes.take(4));
            lemma_radix_values();
            lemma_le_bytes_of_value(bytes.take(4));
            decode_utf8_encode_utf8(body);
            assert(bytes.take(4) + body =~= bytes.take(4 + n as int));
        },
        _ => {
            let w = kind.width();
            let head = bytes.take(w as int);
            let u = le_value(head);
            lemma_kind_range(kind);
            lemma_radix_values();
            lemma_le_value_bound(head);
            lemma_le_bytes_of_value(head);
            if kind.is_signed() {
                lemma_from_twos_complement_round_trip(u, w);
            }
        },
    }
}

/// Canonical form: what is read as a value of a type has that type, and its
/// bytes are exactly the bytes it was read from. No two byte strings stand
/// for one value.
pub proof fn lemma_wire_unwire(d: TypeDescriptor, bytes: Seq<u8>)
    requires
        unwire(d, bytes) is Ok,
    ensures
        ({
            let t = unwire(d, bytes)->Ok_0;
            &&& t.used <= bytes.len()
            &&& has_type(t.value, d)
            &&& wire(d, t.value) == bytes.take(t.used as int)
        }),
    decreases d.rank(), 0nat,
{
    let t = unwire(d, bytes)->Ok_0;
    match d {
        TypeDescriptor::Primitive(kind) => {
            lemma_wire_unwire_primitive(kind, bytes);
        },
        TypeDescriptor::FixedBytes(n) => {
            lemma_wire_unwire_items(TypeDescriptor::Primitive(Primitive::U8), bytes, n as nat);
        },
        TypeDescriptor::Sequence(inner) => {
            let count = le_value(bytes.take(4));
            let tail = bytes.skip(4);
            lemma_le_value_bound(bytes.take(4));
            lemma_radix_values();
            lemma_le_bytes_of_value(bytes.take(4));
            lemma_wire_unwire_items(*inner, tail, count);
            let items = unwire_items(*inner, tail, count)->Ok_0;
            assert(bytes.take(4) + tail.take(items.used as int) =~= bytes.take(
                4 + items.used as int,
            ));
        },
        TypeDescriptor::Optional(inner) => {
            if bytes[0] == 1 {
                let tail = bytes.skip(1);
                lemma_wire_unwire(*inner, tail);
                let x = unwire(*inner, tail)->Ok_0;
                assert(seq![1u8] + tail.take(x.used as int) =~= bytes.take(1 + x.used as int));
            } else {
                assert(seq![0u8] =~= bytes.take(1));
            }
        },
    }
}

/// Canonical form, for values one after the other.
pub proof fn lemma_wire_unwire_items(d: TypeDescriptor, bytes: Seq<u8>, count: nat)
    requires
        unwire_items(d, bytes, count) is Ok,
    ensures
        ({
            let t = unwire_items(d, bytes, count)->Ok_0;
            &&& t.used <= bytes.len()
            &&& t.values.len() == count
            &&& forall|i: int| 0 <= i < count ==> has_type(#[trigger] t.values[i], d)
            &&& wire_items(d, t.values) == bytes.take(t.used as int)
        }),
    decreases d.rank(), count + 1,
{
    let t = unwire_items(d, bytes, count)->Ok_0;
    if count == 0 {
        assert(wire_items(d, t.values) =~= bytes.take(0));
    } else {
        lemma_wire_unwire_items(d, bytes, (count - 1) as nat);
        let init = unwire_items(d, bytes, (count - 1) as nat)->Ok_0;
        let tail = bytes.skip(init.used as int);
        lemma_wire_unwire(d, tail);
        let last = unwire(d, tail)->Ok_0;
        assert(t.values.drop_last() =~= init.values);
        assert(t.values.last() == last.value);
        assert(bytes.take(init.used as int) + tail.take(last.used as int) =~= bytes.take(
            t.used as int,
        ));
        assert forall|i: int| 0 <= i < count implies has_type(#[trigger] t.values[i], d) by {
            if i < count - 1 {
                assert(t.values[i] == init.values[i]);
            }
        }
    }
}

/// The bytes of the first items and of the next one are the bytes of them all.
pub proof fn lemma_wire_items_take(d: TypeDescriptor, items: Seq<ValueModel>, k: int)
    requires
        0 <= k < items.len(),
    ensures
        wire_items(d, items.take(k + 1)) == wire_items(d, items.take(k)) + wire(d, items[k]),
{
    assert(items.take(k + 1).drop_last() =~= items.take(k));
}

/// An error among the first values is the error of them all.
pub proof fn lemma_unwire_items_error(d: TypeDescriptor, bytes: Seq<u8>, k: nat, count: nat)
    requires
        k <= count,
        unwire_items(d, bytes, k) is Err,
    ensures
        unwire_items(d, bytes, count) == unwire_items(d, bytes, k),
    decreases count,
{
    if k < count {
        lemma_unwire_items_error(d, bytes, k, (count - 1) as nat);
    }
}

/// `String::from_utf8` of `std`: the string that the bytes are the UTF-8
/// encoding of, or nothing where they are not UTF-8.
#[verifier::external_body]
fn string_from_utf8(bytes: Vec<u8>) -> (r: Option<String>)
    ensures
        match r {
            Some(s) => valid_utf8(bytes@) && s@ == decode_utf8(bytes@),
            None => !valid_utf8(bytes@),
        },
{
    String::from_utf8(bytes).ok()
}

/// Appends `bytes` to `out`.
fn append_bytes(out: &mut Vec<u8>, bytes: &[u8])
    ensures
        final(out)@ == old(out)@ + bytes@,
{
    let mut i: usize = 0;
    assert(old(out)@ + bytes@.take(0) =~= old(out)@);
    while i < bytes.len()
        invariant
            i <= bytes.len(),
            out@ == old(out)@ + bytes@.take(i as int),
        decreases bytes.len() - i,
    {
        out.push(bytes[i]);
        assert(old(out)@ + bytes@.take(i + 1) =~= (old(out)@ + bytes@.take(i as int)).push(
            bytes@[i as int],
        ));
        i += 1;
    }
    assert(bytes@.take(i as int) =~= bytes@);
}

/// The greatest number that `width` bytes hold.
fn greatest_unsigned(width: usize) -> (r: u128)
    requires
        width == 1 || width == 2 || width == 4 || width == 8 || width == 16,
    ensures
        r == radix(width as nat) - 1,
{
    proof {
        lemma_radix_values();
    }
    if width == 1 {
        0xff
    } else if width == 2 {
        0xffff
    } else if width == 4 {
        0xffff_ffff
    } else if width == 8 {
        0xffff_ffff_ffff_ffff
    } else {
        0xffff_ffff_ffff_ffff_ffff_ffff_ffff_ffff
    }
}

/// Appends the bytes of an integer of kind `kind`.
fn write_integer(kind: Primitive, v: &TypedValue, out: &mut Vec<u8>)
    requires
        kind.is_integer(),
        has_type(v@, TypeDescriptor::Primitive(kind)),
    ensures
        final(out)@ == old(out)@ + wire_primitive(kind, v@),
{
    let width = kind.byte_width();
    proof {
        lemma_kind_range(kind);
        lemma_radix_values();
    }
    let x: u128 = match v {
        TypedValue::Uint(u) => *u,
        TypedValue::Int(i) => {
            if *i >= 0 {
                *i as u128
            } else {
                let magnitude: u128 = if *i == i128::MIN {
                    0x8000_0000_0000_0000_0000_0000_0000_0000
                } else {
                    (-*i) as u128
                };
                (greatest_unsigned(width) - magnitude) + 1
            }
        },
        _ => 0,
    };
    assert(x == twos_complement(v@->Int_0, width as nat));
    write_le(x, width, out);
}

/// Appends the bytes of a value of a primitive kind.
fn write_primitive(kind: Primitive, v: &TypedValue, out: &mut Vec<u8>)
    requires
        has_type(v@, TypeDescriptor::Primitive(kind)),
    ensures
        final(out)@ == old(out)@ + wire_primitive(kind, v@),
{
    match kind {
        Primitive::Bool => {
            if let TypedValue::Bool(b) = v {
                out.push(if *b { 1u8 } else { 0u8 });
                assert(out@ =~= old(out)@ + wire_primitive(kind, v@));
            }
        },
        Primitive::Str => {
            if let TypedValue::Text(s) = v {
                let bytes = s.as_str().as_bytes();
                write_le(bytes.len() as u128, 4, out);
                append_bytes(out, bytes);
                assert(out@ =~= old(out)@ + wire_primitive(kind, v@));
            }
        },
        _ => {
            write_integer(kind, v, out);
        },
    }
}

/// Appends the bytes of values of type `d`, one after the other.
fn write_items(d: &TypeDescriptor, items: &Vec<TypedValue>, out: &mut Vec<u8>)
    requires
        forall|i: int| 0 <= i < items@.len() ==> has_type(#[trigger] items@[i]@, *d),
    ensures
        final(out)@ == old(out)@ + wire_items(*d, models(items@)),
    decreases d.rank(), 1nat,
{
    let ghost all = models(items@);
    let mut i: usize = 0;
    assert(all.take(0) =~= Seq::<ValueModel>::empty());
    assert(old(out)@ + Seq::<u8>::empty() =~= old(out)@);
    while i < items.len()
        invariant
            i <= items.len(),
            all == models(items@),
            forall|k: int| 0 <= k < items@.len() ==> has_type(#[trigger] items@[k]@, *d),
            out@ == old(out)@ + wire_items(*d, all.take(i as int)),
        decreases items.len() - i,
    {
        proof {
            lemma_wire_items_take(*d, all, i as int);
        }
        write_value(d, &items[i], out);
        assert(out@ =~= old(out)@ + (wire_items(*d, all.take(i as int)) + wire(
            *d,
            all[i as int],
        )));
        i += 1;
    }
    assert(all.take(i as int) =~= all);
}

/// Appends the bytes of a value of type `d`.
pub fn write_value(d: &TypeDescriptor, v: &TypedValue, out: &mut Vec<u8>)
    requires
        has_type(v@, *d),
    ensures
        final(out)@ == old(out)@ + wire(*d, v@),
    decreases d.rank(), 0nat,
{
    match d {
        TypeDescriptor::Primitive(kind) => {
            write_primitive(*kind, v, out);
        },
        TypeDescriptor::FixedBytes(_) => {
            if let TypedValue::List(items) = v {
                proof {
                    lemma_list_view(*items);
                    assert forall|i: int| 0 <= i < items@.len() implies has_type(
                        #[trigger] items@[i]@,
                        TypeDescriptor::Primitive(Primitive::U8),
                    ) by {
                        assert(models(items@)[i] == items@[i]@);
                    }
                }
                write_items(&TypeDescriptor::Primitive(Primitive::U8), items, out);
            }
        },
        TypeDescriptor::Sequence(inner) => {
            if let TypedValue::List(items) = v {
                proof {
                    lemma_list_view(*items);
                    assert forall|i: int| 0 <= i < items@.len() implies has_type(
                        #[trigger] items@[i]@,
                        **inner,
                    ) by {
                        assert(models(items@)[i] == items@[i]@);
                    }
                }
                write_le(items.len() as u128, 4, out);
                write_items(inner, items, out);
                assert(out@ =~= old(out)@ + wire(*d, v@));
            }
        },
        TypeDescriptor::Optional(inner) => {
            match v {
                TypedValue::Present(x) => {
                    out.push(1u8);
                    write_value(inner, x, out);
                    assert(out@ =~= old(out)@ + wire(*d, v@));
                },
                _ => {
                    out.push(0u8);
                    assert(out@ =~= old(out)@ + wire(*d, v@));
                },
            }
        },
    }
}

/// Reads the value of a primitive kind that starts at `at`.
fn read_primitive(kind: Primitive, bytes: &[u8], at: usize) -> (r: Result<
    (TypedValue, usize),
    DecodeError,
>)
    requires
        at <= bytes.len(),
    ensures
        match r {
            Ok((v, next)) => at <= next <= bytes.len() && unwire_primitive(
                kind,
                bytes@.skip(at as int),
            ) == Ok::<Taken, DecodeFault>(Taken { value: v@, used: (next - at) as nat }),
            Err(e) => unwire_primitive(kind, bytes@.skip(at as int)) == Err::<Taken, DecodeFault>(
                e@,
            ),
        },
{
    let ghost tail = bytes@.skip(at as int);
    let left = bytes.len() - at;
    match kind {
        Primitive::Bool => {
            if left < 1 {
                return Err(DecodeError::TruncatedBuffer);
            }
            assert(tail[0] == bytes@[at as int]);
            let b = bytes[at];
            if b == 0 {
                Ok((TypedValue::Bool(false), at + 1))
            } else if b == 1 {
                Ok((TypedValue::Bool(true), at + 1))
            } else {
                Err(DecodeError::InvalidEncoding)
            }
        },
        Primitive::Str => {
            if left < 4 {
                return Err(DecodeError::TruncatedBuffer);
            }
            assert(tail.take(4) =~= bytes@.subrange(at as int, at + 4));
            let n = read_le(bytes, at, 4);
            proof {
                lemma_le_value_bound(tail.take(4));
                lemma_radix_values();
            }
            if n > (left - 4) as u128 {
                return Err(DecodeError::TruncatedBuffer);
            }
            let n = n as usize;
            let start = at + 4;
            assert(tail.subrange(4, 4 + n as int) =~= bytes@.subrange(start as int, start + n));
            let body = slice_to_vec(slice_subrange(bytes, start, start + n));
            match string_from_utf8(body) {
                Some(s) => Ok((TypedValue::Text(s), start + n)),
                None => Err(DecodeError::InvalidEncoding),
            }
        },
        _ => {
            let width = kind.byte_width();
            if left < width {
                return Err(DecodeError::TruncatedBuffer);
            }
            proof {
                lemma_kind_range(kind);
                lemma_radix_values();
                lemma_le_value_bound(tail.take(width as int));
            }
            assert(tail.take(width as int) =~= bytes@.subrange(at as int, at + width));
            let u = read_le(bytes, at, width);
            if !kind.signed() {
                Ok((TypedValue::Uint(u), at + width))
            } else if u > kind.greatest() {
                let magnitude = (greatest_unsigned(width) - u) + 1;
                if magnitude == 0x8000_0000_0000_0000_0000_0000_0000_0000 {
                    Ok((TypedValue::Int(i128::MIN), at + width))
                } else {
                    Ok((TypedValue::Int(-(magnitude as i128)), at + width))
                }
            } else {
                Ok((TypedValue::Int(u as i128), at + width))
            }
        },
    }
}

/// Reads `count` values of type `d`, the first of which starts at `at`.
fn read_items(d: &TypeDescriptor, bytes: &[u8], at: usize, count: usize) -> (r: Result<
    (Vec<TypedValue>, usize),
    DecodeError,
>)
    requires
        at <= bytes.len(),
    ensures
        match r {
            Ok((values, next)) => at <= next <= bytes.len() && unwire_items(
                *d,
                bytes@.skip(at as int),
                count as nat,
            ) == Ok::<TakenItems, DecodeFault>(
                TakenItems { values: models(values@), used: (next - at) as nat },
            ),
            Err(e) => unwire_items(*d, bytes@.skip(at as int), count as nat) == Err::<
                TakenItems,
                DecodeFault,
            >(e@),
        },
    decreases d.rank(), 1nat,
{
    let ghost tail = bytes@.skip(at as int);
    let mut out: Vec<TypedValue> = Vec::new();
    let mut pos: usize = at;
    let mut i: usize = 0;
    assert(models(out@) =~= Seq::<ValueModel>::empty());
    while i < count
        invariant
            i <= count,
            at <= pos <= bytes.len(),
            tail == bytes@.skip(at as int),
            unwire_items(*d, tail, i as nat) == Ok::<TakenItems, DecodeFault>(
                TakenItems { values: models(out@), used: (pos - at) as nat },
            ),
        decreases count - i,
    {
        assert(tail.skip(pos - at) =~= bytes@.skip(pos as int));
        match read_value(d, bytes, pos) {
            Err(e) => {
                proof {
                    lemma_unwire_items_error(*d, tail, (i + 1) as nat, count as nat);
                }
                return Err(e);
            },
            Ok((v, next)) => {
                let ghost before = models(out@);
                out.push(v);
                assert(models(out@) =~= before.push(v@));
                pos = next;
            },
        }
        i += 1;
    }
    Ok((out, pos))
}

/// Reads the value of type `d` that starts at `at`.
///
/// The second part of the result is where the value ends.
pub fn read_value(d: &TypeDescriptor, bytes: &[u8], at: usize) -> (r: Result<
    (TypedValue, usize),
    DecodeError,
>)
    requires
        at <= bytes.len(),
    ensures
        match r {
            Ok((v, next)) => at <= next <= bytes.len() && unwire(*d, bytes@.skip(at as int))
                == Ok::<Taken, DecodeFault>(Taken { value: v@, used: (next - at) as nat }),
            Err(e) => unwire(*d, bytes@.skip(at as int)) == Err::<Taken, DecodeFault>(e@),
        },
    decreases d.rank(), 0nat,
{
    let ghost tail = bytes@.skip(at as int);
    match d {
        TypeDescriptor::Primitive(kind) => read_primitive(*kind, bytes, at),
        TypeDescriptor::FixedBytes(n) => {
            match read_items(&TypeDescriptor::Primitive(Primitive::U8), bytes, at, *n) {
                Ok((values, next)) => {
                    proof {
                        lemma_list_view(values);
                    }
                    Ok((TypedValue::List(values), next))
                },
                Err(e) => Err(e),
            }
        },
        TypeDescriptor::Sequence(inner) => {
            if bytes.len() - at < 4 {
                return Err(DecodeError::TruncatedBuffer);
            }
            assert(tail.take(4) =~= bytes@.subrange(at as int, at + 4));
            assert(tail.skip(4) =~= bytes@.skip(at + 4));
            let count = read_le(bytes, at, 4);
            proof {
                lemma_le_value_bound(tail.take(4));
                lemma_radix_values();
            }
            match read_items(inner, bytes, at + 4, count as usize) {
                Ok((values, next)) => {
                    proof {
                        lemma_list_view(values);
                    }
                    Ok((TypedValue::List(values), next))
                },
                Err(e) => Err(e),
            }
        },
        TypeDescriptor::Optional(inner) => {
            if bytes.len() - at < 1 {
                return Err(DecodeError::TruncatedBuffer);
            }
            assert(tail[0] == bytes@[at as int]);
            assert(tail.skip(1) =~= bytes@.skip(at + 1));
            let flag = bytes[at];
            if flag == 0 {
                Ok((TypedValue::Absent, at + 1))
            } else if flag == 1 {
                match read_value(inner, bytes, at + 1) {
                    Ok((v, next)) => Ok((TypedValue::Present(Box::new(v)), next)),
                    Err(e) => Err(e),
                }
            } else {
                Err(DecodeError::InvalidEncoding)
            }
        },
    }
}

} // verus!
