//! Typed values: what a JSON value becomes once its type is known, and what
//! decoded bytes are before they are written out as text.

use vstd::prelude::*;
use vstd::std_specs::vec::axiom_vec_index_decreases;
use vstd::string::*;
use vstd::utf8::encode_utf8;
use crate::decimal::{decimal, integer_of, read_integer, write_decimal};
use crate::descriptor::{Primitive, TypeDescriptor};
use crate::error::{outcome, EncodeError, EncodeFault};
use crate::json::{JsonModel, JsonValue};

verus! {

/// A value of one of the types that a descriptor can name.
#[derive(Debug, PartialEq, Eq)]
pub enum TypedValue {
    /// An integer of a signed kind.
    Int(i128),
    /// An integer of an unsigned kind.
    Uint(u128),
    Bool(bool),
    Text(String),
    /// The items of a sequence, or the bytes of a fixed array.
    List(Vec<TypedValue>),
    /// An optional that holds nothing.
    Absent,
    /// An optional that holds a value.
    Present(Box<TypedValue>),
}

/// The mathematical model of a typed value.
pub enum ValueModel {
    Int(int),
    Bool(bool),
    Text(Seq<char>),
    List(Seq<ValueModel>),
    Absent,
    Present(Box<ValueModel>),
}

impl View for TypedValue {
    type V = ValueModel;

    open spec fn view(&self) -> ValueModel
        decreases self,
    {
        match self {
            TypedValue::Int(n) => ValueModel::Int(*n as int),
            TypedValue::Uint(n) => ValueModel::Int(*n as int),
            TypedValue::Bool(b) => ValueModel::Bool(*b),
            TypedValue::Text(text) => ValueModel::Text(text@),
            TypedValue::List(items) => ValueModel::List(
                Seq::new(
                    items@.len(),
                    |i: int|
                        if 0 <= i < items@.len() {
                            items@[i].view()
                        } else {
                            ValueModel::Bool(false)
                        },
                ),
            ),
            TypedValue::Absent => ValueModel::Absent,
            TypedValue::Present(inner) => ValueModel::Present(Box::new((**inner).view())),
        }
    }
}

impl Clone for TypedValue {
    fn clone(&self) -> (r: Self)
        ensures
            r@ == self@,
        decreases self,
    {
        match self {
            TypedValue::Int(n) => TypedValue::Int(*n),
            TypedValue::Uint(n) => TypedValue::Uint(*n),
            TypedValue::Bool(b) => TypedValue::Bool(*b),
            TypedValue::Text(text) => TypedValue::Text(text.clone()),
            TypedValue::List(items) => {
                let mut copies: Vec<TypedValue> = Vec::new();
                let mut i: usize = 0;
                while i < items.len()
                    invariant
                        i <= items.len(),
                        *self == TypedValue::List(*items),
                        copies@.len() == i,
                        forall|k: int| 0 <= k < i ==> (#[trigger] copies@[k])@ == items@[k]@,
                    decreases items.len() - i,
                {
                    proof {
                        axiom_vec_index_decreases(*items, i as int);
                        assert(decreases_to!(*self => self->List_0));
                    }
                    let copy = items[i].clone();
                    copies.push(copy);
                    i += 1;
                }
                assert(TypedValue::List(copies)@->List_0 =~= self@->List_0);
                TypedValue::List(copies)
            },
            TypedValue::Absent => TypedValue::Absent,
            TypedValue::Present(inner) => {
                let copy = (&**inner).clone();
                TypedValue::Present(Box::new(copy))
            },
        }
    }
}

/// The models of the values of a vector, in order.
pub open spec fn models(items: Seq<TypedValue>) -> Seq<ValueModel> {
    Seq::new(items.len(), |i: int| items[i]@)
}

/// Whether `v` is a value of the type that `d` describes.
///
/// A string and a sequence are no longer than a four-byte length can say.
pub open spec fn has_type(v: ValueModel, d: TypeDescriptor) -> bool
    decreases d.rank(),
{
    match d {
        TypeDescriptor::Primitive(kind) => match kind {
            Primitive::Bool => v is Bool,
            Primitive::Str => v matches ValueModel::Text(s) && encode_utf8(s).len() <= u32::MAX,
            _ => v matches ValueModel::Int(n) && kind.min_value() <= n <= kind.max_value(),
        },
        TypeDescriptor::FixedBytes(n) => v matches ValueModel::List(items) && items.len() == n
            && forall|i: int|
            0 <= i < items.len() ==> has_type(
                #[trigger] items[i],
                TypeDescriptor::Primitive(Primitive::U8),
            ),
        TypeDescriptor::Sequence(inner) => v matches ValueModel::List(items) && items.len()
            <= u32::MAX && forall|i: int|
            0 <= i < items.len() ==> has_type(#[trigger] items[i], *inner),
        TypeDescriptor::Optional(inner) => match v {
            ValueModel::Absent => true,
            ValueModel::Present(x) => has_type(*x, *inner),
            _ => false,
        },
    }
}

/// The integer of kind `kind` that a number literal stands for.
pub open spec fn coerced_integer(kind: Primitive, literal: Seq<char>) -> Result<
    ValueModel,
    EncodeFault,
> {
    match integer_of(literal) {
        None => Err(EncodeFault::TypeMismatch),
        Some(n) => if kind.min_value() <= n <= kind.max_value() {
            Ok(ValueModel::Int(n))
        } else {
            Err(EncodeFault::NumericOverflow)
        },
    }
}

/// The value of a primitive kind that a JSON value stands for.
pub open spec fn coerced_primitive(kind: Primitive, j: JsonModel) -> Result<
    ValueModel,
    EncodeFault,
> {
    match kind {
        Primitive::Bool => match j {
            JsonModel::Bool(b) => Ok(ValueModel::Bool(b)),
            _ => Err(EncodeFault::TypeMismatch),
        },
        Primitive::Str => match j {
            JsonModel::Text(s) => if encode_utf8(s).len() <= u32::MAX {
                Ok(ValueModel::Text(s))
            } else {
                Err(EncodeFault::TooLong)
            },
            _ => Err(EncodeFault::TypeMismatch),
        },
        _ => match j {
            JsonModel::Number(literal) => coerced_integer(kind, literal),
            _ => Err(EncodeFault::TypeMismatch),
        },
    }
}

/// The value of type `d` that a JSON value stands for.
///
/// A number literal becomes an integer where it lies in the type's range;
/// `true` and `false` a boolean; a string a string; an array a sequence, or a
/// fixed array where it has exactly that many items; `null` an absent
/// optional, and anything else a present one. In an array the first item that
/// fails decides the error.
pub open spec fn coerced(d: TypeDescriptor, j: JsonModel) -> Result<ValueModel, EncodeFault>
    decreases d.rank(), 0nat,
{
    match d {
        TypeDescriptor::Primitive(kind) => coerced_primitive(kind, j),
        TypeDescriptor::FixedBytes(n) => match j {
            JsonModel::Array(items) => if items.len() != n {
                Err(EncodeFault::TypeMismatch)
            } else {
                match coerced_items(TypeDescriptor::Primitive(Primitive::U8), items) {
                    Ok(values) => Ok(ValueModel::List(values)),
                    Err(e) => Err(e),
                }
            },
            _ => Err(EncodeFault::TypeMismatch),
        },
        TypeDescriptor::Sequence(inner) => match j {
            JsonModel::Array(items) => if items.len() > u32::MAX {
                Err(EncodeFault::TooLong)
            } else {
                match coerced_items(*inner, items) {
                    Ok(values) => Ok(ValueModel::List(values)),
                    Err(e) => Err(e),
                }
            },
            _ => Err(EncodeFault::TypeMismatch),
        },
        TypeDescriptor::Optional(inner) => match j {
            JsonModel::Null => Ok(ValueModel::Absent),
            _ => match coerced(*inner, j) {
                Ok(v) => Ok(ValueModel::Present(Box::new(v))),
                Err(e) => Err(e),
            },
        },
    }
}

/// The values of type `d` that the items of a JSON array stand for.
pub open spec fn coerced_items(d: TypeDescriptor, items: Seq<JsonModel>) -> Result<
    Seq<ValueModel>,
    EncodeFault,
>
    decreases d.rank(), items.len() + 1,
{
    if items.len() == 0 {
        Ok(Seq::empty())
    } else {
        match coerced_items(d, items.drop_last()) {
            Err(e) => Err(e),
            Ok(init) => match coerced(d, items.last()) {
                Err(e) => Err(e),
                Ok(v) => Ok(init.push(v)),
            },
        }
    }
}

/// What `std` writes for a string under `{:?}`: the string in double quotes,
/// with the characters escaped that `char::escape_debug` escapes.
pub uninterp spec fn debug_text(s: Seq<char>) -> Seq<char>;

/// The parts of `parts`, with a comma and a space between each two.
pub open spec fn joined(parts: Seq<Seq<char>>) -> Seq<char>
    decreases parts.len(),
{
    if parts.len() == 0 {
        Seq::empty()
    } else if parts.len() == 1 {
        parts[0]
    } else {
        joined(parts.drop_last()) + ", "@ + parts.last()
    }
}

/// The text of a value: an integer in decimal, a boolean as `true` or
/// `false`, a string quoted, a list in square brackets with its items
/// separated by a comma and a space, an optional as `None` or `Some(..)`.
pub open spec fn rendered(v: ValueModel) -> Seq<char>
    decreases v,
{
    match v {
        ValueModel::Int(n) => decimal(n),
        ValueModel::Bool(b) => if b {
            "true"@
        } else {
            "false"@
        },
        ValueModel::Text(s) => debug_text(s),
        ValueModel::List(items) => "["@ + joined(rendered_each(items)) + "]"@,
        ValueModel::Absent => "None"@,
        ValueModel::Present(inner) => "Some("@ + rendered(*inner) + ")"@,
    }
}

/// The texts of the values, in order.
pub open spec fn rendered_each(items: Seq<ValueModel>) -> Seq<Seq<char>>
    decreases items,
{
    Seq::new(
        items.len(),
        |i: int|
            if 0 <= i < items.len() {
                rendered(items[i])
            } else {
                Seq::empty()
            },
    )
}

/// The view of a list is the list of its items' views.
pub proof fn lemma_list_view(items: Vec<TypedValue>)
    ensures
        TypedValue::List(items)@ == ValueModel::List(models(items@)),
{
    assert(TypedValue::List(items)@->List_0 =~= models(items@));
}

/// What is coerced to a type has that type.
pub proof fn lemma_coerced_has_type(d: TypeDescriptor, j: JsonModel)
    requires
        coerced(d, j) is Ok,
    ensures
        has_type(coerced(d, j)->Ok_0, d),
    decreases d.rank(), 0nat,
{
    match d {
        TypeDescriptor::Primitive(kind) => {},
        TypeDescriptor::FixedBytes(n) => {
            lemma_coerced_items_have_type(
                TypeDescriptor::Primitive(Primitive::U8),
                j->Array_0,
            );
        },
        TypeDescriptor::Sequence(inner) => {
            lemma_coerced_items_have_type(*inner, j->Array_0);
        },
        TypeDescriptor::Optional(inner) => {
            if !(j is Null) {
                lemma_coerced_has_type(*inner, j);
            }
        },
    }
}

/// What the items of an array are coerced to are as many values, each of the
/// type asked for.
pub proof fn lemma_coerced_items_have_type(d: TypeDescriptor, items: Seq<JsonModel>)
    requires
        coerced_items(d, items) is Ok,
    ensures
        coerced_items(d, items)->Ok_0.len() == items.len(),
        forall|i: int|
            0 <= i < items.len() ==> has_type(#[trigger] coerced_items(d, items)->Ok_0[i], d),
        forall|i: int|
            0 <= i < items.len() ==> coerced(d, items[i]) == Ok::<ValueModel, EncodeFault>(
                #[trigger] coerced_items(d, items)->Ok_0[i],
            ),
    decreases d.rank(), items.len() + 1,
{
    if items.len() > 0 {
        lemma_coerced_items_have_type(d, items.drop_last());
        lemma_coerced_has_type(d, items.last());
    }
}

/// `format!("{:?}", s)` of `std`, for a string: the string as `Debug` writes it.
#[verifier::external_body]
fn debug_string(s: &str) -> (r: String)
    ensures
        r@ == debug_text(s@),
{
    format!("{:?}", s)
}

/// Reads a number literal as an integer of kind `kind`.
fn coerce_integer(kind: Primitive, literal: &str) -> (r: Result<TypedValue, EncodeError>)
    requires
        kind.is_integer(),
    ensures
        outcome(r) == coerced_integer(kind, literal@),
{
    match read_integer(literal) {
        None => Err(EncodeError::TypeMismatch),
        Some(l) => match l.magnitude {
            None => Err(EncodeError::NumericOverflow),
            Some(m) => {
                if l.negative {
                    if m > kind.least_magnitude() {
                        Err(EncodeError::NumericOverflow)
                    } else if m == 0x8000_0000_0000_0000_0000_0000_0000_0000 {
                        Ok(TypedValue::Int(i128::MIN))
                    } else {
                        Ok(TypedValue::Int(-(m as i128)))
                    }
                } else if m > kind.greatest() {
                    Err(EncodeError::NumericOverflow)
                } else if kind.signed() {
                    Ok(TypedValue::Int(m as i128))
                } else {
                    Ok(TypedValue::Uint(m))
                }
            },
        },
    }
}

/// Reads a JSON value as a value of a primitive kind.
fn coerce_primitive(kind: Primitive, j: &JsonValue) -> (r: Result<TypedValue, EncodeError>)
    ensures
        outcome(r) == coerced_primitive(kind, j@),
{
    match kind {
        Primitive::Bool => match j {
            JsonValue::Bool(b) => Ok(TypedValue::Bool(*b)),
            _ => Err(EncodeError::TypeMismatch),
        },
        Primitive::Str => match j {
            JsonValue::Text(s) => {
                if s.as_str().as_bytes().len() > 0xffff_ffff {
                    Err(EncodeError::TooLong)
                } else {
                    Ok(TypedValue::Text(s.clone()))
                }
            },
            _ => Err(EncodeError::TypeMismatch),
        },
        _ => match j {
            JsonValue::Number(literal) => coerce_integer(kind, literal.as_str()),
            _ => Err(EncodeError::TypeMismatch),
        },
    }
}

/// Reads the items of a JSON array as values of type `d`.
fn coerce_items(d: &TypeDescriptor, items: &Vec<JsonValue>) -> (r: Result<Vec<TypedValue>, EncodeError>)
    ensures
        match r {
            Ok(values) => coerced_items(*d, JsonValue::Array(*items)@->Array_0) == Ok::<
                Seq<ValueModel>,
                EncodeFault,
            >(models(values@)),
            Err(e) => coerced_items(*d, JsonValue::Array(*items)@->Array_0) == Err::<
                Seq<ValueModel>,
                EncodeFault,
            >(e@),
        },
    decreases d.rank(), 1nat,
{
    let ghost all = JsonValue::Array(*items)@->Array_0;
    let mut out: Vec<TypedValue> = Vec::new();
    let mut i: usize = 0;
    assert(all.take(0) =~= Seq::<JsonModel>::empty());
    assert(models(out@) =~= Seq::<ValueModel>::empty());
    while i < items.len()
        invariant
            i <= items.len(),
            all == JsonValue::Array(*items)@->Array_0,
            all.len() == items.len(),
            coerced_items(*d, all.take(i as int)) == Ok::<Seq<ValueModel>, EncodeFault>(
                models(out@),
            ),
        decreases items.len() - i,
    {
        let ghost next = all.take(i + 1);
        assert(next.drop_last() =~= all.take(i as int));
        assert(next.last() == items@[i as int]@);
        match coerce(d, &items[i]) {
            Err(e) => {
                proof {
                    lemma_coerced_items_error(*d, all, i + 1);
                }
                return Err(e);
            },
            Ok(v) => {
                let ghost before = models(out@);
                out.push(v);
                assert(models(out@) =~= before.push(v@));
            },
        }
        i += 1;
    }
    assert(all.take(i as int) =~= all);
    Ok(out)
}

/// An error among the first items is the error of them all.
proof fn lemma_coerced_items_error(d: TypeDescriptor, items: Seq<JsonModel>, k: int)
    requires
        0 <= k <= items.len(),
        coerced_items(d, items.take(k)) is Err,
    ensures
        coerced_items(d, items) == coerced_items(d, items.take(k)),
    decreases items.len(),
{
    if k < items.len() {
        assert(items.drop_last().take(k) =~= items.take(k));
        lemma_coerced_items_error(d, items.drop_last(), k);
    } else {
        assert(items.take(k) =~= items);
    }
}

/// Reads a JSON value as a value of type `d`.
pub fn coerce(d: &TypeDescriptor, j: &JsonValue) -> (r: Result<TypedValue, EncodeError>)
    ensures
        outcome(r) == coerced(*d, j@),
    decreases d.rank(), 0nat,
{
    match d {
        TypeDescriptor::Primitive(kind) => coerce_primitive(*kind, j),
        TypeDescriptor::FixedBytes(n) => match j {
            JsonValue::Array(items) => {
                if items.len() != *n {
                    Err(EncodeError::TypeMismatch)
                } else {
                    match coerce_items(&TypeDescriptor::Primitive(Primitive::U8), items) {
                        Ok(values) => {
                            proof {
                                lemma_list_view(values);
                            }
                            Ok(TypedValue::List(values))
                        },
                        Err(e) => Err(e),
                    }
                }
            },
            _ => Err(EncodeError::TypeMismatch),
        },
        TypeDescriptor::Sequence(inner) => match j {
            JsonValue::Array(items) => {
                if items.len() > 0xffff_ffff {
                    Err(EncodeError::TooLong)
                } else {
                    match coerce_items(inner, items) {
                        Ok(values) => {
                            proof {
                                lemma_list_view(values);
                            }
                            Ok(TypedValue::List(values))
                        },
                        Err(e) => Err(e),
                    }
                }
            },
            _ => Err(EncodeError::TypeMismatch),
        },
        TypeDescriptor::Optional(inner) => match j {
            JsonValue::Null => Ok(TypedValue::Absent),
            _ => match coerce(inner, j) {
                Ok(v) => Ok(TypedValue::Present(Box::new(v))),
                Err(e) => Err(e),
            },
        },
    }
}

/// Whether an integer lies in the range of a kind.
fn integer_fits(kind: Primitive, v: &TypedValue) -> (r: bool)
    requires
        kind.is_integer(),
    ensures
        r == has_type(v@, TypeDescriptor::Primitive(kind)),
{
    match v {
        TypedValue::Uint(n) => *n <= kind.greatest(),
        TypedValue::Int(n) => {
            if *n >= 0 {
                *n as u128 <= kind.greatest()
            } else if *n == i128::MIN {
                kind.least_magnitude() == 0x8000_0000_0000_0000_0000_0000_0000_0000
            } else {
                (-*n) as u128 <= kind.least_magnitude()
            }
        },
        _ => false,
    }
}

/// Whether every value of a vector is of type `d`.
fn all_typed(items: &Vec<TypedValue>, d: &TypeDescriptor) -> (r: bool)
    ensures
        r == forall|i: int| 0 <= i < items@.len() ==> has_type(#[trigger] items@[i]@, *d),
    decreases d.rank(), 1nat,
{
    let mut i: usize = 0;
    while i < items.len()
        invariant
            i <= items.len(),
            forall|k: int| 0 <= k < i ==> has_type(#[trigger] items@[k]@, *d),
        decreases items.len() - i,
    {
        if !is_typed(&items[i], d) {
            return false;
        }
        i += 1;
    }
    true
}

/// Whether a value is of the type that a descriptor describes.
pub fn is_typed(v: &TypedValue, d: &TypeDescriptor) -> (r: bool)
    ensures
        r == has_type(v@, *d),
    decreases d.rank(), 0nat,
{
    match d {
        TypeDescriptor::Primitive(kind) => match kind {
            Primitive::Bool => match v {
                TypedValue::Bool(_) => true,
                _ => false,
            },
            Primitive::Str => match v {
                TypedValue::Text(s) => s.as_str().as_bytes().len() <= 0xffff_ffff,
                _ => false,
            },
            _ => integer_fits(*kind, v),
        },
        TypeDescriptor::FixedBytes(n) => match v {
            TypedValue::List(items) => {
                proof {
                    lemma_list_view(*items);
                }
                let bytes = all_typed(items, &TypeDescriptor::Primitive(Primitive::U8));
                proof {
                    lemma_all_typed(*items, TypeDescriptor::Primitive(Primitive::U8));
                }
                items.len() == *n && bytes
            },
            _ => false,
        },
        TypeDescriptor::Sequence(inner) => match v {
            TypedValue::List(items) => {
                proof {
                    lemma_list_view(*items);
                }
                let typed = all_typed(items, inner);
                proof {
                    lemma_all_typed(*items, **inner);
                }
                items.len() <= 0xffff_ffff && typed
            },
            _ => false,
        },
        TypeDescriptor::Optional(inner) => match v {
            TypedValue::Absent => true,
            TypedValue::Present(x) => is_typed(x, inner),
            _ => false,
        },
    }
}

/// The values of a vector are of a type where their models are.
proof fn lemma_all_typed(items: Vec<TypedValue>, d: TypeDescriptor)
    ensures
        (forall|i: int| 0 <= i < items@.len() ==> has_type(#[trigger] items@[i]@, d)) <==> (forall|
            i: int,
        | 0 <= i < models(items@).len() ==> has_type(#[trigger] models(items@)[i], d)),
{
    if forall|i: int| 0 <= i < items@.len() ==> has_type(#[trigger] items@[i]@, d) {
        assert forall|i: int| 0 <= i < models(items@).len() implies has_type(
            #[trigger] models(items@)[i],
            d,
        ) by {
            assert(models(items@)[i] == items@[i]@);
        }
    }
    if forall|i: int| 0 <= i < models(items@).len() ==> has_type(#[trigger] models(items@)[i], d) {
        assert forall|i: int| 0 <= i < items@.len() implies has_type(#[trigger] items@[i]@, d) by {
            assert(models(items@)[i] == items@[i]@);
        }
    }
}

/// Appends the text of a value.
pub fn render(v: &TypedValue, out: &mut String)
    ensures
        final(out)@ == old(out)@ + rendered(v@),
    decreases v,
{
    match v {
        TypedValue::Int(n) => {
            if *n == i128::MIN {
                write_decimal(true, 0x8000_0000_0000_0000_0000_0000_0000_0000, out);
            } else if *n < 0 {
                write_decimal(true, (-*n) as u128, out);
            } else {
                write_decimal(false, *n as u128, out);
            }
        },
        TypedValue::Uint(n) => {
            write_decimal(false, *n, out);
        },
        TypedValue::Bool(b) => {
            if *b {
                out.append("true");
            } else {
                out.append("false");
            }
        },
        TypedValue::Text(s) => {
            let quoted = debug_string(s.as_str());
            out.append(quoted.as_str());
        },
        TypedValue::List(items) => {
            let ghost parts = rendered_each(v@->List_0);
            out.append("[");
            let mut i: usize = 0;
            assert(parts.take(0) =~= Seq::<Seq<char>>::empty());
            assert(old(out)@ + "["@ + Seq::<char>::empty() =~= old(out)@ + "["@);
            while i < items.len()
                invariant
                    i <= items.len(),
                    *v == TypedValue::List(*items),
                    parts == rendered_each(v@->List_0),
                    parts.len() == items.len(),
                    out@ == old(out)@ + "["@ + joined(parts.take(i as int)),
                decreases items.len() - i,
            {
                let ghost before = out@;
                let ghost next = parts.take(i + 1);
                assert(next.drop_last() =~= parts.take(i as int));
                assert(next.last() == rendered(items@[i as int]@));
                if i > 0 {
                    out.append(", ");
                }
                render(&items[i], out);
                proof {
                    if i > 0 {
                        assert(out@ =~= old(out)@ + "["@ + (joined(parts.take(i as int)) + ", "@
                            + next.last()));
                    } else {
                        assert(joined(next) == next[0]);
                        assert(out@ =~= old(out)@ + "["@ + next.last());
                    }
                }
                i += 1;
            }
            assert(parts.take(i as int) =~= parts);
            out.append("]");
            assert(out@ =~= old(out)@ + ("["@ + joined(parts) + "]"@));
        },
        TypedValue::Absent => {
            out.append("None");
        },
        TypedValue::Present(inner) => {
            out.append("Some(");
            render(inner, out);
            out.append(")");
            assert(out@ =~= old(out)@ + ("Some("@ + rendered(inner@) + ")"@));
        },
    }
}

impl TypedValue {
    /// The text of the value.
    pub fn to_text(&self) -> (r: String)
        ensures
            r@ == rendered(self@),
    {
        let mut out = String::new();
        render(self, &mut out);
        assert(Seq::<char>::empty() + rendered(self@) =~= rendered(self@));
        out
    }
}

} // verus!
