//! Type descriptors, and the type names that stand for them.

use vstd::prelude::*;
use vstd::string::*;
use crate::chars::{
    is_clean, is_whitespace, lemma_clean_concat, lemma_without_whitespace_identity, range_is,
    strip_whitespace, without_whitespace,
};
use crate::decimal::{digits, write_digits};
use crate::error::{ParseError, ParseFault};

verus! {

/// The kinds of value that stand alone.
#[derive(Clone, Copy, Debug, PartialEq, Eq)]
pub enum Primitive {
    I8,
    I16,
    I32,
    I64,
    I128,
    U8,
    U16,
    U32,
    U64,
    U128,
    Bool,
    Str,
}

/// The structure of a type: a tree of tagged variants.
#[derive(Debug, PartialEq, Eq)]
pub enum TypeDescriptor {
    /// One of the twelve primitive kinds.
    Primitive(Primitive),
    /// That many raw bytes.
    FixedBytes(usize),
    /// Any number of values of the inner type, in order.
    Sequence(Box<TypeDescriptor>),
    /// A value of the inner type, or none.
    Optional(Box<TypeDescriptor>),
}

impl Primitive {
    /// The name of the kind, as it is written in a type name.
    pub open spec fn name(self) -> Seq<char> {
        match self {
            Primitive::I8 => "i8"@,
            Primitive::I16 => "i16"@,
            Primitive::I32 => "i32"@,
            Primitive::I64 => "i64"@,
            Primitive::I128 => "i128"@,
            Primitive::U8 => "u8"@,
            Primitive::U16 => "u16"@,
            Primitive::U32 => "u32"@,
            Primitive::U64 => "u64"@,
            Primitive::U128 => "u128"@,
            Primitive::Bool => "bool"@,
            Primitive::Str => "String"@,
        }
    }

    /// Whether the kind is one of the ten integer types.
    pub open spec fn is_integer(self) -> bool {
        !(self is Bool) && !(self is Str)
    }

    /// Whether the kind is a signed integer type.
    pub open spec fn is_signed(self) -> bool {
        self is I8 || self is I16 || self is I32 || self is I64 || self is I128
    }

    /// The number of bytes of an integer of this kind; zero for the others.
    pub open spec fn width(self) -> nat {
        match self {
            Primitive::I8 | Primitive::U8 => 1,
            Primitive::I16 | Primitive::U16 => 2,
            Primitive::I32 | Primitive::U32 => 4,
            Primitive::I64 | Primitive::U64 => 8,
            Primitive::I128 | Primitive::U128 => 16,
            Primitive::Bool | Primitive::Str => 0,
        }
    }

    /// The least integer of this kind.
    pub open spec fn min_value(self) -> int {
        match self {
            Primitive::I8 => i8::MIN as int,
            Primitive::I16 => i16::MIN as int,
            Primitive::I32 => i32::MIN as int,
            Primitive::I64 => i64::MIN as int,
            Primitive::I128 => i128::MIN as int,
            _ => 0,
        }
    }

    /// The greatest integer of this kind.
    pub open spec fn max_value(self) -> int {
        match self {
            Primitive::I8 => i8::MAX as int,
            Primitive::I16 => i16::MAX as int,
            Primitive::I32 => i32::MAX as int,
            Primitive::I64 => i64::MAX as int,
            Primitive::I128 => i128::MAX as int,
            Primitive::U8 => u8::MAX as int,
            Primitive::U16 => u16::MAX as int,
            Primitive::U32 => u32::MAX as int,
            Primitive::U64 => u64::MAX as int,
            Primitive::U128 => u128::MAX as int,
            Primitive::Bool | Primitive::Str => 0,
        }
    }
}

impl TypeDescriptor {
    /// Whether the descriptor is one of the shapes that the codec handles:
    /// a primitive; a sequence or an optional of a primitive; a sequence of
    /// one of those two; an optional sequence of a primitive; 32 or 64 raw
    /// bytes.
    pub open spec fn supported(self) -> bool {
        match self {
            TypeDescriptor::Primitive(_) => true,
            TypeDescriptor::FixedBytes(n) => n == 32 || n == 64,
            TypeDescriptor::Sequence(inner) => is_sequence_item(*inner),
            TypeDescriptor::Optional(inner) => is_optional_item(*inner),
        }
    }

    /// How far the descriptor stands above the primitive kinds.
    pub open spec fn rank(self) -> nat
        decreases self,
    {
        match self {
            TypeDescriptor::Primitive(_) => 0,
            TypeDescriptor::FixedBytes(_) => 1,
            TypeDescriptor::Sequence(inner) => 1 + inner.rank(),
            TypeDescriptor::Optional(inner) => 1 + inner.rank(),
        }
    }

    /// The type name of the descriptor, without white space.
    pub open spec fn name(self) -> Seq<char>
        decreases self,
    {
        match self {
            TypeDescriptor::Primitive(kind) => kind.name(),
            TypeDescriptor::FixedBytes(n) => "[u8;"@ + digits(n as nat) + "]"@,
            TypeDescriptor::Sequence(inner) => "Vec<"@ + inner.name() + ">"@,
            TypeDescriptor::Optional(inner) => "Option<"@ + inner.name() + ">"@,
        }
    }
}

/// Whether the descriptor may stand in a sequence.
pub open spec fn is_sequence_item(d: TypeDescriptor) -> bool {
    match d {
        TypeDescriptor::Primitive(_) => true,
        TypeDescriptor::Sequence(item) => *item is Primitive,
        TypeDescriptor::Optional(item) => *item is Primitive,
        TypeDescriptor::FixedBytes(_) => false,
    }
}

/// Whether the descriptor may stand in an optional.
pub open spec fn is_optional_item(d: TypeDescriptor) -> bool {
    match d {
        TypeDescriptor::Primitive(_) => true,
        TypeDescriptor::Sequence(item) => *item is Primitive,
        _ => false,
    }
}

/// The primitive kind that `s` names.
pub open spec fn primitive_named(s: Seq<char>) -> Option<Primitive> {
    if s == "i8"@ {
        Some(Primitive::I8)
    } else if s == "i16"@ {
        Some(Primitive::I16)
    } else if s == "i32"@ {
        Some(Primitive::I32)
    } else if s == "i64"@ {
        Some(Primitive::I64)
    } else if s == "i128"@ {
        Some(Primitive::I128)
    } else if s == "u8"@ {
        Some(Primitive::U8)
    } else if s == "u16"@ {
        Some(Primitive::U16)
    } else if s == "u32"@ {
        Some(Primitive::U32)
    } else if s == "u64"@ {
        Some(Primitive::U64)
    } else if s == "u128"@ {
        Some(Primitive::U128)
    } else if s == "bool"@ {
        Some(Primitive::Bool)
    } else if s == "String"@ {
        Some(Primitive::Str)
    } else {
        None
    }
}

/// The number of raw bytes that `s` names in bracket form.
pub open spec fn fixed_bytes_named(s: Seq<char>) -> Option<usize> {
    if s == "[u8;32]"@ {
        Some(32usize)
    } else if s == "[u8;64]"@ {
        Some(64usize)
    } else {
        None
    }
}

/// What stands between `head` and a closing `>`, where `s` has that form.
pub open spec fn generic_argument(s: Seq<char>, head: Seq<char>) -> Option<Seq<char>> {
    if s.len() > head.len() && s.subrange(0, head.len() as int) == head && s.last() == '>' {
        Some(s.subrange(head.len() as int, s.len() - 1))
    } else {
        None
    }
}

/// The descriptor of what may stand between `Vec<` and `>`: a primitive, a
/// sequence of a primitive, or an optional primitive.
pub open spec fn sequence_item_named(s: Seq<char>) -> Option<TypeDescriptor> {
    if let Some(kind) = primitive_named(s) {
        Some(TypeDescriptor::Primitive(kind))
    } else if let Some(item) = generic_argument(s, "Vec<"@) {
        match primitive_named(item) {
            Some(kind) => Some(TypeDescriptor::Sequence(Box::new(TypeDescriptor::Primitive(kind)))),
            None => None,
        }
    } else if let Some(item) = generic_argument(s, "Option<"@) {
        match primitive_named(item) {
            Some(kind) => Some(TypeDescriptor::Optional(Box::new(TypeDescriptor::Primitive(kind)))),
            None => None,
        }
    } else {
        None
    }
}

/// The descriptor of what may stand between `Option<` and `>`: a primitive,
/// or a sequence of a primitive.
pub open spec fn optional_item_named(s: Seq<char>) -> Option<TypeDescriptor> {
    if let Some(kind) = primitive_named(s) {
        Some(TypeDescriptor::Primitive(kind))
    } else if let Some(item) = generic_argument(s, "Vec<"@) {
        match primitive_named(item) {
            Some(kind) => Some(TypeDescriptor::Sequence(Box::new(TypeDescriptor::Primitive(kind)))),
            None => None,
        }
    } else {
        None
    }
}

/// The descriptor that a name without white space stands for.
///
/// The names are those of the supported shapes and no others: deeper nesting,
/// an optional of an optional, and brackets of any other length or element
/// have no descriptor.
pub open spec fn descriptor_named(s: Seq<char>) -> Option<TypeDescriptor> {
    if let Some(kind) = primitive_named(s) {
        Some(TypeDescriptor::Primitive(kind))
    } else if let Some(n) = fixed_bytes_named(s) {
        Some(TypeDescriptor::FixedBytes(n))
    } else if let Some(inner) = generic_argument(s, "Vec<"@) {
        match sequence_item_named(inner) {
            Some(item) => Some(TypeDescriptor::Sequence(Box::new(item))),
            None => None,
        }
    } else if let Some(inner) = generic_argument(s, "Option<"@) {
        match optional_item_named(inner) {
            Some(item) => Some(TypeDescriptor::Optional(Box::new(item))),
            None => None,
        }
    } else {
        None
    }
}

/// The descriptor that a type name stands for, white space set aside.
pub open spec fn type_named(name: Seq<char>) -> Option<TypeDescriptor> {
    descriptor_named(without_whitespace(name))
}

/// The characters of the words that type names are made of.
pub proof fn lemma_words()
    ensures
        "i8"@ == seq!['i', '8'],
        "i16"@ == seq!['i', '1', '6'],
        "i32"@ == seq!['i', '3', '2'],
        "i64"@ == seq!['i', '6', '4'],
        "i128"@ == seq!['i', '1', '2', '8'],
        "u8"@ == seq!['u', '8'],
        "u16"@ == seq!['u', '1', '6'],
        "u32"@ == seq!['u', '3', '2'],
        "u64"@ == seq!['u', '6', '4'],
        "u128"@ == seq!['u', '1', '2', '8'],
        "bool"@ == seq!['b', 'o', 'o', 'l'],
        "String"@ == seq!['S', 't', 'r', 'i', 'n', 'g'],
        "Vec<"@ == seq!['V', 'e', 'c', '<'],
        "Option<"@ == seq!['O', 'p', 't', 'i', 'o', 'n', '<'],
        ">"@ == seq!['>'],
        "[u8;"@ == seq!['[', 'u', '8', ';'],
        "]"@ == seq![']'],
        "[u8;32]"@ == seq!['[', 'u', '8', ';', '3', '2', ']'],
        "[u8;64]"@ == seq!['[', 'u', '8', ';', '6', '4', ']'],
{
    reveal_strlit("i8");
    reveal_strlit("i16");
    reveal_strlit("i32");
    reveal_strlit("i64");
    reveal_strlit("i128");
    reveal_strlit("u8");
    reveal_strlit("u16");
    reveal_strlit("u32");
    reveal_strlit("u64");
    reveal_strlit("u128");
    reveal_strlit("bool");
    reveal_strlit("String");
    reveal_strlit("Vec<");
    reveal_strlit("Option<");
    reveal_strlit(">");
    reveal_strlit("[u8;");
    reveal_strlit("]");
    reveal_strlit("[u8;32]");
    reveal_strlit("[u8;64]");
    assert("i8"@ =~= seq!['i', '8']);
    assert("i16"@ =~= seq!['i', '1', '6']);
    assert("i32"@ =~= seq!['i', '3', '2']);
    assert("i64"@ =~= seq!['i', '6', '4']);
    assert("i128"@ =~= seq!['i', '1', '2', '8']);
    assert("u8"@ =~= seq!['u', '8']);
    assert("u16"@ =~= seq!['u', '1', '6']);
    assert("u32"@ =~= seq!['u', '3', '2']);
    assert("u64"@ =~= seq!['u', '6', '4']);
    assert("u128"@ =~= seq!['u', '1', '2', '8']);
    assert("bool"@ =~= seq!['b', 'o', 'o', 'l']);
    assert("String"@ =~= seq!['S', 't', 'r', 'i', 'n', 'g']);
    assert("Vec<"@ =~= seq!['V', 'e', 'c', '<']);
    assert("Option<"@ =~= seq!['O', 'p', 't', 'i', 'o', 'n', '<']);
    assert(">"@ =~= seq!['>']);
    assert("[u8;"@ =~= seq!['[', 'u', '8', ';']);
    assert("]"@ =~= seq![']']);
    assert("[u8;32]"@ =~= seq!['[', 'u', '8', ';', '3', '2', ']']);
    assert("[u8;64]"@ =~= seq!['[', 'u', '8', ';', '6', '4', ']']);
}

/// A kind is named by its own name and by no other kind's.
pub proof fn lemma_primitive_named(kind: Primitive)
    ensures
        primitive_named(kind.name()) == Some(kind),
        kind.name().len() >= 2,
        kind.name()[0] != 'V' && kind.name()[0] != 'O' && kind.name()[0] != '[',
{
    lemma_words();
}

/// The name of a kind or of a fixed array does not start as a generic name
/// does.
pub proof fn lemma_first_character(s: Seq<char>)
    ensures
        primitive_named(s) is Some ==> s.len() >= 2 && s[0] != 'V' && s[0] != 'O',
        fixed_bytes_named(s) is Some ==> s.len() >= 2 && s[0] == '[',
{
    lemma_words();
}

/// A generic name is the name neither of a kind nor of a fixed array.
pub proof fn lemma_generic_is_composite(head: Seq<char>, inner: Seq<char>)
    requires
        head == "Vec<"@ || head == "Option<"@,
    ensures
        primitive_named(head + inner + ">"@) is None,
        fixed_bytes_named(head + inner + ">"@) is None,
        head == "Vec<"@ ==> (head + inner + ">"@)[0] == 'V',
        head == "Option<"@ ==> (head + inner + ">"@)[0] == 'O',
        head == "Option<"@ ==> generic_argument(head + inner + ">"@, "Vec<"@) is None,
{
    let s = head + inner + ">"@;
    assert(s[0] == head[0]) by {
        lemma_words();
    }
    assert(head == "Vec<"@ ==> head[0] == 'V') by {
        lemma_words();
    }
    assert(head == "Option<"@ ==> head[0] == 'O') by {
        lemma_words();
    }
    lemma_first_character(s);
    if head == "Option<"@ {
        assert(generic_argument(s, "Vec<"@) is None) by {
            lemma_words();
            if s.len() > 4 {
                assert(s.subrange(0, 4)[0] == s[0]);
            }
        }
    }
}

/// A generic name gives back its argument.
pub proof fn lemma_generic_argument(head: Seq<char>, inner: Seq<char>)
    ensures
        generic_argument(head + inner + ">"@, head) == Some(inner),
{
    lemma_words();
    let s = head + inner + ">"@;
    assert(s.subrange(0, head.len() as int) =~= head);
    assert(s.subrange(head.len() as int, s.len() - 1) =~= inner);
}

/// A name that has a generic argument is the head, the argument and `>`.
pub proof fn lemma_generic_name(s: Seq<char>, head: Seq<char>)
    requires
        generic_argument(s, head) is Some,
    ensures
        head + generic_argument(s, head).unwrap() + ">"@ == s,
{
    lemma_words();
    assert(head + generic_argument(s, head).unwrap() + ">"@ =~= s);
}

/// What stands for an item of a sequence is such an item, under its own name.
pub proof fn lemma_sequence_item_sound(s: Seq<char>)
    requires
        sequence_item_named(s) is Some,
    ensures
        is_sequence_item(sequence_item_named(s).unwrap()),
        sequence_item_named(s).unwrap().name() == s,
{
    reveal_with_fuel(TypeDescriptor::name, 3);
    if primitive_named(s) is Some {
    } else if generic_argument(s, "Vec<"@) is Some {
        lemma_generic_name(s, "Vec<"@);
    } else {
        lemma_generic_name(s, "Option<"@);
    }
}

/// What stands for an item of an optional is such an item, under its own name.
pub proof fn lemma_optional_item_sound(s: Seq<char>)
    requires
        optional_item_named(s) is Some,
    ensures
        is_optional_item(optional_item_named(s).unwrap()),
        optional_item_named(s).unwrap().name() == s,
{
    reveal_with_fuel(TypeDescriptor::name, 3);
    if primitive_named(s) is Some {
    } else {
        lemma_generic_name(s, "Vec<"@);
    }
}

/// Soundness of the names: a name that stands for a descriptor stands for a
/// supported one, and is that descriptor's own name.
pub proof fn lemma_named_is_name(s: Seq<char>)
    requires
        descriptor_named(s) is Some,
    ensures
        descriptor_named(s).unwrap().supported(),
        descriptor_named(s).unwrap().name() == s,
{
    let d = descriptor_named(s).unwrap();
    if primitive_named(s) is Some {
    } else if fixed_bytes_named(s) is Some {
        assert(d.name() =~= s) by {
            lemma_words();
            reveal_with_fuel(digits, 3);
        }
    } else if let Some(inner) = generic_argument(s, "Vec<"@) {
        lemma_generic_name(s, "Vec<"@);
        lemma_sequence_item_sound(inner);
    } else if let Some(inner) = generic_argument(s, "Option<"@) {
        lemma_generic_name(s, "Option<"@);
        lemma_optional_item_sound(inner);
    }
}

/// The name of an item of a sequence stands for that item.
pub proof fn lemma_sequence_item_complete(d: TypeDescriptor)
    requires
        is_sequence_item(d),
    ensures
        sequence_item_named(d.name()) == Some(d),
{
    reveal_with_fuel(TypeDescriptor::name, 3);
    match d {
        TypeDescriptor::Primitive(kind) => {
            lemma_primitive_named(kind);
        },
        TypeDescriptor::Sequence(item) => {
            lemma_primitive_named(item->Primitive_0);
            lemma_generic_argument("Vec<"@, item.name());
            lemma_generic_is_composite("Vec<"@, item.name());
        },
        TypeDescriptor::Optional(item) => {
            lemma_primitive_named(item->Primitive_0);
            lemma_generic_argument("Option<"@, item.name());
            lemma_generic_is_composite("Option<"@, item.name());
        },
        TypeDescriptor::FixedBytes(_) => {},
    }
}

/// The name of an item of an optional stands for that item.
pub proof fn lemma_optional_item_complete(d: TypeDescriptor)
    requires
        is_optional_item(d),
    ensures
        optional_item_named(d.name()) == Some(d),
{
    reveal_with_fuel(TypeDescriptor::name, 3);
    match d {
        TypeDescriptor::Primitive(kind) => {
            lemma_primitive_named(kind);
        },
        TypeDescriptor::Sequence(item) => {
            lemma_primitive_named(item->Primitive_0);
            lemma_generic_argument("Vec<"@, item.name());
            lemma_generic_is_composite("Vec<"@, item.name());
        },
        _ => {},
    }
}

/// Completeness of the names: the name of a supported descriptor stands for
/// that descriptor.
pub proof fn lemma_name_is_named(d: TypeDescriptor)
    requires
        d.supported(),
    ensures
        descriptor_named(d.name()) == Some(d),
{
    match d {
        TypeDescriptor::Primitive(kind) => {
            lemma_primitive_named(kind);
        },
        TypeDescriptor::FixedBytes(n) => {
            lemma_words();
            reveal_with_fuel(digits, 3);
            assert(d.name() =~= if n == 32 {
                "[u8;32]"@
            } else {
                "[u8;64]"@
            });
        },
        TypeDescriptor::Sequence(inner) => {
            lemma_generic_argument("Vec<"@, inner.name());
            lemma_generic_is_composite("Vec<"@, inner.name());
            lemma_sequence_item_complete(*inner);
        },
        TypeDescriptor::Optional(inner) => {
            lemma_generic_argument("Option<"@, inner.name());
            lemma_generic_is_composite("Option<"@, inner.name());
            lemma_optional_item_complete(*inner);
        },
    }
}

/// The words that type names are made of hold no white space.
pub proof fn lemma_words_are_clean()
    ensures
        forall|kind: Primitive| is_clean(#[trigger] kind.name()),
        is_clean("Vec<"@),
        is_clean("Option<"@),
        is_clean(">"@),
        is_clean("[u8;32]"@),
        is_clean("[u8;64]"@),
{
    lemma_words();
}

/// The name of a primitive, of a sequence of one or of an optional one holds
/// no white space.
pub proof fn lemma_item_name_is_clean(d: TypeDescriptor)
    requires
        is_sequence_item(d),
    ensures
        is_clean(d.name()),
{
    lemma_words_are_clean();
    reveal_with_fuel(TypeDescriptor::name, 3);
    match d {
        TypeDescriptor::Sequence(item) => {
            lemma_clean_concat("Vec<"@, item.name());
            lemma_clean_concat("Vec<"@ + item.name(), ">"@);
        },
        TypeDescriptor::Optional(item) => {
            lemma_clean_concat("Option<"@, item.name());
            lemma_clean_concat("Option<"@ + item.name(), ">"@);
        },
        _ => {},
    }
}

/// The name of a supported descriptor holds no white space.
pub proof fn lemma_name_is_clean(d: TypeDescriptor)
    requires
        d.supported(),
    ensures
        is_clean(d.name()),
{
    lemma_words_are_clean();
    match d {
        TypeDescriptor::Primitive(kind) => {},
        TypeDescriptor::FixedBytes(n) => {
            lemma_name_is_named(d);
        },
        TypeDescriptor::Sequence(inner) => {
            lemma_item_name_is_clean(*inner);
            lemma_clean_concat("Vec<"@, inner.name());
            lemma_clean_concat("Vec<"@ + inner.name(), ">"@);
        },
        TypeDescriptor::Optional(inner) => {
            lemma_item_name_is_clean(*inner);
            lemma_clean_concat("Option<"@, inner.name());
            lemma_clean_concat("Option<"@ + inner.name(), ">"@);
        },
    }
}

/// The name of a supported descriptor parses back to the descriptor.
pub proof fn lemma_name_parses(d: TypeDescriptor)
    requires
        d.supported(),
    ensures
        type_named(d.name()) == Some(d),
{
    lemma_name_is_named(d);
    lemma_name_is_clean(d);
    lemma_without_whitespace_identity(d.name());
}

/// Nesting three deep is refused, whatever stands innermost.
pub proof fn lemma_deeper_nesting_refused(innermost: Seq<char>)
    ensures
        descriptor_named("Vec<"@ + ("Vec<"@ + ("Vec<"@ + innermost + ">"@) + ">"@) + ">"@) is None,
{
    let item = "Vec<"@ + innermost + ">"@;
    let inner = "Vec<"@ + item + ">"@;
    let s = "Vec<"@ + inner + ">"@;
    lemma_generic_argument("Vec<"@, item);
    lemma_generic_argument("Vec<"@, inner);
    lemma_generic_is_composite("Vec<"@, innermost);
    lemma_generic_is_composite("Vec<"@, item);
    lemma_generic_is_composite("Vec<"@, inner);
}

/// Removing white space from two texts, one after the other, is removing it
/// from each.
pub proof fn lemma_without_whitespace_concat(a: Seq<char>, b: Seq<char>)
    ensures
        without_whitespace(a + b) == without_whitespace(a) + without_whitespace(b),
    decreases b.len(),
{
    if b.len() == 0 {
        assert(a + b =~= a);
        assert(without_whitespace(a) + without_whitespace(b) =~= without_whitespace(a));
    } else {
        assert((a + b).drop_last() =~= a + b.drop_last());
        lemma_without_whitespace_concat(a, b.drop_last());
        if !is_whitespace(b.last()) {
            assert((without_whitespace(a) + without_whitespace(b.drop_last())).push(b.last())
                =~= without_whitespace(a) + without_whitespace(b.drop_last()).push(b.last()));
        }
    }
}

/// White space counts for nothing: a white-space character set anywhere into
/// a name changes neither whether the name is accepted nor its descriptor.
pub proof fn lemma_whitespace_ignored(before: Seq<char>, c: char, after: Seq<char>)
    requires
        is_whitespace(c),
    ensures
        type_named(before + seq![c] + after) == type_named(before + after),
{
    lemma_without_whitespace_concat(before + seq![c], after);
    lemma_without_whitespace_concat(before, seq![c]);
    lemma_without_whitespace_concat(before, after);
    assert(seq![c].drop_last() =~= Seq::<char>::empty());
    assert(without_whitespace(seq![c].drop_last()) =~= Seq::<char>::empty());
    assert(seq![c].last() == c);
    assert(without_whitespace(seq![c]) =~= Seq::<char>::empty());
    assert(without_whitespace(before) + Seq::<char>::empty() =~= without_whitespace(before));
}

/// Two names that differ in white space alone stand for the same descriptor,
/// or both for none.
pub proof fn lemma_whitespace_insensitive(a: Seq<char>, b: Seq<char>)
    requires
        without_whitespace(a) == without_whitespace(b),
    ensures
        type_named(a) == type_named(b),
{
}

/// The primitive kind that the characters from `lo` up to `hi` name.
fn primitive_at(chars: &Vec<char>, lo: usize, hi: usize) -> (r: Option<Primitive>)
    requires
        lo <= hi <= chars.len(),
    ensures
        r == primitive_named(chars@.subrange(lo as int, hi as int)),
{
    if range_is(chars, lo, hi, "i8") {
        Some(Primitive::I8)
    } else if range_is(chars, lo, hi, "i16") {
        Some(Primitive::I16)
    } else if range_is(chars, lo, hi, "i32") {
        Some(Primitive::I32)
    } else if range_is(chars, lo, hi, "i64") {
        Some(Primitive::I64)
    } else if range_is(chars, lo, hi, "i128") {
        Some(Primitive::I128)
    } else if range_is(chars, lo, hi, "u8") {
        Some(Primitive::U8)
    } else if range_is(chars, lo, hi, "u16") {
        Some(Primitive::U16)
    } else if range_is(chars, lo, hi, "u32") {
        Some(Primitive::U32)
    } else if range_is(chars, lo, hi, "u64") {
        Some(Primitive::U64)
    } else if range_is(chars, lo, hi, "u128") {
        Some(Primitive::U128)
    } else if range_is(chars, lo, hi, "bool") {
        Some(Primitive::Bool)
    } else if range_is(chars, lo, hi, "String") {
        Some(Primitive::Str)
    } else {
        None
    }
}

/// Where the argument of a generic name starts, if the characters from `lo`
/// up to `hi` are `head`, an argument and `>`. The argument ends at `hi - 1`.
fn argument_at(chars: &Vec<char>, lo: usize, hi: usize, head: &str) -> (r: Option<usize>)
    requires
        lo <= hi <= chars.len(),
    ensures
        match r {
            Some(start) => lo <= start < hi && generic_argument(
                chars@.subrange(lo as int, hi as int),
                head@,
            ) == Some(chars@.subrange(start as int, hi - 1)),
            None => generic_argument(chars@.subrange(lo as int, hi as int), head@) is None,
        },
{
    let n = head.unicode_len();
    let ghost s = chars@.subrange(lo as int, hi as int);
    if hi - lo <= n {
        return None;
    }
    assert(s.subrange(0, n as int) =~= chars@.subrange(lo as int, lo + n));
    if !range_is(chars, lo, lo + n, head) {
        return None;
    }
    if chars[hi - 1] != '>' {
        return None;
    }
    assert(s.subrange(n as int, s.len() - 1) =~= chars@.subrange(lo + n, hi - 1));
    Some(lo + n)
}

fn sequence_of(inner: TypeDescriptor) -> (r: TypeDescriptor)
    ensures
        r == TypeDescriptor::Sequence(Box::new(inner)),
{
    TypeDescriptor::Sequence(Box::new(inner))
}

fn optional_of(inner: TypeDescriptor) -> (r: TypeDescriptor)
    ensures
        r == TypeDescriptor::Optional(Box::new(inner)),
{
    TypeDescriptor::Optional(Box::new(inner))
}

/// The primitive descriptor of a kind.
fn primitive_of(kind: Primitive) -> (r: TypeDescriptor)
    ensures
        r == TypeDescriptor::Primitive(kind),
{
    TypeDescriptor::Primitive(kind)
}

/// The descriptor of an item of a sequence, named from `lo` up to `hi`.
fn sequence_item_at(chars: &Vec<char>, lo: usize, hi: usize) -> (r: Option<TypeDescriptor>)
    requires
        lo <= hi <= chars.len(),
    ensures
        r == sequence_item_named(chars@.subrange(lo as int, hi as int)),
{
    if let Some(kind) = primitive_at(chars, lo, hi) {
        return Some(primitive_of(kind));
    }
    if let Some(item) = argument_at(chars, lo, hi, "Vec<") {
        return match primitive_at(chars, item, hi - 1) {
            Some(kind) => Some(sequence_of(primitive_of(kind))),
            None => None,
        };
    }
    if let Some(item) = argument_at(chars, lo, hi, "Option<") {
        return match primitive_at(chars, item, hi - 1) {
            Some(kind) => Some(optional_of(primitive_of(kind))),
            None => None,
        };
    }
    None
}

/// The descriptor of an item of an optional, named from `lo` up to `hi`.
fn optional_item_at(chars: &Vec<char>, lo: usize, hi: usize) -> (r: Option<TypeDescriptor>)
    requires
        lo <= hi <= chars.len(),
    ensures
        r == optional_item_named(chars@.subrange(lo as int, hi as int)),
{
    if let Some(kind) = primitive_at(chars, lo, hi) {
        return Some(primitive_of(kind));
    }
    if let Some(item) = argument_at(chars, lo, hi, "Vec<") {
        return match primitive_at(chars, item, hi - 1) {
            Some(kind) => Some(sequence_of(primitive_of(kind))),
            None => None,
        };
    }
    None
}

/// The descriptor that the characters name.
fn descriptor_at(chars: &Vec<char>) -> (r: Option<TypeDescriptor>)
    ensures
        r == descriptor_named(chars@),
{
    let n = chars.len();
    assert(chars@.subrange(0, n as int) =~= chars@);
    if let Some(kind) = primitive_at(chars, 0, n) {
        return Some(primitive_of(kind));
    }
    if range_is(chars, 0, n, "[u8;32]") {
        return Some(TypeDescriptor::FixedBytes(32));
    }
    if range_is(chars, 0, n, "[u8;64]") {
        return Some(TypeDescriptor::FixedBytes(64));
    }
    if let Some(start) = argument_at(chars, 0, n, "Vec<") {
        return match sequence_item_at(chars, start, n - 1) {
            Some(item) => Some(sequence_of(item)),
            None => None,
        };
    }
    if let Some(start) = argument_at(chars, 0, n, "Option<") {
        return match optional_item_at(chars, start, n - 1) {
            Some(item) => Some(optional_of(item)),
            None => None,
        };
    }
    None
}

/// Parses a type name.
///
/// White space in the name counts for nothing. A name outside the supported
/// shapes is handed back in the error, as it was given.
pub fn parse(name: &str) -> (r: Result<TypeDescriptor, ParseError>)
    ensures
        match r {
            Ok(d) => type_named(name@) == Some(d) && d.supported(),
            Err(e) => type_named(name@) is None && e@ == ParseFault::UnsupportedType(name@),
        },
{
    let chars = strip_whitespace(name);
    match descriptor_at(&chars) {
        Some(d) => Ok(d),
        None => Err(ParseError::UnsupportedType(name.to_owned())),
    }
}

impl Primitive {
    /// The name of the kind.
    pub fn as_str(&self) -> (r: &'static str)
        ensures
            r@ == self.name(),
    {
        match self {
            Primitive::I8 => "i8",
            Primitive::I16 => "i16",
            Primitive::I32 => "i32",
            Primitive::I64 => "i64",
            Primitive::I128 => "i128",
            Primitive::U8 => "u8",
            Primitive::U16 => "u16",
            Primitive::U32 => "u32",
            Primitive::U64 => "u64",
            Primitive::U128 => "u128",
            Primitive::Bool => "bool",
            Primitive::Str => "String",
        }
    }

    /// The number of bytes of an integer of this kind; zero for the others.
    pub fn byte_width(&self) -> (r: usize)
        ensures
            r == self.width(),
    {
        match self {
            Primitive::I8 | Primitive::U8 => 1,
            Primitive::I16 | Primitive::U16 => 2,
            Primitive::I32 | Primitive::U32 => 4,
            Primitive::I64 | Primitive::U64 => 8,
            Primitive::I128 | Primitive::U128 => 16,
            Primitive::Bool | Primitive::Str => 0,
        }
    }

    /// Whether the kind is a signed integer type.
    pub fn signed(&self) -> (r: bool)
        ensures
            r == self.is_signed(),
    {
        match self {
            Primitive::I8 | Primitive::I16 | Primitive::I32 | Primitive::I64 | Primitive::I128 => true,
            _ => false,
        }
    }

    /// The greatest integer of this kind.
    pub fn greatest(&self) -> (r: u128)
        ensures
            r == self.max_value(),
    {
        match self {
            Primitive::I8 => 0x7f,
            Primitive::I16 => 0x7fff,
            Primitive::I32 => 0x7fff_ffff,
            Primitive::I64 => 0x7fff_ffff_ffff_ffff,
            Primitive::I128 => 0x7fff_ffff_ffff_ffff_ffff_ffff_ffff_ffff,
            Primitive::U8 => 0xff,
            Primitive::U16 => 0xffff,
            Primitive::U32 => 0xffff_ffff,
            Primitive::U64 => 0xffff_ffff_ffff_ffff,
            Primitive::U128 => 0xffff_ffff_ffff_ffff_ffff_ffff_ffff_ffff,
            Primitive::Bool | Primitive::Str => 0,
        }
    }

    /// The magnitude of the least integer of this kind.
    pub fn least_magnitude(&self) -> (r: u128)
        ensures
            r == -self.min_value(),
    {
        match self {
            Primitive::I8 => 0x80,
            Primitive::I16 => 0x8000,
            Primitive::I32 => 0x8000_0000,
            Primitive::I64 => 0x8000_0000_0000_0000,
            Primitive::I128 => 0x8000_0000_0000_0000_0000_0000_0000_0000,
            _ => 0,
        }
    }

    /// Whether the kind is one of the ten integer types.
    pub fn integer(&self) -> (r: bool)
        ensures
            r == self.is_integer(),
    {
        match self {
            Primitive::Bool | Primitive::Str => false,
            _ => true,
        }
    }
}

impl Clone for TypeDescriptor {
    fn clone(&self) -> (r: Self)
        ensures
            r == *self,
        decreases self,
    {
        match self {
            TypeDescriptor::Primitive(kind) => TypeDescriptor::Primitive(*kind),
            TypeDescriptor::FixedBytes(n) => TypeDescriptor::FixedBytes(*n),
            TypeDescriptor::Sequence(inner) => {
                let copy = (&**inner).clone();
                TypeDescriptor::Sequence(Box::new(copy))
            },
            TypeDescriptor::Optional(inner) => {
                let copy = (&**inner).clone();
                TypeDescriptor::Optional(Box::new(copy))
            },
        }
    }
}

impl TypeDescriptor {
    /// Whether the descriptor is one of the supported shapes.
    pub fn is_supported(&self) -> (r: bool)
        ensures
            r == self.supported(),
    {
        match self {
            TypeDescriptor::Primitive(_) => true,
            TypeDescriptor::FixedBytes(n) => *n == 32 || *n == 64,
            TypeDescriptor::Sequence(inner) => match &**inner {
                TypeDescriptor::Primitive(_) => true,
                TypeDescriptor::Sequence(item) => item.is_primitive(),
                TypeDescriptor::Optional(item) => item.is_primitive(),
                TypeDescriptor::FixedBytes(_) => false,
            },
            TypeDescriptor::Optional(inner) => match &**inner {
                TypeDescriptor::Primitive(_) => true,
                TypeDescriptor::Sequence(item) => item.is_primitive(),
                _ => false,
            },
        }
    }

    /// Whether the descriptor is a primitive kind.
    pub fn is_primitive(&self) -> (r: bool)
        ensures
            r == (*self is Primitive),
    {
        match self {
            TypeDescriptor::Primitive(_) => true,
            _ => false,
        }
    }

    /// Appends the type name of the descriptor.
    pub fn write_name(&self, out: &mut String)
        ensures
            final(out)@ == old(out)@ + self.name(),
        decreases self,
    {
        match self {
            TypeDescriptor::Primitive(kind) => {
                out.append(kind.as_str());
            },
            TypeDescriptor::FixedBytes(n) => {
                out.append("[u8;");
                write_digits(*n as u128, out);
                out.append("]");
                assert(old(out)@ + "[u8;"@ + digits(*n as nat) + "]"@ =~= old(out)@ + ("[u8;"@
                    + digits(*n as nat) + "]"@));
            },
            TypeDescriptor::Sequence(inner) => {
                out.append("Vec<");
                inner.write_name(out);
                out.append(">");
                assert(old(out)@ + "Vec<"@ + inner.name() + ">"@ =~= old(out)@ + ("Vec<"@
                    + inner.name() + ">"@));
            },
            TypeDescriptor::Optional(inner) => {
                out.append("Option<");
                inner.write_name(out);
                out.append(">");
                assert(old(out)@ + "Option<"@ + inner.name() + ">"@ =~= old(out)@ + ("Option<"@
                    + inner.name() + ">"@));
            },
        }
    }

    /// The type name of the descriptor, without white space.
    pub fn to_name(&self) -> (r: String)
        ensures
            r@ == self.name(),
    {
        let mut out = String::new();
        self.write_name(&mut out);
        assert(Seq::<char>::empty() + self.name() =~= self.name());
        out
    }
}

} // verus!
