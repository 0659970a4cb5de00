//! Decimal notation of integers.
//!
//! `decimal(n)` is the one way this crate writes an integer: an optional minus
//! sign, then digits without leading zeros. `integer_of` reads exactly those
//! texts back, and nothing else counts as an integer literal.

use vstd::prelude::*;
use crate::chars::chars_of;

verus! {

/// The character of a digit below ten.
pub open spec fn digit(d: int) -> char {
    if d == 0 {
        '0'
    } else if d == 1 {
        '1'
    } else if d == 2 {
        '2'
    } else if d == 3 {
        '3'
    } else if d == 4 {
        '4'
    } else if d == 5 {
        '5'
    } else if d == 6 {
        '6'
    } else if d == 7 {
        '7'
    } else if d == 8 {
        '8'
    } else {
        '9'
    }
}

/// The digit that a character stands for, if it is an ASCII digit.
pub open spec fn digit_value(c: char) -> Option<int> {
    if c == '0' {
        Some(0)
    } else if c == '1' {
        Some(1)
    } else if c == '2' {
        Some(2)
    } else if c == '3' {
        Some(3)
    } else if c == '4' {
        Some(4)
    } else if c == '5' {
        Some(5)
    } else if c == '6' {
        Some(6)
    } else if c == '7' {
        Some(7)
    } else if c == '8' {
        Some(8)
    } else if c == '9' {
        Some(9)
    } else {
        None
    }
}

/// The digits of a natural number, most significant first, without leading zeros.
pub open spec fn digits(n: nat) -> Seq<char>
    decreases n,
{
    if n < 10 {
        seq![digit(n as int)]
    } else {
        digits(n / 10).push(digit((n % 10) as int))
    }
}

/// The decimal text of an integer.
pub open spec fn decimal(n: int) -> Seq<char> {
    if n < 0 {
        seq!['-'] + digits((-n) as nat)
    } else {
        digits(n as nat)
    }
}

/// Whether every character of `s` is an ASCII digit.
pub open spec fn all_digits(s: Seq<char>) -> bool {
    forall|i: int| 0 <= i < s.len() ==> (#[trigger] digit_value(s[i])) is Some
}

/// The number that a run of digits denotes.
pub open spec fn digits_value(s: Seq<char>) -> nat
    decreases s.len(),
{
    if s.len() == 0 {
        0
    } else {
        let last = digit_value(s.last());
        (10 * digits_value(s.drop_last()) + if last is Some { last.unwrap() } else { 0 }) as nat
    }
}

/// Whether `s` is a run of digits that starts with zero only if it is "0".
pub open spec fn is_natural_literal(s: Seq<char>) -> bool {
    &&& s.len() > 0
    &&& all_digits(s)
    &&& (s.len() == 1 || s[0] != '0')
}

/// The integer that `s` is the decimal text of, if it is one.
///
/// A minus sign before zero is not an integer literal.
pub open spec fn integer_of(s: Seq<char>) -> Option<int> {
    if is_natural_literal(s) {
        Some(digits_value(s) as int)
    } else if s.len() > 1 && s[0] == '-' && is_natural_literal(s.skip(1)) && digits_value(
        s.skip(1),
    ) > 0 {
        Some(-(digits_value(s.skip(1)) as int))
    } else {
        None
    }
}

/// The absolute value of an integer.
pub open spec fn magnitude(n: int) -> nat {
    if n < 0 {
        (-n) as nat
    } else {
        n as nat
    }
}

/// What reading an integer literal gives: its sign, and its magnitude where
/// that fits sixteen bytes.
#[derive(Clone, Copy, Debug, PartialEq, Eq)]
pub struct Literal {
    pub negative: bool,
    pub magnitude: Option<u128>,
}

impl Literal {
    /// Whether this is what reading the decimal text of `n` gives.
    pub open spec fn denotes(self, n: int) -> bool {
        &&& self.negative == (n < 0)
        &&& match self.magnitude {
            Some(m) => m == magnitude(n),
            None => magnitude(n) > u128::MAX,
        }
    }
}

/// The digits of `n` are a literal, and denote `n`.
pub proof fn lemma_digits_literal(n: nat)
    ensures
        is_natural_literal(digits(n)),
        digits_value(digits(n)) == n,
        n > 0 ==> digits(n)[0] != '0',
    decreases n,
{
    if n < 10 {
        assert(digits(n).drop_last() =~= Seq::<char>::empty());
        assert(digits_value(digits(n).drop_last()) == 0);
        assert(digit_value(digits(n).last()) == Some(n as int));
    } else {
        lemma_digits_literal(n / 10);
        let init = digits(n / 10);
        let d = digit((n % 10) as int);
        assert(init.push(d).drop_last() =~= init);
        assert(init.push(d).last() == d);
        assert(digit_value(d) == Some((n % 10) as int));
        assert(digits_value(init.push(d)) == 10 * digits_value(init) + n % 10);
        assert(init.push(d)[0] == init[0]);
        assert forall|i: int| 0 <= i < init.push(d).len() implies (#[trigger] digit_value(
            init.push(d)[i],
        )) is Some by {
            if i < init.len() {
                assert(init.push(d)[i] == init[i]);
            }
        }
    }
}

/// A literal is the digits of the number it denotes.
pub proof fn lemma_literal_digits(s: Seq<char>)
    requires
        is_natural_literal(s),
    ensures
        digits(digits_value(s)) == s,
        s[0] != '0' ==> digits_value(s) > 0,
    decreases s.len(),
{
    let last = digit_value(s.last());
    assert(last is Some);
    if s.len() == 1 {
        assert(s.drop_last() =~= Seq::<char>::empty());
        assert(digits_value(s.drop_last()) == 0);
        assert(digits(digits_value(s)) =~= s);
    } else {
        let init = s.drop_last();
        assert(init[0] == s[0]);
        assert forall|i: int| 0 <= i < init.len() implies (#[trigger] digit_value(init[i])) is Some by {
            assert(init[i] == s[i]);
        }
        lemma_literal_digits(init);
        let v = digits_value(init);
        assert(v > 0);
        assert(digits_value(s) == 10 * v + last.unwrap());
        assert((10 * v + last.unwrap()) / 10 == v);
        assert((10 * v + last.unwrap()) % 10 == last.unwrap());
        assert(digit(last.unwrap()) == s.last());
        assert(init.push(s.last()) =~= s);
    }
}

/// Reading the decimal text of an integer gives that integer.
pub proof fn lemma_integer_of_decimal(n: int)
    ensures
        integer_of(decimal(n)) == Some(n),
{
    if n < 0 {
        let m = (-n) as nat;
        lemma_digits_literal(m);
        let s = seq!['-'] + digits(m);
        assert(s.skip(1) =~= digits(m));
        assert(digit_value(s[0]) is None);
        assert(!is_natural_literal(s));
    } else {
        lemma_digits_literal(n as nat);
    }
}

/// A text that reads as an integer is the decimal text of that integer.
pub proof fn lemma_decimal_of_integer(s: Seq<char>)
    requires
        integer_of(s) is Some,
    ensures
        decimal(integer_of(s).unwrap()) == s,
{
    if is_natural_literal(s) {
        lemma_literal_digits(s);
    } else {
        lemma_literal_digits(s.skip(1));
        assert(seq!['-'] + s.skip(1) =~= s);
    }
}

/// The character of a digit.
pub fn digit_char(d: u8) -> (c: char)
    requires
        d < 10,
    ensures
        c == digit(d as int),
{
    if d == 0 {
        '0'
    } else if d == 1 {
        '1'
    } else if d == 2 {
        '2'
    } else if d == 3 {
        '3'
    } else if d == 4 {
        '4'
    } else if d == 5 {
        '5'
    } else if d == 6 {
        '6'
    } else if d == 7 {
        '7'
    } else if d == 8 {
        '8'
    } else {
        '9'
    }
}

/// The digit that a character stands for.
pub fn char_digit(c: char) -> (d: Option<u8>)
    ensures
        match d {
            Some(v) => digit_value(c) == Some(v as int),
            None => digit_value(c) is None,
        },
{
    if c == '0' {
        Some(0)
    } else if c == '1' {
        Some(1)
    } else if c == '2' {
        Some(2)
    } else if c == '3' {
        Some(3)
    } else if c == '4' {
        Some(4)
    } else if c == '5' {
        Some(5)
    } else if c == '6' {
        Some(6)
    } else if c == '7' {
        Some(7)
    } else if c == '8' {
        Some(8)
    } else if c == '9' {
        Some(9)
    } else {
        None
    }
}

/// Appends the digits of `n` to `out`.
pub fn write_digits(n: u128, out: &mut String)
    ensures
        final(out)@ == old(out)@ + digits(n as nat),
    decreases n,
{
    if n >= 10 {
        write_digits(n / 10, out);
    }
    out.push(digit_char((n % 10) as u8));
    proof {
        if n >= 10 {
            assert(old(out)@ + digits((n / 10) as nat).push(digit((n % 10) as int)) =~= (old(out)@
                + digits((n / 10) as nat)).push(digit((n % 10) as int)));
        } else {
            assert(old(out)@ + seq![digit(n as int)] =~= old(out)@.push(digit(n as int)));
        }
    }
}

/// Appends the decimal text of the integer with the given sign and magnitude.
pub fn write_decimal(negative: bool, magnitude: u128, out: &mut String)
    requires
        negative ==> magnitude > 0,
    ensures
        final(out)@ == old(out)@ + decimal(if negative { -(magnitude as int) } else { magnitude as int }),
{
    if negative {
        out.push('-');
        write_digits(magnitude, out);
        assert(old(out)@.push('-') + digits(magnitude as nat) =~= old(out)@ + (seq!['-'] + digits(
            magnitude as nat,
        )));
    } else {
        write_digits(magnitude, out);
    }
}

/// Reads a run of digits from `lo` to the end, as far as the number fits.
pub fn read_digits(chars: &Vec<char>, lo: usize) -> (r: Option<Option<u128>>)
    requires
        lo <= chars.len(),
    ensures
        match r {
            None => !all_digits(chars@.skip(lo as int)),
            Some(Some(v)) => all_digits(chars@.skip(lo as int)) && digits_value(
                chars@.skip(lo as int),
            ) == v,
            Some(None) => all_digits(chars@.skip(lo as int)) && digits_value(
                chars@.skip(lo as int),
            ) > u128::MAX,
        },
{
    let mut acc: Option<u128> = Some(0);
    let mut i: usize = lo;
    let ghost s = chars@.skip(lo as int);
    while i < chars.len()
        invariant
            lo <= i <= chars.len(),
            s == chars@.skip(lo as int),
            all_digits(s.take(i - lo)),
            match acc {
                Some(v) => digits_value(s.take(i - lo)) == v,
                None => digits_value(s.take(i - lo)) > u128::MAX,
            },
        decreases chars.len() - i,
    {
        let ghost before = s.take(i - lo);
        let ghost after = s.take(i - lo + 1);
        assert(after.drop_last() =~= before);
        assert(after.last() == chars@[i as int]);
        match char_digit(chars[i]) {
            None => {
                assert(digit_value(s[i - lo]) is None);
                return None;
            },
            Some(d) => {
                assert forall|j: int| 0 <= j < after.len() implies (#[trigger] digit_value(
                    after[j],
                )) is Some by {
                    if j < before.len() {
                        assert(after[j] == before[j]);
                    }
                }
                acc = match acc {
                    None => None,
                    Some(v) => match v.checked_mul(10) {
                        None => None,
                        Some(w) => w.checked_add(d as u128),
                    },
                };
            },
        }
        i += 1;
    }
    assert(s.take(i - lo) =~= s);
    Some(acc)
}

/// Reads `text` as an integer literal.
///
/// The result is `None` where `text` is not the decimal text of any integer.
pub fn read_integer(text: &str) -> (r: Option<Literal>)
    ensures
        match r {
            None => integer_of(text@) is None,
            Some(l) => integer_of(text@) is Some && l.denotes(integer_of(text@).unwrap()),
        },
{
    let chars = chars_of(text);
    let n = chars.len();
    if n == 0 {
        return None;
    }
    let negative = chars[0] == '-';
    let lo: usize = if negative { 1 } else { 0 };
    let ghost body = chars@.skip(lo as int);
    if n == lo {
        return None;
    }
    assert(body[0] == chars@[lo as int]);
    let leading_zero = chars[lo] == '0';
    if leading_zero && n - lo > 1 {
        proof {
            if negative {
                assert(digit_value(chars@[0]) is None);
            }
        }
        return None;
    }
    match read_digits(&chars, lo) {
        None => {
            proof {
                if negative {
                    assert(digit_value(chars@[0]) is None);
                }
            }
            None
        },
        Some(magnitude) => {
            if negative {
                assert(digit_value(chars@[0]) is None);
                assert(!is_natural_literal(chars@));
                if leading_zero {
                    assert(body.drop_last() =~= Seq::<char>::empty());
                    assert(digits_value(body.drop_last()) == 0);
                    return None;
                }
                proof {
                    lemma_literal_digits(body);
                }
                Some(Literal { negative: true, magnitude })
            } else {
                assert(body =~= chars@);
                Some(Literal { negative: false, magnitude })
            }
        },
    }
}

} // verus!
