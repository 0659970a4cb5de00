//! Little-endian byte strings of fixed width, and two's complement.

use vstd::prelude::*;

verus! {

/// The number of values that `width` bytes can hold: 256 to the power `width`.
pub open spec fn radix(width: nat) -> nat
    decreases width,
{
    if width == 0 {
        1
    } else {
        256 * radix((width - 1) as nat)
    }
}

/// The `width` low bytes of `n`, least significant first.
pub open spec fn le_bytes(n: nat, width: nat) -> Seq<u8>
    decreases width,
{
    if width == 0 {
        Seq::empty()
    } else {
        seq![(n % 256) as u8] + le_bytes(n / 256, (width - 1) as nat)
    }
}

/// The number whose little-endian bytes are `bytes`.
pub open spec fn le_value(bytes: Seq<u8>) -> nat
    decreases bytes.len(),
{
    if bytes.len() == 0 {
        0
    } else {
        bytes[0] as nat + 256 * le_value(bytes.skip(1))
    }
}

/// The natural number that stands for `n` in two's complement of `width` bytes.
pub open spec fn twos_complement(n: int, width: nat) -> nat {
    if n < 0 {
        (n + radix(width)) as nat
    } else {
        n as nat
    }
}

/// The integer that `u` stands for in two's complement of `width` bytes.
pub open spec fn from_twos_complement(u: nat, width: nat) -> int {
    if 2 * u >= radix(width) {
        u - radix(width)
    } else {
        u as int
    }
}

/// The values of `radix` at the widths of the integer types.
pub proof fn lemma_radix_values()
    ensures
        radix(0) == 1,
        radix(1) == 0x100,
        radix(2) == 0x1_0000,
        radix(4) == 0x1_0000_0000,
        radix(8) == 0x1_0000_0000_0000_0000,
        radix(16) == 0x1_0000_0000_0000_0000_0000_0000_0000_0000,
{
    reveal_with_fuel(radix, 17);
}

/// `radix` grows with the width.
pub proof fn lemma_radix_monotonic(a: nat, b: nat)
    requires
        a <= b,
    ensures
        0 < radix(a) <= radix(b),
    decreases b,
{
    if a < b {
        lemma_radix_monotonic(a, (b - 1) as nat);
    } else if a > 0 {
        lemma_radix_monotonic((a - 1) as nat, (a - 1) as nat);
    }
}

/// `le_bytes` gives as many bytes as asked for.
pub proof fn lemma_le_bytes_len(n: nat, width: nat)
    ensures
        le_bytes(n, width).len() == width,
    decreases width,
{
    if width > 0 {
        lemma_le_bytes_len(n / 256, (width - 1) as nat);
    }
}

/// The value of a byte string is below the radix of its length.
pub proof fn lemma_le_value_bound(bytes: Seq<u8>)
    ensures
        le_value(bytes) < radix(bytes.len()),
    decreases bytes.len(),
{
    if bytes.len() > 0 {
        lemma_le_value_bound(bytes.skip(1));
    }
}

/// A number that fits `width` bytes is the value of its bytes.
pub proof fn lemma_le_value_of_bytes(n: nat, width: nat)
    requires
        n < radix(width),
    ensures
        le_value(le_bytes(n, width)) == n,
    decreases width,
{
    if width > 0 {
        let rest = le_bytes(n / 256, (width - 1) as nat);
        let all = le_bytes(n, width);
        lemma_le_value_of_bytes(n / 256, (width - 1) as nat);
        lemma_le_bytes_len(n / 256, (width - 1) as nat);
        assert(all.skip(1) =~= rest);
        assert(all[0] == (n % 256) as u8);
    }
}

/// A byte string is the bytes of its value.
pub proof fn lemma_le_bytes_of_value(bytes: Seq<u8>)
    ensures
        le_bytes(le_value(bytes), bytes.len()) == bytes,
    decreases bytes.len(),
{
    if bytes.len() > 0 {
        lemma_le_bytes_of_value(bytes.skip(1));
        let v = le_value(bytes);
        let tail = le_value(bytes.skip(1));
        assert(v % 256 == bytes[0] as nat);
        assert(v / 256 == tail);
        assert(seq![bytes[0]] + bytes.skip(1) =~= bytes);
    }
}

/// Two's complement loses nothing of an integer within the signed range.
pub proof fn lemma_twos_complement_round_trip(n: int, width: nat)
    requires
        width > 0,
        -(radix(width) / 2) <= n < radix(width) / 2,
    ensures
        twos_complement(n, width) < radix(width),
        from_twos_complement(twos_complement(n, width), width) == n,
{
    assert(radix(width) == 256 * radix((width - 1) as nat));
}

/// Every number that fits `width` bytes stands for an integer of the signed
/// range, and for no other.
pub proof fn lemma_from_twos_complement_round_trip(u: nat, width: nat)
    requires
        width > 0,
        u < radix(width),
    ensures
        -(radix(width) / 2) <= from_twos_complement(u, width) < radix(width) / 2,
        twos_complement(from_twos_complement(u, width), width) == u,
{
    assert(radix(width) == 256 * radix((width - 1) as nat));
}

/// Appends the `width` low bytes of `n`, least significant first.
pub fn write_le(n: u128, width: usize, out: &mut Vec<u8>)
    ensures
        final(out)@ == old(out)@ + le_bytes(n as nat, width as nat),
{
    let mut x: u128 = n;
    let mut i: usize = 0;
    while i < width
        invariant
            i <= width,
            old(out)@ + le_bytes(n as nat, width as nat) == out@ + le_bytes(
                x as nat,
                (width - i) as nat,
            ),
        decreases width - i,
    {
        let ghost rest = le_bytes((x / 256) as nat, (width - i - 1) as nat);
        assert(out@ + (seq![(x % 256) as u8] + rest) =~= out@.push((x % 256) as u8) + rest);
        out.push((x % 256) as u8);
        x = x / 256;
        i += 1;
    }
    assert(out@ + Seq::<u8>::empty() =~= out@);
}

/// The number whose little-endian bytes stand in `bytes` from `at`, `width` long.
pub fn read_le(bytes: &[u8], at: usize, width: usize) -> (r: u128)
    requires
        width <= 16,
        at + width <= bytes.len(),
    ensures
        r == le_value(bytes@.subrange(at as int, at + width)),
{
    let ghost window = bytes@.subrange(at as int, at + width);
    let mut acc: u128 = 0;
    let mut i: usize = width;
    while i > 0
        invariant
            i <= width <= 16,
            at + width <= bytes.len(),
            window == bytes@.subrange(at as int, at + width),
            acc == le_value(window.skip(i as int)),
        decreases i,
    {
        proof {
            let tail = window.skip(i as int);
            let next = window.skip(i - 1);
            assert(next.skip(1) =~= tail);
            assert(next[0] == bytes@[at + i - 1]);
            lemma_le_value_bound(tail);
            lemma_radix_monotonic(tail.len(), 15);
            lemma_radix_monotonic(15, 15);
            reveal_with_fuel(radix, 17);
            assert(radix(15) * 256 == radix(16));
            lemma_radix_values();
        }
        i -= 1;
        acc = acc * 256 + bytes[at + i] as u128;
    }
    assert(window.skip(0) =~= window);
    acc
}

} // verus!
