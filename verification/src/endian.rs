//! Little-endian numbers inside byte sequences.

use vstd::arithmetic::power::pow;
use vstd::prelude::*;

verus! {

/// The `width` low-order bytes of `value`, least significant byte first.
pub open spec fn le_bytes(value: nat, width: nat) -> Seq<u8>
    decreases width,
{
    if width == 0 {
        Seq::empty()
    } else {
        seq![(value % 256) as u8] + le_bytes(value / 256, (width - 1) as nat)
    }
}

/// The number that a byte sequence stands for, least significant byte first.
pub open spec fn le_value(bytes: Seq<u8>) -> nat
    decreases bytes.len(),
{
    if bytes.len() == 0 {
        0
    } else {
        bytes[0] as nat + 256 * le_value(bytes.drop_first())
    }
}

/// How many numbers fit in `width` bytes: 256 to the power of `width`.
pub open spec fn le_limit(width: nat) -> nat
    decreases width,
{
    if width == 0 {
        1
    } else {
        256 * le_limit((width - 1) as nat)
    }
}

/// The widths that this library reads and writes have the usual limits.
pub proof fn lemma_le_limits()
    ensures
        le_limit(2) == 0x1_0000,
        le_limit(4) == 0x1_0000_0000,
        le_limit(8) == 0x1_0000_0000_0000_0000,
{
    reveal_with_fuel(le_limit, 9);
}

/// Writing a number takes exactly `width` bytes.
pub proof fn lemma_le_bytes_len(value: nat, width: nat)
    ensures
        le_bytes(value, width).len() == width,
    decreases width,
{
    if width > 0 {
        lemma_le_bytes_len(value / 256, (width - 1) as nat);
    }
}

/// What a byte sequence stands for is below the limit of its length.
pub proof fn lemma_le_value_bound(bytes: Seq<u8>)
    ensures
        le_value(bytes) < le_limit(bytes.len()),
    decreases bytes.len(),
{
    if bytes.len() > 0 {
        lemma_le_value_bound(bytes.drop_first());
    }
}

/// The limit grows with the width.
pub proof fn lemma_le_limit_monotone(narrow: nat, wide: nat)
    requires
        narrow <= wide,
    ensures
        1 <= le_limit(narrow) <= le_limit(wide),
    decreases wide,
{
    if narrow < wide {
        lemma_le_limit_monotone(narrow, (wide - 1) as nat);
    } else if wide > 0 {
        lemma_le_limit_monotone((narrow - 1) as nat, (wide - 1) as nat);
    }
}

/// Reading back a number that fits gives the number.
pub proof fn law_read_after_write(value: nat, width: nat)
    requires
        value < le_limit(width),
    ensures
        le_value(le_bytes(value, width)) == value,
    decreases width,
{
    if width > 0 {
        let rest = le_bytes(value / 256, (width - 1) as nat);
        law_read_after_write(value / 256, (width - 1) as nat);
        assert(le_bytes(value, width).drop_first() =~= rest);
    }
}

/// Writing what was read, at the same width, gives the bytes back.
pub proof fn law_write_after_read(bytes: Seq<u8>)
    ensures
        le_bytes(le_value(bytes), bytes.len()) == bytes,
    decreases bytes.len(),
{
    if bytes.len() > 0 {
        let rest = bytes.drop_first();
        law_write_after_read(rest);
        assert(le_value(bytes) % 256 == bytes[0]);
        assert(le_value(bytes) / 256 == le_value(rest));
        assert(seq![bytes[0]] + rest =~= bytes);
    }
}

/// Appends the `width` low-order bytes of `value` to `out`.
pub fn push_le(out: &mut Vec<u8>, value: u64, width: usize)
    ensures
        final(out)@ == old(out)@ + le_bytes(value as nat, width as nat),
{
    let mut rest: u64 = value;
    let mut left: usize = width;
    while left > 0
        invariant
            left <= width,
            out@ + le_bytes(rest as nat, left as nat) == old(out)@ + le_bytes(
                value as nat,
                width as nat,
            ),
        decreases left,
    {
        let ghost before = out@;
        let byte: u8 = (rest % 256) as u8;
        out.push(byte);
        proof {
            let tail = le_bytes((rest / 256) as nat, (left - 1) as nat);
            assert(out@ + tail =~= before + (seq![byte] + tail));
        }
        rest = rest / 256;
        left = left - 1;
    }
    assert(out@ + le_bytes(rest as nat, 0) =~= out@);
}

/// Reads the number that stands in `width` bytes from `start` on.
pub fn read_le(bytes: &[u8], start: usize, width: usize) -> (value: u64)
    requires
        width <= 8,
        start + width <= bytes@.len(),
    ensures
        value == le_value(bytes@.subrange(start as int, start + width)),
        value < le_limit(width as nat),
{
    assert(bytes@.len() == bytes.len());
    let mut value: u64 = 0;
    let mut left: usize = width;
    let end: usize = start + width;
    proof {
        lemma_le_limits();
    }
    assert(bytes@.subrange(start + width, start + width) =~= Seq::<u8>::empty());
    while left > 0
        invariant
            left <= width <= 8,
            end == start + width <= bytes@.len(),
            value == le_value(bytes@.subrange(start + left, start + width)),
            le_limit(8) == 0x1_0000_0000_0000_0000,
        decreases left,
    {
        let ghost tail = bytes@.subrange(start + left, start + width);
        let ghost longer = bytes@.subrange(start + left - 1, start + width);
        proof {
            assert(longer.drop_first() =~= tail);
            lemma_le_value_bound(longer);
            lemma_le_limit_monotone(longer.len(), 8);
        }
        left = left - 1;
        value = value * 256 + bytes[start + left] as u64;
    }
    proof {
        lemma_le_value_bound(bytes@.subrange(start as int, start + width));
    }
    value
}

/// Byte `i` of a written number counts the multiples of 256 to the power of `i` in it, as far as
/// they are no multiples of the next power: the least significant byte comes first.
pub proof fn law_byte_places(value: nat, width: nat, i: nat)
    requires
        i < width,
    ensures
        le_bytes(value, width).len() == width,
        le_bytes(value, width)[i as int] == (value as int / pow(256, i)) % 256,
    decreases width,
{
    lemma_le_bytes_len(value, width);
    lemma_le_bytes_len(value / 256, (width - 1) as nat);
    reveal(pow);
    if i > 0 {
        let j = (i - 1) as nat;
        law_byte_places(value / 256, (width - 1) as nat, j);
        vstd::arithmetic::power::lemma_pow_positive(256, j);
        vstd::arithmetic::div_mod::lemma_div_denominator(value as int, 256, pow(256, j));
        assert(le_bytes(value, width)[i as int] == le_bytes(
            value / 256,
            (width - 1) as nat,
        )[j as int]);
    }
}

} // verus!
