//! Fixed-width big-endian readers and the bit fields of a byte.

use vstd::prelude::*;
use crate::error::{truncated, Error};

verus! {

/// 2 to the power `n`.
pub open spec fn pow2(n: nat) -> nat
    decreases n,
{
    if n == 0 {
        1
    } else {
        2 * pow2((n - 1) as nat)
    }
}

/// 256 to the power `n`.
pub open spec fn pow256(n: nat) -> nat
    decreases n,
{
    if n == 0 {
        1
    } else {
        256 * pow256((n - 1) as nat)
    }
}

/// The field of `width` bits of `byte` whose lowest bit is bit `low`
/// (bit 0 is the least significant).
pub open spec fn bit_field(byte: u8, low: nat, width: nat) -> nat {
    (byte as nat / pow2(low)) % pow2(width)
}

/// The value of `bytes` read as one big-endian unsigned number.
pub open spec fn be_uint(bytes: Seq<u8>) -> nat
    decreases bytes.len(),
{
    if bytes.len() == 0 {
        0
    } else {
        be_uint(bytes.drop_last()) * 256 + bytes.last() as nat
    }
}

/// The value of `bytes` read as one big-endian two's-complement number.
pub open spec fn be_sint(bytes: Seq<u8>) -> int {
    if bytes.len() > 0 && bytes[0] >= 128 {
        be_uint(bytes) - pow256(bytes.len())
    } else {
        be_uint(bytes) as int
    }
}

/// The `width` bytes that hold `value` in big-endian order.
pub open spec fn be_bytes(value: nat, width: nat) -> Seq<u8>
    decreases width,
{
    if width == 0 {
        Seq::empty()
    } else {
        be_bytes(value / 256, (width - 1) as nat).push((value % 256) as u8)
    }
}

/// What a reader of `width` bytes makes of `input`: the rest and the bytes
/// read, or the error for an input that is too short.
pub open spec fn spec_take(input: Seq<u8>, width: nat) -> Result<(Seq<u8>, Seq<u8>), Error> {
    if input.len() < width {
        Err(truncated(width))
    } else {
        Ok((input.skip(width as int), input.take(width as int)))
    }
}

/// A big-endian number of `n` bytes is below 256 to the power `n`.
pub proof fn lemma_be_uint_bound(bytes: Seq<u8>)
    ensures
        be_uint(bytes) < pow256(bytes.len()),
    decreases bytes.len(),
{
    if bytes.len() > 0 {
        lemma_be_uint_bound(bytes.drop_last());
    }
}

/// Reading the bytes that hold a number gives the number back.
pub proof fn lemma_be_uint_of_be_bytes(value: nat, width: nat)
    requires
        value < pow256(width),
    ensures
        be_bytes(value, width).len() == width,
        be_uint(be_bytes(value, width)) == value,
    decreases width,
{
    if width > 0 {
        let rest = be_bytes(value / 256, (width - 1) as nat);
        lemma_be_uint_of_be_bytes(value / 256, (width - 1) as nat);
        assert(be_bytes(value, width).drop_last() =~= rest);
    }
}

/// The two's-complement code of `value` in `width` bytes.
pub open spec fn twos_complement(value: int, width: nat) -> nat {
    if value < 0 {
        (value + pow256(width)) as nat
    } else {
        value as nat
    }
}

/// 256 to a power above 0 is twice a positive number.
pub proof fn lemma_pow256_even(n: nat)
    requires
        n > 0,
    ensures
        pow256(n) == 2 * (128 * pow256((n - 1) as nat)),
        pow256((n - 1) as nat) > 0,
    decreases n,
{
    if n > 1 {
        lemma_pow256_even((n - 1) as nat);
    }
}

/// The first of the bytes that hold a number is 128 or more exactly when
/// the number is in the upper half of what the bytes can hold.
pub proof fn lemma_be_bytes_first(value: nat, width: nat)
    requires
        width > 0,
        value < pow256(width),
    ensures
        be_bytes(value, width).len() == width,
        be_bytes(value, width)[0] >= 128 <==> 2 * value >= pow256(width),
    decreases width,
{
    lemma_be_uint_of_be_bytes(value, width);
    let shorter = be_bytes(value / 256, (width - 1) as nat);
    assert(be_bytes(value, width) == shorter.push((value % 256) as u8));
    if width == 1 {
        assert(pow256(1) == 256) by {
            reveal_with_fuel(pow256, 2);
        }
        assert(shorter.len() == 0);
        assert(be_bytes(value, width)[0] == value);
    } else {
        let half = 128 * pow256((width - 2) as nat);
        lemma_pow256_even((width - 1) as nat);
        assert(pow256((width - 1) as nat) == 2 * half);
        assert(pow256(width) == 256 * (2 * half));
        assert(value / 256 < 2 * half);
        lemma_be_bytes_first(value / 256, (width - 1) as nat);
        assert(be_bytes(value, width)[0] == shorter[0]);
        assert(2 * (value / 256) >= 2 * half <==> value >= 256 * half);
    }
}

/// Reading the two's-complement code of a number gives the number back.
pub proof fn lemma_be_sint_of_be_bytes(value: int, width: nat)
    requires
        width > 0,
        -(pow256(width) as int) <= 2 * value < pow256(width),
    ensures
        be_bytes(twos_complement(value, width), width).len() == width,
        be_sint(be_bytes(twos_complement(value, width), width)) == value,
{
    let code = twos_complement(value, width);
    lemma_be_uint_of_be_bytes(code, width);
    lemma_be_bytes_first(code, width);
}

/// The powers of 256 that readers of up to eight bytes meet.
pub proof fn lemma_pow256_values()
    ensures
        pow256(0) == 1,
        pow256(1) == 0x100,
        pow256(2) == 0x1_0000,
        pow256(3) == 0x100_0000,
        pow256(4) == 0x1_0000_0000,
        pow256(5) == 0x100_0000_0000,
        pow256(6) == 0x1_0000_0000_0000,
        pow256(7) == 0x100_0000_0000_0000,
        pow256(8) == 0x1_0000_0000_0000_0000,
{
    reveal_with_fuel(pow256, 9);
}

/// The powers of 2 that the fields of a byte meet.
pub proof fn lemma_pow2_values()
    ensures
        pow2(0) == 1,
        pow2(1) == 2,
        pow2(2) == 4,
        pow2(3) == 8,
        pow2(4) == 16,
        pow2(5) == 32,
        pow2(6) == 64,
        pow2(7) == 128,
        pow2(8) == 256,
{
    reveal_with_fuel(pow2, 9);
}

fn pow2_exec(n: u8) -> (r: u16)
    requires
        n <= 8,
    ensures
        r == pow2(n as nat),
{
    proof {
        lemma_pow2_values();
    }
    match n {
        0 => 1,
        1 => 2,
        2 => 4,
        3 => 8,
        4 => 16,
        5 => 32,
        6 => 64,
        7 => 128,
        _ => 256,
    }
}

/// Extracts the field of `width` bits of `byte` whose lowest bit is bit `low`.
pub fn bits(byte: u8, low: u8, width: u8) -> (r: u8)
    requires
        low + width <= 8,
    ensures
        r == bit_field(byte, low as nat, width as nat),
        r < pow2(width as nat),
{
    proof {
        lemma_pow2_values();
    }
    let shifted: u16 = (byte as u16) / pow2_exec(low);
    let field: u16 = shifted % pow2_exec(width);
    field as u8
}

/// Splits `input` after its first `width` bytes.
pub fn take(input: &[u8], width: usize) -> (r: Result<(&[u8], &[u8]), Error>)
    ensures
        match r {
            Ok((rest, head)) => spec_take(input@, width as nat) == Ok::<_, Error>((rest@, head@)),
            Err(e) => spec_take(input@, width as nat) == Err::<(Seq<u8>, Seq<u8>), _>(e),
        },
{
    if input.len() < width {
        Err(Error::Truncated { needed: width })
    } else {
        let head = &input[0..width];
        let rest = &input[width..input.len()];
        assert(head@ =~= input@.take(width as int));
        assert(rest@ =~= input@.skip(width as int));
        Ok((rest, head))
    }
}

/// The big-endian value of at most eight bytes.
pub fn be_value(bytes: &[u8]) -> (v: u64)
    requires
        bytes@.len() <= 8,
    ensures
        v == be_uint(bytes@),
{
    let mut acc: u64 = 0;
    let mut i: usize = 0;
    while i < bytes.len()
        invariant
            i <= bytes@.len() <= 8,
            acc == be_uint(bytes@.take(i as int)),
        decreases bytes@.len() - i,
    {
        proof {
            lemma_be_uint_bound(bytes@.take(i as int));
            lemma_pow256_values();
            assert(bytes@.take(i + 1).drop_last() =~= bytes@.take(i as int));
        }
        acc = acc * 256 + bytes[i] as u64;
        i = i + 1;
    }
    assert(bytes@.take(i as int) =~= bytes@);
    acc
}

/// Reads one byte.
pub fn be_u8(input: &[u8]) -> (r: Result<(&[u8], u8), Error>)
    ensures
        match r {
            Ok((rest, v)) => input@.len() >= 1 && rest@ == input@.skip(1) && v == input@[0],
            Err(e) => input@.len() < 1 && e == truncated(1),
        },
{
    match take(input, 1) {
        Ok((rest, head)) => Ok((rest, head[0])),
        Err(e) => Err(e),
    }
}

/// Reads a big-endian unsigned number of two bytes.
pub fn be_u16(input: &[u8]) -> (r: Result<(&[u8], u16), Error>)
    ensures
        match r {
            Ok((rest, v)) => input@.len() >= 2 && rest@ == input@.skip(2) && v == be_uint(
                input@.take(2),
            ),
            Err(e) => input@.len() < 2 && e == truncated(2),
        },
{
    match take(input, 2) {
        Ok((rest, head)) => {
            proof {
                lemma_be_uint_bound(head@);
                lemma_pow256_values();
            }
            Ok((rest, be_value(head) as u16))
        },
        Err(e) => Err(e),
    }
}

/// Reads a big-endian unsigned number of three bytes.
pub fn be_u24(input: &[u8]) -> (r: Result<(&[u8], u32), Error>)
    ensures
        match r {
            Ok((rest, v)) => input@.len() >= 3 && rest@ == input@.skip(3) && v == be_uint(
                input@.take(3),
            ),
            Err(e) => input@.len() < 3 && e == truncated(3),
        },
{
    match take(input, 3) {
        Ok((rest, head)) => {
            proof {
                lemma_be_uint_bound(head@);
                lemma_pow256_values();
            }
            Ok((rest, be_value(head) as u32))
        },
        Err(e) => Err(e),
    }
}

/// Reads a big-endian unsigned number of four bytes.
pub fn be_u32(input: &[u8]) -> (r: Result<(&[u8], u32), Error>)
    ensures
        match r {
            Ok((rest, v)) => input@.len() >= 4 && rest@ == input@.skip(4) && v == be_uint(
                input@.take(4),
            ),
            Err(e) => input@.len() < 4 && e == truncated(4),
        },
{
    match take(input, 4) {
        Ok((rest, head)) => {
            proof {
                lemma_be_uint_bound(head@);
                lemma_pow256_values();
            }
            Ok((rest, be_value(head) as u32))
        },
        Err(e) => Err(e),
    }
}

/// Reads a big-endian unsigned number of eight bytes.
pub fn be_u64(input: &[u8]) -> (r: Result<(&[u8], u64), Error>)
    ensures
        match r {
            Ok((rest, v)) => input@.len() >= 8 && rest@ == input@.skip(8) && v == be_uint(
                input@.take(8),
            ),
            Err(e) => input@.len() < 8 && e == truncated(8),
        },
{
    match take(input, 8) {
        Ok((rest, head)) => Ok((rest, be_value(head))),
        Err(e) => Err(e),
    }
}

/// Reads a big-endian two's-complement number of two bytes.
pub fn be_i16(input: &[u8]) -> (r: Result<(&[u8], i16), Error>)
    ensures
        match r {
            Ok((rest, v)) => input@.len() >= 2 && rest@ == input@.skip(2) && v == be_sint(
                input@.take(2),
            ),
            Err(e) => input@.len() < 2 && e == truncated(2),
        },
{
    match take(input, 2) {
        Ok((rest, head)) => {
            proof {
                lemma_be_uint_bound(head@);
                lemma_pow256_values();
                reveal_with_fuel(be_uint, 3);
            }
            let u: i32 = be_value(head) as i32;
            let v: i32 = if head[0] >= 128 {
                u - 65536
            } else {
                u
            };
            Ok((rest, v as i16))
        },
        Err(e) => Err(e),
    }
}

/// Reads a big-endian two's-complement number of three bytes, widened to 32
/// bits with its sign.
pub fn be_i24(input: &[u8]) -> (r: Result<(&[u8], i32), Error>)
    ensures
        match r {
            Ok((rest, v)) => input@.len() >= 3 && rest@ == input@.skip(3) && v == be_sint(
                input@.take(3),
            ),
            Err(e) => input@.len() < 3 && e == truncated(3),
        },
{
    match take(input, 3) {
        Ok((rest, head)) => {
            proof {
                lemma_be_uint_bound(head@);
                lemma_pow256_values();
                reveal_with_fuel(be_uint, 4);
            }
            let u: i32 = be_value(head) as i32;
            let v: i32 = if head[0] >= 128 {
                u - 16777216
            } else {
                u
            };
            Ok((rest, v))
        },
        Err(e) => Err(e),
    }
}

} // verus!
