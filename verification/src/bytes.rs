//! Little-endian integers in byte strings.

use vstd::prelude::*;

verus! {

/// `width` bytes that hold `n`, least significant first.
pub open spec fn le_bytes(n: nat, width: nat) -> Seq<u8>
    decreases width,
{
    if width == 0 {
        Seq::empty()
    } else {
        seq![(n % 256) as u8] + le_bytes(n / 256, (width - 1) as nat)
    }
}

/// The number that bytes hold, least significant first.
pub open spec fn le_value(s: Seq<u8>) -> nat
    decreases s.len(),
{
    if s.len() == 0 {
        0
    } else {
        s[0] as nat + 256 * le_value(s.skip(1))
    }
}

/// The number of values that `width` bytes can hold.
pub open spec fn byte_range(width: nat) -> nat
    decreases width,
{
    if width == 0 {
        1
    } else {
        256 * byte_range((width - 1) as nat)
    }
}

/// A number that fits is found again from its bytes, which are as many as asked
/// for.
pub proof fn le_round_trip(n: nat, width: nat)
    requires
        n < byte_range(width),
    ensures
        le_bytes(n, width).len() == width,
        le_value(le_bytes(n, width)) == n,
    decreases width,
{
    if width > 0 {
        le_round_trip(n / 256, (width - 1) as nat);
        assert(le_bytes(n, width).skip(1) =~= le_bytes(n / 256, (width - 1) as nat));
    }
}

/// Bytes hold a number below the range of their length.
pub proof fn le_value_fits(s: Seq<u8>)
    ensures
        le_value(s) < byte_range(s.len()),
    decreases s.len(),
{
    if s.len() > 0 {
        le_value_fits(s.skip(1));
    }
}

/// The ranges of two, four and eight bytes.
pub proof fn byte_ranges()
    ensures
        byte_range(2) == 0x1_0000,
        byte_range(4) == 0x1_0000_0000,
        byte_range(8) == 0x1_0000_0000_0000_0000,
{
    reveal_with_fuel(byte_range, 9);
}

/// The four bytes of a number.
pub fn le_u32(n: u32) -> (r: Vec<u8>)
    ensures
        r@ == le_bytes(n as nat, 4),
{
    let mut r: Vec<u8> = Vec::new();
    r.push((n % 256) as u8);
    r.push((n / 256 % 256) as u8);
    r.push((n / 256 / 256 % 256) as u8);
    r.push((n / 256 / 256 / 256 % 256) as u8);
    proof {
        reveal_with_fuel(le_bytes, 5);
        assert(r@ =~= le_bytes(n as nat, 4));
    }
    r
}

/// The number in the `width` bytes from `at` on.
pub fn read_le(bytes: &[u8], at: usize, width: usize) -> (r: u64)
    requires
        width <= 8,
        at + width <= bytes@.len(),
    ensures
        r == le_value(bytes@.subrange(at as int, at + width)),
    decreases width,
{
    let ghost part = bytes@.subrange(at as int, at + width);
    proof {
        byte_ranges();
        byte_range_grows(width as nat, 8);
        le_value_fits(part);
    }
    if width == 0 {
        return 0;
    }
    assert(part.skip(1) =~= bytes@.subrange(at + 1, at + width));
    proof {
        le_value_fits(part.skip(1));
    }
    let end: usize = bytes.len();
    assert(at < end);
    let first: u8 = bytes[at];
    let rest: u64 = read_le(bytes, at + 1, width - 1);
    first as u64 + 256 * rest
}

proof fn byte_range_grows(a: nat, b: nat)
    requires
        a <= b,
    ensures
        byte_range(a) <= byte_range(b),
    decreases b,
{
    if a < b {
        byte_range_grows(a, (b - 1) as nat);
    }
}

} // verus!
