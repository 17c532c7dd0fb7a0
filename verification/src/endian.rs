//! Integers as bytes.

use vstd::prelude::*;

verus! {

/// The number that bytes stand for, the least significant byte first.
pub open spec fn le_value(bytes: Seq<u8>) -> nat
    decreases bytes.len(),
{
    if bytes.len() == 0 {
        0
    } else {
        bytes[0] as nat + 256 * le_value(bytes.skip(1))
    }
}

/// The `count` lowest bytes of a number, the least significant byte first.
pub open spec fn le_bytes(value: nat, count: nat) -> Seq<u8>
    decreases count,
{
    if count == 0 {
        Seq::empty()
    } else {
        seq![(value % 256) as u8] + le_bytes(value / 256, (count - 1) as nat)
    }
}

/// A number has as many bytes as were asked for.
pub proof fn lemma_le_bytes_len(value: nat, count: nat)
    ensures
        le_bytes(value, count).len() == count,
    decreases count,
{
    if count > 0 {
        lemma_le_bytes_len(value / 256, (count - 1) as nat);
    }
}

/// The bytes of the number that bytes stand for are those bytes.
pub proof fn lemma_le_bytes_of_value(bytes: Seq<u8>)
    ensures
        le_bytes(le_value(bytes), bytes.len()) == bytes,
    decreases bytes.len(),
{
    if bytes.len() > 0 {
        lemma_le_bytes_of_value(bytes.skip(1));
        assert(le_value(bytes) / 256 == le_value(bytes.skip(1)));
        assert(le_bytes(le_value(bytes), bytes.len()) =~= bytes);
    } else {
        assert(le_bytes(le_value(bytes), bytes.len()) =~= bytes);
    }
}

/// What four bytes stand for.
pub proof fn lemma_le_value_of_four(bytes: Seq<u8>)
    requires
        bytes.len() == 4,
    ensures
        le_value(bytes) == bytes[0] + 0x100 * bytes[1] + 0x1_0000 * bytes[2] + 0x100_0000
            * bytes[3],
        le_value(bytes) <= u32::MAX,
{
    let a = bytes.skip(1);
    let b = a.skip(1);
    let c = b.skip(1);
    assert(c.skip(1) =~= Seq::<u8>::empty());
    assert(le_value(c.skip(1)) == 0);
    assert(le_value(c) == bytes[3]);
    assert(le_value(b) == bytes[2] + 256 * le_value(c));
    assert(le_value(a) == bytes[1] + 256 * le_value(b));
}

/// What bytes stand for, in two parts.
pub proof fn lemma_le_value_of_halves(bytes: Seq<u8>)
    requires
        bytes.len() == 8,
    ensures
        le_value(bytes) == le_value(bytes.take(4)) + 0x1_0000_0000 * le_value(bytes.skip(4)),
        le_value(bytes) <= u64::MAX,
{
    let a = bytes.skip(1);
    let b = a.skip(1);
    let c = b.skip(1);
    assert(c.skip(1) =~= bytes.skip(4));
    assert(le_value(c) == bytes[3] + 256 * le_value(bytes.skip(4)));
    assert(le_value(b) == bytes[2] + 256 * le_value(c));
    assert(le_value(a) == bytes[1] + 256 * le_value(b));
    lemma_le_value_of_four(bytes.take(4));
    lemma_le_value_of_four(bytes.skip(4));
}

/// The four bytes of a number.
#[verifier::rlimit(40)]
pub fn u32_to_le(value: u32) -> (bytes: [u8; 4])
    ensures
        bytes@ == le_bytes(value as nat, 4),
        le_value(bytes@) == value,
{
    let bytes = [
        (value % 0x100) as u8,
        (value / 0x100 % 0x100) as u8,
        (value / 0x1_0000 % 0x100) as u8,
        (value / 0x100_0000) as u8,
    ];
    proof {
        lemma_le_value_of_four(bytes@);
        lemma_le_bytes_of_value(bytes@);
    }
    bytes
}

/// The number that four bytes stand for.
pub fn u32_from_le(bytes: [u8; 4]) -> (value: u32)
    ensures
        value == le_value(bytes@),
{
    proof {
        lemma_le_value_of_four(bytes@);
    }
    bytes[0] as u32 + bytes[1] as u32 * 0x100 + bytes[2] as u32 * 0x1_0000 + bytes[3] as u32
        * 0x100_0000
}

/// The four bytes of a number are its digits to base 256, the least significant one first.
pub proof fn law_bytes_are_digits(value: u32, bytes: Seq<u8>)
    requires
        bytes.len() == 4,
    ensures
        le_bytes(value as nat, 4) == bytes <==> value == bytes[0] + 256 * bytes[1] + 65536 * bytes[2]
            + 16777216 * bytes[3],
        le_value(bytes) == bytes[0] + 256 * bytes[1] + 65536 * bytes[2] + 16777216 * bytes[3],
{
    lemma_le_value_of_four(bytes);
    lemma_le_bytes_of_value(bytes);
    let own = le_bytes(value as nat, 4);
    lemma_le_bytes_len(value as nat, 4);
    lemma_le_value_of_four(own);
    reveal_with_fuel(le_bytes, 5);
    assert(le_value(own) == value);
}

}
