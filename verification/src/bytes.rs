//! Copying bytes between slices, arrays and vectors, and numbers as bytes.

use crate::field::be_value;
use vstd::prelude::*;

verus! {

/// The array that holds the `N` bytes of `bytes`.
pub fn to_array<const N: usize>(bytes: &[u8]) -> (array: [u8; N])
    requires
        bytes.len() == N,
    ensures
        array@ == bytes@,
{
    let mut array = [0u8; N];
    let mut i: usize = 0;
    while i < N
        invariant
            i <= N,
            bytes.len() == N,
            forall|j: int| 0 <= j < i ==> array@[j] == bytes@[j],
        decreases N - i,
    {
        array[i] = bytes[i];
        i += 1;
    }
    assert(array@ =~= bytes@);
    array
}

/// Writes `source` over the bytes of `target` from position `at` on, and
/// leaves the others as they are.
pub fn copy_into<const N: usize>(target: &mut [u8; N], at: usize, source: &[u8])
    requires
        at + source.len() <= N,
    ensures
        final(target)@ == old(target)@.subrange(0, at as int) + source@ + old(target)@.subrange(
            at + source.len(),
            N as int,
        ),
{
    let mut i: usize = 0;
    while i < source.len()
        invariant
            i <= source.len(),
            at + source.len() <= N,
            forall|j: int| 0 <= j < at ==> target@[j] == old(target)@[j],
            forall|j: int| at <= j < at + i ==> target@[j] == source@[j - at],
            forall|j: int| at + i <= j < N ==> target@[j] == old(target)@[j],
        decreases source.len() - i,
    {
        target[at + i] = source[i];
        i += 1;
    }
    assert(target@ =~= old(target)@.subrange(0, at as int) + source@ + old(target)@.subrange(
        at + source.len(),
        N as int,
    ));
}

/// Appends the bytes of `source` to `target`.
pub fn append(target: &mut Vec<u8>, source: &[u8])
    ensures
        final(target)@ == old(target)@ + source@,
{
    let mut i: usize = 0;
    while i < source.len()
        invariant
            i <= source.len(),
            target@ == old(target)@ + source@.subrange(0, i as int),
        decreases source.len() - i,
    {
        target.push(source[i]);
        i += 1;
        assert(source@.subrange(0, i as int) =~= source@.subrange(0, i - 1).push(source@[i - 1]));
        assert(target@ =~= old(target)@ + source@.subrange(0, i as int));
    }
    assert(source@.subrange(0, i as int) =~= source@);
}

/// The four bytes of `x`, most significant first.
pub open spec fn u32_be_bytes(x: u32) -> Seq<u8> {
    seq![
        (x / 0x100_0000) as u8,
        (x / 0x1_0000 % 0x100) as u8,
        (x / 0x100 % 0x100) as u8,
        (x % 0x100) as u8,
    ]
}

/// Four bytes spell the number whose base-256 digits they are.
pub proof fn lemma_be_value_of_four(bytes: Seq<u8>)
    requires
        bytes.len() == 4,
    ensures
        be_value(bytes) == bytes[0] * 0x100_0000 + bytes[1] * 0x1_0000 + bytes[2] * 0x100
            + bytes[3],
{
    reveal_with_fuel(be_value, 5);
    let b3 = bytes.drop_last();
    let b2 = b3.drop_last();
    let b1 = b2.drop_last();
    assert(b1.drop_last().len() == 0);
}

/// The bytes of a number spell that number.
pub proof fn lemma_u32_be_bytes_value(x: u32)
    ensures
        u32_be_bytes(x).len() == 4,
        be_value(u32_be_bytes(x)) == x,
{
    lemma_be_value_of_four(u32_be_bytes(x));
}

/// The four bytes of `x`, most significant first.
pub fn u32_to_be_bytes(x: u32) -> (bytes: [u8; 4])
    ensures
        bytes@ == u32_be_bytes(x),
{
    let bytes = [
        (x / 0x100_0000) as u8,
        (x / 0x1_0000 % 0x100) as u8,
        (x / 0x100 % 0x100) as u8,
        (x % 0x100) as u8,
    ];
    assert(bytes@ =~= u32_be_bytes(x));
    bytes
}

/// The number that four bytes spell, most significant first.
pub fn u32_from_be_bytes(bytes: &[u8]) -> (x: u32)
    requires
        bytes.len() == 4,
    ensures
        x == be_value(bytes@),
{
    proof {
        lemma_be_value_of_four(bytes@);
    }
    (bytes[0] as u32) * 0x100_0000 + (bytes[1] as u32) * 0x1_0000 + (bytes[2] as u32) * 0x100 + (
    bytes[3] as u32)
}

} // verus!
