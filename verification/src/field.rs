//! Arithmetic modulo the order of the BLS12-381 groups, and the big-endian
//! reading of byte strings as natural numbers.
//!
//! Everything here is specification and proof: the executable arithmetic is
//! done by the scalar and group element types.

use vstd::arithmetic::div_mod::{
    lemma_add_mod_noop, lemma_mod_twice, lemma_mul_mod_noop_general, lemma_small_mod,
    lemma_sub_mod_noop,
};
use vstd::prelude::*;

verus! {

/// The prime order `r` of the groups G1, G2 and GT of BLS12-381, which is also
/// the size of the scalar field. It has 255 bits.
pub open spec fn group_order() -> int {
    0x73eda753299d7d483339d80809a1d80553bda402fffe5bfeffffffff00000001int
}

/// `a + b` in the scalar field.
pub open spec fn field_add(a: int, b: int) -> int {
    (a + b) % group_order()
}

/// `a - b` in the scalar field.
pub open spec fn field_sub(a: int, b: int) -> int {
    (a - b) % group_order()
}

/// `a * b` in the scalar field.
pub open spec fn field_mul(a: int, b: int) -> int {
    (a * b) % group_order()
}

/// `-a` in the scalar field.
pub open spec fn field_neg(a: int) -> int {
    (-a) % group_order()
}

/// Whether `a` is the canonical representative of its residue class.
pub open spec fn is_reduced(a: int) -> bool {
    0 <= a < group_order()
}

/// The natural number that `bytes` spells in base 256, most significant byte
/// first.
pub open spec fn be_value(bytes: Seq<u8>) -> nat
    decreases bytes.len(),
{
    if bytes.len() == 0 {
        0
    } else {
        be_value(bytes.drop_last()) * 256 + bytes.last() as nat
    }
}

/// A canonical value is its own residue.
pub proof fn lemma_reduced_is_fixed(a: int)
    requires
        is_reduced(a),
    ensures
        a % group_order() == a,
        field_mul(1, a) == a,
        field_mul(a, 1) == a,
        field_add(a, 0) == a,
{
    lemma_small_mod(a as nat, group_order() as nat);
}

/// Whether `a` and `b` leave the same remainder modulo the group order.
pub open spec fn congruent(a: int, b: int) -> bool {
    a % group_order() == b % group_order()
}

/// The results of the field operations are congruent to the plain results.
pub proof fn lemma_field_ops_congruent(a: int, b: int)
    ensures
        congruent(field_add(a, b), a + b),
        congruent(field_sub(a, b), a - b),
        congruent(field_mul(a, b), a * b),
{
    lemma_mod_twice(a + b, group_order());
    lemma_mod_twice(a - b, group_order());
    lemma_mod_twice(a * b, group_order());
}

/// Addition respects congruence: the field sum of `a` and `b` is the residue
/// of the sum of any numbers congruent to them.
pub proof fn lemma_field_add_congruent(a: int, b: int, x: int, y: int)
    requires
        congruent(a, x),
        congruent(b, y),
    ensures
        field_add(a, b) == (x + y) % group_order(),
        congruent(field_add(a, b), x + y),
{
    lemma_add_mod_noop(a, b, group_order());
    lemma_add_mod_noop(x, y, group_order());
    lemma_mod_twice(x + y, group_order());
}

/// Subtraction respects congruence.
pub proof fn lemma_field_sub_congruent(a: int, b: int, x: int, y: int)
    requires
        congruent(a, x),
        congruent(b, y),
    ensures
        field_sub(a, b) == (x - y) % group_order(),
        congruent(field_sub(a, b), x - y),
{
    lemma_sub_mod_noop(a, b, group_order());
    lemma_sub_mod_noop(x, y, group_order());
    lemma_mod_twice(x - y, group_order());
}

/// Multiplication respects congruence.
pub proof fn lemma_field_mul_congruent(a: int, b: int, x: int, y: int)
    requires
        congruent(a, x),
        congruent(b, y),
    ensures
        field_mul(a, b) == (x * y) % group_order(),
        congruent(field_mul(a, b), x * y),
{
    lemma_mul_mod_noop_general(a, b, group_order());
    lemma_mul_mod_noop_general(x, y, group_order());
    lemma_mod_twice(x * y, group_order());
}

/// Leading zero bytes do not change the value.
pub proof fn lemma_be_value_leading_zeros(zeros: Seq<u8>, bytes: Seq<u8>)
    requires
        forall|i: int| 0 <= i < zeros.len() ==> zeros[i] == 0,
    ensures
        be_value(zeros + bytes) == be_value(bytes),
    decreases bytes.len(), zeros.len(),
{
    if bytes.len() == 0 {
        assert(zeros + bytes =~= zeros);
        if zeros.len() > 0 {
            lemma_be_value_leading_zeros(zeros.drop_last(), bytes);
            assert(zeros.drop_last() + bytes =~= zeros.drop_last());
        }
    } else {
        assert((zeros + bytes).drop_last() =~= zeros + bytes.drop_last());
        lemma_be_value_leading_zeros(zeros, bytes.drop_last());
    }
}

/// Two byte strings of one length that spell the same number are the same
/// string.
pub proof fn lemma_be_value_injective(a: Seq<u8>, b: Seq<u8>)
    requires
        a.len() == b.len(),
        be_value(a) == be_value(b),
    ensures
        a == b,
    decreases a.len(),
{
    if a.len() > 0 {
        lemma_be_value_injective(a.drop_last(), b.drop_last());
        assert(a =~= a.drop_last().push(a.last()));
        assert(b =~= b.drop_last().push(b.last()));
    } else {
        assert(a =~= b);
    }
}

} // verus!
