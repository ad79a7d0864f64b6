//! Integer sums of byte sequences, and `u32` wraparound accumulation.
use vstd::prelude::*;

verus! {

/// The modulus of `u32` arithmetic.
pub open spec fn word_modulus() -> int {
    0x1_0000_0000
}

/// An integer reduced into `u32` range, as wraparound addition leaves it.
pub open spec fn wrap(x: int) -> u32 {
    (x % word_modulus()) as u32
}

/// The sum of all bytes of `s`, as an unbounded integer.
pub open spec fn bytes_sum(s: Seq<u8>) -> int
    decreases s.len(),
{
    if s.len() == 0 {
        0
    } else {
        bytes_sum(s.drop_last()) + s.last()
    }
}

/// Taking one more element of a prefix adds that element to its sum.
pub proof fn lemma_bytes_sum_take_next(s: Seq<u8>, k: int)
    requires
        0 <= k < s.len(),
    ensures
        bytes_sum(s.take(k + 1)) == bytes_sum(s.take(k)) + s[k],
{
    assert(s.take(k + 1).drop_last() =~= s.take(k));
}

/// The sum of a concatenation is the sum of its parts.
pub proof fn lemma_bytes_sum_concat(a: Seq<u8>, b: Seq<u8>)
    ensures
        bytes_sum(a + b) == bytes_sum(a) + bytes_sum(b),
    decreases b.len(),
{
    if b.len() == 0 {
        assert(a + b =~= a);
    } else {
        assert((a + b).drop_last() =~= a + b.drop_last());
        lemma_bytes_sum_concat(a, b.drop_last());
    }
}

/// The sum of a sequence is never negative.
pub proof fn lemma_bytes_sum_nonneg(s: Seq<u8>)
    ensures
        bytes_sum(s) >= 0,
    decreases s.len(),
{
    if s.len() > 0 {
        lemma_bytes_sum_nonneg(s.drop_last());
    }
}

/// Adding `x` with wraparound to the wrapped value of `s` gives the wrapped
/// value of `s + x`.
pub proof fn lemma_wrapping_step(acc: u32, s: int, x: u32)
    requires
        s >= 0,
        acc == wrap(s),
    ensures
        acc.wrapping_add(x) == wrap(s + x),
{
    let m = word_modulus();
    vstd::arithmetic::div_mod::lemma_add_mod_noop(s, x as int, m);
    vstd::arithmetic::div_mod::lemma_small_mod(x as nat, m as nat);
    if acc + x < m {
        vstd::arithmetic::div_mod::lemma_small_mod((acc + x) as nat, m as nat);
    } else {
        vstd::arithmetic::div_mod::lemma_mod_add_multiples_vanish((acc + x - m) as int, m);
        vstd::arithmetic::div_mod::lemma_small_mod((acc + x - m) as nat, m as nat);
    }
}

} // verus!
