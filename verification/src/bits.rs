//! Mathematical model of bit strings read most significant bit first.
use vstd::arithmetic::div_mod::{
    lemma_div_denominator, lemma_fundamental_div_mod, lemma_fundamental_div_mod_converse,
    lemma_mod_breakdown,
};
use vstd::arithmetic::power2::{lemma2_to64, lemma_pow2_pos, lemma_pow2_unfold, pow2};
use vstd::prelude::*;

verus! {

/// The lowest `n` bits of `x`, most significant bit first.
pub open spec fn nat_bits(x: nat, n: nat) -> Seq<bool>
    decreases n,
{
    if n == 0 {
        Seq::empty()
    } else {
        nat_bits(x / 2, (n - 1) as nat).push(x % 2 == 1)
    }
}

/// The unsigned value of a bit string read most significant bit first.
pub open spec fn bits_value(s: Seq<bool>) -> nat
    decreases s.len(),
{
    if s.len() == 0 {
        0
    } else {
        bits_value(s.drop_last()) * 2 + if s.last() {
            1nat
        } else {
            0nat
        }
    }
}

/// The eight bits of a byte, most significant bit first.
pub open spec fn byte_bits(b: u8) -> Seq<bool> {
    nat_bits(b as nat, 8)
}

/// The bits of a byte string: each byte contributes its eight bits, most significant first.
pub open spec fn bytes_bits(s: Seq<u8>) -> Seq<bool>
    decreases s.len(),
{
    if s.len() == 0 {
        Seq::empty()
    } else {
        bytes_bits(s.drop_last()) + byte_bits(s.last())
    }
}

pub proof fn lemma_nat_bits_len(x: nat, n: nat)
    ensures
        #[trigger] nat_bits(x, n).len() == n,
    decreases n,
{
    if n > 0 {
        lemma_nat_bits_len(x / 2, (n - 1) as nat);
    }
}

pub proof fn lemma_bytes_bits_len(s: Seq<u8>)
    ensures
        #[trigger] bytes_bits(s).len() == 8 * s.len(),
    decreases s.len(),
{
    if s.len() > 0 {
        lemma_bytes_bits_len(s.drop_last());
        lemma_nat_bits_len(s.last() as nat, 8);
    }
}

/// Reading back the bits of a value that fits in `n` bits gives the value.
pub proof fn lemma_bits_value_nat_bits(x: nat, n: nat)
    requires
        x < pow2(n),
    ensures
        bits_value(nat_bits(x, n)) == x,
    decreases n,
{
    if n == 0 {
        lemma2_to64();
    } else {
        lemma_pow2_unfold(n);
        let s = nat_bits(x, n);
        assert(s.drop_last() =~= nat_bits(x / 2, (n - 1) as nat));
        lemma_bits_value_nat_bits(x / 2, (n - 1) as nat);
    }
}

/// The value of a bit string is below two to the power of its length.
pub proof fn lemma_bits_value_bound(s: Seq<bool>)
    ensures
        bits_value(s) < pow2(s.len()),
    decreases s.len(),
{
    if s.len() == 0 {
        lemma2_to64();
    } else {
        lemma_bits_value_bound(s.drop_last());
        lemma_pow2_unfold(s.len());
    }
}

/// The bits of a value split into the bits of its high part and the bits of its low part.
pub proof fn lemma_nat_bits_split(x: nat, a: nat, k: nat)
    ensures
        pow2(k) > 0,
        nat_bits(x, a + k) =~= nat_bits(x / pow2(k), a) + nat_bits(x % pow2(k), k),
    decreases k,
{
    lemma_pow2_pos(k);
    if k == 0 {
        lemma2_to64();
        assert(nat_bits(x % 1, 0) =~= Seq::<bool>::empty());
        assert(x / 1 == x);
    } else {
        let k1 = (k - 1) as nat;
        lemma_pow2_unfold(k);
        lemma_pow2_pos(k1);
        lemma_nat_bits_split(x / 2, a, k1);
        // x / 2 / 2^(k-1) == x / 2^k
        lemma_div_denominator(x as int, 2, pow2(k1) as int);
        // x % 2^k == 2 * ((x / 2) % 2^(k-1)) + x % 2
        lemma_mod_breakdown(x as int, 2, pow2(k1) as int);
        let m = x % pow2(k);
        let h = (x / 2) % pow2(k1);
        assert(m == 2 * h + x % 2);
        lemma_fundamental_div_mod_converse(m as int, 2, h as int, (x % 2) as int);
        assert(m / 2 == h);
        assert(m % 2 == x % 2);
        assert(nat_bits(m, k) =~= nat_bits(h, k1).push(x % 2 == 1));
        assert(nat_bits(x, a + k) =~= nat_bits(x / 2, a + k1).push(x % 2 == 1));
    }
}

/// Appending a byte below a value appends the byte's bits to the value's bits.
pub proof fn lemma_nat_bits_push_byte(x: nat, n: nat, b: u8)
    ensures
        nat_bits(x * 256 + b as nat, n + 8) =~= nat_bits(x, n) + byte_bits(b),
{
    let y = x * 256 + b as nat;
    lemma_nat_bits_split(y, n, 8);
    lemma2_to64();
    lemma_fundamental_div_mod_converse(y as int, 256, x as int, b as int);
}

/// The bits of a concatenation of byte strings are the concatenation of their bits.
pub proof fn lemma_bytes_bits_concat(s1: Seq<u8>, s2: Seq<u8>)
    ensures
        bytes_bits(s1 + s2) =~= bytes_bits(s1) + bytes_bits(s2),
    decreases s2.len(),
{
    if s2.len() == 0 {
        assert(s1 + s2 =~= s1);
        assert(bytes_bits(s2) =~= Seq::<bool>::empty());
    } else {
        lemma_bytes_bits_concat(s1, s2.drop_last());
        assert((s1 + s2).drop_last() =~= s1 + s2.drop_last());
        assert((s1 + s2).last() == s2.last());
    }
}

/// The bits of a byte string starting with `b` start with the bits of `b`.
pub proof fn lemma_bytes_bits_first(s: Seq<u8>)
    requires
        s.len() > 0,
    ensures
        bytes_bits(s) =~= byte_bits(s[0]) + bytes_bits(s.drop_first()),
{
    assert(s =~= seq![s[0]] + s.drop_first());
    lemma_bytes_bits_concat(seq![s[0]], s.drop_first());
    assert(seq![s[0]].drop_last() =~= Seq::<u8>::empty());
    assert(bytes_bits(seq![s[0]]) =~= bytes_bits(Seq::<u8>::empty()) + byte_bits(s[0]));
}

/// Dropping whole bytes from a byte string drops their bits.
pub proof fn lemma_bytes_bits_skip(s: Seq<u8>, k: int)
    requires
        0 <= k <= s.len(),
    ensures
        bytes_bits(s.skip(k)) =~= bytes_bits(s).skip(8 * k),
        bytes_bits(s.take(k)) =~= bytes_bits(s).take(8 * k),
{
    assert(s =~= s.take(k) + s.skip(k));
    lemma_bytes_bits_concat(s.take(k), s.skip(k));
    lemma_bytes_bits_len(s.take(k));
}

/// The value of a concatenation of bit strings.
pub proof fn lemma_bits_value_concat(s1: Seq<bool>, s2: Seq<bool>)
    ensures
        bits_value(s1 + s2) == bits_value(s1) * pow2(s2.len()) + bits_value(s2),
    decreases s2.len(),
{
    if s2.len() == 0 {
        assert(s1 + s2 =~= s1);
        lemma2_to64();
    } else {
        let t = s2.drop_last();
        lemma_bits_value_concat(s1, t);
        assert((s1 + s2).drop_last() =~= s1 + t);
        lemma_pow2_unfold(s2.len());
        let v1 = bits_value(s1);
        let p = pow2(t.len());
        assert((v1 * p + bits_value(t)) * 2 == v1 * (2 * p) + bits_value(t) * 2) by (nonlinear_arith);
    }
}

/// The value of the bits of a byte is the byte.
pub proof fn lemma_byte_bits_value(b: u8)
    ensures
        bits_value(byte_bits(b)) == b,
        byte_bits(b).len() == 8,
{
    lemma2_to64();
    lemma_bits_value_nat_bits(b as nat, 8);
    lemma_nat_bits_len(b as nat, 8);
}

/// The bits of the value of a bit string, as many as it has, are the string.
pub proof fn lemma_nat_bits_of_value(s: Seq<bool>)
    ensures
        nat_bits(bits_value(s), s.len()) == s,
    decreases s.len(),
{
    if s.len() > 0 {
        let t = s.drop_last();
        let b: nat = if s.last() {
            1
        } else {
            0
        };
        lemma_nat_bits_of_value(t);
        assert((bits_value(t) * 2 + b) / 2 == bits_value(t));
        assert((bits_value(t) * 2 + b) % 2 == b);
        assert(t.push(s.last()) =~= s);
    }
}

/// Byte strings with the same bits are the same.
pub proof fn lemma_bytes_bits_injective(a: Seq<u8>, b: Seq<u8>)
    requires
        bytes_bits(a) == bytes_bits(b),
    ensures
        a == b,
    decreases a.len(),
{
    lemma_bytes_bits_len(a);
    lemma_bytes_bits_len(b);
    if a.len() > 0 {
        let n = a.len();
        assert(a =~= a.drop_last() + seq![a.last()]);
        assert(b =~= b.drop_last() + seq![b.last()]);
        lemma_bytes_bits_len(a.drop_last());
        lemma_bytes_bits_len(b.drop_last());
        lemma_byte_bits_value(a.last());
        lemma_byte_bits_value(b.last());
        assert(bytes_bits(a).skip(8 * (n - 1)) =~= byte_bits(a.last()));
        assert(bytes_bits(b).skip(8 * (n - 1)) =~= byte_bits(b.last()));
        assert(bytes_bits(a).take(8 * (n - 1)) =~= bytes_bits(a.drop_last()));
        assert(bytes_bits(b).take(8 * (n - 1)) =~= bytes_bits(b.drop_last()));
        lemma_bytes_bits_injective(a.drop_last(), b.drop_last());
    } else {
        assert(a =~= b);
    }
}

} // verus!
