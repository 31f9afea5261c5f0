//! Big-endian (network order) unsigned integers read from bytes.

use vstd::prelude::*;

verus! {

/// The unsigned integer whose big-endian encoding is `s`, most significant byte first.
pub open spec fn be_value(s: Seq<u8>) -> nat
    decreases s.len(),
{
    if s.len() == 0 {
        0
    } else {
        be_value(s.drop_last()) * 256 + s.last() as nat
    }
}

/// `256` to the power `n`: one more than the largest value that `n` bytes hold.
pub open spec fn pow256(n: nat) -> nat
    decreases n,
{
    if n == 0 {
        1
    } else {
        256 * pow256((n - 1) as nat)
    }
}

/// Raising 256 to a larger power gives a larger number.
pub proof fn lemma_pow256_monotonic(m: nat, n: nat)
    requires
        m <= n,
    ensures
        pow256(m) <= pow256(n),
        pow256(m) > 0,
    decreases n,
{
    if n > m {
        lemma_pow256_monotonic(m, (n - 1) as nat);
    } else if n > 0 {
        lemma_pow256_monotonic(0, (n - 1) as nat);
    }
}

/// A value read from `n` bytes is below `256^n`.
pub proof fn lemma_be_value_bound(s: Seq<u8>)
    ensures
        be_value(s) < pow256(s.len()),
    decreases s.len(),
{
    if s.len() > 0 {
        let r = s.drop_last();
        lemma_be_value_bound(r);
        let a = be_value(r);
        let p = pow256(r.len());
        let b = s.last() as nat;
        assert(a * 256 + b < 256 * p) by (nonlinear_arith)
            requires
                a < p,
                b < 256,
        ;
    }
}

/// The values of two-byte and four-byte fields, spelled out.
pub proof fn lemma_be_value_small(s: Seq<u8>)
    ensures
        s.len() == 1 ==> be_value(s) == s[0],
        s.len() == 2 ==> be_value(s) == s[0] * 256 + s[1],
        s.len() == 4 ==> be_value(s) == ((s[0] * 256 + s[1]) * 256 + s[2]) * 256 + s[3],
{
    reveal_with_fuel(be_value, 5);
    if s.len() == 2 {
        assert(s.drop_last().drop_last() =~= Seq::<u8>::empty());
        assert(s.drop_last() =~= seq![s[0]]);
    }
    if s.len() == 1 {
        assert(s.drop_last() =~= Seq::<u8>::empty());
    }
    if s.len() == 4 {
        let s3 = s.drop_last();
        let s2 = s3.drop_last();
        let s1 = s2.drop_last();
        assert(s1.drop_last() =~= Seq::<u8>::empty());
        assert(s1 =~= seq![s[0]]);
        assert(s2 =~= seq![s[0], s[1]]);
        assert(s3 =~= seq![s[0], s[1], s[2]]);
    }
}

/// Sixteen bytes hold exactly the values of a `u128`.
pub proof fn lemma_pow256_sixteen()
    ensures
        pow256(16) == 0x1_0000_0000_0000_0000_0000_0000_0000_0000,
{
    reveal_with_fuel(pow256, 17);
}

/// Reads the big-endian unsigned integer that the (at most sixteen) bytes of `s` encode.
pub fn be_uint(s: &[u8]) -> (v: u128)
    requires
        s@.len() <= 16,
    ensures
        v == be_value(s@),
{
    let mut acc: u128 = 0;
    let mut k: usize = 0;
    proof {
        assert(s@.take(0) =~= Seq::<u8>::empty());
        lemma_pow256_sixteen();
    }
    while k < s.len()
        invariant
            k <= s@.len() <= 16,
            acc == be_value(s@.take(k as int)),
            pow256(16) == 0x1_0000_0000_0000_0000_0000_0000_0000_0000,
        decreases s@.len() - k,
    {
        proof {
            lemma_be_value_bound(s@.take(k as int + 1));
            lemma_pow256_monotonic((k + 1) as nat, 16);
            assert(s@.take(k as int + 1).drop_last() =~= s@.take(k as int));
        }
        acc = acc * 256 + s[k] as u128;
        k = k + 1;
    }
    proof {
        assert(s@.take(k as int) =~= s@);
    }
    acc
}

} // verus!
