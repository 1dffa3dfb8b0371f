use vstd::prelude::*;

verus! {

/// The value of a byte string read big-endian: the first byte is the most
/// significant.
pub open spec fn be_to_nat(s: Seq<u8>) -> nat
    decreases s.len(),
{
    if s.len() == 0 {
        0
    } else {
        be_to_nat(s.drop_last()) * 256 + (s.last() as nat)
    }
}

/// 256 raised to `n`: the number of distinct `n`-byte strings.
pub open spec fn pow256(n: nat) -> nat
    decreases n,
{
    if n == 0 {
        1
    } else {
        256 * pow256((n - 1) as nat)
    }
}

/// The `n`-byte big-endian representation of `value`, truncated to its low
/// `n` bytes.
pub open spec fn be_bytes_of(value: nat, n: nat) -> Seq<u8>
    decreases n,
{
    if n == 0 {
        Seq::empty()
    } else {
        be_bytes_of(value / 256, (n - 1) as nat).push((value % 256) as u8)
    }
}

pub proof fn lemma_pow256_le(a: nat, b: nat)
    requires
        a <= b,
    ensures
        pow256(a) <= pow256(b),
    decreases b,
{
    if a < b {
        lemma_pow256_le(a, (b - 1) as nat);
    }
}

/// An `n`-byte string never reaches 256 to the `n`.
pub proof fn lemma_be_to_nat_bound(s: Seq<u8>)
    ensures
        be_to_nat(s) < pow256(s.len()),
    decreases s.len(),
{
    if s.len() > 0 {
        lemma_be_to_nat_bound(s.drop_last());
    }
}

/// A value below 256 to the `n` survives the round trip through its
/// `n`-byte big-endian representation.
pub proof fn lemma_be_bytes_of_value(value: nat, n: nat)
    requires
        value < pow256(n),
    ensures
        be_bytes_of(value, n).len() == n,
        be_to_nat(be_bytes_of(value, n)) == value,
    decreases n,
{
    if n == 0 {
    } else {
        assert(value / 256 < pow256((n - 1) as nat)) by (nonlinear_arith)
            requires
                value < pow256(n),
                pow256(n) == 256 * pow256((n - 1) as nat),
        ;
        lemma_be_bytes_of_value(value / 256, (n - 1) as nat);
        let s = be_bytes_of(value / 256, (n - 1) as nat);
        assert(s.push((value % 256) as u8).drop_last() == s);
        vstd::arithmetic::div_mod::lemma_fundamental_div_mod(value as int, 256);
    }
}

/// Reads the bytes of `b` from `start` to the end as one big-endian
/// integer.
pub fn u64_from_be(b: &Vec<u8>, start: usize) -> (r: u64)
    requires
        start <= b@.len(),
        b@.len() - start <= 8,
    ensures
        r as nat == be_to_nat(b@.subrange(start as int, b@.len() as int)),
{
    let mut r: u64 = 0;
    let mut i: usize = start;
    while i < b.len()
        invariant
            start <= i <= b@.len(),
            b@.len() - start <= 8,
            r as nat == be_to_nat(b@.subrange(start as int, i as int)),
            (r as nat) < pow256((i - start) as nat),
        decreases b@.len() - i,
    {
        proof {
            lemma_pow256_le((i - start + 1) as nat, 8);
            assert(pow256(8) == 0x1_0000_0000_0000_0000) by {
                reveal_with_fuel(pow256, 9);
            }
        }
        r = r * 256 + (b[i] as u64);
        i = i + 1;
        proof {
            let sub = b@.subrange(start as int, i as int);
            assert(sub.drop_last() == b@.subrange(start as int, i - 1));
            assert(sub.last() == b@[i - 1]);
        }
    }
    r
}

} // verus!
