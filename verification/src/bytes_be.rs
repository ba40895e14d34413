//! Unsigned integers in network byte order.

use vstd::arithmetic::div_mod::lemma_div_denominator;
use vstd::arithmetic::power::{lemma_pow0, lemma_pow_positive, pow};
use vstd::prelude::*;

verus! {

/// The number that `s` spells, most significant byte first.
pub open spec fn be_value(s: Seq<u8>) -> nat
    decreases s.len(),
{
    if s.len() == 0 {
        0
    } else {
        be_value(s.drop_last()) * 256 + s.last() as nat
    }
}

/// The `n` low-order bytes of `v`, most significant byte first.
pub open spec fn be_bytes(v: nat, n: nat) -> Seq<u8>
    decreases n,
{
    if n == 0 {
        Seq::empty()
    } else {
        be_bytes(v / 256, (n - 1) as nat).push((v % 256) as u8)
    }
}

/// The number of values that `n` bytes can spell.
pub open spec fn be_limit(n: nat) -> nat
    decreases n,
{
    if n == 0 {
        1
    } else {
        be_limit((n - 1) as nat) * 256
    }
}

/// `be_bytes` writes as many bytes as it is asked for.
pub proof fn lemma_be_bytes_len(v: nat, n: nat)
    ensures
        be_bytes(v, n).len() == n,
    decreases n,
{
    if n > 0 {
        lemma_be_bytes_len(v / 256, (n - 1) as nat);
    }
}

/// A number read from `s` is below the limit of its length.
pub proof fn lemma_be_value_bound(s: Seq<u8>)
    ensures
        be_value(s) < be_limit(s.len()),
    decreases s.len(),
{
    if s.len() > 0 {
        lemma_be_value_bound(s.drop_last());
    }
}

/// The sizes that HTTP/2 uses.
pub proof fn lemma_be_limits()
    ensures
        be_limit(3) == 0x100_0000,
        be_limit(4) == 0x1_0000_0000,
        be_limit(8) == 0x1_0000_0000_0000_0000,
{
    reveal_with_fuel(be_limit, 9);
}

/// Reading the bytes of a number gives the number back, if it fits.
pub proof fn law_value_of_bytes(v: nat, n: nat)
    requires
        v < be_limit(n),
    ensures
        be_value(be_bytes(v, n)) == v,
    decreases n,
{
    if n > 0 {
        law_value_of_bytes(v / 256, (n - 1) as nat);
        assert(be_bytes(v, n).drop_last() =~= be_bytes(v / 256, (n - 1) as nat));
    }
}

/// Writing the number that some bytes spell gives the bytes back.
pub proof fn law_bytes_of_value(s: Seq<u8>)
    ensures
        be_bytes(be_value(s), s.len()) == s,
    decreases s.len(),
{
    if s.len() > 0 {
        law_bytes_of_value(s.drop_last());
        assert(s.drop_last().push(s.last()) =~= s);
    }
}

/// The byte at a position counts by its weight: the last byte stands for the ones, each byte
/// before it for 256 times as much.
pub proof fn law_bytes_count_by_weight(v: nat, n: nat, i: int)
    requires
        0 <= i < n,
    ensures
        be_bytes(v, n).len() == n,
        be_bytes(v, n)[i] as int == (v as int / pow(256, (n - 1 - i) as nat)) % 256,
    decreases n,
{
    lemma_be_bytes_len(v, n);
    lemma_be_bytes_len(v / 256, (n - 1) as nat);
    if i == n - 1 {
        lemma_pow0(256);
    } else {
        law_bytes_count_by_weight(v / 256, (n - 1) as nat, i);
        let e = (n - 2 - i) as nat;
        lemma_pow_positive(256, e);
        lemma_div_denominator(v as int, 256, pow(256, e));
        reveal(pow);
        assert(pow(256, (n - 1 - i) as nat) == 256 * pow(256, e));
    }
}

/// A number that is read from `n` bytes is below the `n`th power of 256.
pub proof fn law_value_is_bounded(s: Seq<u8>)
    ensures
        be_value(s) < pow(256, s.len()),
    decreases s.len(),
{
    reveal(pow);
    if s.len() > 0 {
        law_value_is_bounded(s.drop_last());
    }
}

/// Appends the `n` low-order bytes of `v` to `out`.
pub fn put_be(out: &mut Vec<u8>, v: u64, n: usize)
    ensures
        final(out)@ == old(out)@ + be_bytes(v as nat, n as nat),
    decreases n,
{
    if n > 0 {
        put_be(out, v / 256, n - 1);
        out.push((v % 256) as u8);
        assert(out@ =~= old(out)@ + be_bytes(v as nat, n as nat));
    } else {
        assert(out@ =~= old(out)@ + be_bytes(v as nat, n as nat));
    }
}

/// Reads the `n` bytes of `s` that start at `from`.
pub fn get_be(s: &Vec<u8>, from: usize, n: usize) -> (v: u64)
    requires
        n <= 8,
        from + n <= s.len(),
    ensures
        v == be_value(s@.subrange(from as int, from + n)),
    decreases n,
{
    let ghost part = s@.subrange(from as int, from + n);
    if n == 0 {
        0
    } else {
        let high: u64 = get_be(s, from, n - 1);
        proof {
            assert(part.drop_last() =~= s@.subrange(from as int, from + n - 1));
            lemma_be_value_bound(part.drop_last());
            reveal_with_fuel(be_limit, 9);
        }
        high * 256 + s[from + (n - 1)] as u64
    }
}

} // verus!
