//! Little-endian integers.

use vstd::prelude::*;

verus! {

/// 256 to the power `n`.
pub open spec fn pow256(n: nat) -> nat
    decreases n,
{
    if n == 0 {
        1
    } else {
        256 * pow256((n - 1) as nat)
    }
}

/// The lowest `n` bytes of `x`, lowest first.
pub open spec fn le_bytes(x: nat, n: nat) -> Seq<u8>
    decreases n,
{
    if n == 0 {
        Seq::empty()
    } else {
        seq![(x % 256) as u8] + le_bytes(x / 256, (n - 1) as nat)
    }
}

/// The integer whose bytes, lowest first, are `bytes`.
pub open spec fn le_value(bytes: Seq<u8>) -> nat
    decreases bytes.len(),
{
    if bytes.len() == 0 {
        0
    } else {
        bytes[0] as nat + 256 * le_value(bytes.skip(1))
    }
}

pub proof fn lemma_le_bytes_len(x: nat, n: nat)
    ensures
        le_bytes(x, n).len() == n,
    decreases n,
{
    if n > 0 {
        lemma_le_bytes_len(x / 256, (n - 1) as nat);
    }
}

pub proof fn lemma_le_value_bound(bytes: Seq<u8>)
    ensures
        le_value(bytes) < pow256(bytes.len()),
    decreases bytes.len(),
{
    if bytes.len() > 0 {
        lemma_le_value_bound(bytes.skip(1));
    }
}

/// Reading gives back what was written, of an integer that fits.
pub proof fn law_write_then_read(x: nat, n: nat)
    requires
        x < pow256(n),
    ensures
        le_value(le_bytes(x, n)) == x,
    decreases n,
{
    if n > 0 {
        let rest = le_bytes(x / 256, (n - 1) as nat);
        law_write_then_read(x / 256, (n - 1) as nat);
        assert(le_bytes(x, n).skip(1) =~= rest);
    }
}

/// Writing gives back what was read.
pub proof fn law_read_then_write(bytes: Seq<u8>)
    ensures
        le_bytes(le_value(bytes), bytes.len()) == bytes,
    decreases bytes.len(),
{
    if bytes.len() > 0 {
        law_read_then_write(bytes.skip(1));
        assert(le_bytes(le_value(bytes), bytes.len()) =~= bytes);
    } else {
        assert(le_bytes(le_value(bytes), bytes.len()) =~= bytes);
    }
}

pub proof fn lemma_pow256()
    ensures
        pow256(0) == 1,
        pow256(1) == 0x100,
        pow256(2) == 0x1_0000,
        pow256(4) == 0x1_0000_0000,
        pow256(8) == 0x1_0000_0000_0000_0000,
{
    reveal_with_fuel(pow256, 9);
}

/// Appends the lowest `n` bytes of `x`.
pub fn push_le(out: &mut Vec<u8>, x: u64, n: usize)
    requires
        n <= 8,
    ensures
        final(out)@ == old(out)@ + le_bytes(x as nat, n as nat),
{
    let mut rest: u64 = x;
    let mut i: usize = 0;
    assert(out@ + le_bytes(rest as nat, n as nat) =~= old(out)@ + le_bytes(x as nat, n as nat));
    while i < n
        invariant
            i <= n,
            out@ + le_bytes(rest as nat, (n - i) as nat) == old(out)@ + le_bytes(
                x as nat,
                n as nat,
            ),
        decreases n - i,
    {
        let ghost before = out@;
        let ghost left = le_bytes(rest as nat, (n - i) as nat);
        out.push((rest % 256) as u8);
        rest /= 256;
        i += 1;
        assert(out@ + le_bytes(rest as nat, (n - i) as nat) =~= before + left);
    }
    assert(out@ + le_bytes(rest as nat, 0) =~= out@);
}

/// The integer in the `n` bytes from `at`.
pub fn read_le(bytes: &[u8], at: usize, n: usize) -> (x: u64)
    requires
        n <= 8,
        at + n <= bytes@.len(),
    ensures
        x == le_value(bytes@.subrange(at as int, at + n)),
        x < pow256(n as nat),
{
    let ghost all = bytes@.subrange(at as int, at + n);
    let len: usize = bytes.len();
    let mut x: u64 = 0;
    let mut i: usize = n;
    proof {
        lemma_le_value_bound(all);
        assert(all.skip(n as int) =~= Seq::empty());
    }
    while i > 0
        invariant
            n <= 8,
            at + n <= len,
            bytes@.len() == len,
            i <= n,
            all == bytes@.subrange(at as int, at + n),
            x == le_value(all.skip(i as int)),
        decreases i,
    {
        i -= 1;
        proof {
            let tail = all.skip(i as int);
            assert(tail.skip(1) =~= all.skip(i + 1));
            lemma_le_value_bound(tail);
            lemma_pow256();
            reveal_with_fuel(pow256, 9);
            assert(tail.len() == n - i);
            assert(pow256(tail.len()) <= pow256(8));
        }
        x = bytes[at + i] as u64 + 256 * x;
    }
    assert(all.skip(0) =~= all);
    x
}

/// The lowest byte comes first: the first byte is the remainder by 256, and behind it stands the
/// quotient; reading puts them together again.
pub proof fn law_lowest_byte_comes_first(x: nat, n: nat, first: u8, rest: Seq<u8>)
    requires
        n > 0,
    ensures
        le_bytes(x, n).len() == n,
        le_bytes(x, n)[0] == x % 256,
        le_bytes(x, n).skip(1) == le_bytes(x / 256, (n - 1) as nat),
        le_value(seq![first] + rest) == first + 256 * le_value(rest),
        le_value(Seq::<u8>::empty()) == 0,
{
    lemma_le_bytes_len(x, n);
    assert(le_bytes(x, n).skip(1) =~= le_bytes(x / 256, (n - 1) as nat));
    assert((seq![first] + rest).skip(1) =~= rest);
}

} // verus!
