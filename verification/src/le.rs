//! Little-endian integers as byte sequences.
use vstd::prelude::*;

verus! {

/// The `width` low bytes of `n`, least significant first.
pub open spec fn bytes(n: nat, width: nat) -> Seq<u8>
    decreases width,
{
    if width == 0 {
        Seq::empty()
    } else {
        seq![(n % 256) as u8] + bytes(n / 256, (width - 1) as nat)
    }
}

/// The number whose little-endian digits in base 256 are `s`.
pub open spec fn value(s: Seq<u8>) -> nat
    decreases s.len(),
{
    if s.len() == 0 {
        0
    } else {
        s[0] as nat + 256 * value(s.drop_first())
    }
}

/// How many numbers fit in `width` bytes.
pub open spec fn capacity(width: nat) -> nat
    decreases width,
{
    if width == 0 {
        1
    } else {
        256 * capacity((width - 1) as nat)
    }
}

/// An encoding has exactly the requested width.
pub proof fn lemma_bytes_len(n: nat, width: nat)
    ensures
        bytes(n, width).len() == width,
    decreases width,
{
    if width > 0 {
        lemma_bytes_len(n / 256, (width - 1) as nat);
    }
}

/// A decoded number fits in the bytes it was read from.
pub proof fn lemma_value_bound(s: Seq<u8>)
    ensures
        value(s) < capacity(s.len()),
    decreases s.len(),
{
    if s.len() > 0 {
        lemma_value_bound(s.drop_first());
    }
}

/// Decoding an encoding gives the number back, when the number fits.
pub proof fn lemma_value_of_bytes(n: nat, width: nat)
    requires
        n < capacity(width),
    ensures
        value(bytes(n, width)) == n,
    decreases width,
{
    if width > 0 {
        let rest = bytes(n / 256, (width - 1) as nat);
        lemma_value_of_bytes(n / 256, (width - 1) as nat);
        assert(bytes(n, width).drop_first() =~= rest);
    }
}

/// Encoding a decoded number gives the bytes back.
pub proof fn lemma_bytes_of_value(s: Seq<u8>)
    ensures
        bytes(value(s), s.len()) == s,
    decreases s.len(),
{
    if s.len() > 0 {
        let rest = s.drop_first();
        lemma_bytes_of_value(rest);
        assert(value(s) % 256 == s[0] as nat);
        assert(value(s) / 256 == value(rest));
        assert(bytes(value(s), s.len()) =~= s);
    } else {
        assert(s =~= Seq::empty());
    }
}

/// The ranges of the integer widths used on the wire.
pub proof fn lemma_capacities()
    ensures
        capacity(1) == 0x100,
        capacity(2) == 0x1_0000,
        capacity(4) == 0x1_0000_0000,
        capacity(8) == 0x1_0000_0000_0000_0000,
{
    reveal_with_fuel(capacity, 9);
}

/// Appends the low `width` bytes of `n`, least significant first.
pub fn push(out: &mut Vec<u8>, n: u64, width: usize)
    ensures
        final(out)@ == old(out)@ + bytes(n as nat, width as nat),
{
    let mut rest: u64 = n;
    let mut left: usize = width;
    while left > 0
        invariant
            left <= width,
            out@ + bytes(rest as nat, left as nat) == old(out)@ + bytes(n as nat, width as nat),
        decreases left,
    {
        let ghost before = out@;
        out.push((rest % 256) as u8);
        proof {
            assert(before + bytes(rest as nat, left as nat) =~= out@ + bytes(
                (rest / 256) as nat,
                (left - 1) as nat,
            ));
        }
        rest = rest / 256;
        left = left - 1;
    }
    assert(out@ + bytes(rest as nat, 0) =~= out@);
}

/// Reads the `width`-byte little-endian number that starts at `at`.
pub fn read(source: &[u8], at: usize, width: usize) -> (n: u64)
    requires
        at + width <= source@.len(),
        width <= 8,
    ensures
        n as nat == value(source@.subrange(at as int, at + width)),
        n < capacity(width as nat),
{
    let total: usize = source.len();
    let mut n: u64 = 0;
    let mut left: usize = width;
    assert(value(source@.subrange(at + width, at + width)) == 0);
    while left > 0
        invariant
            left <= width <= 8,
            at + width <= total == source@.len(),
            n as nat == value(source@.subrange(at + left, at + width)),
        decreases left,
    {
        proof {
            let tail = source@.subrange(at + left, at + width);
            lemma_value_bound(tail);
            reveal_with_fuel(capacity, 9);
            assert(source@.subrange(at + left - 1, at + width).drop_first() =~= tail);
        }
        left = left - 1;
        n = n * 256 + source[at + left] as u64;
    }
    proof {
        lemma_value_bound(source@.subrange(at as int, at + width));
    }
    n
}

} // verus!
