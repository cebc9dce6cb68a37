//! Big-endian 16-bit and 64-bit integers as they appear in the extended
//! payload-length fields of a WebSocket frame header.

use vstd::prelude::*;

verus! {

/// The value of two bytes read in network (big-endian) order.
pub open spec fn be16_val(b0: u8, b1: u8) -> nat {
    (b0 as nat) * 0x100 + (b1 as nat)
}

/// The two bytes of `n` in network (big-endian) order.
pub open spec fn be16_bytes(n: nat) -> Seq<u8> {
    seq![((n / 0x100) % 0x100) as u8, (n % 0x100) as u8]
}

/// The value of eight bytes read in network (big-endian) order.
pub open spec fn be64_val(s: Seq<u8>) -> nat
    recommends
        s.len() == 8,
{
    (s[0] as nat) * 0x100000000000000 + (s[1] as nat) * 0x1000000000000 + (s[2] as nat)
        * 0x10000000000 + (s[3] as nat) * 0x100000000 + (s[4] as nat) * 0x1000000 + (s[5] as nat)
        * 0x10000 + (s[6] as nat) * 0x100 + (s[7] as nat)
}

/// The eight bytes of `n` in network (big-endian) order.
pub open spec fn be64_bytes(n: nat) -> Seq<u8> {
    seq![
        ((n / 0x100000000000000) % 0x100) as u8,
        ((n / 0x1000000000000) % 0x100) as u8,
        ((n / 0x10000000000) % 0x100) as u8,
        ((n / 0x100000000) % 0x100) as u8,
        ((n / 0x1000000) % 0x100) as u8,
        ((n / 0x10000) % 0x100) as u8,
        ((n / 0x100) % 0x100) as u8,
        (n % 0x100) as u8,
    ]
}

/// Reading the two bytes of a 16-bit value back gives the value.
pub proof fn lemma_be16_round_trip(n: nat)
    requires
        n <= 0xFFFF,
    ensures
        be16_bytes(n).len() == 2,
        be16_val(be16_bytes(n)[0], be16_bytes(n)[1]) == n,
{
    let m = n as u16;
    assert(((m / 0x100) % 0x100) * 0x100 + (m % 0x100) == m) by (bit_vector);
    assert(be16_bytes(n)[0] == ((m / 0x100) % 0x100) as u8);
    assert(be16_bytes(n)[1] == (m % 0x100) as u8);
}

/// Reading the eight bytes of a 64-bit value back gives the value.
pub proof fn lemma_be64_round_trip(n: nat)
    requires
        n <= 0xFFFFFFFFFFFFFFFF,
    ensures
        be64_bytes(n).len() == 8,
        be64_val(be64_bytes(n)) == n,
{
    let m = n as u64;
    assert(((m / 0x100000000000000) % 0x100) * 0x100000000000000 + ((m / 0x1000000000000)
        % 0x100) * 0x1000000000000 + ((m / 0x10000000000) % 0x100) * 0x10000000000 + ((m
        / 0x100000000) % 0x100) * 0x100000000 + ((m / 0x1000000) % 0x100) * 0x1000000 + ((m
        / 0x10000) % 0x100) * 0x10000 + ((m / 0x100) % 0x100) * 0x100 + (m % 0x100) == m)
        by (bit_vector);
}

/// A big-endian value whose top byte keeps its sign bit clear stays
/// below 2^63.
pub proof fn lemma_be64_top_bit(s: Seq<u8>)
    requires
        s.len() == 8,
        s[0] < 0x80,
    ensures
        be64_val(s) < 0x8000000000000000,
{
}

/// Reads a 16-bit big-endian value from two bytes.
pub fn read_be16(b0: u8, b1: u8) -> (n: u16)
    ensures
        n as nat == be16_val(b0, b1),
{
    (b0 as u16) * 0x100 + (b1 as u16)
}

/// Writes a 16-bit value as two big-endian bytes.
pub fn write_be16(n: u16) -> (r: (u8, u8))
    ensures
        seq![r.0, r.1] == be16_bytes(n as nat),
{
    let r = (((n / 0x100) % 0x100) as u8, (n % 0x100) as u8);
    proof {
        assert(be16_bytes(n as nat) == seq![
            (((n as nat) / 0x100) % 0x100) as u8,
            ((n as nat) % 0x100) as u8,
        ]);
        assert(seq![r.0, r.1] =~= be16_bytes(n as nat));
    }
    r
}

/// Reads a 64-bit big-endian value from an eight-byte run of `s`
/// starting at `at`.
pub fn read_be64(s: &[u8], at: usize) -> (n: u64)
    requires
        at + 8 <= s.len(),
    ensures
        n as nat == be64_val(s@.subrange(at as int, at + 8)),
{
    let n = (s[at] as u64) * 0x100000000000000 + (s[at + 1] as u64) * 0x1000000000000 + (s[at
        + 2] as u64) * 0x10000000000 + (s[at + 3] as u64) * 0x100000000 + (s[at + 4] as u64)
        * 0x1000000 + (s[at + 5] as u64) * 0x10000 + (s[at + 6] as u64) * 0x100 + (s[at
        + 7] as u64);
    proof {
        let sub = s@.subrange(at as int, at + 8);
        assert(sub[0] == s@[at as int]);
        assert(sub[1] == s@[at + 1]);
        assert(sub[2] == s@[at + 2]);
        assert(sub[3] == s@[at + 3]);
        assert(sub[4] == s@[at + 4]);
        assert(sub[5] == s@[at + 5]);
        assert(sub[6] == s@[at + 6]);
        assert(sub[7] == s@[at + 7]);
    }
    n
}

/// Appends the eight big-endian bytes of `n` to `out`.
pub fn push_be64(out: &mut Vec<u8>, n: u64)
    ensures
        final(out)@ == old(out)@ + be64_bytes(n as nat),
{
    out.push(((n / 0x100000000000000) % 0x100) as u8);
    out.push(((n / 0x1000000000000) % 0x100) as u8);
    out.push(((n / 0x10000000000) % 0x100) as u8);
    out.push(((n / 0x100000000) % 0x100) as u8);
    out.push(((n / 0x1000000) % 0x100) as u8);
    out.push(((n / 0x10000) % 0x100) as u8);
    out.push(((n / 0x100) % 0x100) as u8);
    out.push((n % 0x100) as u8);
    proof {
        assert(out@ =~= old(out)@ + be64_bytes(n as nat));
    }
}

/// Copies `v[from..to]` into a fresh vector.
pub fn vec_range(v: &Vec<u8>, from: usize, to: usize) -> (r: Vec<u8>)
    requires
        from <= to <= v@.len(),
    ensures
        r@ == v@.subrange(from as int, to as int),
{
    let mut out: Vec<u8> = Vec::new();
    let mut i: usize = from;
    while i < to
        invariant
            from <= i <= to <= v@.len(),
            out@ == v@.subrange(from as int, i as int),
        decreases to - i,
    {
        out.push(v[i]);
        i = i + 1;
        proof {
            assert(out@ =~= v@.subrange(from as int, i as int));
        }
    }
    out
}

/// Copies a byte vector.
pub fn vec_copy(v: &Vec<u8>) -> (r: Vec<u8>)
    ensures
        r@ == v@,
{
    let r = vec_range(v, 0, v.len());
    proof {
        assert(v@.subrange(0, v@.len() as int) =~= v@);
    }
    r
}

} // verus!
