//! Big-endian fixed-width integers, the byte order of every multi-byte field
//! in the database file and the write-ahead log.
use vstd::prelude::*;
use vstd::arithmetic::div_mod::{lemma_fundamental_div_mod, lemma_mod_breakdown};

verus! {

/// 256 raised to the power `k`.
pub open spec fn pow256(k: nat) -> nat
    decreases k,
{
    if k == 0 {
        1
    } else {
        256 * pow256((k - 1) as nat)
    }
}

/// The unsigned integer whose big-endian bytes are `s`.
pub open spec fn be_uint(s: Seq<u8>) -> nat
    decreases s.len(),
{
    if s.len() == 0 {
        0
    } else {
        (be_uint(s.drop_last()) * 256 + s.last()) as nat
    }
}

/// The two's-complement signed integer whose big-endian bytes are `s`.
pub open spec fn be_int(s: Seq<u8>) -> int {
    if 2 * be_uint(s) >= pow256(s.len()) {
        be_uint(s) - pow256(s.len())
    } else {
        be_uint(s) as int
    }
}

/// The low `w` bytes of `n`, most significant first.
pub open spec fn be_bytes(n: nat, w: nat) -> Seq<u8>
    decreases w,
{
    if w == 0 {
        Seq::empty()
    } else {
        be_bytes(n / 256, (w - 1) as nat).push((n % 256) as u8)
    }
}

pub proof fn lemma_pow256_values()
    ensures
        pow256(0) == 1,
        pow256(1) == 0x100,
        pow256(2) == 0x1_0000,
        pow256(3) == 0x100_0000,
        pow256(4) == 0x1_0000_0000,
        pow256(5) == 0x100_0000_0000,
        pow256(6) == 0x1_0000_0000_0000,
        pow256(7) == 0x100_0000_0000_0000,
        pow256(8) == 0x1_0000_0000_0000_0000,
{
    reveal_with_fuel(pow256, 9);
}

pub proof fn lemma_pow256_pos(k: nat)
    ensures
        pow256(k) > 0,
    decreases k,
{
    if k > 0 {
        lemma_pow256_pos((k - 1) as nat);
    }
}

pub proof fn lemma_be_bytes_len(n: nat, w: nat)
    ensures
        be_bytes(n, w).len() == w,
    decreases w,
{
    if w > 0 {
        lemma_be_bytes_len(n / 256, (w - 1) as nat);
    }
}

/// `w` big-endian bytes hold a value below `256^w`.
pub proof fn lemma_be_uint_bound(s: Seq<u8>)
    ensures
        be_uint(s) < pow256(s.len()),
    decreases s.len(),
{
    if s.len() > 0 {
        lemma_be_uint_bound(s.drop_last());
        let a = be_uint(s.drop_last());
        let p = pow256((s.len() - 1) as nat);
        assert(a * 256 + s.last() < 256 * p) by (nonlinear_arith)
            requires
                a < p,
                s.last() < 256,
        ;
    }
}

/// Reading back the low `w` bytes of `n` gives `n` modulo `256^w`.
pub proof fn lemma_be_uint_of_bytes(n: nat, w: nat)
    ensures
        be_uint(be_bytes(n, w)) == n % pow256(w),
    decreases w,
{
    if w == 0 {
        assert(n % 1 == 0);
    } else {
        let w1 = (w - 1) as nat;
        lemma_be_uint_of_bytes(n / 256, w1);
        let s = be_bytes(n, w);
        assert(s.drop_last() == be_bytes(n / 256, w1));
        lemma_pow256_pos(w1);
        lemma_mod_breakdown(n as int, 256, pow256(w1) as int);
        assert(256 * ((n / 256) % pow256(w1)) == ((n / 256) % pow256(w1)) * 256) by (
        nonlinear_arith);
    }
}

/// Reading back the low `w` bytes of a value below `256^w` gives the value.
pub proof fn lemma_be_uint_round_trip(n: nat, w: nat)
    requires
        n < pow256(w),
    ensures
        be_uint(be_bytes(n, w)) == n,
        be_bytes(n, w).len() == w,
{
    lemma_be_uint_of_bytes(n, w);
    lemma_be_bytes_len(n, w);
    vstd::arithmetic::div_mod::lemma_small_mod(n, pow256(w));
}

/// Reading back, as a signed value, the low `w` bytes of an integer that
/// fits in `w` bytes of two's complement gives the integer.
pub proof fn lemma_be_int_round_trip(x: int, w: nat)
    requires
        w > 0,
        -pow256(w) <= 2 * x < pow256(w),
    ensures
        be_int(be_bytes((x % pow256(w) as int) as nat, w)) == x,
        be_bytes((x % pow256(w) as int) as nat, w).len() == w,
{
    let p = pow256(w) as int;
    lemma_pow256_pos(w);
    let u = x % p;
    lemma_fundamental_div_mod(x, p);
    if x >= 0 {
        vstd::arithmetic::div_mod::lemma_small_mod(x as nat, p as nat);
        lemma_be_uint_round_trip(x as nat, w);
    } else {
        vstd::arithmetic::div_mod::lemma_fundamental_div_mod_converse_mod(x, p, -1, x + p);
        lemma_be_uint_round_trip((x + p) as nat, w);
    }
}

/// The big-endian unsigned value of the `w` bytes of `buf` at `pos`.
pub fn read_be_uint(buf: &[u8], pos: usize, w: usize) -> (r: u64)
    requires
        w <= 8,
        pos + w <= buf@.len(),
    ensures
        r == be_uint(buf@.subrange(pos as int, pos + w)),
{
    let mut acc: u64 = 0;
    let mut i: usize = 0;
    let len = buf.len();
    while i < w
        invariant
            i <= w <= 8,
            pos + w <= buf@.len(),
            len == buf@.len(),
            acc == be_uint(buf@.subrange(pos as int, pos + i)),
        decreases w - i,
    {
        proof {
            lemma_be_uint_bound(buf@.subrange(pos as int, pos + i));
            lemma_pow256_values();
            assert(pow256(i as nat) <= pow256(7)) by {
                reveal_with_fuel(pow256, 9);
            }
            assert(acc * 256 + 255 < 0x1_0000_0000_0000_0000) by (nonlinear_arith)
                requires
                    acc < pow256(i as nat),
                    pow256(i as nat) <= 0x100_0000_0000_0000,
            ;
            assert(buf@.subrange(pos as int, pos + i + 1).drop_last() =~= buf@.subrange(
                pos as int,
                pos + i,
            ));
        }
        acc = acc * 256 + buf[pos + i] as u64;
        i += 1;
    }
    acc
}

/// The big-endian `u16` at `pos`.
pub fn read_be_u16(buf: &[u8], pos: usize) -> (r: u16)
    requires
        pos + 2 <= buf@.len(),
    ensures
        r == be_uint(buf@.subrange(pos as int, pos + 2)),
{
    proof {
        lemma_be_uint_bound(buf@.subrange(pos as int, pos + 2));
        lemma_pow256_values();
    }
    read_be_uint(buf, pos, 2) as u16
}

/// The big-endian `u32` at `pos` of `buf`.
pub fn read_u32(buf: &[u8], pos: usize) -> (r: u32)
    requires
        pos + 4 <= buf@.len(),
    ensures
        r == be_uint(buf@.subrange(pos as int, pos + 4)),
{
    proof {
        lemma_be_uint_bound(buf@.subrange(pos as int, pos + 4));
        lemma_pow256_values();
    }
    read_be_uint(buf, pos, 4) as u32
}

/// Writes the low `w` bytes of `v`, most significant first, at `pos`; the
/// other bytes of `buf` are left as they were.
pub fn write_be_uint(buf: &mut [u8], pos: usize, w: usize, v: u64)
    requires
        w <= 8,
        pos + w <= old(buf)@.len(),
    ensures
        final(buf)@ == old(buf)@.subrange(0, pos as int) + be_bytes(v as nat, w as nat)
            + old(buf)@.subrange(pos + w, old(buf)@.len() as int),
{
    let mut rest: u64 = v;
    let mut i: usize = w;
    let ghost orig = buf@;
    let len = buf.len();
    proof {
        lemma_be_bytes_len(v as nat, w as nat);
        lemma_pow256_values();
        assert(v as nat / 1 == v as nat);
    }
    while i > 0
        invariant
            i <= w <= 8,
            len == orig.len(),
            pos + w <= orig.len(),
            buf@.len() == orig.len(),
            rest as nat == v as nat / pow256((w - i) as nat),
            forall|k: int| 0 <= k < pos + i ==> buf@[k] == orig[k],
            forall|k: int| pos + w <= k < orig.len() ==> buf@[k] == orig[k],
            forall|k: int|
                i <= k < w ==> buf@[pos + k] == be_bytes(v as nat, w as nat)[k],
        decreases i,
    {
        proof {
            lemma_be_byte_at(v as nat, w as nat, (i - 1) as nat);
            assert((w - 1 - (i - 1)) as nat == (w - i) as nat);
        }
        buf[pos + i - 1] = (rest % 256) as u8;
        proof {
            lemma_pow256_pos((w - i) as nat);
            vstd::arithmetic::div_mod::lemma_div_denominator(
                v as int,
                pow256((w - i) as nat) as int,
                256,
            );
            assert(pow256((w - i) as nat) * 256 == pow256((w - (i - 1)) as nat)) by (
            nonlinear_arith)
                requires
                    pow256((w - (i - 1)) as nat) == 256 * pow256((w - i) as nat),
            ;
        }
        rest = rest / 256;
        i -= 1;
    }
    assert(buf@ =~= orig.subrange(0, pos as int) + be_bytes(v as nat, w as nat) + orig.subrange(
        pos + w,
        orig.len() as int,
    ));
}

/// Appends the low `w` bytes of `u`, most significant first.
pub fn push_be_uint(out: &mut Vec<u8>, u: u64, w: usize)
    ensures
        final(out)@ == old(out)@ + be_bytes(u as nat, w as nat),
    decreases w,
{
    if w == 0 {
        assert(old(out)@ + be_bytes(u as nat, 0) =~= old(out)@);
        return;
    }
    push_be_uint(out, u / 256, w - 1);
    out.push((u % 256) as u8);
    assert(out@ =~= old(out)@ + be_bytes(u as nat, w as nat));
}

/// Appends the bytes of `src`.
pub fn push_bytes(out: &mut Vec<u8>, src: &[u8])
    ensures
        final(out)@ == old(out)@ + src@,
{
    let ghost start = out@;
    let mut i: usize = 0;
    while i < src.len()
        invariant
            i <= src@.len(),
            out@ == start + src@.subrange(0, i as int),
        decreases src@.len() - i,
    {
        out.push(src[i]);
        i += 1;
        assert(out@ =~= start + src@.subrange(0, i as int));
    }
    assert(src@.subrange(0, src@.len() as int) =~= src@);
}

/// Copies `src` over the start of `buf`, leaving the rest of `buf` as it was.
pub fn copy_into(buf: &mut [u8], src: &[u8])
    requires
        src@.len() <= old(buf)@.len(),
    ensures
        final(buf)@ == src@ + old(buf)@.subrange(src@.len() as int, old(buf)@.len() as int),
{
    let ghost orig = buf@;
    let mut i: usize = 0;
    while i < src.len()
        invariant
            i <= src@.len() <= orig.len(),
            buf@.len() == orig.len(),
            forall|k: int| 0 <= k < i ==> buf@[k] == src@[k],
            forall|k: int| i <= k < orig.len() ==> buf@[k] == orig[k],
        decreases src@.len() - i,
    {
        buf[i] = src[i];
        i += 1;
    }
    assert(buf@ =~= src@ + orig.subrange(src@.len() as int, orig.len() as int));
}

/// The 32 bits of `x` read as unsigned.
pub open spec fn i32_bits(x: i32) -> nat {
    (x as int % 0x1_0000_0000) as nat
}

/// The 32 bits of `x` read as unsigned.
pub fn i32_to_bits(x: i32) -> (r: u32)
    ensures
        r == i32_bits(x),
{
    if x >= 0 {
        proof {
            vstd::arithmetic::div_mod::lemma_small_mod(x as nat, 0x1_0000_0000);
        }
        x as u32
    } else {
        proof {
            vstd::arithmetic::div_mod::lemma_fundamental_div_mod_converse_mod(
                x as int,
                0x1_0000_0000,
                -1,
                x + 0x1_0000_0000,
            );
        }
        ((x as i64) + 0x1_0000_0000) as u32
    }
}

/// Byte `k` of the low `w` bytes of `n`.
pub proof fn lemma_be_byte_at(n: nat, w: nat, k: nat)
    requires
        k < w,
    ensures
        be_bytes(n, w)[k as int] == ((n / pow256((w - 1 - k) as nat)) % 256) as u8,
    decreases w,
{
    let w1 = (w - 1) as nat;
    lemma_be_bytes_len(n / 256, w1);
    if k == w1 {
        assert(n / 1 == n);
    } else {
        lemma_be_byte_at(n / 256, w1, k);
        lemma_pow256_pos((w1 - 1 - k) as nat);
        vstd::arithmetic::div_mod::lemma_div_denominator(
            n as int,
            256,
            pow256((w1 - 1 - k) as nat) as int,
        );
        assert((w - 1 - k) as nat == (w1 - 1 - k) as nat + 1);
    }
}

} // verus!
