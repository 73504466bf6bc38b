//! SQLite's variable-length integers: one to nine bytes, big-endian, seven
//! bits per byte with the high bit marking a continuation, and a ninth byte
//! that carries a full eight bits.
use vstd::prelude::*;
use vstd::arithmetic::div_mod::{lemma_div_denominator, lemma_fundamental_div_mod};

use crate::error::{corrupt, LimboError};

verus! {

/// 128 raised to the power `k`: the weight of the `k`-th seven-bit group
/// counted from the least significant one.
pub open spec fn pow128(k: nat) -> nat
    decreases k,
{
    if k == 0 {
        1
    } else {
        128 * pow128((k - 1) as nat)
    }
}

/// Number of bytes in the shortest encoding of `v`.
pub open spec fn varint_len(v: u64) -> nat {
    if v < 0x80 {
        1
    } else if v < 0x4000 {
        2
    } else if v < 0x20_0000 {
        3
    } else if v < 0x1000_0000 {
        4
    } else if v < 0x8_0000_0000 {
        5
    } else if v < 0x400_0000_0000 {
        6
    } else if v < 0x2_0000_0000_0000 {
        7
    } else if v < 0x100_0000_0000_0000 {
        8
    } else {
        9
    }
}

/// The shortest encoding of `v`.
///
/// Up to eight bytes: the seven-bit groups of `v`, most significant first,
/// each but the last with its high bit set. Nine bytes: eight continuation
/// bytes holding the high 56 bits, then the low eight bits whole.
pub open spec fn varint_encode(v: u64) -> Seq<u8> {
    let n = varint_len(v);
    if n <= 8 {
        Seq::new(
            n,
            |j: int|
                ((v as nat / pow128((n - 1 - j) as nat)) % 128 + if j < n - 1 {
                    128nat
                } else {
                    0nat
                }) as u8,
        )
    } else {
        Seq::new(
            9,
            |j: int|
                if j < 8 {
                    ((v as nat / 256 / pow128((7 - j) as nat)) % 128 + 128) as u8
                } else {
                    (v as nat % 256) as u8
                },
        )
    }
}

/// Decoding that resumes at byte `i` with `acc` accumulated from the bytes
/// before it: the value and the total count of bytes read, or `None` where
/// the bytes end before the varint does.
pub open spec fn varint_decode_from(s: Seq<u8>, i: nat, acc: nat) -> Option<(nat, nat)>
    decreases 8 - i,
{
    if i < 8 {
        if i < s.len() {
            let b = s[i as int];
            let acc2 = (acc * 128 + b % 128) as nat;
            if b < 128 {
                Some((acc2, i + 1))
            } else {
                varint_decode_from(s, i + 1, acc2)
            }
        } else {
            None
        }
    } else if 8 < s.len() {
        Some(((acc * 256 + s[8]) as nat, 9))
    } else {
        None
    }
}

/// The varint at the start of `s`: its value and its length in bytes.
pub open spec fn varint_decode(s: Seq<u8>) -> Option<(nat, nat)> {
    varint_decode_from(s, 0, 0)
}

pub proof fn lemma_pow128_values()
    ensures
        pow128(0) == 1,
        pow128(1) == 0x80,
        pow128(2) == 0x4000,
        pow128(3) == 0x20_0000,
        pow128(4) == 0x1000_0000,
        pow128(5) == 0x8_0000_0000,
        pow128(6) == 0x400_0000_0000,
        pow128(7) == 0x2_0000_0000_0000,
        pow128(8) == 0x100_0000_0000_0000,
{
    reveal_with_fuel(pow128, 9);
}

pub proof fn lemma_pow128_pos(k: nat)
    ensures
        pow128(k) > 0,
    decreases k,
{
    if k > 0 {
        lemma_pow128_pos((k - 1) as nat);
    }
}

/// Dropping one more seven-bit group: `x / 128^k / 128 == x / 128^(k+1)`.
proof fn lemma_div_pow128_step(x: nat, k: nat)
    ensures
        x / pow128(k) / 128 == x / pow128(k + 1),
{
    lemma_pow128_pos(k);
    lemma_div_denominator(x as int, pow128(k) as int, 128);
    assert(pow128(k) * 128 == pow128(k + 1)) by (nonlinear_arith)
        requires
            pow128(k + 1) == 128 * pow128(k),
    ;
}

/// Putting one seven-bit group back: `(x / 128^(k+1)) * 128 + (x / 128^k) % 128 == x / 128^k`.
proof fn lemma_regroup(x: nat, k: nat)
    ensures
        (x / pow128(k + 1)) * 128 + (x / pow128(k)) % 128 == x / pow128(k),
{
    lemma_div_pow128_step(x, k);
    let y = x / pow128(k);
    let q = x / pow128(k + 1);
    assert(y / 128 == q);
    let yi = y as int;
    lemma_fundamental_div_mod(yi, 128);
    assert(yi / 128 == q);
    assert(yi % 128 == y % 128);
    assert(q * 128 + y % 128 == y) by (nonlinear_arith)
        requires
            yi == y,
            yi == 128 * (yi / 128) + yi % 128,
            yi / 128 == q,
            yi % 128 == y % 128,
    ;
}

/// For a value of `n <= 8` groups: decoding the encoding from byte `j`, with
/// the groups before `j` accumulated, gives back the value and `n`.
proof fn lemma_decode_short(v: u64, j: nat, s: Seq<u8>)
    requires
        varint_len(v) <= 8,
        j < varint_len(v),
        s.len() >= varint_len(v),
        forall|i: int| 0 <= i < varint_len(v) ==> s[i] == varint_encode(v)[i],
    ensures
        varint_decode_from(s, j, v as nat / pow128((varint_len(v) - j) as nat))
            == Some((v as nat, varint_len(v))),
    decreases varint_len(v) - j,
{
    let n = varint_len(v);
    let k = (n - 1 - j) as nat;
    assert(s[j as int] == varint_encode(v)[j as int]);
    lemma_regroup(v as nat, k);
    assert((n - j) as nat == k + 1);
    lemma_pow128_pos(k);
    if j + 1 < n {
        lemma_decode_short(v, j + 1, s);
        assert((n - (j + 1)) as nat == k);
    } else {
        lemma_pow128_values();
        assert(v as nat / 1 == v);
    }
}

/// For a nine-byte value: decoding the encoding from byte `j <= 8`, with the
/// groups before `j` accumulated, gives back the value and 9.
proof fn lemma_decode_long(v: u64, j: nat, s: Seq<u8>)
    requires
        varint_len(v) == 9,
        j <= 8,
        s.len() >= 9,
        forall|i: int| 0 <= i < 9 ==> s[i] == varint_encode(v)[i],
    ensures
        varint_decode_from(s, j, v as nat / 256 / pow128((8 - j) as nat))
            == Some((v as nat, 9nat)),
    decreases 8 - j,
{
    let w = v as nat / 256;
    assert(s[j as int] == varint_encode(v)[j as int]);
    if j < 8 {
        let k = (7 - j) as nat;
        lemma_regroup(w, k);
        assert((8 - j) as nat == k + 1);
        lemma_decode_long(v, j + 1, s);
        assert((8 - (j + 1)) as nat == k);
    } else {
        lemma_pow128_values();
        assert(w / 1 == w);
        lemma_fundamental_div_mod(v as int, 256);
    }
}

/// A varint is read back from any bytes that begin with its encoding.
pub proof fn lemma_varint_decode_prefix(v: u64, s: Seq<u8>)
    requires
        s.len() >= varint_len(v),
        s.subrange(0, varint_len(v) as int) == varint_encode(v),
    ensures
        varint_decode(s) == Some((v as nat, varint_len(v))),
        varint_encode(v).len() == varint_len(v),
        1 <= varint_len(v) <= 9,
{
    lemma_pow128_values();
    let n = varint_len(v);
    assert forall|i: int| 0 <= i < n implies s[i] == varint_encode(v)[i] by {
        assert(s.subrange(0, n as int)[i] == s[i]);
    }
    if n <= 8 {
        lemma_decode_short(v, 0, s);
        assert(v as nat / pow128(n) == 0) by {
            lemma_pow128_pos(n);
            vstd::arithmetic::div_mod::lemma_basic_div(v as int, pow128(n) as int);
        }
    } else {
        lemma_decode_long(v, 0, s);
        assert(v as nat / 256 / pow128(8) == 0) by {
            lemma_div_denominator(v as int, 256, pow128(8) as int);
            vstd::arithmetic::div_mod::lemma_basic_div(v as int, 256 * pow128(8) as int);
        }
    }
}

/// Decoding the encoding of any 64-bit value gives back the value and the
/// length of the encoding, which is at most nine bytes.
pub proof fn lemma_varint_round_trip(v: u64)
    ensures
        varint_decode(varint_encode(v)) == Some((v as nat, varint_encode(v).len())),
        varint_encode(v).len() == varint_len(v),
        1 <= varint_len(v) <= 9,
{
    lemma_pow128_values();
    assert(varint_encode(v).subrange(0, varint_len(v) as int) =~= varint_encode(v));
    lemma_varint_decode_prefix(v, varint_encode(v));
}

/// The encoding is the shortest: the value does not fit in fewer seven-bit
/// groups than the encoding has bytes (below nine).
pub proof fn lemma_varint_minimal(v: u64)
    ensures
        varint_len(v) >= 2 ==> v as nat >= pow128((varint_len(v) - 1) as nat),
        varint_len(v) <= 8 ==> (v as nat) < pow128(varint_len(v)),
{
    lemma_pow128_values();
}

proof fn lemma_decode_from_bounds(s: Seq<u8>, i: nat, acc: nat)
    requires
        i <= 8,
        acc < pow128(i),
    ensures
        varint_decode_from(s, i, acc) matches Some((v, n)) ==> i < n <= 9 && n <= s.len() && v
            < 0x1_0000_0000_0000_0000,
    decreases 8 - i,
{
    lemma_pow128_values();
    if i < 8 && i < s.len() {
        let b = s[i as int];
        assert(acc * 128 + b % 128 < pow128(i + 1)) by (nonlinear_arith)
            requires
                acc < pow128(i),
                pow128(i + 1) == 128 * pow128(i),
                b % 128 < 128,
        ;
        assert(pow128(i + 1) <= pow128(8)) by {
            reveal_with_fuel(pow128, 9);
        }
        lemma_decode_from_bounds(s, i + 1, (acc * 128 + b % 128) as nat);
    } else if i == 8 && 8 < s.len() {
        assert(acc * 256 + s[8] < 0x1_0000_0000_0000_0000) by (nonlinear_arith)
            requires
                acc < 0x100_0000_0000_0000,
                s[8] < 256,
        ;
    }
}

/// A varint takes one to nine bytes, all within `s`, and its value fits in
/// 64 bits.
pub proof fn lemma_varint_decode_bounds(s: Seq<u8>)
    ensures
        varint_decode(s) matches Some((v, n)) ==> 1 <= n <= 9 && n <= s.len() && v
            < 0x1_0000_0000_0000_0000,
{
    lemma_pow128_values();
    lemma_decode_from_bounds(s, 0, 0);
}

/// Number of bytes in the shortest encoding of `value`.
pub fn varint_size(value: u64) -> (n: usize)
    ensures
        n == varint_len(value),
{
    if value < 0x80 {
        1
    } else if value < 0x4000 {
        2
    } else if value < 0x20_0000 {
        3
    } else if value < 0x1000_0000 {
        4
    } else if value < 0x8_0000_0000 {
        5
    } else if value < 0x400_0000_0000 {
        6
    } else if value < 0x2_0000_0000_0000 {
        7
    } else if value < 0x100_0000_0000_0000 {
        8
    } else {
        9
    }
}

/// Reads the varint at the start of `buf`, returning its value and length.
///
/// Fails with `Corrupt` when `buf` ends before the varint does.
pub fn read_varint(buf: &[u8]) -> (r: Result<(u64, usize), LimboError>)
    ensures
        r is Ok <==> varint_decode(buf@) is Some,
        r matches Ok((v, n)) ==> varint_decode(buf@) == Some((v as nat, n as nat)),
{
    proof {
        lemma_pow128_values();
    }
    let mut v: u64 = 0;
    let mut i: usize = 0;
    while i < 8
        invariant
            i <= 8,
            v < pow128(i as nat),
            varint_decode(buf@) == varint_decode_from(buf@, i as nat, v as nat),
        decreases 8 - i,
    {
        if i >= buf.len() {
            return Err(corrupt("invalid varint"));
        }
        let c = buf[i];
        assert(v * 128 + c % 128 < pow128(i as nat + 1)) by (nonlinear_arith)
            requires
                v < pow128(i as nat),
                pow128(i as nat + 1) == 128 * pow128(i as nat),
                c % 128 < 128,
        ;
        assert(pow128(i as nat + 1) <= pow128(8)) by {
            lemma_pow128_values();
            reveal_with_fuel(pow128, 9);
        }
        v = v * 128 + (c % 128) as u64;
        if c < 128 {
            return Ok((v, i + 1));
        }
        i += 1;
    }
    if buf.len() <= 8 {
        return Err(corrupt("invalid varint"));
    }
    v = v * 256 + buf[8] as u64;
    Ok((v, 9))
}

/// Writes the shortest encoding of `value` at the start of `buf` and
/// returns its length; the rest of `buf` is left as it was.
pub fn write_varint(buf: &mut [u8], value: u64) -> (n: usize)
    requires
        old(buf)@.len() >= varint_len(value),
    ensures
        n == varint_len(value),
        final(buf)@.len() == old(buf)@.len(),
        final(buf)@.subrange(0, n as int) == varint_encode(value),
        final(buf)@.subrange(n as int, final(buf)@.len() as int) == old(buf)@.subrange(
            n as int,
            old(buf)@.len() as int,
        ),
{
    proof {
        lemma_pow128_values();
    }
    let n = varint_size(value);
    let ghost enc = varint_encode(value);
    if n == 9 {
        buf[8] = (value % 256) as u8;
        let mut w: u64 = value / 256;
        let mut i: usize = 8;
        assert(value as nat / 256 / 1 == value as nat / 256);
        while i > 0
            invariant
                i <= 8,
                old(buf)@.len() >= 9,
                n == 9,
                enc == varint_encode(value),
                varint_len(value) == 9,
                buf@.len() == old(buf)@.len(),
                w as nat == value as nat / 256 / pow128((8 - i) as nat),
                forall|k: int| i <= k < 9 ==> buf@[k] == enc[k],
                forall|k: int| 9 <= k < buf@.len() ==> buf@[k] == old(buf)@[k],
            decreases i,
        {
            assert(enc[i - 1] == (w % 128 + 128) as u8);
            buf[i - 1] = (w % 128 + 128) as u8;
            proof {
                lemma_div_pow128_step(value as nat / 256, (8 - i) as nat);
                assert((8 - i) as nat + 1 == (8 - (i - 1)) as nat);
            }
            w = w / 128;
            i -= 1;
        }
    } else {
        let mut w: u64 = value;
        let mut i: usize = n;
        assert(value as nat / 1 == value as nat);
        while i > 0
            invariant
                i <= n,
                old(buf)@.len() >= n,
                n <= 8,
                n == varint_len(value),
                enc == varint_encode(value),
                buf@.len() == old(buf)@.len(),
                w as nat == value as nat / pow128((n - i) as nat),
                forall|k: int| i <= k < n ==> buf@[k] == enc[k],
                forall|k: int| n <= k < buf@.len() ==> buf@[k] == old(buf)@[k],
            decreases i,
        {
            if i == n {
                assert(enc[i - 1] == (w % 128) as u8);
                buf[i - 1] = (w % 128) as u8;
            } else {
                assert(enc[i - 1] == (w % 128 + 128) as u8);
                buf[i - 1] = (w % 128 + 128) as u8;
            }
            proof {
                lemma_div_pow128_step(value as nat, (n - i) as nat);
                assert((n - i) as nat + 1 == (n - (i - 1)) as nat);
            }
            w = w / 128;
            i -= 1;
        }
    }
    assert(buf@.subrange(0, n as int) =~= enc);
    assert(buf@.subrange(n as int, buf@.len() as int) =~= old(buf)@.subrange(
        n as int,
        old(buf)@.len() as int,
    ));
    n
}

/// Appends the shortest encoding of `value` to `payload`.
pub fn write_varint_to_vec(value: u64, payload: &mut Vec<u8>)
    ensures
        final(payload)@ == old(payload)@ + varint_encode(value),
{
    let mut varint: Vec<u8> = Vec::new();
    let mut k: usize = 0;
    while k < 9
        invariant
            k <= 9,
            varint@.len() == k,
        decreases 9 - k,
    {
        varint.push(0);
        k += 1;
    }
    let n = write_varint(varint.as_mut_slice(), value);
    let ghost start = payload@;
    let mut i: usize = 0;
    while i < n
        invariant
            i <= n,
            n <= varint@.len(),
            varint@.subrange(0, n as int) == varint_encode(value),
            payload@ == start + varint@.subrange(0, i as int),
        decreases n - i,
    {
        payload.push(varint[i]);
        i += 1;
        assert(varint@.subrange(0, i as int) =~= varint@.subrange(0, (i - 1) as int).push(
            varint@[i - 1],
        ));
    }
}

} // verus!
