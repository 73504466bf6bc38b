//! Values as records hold them, and their decoding and encoding under a
//! serial type.
use vstd::prelude::*;

use crate::bytes::{
    be_bytes, be_int, be_uint, lemma_be_int_round_trip, lemma_be_uint_bound,
    lemma_be_uint_round_trip, lemma_pow256_pos, lemma_pow256_values, pow256, push_be_uint,
    read_be_uint,
};
use crate::error::{corrupt, LimboError};
use crate::serial::{
    is_valid_type, serial_type_size, SerialType, SerialTypeExt,
    SERIAL_TYPE_BEFLOAT64, SERIAL_TYPE_BEINT64, SERIAL_TYPE_CONSTINT0, SERIAL_TYPE_CONSTINT1,
};

verus! {

/// A value of a record.
///
/// A float is held as the 64 bits of its IEEE-754 representation, which is
/// what the file stores; text is held as its encoded bytes.
#[derive(Debug, Clone, PartialEq)]
pub enum Value {
    Null,
    Integer(i64),
    Float(u64),
    Text(Vec<u8>),
    Blob(Vec<u8>),
}

/// The mathematical content of a `Value`.
pub enum ValueModel {
    Null,
    Integer(int),
    Float(u64),
    Text(Seq<u8>),
    Blob(Seq<u8>),
}

impl View for Value {
    type V = ValueModel;

    open spec fn view(&self) -> ValueModel {
        match self {
            Value::Null => ValueModel::Null,
            Value::Integer(x) => ValueModel::Integer(*x as int),
            Value::Float(b) => ValueModel::Float(*b),
            Value::Text(t) => ValueModel::Text(t@),
            Value::Blob(b) => ValueModel::Blob(b@),
        }
    }
}

/// The value that tag `t` gives the bytes at the start of `s`, with the count
/// of bytes it takes; `None` for an invalid tag or where `s` is too short.
pub open spec fn decode_value(s: Seq<u8>, t: u64) -> Option<(ValueModel, nat)> {
    let n = serial_type_size(t);
    if !is_valid_type(t) || s.len() < n {
        None
    } else {
        let b = s.subrange(0, n as int);
        let v = if t == 0 {
            ValueModel::Null
        } else if t <= 6 {
            ValueModel::Integer(be_int(b))
        } else if t == 7 {
            ValueModel::Float(be_uint(b) as u64)
        } else if t == 8 {
            ValueModel::Integer(0)
        } else if t == 9 {
            ValueModel::Integer(1)
        } else if t % 2 == 0 {
            ValueModel::Blob(b)
        } else {
            ValueModel::Text(b)
        };
        Some((v, n))
    }
}

/// `x` is representable in `w` bytes of two's complement.
pub open spec fn int_fits(x: int, w: nat) -> bool {
    -pow256(w) <= 2 * x < pow256(w)
}

/// The tag an integer is written with: the constants for 0 and 1, else the
/// narrowest width that holds it.
pub open spec fn int_serial_type(x: int) -> u64 {
    if x == 0 {
        8
    } else if x == 1 {
        9
    } else if int_fits(x, 1) {
        1
    } else if int_fits(x, 2) {
        2
    } else if int_fits(x, 3) {
        3
    } else if int_fits(x, 4) {
        4
    } else if int_fits(x, 6) {
        5
    } else {
        6
    }
}

/// The tag a value is written with.
pub open spec fn serial_type_for(v: ValueModel) -> u64 {
    match v {
        ValueModel::Null => 0,
        ValueModel::Integer(x) => int_serial_type(x),
        ValueModel::Float(_) => 7,
        ValueModel::Blob(b) => (12 + 2 * b.len()) as u64,
        ValueModel::Text(t) => (13 + 2 * t.len()) as u64,
    }
}

/// The content bytes a value is written as, under `serial_type_for`.
pub open spec fn encode_value(v: ValueModel) -> Seq<u8> {
    match v {
        ValueModel::Null => Seq::empty(),
        ValueModel::Integer(x) => {
            let w = serial_type_size(int_serial_type(x));
            be_bytes((x % pow256(w) as int) as nat, w)
        },
        ValueModel::Float(bits) => be_bytes(bits as nat, 8),
        ValueModel::Blob(b) => b,
        ValueModel::Text(t) => t,
    }
}

/// A value that can be written: an integer of 64 bits, and a blob or text
/// whose tag fits in 64 bits.
pub open spec fn value_wf(v: ValueModel) -> bool {
    match v {
        ValueModel::Integer(x) => i64::MIN <= x <= i64::MAX,
        ValueModel::Blob(b) => 13 + 2 * b.len() <= u64::MAX,
        ValueModel::Text(t) => 13 + 2 * t.len() <= u64::MAX,
        _ => true,
    }
}

/// Decoding what a value is written as, under the tag it is written with,
/// gives back the value and consumes exactly the bytes written, whatever
/// follows them.
pub proof fn lemma_value_round_trip(v: ValueModel, rest: Seq<u8>)
    requires
        value_wf(v),
    ensures
        decode_value(encode_value(v) + rest, serial_type_for(v)) == Some(
            (v, encode_value(v).len()),
        ),
        encode_value(v).len() == serial_type_size(serial_type_for(v)),
{
    lemma_pow256_values();
    let e = encode_value(v);
    let t = serial_type_for(v);
    match v {
        ValueModel::Null => {
            assert((e + rest).subrange(0, 0) =~= Seq::<u8>::empty());
        },
        ValueModel::Integer(x) => {
            let w = serial_type_size(t);
            if t == 8 || t == 9 {
                assert(e =~= Seq::<u8>::empty());
            } else {
                assert(int_fits(x, w));
                lemma_be_int_round_trip(x, w);
                assert((e + rest).subrange(0, w as int) =~= e);
            }
        },
        ValueModel::Float(bits) => {
            lemma_be_uint_round_trip(bits as nat, 8);
            assert((e + rest).subrange(0, 8) =~= e);
        },
        ValueModel::Blob(b) => {
            assert((e + rest).subrange(0, b.len() as int) =~= e);
        },
        ValueModel::Text(b) => {
            assert((e + rest).subrange(0, b.len() as int) =~= e);
        },
    }
}

/// The first `n` bytes of `buf`, copied.
pub fn copy_prefix(buf: &[u8], n: usize) -> (r: Vec<u8>)
    requires
        n <= buf@.len(),
    ensures
        r@ == buf@.subrange(0, n as int),
{
    let mut out: Vec<u8> = Vec::with_capacity(n);
    let mut i: usize = 0;
    while i < n
        invariant
            i <= n <= buf@.len(),
            out@ == buf@.subrange(0, i as int),
        decreases n - i,
    {
        out.push(buf[i]);
        i += 1;
        assert(out@ =~= buf@.subrange(0, i as int));
    }
    out
}

/// Number of content bytes of an integer tag (1 to 6).
fn int_width(t: u64) -> (w: usize)
    requires
        1 <= t <= 6,
    ensures
        w == serial_type_size(t),
        1 <= w <= 8,
{
    if t <= 4 {
        t as usize
    } else if t == 5 {
        6
    } else {
        8
    }
}

/// Half of `256^w`: the least unsigned value whose top bit is set.
fn sign_threshold(w: usize) -> (h: u64)
    requires
        1 <= w <= 8,
    ensures
        2 * h == pow256(w as nat),
        1 <= h <= 0x8000_0000_0000_0000,
{
    proof {
        lemma_pow256_values();
    }
    if w == 1 {
        0x80
    } else if w == 2 {
        0x8000
    } else if w == 3 {
        0x80_0000
    } else if w == 4 {
        0x8000_0000
    } else if w == 5 {
        0x80_0000_0000
    } else if w == 6 {
        0x8000_0000_0000
    } else if w == 7 {
        0x80_0000_0000_0000
    } else {
        0x8000_0000_0000_0000
    }
}

/// Reads an unsigned value of `w` bytes as two's complement.
fn to_signed(u: u64, w: usize) -> (r: i64)
    requires
        1 <= w <= 8,
        u < pow256(w as nat),
    ensures
        r == if 2 * u >= pow256(w as nat) {
            u - pow256(w as nat)
        } else {
            u as int
        },
{
    let half = sign_threshold(w);
    if u >= half {
        ((u - half) as i64) - ((half - 1) as i64) - 1
    } else {
        u as i64
    }
}

/// Decodes the value that `serial_type` gives the bytes at the start of
/// `buf`, and returns it with the count of bytes it takes.
///
/// Fails with `Corrupt` for an invalid tag or where `buf` is too short.
pub fn read_value(buf: &[u8], serial_type: SerialType) -> (r: Result<(Value, usize), LimboError>)
    ensures
        r is Ok <==> decode_value(buf@, serial_type) is Some,
        r matches Ok((v, n)) ==> decode_value(buf@, serial_type) == Some((v@, n as nat)),
{
    let len = buf.len();
    if serial_type.is_null() {
        return Ok((Value::Null, 0));
    }
    if serial_type <= SERIAL_TYPE_BEINT64 {
        let w = int_width(serial_type);
        if len < w {
            return Err(corrupt("invalid integer value"));
        }
        let u = read_be_uint(buf, 0, w);
        proof {
            lemma_be_uint_bound(buf@.subrange(0, w as int));
        }
        return Ok((Value::Integer(to_signed(u, w)), w));
    }
    if serial_type == SERIAL_TYPE_BEFLOAT64 {
        if len < 8 {
            return Err(corrupt("invalid float value"));
        }
        let bits = read_be_uint(buf, 0, 8);
        return Ok((Value::Float(bits), 8));
    }
    if serial_type == SERIAL_TYPE_CONSTINT0 {
        return Ok((Value::Integer(0), 0));
    }
    if serial_type == SERIAL_TYPE_CONSTINT1 {
        return Ok((Value::Integer(1), 0));
    }
    if serial_type.is_blob() {
        if (len as u64) < (serial_type - 12) / 2 {
            return Err(corrupt("invalid blob value"));
        }
        let n = serial_type.blob_size();
        return Ok((Value::Blob(copy_prefix(buf, n)), n));
    }
    if serial_type.is_string() {
        if (len as u64) < (serial_type - 13) / 2 {
            return Err(corrupt("invalid text value"));
        }
        let n = serial_type.string_size();
        return Ok((Value::Text(copy_prefix(buf, n)), n));
    }
    Err(corrupt("invalid serial type"))
}

/// The tag an integer is written with.
fn int_serial_type_exec(x: i64) -> (t: u64)
    ensures
        t == int_serial_type(x as int),
{
    proof {
        lemma_pow256_values();
    }
    if x == 0 {
        8
    } else if x == 1 {
        9
    } else if -0x80 <= x && x < 0x80 {
        1
    } else if -0x8000 <= x && x < 0x8000 {
        2
    } else if -0x80_0000 <= x && x < 0x80_0000 {
        3
    } else if -0x8000_0000 <= x && x < 0x8000_0000 {
        4
    } else if -0x8000_0000_0000 <= x && x < 0x8000_0000_0000 {
        5
    } else {
        6
    }
}

/// The tag `value` is written with.
pub fn serial_type_of(value: &Value) -> (t: SerialType)
    requires
        value_wf(value@),
    ensures
        t == serial_type_for(value@),
{
    match value {
        Value::Null => 0,
        Value::Integer(x) => int_serial_type_exec(*x),
        Value::Float(_) => 7,
        Value::Blob(b) => 12 + 2 * (b.len() as u64),
        Value::Text(t) => 13 + 2 * (t.len() as u64),
    }
}

/// Appends the content bytes of `value`, as written under its tag.
pub fn write_value(value: &Value, out: &mut Vec<u8>)
    requires
        value_wf(value@),
    ensures
        final(out)@ == old(out)@ + encode_value(value@),
{
    match value {
        Value::Null => {
            assert(old(out)@ + Seq::<u8>::empty() =~= old(out)@);
        },
        Value::Integer(x) => {
            let x = *x;
            let t = int_serial_type_exec(x);
            if t == 8 || t == 9 {
                assert(old(out)@ + be_bytes(0, 0) =~= old(out)@);
                return;
            }
            let w = int_width(t);
            let ghost p = pow256(w as nat) as int;
            proof {
                lemma_pow256_values();
                lemma_pow256_pos(w as nat);
            }
            let u: u64 = if x >= 0 {
                proof {
                    vstd::arithmetic::div_mod::lemma_small_mod(x as nat, p as nat);
                }
                x as u64
            } else if w == 8 {
                proof {
                    vstd::arithmetic::div_mod::lemma_fundamental_div_mod_converse_mod(
                        x as int,
                        p,
                        -1,
                        x + p,
                    );
                }
                ((x + 1 + i64::MAX) as u64) + 0x8000_0000_0000_0000
            } else {
                proof {
                    vstd::arithmetic::div_mod::lemma_fundamental_div_mod_converse_mod(
                        x as int,
                        p,
                        -1,
                        x + p,
                    );
                }
                (x + sign_threshold(w) as i64 + sign_threshold(w) as i64) as u64
            };
            assert(u as int == x as int % p);
            push_be_uint(out, u, w);
        },
        Value::Float(bits) => {
            push_be_uint(out, *bits, 8);
        },
        Value::Blob(b) => {
            let ghost start = out@;
            let mut i: usize = 0;
            while i < b.len()
                invariant
                    i <= b@.len(),
                    out@ == start + b@.subrange(0, i as int),
                decreases b@.len() - i,
            {
                out.push(b[i]);
                i += 1;
                assert(out@ =~= start + b@.subrange(0, i as int));
            }
            assert(b@.subrange(0, b@.len() as int) =~= b@);
        },
        Value::Text(t) => {
            let ghost start = out@;
            let mut i: usize = 0;
            while i < t.len()
                invariant
                    i <= t@.len(),
                    out@ == start + t@.subrange(0, i as int),
                decreases t@.len() - i,
            {
                out.push(t[i]);
                i += 1;
                assert(out@ =~= start + t@.subrange(0, i as int));
            }
            assert(t@.subrange(0, t@.len() as int) =~= t@);
        },
    }
}

} // verus!
