//! Records: a header of serial types, each a varint, preceded by the header's
//! own size, followed by the values laid out back to back.
use vstd::prelude::*;

use crate::error::{corrupt, LimboError};
use crate::serial::{is_valid_type, validate_serial_type, SerialType};
use crate::bytes::push_bytes;
use crate::value::{
    decode_value, encode_value, lemma_value_round_trip, read_value, serial_type_for,
    serial_type_of, value_wf, write_value, Value, ValueModel,
};
use crate::varint::{
    lemma_varint_decode_prefix, lemma_varint_round_trip, read_varint, varint_decode,
    varint_encode, varint_len, varint_size, write_varint_to_vec,
};

verus! {

/// The serial types of a header from byte `pos` to byte `end` of `s`,
/// appended to `acc`; `None` where a varint is cut short, crosses `end`, or
/// is not a valid tag.
pub open spec fn parse_types_from(s: Seq<u8>, pos: nat, end: nat, acc: Seq<u64>) -> Option<
    Seq<u64>,
>
    decreases end - pos,
{
    if pos >= end {
        Some(acc)
    } else {
        match varint_decode(s.subrange(pos as int, s.len() as int)) {
            None => None,
            Some((t, n)) => {
                if n < 1 || pos + n > end || t > u64::MAX || !is_valid_type(t as u64) {
                    None
                } else {
                    parse_types_from(s, pos + n, end, acc.push(t as u64))
                }
            },
        }
    }
}

/// The values that the tags `types[i..]` give the bytes of `s` from `pos`
/// on, appended to `acc`; `None` where the bytes run out.
pub open spec fn parse_values_from(
    s: Seq<u8>,
    types: Seq<u64>,
    i: nat,
    pos: nat,
    acc: Seq<ValueModel>,
) -> Option<Seq<ValueModel>>
    decreases types.len() - i,
{
    if i >= types.len() {
        Some(acc)
    } else {
        match decode_value(s.subrange(pos as int, s.len() as int), types[i as int]) {
            None => None,
            Some((v, n)) => parse_values_from(s, types, i + 1, pos + n, acc.push(v)),
        }
    }
}

/// The serial types of the record whose bytes are `s`.
pub open spec fn record_types(s: Seq<u8>) -> Option<Seq<u64>> {
    match varint_decode(s) {
        None => None,
        Some((h, n)) => if h < n {
            None
        } else {
            parse_types_from(s, n, h, Seq::empty())
        },
    }
}

/// The values of the record whose bytes are `s`.
pub open spec fn decode_record(s: Seq<u8>) -> Option<Seq<ValueModel>> {
    match varint_decode(s) {
        None => None,
        Some((h, n)) => match record_types(s) {
            None => None,
            Some(types) => parse_values_from(s, types, 0, h, Seq::empty()),
        },
    }
}

/// A vector that keeps its first 64 items apart from the rest, as a record
/// header's serial types are kept while it is read.
pub struct SmallVec<T> {
    pub data: Vec<T>,
    pub len: usize,
    pub extra_data: Option<Vec<T>>,
}

impl<T: Copy> SmallVec<T> {
    /// The items, in order of insertion.
    pub open spec fn items(&self) -> Seq<T> {
        match self.extra_data {
            Some(e) => self.data@ + e@,
            None => self.data@,
        }
    }

    pub open spec fn wf(&self) -> bool {
        &&& self.data@.len() <= 64
        &&& self.len == self.items().len()
        &&& self.extra_data is Some ==> self.data@.len() == 64
    }

    pub fn new() -> (r: Self)
        ensures
            r.wf(),
            r.items() == Seq::<T>::empty(),
    {
        SmallVec { data: Vec::new(), len: 0, extra_data: None }
    }

    pub fn push(&mut self, value: T)
        requires
            old(self).wf(),
            old(self).len < usize::MAX,
        ensures
            final(self).wf(),
            final(self).items() == old(self).items().push(value),
    {
        if self.len < 64 {
            self.data.push(value);
            self.len += 1;
        } else {
            let mut extra = match self.extra_data.take() {
                Some(e) => e,
                None => Vec::new(),
            };
            extra.push(value);
            self.extra_data = Some(extra);
            self.len += 1;
        }
        assert(self.items() =~= old(self).items().push(value));
    }

    /// The item at index `i`.
    pub fn get(&self, i: usize) -> (r: T)
        requires
            self.wf(),
            i < self.len,
        ensures
            r == self.items()[i as int],
    {
        if i < self.data.len() {
            self.data[i]
        } else {
            match &self.extra_data {
                Some(e) => e[i - self.data.len()],
                None => self.data[i],
            }
        }
    }
}

/// A decoded record: the payload it was read from and its values.
pub struct ImmutableRecord {
    pub payload: Vec<u8>,
    pub values: Vec<Value>,
}

impl ImmutableRecord {
    pub open spec fn values_view(&self) -> Seq<ValueModel> {
        self.values@.map_values(|v: Value| v@)
    }

    pub fn new() -> (r: Self)
        ensures
            r.payload@ == Seq::<u8>::empty(),
            r.values@ == Seq::<Value>::empty(),
    {
        ImmutableRecord { payload: Vec::new(), values: Vec::new() }
    }
}

/// Decodes the record in `payload` into `reuse_immutable`, which is cleared
/// first and then holds a copy of the payload and the record's values.
///
/// Fails with `Corrupt` where the header or a value is cut short, a serial
/// type is invalid, or a varint of the header crosses the header's end.
pub fn read_record(payload: &[u8], reuse_immutable: &mut ImmutableRecord) -> (r: Result<
    (),
    LimboError,
>)
    ensures
        r is Ok <==> decode_record(payload@) is Some,
        r is Ok ==> final(reuse_immutable).payload@ == payload@ && decode_record(payload@)
            == Some(final(reuse_immutable).values_view()),
{
    reuse_immutable.values = Vec::new();
    reuse_immutable.payload = crate::value::copy_prefix(payload, payload.len());
    assert(payload@.subrange(0, payload@.len() as int) =~= payload@);
    let len = payload.len();
    let (header_size, nr) = read_varint(payload)?;
    proof {
        crate::varint::lemma_varint_decode_bounds(payload@);
    }
    if header_size < nr as u64 {
        return Err(corrupt("record header size too small"));
    }
    let mut pos: usize = nr;
    let mut remaining: u64 = header_size - nr as u64;
    let mut serial_types: SmallVec<SerialType> = SmallVec::new();
    let ghost end = header_size as nat;
    while remaining > 0
        invariant
            len == payload@.len(),
            reuse_immutable.payload@ == payload@,
            pos <= len,
            pos + remaining == end,
            serial_types.wf(),
            serial_types.len <= pos,
            varint_decode(payload@) == Some((end, nr as nat)),
            record_types(payload@) == parse_types_from(
                payload@,
                pos as nat,
                end,
                serial_types.items(),
            ),
        decreases remaining,
    {
        let (serial_type, n) = read_varint(&payload[pos..len])?;
        if n as u64 > remaining {
            return Err(corrupt("record header overruns its size"));
        }
        let serial_type = validate_serial_type(serial_type)?;
        proof {
            crate::varint::lemma_varint_decode_bounds(payload@.subrange(pos as int, len as int));
        }
        serial_types.push(serial_type);
        pos += n;
        remaining -= n as u64;
    }
    let ghost types = serial_types.items();
    assert(reuse_immutable.values_view() =~= Seq::<ValueModel>::empty());
    assert(record_types(payload@) == Some(types));
    let mut i: usize = 0;
    while i < serial_types.len
        invariant
            len == payload@.len(),
            reuse_immutable.payload@ == payload@,
            pos <= len,
            serial_types.wf(),
            types == serial_types.items(),
            i <= types.len(),
            decode_record(payload@) == parse_values_from(
                payload@,
                types,
                i as nat,
                pos as nat,
                reuse_immutable.values_view(),
            ),
        decreases types.len() - i,
    {
        let t = serial_types.get(i);
        let (value, n) = read_value(&payload[pos..len], t)?;
        let ghost before = reuse_immutable.values_view();
        let ghost vm = value@;
        reuse_immutable.values.push(value);
        assert(reuse_immutable.values_view() =~= before.push(vm));
        pos += n;
        i += 1;
    }
    Ok(())
}

/// The serial types of the values `vs`, each as a varint, back to back.
pub open spec fn types_bytes(vs: Seq<ValueModel>) -> Seq<u8>
    decreases vs.len(),
{
    if vs.len() == 0 {
        Seq::empty()
    } else {
        varint_encode(serial_type_for(vs[0])) + types_bytes(vs.drop_first())
    }
}

/// The contents of the values `vs`, back to back.
pub open spec fn body_bytes(vs: Seq<ValueModel>) -> Seq<u8>
    decreases vs.len(),
{
    if vs.len() == 0 {
        Seq::empty()
    } else {
        encode_value(vs[0]) + body_bytes(vs.drop_first())
    }
}

/// The header size, its own varint included, of a header whose serial types
/// take `t` bytes, trying a varint of `k` bytes first and then longer ones.
pub open spec fn header_size_from(t: nat, k: nat) -> nat
    decreases 9 - k,
{
    if k >= 9 || varint_len((t + k) as u64) <= k {
        t + k
    } else {
        header_size_from(t, k + 1)
    }
}

/// The header size of a record whose serial types take `t` bytes.
pub open spec fn record_header_size(t: nat) -> nat {
    header_size_from(t, 1)
}

/// The bytes of the record with values `vs`.
pub open spec fn encode_record(vs: Seq<ValueModel>) -> Seq<u8> {
    varint_encode(record_header_size(types_bytes(vs).len()) as u64) + types_bytes(vs) + body_bytes(
        vs,
    )
}

/// Every value of `vs` can be written.
pub open spec fn values_wf(vs: Seq<ValueModel>) -> bool {
    forall|i: int| 0 <= i < vs.len() ==> value_wf(#[trigger] vs[i])
}

/// The serial types of the values `vs`.
pub open spec fn types_of(vs: Seq<ValueModel>) -> Seq<u64> {
    vs.map_values(|v: ValueModel| serial_type_for(v))
}

proof fn lemma_types_bytes_push(vs: Seq<ValueModel>, v: ValueModel)
    ensures
        types_bytes(vs.push(v)) == types_bytes(vs) + varint_encode(serial_type_for(v)),
    decreases vs.len(),
{
    if vs.len() == 0 {
        assert(vs.push(v).drop_first() =~= Seq::<ValueModel>::empty());
        assert(vs.push(v)[0] == v);
        assert(types_bytes(Seq::<ValueModel>::empty()) == Seq::<u8>::empty());
        assert(types_bytes(vs.push(v)) =~= varint_encode(serial_type_for(v)));
    } else {
        lemma_types_bytes_push(vs.drop_first(), v);
        assert(vs.push(v).drop_first() =~= vs.drop_first().push(v));
        assert(vs.push(v)[0] == vs[0]);
        assert(types_bytes(vs.push(v)) =~= types_bytes(vs) + varint_encode(serial_type_for(v)));
    }
}

proof fn lemma_body_bytes_push(vs: Seq<ValueModel>, v: ValueModel)
    ensures
        body_bytes(vs.push(v)) == body_bytes(vs) + encode_value(v),
    decreases vs.len(),
{
    if vs.len() == 0 {
        assert(vs.push(v).drop_first() =~= Seq::<ValueModel>::empty());
        assert(vs.push(v)[0] == v);
        assert(body_bytes(Seq::<ValueModel>::empty()) == Seq::<u8>::empty());
        assert(body_bytes(vs.push(v)) =~= encode_value(v));
    } else {
        lemma_body_bytes_push(vs.drop_first(), v);
        assert(vs.push(v).drop_first() =~= vs.drop_first().push(v));
        assert(vs.push(v)[0] == vs[0]);
        assert(body_bytes(vs.push(v)) =~= body_bytes(vs) + encode_value(v));
    }
}

/// The header size found from `k` on is `t` plus the length of its own
/// varint.
proof fn lemma_header_size_from(t: nat, k: nat)
    requires
        1 <= k <= 9,
        t + 9 <= u64::MAX,
        k == 1 || varint_len((t + k - 1) as u64) >= k,
    ensures
        header_size_from(t, k) == t + varint_len(header_size_from(t, k) as u64),
    decreases 9 - k,
{
    if k < 9 && varint_len((t + k) as u64) > k {
        lemma_header_size_from(t, k + 1);
    }
}

/// Every value that can be written gets a valid serial type.
proof fn lemma_serial_type_valid(v: ValueModel)
    requires
        value_wf(v),
    ensures
        is_valid_type(serial_type_for(v)),
{
}

/// The serial types written from byte `pos` to byte `end` read back as the
/// serial types of `ws`.
proof fn lemma_parse_types(s: Seq<u8>, pos: nat, end: nat, acc: Seq<u64>, ws: Seq<ValueModel>)
    requires
        pos <= end <= s.len(),
        s.subrange(pos as int, end as int) == types_bytes(ws),
        values_wf(ws),
    ensures
        parse_types_from(s, pos, end, acc) == Some(acc + types_of(ws)),
    decreases ws.len(),
{
    if ws.len() == 0 {
        assert(types_bytes(ws) == Seq::<u8>::empty());
        assert(end == pos);
        assert(acc + types_of(ws) =~= acc);
    } else {
        let t = serial_type_for(ws[0]);
        let e = varint_encode(t);
        lemma_varint_round_trip(t);
        let tail = s.subrange(pos as int, s.len() as int);
        assert(types_bytes(ws) == e + types_bytes(ws.drop_first()));
        assert(tail.subrange(0, e.len() as int) =~= e) by {
            assert(s.subrange(pos as int, end as int).subrange(0, e.len() as int) =~= e);
        }
        lemma_varint_decode_prefix(t, tail);
        lemma_serial_type_valid(ws[0]);
        assert(values_wf(ws.drop_first())) by {
            assert forall|i: int| 0 <= i < ws.drop_first().len() implies value_wf(
                #[trigger] ws.drop_first()[i],
            ) by {
                assert(ws.drop_first()[i] == ws[i + 1]);
            }
        }
        assert(s.subrange((pos + e.len()) as int, end as int) =~= types_bytes(ws.drop_first())) by {
            assert(s.subrange(pos as int, end as int).subrange(
                e.len() as int,
                (end - pos) as int,
            ) =~= types_bytes(ws.drop_first()));
        }
        assert(pos + e.len() <= end);
        assert(varint_decode(tail) == Some((t as nat, e.len())));
        lemma_parse_types(s, pos + e.len(), end, acc.push(t), ws.drop_first());
        assert(parse_types_from(s, pos, end, acc) == parse_types_from(
            s,
            pos + e.len(),
            end,
            acc.push(t),
        ));
        assert(acc.push(t) + types_of(ws.drop_first()) =~= acc + types_of(ws));
    }
}

/// The values written from byte `pos` to the end read back, under their
/// serial types, as `ws`.
proof fn lemma_parse_values(
    s: Seq<u8>,
    types: Seq<u64>,
    i: nat,
    pos: nat,
    acc: Seq<ValueModel>,
    ws: Seq<ValueModel>,
)
    requires
        pos <= s.len(),
        s.subrange(pos as int, s.len() as int) == body_bytes(ws),
        i + ws.len() == types.len(),
        forall|j: int| 0 <= j < ws.len() ==> types[i + j] == serial_type_for(#[trigger] ws[j]),
        values_wf(ws),
    ensures
        parse_values_from(s, types, i, pos, acc) == Some(acc + ws),
    decreases ws.len(),
{
    if ws.len() == 0 {
        assert(acc + ws =~= acc);
    } else {
        let v = ws[0];
        let rest = ws.drop_first();
        assert(body_bytes(ws) == encode_value(v) + body_bytes(rest));
        assert(types[i as int] == serial_type_for(ws[0]));
        lemma_value_round_trip(v, body_bytes(rest));
        let e = encode_value(v);
        assert(s.subrange((pos + e.len()) as int, s.len() as int) =~= body_bytes(rest)) by {
            assert(s.subrange(pos as int, s.len() as int).subrange(
                e.len() as int,
                s.len() - pos,
            ) =~= body_bytes(rest));
        }
        assert(values_wf(rest)) by {
            assert forall|j: int| 0 <= j < rest.len() implies value_wf(#[trigger] rest[j]) by {
                assert(rest[j] == ws[j + 1]);
            }
        }
        assert forall|j: int| 0 <= j < rest.len() implies types[(i + 1) + j] == serial_type_for(
            #[trigger] rest[j],
        ) by {
            assert(rest[j] == ws[j + 1]);
            assert(types[i + (j + 1)] == serial_type_for(ws[j + 1]));
        }
        lemma_parse_values(s, types, i + 1, pos + e.len(), acc.push(v), rest);
        assert(acc.push(v) + rest =~= acc + ws);
    }
}

/// Decoding the bytes of a record gives back its values.
pub proof fn lemma_record_round_trip(vs: Seq<ValueModel>)
    requires
        values_wf(vs),
        types_bytes(vs).len() + 9 <= u64::MAX,
    ensures
        decode_record(encode_record(vs)) == Some(vs),
{
    let t = types_bytes(vs);
    let b = body_bytes(vs);
    let h = record_header_size(t.len());
    lemma_header_size_from(t.len(), 1);
    let k = varint_len(h as u64);
    let hv = varint_encode(h as u64);
    let enc = encode_record(vs);
    lemma_varint_round_trip(h as u64);
    assert(enc.subrange(0, k as int) =~= hv);
    lemma_varint_decode_prefix(h as u64, enc);
    assert(enc.subrange(k as int, h as int) =~= t);
    lemma_parse_types(enc, k, h, Seq::empty(), vs);
    assert(Seq::<u64>::empty() + types_of(vs) =~= types_of(vs));
    assert(enc.subrange(h as int, enc.len() as int) =~= b);
    lemma_parse_values(enc, types_of(vs), 0, h, Seq::empty(), vs);
    assert(Seq::<ValueModel>::empty() + vs =~= vs);
}

/// The bytes of the record with the given values: the header size, the
/// serial types, then the contents of the values.
pub fn serialize_record(values: &Vec<Value>) -> (r: Vec<u8>)
    requires
        values_wf(values@.map_values(|v: Value| v@)),
        values@.len() <= 0x1_0000_0000_0000,
    ensures
        r@ == encode_record(values@.map_values(|v: Value| v@)),
{
    let ghost vs = values@.map_values(|v: Value| v@);
    let mut types: Vec<u8> = Vec::new();
    let mut body: Vec<u8> = Vec::new();
    let mut i: usize = 0;
    while i < values.len()
        invariant
            vs == values@.map_values(|v: Value| v@),
            values_wf(vs),
            values@.len() <= 0x1_0000_0000_0000,
            i <= values@.len(),
            types@ == types_bytes(vs.subrange(0, i as int)),
            body@ == body_bytes(vs.subrange(0, i as int)),
            types@.len() <= 9 * i,
        decreases values@.len() - i,
    {
        let v = &values[i];
        assert(vs[i as int] == v@);
        assert(value_wf(vs[i as int]));
        let t = serial_type_of(v);
        proof {
            lemma_varint_round_trip(t);
            lemma_types_bytes_push(vs.subrange(0, i as int), v@);
            lemma_body_bytes_push(vs.subrange(0, i as int), v@);
            assert(vs.subrange(0, i + 1) =~= vs.subrange(0, i as int).push(v@));
        }
        write_varint_to_vec(t, &mut types);
        write_value(v, &mut body);
        i += 1;
    }
    assert(vs.subrange(0, values@.len() as int) =~= vs);
    let t = types.len() as u64;
    let mut k: u64 = 1;
    while k < 9 && varint_size(t + k) as u64 > k
        invariant
            1 <= k <= 9,
            t + 9 <= u64::MAX,
            header_size_from(t as nat, 1) == header_size_from(t as nat, k as nat),
        decreases 9 - k,
    {
        k += 1;
    }
    let header_size = t + k;
    let mut out: Vec<u8> = Vec::new();
    write_varint_to_vec(header_size, &mut out);
    push_bytes(&mut out, types.as_slice());
    push_bytes(&mut out, body.as_slice());
    assert(out@ =~= encode_record(vs));
    out
}

} // verus!
