//! The per-block metadata envelope: a length-prefixed, self-describing
//! little-endian record of the flight, service, buffer and schema ids,
//! partition fields, timestamp, serialization tag and flags.
//!
//! Layout: body length (u32), then the body: version (u8, = 1),
//! serialization (u8), flags (u8), reserved (u8), buffer_id (u64),
//! schema_id (u64), timestamp_micros (u64), flight (str), service_id (str),
//! partition field count (u16) and each partition field (str); where a str
//! is its UTF-8 length (u16) followed by its UTF-8 bytes.
use vstd::bytes::*;
use vstd::prelude::*;
use vstd::utf8::{
    decode_utf8, encode_utf8, encode_utf8_decode_utf8, encode_utf8_valid_utf8, valid_utf8,
};

use crate::batch::Metadata;

verus! {

pub const ENVELOPE_VERSION: u8 = 1;

/// Serialization tag of an Arrow IPC stream payload.
pub const SERIALIZATION_ARROW: u8 = 1;

/// Flag bit: the payload carries dictionaries.
pub const FLAG_HAS_DICTIONARY: u8 = 1;

#[derive(Debug, Clone)]
pub struct MetadataEnvelope {
    pub flight: String,
    pub service_id: String,
    pub buffer_id: u64,
    pub schema_id: u64,
    pub partition_fields: Vec<String>,
    pub timestamp_micros: u64,
    pub serialization: u8,
    pub flags: u8,
    pub reserved: u8,
}

pub struct EnvelopeView {
    pub flight: Seq<char>,
    pub service_id: Seq<char>,
    pub buffer_id: u64,
    pub schema_id: u64,
    pub partition_fields: Seq<Seq<char>>,
    pub timestamp_micros: u64,
    pub serialization: u8,
    pub flags: u8,
    pub reserved: u8,
}

impl View for MetadataEnvelope {
    type V = EnvelopeView;

    open spec fn view(&self) -> EnvelopeView {
        EnvelopeView {
            flight: self.flight@,
            service_id: self.service_id@,
            buffer_id: self.buffer_id,
            schema_id: self.schema_id,
            partition_fields: self.partition_fields@.map_values(|s: String| s@),
            timestamp_micros: self.timestamp_micros,
            serialization: self.serialization,
            flags: self.flags,
            reserved: self.reserved,
        }
    }
}

impl MetadataEnvelope {
    /// The envelope of a batch of `metadata`: an Arrow payload, no partition
    /// fields, and the dictionary flag as given.
    pub fn for_batch(
        metadata: &Metadata,
        schema_id: u64,
        timestamp_micros: u64,
        has_dictionary: bool,
    ) -> (r: Self)
        ensures
            r@.flight == metadata.flight@,
            r@.service_id == metadata.service_id@,
            r@.buffer_id == metadata.buffer_id,
            r@.schema_id == schema_id,
            r@.partition_fields.len() == 0,
            r@.timestamp_micros == timestamp_micros,
            r@.serialization == SERIALIZATION_ARROW,
            r@.flags == if has_dictionary {
                FLAG_HAS_DICTIONARY
            } else {
                0u8
            },
            r@.reserved == 0,
    {
        let r = MetadataEnvelope {
            flight: metadata.flight.clone(),
            service_id: metadata.service_id.clone(),
            buffer_id: metadata.buffer_id,
            schema_id,
            partition_fields: Vec::new(),
            timestamp_micros,
            serialization: SERIALIZATION_ARROW,
            flags: if has_dictionary {
                FLAG_HAS_DICTIONARY
            } else {
                0
            },
            reserved: 0,
        };
        assert(r@.partition_fields =~= Seq::<Seq<char>>::empty());
        r
    }
}

#[derive(Debug, Clone, Copy, PartialEq, Eq, Structural)]
pub enum EnvelopeError {
    /// A string or the partition list is too long for its 16-bit length, or
    /// the body for its 32-bit length.
    TooLong,
    /// The bytes are not an envelope.
    Malformed,
}

/// A string: its UTF-8 length, then its UTF-8 bytes.
pub open spec fn str_bytes(s: Seq<char>) -> Seq<u8> {
    spec_u16_to_le_bytes(encode_utf8(s).len() as u16) + encode_utf8(s)
}

pub open spec fn strs_bytes(v: Seq<Seq<char>>) -> Seq<u8>
    decreases v.len(),
{
    if v.len() == 0 {
        Seq::empty()
    } else {
        strs_bytes(v.drop_last()) + str_bytes(v.last())
    }
}

pub open spec fn body_bytes(e: EnvelopeView) -> Seq<u8> {
    seq![ENVELOPE_VERSION, e.serialization, e.flags, e.reserved] + spec_u64_to_le_bytes(
        e.buffer_id,
    ) + spec_u64_to_le_bytes(e.schema_id) + spec_u64_to_le_bytes(e.timestamp_micros) + str_bytes(
        e.flight,
    ) + str_bytes(e.service_id) + spec_u16_to_le_bytes(e.partition_fields.len() as u16)
        + strs_bytes(e.partition_fields)
}

/// The bytes of envelope `e`.
pub open spec fn envelope_bytes(e: EnvelopeView) -> Seq<u8> {
    spec_u32_to_le_bytes(body_bytes(e).len() as u32) + body_bytes(e)
}

pub open spec fn str_fits(s: Seq<char>) -> bool {
    encode_utf8(s).len() <= 0xffff
}

/// Whether every length in `e` fits its field.
pub open spec fn envelope_encodable(e: EnvelopeView) -> bool {
    &&& str_fits(e.flight)
    &&& str_fits(e.service_id)
    &&& e.partition_fields.len() <= 0xffff
    &&& forall|i: int| 0 <= i < e.partition_fields.len() ==> str_fits(#[trigger] e.partition_fields[i])
    &&& body_bytes(e).len() <= u32::MAX
}

/// Relies on `String::from_utf8`: the string when the bytes are valid UTF-8,
/// an error otherwise.
#[verifier::external_body]
fn string_from_utf8(b: &[u8]) -> (r: Option<String>)
    ensures
        r is Some <==> valid_utf8(b@),
        r matches Some(s) ==> s@ == decode_utf8(b@),
{
    String::from_utf8(b.to_vec()).ok()
}

fn push_str(out: &mut Vec<u8>, s: &String) -> (r: bool)
    ensures
        r == str_fits(s@),
        r ==> final(out)@ == old(out)@ + str_bytes(s@),
        !r ==> final(out)@ == old(out)@,
{
    let b = s.as_str().as_bytes();
    if b.len() > 0xffff {
        return false;
    }
    out.append(&mut u16_to_le_bytes(b.len() as u16));
    out.extend_from_slice(b);
    assert(out@ =~= old(out)@ + str_bytes(s@));
    true
}

/// Encodes `e`; fails when a length does not fit its field.
pub fn encode_envelope(e: &MetadataEnvelope) -> (r: Result<Vec<u8>, EnvelopeError>)
    ensures
        r is Ok <==> envelope_encodable(e@),
        r matches Ok(b) ==> b@ == envelope_bytes(e@),
        r matches Err(x) ==> x == EnvelopeError::TooLong,
{
    let mut body: Vec<u8> = Vec::new();
    body.push(ENVELOPE_VERSION);
    body.push(e.serialization);
    body.push(e.flags);
    body.push(e.reserved);
    body.append(&mut u64_to_le_bytes(e.buffer_id));
    body.append(&mut u64_to_le_bytes(e.schema_id));
    body.append(&mut u64_to_le_bytes(e.timestamp_micros));
    if !push_str(&mut body, &e.flight) {
        return Err(EnvelopeError::TooLong);
    }
    if !push_str(&mut body, &e.service_id) {
        return Err(EnvelopeError::TooLong);
    }
    let n = e.partition_fields.len();
    if n > 0xffff {
        return Err(EnvelopeError::TooLong);
    }
    body.append(&mut u16_to_le_bytes(n as u16));
    let ghost fixed = body@;
    let ghost fields = e@.partition_fields;
    let mut i: usize = 0;
    assert(fields.take(0) =~= Seq::<Seq<char>>::empty());
    while i < n
        invariant
            n == e.partition_fields@.len(),
            fields == e@.partition_fields,
            0 <= i <= n,
            body@ == fixed + strs_bytes(fields.take(i as int)),
            forall|j: int| 0 <= j < i ==> str_fits(#[trigger] fields[j]),
        decreases n - i,
    {
        assert(fields[i as int] == e.partition_fields@[i as int]@);
        if !push_str(&mut body, &e.partition_fields[i]) {
            return Err(EnvelopeError::TooLong);
        }
        assert(fields.take(i + 1).drop_last() =~= fields.take(i as int));
        i = i + 1;
    }
    assert(fields.take(n as int) =~= fields);
    assert(body@ =~= body_bytes(e@));
    if body.len() > 0xffff_ffff {
        return Err(EnvelopeError::TooLong);
    }
    let mut out = u32_to_le_bytes(body.len() as u32);
    out.append(&mut body);
    Ok(out)
}

/// Reads a string at `pos` of `b`: the text and the position after it.
fn read_str(b: &[u8], pos: usize) -> (r: Option<(String, usize)>)
    requires
        pos <= b@.len(),
    ensures
        r matches Some((s, next)) ==> pos <= next <= b@.len() && b@.subrange(pos as int, next as int)
            == str_bytes(s@) && str_fits(s@),
        forall|x: Seq<char>|
            #![trigger str_bytes(x)]
            str_fits(x) && pos + str_bytes(x).len() <= b@.len() && b@.subrange(
                pos as int,
                pos + str_bytes(x).len(),
            ) == str_bytes(x) ==> r is Some && r->Some_0.0@ == x && r->Some_0.1 == pos
                + str_bytes(x).len(),
{
    proof {
        lemma_auto_spec_u16_to_from_le_bytes();
    }
    let len = b.len();
    if len - pos < 2 {
        proof {
            assert forall|x: Seq<char>| #![trigger str_bytes(x)] str_fits(x) implies !(pos
                + str_bytes(x).len() <= b@.len()) by {}
        }
        return None;
    }
    let n = u16_from_le_bytes(&b[pos..pos + 2]) as usize;
    if len - pos - 2 < n {
        proof {
            assert forall|x: Seq<char>|
                #![trigger str_bytes(x)]
                str_fits(x) && pos + str_bytes(x).len() <= b@.len() implies b@.subrange(
                pos as int,
                pos + str_bytes(x).len(),
            ) != str_bytes(x) by {
                if b@.subrange(pos as int, pos + str_bytes(x).len()) == str_bytes(x) {
                    assert(b@.subrange(pos as int, pos + 2) =~= str_bytes(x).subrange(0, 2));
                    assert(str_bytes(x).subrange(0, 2) =~= spec_u16_to_le_bytes(
                        encode_utf8(x).len() as u16,
                    ));
                }
            }
        }
        return None;
    }
    let text = &b[pos + 2..pos + 2 + n];
    match string_from_utf8(text) {
        None => {
            proof {
                assert forall|x: Seq<char>|
                    #![trigger str_bytes(x)]
                    str_fits(x) && pos + str_bytes(x).len() <= b@.len() implies b@.subrange(
                    pos as int,
                    pos + str_bytes(x).len(),
                ) != str_bytes(x) by {
                    if b@.subrange(pos as int, pos + str_bytes(x).len()) == str_bytes(x) {
                        assert(b@.subrange(pos as int, pos + 2) =~= str_bytes(x).subrange(0, 2));
                        assert(str_bytes(x).subrange(0, 2) =~= spec_u16_to_le_bytes(
                            encode_utf8(x).len() as u16,
                        ));
                        assert(n == encode_utf8(x).len());
                    assert(str_bytes(x).subrange(2, 2 + n as int) =~= encode_utf8(x));
                    assert(b@.subrange(pos + 2, pos + 2 + n) =~= b@.subrange(
                        pos as int,
                        pos + str_bytes(x).len(),
                    ).subrange(2, 2 + n as int));
                    assert(text@ =~= encode_utf8(x));
                        encode_utf8_valid_utf8(x);
                    }
                }
            }
            None
        },
        Some(s) => {
            proof {
                vstd::utf8::decode_utf8_encode_utf8(text@);
                assert(b@.subrange(pos as int, pos + 2 + n) =~= b@.subrange(pos as int, pos + 2)
                    + text@);
                assert(spec_u16_to_le_bytes(spec_u16_from_le_bytes(b@.subrange(pos as int, pos + 2)))
                    == b@.subrange(pos as int, pos + 2));
                assert forall|x: Seq<char>|
                    #![trigger str_bytes(x)]
                    str_fits(x) && pos + str_bytes(x).len() <= b@.len() && b@.subrange(
                        pos as int,
                        pos + str_bytes(x).len(),
                    ) == str_bytes(x) implies s@ == x && pos + 2 + n == pos + str_bytes(x).len() by {
                    assert(b@.subrange(pos as int, pos + 2) =~= str_bytes(x).subrange(0, 2));
                    assert(str_bytes(x).subrange(0, 2) =~= spec_u16_to_le_bytes(
                        encode_utf8(x).len() as u16,
                    ));
                    assert(n == encode_utf8(x).len());
                    assert(str_bytes(x).subrange(2, 2 + n as int) =~= encode_utf8(x));
                    assert(b@.subrange(pos + 2, pos + 2 + n) =~= b@.subrange(
                        pos as int,
                        pos + str_bytes(x).len(),
                    ).subrange(2, 2 + n as int));
                    assert(text@ =~= encode_utf8(x));
                    encode_utf8_decode_utf8(x);
                }
            }
            Some((s, pos + 2 + n))
        },
    }
}

proof fn lemma_strs_prefix(v: Seq<Seq<char>>, k: int)
    requires
        0 <= k <= v.len(),
    ensures
        strs_bytes(v.take(k)).len() <= strs_bytes(v).len(),
        strs_bytes(v).subrange(0, strs_bytes(v.take(k)).len() as int) == strs_bytes(v.take(k)),
    decreases v.len(),
{
    if k == v.len() {
        assert(v.take(k) =~= v);
    } else {
        let p = v.drop_last();
        assert(v.take(k) =~= p.take(k));
        lemma_strs_prefix(p, k);
        assert(strs_bytes(v).subrange(0, strs_bytes(p.take(k)).len() as int) =~= strs_bytes(
            p,
        ).subrange(0, strs_bytes(p.take(k)).len() as int));
    }
}

proof fn lemma_strs_step(v: Seq<Seq<char>>, i: int)
    requires
        0 <= i < v.len(),
    ensures
        strs_bytes(v.take(i + 1)) == strs_bytes(v.take(i)) + str_bytes(v[i]),
{
    assert(v.take(i + 1).drop_last() =~= v.take(i));
}

/// The fixed-width start of the body of `e`.
pub open spec fn fixed_bytes(e: EnvelopeView) -> Seq<u8> {
    seq![ENVELOPE_VERSION, e.serialization, e.flags, e.reserved] + spec_u64_to_le_bytes(
        e.buffer_id,
    ) + spec_u64_to_le_bytes(e.schema_id) + spec_u64_to_le_bytes(e.timestamp_micros)
}

#[verifier::rlimit(100)]
/// Decodes an envelope: succeeds exactly on the bytes of an encodable envelope.
pub fn decode_envelope(bytes: &[u8]) -> (r: Result<MetadataEnvelope, EnvelopeError>)
    ensures
        r matches Ok(e) ==> envelope_bytes(e@) == bytes@ && envelope_encodable(e@),
        (exists|v: EnvelopeView| envelope_encodable(v) && envelope_bytes(v) == bytes@) ==> r is Ok,
        r matches Err(x) ==> x == EnvelopeError::Malformed,
{
    proof {
        lemma_auto_spec_u16_to_from_le_bytes();
        lemma_auto_spec_u32_to_from_le_bytes();
        lemma_auto_spec_u64_to_from_le_bytes();
    }
    let ghost has = exists|v: EnvelopeView| envelope_encodable(v) && envelope_bytes(v) == bytes@;
    let ghost v: EnvelopeView = if has {
        choose|v: EnvelopeView| envelope_encodable(v) && envelope_bytes(v) == bytes@
    } else {
        arbitrary()
    };
    let ghost bv = body_bytes(v);
    let ghost fv = fixed_bytes(v);
    let ghost av = fv + str_bytes(v.flight);
    let ghost sv = av + str_bytes(v.service_id);
    let ghost cv = sv + spec_u16_to_le_bytes(v.partition_fields.len() as u16);
    proof {
        assert(bv =~= cv + strs_bytes(v.partition_fields));
        assert(fv.len() == 28);
    }
    let n = bytes.len();
    if n < 4 {
        return Err(EnvelopeError::Malformed);
    }
    let blen = u32_from_le_bytes(&bytes[0..4]) as usize;
    proof {
        if has {
            assert(bytes@.subrange(0, 4) =~= spec_u32_to_le_bytes(bv.len() as u32));
        }
    }
    if blen != n - 4 {
        return Err(EnvelopeError::Malformed);
    }
    let body = &bytes[4..n];
    proof {
        if has {
            assert(body@ =~= bv);
        }
    }
    if body.len() < 28 || body[0] != ENVELOPE_VERSION {
        return Err(EnvelopeError::Malformed);
    }
    let serialization = body[1];
    let flags = body[2];
    let reserved = body[3];
    let buffer_id = u64_from_le_bytes(&body[4..12]);
    let schema_id = u64_from_le_bytes(&body[12..20]);
    let timestamp_micros = u64_from_le_bytes(&body[20..28]);
    proof {
        if has {
            assert(body@.subrange(4, 12) =~= spec_u64_to_le_bytes(v.buffer_id));
            assert(body@.subrange(12, 20) =~= spec_u64_to_le_bytes(v.schema_id));
            assert(body@.subrange(20, 28) =~= spec_u64_to_le_bytes(v.timestamp_micros));
            assert(body@.subrange(28, av.len() as int) =~= str_bytes(v.flight));
        }
    }
    let (flight, after_flight) = match read_str(body, 28) {
        Some(x) => x,
        None => {
            return Err(EnvelopeError::Malformed);
        },
    };
    proof {
        if has {
            assert(body@.subrange(after_flight as int, sv.len() as int) =~= str_bytes(v.service_id));
        }
    }
    let (service_id, after_service) = match read_str(body, after_flight) {
        Some(x) => x,
        None => {
            return Err(EnvelopeError::Malformed);
        },
    };
    if body.len() - after_service < 2 {
        return Err(EnvelopeError::Malformed);
    }
    let count = u16_from_le_bytes(&body[after_service..after_service + 2]) as usize;
    proof {
        if has {
            assert(body@.subrange(after_service as int, after_service + 2) =~= spec_u16_to_le_bytes(
                v.partition_fields.len() as u16,
            ));
        }
    }
    let ghost head = fixed_bytes(
        EnvelopeView {
            flight: flight@,
            service_id: service_id@,
            buffer_id,
            schema_id,
            partition_fields: Seq::empty(),
            timestamp_micros,
            serialization,
            flags,
            reserved,
        },
    ) + str_bytes(flight@) + str_bytes(service_id@) + spec_u16_to_le_bytes(count as u16);
    proof {
        assert(body@.subrange(0, after_service + 2) =~= head) by {
            assert(body@.subrange(0, 28) =~= fixed_bytes(
                EnvelopeView {
                    flight: flight@,
                    service_id: service_id@,
                    buffer_id,
                    schema_id,
                    partition_fields: Seq::empty(),
                    timestamp_micros,
                    serialization,
                    flags,
                    reserved,
                },
            ));
            assert(body@.subrange(0, after_service + 2) =~= body@.subrange(0, 28) + body@.subrange(28, after_flight as int)
                + body@.subrange(after_flight as int, after_service as int) + body@.subrange(after_service as int, after_service + 2));
        }
    }
    let mut pos: usize = after_service + 2;
    let mut fields: Vec<String> = Vec::new();
    let mut i: usize = 0;
    proof {
        assert(fields@.map_values(|s: String| s@) =~= Seq::<Seq<char>>::empty());
        assert(v.partition_fields.take(0) =~= Seq::<Seq<char>>::empty());
    }
    while i < count
        invariant
            0 <= i <= count,
            count <= 0xffff,
            pos <= body@.len(),
            body@.subrange(0, pos as int) == head + strs_bytes(fields@.map_values(|s: String| s@)),
            fields@.len() == i,
            forall|j: int| 0 <= j < i ==> str_fits(#[trigger] fields@[j]@),
            has == (exists|w: EnvelopeView| envelope_encodable(w) && envelope_bytes(w) == bytes@),
            has ==> body@ == bv,
            has ==> envelope_encodable(v) && envelope_bytes(v) == bytes@,
            has ==> count == v.partition_fields.len(),
            has ==> pos == cv.len() + strs_bytes(v.partition_fields.take(i as int)).len(),
            has ==> fields@.map_values(|s: String| s@) == v.partition_fields.take(i as int),
            bv == cv + strs_bytes(v.partition_fields),
        decreases count - i,
    {
        proof {
            if has {
                lemma_strs_prefix(v.partition_fields, i + 1);
                lemma_strs_step(v.partition_fields, i as int);
                let a = strs_bytes(v.partition_fields.take(i as int));
                let x = v.partition_fields[i as int];
                let sx = str_bytes(x);
                let all = strs_bytes(v.partition_fields);
                assert(all.subrange(0, (a + sx).len() as int) == a + sx);
                assert(body@.subrange(pos as int, pos + sx.len()) =~= all.subrange(
                    a.len() as int,
                    (a + sx).len() as int,
                ));
                assert(all.subrange(a.len() as int, (a + sx).len() as int) =~= (a + sx).subrange(
                    a.len() as int,
                    (a + sx).len() as int,
                ));
                assert((a + sx).subrange(a.len() as int, (a + sx).len() as int) =~= sx);
                assert(envelope_encodable(v));
                assert(str_fits(v.partition_fields[i as int]));
                assert(pos + sx.len() <= body@.len());
                assert(body@.subrange(pos as int, pos + sx.len()) == sx);
            }
        }
        let ghost want = v.partition_fields[i as int];
        let got = read_str(body, pos);
        proof {
            if has {
                assert(str_fits(want) && pos + str_bytes(want).len() <= body@.len()
                    && body@.subrange(pos as int, pos + str_bytes(want).len()) == str_bytes(want));
                assert(got is Some && got->Some_0.0@ == want);
            }
        }
        let (f, next) = match got {
            Some(x) => x,
            None => {
                return Err(EnvelopeError::Malformed);
            },
        };
        let ghost before = fields@;
        let ghost prev = pos;
        fields.push(f);
        proof {
            assert(fields@.map_values(|s: String| s@) =~= before.map_values(|s: String| s@).push(
                f@,
            ));
            assert(strs_bytes(fields@.map_values(|s: String| s@)) =~= strs_bytes(
                before.map_values(|s: String| s@),
            ) + str_bytes(f@)) by {
                assert(fields@.map_values(|s: String| s@).drop_last() =~= before.map_values(
                    |s: String| s@,
                ));
            }
            assert(body@.subrange(0, next as int) =~= body@.subrange(0, prev as int)
                + body@.subrange(prev as int, next as int));
            if has {
                lemma_strs_step(v.partition_fields, i as int);
                assert(v.partition_fields.take(i + 1) =~= v.partition_fields.take(i as int).push(
                    v.partition_fields[i as int],
                ));
            }
        }
        pos = next;
        i = i + 1;
    }
    proof {
        if has {
            assert(v.partition_fields.take(count as int) =~= v.partition_fields);
        }
    }
    if pos != body.len() {
        return Err(EnvelopeError::Malformed);
    }
    let e = MetadataEnvelope {
        flight,
        service_id,
        buffer_id,
        schema_id,
        partition_fields: fields,
        timestamp_micros,
        serialization,
        flags,
        reserved,
    };
    proof {
        assert(e@.partition_fields.len() == count);
        assert(body@ =~= body@.subrange(0, pos as int));
        assert(body@ =~= body_bytes(e@));
        assert(bytes@ =~= bytes@.subrange(0, 4) + body@);
        assert(bytes@ =~= envelope_bytes(e@));
        assert(forall|j: int| 0 <= j < e@.partition_fields.len() ==> str_fits(
            #[trigger] e@.partition_fields[j],
        ));
    }
    Ok(e)
}

} // verus!
