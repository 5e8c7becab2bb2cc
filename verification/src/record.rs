//! Binary record codec: a tagged record is a fixed 8-byte little-endian
//! header (type, length, reserved) followed by its payload bytes.

use vstd::prelude::*;

use crate::errors::EraError;
use crate::rlp::pow256;

verus! {

/// Little-endian byte string of an integer, `width` bytes wide.
pub open spec fn le_bytes(n: nat, width: nat) -> Seq<u8>
    decreases width,
{
    if width == 0 {
        Seq::empty()
    } else {
        seq![(n % 256) as u8] + le_bytes(n / 256, (width - 1) as nat)
    }
}

/// Value of a little-endian byte string.
pub open spec fn le_decode(s: Seq<u8>) -> nat
    decreases s.len(),
{
    if s.len() == 0 {
        0
    } else {
        (s[0] + 256 * le_decode(s.subrange(1, s.len() as int))) as nat
    }
}

pub proof fn lemma_le_bytes_len(n: nat, width: nat)
    ensures
        le_bytes(n, width).len() == width,
    decreases width,
{
    if width > 0 {
        lemma_le_bytes_len(n / 256, (width - 1) as nat);
    }
}

pub proof fn lemma_le_roundtrip(n: nat, width: nat)
    requires
        n < pow256(width),
    ensures
        le_decode(le_bytes(n, width)) == n,
    decreases width,
{
    if width == 0 {
        assert(n == 0);
    } else {
        let p = pow256((width - 1) as nat);
        assert(n < 256 * p);
        assert(n / 256 < p) by (nonlinear_arith)
            requires n < 256 * p,
        ;
        lemma_le_roundtrip(n / 256, (width - 1) as nat);
        let s = le_bytes(n, width);
        assert(s.subrange(1, s.len() as int) =~= le_bytes(n / 256, (width - 1) as nat));
    }
}

pub proof fn lemma_le_decode_bound(s: Seq<u8>)
    ensures
        le_decode(s) < pow256(s.len()),
    decreases s.len(),
{
    if s.len() > 0 {
        let tail = s.subrange(1, s.len() as int);
        lemma_le_decode_bound(tail);
        let p = pow256(tail.len());
        assert(le_decode(s) == s[0] + 256 * le_decode(tail));
        assert(s[0] + 256 * le_decode(tail) < 256 * p) by (nonlinear_arith)
            requires s[0] < 256 && le_decode(tail) < p,
        ;
    }
}

/// Little-endian encoding of an integer, `width` bytes wide; values too
/// large for the width lose their high bytes, so callers bound them first.
pub fn encode_le(n: u64, width: usize) -> (r: Vec<u8>)
    ensures
        r@ == le_bytes(n as nat, width as nat),
    decreases width,
{
    if width == 0 {
        Vec::new()
    } else {
        let mut r: Vec<u8> = Vec::new();
        r.push((n % 256) as u8);
        let mut rest = encode_le(n / 256, width - 1);
        r.append(&mut rest);
        assert(r@ =~= le_bytes(n as nat, width as nat));
        r
    }
}

/// Reads a `width`-byte little-endian value, `width` at most eight.
pub fn decode_le(data: &[u8], pos: usize, width: usize) -> (r: u64)
    requires
        width <= 8,
        pos + width <= data@.len(),
        data@.len() <= usize::MAX,
    ensures
        r as nat == le_decode(data@.subrange(pos as int, pos + width)),
{
    let ghost whole = data@.subrange(pos as int, pos + width);
    let mut acc: u64 = 0;
    let mut i: usize = width;
    proof {
        assert(whole.subrange(i as int, width as int) =~= Seq::<u8>::empty());
    }
    while i > 0
        invariant
            0 <= i <= width <= 8,
            pos + width <= data@.len(),
            data@.len() <= usize::MAX,
            whole == data@.subrange(pos as int, pos + width),
            acc as nat == le_decode(whole.subrange(i as int, width as int)),
            acc < pow256((width - i) as nat),
        decreases i,
    {
        proof {
            assert(pow256((width - i + 1) as nat) == 256 * pow256((width - i) as nat));
            lemma_pow256_le((width - i + 1) as nat, 8);
        }
        let b = data[pos + i - 1];
        acc = (b as u64) + 256 * acc;
        i -= 1;
        proof {
            let cur = whole.subrange(i as int, width as int);
            assert(cur[0] == b);
            assert(cur.subrange(1, cur.len() as int)
                =~= whole.subrange(i + 1, width as int));
        }
    }
    proof {
        assert(whole.subrange(0, width as int) =~= whole);
    }
    acc
}

proof fn lemma_pow256_le(j: nat, k: nat)
    requires
        j <= k,
    ensures
        pow256(j) <= pow256(k),
        pow256(8) == 0x1_0000_0000_0000_0000,
    decreases k,
{
    assert(pow256(8) == 0x1_0000_0000_0000_0000) by {
        reveal_with_fuel(pow256, 9);
    }
    if j < k {
        lemma_pow256_le(j, (k - 1) as nat);
        assert(pow256(k) == 256 * pow256((k - 1) as nat));
    }
}

/// The tags of the record enumeration.
#[derive(Clone, Copy, Debug, PartialEq, Eq, Structural)]
pub enum E2StoreType {
    CompressedHeader,
    CompressedBody,
    CompressedReceipts,
    TotalDifficulty,
    Accumulator,
    Version,
    BlockIndex,
}

/// The 16-bit tag value of each record type.
pub open spec fn tag_of(t: E2StoreType) -> u16 {
    match t {
        E2StoreType::CompressedHeader => 0x03,
        E2StoreType::CompressedBody => 0x04,
        E2StoreType::CompressedReceipts => 0x05,
        E2StoreType::TotalDifficulty => 0x06,
        E2StoreType::Accumulator => 0x07,
        E2StoreType::Version => 0x3265,
        E2StoreType::BlockIndex => 0x3266,
    }
}

/// The record type a 16-bit tag denotes, if any.
pub open spec fn type_of_tag(tag: nat) -> Option<E2StoreType> {
    if tag == 0x03 {
        Some(E2StoreType::CompressedHeader)
    } else if tag == 0x04 {
        Some(E2StoreType::CompressedBody)
    } else if tag == 0x05 {
        Some(E2StoreType::CompressedReceipts)
    } else if tag == 0x06 {
        Some(E2StoreType::TotalDifficulty)
    } else if tag == 0x07 {
        Some(E2StoreType::Accumulator)
    } else if tag == 0x3265 {
        Some(E2StoreType::Version)
    } else if tag == 0x3266 {
        Some(E2StoreType::BlockIndex)
    } else {
        None
    }
}

pub proof fn lemma_tag_inverse(t: E2StoreType)
    ensures
        type_of_tag(tag_of(t) as nat) == Some(t),
{
}

/// A single tagged record: type, payload length, reserved bits (always
/// zero when written), payload.
pub struct E2Store {
    pub type_: E2StoreType,
    pub length: u32,
    pub reserved: u16,
    pub data: Vec<u8>,
}

/// The serialized bytes of a record with the given fields.
pub open spec fn record_bytes(t: E2StoreType, length: nat, reserved: nat, data: Seq<u8>) -> Seq<
    u8,
> {
    le_bytes(tag_of(t) as nat, 2) + le_bytes(length, 4) + le_bytes(reserved, 2) + data
}

/// The serialized bytes of a well-formed record holding `data`.
pub open spec fn record_enc(t: E2StoreType, data: Seq<u8>) -> Seq<u8> {
    record_bytes(t, data.len(), 0, data)
}

impl E2Store {
    /// A record is well formed when its length field counts its payload
    /// bytes and its reserved bits are zero.
    pub open spec fn wf(self) -> bool {
        &&& self.length == self.data@.len()
        &&& self.reserved == 0
    }

    /// Serializes the record: 2-byte tag, 4-byte length, 2-byte reserved,
    /// then the payload, all little-endian, with no padding or checksum.
    pub fn into_bytes(self) -> (r: Vec<u8>)
        ensures
            r@ == record_bytes(
                self.type_,
                self.length as nat,
                self.reserved as nat,
                self.data@,
            ),
            self.wf() ==> r@ == record_enc(self.type_, self.data@),
    {
        let tag: u16 = match self.type_ {
            E2StoreType::CompressedHeader => 0x03,
            E2StoreType::CompressedBody => 0x04,
            E2StoreType::CompressedReceipts => 0x05,
            E2StoreType::TotalDifficulty => 0x06,
            E2StoreType::Accumulator => 0x07,
            E2StoreType::Version => 0x3265,
            E2StoreType::BlockIndex => 0x3266,
        };
        let mut out = encode_le(tag as u64, 2);
        let mut length_bytes = encode_le(self.length as u64, 4);
        out.append(&mut length_bytes);
        let mut reserved_bytes = encode_le(self.reserved as u64, 2);
        out.append(&mut reserved_bytes);
        let mut data = self.data;
        out.append(&mut data);
        out
    }
}

/// The serialized length of a well-formed record: the 8-byte header plus
/// the payload.
pub proof fn lemma_record_enc_len(t: E2StoreType, data: Seq<u8>)
    ensures
        record_enc(t, data).len() == 8 + data.len(),
{
    lemma_le_bytes_len(tag_of(t) as nat, 2);
    lemma_le_bytes_len(data.len(), 4);
    lemma_le_bytes_len(0, 2);
}

/// Reading one record out of a byte stream at a position: the type, the
/// reserved bits, the payload, and the position just past the record.
pub open spec fn parse_record(s: Seq<u8>, pos: int) -> Result<
    (E2StoreType, nat, Seq<u8>, int),
    EraError,
> {
    if pos + 8 > s.len() {
        Err(EraError::TruncatedRecord)
    } else {
        let tag = le_decode(s.subrange(pos, pos + 2));
        match type_of_tag(tag) {
            None => Err(EraError::UnknownRecordType),
            Some(t) => {
                let len = le_decode(s.subrange(pos + 2, pos + 6));
                let reserved = le_decode(s.subrange(pos + 6, pos + 8));
                if pos + 8 + len > s.len() {
                    Err(EraError::TruncatedRecord)
                } else {
                    Ok((t, reserved, s.subrange(pos + 8, pos + 8 + len), pos + 8 + len))
                }
            },
        }
    }
}

/// Reads the record starting at `pos`, validating the tag against the
/// known enumeration and the payload length against the remaining bytes.
pub fn read_record(data: &[u8], pos: usize) -> (r: Result<(E2Store, usize), EraError>)
    ensures
        match parse_record(data@, pos as int) {
            Ok((t, reserved, payload, next)) => {
                &&& r matches Ok((rec, np))
                &&& rec.type_ == t
                &&& rec.reserved as nat == reserved
                &&& rec.data@ == payload
                &&& rec.length == payload.len()
                &&& np == next
            },
            Err(e) => r matches Err(e2) && e2 == e,
        },
{
    let dlen = data.len();
    if pos > dlen || dlen - pos < 8 {
        return Err(EraError::TruncatedRecord);
    }
    let tag = decode_le(data, pos, 2);
    proof {
        lemma_le_decode_bound(data@.subrange(pos as int, pos + 2));
        lemma_pow256_le(2, 2);
        reveal_with_fuel(pow256, 3);
    }
    let type_: E2StoreType = if tag == 0x03 {
        E2StoreType::CompressedHeader
    } else if tag == 0x04 {
        E2StoreType::CompressedBody
    } else if tag == 0x05 {
        E2StoreType::CompressedReceipts
    } else if tag == 0x06 {
        E2StoreType::TotalDifficulty
    } else if tag == 0x07 {
        E2StoreType::Accumulator
    } else if tag == 0x3265 {
        E2StoreType::Version
    } else if tag == 0x3266 {
        E2StoreType::BlockIndex
    } else {
        return Err(EraError::UnknownRecordType);
    };
    let length = decode_le(data, pos + 2, 4);
    proof {
        lemma_le_decode_bound(data@.subrange(pos + 2, pos + 6));
        reveal_with_fuel(pow256, 5);
    }
    let reserved = decode_le(data, pos + 6, 2);
    proof {
        lemma_le_decode_bound(data@.subrange(pos + 6, pos + 8));
        reveal_with_fuel(pow256, 3);
    }
    let start = pos + 8;
    if length > (data.len() - start) as u64 {
        return Err(EraError::TruncatedRecord);
    }
    let len_usize = length as usize;
    let mut payload: Vec<u8> = Vec::new();
    let mut i: usize = 0;
    while i < len_usize
        invariant
            0 <= i <= len_usize,
            start + len_usize <= data@.len(),
            data@.len() <= usize::MAX,
            payload@ == data@.subrange(start as int, start + i),
        decreases len_usize - i,
    {
        payload.push(data[start + i]);
        proof {
            assert(data@.subrange(start as int, start + i).push(data@[start + i])
                =~= data@.subrange(start as int, start + i + 1));
        }
        i += 1;
    }
    let rec = E2Store { type_, length: length as u32, reserved: reserved as u16, data: payload };
    Ok((rec, start + len_usize))
}

/// Splits a window of a stream that holds a concatenation into its two
/// parts.
pub proof fn lemma_concat_split(s: Seq<u8>, pos: int, a: Seq<u8>, b: Seq<u8>)
    requires
        0 <= pos,
        pos + a.len() + b.len() <= s.len(),
        s.subrange(pos, pos + a.len() + b.len()) == a + b,
    ensures
        s.subrange(pos, pos + a.len()) == a,
        s.subrange(pos + a.len(), pos + a.len() + b.len()) == b,
{
    let whole = s.subrange(pos, pos + a.len() + b.len());
    assert forall|i: int| 0 <= i < a.len() implies a[i] == s[pos + i] by {
        assert(whole[i] == s[pos + i]);
        assert(whole[i] == (a + b)[i]);
    }
    assert forall|i: int| 0 <= i < b.len() implies b[i] == s[pos + a.len() + i] by {
        assert(whole[a.len() + i] == s[pos + a.len() + i]);
        assert(whole[a.len() + i] == (a + b)[a.len() + i]);
    }
    assert(s.subrange(pos, pos + a.len()) =~= a);
    assert(s.subrange(pos + a.len(), pos + a.len() + b.len()) =~= b);
}

/// Law: the bytes of a well-formed record, placed anywhere in a stream
/// with room for them, read back as exactly that record.
pub proof fn lemma_record_round_trip(s: Seq<u8>, pos: int, t: E2StoreType, data: Seq<u8>)
    requires
        data.len() <= u32::MAX,
        0 <= pos,
        pos + 8 + data.len() <= s.len(),
        s.subrange(pos, pos + 8 + data.len()) == record_enc(t, data),
    ensures
        parse_record(s, pos) == Ok::<_, EraError>(
            (t, 0 as nat, data, pos + 8 + data.len()),
        ),
{
    let tag_b = le_bytes(tag_of(t) as nat, 2);
    let len_b = le_bytes(data.len(), 4);
    let res_b = le_bytes(0, 2);
    lemma_le_bytes_len(tag_of(t) as nat, 2);
    lemma_le_bytes_len(data.len(), 4);
    lemma_le_bytes_len(0, 2);
    assert(record_enc(t, data) =~= tag_b + (len_b + (res_b + data)));
    lemma_concat_split(s, pos, tag_b, len_b + (res_b + data));
    lemma_concat_split(s, pos + 2, len_b, res_b + data);
    lemma_concat_split(s, pos + 6, res_b, data);
    assert((tag_of(t) as nat) < pow256(2) && data.len() < pow256(4) && 0 < pow256(2)) by {
        reveal_with_fuel(pow256, 5);
    }
    lemma_le_roundtrip(tag_of(t) as nat, 2);
    lemma_le_roundtrip(data.len(), 4);
    lemma_le_roundtrip(0, 2);
    lemma_tag_inverse(t);
    assert(s.subrange(pos + 8, pos + 8 + data.len()) == data);
}

} // verus!
