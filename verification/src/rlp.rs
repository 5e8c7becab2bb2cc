//! Nested, length-prefixed list encoding (RLP) used for the canonical byte
//! form of headers, transactions and receipts.
//!
//! An item is either a byte string or a list; integers are encoded as their
//! minimal-length big-endian byte string, so zero encodes as the empty string.

use vstd::prelude::*;

verus! {

/// Minimal big-endian byte string of an integer: no leading zero byte,
/// and zero encodes as the empty sequence.
pub open spec fn min_be(n: nat) -> Seq<u8>
    decreases n,
{
    if n == 0 {
        Seq::empty()
    } else {
        min_be(n / 256).push((n % 256) as u8)
    }
}

/// Big-endian value of a byte string (the empty string decodes to zero).
pub open spec fn be_decode(s: Seq<u8>) -> nat
    decreases s.len(),
{
    if s.len() == 0 {
        0
    } else {
        (be_decode(s.drop_last()) * 256 + s.last()) as nat
    }
}

/// Law: the minimal big-endian encoding has no leading zero byte, decoding
/// it yields the encoded value back, and zero encodes as the empty string.
pub proof fn lemma_min_be_roundtrip(n: nat)
    ensures
        min_be(0) == Seq::<u8>::empty(),
        n > 0 ==> min_be(n).len() > 0 && min_be(n)[0] != 0,
        be_decode(min_be(n)) == n,
    decreases n,
{
    if n > 0 {
        lemma_min_be_roundtrip(n / 256);
        let prefix = min_be(n / 256);
        let whole = prefix.push((n % 256) as u8);
        assert(whole.drop_last() =~= prefix);
        assert(be_decode(whole) == be_decode(prefix) * 256 + n % 256);
        if n / 256 == 0 {
            assert(whole[0] == n % 256);
            assert(n % 256 == n);
        } else {
            assert(whole[0] == prefix[0]);
        }
    }
}

/// 256 raised to the given power; bounds the length of `min_be`.
pub open spec fn pow256(k: nat) -> nat
    decreases k,
{
    if k == 0 {
        1
    } else {
        256 * pow256((k - 1) as nat)
    }
}

pub proof fn lemma_min_be_len(n: nat, k: nat)
    requires
        n < pow256(k),
    ensures
        min_be(n).len() <= k,
    decreases k,
{
    if n > 0 {
        assert(k > 0);
        let p = pow256((k - 1) as nat);
        assert(n < 256 * p);
        assert(n / 256 < p) by (nonlinear_arith)
            requires n < 256 * p,
        ;
        lemma_min_be_len(n / 256, (k - 1) as nat);
    }
}

/// The minimal encoding of a machine-word value takes at most eight bytes.
pub proof fn lemma_min_be_len_u64(n: u64)
    ensures
        min_be(n as nat).len() <= 8,
{
    assert(pow256(8) == 0x1_0000_0000_0000_0000) by {
        reveal_with_fuel(pow256, 9);
    }
    lemma_min_be_len(n as nat, 8);
}

/// Minimal big-endian encoding of an integer, as executable code.
pub fn encode_number(n: u64) -> (r: Vec<u8>)
    ensures
        r@ == min_be(n as nat),
    decreases n,
{
    if n == 0 {
        Vec::new()
    } else {
        let mut r = encode_number(n / 256);
        r.push((n % 256) as u8);
        r
    }
}

/// Minimal big-endian encoding of a 128-bit integer.
pub fn encode_number_u128(n: u128) -> (r: Vec<u8>)
    ensures
        r@ == min_be(n as nat),
    decreases n,
{
    if n == 0 {
        Vec::new()
    } else {
        let mut r = encode_number_u128(n / 256);
        r.push((n % 256) as u8);
        r
    }
}

/// A byte string with its leading zero bytes removed.
pub open spec fn trim_zeros(s: Seq<u8>) -> Seq<u8>
    decreases s.len(),
{
    if s.len() == 0 || s[0] != 0 {
        s
    } else {
        trim_zeros(s.subrange(1, s.len() as int))
    }
}

proof fn lemma_trim_zeros_skip(s: Seq<u8>, idx: int)
    requires
        0 <= idx <= s.len(),
        forall|j: int| 0 <= j < idx ==> s[j] == 0,
        idx < s.len() ==> s[idx] != 0,
    ensures
        trim_zeros(s) == s.subrange(idx, s.len() as int),
    decreases idx,
{
    if idx == 0 {
        assert(s.subrange(0, s.len() as int) =~= s);
        if s.len() > 0 && s[0] == 0 {
            assert(false);
        }
    } else {
        let tail = s.subrange(1, s.len() as int);
        lemma_trim_zeros_skip(tail, idx - 1);
        assert(tail.subrange(idx - 1, tail.len() as int) =~= s.subrange(idx, s.len() as int));
    }
}

/// Strips leading zero bytes from a byte string (explicit left-trim, used
/// for the signature fields of a transaction).
pub fn trim_left(bytes: &[u8]) -> (r: &[u8])
    ensures
        r@ == trim_zeros(bytes@),
{
    let mut idx: usize = 0;
    while idx < bytes.len() && bytes[idx] == 0
        invariant
            0 <= idx <= bytes@.len(),
            forall|j: int| 0 <= j < idx ==> bytes@[j] == 0,
        decreases bytes@.len() - idx,
    {
        idx += 1;
    }
    proof {
        lemma_trim_zeros_skip(bytes@, idx as int);
    }
    vstd::slice::slice_subrange(bytes, idx, bytes.len())
}

/// Length prefix of an RLP item: `base` is 0x80 for byte strings and 0xc0
/// for lists, `n` the payload length.
pub open spec fn rlp_len_prefix(base: int, n: nat) -> Seq<u8> {
    if n <= 55 {
        seq![(base + n) as u8]
    } else {
        seq![(base + 55 + min_be(n).len()) as u8] + min_be(n)
    }
}

/// A byte string as an RLP item: a single byte below 0x80 stands for
/// itself, anything else is length-prefixed.
pub open spec fn rlp_str(b: Seq<u8>) -> Seq<u8> {
    if b.len() == 1 && b[0] < 0x80 {
        b
    } else {
        rlp_len_prefix(0x80, b.len()) + b
    }
}

/// A list as an RLP item, given the already-concatenated payload of its
/// members.
pub open spec fn rlp_list(payload: Seq<u8>) -> Seq<u8> {
    rlp_len_prefix(0xc0, payload.len()) + payload
}

/// Appends every byte of a slice to a vector.
pub fn push_all(out: &mut Vec<u8>, b: &[u8])
    ensures
        final(out)@ == old(out)@ + b@,
{
    let ghost start = out@;
    let mut i: usize = 0;
    while i < b.len()
        invariant
            0 <= i <= b@.len(),
            out@ == start + b@.subrange(0, i as int),
        decreases b@.len() - i,
    {
        out.push(b[i]);
        proof {
            assert(start + b@.subrange(0, i as int) + seq![b@[i as int]]
                =~= start + b@.subrange(0, i + 1));
        }
        i += 1;
    }
    proof {
        assert(b@.subrange(0, b@.len() as int) =~= b@);
    }
}

fn rlp_len_prefix_bytes(base: u8, n: usize) -> (r: Vec<u8>)
    requires
        base == 0x80 || base == 0xc0,
    ensures
        r@ == rlp_len_prefix(base as int, n as nat),
{
    let mut r: Vec<u8> = Vec::new();
    if n <= 55 {
        r.push(base + (n as u8));
        assert(r@ =~= rlp_len_prefix(base as int, n as nat));
    } else {
        let mut len_bytes = encode_number(n as u64);
        proof {
            lemma_min_be_len_u64(n as u64);
        }
        r.push(base + 55 + (len_bytes.len() as u8));
        r.append(&mut len_bytes);
        assert(r@ =~= rlp_len_prefix(base as int, n as nat));
    }
    r
}

/// Appends a byte string as one RLP item.
pub fn rlp_append_str(out: &mut Vec<u8>, b: &[u8])
    ensures
        final(out)@ == old(out)@ + rlp_str(b@),
{
    if b.len() == 1 && b[0] < 0x80 {
        out.push(b[0]);
        assert(out@ =~= old(out)@ + rlp_str(b@));
    } else {
        let mut prefix = rlp_len_prefix_bytes(0x80, b.len());
        out.append(&mut prefix);
        push_all(out, b);
        assert(out@ =~= old(out)@ + rlp_str(b@));
    }
}

/// Appends an integer as one RLP item, in minimal big-endian form.
pub fn rlp_append_u64(out: &mut Vec<u8>, n: u64)
    ensures
        final(out)@ == old(out)@ + rlp_str(min_be(n as nat)),
{
    let b = encode_number(n);
    rlp_append_str(out, b.as_slice());
}

/// Appends a 128-bit integer as one RLP item.
pub fn rlp_append_u128(out: &mut Vec<u8>, n: u128)
    ensures
        final(out)@ == old(out)@ + rlp_str(min_be(n as nat)),
{
    let b = encode_number_u128(n);
    rlp_append_str(out, b.as_slice());
}

/// Wraps an already-concatenated payload as an RLP list.
pub fn rlp_wrap_list(payload: Vec<u8>) -> (r: Vec<u8>)
    ensures
        r@ == rlp_list(payload@),
{
    let mut r = rlp_len_prefix_bytes(0xc0, payload.len());
    push_all(&mut r, payload.as_slice());
    r
}

/// A minimal encoding of a single nonzero byte is that byte alone.
pub proof fn lemma_min_be_byte(b: u8)
    requires
        b > 0,
    ensures
        min_be(b as nat) == seq![b],
{
    reveal_with_fuel(min_be, 3);
    assert(min_be(b as nat) =~= seq![b]);
}

/// The views of a sequence of byte vectors.
pub open spec fn views_of(items: Seq<Vec<u8>>) -> Seq<Seq<u8>> {
    items.map_values(|v: Vec<u8>| v@)
}

/// Copies a byte vector; the copy has the same bytes.
pub fn clone_bytes(v: &Vec<u8>) -> (r: Vec<u8>)
    ensures
        r@ == v@,
{
    let mut r: Vec<u8> = Vec::new();
    push_all(&mut r, v.as_slice());
    proof {
        assert(r@ =~= v@);
    }
    r
}

} // verus!

