use vstd::prelude::*;

use sha2::Digest;

use crate::label::LabelPair;

verus! {

/// The SHA-256 digest of a byte string. The digest itself is left
/// uninterpreted: contracts only use that equal inputs give equal digests.
pub uninterp spec fn digest_of(data: Seq<u8>) -> Seq<u8>;

/// Relies on sha2::Sha256 through the Digest trait: the 32-byte SHA-256
/// digest, a function of the input bytes alone.
#[verifier::external_body]
fn sha256(data: &Vec<u8>) -> (r: Vec<u8>)
    ensures
        r@ == digest_of(data@),
        r@.len() == 32,
{
    sha2::Sha256::digest(data.as_slice()).to_vec()
}

/// Byte `i` of the little-endian encoding of `x`.
pub open spec fn byte_of(x: u64, i: int) -> u8 {
    ((x >> ((8 * i) as u64)) & 0xff) as u8
}

/// The eight-byte little-endian encoding of `x`.
pub open spec fn u64_le(x: u64) -> Seq<u8> {
    Seq::new(8, |i: int| byte_of(x, i))
}

/// A `u64` read back from a little-endian byte string (up to 8 bytes).
pub open spec fn u64_from_le(s: Seq<u8>) -> u64
    decreases s.len(),
{
    if s.len() == 0 {
        0
    } else {
        u64_from_le(s.drop_last()) | ((s.last() as u64) << ((8 * (s.len() - 1)) as u64))
    }
}

/// One byte per bit: 1 for true, 0 for false.
pub open spec fn bits_bytes(bits: Seq<bool>) -> Seq<u8> {
    Seq::new(
        bits.len(),
        |i: int|
            if bits[i] {
                1u8
            } else {
                0u8
            },
    )
}

/// Labels encoded back to back, little endian.
pub open spec fn labels_bytes(ls: Seq<u64>) -> Seq<u8>
    decreases ls.len(),
{
    if ls.len() == 0 {
        Seq::empty()
    } else {
        labels_bytes(ls.drop_last()) + u64_le(ls.last())
    }
}

/// Label pairs encoded back to back: zero label then one label.
pub open spec fn pairs_bytes(ps: Seq<LabelPair>) -> Seq<u8>
    decreases ps.len(),
{
    if ps.len() == 0 {
        Seq::empty()
    } else {
        pairs_bytes(ps.drop_last()) + u64_le(ps.last().zero) + u64_le(ps.last().one)
    }
}

/// A commitment to a byte payload under a nonce: the digest of the nonce
/// followed by the payload. The nonce makes the commitment session-scoped.
pub open spec fn commit_of(data: Seq<u8>, nonce: u64) -> Seq<u8> {
    digest_of(u64_le(nonce) + data)
}

/// Domain tag for garbled-table row pads.
pub const TAG_ROW: u8 = 0;

/// Domain tag for deriving the fresh zero label of an AND gate.
pub const TAG_LABEL: u8 = 1;

/// The bytes hashed for a gate-scoped pad over two labels.
pub open spec fn pad_enc(tag: u8, k: u64, la: u64, lb: u64) -> Seq<u8> {
    seq![tag] + u64_le(k) + u64_le(la) + u64_le(lb)
}

/// A 64-bit pad drawn from the digest of a gate index and two labels; used
/// both to encrypt garbled-table rows and to derive fresh AND output labels
/// (under distinct domain tags).
pub open spec fn pad_of(tag: u8, k: u64, la: u64, lb: u64) -> u64 {
    u64_from_le(digest_of(pad_enc(tag, k, la, lb)).take(8))
}

/// Append the little-endian encoding of `x`.
pub fn push_u64_le(out: &mut Vec<u8>, x: u64)
    ensures
        final(out)@ == old(out)@ + u64_le(x),
{
    let ghost base = out@;
    proof {
        assert(x >> 0u64 == x && x & 0xff < 256 && (x >> 8u64) & 0xff < 256 && (x >> 16u64) & 0xff
            < 256 && (x >> 24u64) & 0xff < 256 && (x >> 32u64) & 0xff < 256 && (x >> 40u64) & 0xff
            < 256 && (x >> 48u64) & 0xff < 256 && (x >> 56u64) & 0xff < 256) by (bit_vector);
    }
    out.push((x & 0xff) as u8);
    out.push(((x >> 8u64) & 0xff) as u8);
    out.push(((x >> 16u64) & 0xff) as u8);
    out.push(((x >> 24u64) & 0xff) as u8);
    out.push(((x >> 32u64) & 0xff) as u8);
    out.push(((x >> 40u64) & 0xff) as u8);
    out.push(((x >> 48u64) & 0xff) as u8);
    out.push(((x >> 56u64) & 0xff) as u8);
    proof {
        assert(out@ =~= base + u64_le(x));
    }
}

/// Read a `u64` from the first eight bytes, little endian.
pub fn read_u64_le(s: &Vec<u8>) -> (r: u64)
    requires
        s@.len() >= 8,
    ensures
        r == u64_from_le(s@.take(8)),
{
    let mut acc: u64 = 0;
    let mut i: usize = 0;
    while i < 8
        invariant
            i <= 8,
            s@.len() >= 8,
            acc == u64_from_le(s@.take(i as int)),
        decreases 8 - i,
    {
        let shift: u64 = 8 * (i as u64);
        proof {
            assert(s@.take(i as int + 1).drop_last() =~= s@.take(i as int));
        }
        acc = acc | ((s[i] as u64) << shift);
        i = i + 1;
    }
    acc
}

/// Encode output bits, one byte per bit.
pub fn encode_bits(bits: &Vec<bool>) -> (r: Vec<u8>)
    ensures
        r@ == bits_bytes(bits@),
{
    let mut out: Vec<u8> = Vec::new();
    let mut i: usize = 0;
    while i < bits.len()
        invariant
            i <= bits@.len(),
            out@.len() == i,
            forall|j: int| 0 <= j < i as int ==> out@[j] == bits_bytes(bits@)[j],
        decreases bits@.len() - i,
    {
        out.push(if bits[i] { 1u8 } else { 0u8 });
        i = i + 1;
    }
    proof {
        assert(out@ =~= bits_bytes(bits@));
    }
    out
}

/// Encode labels back to back, little endian.
pub fn encode_labels(ls: &Vec<u64>) -> (r: Vec<u8>)
    ensures
        r@ == labels_bytes(ls@),
{
    let mut out: Vec<u8> = Vec::new();
    let mut i: usize = 0;
    while i < ls.len()
        invariant
            i <= ls@.len(),
            out@ == labels_bytes(ls@.take(i as int)),
        decreases ls@.len() - i,
    {
        proof {
            assert(ls@.take(i as int + 1).drop_last() =~= ls@.take(i as int));
        }
        push_u64_le(&mut out, ls[i]);
        i = i + 1;
    }
    proof {
        assert(ls@.take(ls@.len() as int) =~= ls@);
    }
    out
}

/// Encode label pairs back to back.
pub fn encode_pairs(ps: &Vec<LabelPair>) -> (r: Vec<u8>)
    ensures
        r@ == pairs_bytes(ps@),
{
    let mut out: Vec<u8> = Vec::new();
    let mut i: usize = 0;
    while i < ps.len()
        invariant
            i <= ps@.len(),
            out@ == pairs_bytes(ps@.take(i as int)),
        decreases ps@.len() - i,
    {
        proof {
            assert(ps@.take(i as int + 1).drop_last() =~= ps@.take(i as int));
        }
        push_u64_le(&mut out, ps[i].zero);
        push_u64_le(&mut out, ps[i].one);
        i = i + 1;
    }
    proof {
        assert(ps@.take(ps@.len() as int) =~= ps@);
    }
    out
}

/// Commit to a byte payload under a nonce.
pub fn commit_bytes(data: &Vec<u8>, nonce: u64) -> (r: Vec<u8>)
    ensures
        r@ == commit_of(data@, nonce),
        r@.len() == 32,
{
    let mut buf: Vec<u8> = Vec::new();
    push_u64_le(&mut buf, nonce);
    let mut i: usize = 0;
    while i < data.len()
        invariant
            i <= data@.len(),
            buf@ == u64_le(nonce) + data@.take(i as int),
        decreases data@.len() - i,
    {
        buf.push(data[i]);
        proof {
            assert(buf@ =~= u64_le(nonce) + data@.take(i as int + 1));
        }
        i = i + 1;
    }
    proof {
        assert(u64_le(nonce) + data@.take(data@.len() as int) =~= u64_le(nonce) + data@);
    }
    sha256(&buf)
}

/// A per-gate pad over two labels.
pub fn pad(tag: u8, k: u64, la: u64, lb: u64) -> (r: u64)
    ensures
        r == pad_of(tag, k, la, lb),
{
    let mut buf: Vec<u8> = Vec::new();
    buf.push(tag);
    proof {
        assert(buf@ =~= seq![tag]);
    }
    push_u64_le(&mut buf, k);
    push_u64_le(&mut buf, la);
    push_u64_le(&mut buf, lb);
    proof {
        assert(buf@ =~= pad_enc(tag, k, la, lb));
    }
    let d = sha256(&buf);
    read_u64_le(&d)
}

/// Constant-free byte-string comparison with an exact contract.
pub fn bytes_eq(a: &Vec<u8>, b: &Vec<u8>) -> (r: bool)
    ensures
        r <==> a@ == b@,
{
    if a.len() != b.len() {
        proof {
            assert(a@.len() != b@.len());
        }
        return false;
    }
    let mut i: usize = 0;
    while i < a.len()
        invariant
            i <= a@.len(),
            a@.len() == b@.len(),
            forall|j: int| 0 <= j < i as int ==> a@[j] == b@[j],
        decreases a@.len() - i,
    {
        if a[i] != b[i] {
            return false;
        }
        i = i + 1;
    }
    proof {
        assert(a@ =~= b@);
    }
    true
}

} // verus!
