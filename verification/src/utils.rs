use vstd::prelude::*;

verus! {

/// The big-endian (most-significant byte first) encoding of a 16-bit
/// unsigned integer.
pub open spec fn be_bytes_u16(v: u16) -> Seq<u8> {
    seq![(v >> 8) as u8, v as u8]
}

/// The big-endian encoding of a 32-bit unsigned integer.
pub open spec fn be_bytes_u32(v: u32) -> Seq<u8> {
    seq![(v >> 24) as u8, (v >> 16) as u8, (v >> 8) as u8, v as u8]
}

/// The big-endian encoding of a 64-bit unsigned integer.
pub open spec fn be_bytes_u64(v: u64) -> Seq<u8> {
    seq![
        (v >> 56) as u8,
        (v >> 48) as u8,
        (v >> 40) as u8,
        (v >> 32) as u8,
        (v >> 24) as u8,
        (v >> 16) as u8,
        (v >> 8) as u8,
        v as u8,
    ]
}

/// A value with a canonical byte representation of statically known width.
///
/// `serialize` appends exactly `self.encoded()` to the buffer, so several
/// calls against one buffer concatenate their encodings in call order and
/// never disturb what the buffer already holds.
pub trait Encodable {
    /// The canonical bytes of this value.
    spec fn encoded(&self) -> Seq<u8>;

    /// Append the canonical bytes of `self` to `vec`.
    fn serialize(&self, vec: &mut Vec<u8>)
        ensures
            final(vec)@ == old(vec)@ + self.encoded(),
    ;
}

impl Encodable for u16 {
    open spec fn encoded(&self) -> Seq<u8> {
        be_bytes_u16(*self)
    }

    fn serialize(&self, vec: &mut Vec<u8>) {
        vec.push(#[verifier::truncate] ((*self >> 8) as u8));
        vec.push(#[verifier::truncate] (*self as u8));
        proof {
            assert(vec@ =~= old(vec)@ + self.encoded());
        }
    }
}

impl Encodable for u32 {
    open spec fn encoded(&self) -> Seq<u8> {
        be_bytes_u32(*self)
    }

    fn serialize(&self, vec: &mut Vec<u8>) {
        vec.push(#[verifier::truncate] ((*self >> 24) as u8));
        vec.push(#[verifier::truncate] ((*self >> 16) as u8));
        vec.push(#[verifier::truncate] ((*self >> 8) as u8));
        vec.push(#[verifier::truncate] (*self as u8));
        proof {
            assert(vec@ =~= old(vec)@ + self.encoded());
        }
    }
}

impl Encodable for u64 {
    open spec fn encoded(&self) -> Seq<u8> {
        be_bytes_u64(*self)
    }

    fn serialize(&self, vec: &mut Vec<u8>) {
        vec.push(#[verifier::truncate] ((*self >> 56) as u8));
        vec.push(#[verifier::truncate] ((*self >> 48) as u8));
        vec.push(#[verifier::truncate] ((*self >> 40) as u8));
        vec.push(#[verifier::truncate] ((*self >> 32) as u8));
        vec.push(#[verifier::truncate] ((*self >> 24) as u8));
        vec.push(#[verifier::truncate] ((*self >> 16) as u8));
        vec.push(#[verifier::truncate] ((*self >> 8) as u8));
        vec.push(#[verifier::truncate] (*self as u8));
        proof {
            assert(vec@ =~= old(vec)@ + self.encoded());
        }
    }
}

/// A fixed-size byte array encodes as an exact copy of its contents:
/// no length prefix, no transformation.
impl<const N: usize> Encodable for [u8; N] {
    open spec fn encoded(&self) -> Seq<u8> {
        self@
    }

    fn serialize(&self, vec: &mut Vec<u8>) {
        let mut i: usize = 0;
        while i < N
            invariant
                i <= N,
                vec@ == old(vec)@ + self@.take(i as int),
            decreases N - i,
        {
            vec.push(self[i]);
            proof {
                assert(vec@ =~= old(vec)@ + self@.take(i + 1));
            }
            i += 1;
        }
        proof {
            assert(self@.take(N as int) =~= self@);
        }
    }
}

/// Grow `vec` by `len` zero bytes and return the new length.
pub fn extend_vec(vec: &mut Vec<u8>, len: usize) -> (r: usize)
    requires
        old(vec)@.len() + len <= usize::MAX,
    ensures
        final(vec)@ == old(vec)@ + Seq::new(len as nat, |i: int| 0u8),
        r == final(vec)@.len(),
        r == old(vec)@.len() + len,
{
    let mut i: usize = 0;
    while i < len
        invariant
            i <= len,
            vec@ == old(vec)@ + Seq::new(i as nat, |j: int| 0u8),
        decreases len - i,
    {
        vec.push(0);
        proof {
            assert(vec@ =~= old(vec)@ + Seq::new((i + 1) as nat, |j: int| 0u8));
        }
        i += 1;
    }
    vec.len()
}

/// Encodings concatenate in call order: serializing `x` and then `y`
/// against a buffer that holds `prefix` leaves `prefix`, then `x`'s bytes,
/// then `y`'s bytes — the same as appending the joint encoding in one step,
/// with no reordering and nothing between.
pub proof fn lemma_concat_in_call_order<A: Encodable, B: Encodable>(prefix: Seq<u8>, x: A, y: B)
    ensures
        (prefix + x.encoded()) + y.encoded() == prefix + (x.encoded() + y.encoded()),
{
    assert((prefix + x.encoded()) + y.encoded() =~= prefix + (x.encoded() + y.encoded()));
}

/// The SHA-256 digest of a byte sequence, as the pinned hash
/// implementation computes it: a fixed function of the bytes alone.
pub uninterp spec fn sha256_of(b: Seq<u8>) -> Seq<u8>;

/// Calculate sha256 of a slice of bytes.
///
/// Relies on `crypto::sha2::Sha256` through `crypto::digest::Digest`:
/// `input` absorbs the bytes, `result` writes their 256-bit digest into
/// the 32-byte output buffer. The digest depends on the input bytes alone.
/// The bit counter inside `Sha256` panics on inputs of 2^61 bytes or more,
/// which the precondition rules out.
#[verifier::external_body]
pub(crate) fn sha256_bytes(b: &[u8]) -> (r: [u8; 32])
    requires
        b@.len() < 0x2000000000000000,
    ensures
        r@ == sha256_of(b@),
{
    let mut hash = crypto::sha2::Sha256::new();
    crypto::digest::Digest::input(&mut hash, b);
    let mut res = [0u8; 32];
    crypto::digest::Digest::result(&mut hash, &mut res);
    res
}

} // verus!
