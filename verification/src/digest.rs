//! Digest engine: streams bytes through the BLAKE3 hash and renders the
//! 256-bit result as 64 lowercase hexadecimal characters — the content
//! fingerprint recorded in a manifest. Bytes can be absorbed in chunks of
//! any size, so a caller can stream a file without buffering it whole.

use vstd::prelude::*;

verus! {

/// The BLAKE3 hex digest of a byte sequence: 64 lowercase hexadecimal
/// characters, a function of the bytes alone.
pub uninterp spec fn fingerprint(data: Seq<u8>) -> Seq<char>;

/// A lowercase hexadecimal digit.
pub open spec fn is_lower_hex(c: char) -> bool {
    c == '0' || c == '1' || c == '2' || c == '3' || c == '4' || c == '5' || c == '6' || c == '7'
        || c == '8' || c == '9' || c == 'a' || c == 'b' || c == 'c' || c == 'd' || c == 'e'
        || c == 'f'
}

#[verifier::external_type_specification]
#[verifier::external_body]
pub struct ExHasher(blake3::Hasher);

/// The bytes a hasher has absorbed so far.
pub uninterp spec fn hasher_fed(h: blake3::Hasher) -> Seq<u8>;

/// Relies on blake3::Hasher::new: a fresh hasher has absorbed nothing.
#[verifier::external_body]
fn hasher_new() -> (h: blake3::Hasher)
    ensures
        hasher_fed(h) == Seq::<u8>::empty(),
{
    blake3::Hasher::new()
}

/// Relies on blake3::Hasher::update: appends the chunk to the absorbed
/// bytes; chunking does not affect the final digest.
#[verifier::external_body]
fn hasher_update(h: &mut blake3::Hasher, chunk: &[u8])
    ensures
        hasher_fed(*final(h)) == hasher_fed(*old(h)) + chunk@,
{
    h.update(chunk);
}

/// Relies on blake3::Hasher::finalize and blake3::Hash::to_hex: the digest
/// of the absorbed bytes, rendered as exactly 64 lowercase hex digits.
#[verifier::external_body]
fn hasher_hex(h: &blake3::Hasher) -> (r: String)
    ensures
        r@ == fingerprint(hasher_fed(*h)),
        r@.len() == 64,
        forall|i: int| 0 <= i < r@.len() ==> is_lower_hex(#[trigger] r@[i]),
{
    h.finalize().to_hex().to_string()
}

/// An incremental content-fingerprint computation.
pub struct Digest {
    inner: blake3::Hasher,
}

impl Digest {
    /// The bytes absorbed so far.
    pub closed spec fn fed(&self) -> Seq<u8> {
        hasher_fed(self.inner)
    }

    /// A fresh digest over no bytes.
    pub fn new() -> (d: Digest)
        ensures
            d.fed() == Seq::<u8>::empty(),
    {
        Digest { inner: hasher_new() }
    }

    /// Absorb one chunk. A file streamed chunk by chunk yields the same
    /// fingerprint as its whole content at once.
    pub fn update(&mut self, chunk: &[u8])
        ensures
            final(self).fed() == old(self).fed() + chunk@,
    {
        hasher_update(&mut self.inner, chunk);
    }

    /// The fingerprint of everything absorbed.
    pub fn finalize_hex(&self) -> (r: String)
        ensures
            r@ == fingerprint(self.fed()),
            r@.len() == 64,
            forall|i: int| 0 <= i < r@.len() ==> is_lower_hex(#[trigger] r@[i]),
    {
        hasher_hex(&self.inner)
    }
}

/// The content fingerprint of a file given as its full byte content.
///
/// Streaming callers absorb the file chunk by chunk through [`Digest`]
/// instead; both roads state the same `fingerprint` of the same bytes.
pub fn hash_file(data: &[u8]) -> (r: String)
    ensures
        r@ == fingerprint(data@),
        r@.len() == 64,
        forall|i: int| 0 <= i < r@.len() ==> is_lower_hex(#[trigger] r@[i]),
{
    let mut d = Digest::new();
    d.update(data);
    proof {
        assert(d.fed() =~= data@);
    }
    d.finalize_hex()
}

} // verus!
