//! SHA-256 and MD5 digests written as lowercase hexadecimal: the
//! fingerprint of a media root, the identity of dataset sources, and the
//! content hashes of files fed in chunk by chunk.
use md5::Md5;
use sha2::{Digest, Sha256};
use vstd::prelude::*;
use vstd::string::StringSliceAdditionalSpecFns;

verus! {

/// The SHA-256 digest of a byte string.
pub uninterp spec fn sha256_digest(data: Seq<u8>) -> Seq<u8>;

/// The SHA-256 digest of bytes.
///
/// Trusted: wraps `<sha2::Sha256 as Digest>::digest`; the contract names
/// the digest, which depends on the bytes alone, and states its length of
/// 32 bytes.
#[verifier::external_body]
pub(crate) fn sha256(data: &[u8]) -> (digest: Vec<u8>)
    ensures
        digest@ == sha256_digest(data@),
        digest@.len() == 32,
{
    Sha256::digest(data).to_vec()
}

/// A nibble as a lowercase hexadecimal digit.
pub open spec fn hex_digit(n: int) -> char {
    if n < 10 {
        ((n + 48) as u32) as char
    } else {
        ((n + 87) as u32) as char
    }
}

/// Bytes as lowercase hexadecimal text, two digits per byte, high nibble
/// first.
pub open spec fn hex_text(bytes: Seq<u8>) -> Seq<char>
    decreases bytes.len(),
{
    if bytes.len() == 0 {
        Seq::empty()
    } else {
        hex_text(bytes.drop_last()) + seq![hex_digit((bytes.last() / 16) as int), hex_digit((bytes.last() % 16) as int)]
    }
}

/// Hexadecimal text of bytes.
///
/// Trusted: wraps `hex::encode`, which writes each byte as two lowercase
/// hexadecimal digits, high nibble first.
#[verifier::external_body]
pub(crate) fn hex_encode(bytes: &[u8]) -> (text: String)
    ensures
        text@ == hex_text(bytes@),
{
    hex::encode(bytes)
}

/// The SHA-256 digest of a text's UTF-8 bytes, in hexadecimal.
pub fn sha256_hex(text: &str) -> (hex: String)
    ensures
        hex@ == hex_text(sha256_digest(text.spec_bytes())),
        hex@.len() == 64,
{
    let digest = sha256(text.as_bytes());
    proof {
        lemma_hex_text_len(digest@);
    }
    hex_encode(digest.as_slice())
}

pub proof fn lemma_hex_text_len(bytes: Seq<u8>)
    ensures
        hex_text(bytes).len() == 2 * bytes.len(),
    decreases bytes.len(),
{
    if bytes.len() > 0 {
        lemma_hex_text_len(bytes.drop_last());
    }
}

// ---------------------------------------------------------------------
// Streaming digests
// ---------------------------------------------------------------------

/// The MD5 digest of a byte string.
pub uninterp spec fn md5_digest(data: Seq<u8>) -> Seq<u8>;

/// The running state of a SHA-256 computation.
///
/// Trusted: holds a `sha2::Sha256` out of the verifier's sight (Verus
/// cannot declare that generic type); what it has absorbed is named by
/// [`sha256_absorbed`].
#[verifier::external_body]
pub struct Sha256State {
    inner: Sha256,
}

/// The bytes a SHA-256 state has absorbed, in order.
pub uninterp spec fn sha256_absorbed(state: Sha256State) -> Seq<u8>;

/// A SHA-256 state that has absorbed nothing.
///
/// Trusted: wraps `Sha256::new`.
#[verifier::external_body]
fn sha256_state_new() -> (state: Sha256State)
    ensures
        sha256_absorbed(state) == Seq::<u8>::empty(),
{
    Sha256State { inner: Sha256::new() }
}

/// Feeds bytes to a SHA-256 state.
///
/// Trusted: wraps `Digest::update`, which appends the bytes to what the
/// state has absorbed.
#[verifier::external_body]
fn sha256_state_update(state: &mut Sha256State, chunk: &[u8])
    ensures
        sha256_absorbed(*final(state)) == sha256_absorbed(*old(state)) + chunk@,
{
    state.inner.update(chunk)
}

/// The digest of everything a SHA-256 state absorbed.
///
/// Trusted: wraps `Digest::finalize`, which gives the 32-byte SHA-256 of
/// the absorbed bytes.
#[verifier::external_body]
fn sha256_state_finish(state: Sha256State) -> (digest: Vec<u8>)
    ensures
        digest@ == sha256_digest(sha256_absorbed(state)),
        digest@.len() == 32,
{
    state.inner.finalize().to_vec()
}

/// A SHA-256 computation fed chunk by chunk.
pub struct Sha256Hasher {
    state: Sha256State,
}

impl Sha256Hasher {
    /// The bytes fed in so far.
    pub closed spec fn absorbed(&self) -> Seq<u8> {
        sha256_absorbed(self.state)
    }

    /// A computation that has absorbed nothing.
    pub fn new() -> (hasher: Self)
        ensures
            hasher.absorbed() == Seq::<u8>::empty(),
    {
        Sha256Hasher { state: sha256_state_new() }
    }

    /// Feeds the next chunk.
    pub fn update(&mut self, chunk: &[u8])
        ensures
            final(self).absorbed() == old(self).absorbed() + chunk@,
    {
        sha256_state_update(&mut self.state, chunk)
    }

    /// The SHA-256 of everything fed in.
    pub fn finish(self) -> (digest: Vec<u8>)
        ensures
            digest@ == sha256_digest(self.absorbed()),
            digest@.len() == 32,
    {
        sha256_state_finish(self.state)
    }

    /// The SHA-256 of everything fed in, as lowercase hexadecimal.
    pub fn finish_hex(self) -> (hex: String)
        ensures
            hex@ == hex_text(sha256_digest(self.absorbed())),
            hex@.len() == 64,
    {
        let digest = self.finish();
        proof {
            lemma_hex_text_len(digest@);
        }
        hex_encode(digest.as_slice())
    }
}

/// The running state of an MD5 computation.
///
/// Trusted: holds an `md5::Md5` out of the verifier's sight (Verus cannot
/// declare that generic type); what it has absorbed is named by
/// [`md5_absorbed`].
#[verifier::external_body]
pub struct Md5State {
    inner: Md5,
}

/// The bytes an MD5 state has absorbed, in order.
pub uninterp spec fn md5_absorbed(state: Md5State) -> Seq<u8>;

/// An MD5 state that has absorbed nothing.
///
/// Trusted: wraps `Md5::new`.
#[verifier::external_body]
fn md5_state_new() -> (state: Md5State)
    ensures
        md5_absorbed(state) == Seq::<u8>::empty(),
{
    Md5State { inner: Md5::new() }
}

/// Feeds bytes to an MD5 state.
///
/// Trusted: wraps `Digest::update`, which appends the bytes to what the
/// state has absorbed.
#[verifier::external_body]
fn md5_state_update(state: &mut Md5State, chunk: &[u8])
    ensures
        md5_absorbed(*final(state)) == md5_absorbed(*old(state)) + chunk@,
{
    state.inner.update(chunk)
}

/// The digest of everything an MD5 state absorbed.
///
/// Trusted: wraps `Digest::finalize`, which gives the 16-byte MD5 of the
/// absorbed bytes.
#[verifier::external_body]
fn md5_state_finish(state: Md5State) -> (digest: Vec<u8>)
    ensures
        digest@ == md5_digest(md5_absorbed(state)),
        digest@.len() == 16,
{
    state.inner.finalize().to_vec()
}

/// An MD5 computation fed chunk by chunk.
pub struct Md5Hasher {
    state: Md5State,
}

impl Md5Hasher {
    /// The bytes fed in so far.
    pub closed spec fn absorbed(&self) -> Seq<u8> {
        md5_absorbed(self.state)
    }

    /// A computation that has absorbed nothing.
    pub fn new() -> (hasher: Self)
        ensures
            hasher.absorbed() == Seq::<u8>::empty(),
    {
        Md5Hasher { state: md5_state_new() }
    }

    /// Feeds the next chunk.
    pub fn update(&mut self, chunk: &[u8])
        ensures
            final(self).absorbed() == old(self).absorbed() + chunk@,
    {
        md5_state_update(&mut self.state, chunk)
    }

    /// The MD5 of everything fed in, as lowercase hexadecimal.
    pub fn finish_hex(self) -> (hex: String)
        ensures
            hex@ == hex_text(md5_digest(self.absorbed())),
            hex@.len() == 32,
    {
        let digest = md5_state_finish(self.state);
        proof {
            lemma_hex_text_len(digest@);
        }
        hex_encode(digest.as_slice())
    }
}

} // verus!
