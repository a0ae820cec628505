//! SHA-256 checksums of downloaded files.
//!
//! A file is fed to a [`Checksum`] chunk by chunk, so that it never has to
//! lie in memory as a whole, and the digest is then held against the
//! hexadecimal text that a configuration document gives. Upper and lower
//! case letters count as the same in that text.

use sha2::Digest;
use vstd::prelude::*;
use vstd::string::StringSliceAdditionalSpecFns;

verus! {

/// A running SHA-256 computation of the `sha2` crate.
#[verifier::external_body]
pub struct Sha256Stream {
    hasher: sha2::Sha256,
}

/// The bytes that a running computation has taken in, in order.
pub uninterp spec fn absorbed(stream: Sha256Stream) -> Seq<u8>;

/// The SHA-256 digest of `data`.
pub uninterp spec fn sha256_of(data: Seq<u8>) -> Seq<u8>;

/// `sha2::Sha256::new`: a computation that has taken in nothing.
#[verifier::external_body]
fn stream_new() -> (stream: Sha256Stream)
    ensures
        absorbed(stream) == Seq::<u8>::empty(),
{
    Sha256Stream { hasher: sha2::Sha256::new() }
}

/// `Digest::update`: the computation takes in `data` after what it has.
#[verifier::external_body]
fn stream_update(stream: &mut Sha256Stream, data: &[u8])
    ensures
        absorbed(*final(stream)) == absorbed(*old(stream)) + data@,
{
    stream.hasher.update(data);
}

/// `Digest::finalize`: the digest of all that the computation has taken in.
#[verifier::external_body]
fn stream_finalize(stream: Sha256Stream) -> (digest: Vec<u8>)
    ensures
        digest@ == sha256_of(absorbed(stream)),
{
    stream.hasher.finalize().to_vec()
}

/// The lower-case hexadecimal digit, as a character code, of a value below
/// sixteen.
pub open spec fn hex_digit(value: u8) -> u8 {
    if value < 10 {
        (48 + value) as u8
    } else {
        (87 + value) as u8
    }
}

/// `bytes` in hexadecimal: two lower-case digits for each byte, the high
/// half first.
pub open spec fn hex_of(bytes: Seq<u8>) -> Seq<u8> {
    Seq::new(
        2 * bytes.len(),
        |i: int|
            if i % 2 == 0 {
                hex_digit(bytes[i / 2] / 16)
            } else {
                hex_digit(bytes[i / 2] % 16)
            },
    )
}

/// `hex::encode`: each byte of `data` as two lower-case hexadecimal digits,
/// the high half first.
#[verifier::external_body]
fn encode_hex(data: &[u8]) -> (text: Vec<u8>)
    ensures
        text@ == hex_of(data@),
{
    hex::encode(data).into_bytes()
}

/// The character code `code` with an upper-case letter of ASCII made lower
/// case.
pub open spec fn lowered(code: u8) -> u8 {
    if 65 <= code <= 90 {
        (code + 32) as u8
    } else {
        code
    }
}

/// Whether `a` and `b` are the same text but for the case of letters.
pub open spec fn same_ignoring_case(a: Seq<u8>, b: Seq<u8>) -> bool {
    a.len() == b.len() && forall|i: int| 0 <= i < a.len() ==> lowered(a[i]) == lowered(b[i])
}

/// Makes an upper-case letter of ASCII lower case.
fn lower(code: u8) -> (low: u8)
    ensures
        low == lowered(code),
{
    if 65 <= code && code <= 90 {
        code + 32
    } else {
        code
    }
}

/// Tells whether `a` and `b` are the same text but for the case of letters.
pub fn equal_ignoring_case(a: &[u8], b: &[u8]) -> (same: bool)
    ensures
        same == same_ignoring_case(a@, b@),
{
    if a.len() != b.len() {
        return false;
    }
    let mut i: usize = 0;
    while i < a.len()
        invariant
            i <= a.len(),
            a.len() == b.len(),
            forall|k: int| 0 <= k < i ==> lowered(a@[k]) == lowered(b@[k]),
        decreases a.len() - i,
    {
        if lower(a[i]) != lower(b[i]) {
            return false;
        }
        i = i + 1;
    }
    true
}

/// Tells whether `digest`, written in hexadecimal, is the text
/// `expected_hex` but for the case of letters.
pub fn digest_matches(digest: &[u8], expected_hex: &str) -> (same: bool)
    ensures
        same == same_ignoring_case(hex_of(digest@), expected_hex.spec_bytes()),
{
    let text = encode_hex(digest);
    equal_ignoring_case(text.as_slice(), expected_hex.as_bytes())
}

/// The SHA-256 checksum of a file that is read chunk by chunk.
pub struct Checksum {
    stream: Sha256Stream,
}

impl Checksum {
    /// The bytes taken in so far.
    pub closed spec fn taken(&self) -> Seq<u8> {
        absorbed(self.stream)
    }

    /// A checksum that has taken in nothing.
    pub fn new() -> (sum: Checksum)
        ensures
            sum.taken() == Seq::<u8>::empty(),
    {
        Checksum { stream: stream_new() }
    }

    /// Takes in the next chunk of the file.
    pub fn take(&mut self, chunk: &[u8])
        ensures
            final(self).taken() == old(self).taken() + chunk@,
    {
        stream_update(&mut self.stream, chunk);
    }

    /// Holds the digest of what was taken in against `expected_hex`.
    /// Returns the digest in hexadecimal where the two differ.
    pub fn check(self, expected_hex: &str) -> (outcome: Result<(), Vec<u8>>)
        ensures
            outcome is Ok <==> same_ignoring_case(
                hex_of(sha256_of(self.taken())),
                expected_hex.spec_bytes(),
            ),
            outcome is Err ==> outcome->Err_0@ == hex_of(sha256_of(self.taken())),
    {
        let digest = stream_finalize(self.stream);
        let text = encode_hex(digest.as_slice());
        if equal_ignoring_case(text.as_slice(), expected_hex.as_bytes()) {
            Ok(())
        } else {
            Err(text)
        }
    }
}

} // verus!
