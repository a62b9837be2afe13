//! SHA-256 of a downloaded stream, and the hex text of digests.
use vstd::prelude::*;

verus! {

/// A SHA-256 hasher (`sha2::Sha256`), kept behind this type so that only the
/// functions below touch it.
#[verifier::external_body]
pub struct Sha256Hasher {
    inner: sha2::Sha256,
}

/// The SHA-256 digest of `data`.
pub uninterp spec fn sha256(data: Seq<u8>) -> Seq<u8>;

/// The bytes a SHA-256 hasher has absorbed since it was created.
pub uninterp spec fn hasher_input(hasher: Sha256Hasher) -> Seq<u8>;

/// Calls `sha2::Sha256::new`: a hasher that has absorbed nothing.
#[verifier::external_body]
fn sha256_new() -> (r: Sha256Hasher)
    ensures
        hasher_input(r) == Seq::<u8>::empty(),
{
    Sha256Hasher { inner: <sha2::Sha256 as sha2::Digest>::new() }
}

/// Calls `sha2::Digest::update`: the hasher absorbs `data` after what it held.
#[verifier::external_body]
fn sha256_update(hasher: &mut Sha256Hasher, data: &[u8])
    ensures
        hasher_input(*final(hasher)) == hasher_input(*old(hasher)) + data@,
{
    sha2::Digest::update(&mut hasher.inner, data)
}

/// Calls `sha2::Digest::finalize`: the digest of everything the hasher absorbed.
#[verifier::external_body]
fn sha256_finalize(hasher: Sha256Hasher) -> (r: [u8; 32])
    ensures
        r@ == sha256(hasher_input(hasher)),
{
    sha2::Digest::finalize(hasher.inner).into()
}

/// Hashes a byte stream that arrives in pieces.
pub struct StreamHasher {
    hasher: Sha256Hasher,
}

impl StreamHasher {
    /// The bytes hashed so far.
    pub closed spec fn absorbed(&self) -> Seq<u8> {
        hasher_input(self.hasher)
    }

    pub fn new() -> (r: Self)
        ensures
            r.absorbed() == Seq::<u8>::empty(),
    {
        StreamHasher { hasher: sha256_new() }
    }

    /// Adds the next piece of the stream.
    pub fn update(&mut self, chunk: &[u8])
        ensures
            final(self).absorbed() == old(self).absorbed() + chunk@,
    {
        sha256_update(&mut self.hasher, chunk);
    }

    /// The digest of the whole stream.
    pub fn finalize(self) -> (r: [u8; 32])
        ensures
            r@ == sha256(self.absorbed()),
    {
        sha256_finalize(self.hasher)
    }
}

/// The SHA-256 digest of `data`, in one piece.
pub fn sha256_digest(data: &[u8]) -> (r: [u8; 32])
    ensures
        r@ == sha256(data@),
{
    let mut hasher = StreamHasher::new();
    hasher.update(data);
    assert(hasher.absorbed() =~= data@);
    hasher.finalize()
}

/// The lower-case hex digit of a nibble.
pub open spec fn hex_char(nibble: int) -> char {
    if nibble < 10 {
        ('0' as int + nibble) as char
    } else {
        ('a' as int + nibble - 10) as char
    }
}

/// The lower-case hex text of `data`: two digits per byte, high nibble first.
pub open spec fn hex_lower(data: Seq<u8>) -> Seq<char> {
    Seq::new(
        2 * data.len(),
        |i: int|
            if i % 2 == 0 {
                hex_char(data[i / 2] as int / 16)
            } else {
                hex_char(data[i / 2] as int % 16)
            },
    )
}

/// The value of a hex digit, either case.
pub open spec fn hex_value(c: char) -> Option<int> {
    if '0' <= c <= '9' {
        Some(c as int - '0' as int)
    } else if 'a' <= c <= 'f' {
        Some(c as int - 'a' as int + 10)
    } else if 'A' <= c <= 'F' {
        Some(c as int - 'A' as int + 10)
    } else {
        None
    }
}

/// Text that decodes as hex: an even number of hex digits.
pub open spec fn is_hex_text(s: Seq<char>) -> bool {
    &&& s.len() % 2 == 0
    &&& forall|i: int| 0 <= i < s.len() ==> #[trigger] hex_value(s[i]) is Some
}

/// The bytes that hex text stands for, two digits per byte.
pub open spec fn hex_decoded(s: Seq<char>) -> Seq<u8> {
    Seq::new(
        s.len() / 2,
        |i: int| (hex_value(s[2 * i]).unwrap() * 16 + hex_value(s[2 * i + 1]).unwrap()) as u8,
    )
}

/// Calls `hex::encode`, which writes two lower-case hex digits per byte.
#[verifier::external_body]
fn hex_encode(data: &[u8]) -> (r: String)
    ensures
        r@ == hex_lower(data@),
{
    hex::encode(data)
}

#[verifier::external_type_specification]
#[verifier::external_body]
pub struct ExFromHexError(hex::FromHexError);

/// Calls `hex::decode`, which accepts an even number of hex digits of either
/// case and returns one byte per pair; which error it reports for other text
/// is not stated.
#[verifier::external_body]
fn hex_decode_text(text: &str) -> (r: Result<Vec<u8>, hex::FromHexError>)
    ensures
        r is Ok <==> is_hex_text(text@),
        r matches Ok(v) ==> v@ == hex_decoded(text@),
{
    hex::decode(text)
}

/// The lower-case hex text of a digest, as logs and messages show it.
pub fn digest_hex(digest: &[u8]) -> (r: String)
    ensures
        r@ == hex_lower(digest@),
{
    hex_encode(digest)
}

/// The bytes that hex text of either case stands for; an error when the text
/// is not an even number of hex digits.
pub fn hex_decode(text: &str) -> (r: Result<Vec<u8>, hex::FromHexError>)
    ensures
        r is Ok <==> is_hex_text(text@),
        r matches Ok(v) ==> v@ == hex_decoded(text@),
{
    hex_decode_text(text)
}

} // verus!
