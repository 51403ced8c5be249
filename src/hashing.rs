//! Digests of byte buffers under a selectable algorithm, as lowercase hex.
use vstd::prelude::*;
use vstd::string::*;

verus! {

/// The digest functions that the engine can address content with.
#[derive(Clone, Copy, Debug, PartialEq, Eq, Structural)]
pub enum HashAlgorithm {
    Blake3,
    /// BLAKE2b-512: a 64-byte digest, 128 hex characters.
    Blake2b,
    Keccak256,
}

/// The 32-byte BLAKE3 digest of a byte sequence.
pub uninterp spec fn blake3_of(data: Seq<u8>) -> Seq<u8>;

/// The 64-byte BLAKE2b-512 digest of a byte sequence.
pub uninterp spec fn blake2b_of(data: Seq<u8>) -> Seq<u8>;

/// The 32-byte Keccak-256 digest of a byte sequence.
pub uninterp spec fn keccak256_of(data: Seq<u8>) -> Seq<u8>;

/// What `str::to_lowercase` makes of a string.
pub uninterp spec fn lower_of(s: Seq<char>) -> Seq<char>;

/// The lowercase hexadecimal digit for a value below 16.
pub open spec fn hex_digit(n: u8) -> char {
    if n == 0 { '0' } else if n == 1 { '1' } else if n == 2 { '2' } else if n == 3 { '3' }
    else if n == 4 { '4' } else if n == 5 { '5' } else if n == 6 { '6' } else if n == 7 { '7' }
    else if n == 8 { '8' } else if n == 9 { '9' } else if n == 10 { 'a' } else if n == 11 { 'b' }
    else if n == 12 { 'c' } else if n == 13 { 'd' } else if n == 14 { 'e' } else { 'f' }
}

/// Two lowercase hex digits per byte, high nibble first.
pub open spec fn hex_chars(b: Seq<u8>) -> Seq<char> {
    Seq::new(
        2 * b.len(),
        |i: int|
            if i % 2 == 0 {
                hex_digit(b[i / 2] / 16)
            } else {
                hex_digit(b[i / 2] % 16)
            },
    )
}

pub open spec fn is_lower_hex_char(c: char) -> bool {
    ('0' <= c && c <= '9') || ('a' <= c && c <= 'f')
}

pub open spec fn is_lower_hex(s: Seq<char>) -> bool {
    forall|i: int| 0 <= i < s.len() ==> is_lower_hex_char(#[trigger] s[i])
}

/// The number of bytes in a digest under `alg`.
pub open spec fn digest_len(alg: HashAlgorithm) -> nat {
    match alg {
        HashAlgorithm::Blake2b => 64,
        _ => 32,
    }
}

/// The leading `n` bytes of a digest function's output: all of it, when `n`
/// is that function's digest length. Stating the length in the model lets
/// proofs bound the size of digests without calling the functions.
pub open spec fn digest_bytes(raw: Seq<u8>, n: nat) -> Seq<u8> {
    Seq::new(n, |i: int| raw[i])
}

/// The raw digest bytes of `data` under `alg`.
pub open spec fn raw_digest(data: Seq<u8>, alg: HashAlgorithm) -> Seq<u8> {
    digest_bytes(
        match alg {
            HashAlgorithm::Blake3 => blake3_of(data),
            HashAlgorithm::Blake2b => blake2b_of(data),
            HashAlgorithm::Keccak256 => keccak256_of(data),
        },
        digest_len(alg),
    )
}

/// The digest string of `data` under `alg`.
pub open spec fn digest_of(data: Seq<u8>, alg: HashAlgorithm) -> Seq<char> {
    hex_chars(raw_digest(data, alg))
}

/// The token that names an algorithm in metadata.
pub open spec fn token_of(alg: HashAlgorithm) -> Seq<char> {
    match alg {
        HashAlgorithm::Blake3 => "blake3"@,
        HashAlgorithm::Blake2b => "blake2b"@,
        HashAlgorithm::Keccak256 => "keccak256"@,
    }
}

/// The algorithm that a lowercase token names, if any.
pub open spec fn algorithm_of_token(t: Seq<char>) -> Option<HashAlgorithm> {
    if t == "blake3"@ {
        Some(HashAlgorithm::Blake3)
    } else if t == "blake2b"@ {
        Some(HashAlgorithm::Blake2b)
    } else if t == "keccak256"@ {
        Some(HashAlgorithm::Keccak256)
    } else {
        None
    }
}

/// Relies on blake3::hash: the 32 bytes of the BLAKE3 digest.
#[verifier::external_body]
fn blake3_raw(data: &[u8]) -> (r: Vec<u8>)
    ensures
        r@ == blake3_of(data@),
        r@.len() == 32,
{
    blake3::hash(data).as_bytes().to_vec()
}

/// Relies on blake2's `Blake2b512` through digest::Digest::digest: the 64
/// bytes of the BLAKE2b-512 digest.
#[verifier::external_body]
fn blake2b_raw(data: &[u8]) -> (r: Vec<u8>)
    ensures
        r@ == blake2b_of(data@),
        r@.len() == 64,
{
    <blake2::Blake2b512 as digest::Digest>::digest(data).to_vec()
}

/// Relies on sha3's `Keccak256` through digest::Digest::digest: the 32 bytes
/// of the Keccak-256 digest.
#[verifier::external_body]
fn keccak256_raw(data: &[u8]) -> (r: Vec<u8>)
    ensures
        r@ == keccak256_of(data@),
        r@.len() == 32,
{
    <sha3::Keccak256 as digest::Digest>::digest(data).to_vec()
}

/// Relies on hex::encode: two lowercase hex digits per byte, in order.
#[verifier::external_body]
fn hex_encode(b: &[u8]) -> (r: String)
    ensures
        r@ == hex_chars(b@),
{
    hex::encode(b)
}

/// Relies on str::to_lowercase; the result depends on the characters alone.
#[verifier::external_body]
fn to_lowercase(s: &str) -> (r: String)
    ensures
        r@ == lower_of(s@),
{
    s.to_lowercase()
}

pub proof fn lemma_hex_chars_lower(b: Seq<u8>)
    ensures
        is_lower_hex(hex_chars(b)),
        hex_chars(b).len() == 2 * b.len(),
{
}

/// A digest is two lowercase hex characters per digest byte, all of them
/// ASCII: 128 for BLAKE2b-512, 64 for the others.
pub proof fn lemma_digest_shape(data: Seq<u8>, alg: HashAlgorithm)
    ensures
        digest_of(data, alg).len() == 2 * digest_len(alg),
        is_lower_hex(digest_of(data, alg)),
        vstd::utf8::is_ascii_chars(digest_of(data, alg)),
{
    lemma_hex_chars_lower(raw_digest(data, alg));
}

impl HashAlgorithm {
    /// Parses an algorithm token, ignoring case.
    pub fn from_str(s: &str) -> (r: Result<HashAlgorithm, crate::error::StorageError>)
        ensures
            match algorithm_of_token(lower_of(s@)) {
                Some(a) => r == Ok::<HashAlgorithm, crate::error::StorageError>(a),
                None => r matches Err(crate::error::StorageError::InvalidAlgorithm(t)) && t@ == s@,
            },
    {
        let lower = to_lowercase(s);
        match HashAlgorithm::from_token(lower.as_str()) {
            Some(a) => Ok(a),
            None => Err(crate::error::StorageError::InvalidAlgorithm(s.to_owned())),
        }
    }

    /// The algorithm that an exact lowercase token names, if any.
    pub fn from_token(t: &str) -> (r: Option<HashAlgorithm>)
        ensures
            r == algorithm_of_token(t@),
    {
        let t = String::from_str(t);
        if t == String::from_str("blake3") {
            Some(HashAlgorithm::Blake3)
        } else if t == String::from_str("blake2b") {
            Some(HashAlgorithm::Blake2b)
        } else if t == String::from_str("keccak256") {
            Some(HashAlgorithm::Keccak256)
        } else {
            None
        }
    }

    /// The lowercase token that names this algorithm.
    pub fn as_str(&self) -> (r: &'static str)
        ensures
            r@ == token_of(*self),
    {
        match self {
            HashAlgorithm::Blake3 => "blake3",
            HashAlgorithm::Blake2b => "blake2b",
            HashAlgorithm::Keccak256 => "keccak256",
        }
    }
}

impl Default for HashAlgorithm {
    fn default() -> (r: HashAlgorithm)
        ensures
            r == HashAlgorithm::Blake3,
    {
        HashAlgorithm::Blake3
    }
}

/// The digest of `data` under `algorithm`, as lowercase hex.
pub fn calculate_hash_with_algorithm(data: &[u8], algorithm: HashAlgorithm) -> (r: String)
    ensures
        r@ == digest_of(data@, algorithm),
        r@.len() == 2 * digest_len(algorithm),
        is_lower_hex(r@),
{
    let raw = match algorithm {
        HashAlgorithm::Blake3 => blake3_raw(data),
        HashAlgorithm::Blake2b => blake2b_raw(data),
        HashAlgorithm::Keccak256 => keccak256_raw(data),
    };
    assert(raw@ =~= raw_digest(data@, algorithm));
    let r = hex_encode(raw.as_slice());
    proof {
        lemma_hex_chars_lower(raw@);
    }
    r
}

/// The BLAKE3 digest of `data`, as lowercase hex.
pub fn calculate_hash(data: &[u8]) -> (r: String)
    ensures
        r@ == digest_of(data@, HashAlgorithm::Blake3),
        r@.len() == 64,
        is_lower_hex(r@),
{
    calculate_hash_with_algorithm(data, HashAlgorithm::Blake3)
}

/// Each algorithm's token names that algorithm.
pub proof fn lemma_token_round_trip(alg: HashAlgorithm)
    ensures
        algorithm_of_token(token_of(alg)) == Some(alg),
{
    reveal_strlit("blake3");
    reveal_strlit("blake2b");
    reveal_strlit("keccak256");
    assert("blake2b"@.len() != "blake3"@.len());
    assert("keccak256"@.len() != "blake3"@.len());
    assert("keccak256"@.len() != "blake2b"@.len());
}

/// Hashing is a function of the bytes and the algorithm: two calls on equal
/// inputs give equal digests.
pub proof fn lemma_hash_deterministic(a: Seq<u8>, b: Seq<u8>, alg: HashAlgorithm)
    requires
        a == b,
    ensures
        digest_of(a, alg) == digest_of(b, alg),
{
}

} // verus!
