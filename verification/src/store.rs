//! Content fingerprinting shared by the two store variants. The stores'
//! filesystem work (reading, writing, removing, link creation) lives with
//! the caller; the library owns the part that is pure computation: hashing
//! byte content and deciding whether two observed contents match.

use sha2::Digest;
use vstd::prelude::*;

verus! {

/// The SHA-256 digest of a byte sequence, as the `sha2` crate computes it.
pub uninterp spec fn sha256_of(bytes: Seq<u8>) -> Seq<u8>;

/// The lowercase hexadecimal digit for a value below sixteen.
pub open spec fn hex_digit(n: int) -> char {
    if n == 0 {
        '0'
    } else if n == 1 {
        '1'
    } else if n == 2 {
        '2'
    } else if n == 3 {
        '3'
    } else if n == 4 {
        '4'
    } else if n == 5 {
        '5'
    } else if n == 6 {
        '6'
    } else if n == 7 {
        '7'
    } else if n == 8 {
        '8'
    } else if n == 9 {
        '9'
    } else if n == 10 {
        'a'
    } else if n == 11 {
        'b'
    } else if n == 12 {
        'c'
    } else if n == 13 {
        'd'
    } else if n == 14 {
        'e'
    } else {
        'f'
    }
}

/// The lowercase hexadecimal rendering of a byte sequence: two digits per
/// byte, high nibble first, as `hex::encode` documents it.
pub open spec fn hex_of(bytes: Seq<u8>) -> Seq<char> {
    Seq::new(
        2 * bytes.len(),
        |i: int|
            if i % 2 == 0 {
                hex_digit((bytes[i / 2] as int) / 16)
            } else {
                hex_digit((bytes[i / 2] as int) % 16)
            },
    )
}

proof fn lemma_hex_digit_injective(m: int, n: int)
    requires
        0 <= m < 16,
        0 <= n < 16,
        hex_digit(m) == hex_digit(n),
    ensures
        m == n,
{
}

/// Hex rendering is injective: equal renderings come from equal bytes.
pub proof fn lemma_hex_injective(a: Seq<u8>, b: Seq<u8>)
    requires
        hex_of(a) == hex_of(b),
    ensures
        a == b,
{
    assert(hex_of(a).len() == 2 * a.len());
    assert(hex_of(b).len() == 2 * b.len());
    assert(a.len() == b.len());
    assert forall|i: int| 0 <= i < a.len() implies a[i] == b[i] by {
        assert((2 * i) / 2 == i && (2 * i) % 2 == 0);
        assert((2 * i + 1) / 2 == i && (2 * i + 1) % 2 == 1);
        assert(hex_of(a)[2 * i] == hex_digit((a[i] as int) / 16));
        assert(hex_of(b)[2 * i] == hex_digit((b[i] as int) / 16));
        assert(hex_of(a)[2 * i + 1] == hex_digit((a[i] as int) % 16));
        assert(hex_of(b)[2 * i + 1] == hex_digit((b[i] as int) % 16));
        assert(hex_of(a)[2 * i] == hex_of(b)[2 * i]);
        assert(hex_of(a)[2 * i + 1] == hex_of(b)[2 * i + 1]);
        lemma_hex_digit_injective((a[i] as int) / 16, (b[i] as int) / 16);
        lemma_hex_digit_injective((a[i] as int) % 16, (b[i] as int) % 16);
        assert(a[i] as int == 16 * ((a[i] as int) / 16) + (a[i] as int) % 16);
        assert(b[i] as int == 16 * ((b[i] as int) / 16) + (b[i] as int) % 16);
    }
    assert(a =~= b);
}

/// Relies on sha2::Sha256 through sha2::Digest::digest: the SHA-256 digest
/// of the input, 32 bytes long, a function of the input bytes alone.
#[verifier::external_body]
fn sha256_digest(content: &Vec<u8>) -> (r: Vec<u8>)
    ensures
        r@ == sha256_of(content@),
        r@.len() == 32,
{
    let mut hasher = sha2::Sha256::new();
    hasher.update(content.as_slice());
    hasher.finalize().to_vec()
}

/// Relies on hex::encode: the lowercase rendering with two digits per
/// byte, high nibble first, that its documentation and source give.
#[verifier::external_body]
fn hex_encode(bytes: &Vec<u8>) -> (r: String)
    ensures
        r@ == hex_of(bytes@),
{
    hex::encode(bytes.as_slice())
}

/// The fingerprint of a file's content: the hex form of its digest.
pub open spec fn fingerprint_of(content: Seq<u8>) -> Seq<char> {
    hex_of(sha256_of(content))
}

/// Two observed contents count as matching when their fingerprints agree.
/// Byte-identical contents always match; distinct contents are told apart
/// exactly as far as the digest tells them apart (see
/// `lemma_fingerprints_match_iff_digests_match`).
pub open spec fn contents_match(a: Seq<u8>, b: Seq<u8>) -> bool {
    fingerprint_of(a) == fingerprint_of(b)
}

/// Because hex rendering is injective, fingerprint equality is exactly
/// digest equality: contents match if and only if their SHA-256 digests
/// are equal.
pub proof fn lemma_fingerprints_match_iff_digests_match(a: Seq<u8>, b: Seq<u8>)
    ensures
        contents_match(a, b) == (sha256_of(a) == sha256_of(b)),
{
    if contents_match(a, b) {
        lemma_hex_injective(sha256_of(a), sha256_of(b));
    }
}

/// The fingerprint used for change detection and summaries.
pub fn hash_bytes(content: &Vec<u8>) -> (r: String)
    ensures
        r@ == fingerprint_of(content@),
        r@.len() == 64,
{
    let digest = sha256_digest(content);
    hex_encode(&digest)
}

/// Whether two contents have equal fingerprints.
pub fn compare_bytes(a: &Vec<u8>, b: &Vec<u8>) -> (r: bool)
    ensures
        r == contents_match(a@, b@),
{
    let ha = hash_bytes(a);
    let hb = hash_bytes(b);
    ha == hb
}

/// The copy-based store: materializes entries as full content duplicates.
/// Its filesystem operations live with the caller; fingerprinting is the
/// shared computation below.
pub struct FileStore;

/// The symlink-based store: materializes entries as symlinks, and its
/// existence check also recognizes dangling links. Fingerprinting reads
/// through the link and is identical to the copy store's.
pub struct LinkStore;

impl FileStore {
    pub fn name(&self) -> (r: &'static str)
        ensures
            r@ == "file"@,
    {
        "file"
    }

    pub fn hash(&self, content: &Vec<u8>) -> (r: String)
        ensures
            r@ == fingerprint_of(content@),
    {
        hash_bytes(content)
    }

    pub fn compare(&self, a: &Vec<u8>, b: &Vec<u8>) -> (r: bool)
        ensures
            r == contents_match(a@, b@),
    {
        compare_bytes(a, b)
    }
}

impl LinkStore {
    pub fn name(&self) -> (r: &'static str)
        ensures
            r@ == "link"@,
    {
        "link"
    }

    pub fn hash(&self, content: &Vec<u8>) -> (r: String)
        ensures
            r@ == fingerprint_of(content@),
    {
        hash_bytes(content)
    }

    pub fn compare(&self, a: &Vec<u8>, b: &Vec<u8>) -> (r: bool)
        ensures
            r == contents_match(a@, b@),
    {
        compare_bytes(a, b)
    }
}

} // verus!
