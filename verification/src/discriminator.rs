//! The 8-byte discriminator of a namespace and a name.
//!
//! The preimage is the namespace, one colon and the name, as UTF-8 bytes. The
//! discriminator is the first eight bytes of the SHA-256 digest of the
//! preimage, in the digest's own byte order.

use vstd::prelude::*;
use vstd::utf8::encode_utf8;

verus! {

/// The byte that separates the namespace from the name in a preimage: an
/// ASCII colon.
pub const SEPARATOR: u8 = 0x3a;

/// How many bytes of the digest make up a discriminator.
pub const DISCRIMINATOR_LEN: usize = 8;

/// The SHA-256 digest of `data`.
///
/// The digest is computed outside this crate; nothing is known of it here
/// beyond what `sha256_digest` states.
pub uninterp spec fn sha256(data: Seq<u8>) -> Seq<u8>;

/// The bytes that are hashed for `namespace` and `name`.
pub open spec fn preimage(namespace: Seq<char>, name: Seq<char>) -> Seq<u8> {
    encode_utf8(namespace) + seq![SEPARATOR] + encode_utf8(name)
}

/// The first `DISCRIMINATOR_LEN` bytes of a digest.
pub open spec fn leading(digest: Seq<u8>) -> Seq<u8> {
    digest.subrange(0, DISCRIMINATOR_LEN as int)
}

/// The discriminator of `namespace` and `name`.
pub open spec fn discriminator(namespace: Seq<char>, name: Seq<char>) -> Seq<u8> {
    leading(sha256(preimage(namespace, name)))
}

/// Calls `anchor_lang::solana_program::hash::hash` and `Hash::to_bytes`.
///
/// Trusted: the 32 bytes returned are the SHA-256 digest of `data`, which
/// depends on `data` alone.
#[verifier::external_body]
fn sha256_digest(data: &[u8]) -> (digest: [u8; 32])
    ensures
        digest@ == sha256(data@),
{
    anchor_lang::solana_program::hash::hash(data).to_bytes()
}

/// Builds the preimage of `namespace` and `name`.
pub fn preimage_bytes(namespace: &str, name: &str) -> (bytes: Vec<u8>)
    ensures
        bytes@ == preimage(namespace@, name@),
{
    let mut bytes: Vec<u8> = Vec::new();
    bytes.extend_from_slice(namespace.as_bytes());
    bytes.push(SEPARATOR);
    bytes.extend_from_slice(name.as_bytes());
    bytes
}

/// Truncates a digest to a discriminator, keeping the digest's byte order.
pub fn leading_bytes(digest: &[u8; 32]) -> (head: [u8; 8])
    ensures
        head@ == leading(digest@),
{
    let head: [u8; 8] = [
        digest[0],
        digest[1],
        digest[2],
        digest[3],
        digest[4],
        digest[5],
        digest[6],
        digest[7],
    ];
    assert(head@ =~= leading(digest@));
    head
}

/// Computes the discriminator of `namespace` and `name`.
///
/// Total: every pair of strings has a discriminator, the empty ones too.
pub fn get_hash(namespace: &str, name: &str) -> (sighash: [u8; 8])
    ensures
        sighash@ == discriminator(namespace@, name@),
{
    let bytes = preimage_bytes(namespace, name);
    let digest = sha256_digest(bytes.as_slice());
    leading_bytes(&digest)
}

/// Equal inputs have equal discriminators: the discriminator depends on the
/// namespace and the name and on nothing else.
pub proof fn lemma_discriminator_deterministic(
    namespace_a: Seq<char>,
    name_a: Seq<char>,
    namespace_b: Seq<char>,
    name_b: Seq<char>,
)
    requires
        namespace_a == namespace_b,
        name_a == name_b,
    ensures
        discriminator(namespace_a, name_a) == discriminator(namespace_b, name_b),
{
}

/// The UTF-8 form of two texts, one after the other, is the form of the
/// first followed by that of the second.
pub proof fn lemma_encode_utf8_concat(first: Seq<char>, second: Seq<char>)
    ensures
        encode_utf8(first + second) == encode_utf8(first) + encode_utf8(second),
    decreases first.len(),
{
    if first.len() == 0 {
        assert(first + second =~= second);
        assert(encode_utf8(first) + encode_utf8(second) =~= encode_utf8(second));
    } else {
        assert((first + second).drop_first() =~= first.drop_first() + second);
        lemma_encode_utf8_concat(first.drop_first(), second);
        assert(encode_utf8(first + second) =~= encode_utf8(first) + encode_utf8(second));
    }
}

/// The preimage is the UTF-8 form of the text `namespace:name`.
pub proof fn lemma_preimage_is_text(namespace: Seq<char>, name: Seq<char>)
    ensures
        preimage(namespace, name) == encode_utf8(namespace + seq![':'] + name),
{
    let colon = seq![':'];
    assert(encode_utf8(colon) =~= seq![SEPARATOR]) by {
        assert(colon.drop_first() =~= Seq::<char>::empty());
        assert(':' as u32 == 0x3a);
        assert(0x3au32 & 0x7f == 0x3a) by (bit_vector);
        reveal_with_fuel(encode_utf8, 2);
    }
    lemma_encode_utf8_concat(namespace + colon, name);
    lemma_encode_utf8_concat(namespace, colon);
}

} // verus!
