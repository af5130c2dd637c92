//! SHA-256 digests and their tagged textual form.

use crate::text::{after_prefix, chars_of, concat2, hex, hex_text, strip_prefix};
use sha2::Digest;
use vstd::prelude::*;
use vstd::utf8::encode_utf8;

verus! {

/// The SHA-256 digest of `bytes`, as the `sha2` crate computes it.
pub uninterp spec fn sha256(bytes: Seq<u8>) -> Seq<u8>;

/// Digests `bytes` with `sha2::Sha256::digest`. The result is named by `sha256` and is always 32
/// bytes long.
#[verifier::external_body]
pub(crate) fn sha256_bytes(bytes: &[u8]) -> (result: Vec<u8>)
    ensures
        result@ == sha256(bytes@),
        result@.len() == 32,
{
    sha2::Sha256::digest(bytes).to_vec()
}

/// The tagged digest of `bytes`: the prefix `sha256:` and the digest in hexadecimal.
pub open spec fn tagged(bytes: Seq<u8>) -> Seq<char> {
    "sha256:"@ + hex(sha256(bytes))
}

/// Whether `hex` is 64 lower-case hexadecimal digits.
pub open spec fn valid_hex(hex: Seq<char>) -> bool {
    hex.len() == 64 && forall|i: int| 0 <= i < hex.len() ==> lower_hex(#[trigger] hex[i])
}

/// Whether `c` is a lower-case hexadecimal digit.
pub open spec fn lower_hex(c: char) -> bool {
    ('0' <= c && c <= '9') || ('a' <= c && c <= 'f')
}

/// Whether `digest` is a tagged digest.
pub open spec fn valid_tagged(digest: Seq<char>) -> bool {
    match after_prefix(digest, "sha256:"@) {
        Some(rest) => valid_hex(rest),
        None => false,
    }
}

proof fn lemma_hex_valid(bytes: Seq<u8>)
    requires
        bytes.len() == 32,
    ensures
        valid_hex(hex(bytes)),
{
}

/// The digest of `bytes` in lower-case hexadecimal.
pub fn hex_sha256(bytes: &[u8]) -> (result: String)
    ensures
        result@ == hex(sha256(bytes@)),
        valid_hex(result@),
{
    let digest = sha256_bytes(bytes);
    proof {
        lemma_hex_valid(digest@);
    }
    hex_text(digest.as_slice())
}

/// The tagged digest of `bytes`. It is always a valid tagged digest.
pub fn tagged_digest(bytes: &[u8]) -> (result: String)
    ensures
        result@ == tagged(bytes@),
        valid_tagged(result@),
{
    let digits = hex_sha256(bytes);
    let result = concat2("sha256:", digits.as_str());
    proof {
        assert(result@.subrange(0, "sha256:"@.len() as int) =~= "sha256:"@);
        assert(result@.subrange("sha256:"@.len() as int, result@.len() as int) =~= digits@);
    }
    result
}

/// The tagged digest of the UTF-8 bytes of `text`.
pub fn tagged_text_digest(text: &str) -> (result: String)
    ensures
        result@ == tagged(encode_utf8(text@)),
        valid_tagged(result@),
{
    tagged_digest(text.as_bytes())
}

/// Whether `hex` is 64 lower-case hexadecimal digits.
pub fn valid_digest_hex(hex: &str) -> (result: bool)
    ensures
        result == valid_hex(hex@),
{
    let chars = chars_of(hex);
    if chars.len() != 64 {
        return false;
    }
    let mut i: usize = 0;
    while i < 64
        invariant
            i <= 64,
            chars@ == hex@,
            chars.len() == 64,
            forall|j: int| 0 <= j < i ==> lower_hex(#[trigger] hex@[j]),
        decreases 64 - i,
    {
        let c: char = chars[i];
        if !(('0' <= c && c <= '9') || ('a' <= c && c <= 'f')) {
            assert(!lower_hex(hex@[i as int]));
            return false;
        }
        i = i + 1;
    }
    true
}

/// Whether `digest` is a tagged digest.
pub fn is_tagged_digest(digest: &str) -> (result: bool)
    ensures
        result == valid_tagged(digest@),
{
    match strip_prefix(digest, "sha256:") {
        Some(rest) => valid_digest_hex(rest),
        None => false,
    }
}

/// A tagged digest is the word for its kind and 64 lower-case hexadecimal digits, and nothing else
/// is one; no digit is upper-case.
pub proof fn law_tagged_digests_have_one_form(digest: Seq<char>, digits: Seq<char>)
    ensures
        valid_tagged("sha256:"@ + digits) <==> digits.len() == 64 && forall|i: int|
            0 <= i < digits.len() ==> ('0' <= #[trigger] digits[i] && digits[i] <= '9') || ('a'
                <= digits[i] && digits[i] <= 'f'),
        valid_tagged(digest) ==> digest.len() == 71 && digest == "sha256:"@ + digest.subrange(
            7,
            digest.len() as int,
        ),
{
    reveal_strlit("sha256:");
    let whole = "sha256:"@ + digits;
    assert(whole.subrange(0, 7) =~= "sha256:"@);
    assert(whole.subrange(7, whole.len() as int) =~= digits);
    if valid_hex(digits) {
        assert forall|i: int| 0 <= i < digits.len() implies ('0' <= #[trigger] digits[i]
            && digits[i] <= '9') || ('a' <= digits[i] && digits[i] <= 'f') by {
            assert(lower_hex(digits[i]));
        }
    }
    if valid_tagged(digest) {
        assert(digest =~= "sha256:"@ + digest.subrange(7, digest.len() as int));
    }
}

} // verus!
