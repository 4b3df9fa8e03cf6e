//! The identifier generator: 64 bits of entropy rendered as an
//! 11-character, unpadded URL-safe base64 string. No uniqueness check is
//! made against the store; collisions are avoided by entropy alone.

use vstd::prelude::*;

verus! {

/// A character of the URL-safe base64 alphabet (RFC 4648 section 5):
/// letters, digits, `-` and `_`.
pub open spec fn is_b64url_char(c: char) -> bool {
    ('A' <= c && c <= 'Z') || ('a' <= c && c <= 'z') || ('0' <= c && c <= '9') || c == '-' || c
        == '_'
}

/// The unpadded URL-safe base64 rendering of a byte sequence.
pub uninterp spec fn b64url_of(b: Seq<u8>) -> Seq<char>;

/// What base64's `Engine::decode` with the `URL_SAFE_NO_PAD` engine
/// gives a text back as; `None` when the text is not canonical unpadded
/// URL-safe base64.
pub uninterp spec fn b64url_decode_of(s: Seq<char>) -> Option<Seq<u8>>;

/// Relies on base64's `Engine::encode` with the `URL_SAFE_NO_PAD` engine:
/// unpadded URL-safe base64 (RFC 4648 section 5), which renders every
/// three bytes as four characters of the URL-safe alphabet, ceil(4n/3)
/// characters in all; decoding the result with the same engine returns
/// the bytes, so the rendering is injective.
#[verifier::external_body]
fn b64url_encode(bytes: &Vec<u8>) -> (r: String)
    ensures
        r@ == b64url_of(bytes@),
        r@.len() == (bytes@.len() * 4 + 2) / 3,
        forall|i: int| 0 <= i < r@.len() ==> is_b64url_char(#[trigger] r@[i]),
        b64url_decode_of(r@) == Some(bytes@),
{
    base64::Engine::encode(&base64::engine::general_purpose::URL_SAFE_NO_PAD, bytes)
}

/// Relies on rand's `fill`: fills the buffer from the thread-local
/// generator. Nothing is assumed of the values drawn.
#[verifier::external_body]
fn random_bytes_8() -> (r: Vec<u8>)
    ensures
        r@.len() == 8,
{
    let mut data = [0u8; 8];
    rand::fill(&mut data);
    data.to_vec()
}

/// Draws 8 random bytes and renders them as an 11-character, unpadded
/// URL-safe base64 identifier that decodes back to exactly those 8
/// bytes.
pub fn generate_uid() -> (r: String)
    ensures
        r@.len() == 11,
        forall|i: int| 0 <= i < r@.len() ==> is_b64url_char(#[trigger] r@[i]),
        exists|b: Seq<u8>|
            b.len() == 8 && r@ == b64url_of(b) && b64url_decode_of(r@) == Some(b),
{
    let data = random_bytes_8();
    let encoded = b64url_encode(&data);
    proof {
        assert(data@.len() == 8 && encoded@ == b64url_of(data@) && b64url_decode_of(encoded@)
            == Some(data@));
    }
    encoded
}

/// Identifiers collide only when the byte draws collide: two ids that
/// decode back to distinct draws are themselves distinct.
pub proof fn lemma_distinct_draws_distinct_uids(
    u1: Seq<char>,
    u2: Seq<char>,
    b1: Seq<u8>,
    b2: Seq<u8>,
)
    requires
        b64url_decode_of(u1) == Some(b1),
        b64url_decode_of(u2) == Some(b2),
        b1 != b2,
    ensures
        u1 != u2,
{
}

} // verus!
