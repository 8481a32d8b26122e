//! Embed colours: the one that a user's id gives directly, and the one that
//! the SHA-1 digest of the id gives.

use vstd::prelude::*;

verus! {

/// The value of the colour with these components: red in the high byte.
pub open spec fn rgb_value(red: u8, green: u8, blue: u8) -> int {
    red as int * 65536 + green as int * 256 + blue as int
}

/// serenity's `Colour::from_rgb`, taken by its value: it puts red in bits
/// 16 to 23, green in bits 8 to 15 and blue in bits 0 to 7.
#[verifier::external_body]
fn colour_from_rgb(red: u8, green: u8, blue: u8) -> (colour: u32)
    ensures
        colour as int == rgb_value(red, green, blue),
{
    serenity::utils::Colour::from_rgb(red, green, blue).0
}

/// The colour of the embeds about a user: the lowest byte of the id as red,
/// the next as green, the third as blue.
pub open spec fn spec_user_colour(id: u64) -> int {
    rgb_value((id % 256) as u8, ((id / 256) % 256) as u8, ((id / 65536) % 256) as u8)
}

/// The colour of the embeds about the user with this id.
pub fn user_colour(id: u64) -> (colour: u32)
    ensures
        colour as int == spec_user_colour(id),
{
    let red = id as u8;
    let green = (id >> 8) as u8;
    let blue = (id >> 16) as u8;
    assert(red == (id % 256) as u8) by (bit_vector)
        requires
            red == id as u8,
    ;
    assert(green == ((id / 256) % 256) as u8) by (bit_vector)
        requires
            green == (id >> 8) as u8,
    ;
    assert(blue == ((id / 65536) % 256) as u8) by (bit_vector)
        requires
            blue == (id >> 16) as u8,
    ;
    colour_from_rgb(red, green, blue)
}

/// The SHA-1 digest of a byte string.
pub uninterp spec fn sha1_digest(data: Seq<u8>) -> Seq<u8>;

/// The sha1 crate's `Sha1::update` on a new hasher, then `digest().bytes()`:
/// the SHA-1 digest of `data`, named `sha1_digest`, which has 20 bytes
/// (`DIGEST_LENGTH`). The digest itself is not stated.
#[verifier::external_body]
fn sha1_of(data: &[u8]) -> (digest: Vec<u8>)
    ensures
        digest@ == sha1_digest(data@),
        digest@.len() == 20,
{
    let mut hasher = sha1::Sha1::new();
    hasher.update(data);
    hasher.digest().bytes().to_vec()
}

/// The bytes of `x`, least significant first.
pub open spec fn le_bytes(x: u64) -> Seq<u8> {
    vstd::bytes::spec_u64_to_le_bytes_open(x)
}

/// std's `u64::to_ne_bytes`: the bytes of `x` in the byte order of the
/// machine, which is little- or big-endian. Which of the two is not stated.
#[verifier::external_body]
fn native_bytes(x: u64) -> (bytes: Vec<u8>)
    ensures
        bytes@ == le_bytes(x) || bytes@ == le_bytes(x).reverse(),
{
    x.to_ne_bytes().to_vec()
}

/// The colour that the first three bytes of a digest make.
pub open spec fn digest_colour(digest: Seq<u8>) -> int {
    rgb_value(digest[0], digest[1], digest[2])
}

/// The colour made of the first three bytes of `digest`, as red, green and
/// blue.
pub fn colour_from_digest(digest: &[u8]) -> (colour: u32)
    requires
        digest@.len() >= 3,
    ensures
        colour as int == digest_colour(digest@),
{
    colour_from_rgb(digest[0], digest[1], digest[2])
}

/// The colour that the SHA-1 digest of `bytes` gives.
pub fn colour_of_bytes(bytes: &[u8]) -> (colour: u32)
    ensures
        colour as int == digest_colour(sha1_digest(bytes@)),
{
    let digest = sha1_of(bytes);
    colour_from_digest(digest.as_slice())
}

/// A colour for a user id that differs much between close ids: that of the
/// SHA-1 digest of the id's bytes in the machine's byte order.
pub fn from_u64(input: &u64) -> (colour: u32)
    ensures
        colour as int == digest_colour(sha1_digest(le_bytes(*input))) || colour as int
            == digest_colour(sha1_digest(le_bytes(*input).reverse())),
{
    let bytes = native_bytes(*input);
    colour_of_bytes(bytes.as_slice())
}

/// The colour of a user has the lowest byte of the id as its red byte (bits
/// 16 to 23), the next byte as green and the third as blue.
pub proof fn law_user_colour_bytes(id: u64)
    ensures
        spec_user_colour(id) == (id % 256) * 65536 + ((id / 256) % 256) * 256 + (id / 65536) % 256,
        0 <= spec_user_colour(id) < 16777216,
{
}

/// The colour of a digest has its first byte as red, the second as green
/// and the third as blue.
pub proof fn law_digest_colour_bytes(digest: Seq<u8>)
    requires
        digest.len() >= 3,
    ensures
        digest_colour(digest) == digest[0] * 65536 + digest[1] * 256 + digest[2],
{
}

} // verus!
