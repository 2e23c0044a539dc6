//! Digests of content: how files are told apart by what they hold.

use crate::numbers::{append_hex_fixed, hex_fixed};
use crate::text::from_chars;
use vstd::prelude::*;
use vstd::utf8::encode_utf8;

verus! {

/// The MD5 digest of `data`, as `md5::compute` gives it: its sixteen
/// bytes read as one number, the first byte first.
pub uninterp spec fn md5_digest(data: Seq<u8>) -> u128;

/// Calls `md5::compute` and hands out the digest's sixteen bytes as one
/// number, the first byte first. The digest depends on the data alone.
#[verifier::external_body]
fn md5_of(data: &[u8]) -> (d: u128)
    ensures
        d == md5_digest(data@),
{
    u128::from_be_bytes(md5::compute(data).0)
}

/// The digest that tells the content `data` from other content.
pub fn content_digest(data: &[u8]) -> (d: u128)
    ensures
        d == md5_digest(data@),
{
    md5_of(data)
}

/// The digest of a text in UTF-8.
pub fn text_digest(text: &str) -> (d: u128)
    ensures
        d == md5_digest(encode_utf8(text@)),
{
    md5_of(text.as_bytes())
}

/// The key of a digest: its 32 hexadecimal digits, in lower case.
pub fn digest_key(digest: u128) -> (r: String)
    ensures
        r@ == hex_fixed(digest as nat, 32),
{
    let mut out: Vec<char> = Vec::new();
    append_hex_fixed(&mut out, digest, 32);
    from_chars(out.as_slice())
}

} // verus!
