//! The MessagePack bytes of an array of strings, as `rmp_serde` writes a
//! `Vec<String>` with its default configuration.

use vstd::prelude::*;
use vstd::utf8::encode_utf8;

verus! {

/// `n` as two big-endian bytes.
pub open spec fn be16(n: nat) -> Seq<u8> {
    seq![(n / 256 % 256) as u8, (n % 256) as u8]
}

/// `n` as four big-endian bytes.
pub open spec fn be32(n: nat) -> Seq<u8> {
    seq![(n / 16777216 % 256) as u8, (n / 65536 % 256) as u8, (n / 256 % 256) as u8, (n % 256) as u8]
}

/// The header of a string of `len` bytes: fixstr, str8, str16 or str32.
pub open spec fn str_header(len: nat) -> Seq<u8> {
    if len < 32 {
        seq![(0xa0 + len) as u8]
    } else if len < 256 {
        seq![0xd9u8, len as u8]
    } else if len < 65536 {
        seq![0xdau8] + be16(len)
    } else {
        seq![0xdbu8] + be32(len)
    }
}

/// The header of an array of `len` elements: fixarray, array16 or array32.
pub open spec fn array_header(len: nat) -> Seq<u8> {
    if len < 16 {
        seq![(0x90 + len) as u8]
    } else if len < 65536 {
        seq![0xdcu8] + be16(len)
    } else {
        seq![0xddu8] + be32(len)
    }
}

/// One string: its header, then its UTF-8 bytes.
pub open spec fn string_bytes(s: Seq<char>) -> Seq<u8> {
    str_header(encode_utf8(s).len()) + encode_utf8(s)
}

/// The strings one after the other.
pub open spec fn strings_bytes(items: Seq<Seq<char>>) -> Seq<u8>
    decreases items.len(),
{
    if items.len() == 0 {
        Seq::<u8>::empty()
    } else {
        strings_bytes(items.drop_last()) + string_bytes(items.last())
    }
}

/// An array of strings: the array header, then each string.
pub open spec fn string_array_bytes(items: Seq<Seq<char>>) -> Seq<u8> {
    array_header(items.len()) + strings_bytes(items)
}

/// Whether every length that the encoding writes fits in 32 bits, as
/// MessagePack requires.
pub open spec fn fits_string_array(items: Seq<Seq<char>>) -> bool {
    &&& items.len() < 4294967296
    &&& forall|i: int| 0 <= i < items.len() ==> encode_utf8(#[trigger] items[i]).len() < 4294967296
}

/// Serializes a `Vec<String>` with `rmp_serde`'s default `Serializer`
/// into a fresh buffer. What is claimed: the bytes are the array header
/// followed by each string's header and UTF-8 bytes, the shortest header
/// form being chosen each time (as `rmp::encode::write_array_len` and
/// `write_str_len` choose it), whenever every length fits in 32 bits.
/// Longer inputs are truncated by the outside code and nothing is claimed.
#[verifier::external_body]
pub(crate) fn encode_string_array(items: &Vec<String>) -> (bytes: Vec<u8>)
    ensures
        fits_string_array(items@.map_values(|s: String| s@)) ==> bytes@ == string_array_bytes(
            items@.map_values(|s: String| s@),
        ),
{
    let mut buf: Vec<u8> = Vec::new();
    serde::Serialize::serialize(items, &mut rmp_serde::Serializer::new(&mut buf)).unwrap();
    buf
}

} // verus!
