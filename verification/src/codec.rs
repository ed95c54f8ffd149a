//! The record codec: a deterministic, size-bounded byte layout for one
//! storage item, with a proved round trip.
//!
//! Layout, little-endian throughout:
//! bytes 0..8 the id, 8..16 `created_at`, byte 16 a tag for `updated_at`
//! (0 absent, 1 present), 17..25 the `updated_at` value (0 when absent),
//! byte 25 the availability flag, then three length-prefixed text blocks
//! (a two-byte length followed by that many UTF-8 bytes) for the name,
//! the description and the location, with nothing after them.

use vstd::prelude::*;
use vstd::bytes::*;
use vstd::utf8::*;
use vstd::slice::slice_subrange;
use vstd::string::StrSliceExecFns;

use crate::item::{ItemModel, PayloadModel, SmartStorageItem, SmartStorageItemPayload};

verus! {

/// The static upper bound on the serialized size of one record: no valid
/// item's encoding may exceed this many bytes.
pub const MAX_ENCODED_SIZE: usize = 1024;

/// One byte standing for a boolean.
pub open spec fn spec_bool_byte(b: bool) -> Seq<u8> {
    if b {
        seq![1u8]
    } else {
        seq![0u8]
    }
}

/// Tag byte plus value for the optional `updated_at`; an absent value is
/// written canonically as tag 0 with a zero payload.
pub open spec fn spec_opt_bytes(u: Option<u64>) -> Seq<u8> {
    match u {
        Some(t) => seq![1u8] + spec_u64_to_le_bytes(t),
        None => seq![0u8] + spec_u64_to_le_bytes(0u64),
    }
}

/// A text block: two length bytes, then the UTF-8 encoding of the text.
pub open spec fn spec_str_block(s: Seq<char>) -> Seq<u8> {
    spec_u16_to_le_bytes(encode_utf8(s).len() as u16) + encode_utf8(s)
}

/// The full encoding of one item.
pub open spec fn spec_encode(m: ItemModel) -> Seq<u8> {
    spec_u64_to_le_bytes(m.id) + spec_u64_to_le_bytes(m.created_at) + spec_opt_bytes(m.updated_at)
        + spec_bool_byte(m.is_available) + spec_str_block(m.name) + spec_str_block(m.description)
        + spec_str_block(m.location)
}

/// How long the encoding of an item with these three texts is: 26 fixed
/// bytes, plus three blocks of two length bytes and the UTF-8 bytes each.
pub open spec fn texts_encoded_len(name: Seq<char>, description: Seq<char>, location: Seq<char>) -> int {
    32 + encode_utf8(name).len() as int + encode_utf8(description).len() as int
        + encode_utf8(location).len() as int
}

/// Whether an item made of these three texts fits the codec's bound.
pub open spec fn texts_fit(name: Seq<char>, description: Seq<char>, location: Seq<char>) -> bool {
    texts_encoded_len(name, description, location) <= MAX_ENCODED_SIZE
}

/// Whether this item's encoding fits the codec's bound.
pub open spec fn spec_fits(m: ItemModel) -> bool {
    texts_fit(m.name, m.description, m.location)
}

/// Whether the items built from this payload fit the codec's bound.
pub open spec fn payload_fits(p: PayloadModel) -> bool {
    texts_fit(p.name, p.description, p.location)
}

/// Reads one text block off the front of `b`: the decoded text and the
/// remaining bytes, or nothing if `b` is too short or the block's bytes
/// are not valid UTF-8.
pub open spec fn spec_take_block(b: Seq<u8>) -> Option<(Seq<char>, Seq<u8>)> {
    if b.len() < 2 {
        None
    } else {
        let n = spec_u16_from_le_bytes(b.subrange(0, 2)) as int;
        if b.len() < 2 + n {
            None
        } else {
            let body = b.subrange(2, 2 + n);
            if valid_utf8(body) {
                Some((decode_utf8(body), b.subrange(2 + n, b.len() as int)))
            } else {
                None
            }
        }
    }
}

/// The exact inverse of [`spec_encode`]: the item whose encoding `b` is,
/// or nothing when `b` is not the canonical encoding of any item.
pub open spec fn spec_decode(b: Seq<u8>) -> Option<ItemModel> {
    if b.len() < 26 {
        None
    } else {
        let id = spec_u64_from_le_bytes(b.subrange(0, 8));
        let created_at = spec_u64_from_le_bytes(b.subrange(8, 16));
        let tag = b[16];
        let uval = spec_u64_from_le_bytes(b.subrange(17, 25));
        let avail = b[25];
        if !(tag == 0 || tag == 1) {
            None
        } else if tag == 0 && uval != 0 {
            None
        } else if !(avail == 0 || avail == 1) {
            None
        } else {
            match spec_take_block(b.subrange(26, b.len() as int)) {
                None => None,
                Some(p1) => match spec_take_block(p1.1) {
                    None => None,
                    Some(p2) => match spec_take_block(p2.1) {
                        None => None,
                        Some(p3) => if p3.1.len() != 0 {
                            None
                        } else {
                            Some(ItemModel {
                                id: id,
                                name: p1.0,
                                description: p2.0,
                                location: p3.0,
                                created_at: created_at,
                                updated_at: if tag == 1 { Some(uval) } else { None },
                                is_available: avail == 1,
                            })
                        },
                    },
                },
            }
        }
    }
}

/// Reading a block off a block written in front of arbitrary bytes gives
/// the original text and those bytes back.
pub proof fn lemma_take_block_round_trip(s: Seq<char>, rest: Seq<u8>)
    requires
        encode_utf8(s).len() < 65536,
    ensures
        spec_take_block(spec_str_block(s) + rest) == Some((s, rest)),
{
    lemma_auto_spec_u16_to_from_le_bytes();
    broadcast use encode_utf8_valid_utf8, encode_utf8_decode_utf8;

    let eb = encode_utf8(s);
    let b = spec_str_block(s) + rest;
    assert(b.subrange(0, 2) =~= spec_u16_to_le_bytes(eb.len() as u16));
    assert(spec_u16_from_le_bytes(b.subrange(0, 2)) == eb.len());
    assert(b.subrange(2, 2 + eb.len() as int) =~= eb);
    assert(b.subrange(2 + eb.len() as int, b.len() as int) =~= rest);
}

/// Round trip of the codec: decoding the encoding of any item that fits
/// the size bound yields that item again.
pub proof fn lemma_encode_decode(m: ItemModel)
    requires
        spec_fits(m),
    ensures
        spec_decode(spec_encode(m)) == Some(m),
{
    lemma_auto_spec_u64_to_from_le_bytes();
    let b = spec_encode(m);
    let tag: u8 = if m.updated_at is Some { 1 } else { 0 };
    let uval: u64 = match m.updated_at {
        Some(t) => t,
        None => 0,
    };
    let avail: u8 = if m.is_available { 1 } else { 0 };
    assert(spec_opt_bytes(m.updated_at) =~= seq![tag] + spec_u64_to_le_bytes(uval));
    assert(b.subrange(0, 8) =~= spec_u64_to_le_bytes(m.id));
    assert(b.subrange(8, 16) =~= spec_u64_to_le_bytes(m.created_at));
    assert(b[16] == tag);
    assert(b.subrange(17, 25) =~= spec_u64_to_le_bytes(uval));
    assert(b[25] == avail);
    let tail = spec_str_block(m.description) + spec_str_block(m.location);
    assert(b.subrange(26, b.len() as int) =~= spec_str_block(m.name) + tail);
    lemma_take_block_round_trip(m.name, tail);
    lemma_take_block_round_trip(m.description, spec_str_block(m.location));
    assert(spec_str_block(m.location) =~= spec_str_block(m.location) + Seq::<u8>::empty());
    lemma_take_block_round_trip(m.location, Seq::<u8>::empty());
}

/// Relies on str::from_utf8 of std: it succeeds exactly on valid UTF-8
/// input and yields the characters that the bytes encode.
#[verifier::external_body]
fn utf8_to_string(bytes: &[u8]) -> (r: Option<String>)
    ensures
        r matches Some(s) ==> valid_utf8(bytes@) && s@ == decode_utf8(bytes@),
        r is None ==> !valid_utf8(bytes@),
{
    match core::str::from_utf8(bytes) {
        Ok(s) => Some(s.to_owned()),
        Err(_) => None,
    }
}

/// Appends one text block for `s` to `out`.
fn push_str_block(out: &mut Vec<u8>, s: &String)
    requires
        encode_utf8(s@).len() < 65536,
    ensures
        final(out)@ == old(out)@ + spec_str_block(s@),
{
    proof {
        lemma_auto_spec_u16_to_from_le_bytes();
    }
    let body = s.as_str().as_bytes_vec();
    let n: u16 = body.len() as u16;
    let mut lenb = u16_to_le_bytes(n);
    out.append(&mut lenb);
    let mut body_mut = body;
    out.append(&mut body_mut);
    proof {
        assert(out@ =~= old(out)@ + spec_str_block(s@));
    }
}

/// Serializes an item into its canonical byte encoding. The caller owes
/// the size bound; within it, the encoding is exactly [`spec_encode`].
pub fn encode_item(item: &SmartStorageItem) -> (r: Vec<u8>)
    requires
        spec_fits(item@),
    ensures
        r@ == spec_encode(item@),
        r@.len() == texts_encoded_len(item@.name, item@.description, item@.location),
        r@.len() <= MAX_ENCODED_SIZE,
{
    proof {
        lemma_auto_spec_u64_to_from_le_bytes();
        lemma_auto_spec_u16_to_from_le_bytes();
    }
    let mut out = u64_to_le_bytes(item.id);
    let mut created = u64_to_le_bytes(item.created_at);
    out.append(&mut created);
    match item.updated_at {
        Some(t) => {
            out.push(1u8);
            let mut ub = u64_to_le_bytes(t);
            out.append(&mut ub);
        },
        None => {
            out.push(0u8);
            let mut ub = u64_to_le_bytes(0u64);
            out.append(&mut ub);
        },
    }
    out.push(if item.is_available { 1u8 } else { 0u8 });
    push_str_block(&mut out, &item.name);
    push_str_block(&mut out, &item.description);
    push_str_block(&mut out, &item.location);
    proof {
        assert(out@ =~= spec_encode(item@));
        assert(spec_encode(item@).len() == texts_encoded_len(
            item@.name,
            item@.description,
            item@.location,
        ));
    }
    out
}

/// Reads one text block off the front of the slice, returning the text and
/// the remaining bytes.
fn take_block<'a>(b: &'a [u8]) -> (r: Option<(String, &'a [u8])>)
    ensures
        r matches Some(p) ==> spec_take_block(b@) == Some((p.0@, p.1@)),
        r is None ==> spec_take_block(b@) is None,
{
    proof {
        lemma_auto_spec_u16_to_from_le_bytes();
    }
    if b.len() < 2 {
        return None;
    }
    let lenb = slice_subrange(b, 0, 2);
    let n = u16_from_le_bytes(lenb) as usize;
    if n > b.len() - 2 {
        return None;
    }
    let body = slice_subrange(b, 2, 2 + n);
    match utf8_to_string(body) {
        Some(s) => {
            let rest = slice_subrange(b, 2 + n, b.len());
            Some((s, rest))
        },
        None => None,
    }
}

/// Deserializes a canonical encoding back into the item it encodes;
/// returns nothing exactly when the bytes are not such an encoding.
pub fn decode_item(bytes: &Vec<u8>) -> (r: Option<SmartStorageItem>)
    ensures
        r matches Some(item) ==> spec_decode(bytes@) == Some(item@),
        r is None ==> spec_decode(bytes@) is None,
{
    proof {
        lemma_auto_spec_u64_to_from_le_bytes();
    }
    if bytes.len() < 26 {
        return None;
    }
    let s = bytes.as_slice();
    let id = u64_from_le_bytes(slice_subrange(s, 0, 8));
    let created_at = u64_from_le_bytes(slice_subrange(s, 8, 16));
    let tag = bytes[16];
    let uval = u64_from_le_bytes(slice_subrange(s, 17, 25));
    let avail = bytes[25];
    if !(tag == 0 || tag == 1) {
        return None;
    }
    if tag == 0 && uval != 0 {
        return None;
    }
    if !(avail == 0 || avail == 1) {
        return None;
    }
    let rest0 = slice_subrange(s, 26, bytes.len());
    let (name, rest1) = match take_block(rest0) {
        Some(p) => p,
        None => {
            return None;
        },
    };
    let (description, rest2) = match take_block(rest1) {
        Some(p) => p,
        None => {
            return None;
        },
    };
    let (location, rest3) = match take_block(rest2) {
        Some(p) => p,
        None => {
            return None;
        },
    };
    if rest3.len() != 0 {
        return None;
    }
    let updated_at = if tag == 1 { Some(uval) } else { None };
    let item = SmartStorageItem {
        id: id,
        name: name,
        description: description,
        location: location,
        created_at: created_at,
        updated_at: updated_at,
        is_available: avail == 1,
    };
    Some(item)
}

/// Decides whether the items built from this payload stay within the
/// codec's size bound, so that a caller can test before creating or
/// updating.
pub fn payload_within_limit(p: &SmartStorageItemPayload) -> (r: bool)
    ensures
        r == payload_fits(p@),
{
    let a = p.name.as_str().as_bytes().len();
    if a > 992 {
        return false;
    }
    let b = p.description.as_str().as_bytes().len();
    if b > 992 {
        return false;
    }
    let c = p.location.as_str().as_bytes().len();
    if c > 992 {
        return false;
    }
    32 + a + b + c <= MAX_ENCODED_SIZE
}

} // verus!
