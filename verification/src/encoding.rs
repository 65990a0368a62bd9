//! The byte layout by which a base-chain transaction announces a commitment
//! for the secondary chain.
//!
//! A transaction carries a commitment when its payload starts with the three
//! tag bytes `4d 4d 43`. What follows the tag is the commitment body. A body
//! is well formed when it is exactly 38 bytes long:
//!
//! | offset | length | field                                        |
//! |--------|--------|----------------------------------------------|
//! | 0      | 32     | hash of the secondary-chain block            |
//! | 32     | 4      | height of the parent block, big-endian       |
//! | 36     | 2      | index of the parent transaction, big-endian  |
//!
//! The tag decides whether a transaction is looked at; the body decides
//! whether what it carries can be used.

use vstd::prelude::*;

verus! {

/// Number of tag bytes in front of a commitment body.
pub const TAG_LEN: usize = 3;

/// Length of a well-formed commitment body.
pub const BODY_LEN: usize = 38;

/// Length of the block hash at the start of a body.
pub const HASH_LEN: usize = 32;

/// First tag byte.
pub const TAG_0: u8 = 0x4d;

/// Second tag byte.
pub const TAG_1: u8 = 0x4d;

/// Third tag byte.
pub const TAG_2: u8 = 0x43;

/// The tag that marks a payload as a commitment.
pub open spec fn commitment_tag() -> Seq<u8> {
    seq![TAG_0, TAG_1, TAG_2]
}

/// Whether `payload` starts with the commitment tag.
pub open spec fn carries_commitment(payload: Seq<u8>) -> bool {
    payload.len() >= TAG_LEN && payload.take(TAG_LEN as int) == commitment_tag()
}

/// The bytes that follow the tag.
pub open spec fn commitment_body(payload: Seq<u8>) -> Seq<u8> {
    payload.skip(TAG_LEN as int)
}

/// Whether `body` has the layout of a commitment.
pub open spec fn well_formed_body(body: Seq<u8>) -> bool {
    body.len() == BODY_LEN
}

/// The big-endian number held in the `width` bytes of `bytes` from `at` on.
pub open spec fn big_endian(bytes: Seq<u8>, at: int, width: nat) -> nat
    decreases width,
{
    if width == 0 {
        0
    } else {
        big_endian(bytes, at, (width - 1) as nat) * 256 + bytes[at + width - 1] as nat
    }
}

/// The fields of a commitment, decoded.
#[derive(Debug, PartialEq, Eq)]
pub struct CommitmentFields {
    /// Hash of the secondary-chain block that is committed to.
    pub block_hash: Vec<u8>,
    /// Height of the parent block on the secondary chain.
    pub parent_height: u32,
    /// Position of the parent's commitment in its base-chain block.
    pub parent_index: u16,
}

/// Model of [`CommitmentFields`].
pub struct FieldsModel {
    pub block_hash: Seq<u8>,
    pub parent_height: nat,
    pub parent_index: nat,
}

impl View for CommitmentFields {
    type V = FieldsModel;

    open spec fn view(&self) -> FieldsModel {
        FieldsModel {
            block_hash: self.block_hash@,
            parent_height: self.parent_height as nat,
            parent_index: self.parent_index as nat,
        }
    }
}

/// What a body decodes to: its fields where it is well formed, nothing
/// otherwise.
pub open spec fn decoded_fields(body: Seq<u8>) -> Option<FieldsModel> {
    if well_formed_body(body) {
        Some(
            FieldsModel {
                block_hash: body.subrange(0, HASH_LEN as int),
                parent_height: big_endian(body, 32, 4),
                parent_index: big_endian(body, 36, 2),
            },
        )
    } else {
        None
    }
}

/// Copies `src` from position `start` to its end; nothing where `start` lies
/// behind the end.
pub fn bytes_from(src: &[u8], start: usize) -> (out: Vec<u8>)
    ensures
        start <= src@.len() ==> out@ == src@.skip(start as int),
        start > src@.len() ==> out@ == Seq::<u8>::empty(),
{
    let mut out: Vec<u8> = Vec::new();
    if start > src.len() {
        return out;
    }
    let mut i: usize = start;
    while i < src.len()
        invariant
            start <= i <= src@.len(),
            out@ == src@.subrange(start as int, i as int),
        decreases src@.len() - i,
    {
        out.push(src[i]);
        i += 1;
    }
    out
}

/// Tells whether `payload` starts with the commitment tag.
pub fn has_commitment_tag(payload: &[u8]) -> (found: bool)
    ensures
        found == carries_commitment(payload@),
{
    let found = payload.len() >= TAG_LEN && payload[0] == TAG_0 && payload[1] == TAG_1
        && payload[2] == TAG_2;
    proof {
        if payload@.len() >= TAG_LEN {
            let head = payload@.take(TAG_LEN as int);
            assert(head[0] == payload@[0] && head[1] == payload@[1] && head[2] == payload@[2]);
            if found {
                assert(head =~= commitment_tag());
            }
        }
    }
    found
}

/// Hands out the commitment body of `payload`, if it carries the tag.
pub fn extract_body(payload: &[u8]) -> (body: Option<Vec<u8>>)
    ensures
        match body {
            Some(b) => carries_commitment(payload@) && b@ == commitment_body(payload@),
            None => !carries_commitment(payload@),
        },
{
    if has_commitment_tag(payload) {
        Some(bytes_from(payload, TAG_LEN))
    } else {
        None
    }
}

/// Decodes a commitment body. It succeeds exactly on well-formed bodies.
pub fn decode_fields(body: &[u8]) -> (fields: Option<CommitmentFields>)
    ensures
        match fields {
            Some(f) => decoded_fields(body@) == Some(f@),
            None => decoded_fields(body@) is None,
        },
{
    if body.len() != BODY_LEN {
        return None;
    }
    let mut block_hash: Vec<u8> = Vec::new();
    let mut i: usize = 0;
    while i < HASH_LEN
        invariant
            i <= HASH_LEN,
            body@.len() == BODY_LEN,
            block_hash@ == body@.subrange(0, i as int),
        decreases HASH_LEN - i,
    {
        block_hash.push(body[i]);
        i += 1;
    }
    let parent_height: u32 = ((body[32] as u32 * 256 + body[33] as u32) * 256 + body[34] as u32)
        * 256 + body[35] as u32;
    let parent_index: u16 = body[36] as u16 * 256 + body[37] as u16;
    proof {
        reveal_with_fuel(big_endian, 5);
    }
    Some(CommitmentFields { block_hash, parent_height, parent_index })
}

} // verus!
