//! The record, subrecord and group framing of a plugin file.
//!
//! A record is a 24-byte header (tag, payload size, flags, FormID, version
//! control, form version) followed by its subrecords, each a tag, a 16-bit
//! size and the data. A group is a 24-byte header whose size counts the header
//! itself, followed by its records and groups.

use vstd::prelude::*;
use vstd::string::{StrSliceExecFns, StringSliceAdditionalSpecFns};
use crate::le::{le16, le32, u32_le, lemma_u32_le_of_le32, push_u16_le, push_u32_le, push_i32_le};
use crate::esm::EsmError;

verus! {

/// Size of a record header.
pub const RECORD_HEADER_SIZE: usize = 24;

/// Size of a group header, which a group's size field counts.
pub const GROUP_HEADER_SIZE: usize = 24;

/// Form version written into every record header.
pub const RECORD_VERSION: u16 = 44;

/// Largest subrecord data a 16-bit size field can describe.
pub const MAX_SUBRECORD_SIZE: usize = 65535;

/// The bytes of `s` followed by a terminating NUL.
pub open spec fn cstring_bytes(s: &str) -> Seq<u8> {
    s.spec_bytes().push(0u8)
}

/// A subrecord: its tag, the 16-bit size of `data`, then `data`.
pub open spec fn subrecord_bytes(tag: Seq<u8>, data: Seq<u8>) -> Seq<u8> {
    tag + le16(data.len() as int) + data
}

/// A record: its tag, payload size, zero flags, FormID, zero version
/// control, [`RECORD_VERSION`], a zero word, then the payload.
#[verifier::opaque]
pub open spec fn record_bytes(tag: Seq<u8>, form_id: int, payload: Seq<u8>) -> Seq<u8> {
    tag + le32(payload.len() as int) + le32(0) + le32(form_id) + le32(0) + le16(
        RECORD_VERSION as int,
    ) + le16(0) + payload
}

/// The tag of a group.
pub open spec fn grup_tag() -> Seq<u8> {
    seq![71u8, 82, 85, 80]
}

/// A group: `GRUP`, the size of the group including its header, the label,
/// the group type, eight zero bytes, then the content.
#[verifier::opaque]
pub open spec fn group_bytes(group_type: int, label: int, content: Seq<u8>) -> Seq<u8> {
    grup_tag() + le32(content.len() + GROUP_HEADER_SIZE) + le32(label) + le32(group_type) + Seq::new(
        8,
        |_i: int| 0u8,
    ) + content
}

/// A record is its header and its payload.
pub broadcast proof fn lemma_record_len(tag: Seq<u8>, form_id: int, payload: Seq<u8>)
    requires
        tag.len() == 4,
    ensures
        #[trigger] record_bytes(tag, form_id, payload).len() == RECORD_HEADER_SIZE + payload.len(),
{
    reveal(record_bytes);
}

/// A group is its header and its content.
pub broadcast proof fn lemma_group_len(group_type: int, label: int, content: Seq<u8>)
    ensures
        #[trigger] group_bytes(group_type, label, content).len() == GROUP_HEADER_SIZE + content.len(),
{
    reveal(group_bytes);
}

/// A four-character tag.
pub fn tag(a: u8, b: u8, c: u8, d: u8) -> (t: [u8; 4])
    ensures
        t@ == seq![a, b, c, d],
{
    let t = [a, b, c, d];
    assert(t@ =~= seq![a, b, c, d]);
    t
}

/// Appends `data`.
pub fn append_bytes(out: &mut Vec<u8>, data: &[u8])
    ensures
        final(out)@ == old(out)@ + data@,
{
    let mut i: usize = 0;
    while i < data.len()
        invariant
            i <= data@.len(),
            out@ == old(out)@ + data@.take(i as int),
        decreases data@.len() - i,
    {
        out.push(data[i]);
        i += 1;
        assert(out@ =~= old(out)@ + data@.take(i as int));
    }
    assert(data@.take(data@.len() as int) =~= data@);
}

/// The bytes of `value` followed by a terminating NUL.
pub fn cstring(value: &str) -> (r: Vec<u8>)
    ensures
        r@ == cstring_bytes(value),
{
    let mut bytes = value.as_bytes_vec();
    bytes.push(0);
    bytes
}

/// Appends the subrecord `tag` with `data`, which must fit a 16-bit size.
pub fn push_subrecord(payload: &mut Vec<u8>, sub_tag: [u8; 4], data: &[u8]) -> (r: Result<
    (),
    EsmError,
>)
    ensures
        r is Ok <==> data@.len() <= MAX_SUBRECORD_SIZE,
        r is Ok ==> final(payload)@ == old(payload)@ + subrecord_bytes(sub_tag@, data@),
        r matches Err(e) ==> e == EsmError::SubrecordTooLong,
{
    if data.len() > MAX_SUBRECORD_SIZE {
        return Err(EsmError::SubrecordTooLong);
    }
    let ghost start = payload@;
    append_bytes(payload, &sub_tag);
    push_u16_le(payload, data.len() as u16);
    append_bytes(payload, data);
    assert(payload@ =~= start + subrecord_bytes(sub_tag@, data@));
    Ok(())
}

/// A record with the given payload, whose size must fit 32 bits.
pub fn record(record_tag: [u8; 4], form_id: u32, payload: &[u8]) -> (r: Result<
    Vec<u8>,
    EsmError,
>)
    ensures
        r is Ok <==> payload@.len() <= u32::MAX,
        r matches Ok(bytes) ==> bytes@ == record_bytes(record_tag@, form_id as int, payload@),
        r matches Err(e) ==> e == EsmError::RecordTooLong,
{
    if payload.len() > 0xffff_ffff {
        return Err(EsmError::RecordTooLong);
    }
    let mut bytes: Vec<u8> = Vec::new();
    append_bytes(&mut bytes, &record_tag);
    push_u32_le(&mut bytes, payload.len() as u32);
    push_u32_le(&mut bytes, 0);
    push_u32_le(&mut bytes, form_id);
    push_u32_le(&mut bytes, 0);
    push_u16_le(&mut bytes, RECORD_VERSION);
    push_u16_le(&mut bytes, 0);
    append_bytes(&mut bytes, payload);
    reveal(record_bytes);
    assert(bytes@ =~= record_bytes(record_tag@, form_id as int, payload@));
    Ok(bytes)
}

/// A group of type `group_type` with `label` around `content`; the size
/// field, which counts the header, must fit 32 bits.
pub fn group(group_type: i32, label: u32, content: &[u8]) -> (r: Result<Vec<u8>, EsmError>)
    ensures
        r is Ok <==> content@.len() + GROUP_HEADER_SIZE <= u32::MAX,
        r matches Ok(bytes) ==> bytes@ == group_bytes(group_type as int, label as int, content@),
        r matches Err(e) ==> e == EsmError::GroupTooLong,
{
    if content.len() >= 0xffff_ffff || content.len() > 0xffff_ffff - GROUP_HEADER_SIZE {
        return Err(EsmError::GroupTooLong);
    }
    let mut bytes: Vec<u8> = Vec::new();
    append_bytes(&mut bytes, &tag(71, 82, 85, 80));
    push_u32_le(&mut bytes, (content.len() + GROUP_HEADER_SIZE) as u32);
    push_u32_le(&mut bytes, label);
    push_i32_le(&mut bytes, group_type);
    let ghost prefix = bytes@;
    let mut i: usize = 0;
    while i < 8
        invariant
            i <= 8,
            bytes@ == prefix + Seq::new(i as nat, |_j: int| 0u8),
        decreases 8 - i,
    {
        bytes.push(0);
        i += 1;
        assert(bytes@ =~= prefix + Seq::new(i as nat, |_j: int| 0u8));
    }
    append_bytes(&mut bytes, content);
    reveal(group_bytes);
    assert(bytes@ =~= group_bytes(group_type as int, label as int, content@));
    Ok(bytes)
}


/// A reader that walks records by their size fields finds the tag in the
/// first four bytes, the payload size in the next four, and the payload right
/// after the 24-byte header.
pub proof fn lemma_record_size_field(record_tag: Seq<u8>, form_id: int, payload: Seq<u8>)
    requires
        record_tag.len() == 4,
        payload.len() <= u32::MAX,
    ensures
        record_bytes(record_tag, form_id, payload).take(4) == record_tag,
        u32_le(record_bytes(record_tag, form_id, payload), 4) == payload.len(),
        record_bytes(record_tag, form_id, payload).skip(RECORD_HEADER_SIZE as int) == payload,
{
    reveal(record_bytes);
    let b = record_bytes(record_tag, form_id, payload);
    assert(b.take(4) =~= record_tag);
    assert(b.subrange(4, 8) =~= le32(payload.len() as int));
    lemma_u32_le_of_le32(payload.len() as int, b, 4);
    assert(b.skip(RECORD_HEADER_SIZE as int) =~= payload);
}

/// A reader that walks groups by their size fields finds `GRUP`, then a size
/// that counts the header and the content, and the content right after the
/// 24-byte header.
pub proof fn lemma_group_size_field(group_type: int, label: int, content: Seq<u8>)
    requires
        content.len() + GROUP_HEADER_SIZE <= u32::MAX,
    ensures
        group_bytes(group_type, label, content).take(4) == grup_tag(),
        u32_le(group_bytes(group_type, label, content), 4) == content.len() + GROUP_HEADER_SIZE,
        group_bytes(group_type, label, content).skip(GROUP_HEADER_SIZE as int) == content,
{
    reveal(group_bytes);
    let b = group_bytes(group_type, label, content);
    assert(b.take(4) =~= grup_tag());
    assert(b.subrange(4, 8) =~= le32(content.len() + GROUP_HEADER_SIZE));
    lemma_u32_le_of_le32(content.len() + GROUP_HEADER_SIZE, b, 4);
    assert(b.skip(GROUP_HEADER_SIZE as int) =~= content);
}

} // verus!
