//! The on-flash encoding of artifact block headers and commit records.
//!
//! Page zero of every artifact block holds two 512-byte metadata sectors:
//! the header at column 0 (written when the block is allocated) and the
//! commit record at column 512 (written when the block is complete).

use vstd::prelude::*;
use vstd::utf8::*;
use vstd::string::StringSliceAdditionalSpecFns;
use crate::store::ArtifactError;

verus! {

/// Size of one metadata sector (header or commit record).
pub const METADATA_SECTOR_SIZE: usize = 512;
/// Version byte written into every header.
pub const ARTIFACT_VERSION: u8 = 1;
/// Longest artifact name, in bytes.
pub const ARTIFACT_NAME_CAPACITY: usize = 240;
/// Offset of the name inside a header.
pub const HEADER_NAME_OFFSET: usize = 16;

/// `b"LRAF"`, the first four bytes of a header.
pub open spec fn artifact_magic() -> Seq<u8> {
    seq![0x4cu8, 0x52u8, 0x41u8, 0x46u8]
}

/// `b"DONE"`, the first four bytes of a commit record.
pub open spec fn commit_magic() -> Seq<u8> {
    seq![0x44u8, 0x4fu8, 0x4eu8, 0x45u8]
}

// ---------------------------------------------------------------------
// Little-endian integers

pub open spec fn le16(v: u16) -> Seq<u8> {
    seq![(v & 0xff) as u8, (v >> 8u16) as u8]
}

pub open spec fn le32(v: u32) -> Seq<u8> {
    seq![(v & 0xff) as u8, ((v >> 8u32) & 0xff) as u8, ((v >> 16u32) & 0xff) as u8, (v >> 24u32) as u8]
}

pub open spec fn le64(v: u64) -> Seq<u8> {
    seq![
        (v & 0xff) as u8,
        ((v >> 8u64) & 0xff) as u8,
        ((v >> 16u64) & 0xff) as u8,
        ((v >> 24u64) & 0xff) as u8,
        ((v >> 32u64) & 0xff) as u8,
        ((v >> 40u64) & 0xff) as u8,
        ((v >> 48u64) & 0xff) as u8,
        (v >> 56u64) as u8,
    ]
}

pub open spec fn from_le16(b: Seq<u8>) -> u16 {
    (b[0] as u16) | ((b[1] as u16) << 8u16)
}

pub open spec fn from_le32(b: Seq<u8>) -> u32 {
    (b[0] as u32) | ((b[1] as u32) << 8u32) | ((b[2] as u32) << 16u32) | ((b[3] as u32) << 24u32)
}

pub open spec fn from_le64(b: Seq<u8>) -> u64 {
    (b[0] as u64) | ((b[1] as u64) << 8u64) | ((b[2] as u64) << 16u64) | ((b[3] as u64) << 24u64)
        | ((b[4] as u64) << 32u64) | ((b[5] as u64) << 40u64) | ((b[6] as u64) << 48u64)
        | ((b[7] as u64) << 56u64)
}

pub proof fn lemma_le16_round_trip(v: u16)
    ensures
        from_le16(le16(v)) == v,
{
    let b0 = (v & 0xff) as u8;
    let b1 = (v >> 8u16) as u8;
    assert((b0 as u16) | ((b1 as u16) << 8u16) == v) by (bit_vector)
        requires
            b0 == (v & 0xff) as u8,
            b1 == (v >> 8u16) as u8,
    ;
}

pub proof fn lemma_le32_round_trip(v: u32)
    ensures
        from_le32(le32(v)) == v,
{
    let b0 = (v & 0xff) as u8;
    let b1 = ((v >> 8u32) & 0xff) as u8;
    let b2 = ((v >> 16u32) & 0xff) as u8;
    let b3 = (v >> 24u32) as u8;
    assert((b0 as u32) | ((b1 as u32) << 8u32) | ((b2 as u32) << 16u32) | ((b3 as u32) << 24u32)
        == v) by (bit_vector)
        requires
            b0 == (v & 0xff) as u8,
            b1 == ((v >> 8u32) & 0xff) as u8,
            b2 == ((v >> 16u32) & 0xff) as u8,
            b3 == (v >> 24u32) as u8,
    ;
}

pub proof fn lemma_le64_round_trip(v: u64)
    ensures
        from_le64(le64(v)) == v,
{
    let b0 = (v & 0xff) as u8;
    let b1 = ((v >> 8u64) & 0xff) as u8;
    let b2 = ((v >> 16u64) & 0xff) as u8;
    let b3 = ((v >> 24u64) & 0xff) as u8;
    let b4 = ((v >> 32u64) & 0xff) as u8;
    let b5 = ((v >> 40u64) & 0xff) as u8;
    let b6 = ((v >> 48u64) & 0xff) as u8;
    let b7 = (v >> 56u64) as u8;
    assert((b0 as u64) | ((b1 as u64) << 8u64) | ((b2 as u64) << 16u64) | ((b3 as u64) << 24u64)
        | ((b4 as u64) << 32u64) | ((b5 as u64) << 40u64) | ((b6 as u64) << 48u64)
        | ((b7 as u64) << 56u64) == v) by (bit_vector)
        requires
            b0 == (v & 0xff) as u8,
            b1 == ((v >> 8u64) & 0xff) as u8,
            b2 == ((v >> 16u64) & 0xff) as u8,
            b3 == ((v >> 24u64) & 0xff) as u8,
            b4 == ((v >> 32u64) & 0xff) as u8,
            b5 == ((v >> 40u64) & 0xff) as u8,
            b6 == ((v >> 48u64) & 0xff) as u8,
            b7 == (v >> 56u64) as u8,
    ;
}


// ---------------------------------------------------------------------
// Names

/// A name can be stored: it has 1 to 240 bytes and no NUL byte.
pub open spec fn valid_name_bytes(name: Seq<u8>) -> bool {
    &&& 0 < name.len() <= ARTIFACT_NAME_CAPACITY
    &&& forall|i: int| 0 <= i < name.len() ==> name[i] != 0
}

/// A name can be stored exactly when it is 1 to 240 bytes long and holds
/// no NUL byte.
pub proof fn lemma_valid_names(name: Seq<u8>)
    ensures
        valid_name_bytes(name) <==> (1 <= name.len() <= 240 && forall|i: int| 0 <= i < name.len() ==> name[i] != 0u8),
{
}

/// Checks that `name` can be stored in a header.
pub fn validate_name<E>(name: &str) -> (result: Result<(), ArtifactError<E>>)
    ensures
        result is Ok <==> valid_name_bytes(name.spec_bytes()),
        result is Err ==> result->Err_0 is InvalidName,
{
    let bytes = name.as_bytes();
    if name.len() == 0 || name.len() > ARTIFACT_NAME_CAPACITY {
        return Err(ArtifactError::InvalidName);
    }
    let mut i: usize = 0;
    while i < bytes.len()
        invariant
            bytes@ == name.spec_bytes(),
            i <= bytes.len(),
            forall|j: int| 0 <= j < i ==> bytes@[j] != 0,
        decreases bytes.len() - i,
    {
        if bytes[i] == 0 {
            return Err(ArtifactError::InvalidName);
        }
        i = i + 1;
    }
    Ok(())
}

// ---------------------------------------------------------------------
// Headers

/// Byte `k` of the header sector that `encode_header` writes over `sector`.
pub open spec fn header_byte(sector: Seq<u8>, name: Seq<u8>, generation: u32, logical_index: u16, k: int) -> u8 {
    if k == 0 { 0x4c }
    else if k == 1 { 0x52 }
    else if k == 2 { 0x41 }
    else if k == 3 { 0x46 }
    else if k == 4 { ARTIFACT_VERSION }
    else if k == 5 { name.len() as u8 }
    else if k == 8 { (generation & 0xff) as u8 }
    else if k == 9 { ((generation >> 8u32) & 0xff) as u8 }
    else if k == 10 { ((generation >> 16u32) & 0xff) as u8 }
    else if k == 11 { (generation >> 24u32) as u8 }
    else if k == 12 { (logical_index & 0xff) as u8 }
    else if k == 13 { (logical_index >> 8u16) as u8 }
    else if HEADER_NAME_OFFSET <= k < HEADER_NAME_OFFSET + name.len() { name[k - HEADER_NAME_OFFSET] }
    else { sector[k] }
}

/// The header sector that `encode_header` makes out of `sector`: magic
/// `LRAF`, version, name length, little-endian generation and logical
/// index, and the name from offset 16; bytes 6, 7, 14, 15 and those after
/// the name keep their previous value.
pub open spec fn header_image(sector: Seq<u8>, name: Seq<u8>, generation: u32, logical_index: u16) -> Seq<u8> {
    Seq::new(sector.len(), |k: int| header_byte(sector, name, generation, logical_index, k))
}

/// What `decode_header` reads out of a sector: the name (as characters),
/// the generation and the logical index, or nothing.
pub open spec fn header_fields(b: Seq<u8>) -> Option<(Seq<char>, u32, u16)> {
    if b.len() < METADATA_SECTOR_SIZE || b.subrange(0, 4) != artifact_magic() || b[4] != ARTIFACT_VERSION {
        None
    } else {
        let n = b[5] as int;
        let name = b.subrange(HEADER_NAME_OFFSET as int, HEADER_NAME_OFFSET + n);
        if n == 0 || n > ARTIFACT_NAME_CAPACITY || !valid_utf8(name) {
            None
        } else {
            Some((decode_utf8(name), from_le32(b.subrange(8, 12)), from_le16(b.subrange(12, 14))))
        }
    }
}

/// Writes a block header for `name` into `out`.
pub fn encode_header<E>(
    out: &mut [u8; METADATA_SECTOR_SIZE],
    name: &str,
    generation: u32,
    logical_index: u16,
) -> (result: Result<(), ArtifactError<E>>)
    ensures
        result is Ok <==> valid_name_bytes(name.spec_bytes()),
        result is Err ==> result->Err_0 is InvalidName && final(out)@ == old(out)@,
        result is Ok ==> final(out)@ == header_image(old(out)@, name.spec_bytes(), generation, logical_index),
{
    validate_name(name)?;
    let bytes = name.as_bytes();
    let ghost name_bytes = bytes@;
    let ghost start = out@;
    out[0] = 0x4c;
    out[1] = 0x52;
    out[2] = 0x41;
    out[3] = 0x46;
    out[4] = ARTIFACT_VERSION;
    out[5] = bytes.len() as u8;
    out[8] = (generation & 0xff) as u8;
    out[9] = ((generation >> 8) & 0xff) as u8;
    out[10] = ((generation >> 16) & 0xff) as u8;
    out[11] = (generation >> 24) as u8;
    out[12] = (logical_index & 0xff) as u8;
    out[13] = (logical_index >> 8) as u8;
    let ghost fixed = out@;
    let mut j: usize = 0;
    while j < bytes.len()
        invariant
            bytes@ == name_bytes,
            bytes.len() <= ARTIFACT_NAME_CAPACITY,
            j <= bytes.len(),
            out@.len() == METADATA_SECTOR_SIZE,
            forall|k: int| 0 <= k < METADATA_SECTOR_SIZE && !(HEADER_NAME_OFFSET <= k < HEADER_NAME_OFFSET + j)
                ==> out@[k] == fixed[k],
            forall|k: int| 0 <= k < j ==> out@[HEADER_NAME_OFFSET + k] == bytes@[k],
        decreases bytes.len() - j,
    {
        out[HEADER_NAME_OFFSET + j] = bytes[j];
        j = j + 1;
    }
    assert(start.len() == METADATA_SECTOR_SIZE);
    assert forall|k: int| 0 <= k < METADATA_SECTOR_SIZE implies
        out@[k] == header_byte(start, name_bytes, generation, logical_index, k) by {
        if HEADER_NAME_OFFSET <= k < HEADER_NAME_OFFSET + name_bytes.len() {
            assert(out@[HEADER_NAME_OFFSET + (k - HEADER_NAME_OFFSET)] == bytes@[k - HEADER_NAME_OFFSET]);
        } else {
            assert(out@[k] == fixed[k]);
        }
    }
    assert(out@ =~= header_image(start, name_bytes, generation, logical_index));
    Ok(())
}


/// `core::str::from_utf8`: the bytes as a string slice when they are valid
/// UTF-8. The contract states what the standard library documents: the
/// call succeeds exactly on valid UTF-8, and the slice it returns consists
/// of the same bytes.
#[verifier::external_body]
fn utf8_str(bytes: &[u8]) -> (text: Option<&str>)
    ensures
        text is Some <==> valid_utf8(bytes@),
        text matches Some(s) ==> s.spec_bytes() == bytes@,
{
    core::str::from_utf8(bytes).ok()
}

/// Little-endian `u16` from two bytes.
fn read_le16(b0: u8, b1: u8) -> (v: u16)
    ensures
        v == from_le16(seq![b0, b1]),
{
    (b0 as u16) | ((b1 as u16) << 8)
}

/// Little-endian `u32` from four bytes.
fn read_le32(b: &[u8], at: usize) -> (v: u32)
    requires
        at + 4 <= b@.len(),
    ensures
        v == from_le32(b@.subrange(at as int, at + 4)),
{
    (b[at] as u32) | ((b[at + 1] as u32) << 8) | ((b[at + 2] as u32) << 16) | ((b[at + 3] as u32) << 24)
}

/// Little-endian `u64` from eight bytes.
fn read_le64(b: &[u8], at: usize) -> (v: u64)
    requires
        at + 8 <= b@.len(),
    ensures
        v == from_le64(b@.subrange(at as int, at + 8)),
{
    (b[at] as u64) | ((b[at + 1] as u64) << 8) | ((b[at + 2] as u64) << 16) | ((b[at + 3] as u64) << 24)
        | ((b[at + 4] as u64) << 32) | ((b[at + 5] as u64) << 40) | ((b[at + 6] as u64) << 48)
        | ((b[at + 7] as u64) << 56)
}

/// Reads a block header: the name, generation and logical index, or
/// `None` when the sector holds no valid header.
pub fn decode_header(bytes: &[u8]) -> (fields: Option<(String, u32, u16)>)
    ensures
        fields is None <==> header_fields(bytes@) is None,
        fields matches Some((name, generation, logical_index)) ==> header_fields(bytes@) == Some(
            (name@, generation, logical_index),
        ),
{
    if bytes.len() < METADATA_SECTOR_SIZE || bytes[0] != 0x4c || bytes[1] != 0x52 || bytes[2] != 0x41
        || bytes[3] != 0x46 || bytes[4] != ARTIFACT_VERSION {
        proof {
            if bytes@.len() >= METADATA_SECTOR_SIZE && bytes@[4] == ARTIFACT_VERSION {
                assert(bytes@.subrange(0, 4) != artifact_magic()) by {
                    if bytes@.subrange(0, 4) == artifact_magic() {
                        assert(bytes@.subrange(0, 4)[0] == bytes@[0]);
                        assert(bytes@.subrange(0, 4)[1] == bytes@[1]);
                        assert(bytes@.subrange(0, 4)[2] == bytes@[2]);
                        assert(bytes@.subrange(0, 4)[3] == bytes@[3]);
                    }
                }
            }
        }
        return None;
    }
    assert(bytes@.subrange(0, 4) =~= artifact_magic());
    let name_len = bytes[5] as usize;
    if name_len == 0 || name_len > ARTIFACT_NAME_CAPACITY {
        return None;
    }
    let name = match utf8_str(&bytes[HEADER_NAME_OFFSET..HEADER_NAME_OFFSET + name_len]) {
        Some(text) => text,
        None => {
            return None;
        },
    };
    let ghost raw = bytes@.subrange(HEADER_NAME_OFFSET as int, HEADER_NAME_OFFSET + name_len);
    proof {
        decode_utf8_encode_utf8(raw);
        encode_utf8_decode_utf8(name@);
    }
    let owned = name.to_owned();
    let generation = read_le32(bytes, 8);
    let logical_index = read_le16(bytes[12], bytes[13]);
    assert(bytes@.subrange(12, 14) =~= seq![bytes@[12], bytes@[13]]);
    Some((owned, generation, logical_index))
}


/// A header that `encode_header` wrote decodes to the same name,
/// generation and logical index.
pub proof fn lemma_header_round_trip(sector: Seq<u8>, name: Seq<char>, generation: u32, logical_index: u16)
    requires
        sector.len() == METADATA_SECTOR_SIZE,
        valid_name_bytes(encode_utf8(name)),
    ensures
        header_fields(header_image(sector, encode_utf8(name), generation, logical_index)) == Some(
            (name, generation, logical_index),
        ),
{
    let bytes = encode_utf8(name);
    let img = header_image(sector, bytes, generation, logical_index);
    assert(img.subrange(0, 4) =~= artifact_magic());
    assert(img[5] == bytes.len());
    assert(img.subrange(HEADER_NAME_OFFSET as int, HEADER_NAME_OFFSET + bytes.len()) =~= bytes);
    encode_utf8_valid_utf8(name);
    encode_utf8_decode_utf8(name);
    assert(img.subrange(8, 12) =~= le32(generation));
    lemma_le32_round_trip(generation);
    assert(img.subrange(12, 14) =~= le16(logical_index));
    lemma_le16_round_trip(logical_index);
}

// ---------------------------------------------------------------------
// Commit records

/// Byte `k` of the commit record for a block holding `size` bytes with
/// checksum `crc`; `total_size` is the artifact's size (recorded in its
/// final block).
pub open spec fn commit_byte(size: u32, crc: u32, is_final: bool, total_size: u64, k: int) -> u8 {
    if k == 0 { 0x44 }
    else if k == 1 { 0x4f }
    else if k == 2 { 0x4e }
    else if k == 3 { 0x45 }
    else if 4 <= k < 8 { le32(size)[k - 4] }
    else if 8 <= k < 12 { le32(crc)[k - 8] }
    else if k == 12 { if is_final { 0 } else { 0x7f } }
    else if 16 <= k < 24 { le64(total_size)[k - 16] }
    else { 0xff }
}

/// The 512-byte commit record sector.
pub open spec fn commit_image(size: u32, crc: u32, is_final: bool, total_size: u64) -> Seq<u8> {
    Seq::new(METADATA_SECTOR_SIZE as nat, |k: int| commit_byte(size, crc, is_final, total_size, k))
}

/// What `decode_commit` reads out of a sector: block size, block checksum,
/// whether the block is the artifact's last, and the artifact's size.
pub open spec fn commit_fields(b: Seq<u8>) -> Option<(u32, u32, bool, u64)> {
    if b.len() < METADATA_SECTOR_SIZE || b.subrange(0, 4) != commit_magic() || (b[12] != 0 && b[12] != 0x7f) {
        None
    } else {
        Some((from_le32(b.subrange(4, 8)), from_le32(b.subrange(8, 12)), b[12] == 0, from_le64(b.subrange(16, 24))))
    }
}

/// Builds the commit record sector.
pub fn encode_commit(size: u32, crc32: u32, is_final: bool, total_size: u64) -> (commit: Vec<u8>)
    ensures
        commit@ == commit_image(size, crc32, is_final, total_size),
{
    let mut commit: Vec<u8> = Vec::new();
    let mut k: usize = 0;
    while k < METADATA_SECTOR_SIZE
        invariant
            k <= METADATA_SECTOR_SIZE,
            commit@.len() == k,
            forall|j: int| 0 <= j < k ==> commit@[j] == 0xff,
        decreases METADATA_SECTOR_SIZE - k,
    {
        commit.push(0xff);
        k = k + 1;
    }
    commit.set(0, 0x44);
    commit.set(1, 0x4f);
    commit.set(2, 0x4e);
    commit.set(3, 0x45);
    commit.set(4, (size & 0xff) as u8);
    commit.set(5, ((size >> 8) & 0xff) as u8);
    commit.set(6, ((size >> 16) & 0xff) as u8);
    commit.set(7, (size >> 24) as u8);
    commit.set(8, (crc32 & 0xff) as u8);
    commit.set(9, ((crc32 >> 8) & 0xff) as u8);
    commit.set(10, ((crc32 >> 16) & 0xff) as u8);
    commit.set(11, (crc32 >> 24) as u8);
    commit.set(12, if is_final { 0 } else { 0x7f });
    commit.set(16, (total_size & 0xff) as u8);
    commit.set(17, ((total_size >> 8) & 0xff) as u8);
    commit.set(18, ((total_size >> 16) & 0xff) as u8);
    commit.set(19, ((total_size >> 24) & 0xff) as u8);
    commit.set(20, ((total_size >> 32) & 0xff) as u8);
    commit.set(21, ((total_size >> 40) & 0xff) as u8);
    commit.set(22, ((total_size >> 48) & 0xff) as u8);
    commit.set(23, (total_size >> 56) as u8);
    assert forall|k: int| 0 <= k < METADATA_SECTOR_SIZE implies
        commit@[k] == commit_byte(size, crc32, is_final, total_size, k) by {
        if 4 <= k < 8 {
            if k == 4 {} else if k == 5 {} else if k == 6 {} else {}
        } else if 8 <= k < 12 {
            if k == 8 {} else if k == 9 {} else if k == 10 {} else {}
        } else if 16 <= k < 24 {
            if k == 16 {} else if k == 17 {} else if k == 18 {} else if k == 19 {}
            else if k == 20 {} else if k == 21 {} else if k == 22 {} else {}
        }
    }
    assert(commit@ =~= commit_image(size, crc32, is_final, total_size));
    commit
}

/// Reads a commit record, or `None` when the sector holds none.
pub fn decode_commit(bytes: &[u8]) -> (fields: Option<(u32, u32, bool, u64)>)
    ensures
        fields == commit_fields(bytes@),
{
    if bytes.len() < METADATA_SECTOR_SIZE || bytes[0] != 0x44 || bytes[1] != 0x4f || bytes[2] != 0x4e
        || bytes[3] != 0x45 || (bytes[12] != 0 && bytes[12] != 0x7f) {
        proof {
            if bytes@.len() >= METADATA_SECTOR_SIZE && (bytes@[12] == 0 || bytes@[12] == 0x7f) {
                assert(bytes@.subrange(0, 4) != commit_magic()) by {
                    if bytes@.subrange(0, 4) == commit_magic() {
                        assert(bytes@.subrange(0, 4)[0] == bytes@[0]);
                        assert(bytes@.subrange(0, 4)[1] == bytes@[1]);
                        assert(bytes@.subrange(0, 4)[2] == bytes@[2]);
                        assert(bytes@.subrange(0, 4)[3] == bytes@[3]);
                    }
                }
            }
        }
        return None;
    }
    assert(bytes@.subrange(0, 4) =~= commit_magic());
    Some((read_le32(bytes, 4), read_le32(bytes, 8), bytes[12] == 0, read_le64(bytes, 16)))
}

/// A commit record that `encode_commit` built decodes to the same fields.
pub proof fn lemma_commit_round_trip(size: u32, crc: u32, is_final: bool, total_size: u64)
    ensures
        commit_fields(commit_image(size, crc, is_final, total_size)) == Some((size, crc, is_final, total_size)),
{
    let img = commit_image(size, crc, is_final, total_size);
    assert(img.subrange(0, 4) =~= commit_magic());
    assert(img.subrange(4, 8) =~= le32(size));
    assert(img.subrange(8, 12) =~= le32(crc));
    assert(img.subrange(16, 24) =~= le64(total_size));
    lemma_le32_round_trip(size);
    lemma_le32_round_trip(crc);
    lemma_le64_round_trip(total_size);
}

/// An erased sector (all bytes 0xff) holds neither a header nor a commit
/// record, so erased and half-written blocks are never mistaken for data.
pub proof fn lemma_erased_sector_is_empty(sector: Seq<u8>)
    requires
        forall|k: int| 0 <= k < sector.len() ==> sector[k] == 0xff,
    ensures
        header_fields(sector) is None,
        commit_fields(sector) is None,
{
    if sector.len() >= METADATA_SECTOR_SIZE {
        assert(sector.subrange(0, 4)[0] == 0xff);
        assert(artifact_magic()[0] == 0x4c);
        assert(commit_magic()[0] == 0x44);
    }
}

} // verus!
