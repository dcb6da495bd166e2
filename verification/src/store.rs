//! Versioned named artifacts on the NAND flash.
//!
//! Each physical block holds one sequential segment of one artifact
//! version. Page zero uses one 512-byte program for its immutable header
//! and a second for its commit record; pages 1..63 each receive one
//! program. A version becomes visible only when its final block is
//! committed.

use vstd::prelude::*;
use vstd::utf8::*;
use vstd::set_lib::*;
use crate::nand::{Error, PAGE_SIZE};
use crate::layout::{
    commit_fields, commit_image, decode_commit, decode_header, header_fields, header_image, lemma_commit_round_trip,
    lemma_header_round_trip, valid_name_bytes, HEADER_NAME_OFFSET, METADATA_SECTOR_SIZE,
};

verus! {

/// Bytes of artifact data one block holds (pages 1..63).
pub const ARTIFACT_BLOCK_CAPACITY: usize = 129024;
/// Column of the commit record in page zero.
pub const COMMIT_COLUMN: u16 = 512;
/// Data pages per block: all but page zero.
pub const DATA_PAGES_PER_BLOCK: u16 = 63;

/// Failures of an artifact-store operation.
#[derive(Debug)]
pub enum ArtifactError<E> {
    Flash(Error<E>),
    InvalidName,
    NoSpace,
    NotFound,
    CorruptMetadata,
    Incomplete,
}

/// Metadata returned for the newest complete version of a named artifact.
#[derive(Clone, Debug, Eq, PartialEq)]
pub struct ArtifactInfo {
    pub name: String,
    pub generation: u32,
    pub size: u64,
    pub blocks: u16,
}

pub struct InfoView {
    pub name: Seq<char>,
    pub generation: u32,
    pub size: u64,
    pub blocks: u16,
}

impl View for ArtifactInfo {
    type V = InfoView;

    open spec fn view(&self) -> InfoView {
        InfoView { name: self.name@, generation: self.generation, size: self.size, blocks: self.blocks }
    }
}

/// One committed block found on the flash.
pub struct BlockRecord {
    pub physical_block: u16,
    /// The name's UTF-8 bytes as stored in the header.
    pub name: Vec<u8>,
    pub generation: u32,
    pub logical_index: u16,
    pub size: u32,
    pub crc32: u32,
    pub is_final: bool,
    pub total_size: u64,
}

pub struct RecordView {
    pub physical_block: u16,
    pub name: Seq<u8>,
    pub generation: u32,
    pub logical_index: u16,
    pub size: u32,
    pub crc32: u32,
    pub is_final: bool,
    pub total_size: u64,
}

impl View for BlockRecord {
    type V = RecordView;

    open spec fn view(&self) -> RecordView {
        RecordView {
            physical_block: self.physical_block,
            name: self.name@,
            generation: self.generation,
            logical_index: self.logical_index,
            size: self.size,
            crc32: self.crc32,
            is_final: self.is_final,
            total_size: self.total_size,
        }
    }
}

impl BlockRecord {
    /// A copy of the record.
    pub fn copy(&self) -> (r: BlockRecord)
        ensures
            r@ == self@,
    {
        let name = self.name.clone();
        assert(name@ =~= self.name@);
        BlockRecord {
            physical_block: self.physical_block,
            name,
            generation: self.generation,
            logical_index: self.logical_index,
            size: self.size,
            crc32: self.crc32,
            is_final: self.is_final,
            total_size: self.total_size,
        }
    }
}

pub open spec fn records_view(records: Seq<BlockRecord>) -> Seq<RecordView> {
    records.map_values(|r: BlockRecord| r@)
}

/// The record that page zero `page` of block `block` describes: it needs a
/// valid header, a valid commit record, and a block size within capacity.
pub open spec fn record_from_page(block: u16, page: Seq<u8>) -> Option<RecordView> {
    let header = page.subrange(0, METADATA_SECTOR_SIZE as int);
    let commit = page.subrange(METADATA_SECTOR_SIZE as int, page.len() as int);
    match header_fields(header) {
        None => None,
        Some((_, generation, logical_index)) => match commit_fields(commit) {
            None => None,
            Some((size, crc32, is_final, total_size)) => if size > ARTIFACT_BLOCK_CAPACITY {
                None
            } else {
                Some(RecordView {
                    physical_block: block,
                    name: header.subrange(HEADER_NAME_OFFSET as int, HEADER_NAME_OFFSET + header[5]),
                    generation,
                    logical_index,
                    size,
                    crc32,
                    is_final,
                    total_size,
                })
            },
        },
    }
}

/// A block whose commit record has not been programmed yet (the second
/// metadata sector still erased) holds no record, so the segment it carries
/// stays invisible until it is committed.
pub proof fn lemma_uncommitted_block_has_no_record(block: u16, page: Seq<u8>)
    requires
        page.len() == PAGE_SIZE,
        forall|k: int| METADATA_SECTOR_SIZE <= k < 2 * METADATA_SECTOR_SIZE ==> page[k] == 0xff,
    ensures
        record_from_page(block, page) is None,
{
    let commit = page.subrange(METADATA_SECTOR_SIZE as int, page.len() as int);
    assert(commit.subrange(0, 4)[0] == 0xff);
    assert(crate::layout::commit_magic()[0] == 0x44);
}

/// A block whose page zero holds a header that `encode_header` wrote and,
/// behind it, a commit record that `encode_commit` built (for a block size
/// within capacity) is seen by the scan as a record of exactly those
/// fields: the segment becomes visible with the name, generation, index,
/// size, checksum and total that were written.
pub proof fn lemma_committed_block_is_recorded(
    block: u16,
    page: Seq<u8>,
    sector: Seq<u8>,
    name: Seq<char>,
    generation: u32,
    logical_index: u16,
    size: u32,
    crc32: u32,
    is_final: bool,
    total_size: u64,
)
    requires
        page.len() == PAGE_SIZE,
        sector.len() == METADATA_SECTOR_SIZE,
        valid_name_bytes(encode_utf8(name)),
        size <= ARTIFACT_BLOCK_CAPACITY,
        page.subrange(0, METADATA_SECTOR_SIZE as int) == header_image(sector, encode_utf8(name), generation, logical_index),
        page.subrange(METADATA_SECTOR_SIZE as int, 2 * METADATA_SECTOR_SIZE) == commit_image(size, crc32, is_final, total_size),
    ensures
        record_from_page(block, page) == Some(
            RecordView {
                physical_block: block,
                name: encode_utf8(name),
                generation,
                logical_index,
                size,
                crc32,
                is_final,
                total_size,
            },
        ),
{
    let header = page.subrange(0, METADATA_SECTOR_SIZE as int);
    let commit = page.subrange(METADATA_SECTOR_SIZE as int, page.len() as int);
    let img = commit_image(size, crc32, is_final, total_size);
    lemma_header_round_trip(sector, name, generation, logical_index);
    lemma_commit_round_trip(size, crc32, is_final, total_size);
    assert(commit.subrange(0, 4) =~= img.subrange(0, 4));
    assert(commit.subrange(4, 8) =~= img.subrange(4, 8));
    assert(commit.subrange(8, 12) =~= img.subrange(8, 12));
    assert(commit.subrange(16, 24) =~= img.subrange(16, 24));
    assert(commit[12] == img[12]);
    assert(commit_fields(commit) == commit_fields(img));
    assert(header[5] == encode_utf8(name).len());
    assert(header.subrange(HEADER_NAME_OFFSET as int, HEADER_NAME_OFFSET + header[5]) =~= encode_utf8(name));
}

/// Builds the record for page zero of `block`, as the scan does.
pub fn block_record(block: u16, page: &[u8]) -> (record: Option<BlockRecord>)
    requires
        page@.len() == PAGE_SIZE,
    ensures
        match record {
            None => record_from_page(block, page@) is None,
            Some(r) => record_from_page(block, page@) == Some(r@),
        },
{
    let header = &page[0..METADATA_SECTOR_SIZE];
    let commit = &page[METADATA_SECTOR_SIZE..page.len()];
    let (generation, logical_index) = match decode_header(header) {
        None => {
            return None;
        },
        Some((_, generation, logical_index)) => (generation, logical_index),
    };
    let (size, crc32, is_final, total_size) = match decode_commit(commit) {
        None => {
            return None;
        },
        Some(fields) => fields,
    };
    if size as usize > ARTIFACT_BLOCK_CAPACITY {
        return None;
    }
    let name_len = header[5] as usize;
    let name = vstd::slice::slice_to_vec(&header[HEADER_NAME_OFFSET..HEADER_NAME_OFFSET + name_len]);
    Some(BlockRecord { physical_block: block, name, generation, logical_index, size, crc32, is_final, total_size })
}

/// Whether two byte strings are equal.
pub fn bytes_equal(a: &[u8], b: &[u8]) -> (equal: bool)
    ensures
        equal <==> a@ == b@,
{
    if a.len() != b.len() {
        return false;
    }
    let mut i: usize = 0;
    while i < a.len()
        invariant
            a@.len() == b@.len(),
            i <= a@.len(),
            forall|j: int| 0 <= j < i ==> a@[j] == b@[j],
        decreases a.len() - i,
    {
        if a[i] != b[i] {
            return false;
        }
        i = i + 1;
    }
    assert(a@ =~= b@);
    true
}


// ---------------------------------------------------------------------
// Finding the newest complete version

/// Some record holds segment `index` of version `generation` of `name`.
pub open spec fn has_segment(records: Seq<RecordView>, name: Seq<u8>, generation: u32, index: int) -> bool {
    exists|j: int|
        0 <= j < records.len() && #[trigger] records[j].name == name && records[j].generation == generation
            && records[j].logical_index == index
}

/// `f` closes a complete version of `name`: it is a final record of the
/// name (its commit marks the artifact's last block), and every segment
/// 0 to `f.logical_index` of its generation is on the flash.
pub open spec fn completes_version(records: Seq<RecordView>, name: Seq<u8>, f: RecordView) -> bool {
    &&& f.name == name
    &&& f.is_final
    &&& forall|idx: int| 0 <= idx <= f.logical_index ==> #[trigger] has_segment(records, name, f.generation, idx)
}

/// Among the first `k` records, the final record of the newest complete
/// version of `name`: the highest generation, the last such in scan order.
pub open spec fn newest_complete_upto(records: Seq<RecordView>, name: Seq<u8>, k: nat) -> Option<RecordView>
    decreases k,
{
    if k == 0 {
        None
    } else {
        let best = newest_complete_upto(records, name, (k - 1) as nat);
        let r = records[k - 1];
        if completes_version(records, name, r) && (best is None || r.generation >= best->0.generation) {
            Some(r)
        } else {
            best
        }
    }
}

/// The final record of the newest complete version of `name`.
pub open spec fn newest_complete(records: Seq<RecordView>, name: Seq<u8>) -> Option<RecordView> {
    newest_complete_upto(records, name, records.len())
}

/// Some version of `name` has had its final block committed.
pub open spec fn has_final(records: Seq<RecordView>, name: Seq<u8>) -> bool {
    exists|j: int| 0 <= j < records.len() && #[trigger] records[j].name == name && records[j].is_final
}

/// What `find` reports for `name` given the records on the flash: the
/// generation, size and block count of the newest complete version;
/// `Incomplete` when versions were published but none has all its
/// segments left, and `NotFound` when none was ever published.
pub open spec fn find_outcome<E>(records: Seq<RecordView>, name: Seq<u8>) -> Result<(u32, u64, u16), ArtifactError<E>> {
    match newest_complete(records, name) {
        Some(f) => Ok((f.generation, f.total_size, (f.logical_index + 1) as u16)),
        None => if has_final(records, name) {
            Err(ArtifactError::Incomplete)
        } else {
            Err(ArtifactError::NotFound)
        },
    }
}

proof fn lemma_newest_complete_upto(records: Seq<RecordView>, name: Seq<u8>, k: nat)
    requires
        k <= records.len(),
    ensures
        newest_complete_upto(records, name, k) matches Some(f) ==> {
            &&& exists|j: int| 0 <= j < k && records[j] == f
            &&& completes_version(records, name, f)
            &&& forall|j: int| 0 <= j < k && #[trigger] completes_version(records, name, records[j])
                ==> records[j].generation <= f.generation
        },
        newest_complete_upto(records, name, k) is None ==> forall|j: int|
            0 <= j < k ==> !#[trigger] completes_version(records, name, records[j]),
    decreases k,
{
    if k > 0 {
        lemma_newest_complete_upto(records, name, (k - 1) as nat);
        if let Some(f) = newest_complete_upto(records, name, k) {
            if f == records[k - 1] {
            } else {
                let j = choose|j: int| 0 <= j < k - 1 && records[j] == f;
                assert(records[j] == f);
            }
        }
    }
}

/// What `find` reports is a complete, visible version: the final record of
/// a version whose segments are all present, with no complete version of
/// the name newer than it. When the newest published version has lost a
/// segment, an older complete one is reported; `Incomplete` comes only
/// when no version is complete, and `NotFound` only when no version was
/// ever published.
pub proof fn lemma_find_reports_newest_complete<E>(records: Seq<RecordView>, name: Seq<u8>)
    ensures
        find_outcome::<E>(records, name) matches Ok((generation, size, blocks)) ==> {
            &&& exists|j: int| 0 <= j < records.len() && #[trigger] completes_version(records, name, records[j])
                && records[j].generation == generation && records[j].total_size == size
                && blocks == (records[j].logical_index + 1) as u16
            &&& forall|j: int| 0 <= j < records.len() && #[trigger] completes_version(records, name, records[j])
                ==> records[j].generation <= generation
        },
        (exists|j: int| 0 <= j < records.len() && #[trigger] completes_version(records, name, records[j]))
            ==> find_outcome::<E>(records, name) is Ok,
        (find_outcome::<E>(records, name) == Err::<(u32, u64, u16), ArtifactError<E>>(ArtifactError::NotFound))
            <==> !has_final(records, name),
        (find_outcome::<E>(records, name) == Err::<(u32, u64, u16), ArtifactError<E>>(ArtifactError::Incomplete))
            <==> (has_final(records, name) && forall|j: int| 0 <= j < records.len()
                ==> !#[trigger] completes_version(records, name, records[j])),
{
    lemma_newest_complete_upto(records, name, records.len());
    if let Some(f) = newest_complete(records, name) {
        let j = choose|j: int| 0 <= j < records.len() && records[j] == f;
        assert(completes_version(records, name, records[j]));
        assert(records[j].name == name && records[j].is_final);
    }
}

/// The records, in order, without those of `name`.
pub open spec fn without_name(records: Seq<RecordView>, name: Seq<u8>) -> Seq<RecordView>
    decreases records.len(),
{
    if records.len() == 0 {
        seq![]
    } else {
        let rest = without_name(records.drop_last(), name);
        if records.last().name == name { rest } else { rest.push(records.last()) }
    }
}

/// Of the records that satisfy `p`, one with the highest generation, the
/// last such in order.
pub open spec fn pick_newest(s: Seq<RecordView>, p: spec_fn(RecordView) -> bool) -> Option<RecordView>
    decreases s.len(),
{
    if s.len() == 0 {
        None
    } else {
        let best = pick_newest(s.drop_last(), p);
        let r = s.last();
        if p(r) && (best is None || r.generation >= best->0.generation) { Some(r) } else { best }
    }
}

proof fn lemma_upto_is_pick(records: Seq<RecordView>, name: Seq<u8>, k: nat)
    requires
        k <= records.len(),
    ensures
        newest_complete_upto(records, name, k) == pick_newest(
            records.take(k as int),
            |r: RecordView| completes_version(records, name, r),
        ),
    decreases k,
{
    if k > 0 {
        lemma_upto_is_pick(records, name, (k - 1) as nat);
        assert(records.take(k as int).drop_last() =~= records.take(k - 1));
    }
}

proof fn lemma_pick_without(s: Seq<RecordView>, p: spec_fn(RecordView) -> bool, name: Seq<u8>)
    requires
        forall|r: RecordView| #[trigger] p(r) ==> r.name != name,
    ensures
        pick_newest(without_name(s, name), p) == pick_newest(s, p),
    decreases s.len(),
{
    if s.len() > 0 {
        lemma_pick_without(s.drop_last(), p, name);
        let w = without_name(s.drop_last(), name);
        if s.last().name != name {
            assert(w.push(s.last()).drop_last() =~= w);
        }
    }
}

proof fn lemma_without_members(records: Seq<RecordView>, name: Seq<u8>)
    ensures
        forall|j: int| 0 <= j < without_name(records, name).len() ==> (#[trigger] without_name(records, name)[j]).name != name
            && records.contains(without_name(records, name)[j]),
        forall|i: int| 0 <= i < records.len() && (#[trigger] records[i]).name != name
            ==> without_name(records, name).contains(records[i]),
    decreases records.len(),
{
    if records.len() > 0 {
        let rest = records.drop_last();
        lemma_without_members(rest, name);
        let w = without_name(rest, name);
        let all = without_name(records, name);
        assert forall|j: int| 0 <= j < all.len() implies (#[trigger] all[j]).name != name && records.contains(all[j]) by {
            if j < w.len() {
                assert(all[j] == w[j]);
                let i = choose|i: int| 0 <= i < rest.len() && rest[i] == w[j];
                assert(records[i] == rest[i]);
            } else {
                assert(records[records.len() - 1] == all[j]);
            }
        }
        assert forall|i: int| 0 <= i < records.len() && (#[trigger] records[i]).name != name implies all.contains(records[i]) by {
            if i < rest.len() {
                assert(rest[i] == records[i]);
                let j = choose|j: int| 0 <= j < w.len() && w[j] == rest[i];
                assert(all[j] == w[j]);
            } else {
                assert(all[all.len() - 1] == records[i]);
            }
        }
    }
}

/// Taking away the records of `name` takes `name` off the flash for
/// `find` and changes nothing that `find` reports for any other name.
pub proof fn lemma_find_without_name<E>(records: Seq<RecordView>, name: Seq<u8>, other: Seq<u8>)
    ensures
        find_outcome::<E>(without_name(records, name), name) == Err::<(u32, u64, u16), ArtifactError<E>>(
            ArtifactError::NotFound,
        ),
        other != name ==> find_outcome::<E>(without_name(records, name), other) == find_outcome::<E>(records, other),
{
    let w = without_name(records, name);
    lemma_without_members(records, name);
    lemma_newest_complete_upto(w, name, w.len());
    assert(!has_final(w, name));
    if other != name {
        assert forall|g: u32, idx: int| #[trigger] has_segment(w, other, g, idx) == has_segment(records, other, g, idx) by {
            if has_segment(w, other, g, idx) {
                let j = choose|j: int| 0 <= j < w.len() && #[trigger] w[j].name == other && w[j].generation == g
                    && w[j].logical_index == idx;
                assert(records.contains(w[j]));
                let i = choose|i: int| 0 <= i < records.len() && records[i] == w[j];
                assert(records[i].name == other);
            }
            if has_segment(records, other, g, idx) {
                let i = choose|i: int| 0 <= i < records.len() && #[trigger] records[i].name == other
                    && records[i].generation == g && records[i].logical_index == idx;
                assert(records[i].name != name);
                let j = choose|j: int| 0 <= j < w.len() && w[j] == records[i];
                assert(w[j].name == other);
            }
        }
        assert forall|r: RecordView| #[trigger] completes_version(w, other, r) == completes_version(records, other, r) by {
            if completes_version(w, other, r) {
                assert forall|idx: int| 0 <= idx <= r.logical_index implies #[trigger] has_segment(records, other, r.generation, idx) by {
                    assert(has_segment(w, other, r.generation, idx));
                }
            }
            if completes_version(records, other, r) {
                assert forall|idx: int| 0 <= idx <= r.logical_index implies #[trigger] has_segment(w, other, r.generation, idx) by {
                    assert(has_segment(records, other, r.generation, idx));
                }
            }
        }
        let pw = |r: RecordView| completes_version(w, other, r);
        let pr = |r: RecordView| completes_version(records, other, r);
        assert(pw =~= pr);
        lemma_upto_is_pick(w, other, w.len());
        lemma_upto_is_pick(records, other, records.len());
        assert(w.take(w.len() as int) =~= w);
        assert(records.take(records.len() as int) =~= records);
        lemma_pick_without(records, pr, name);
        assert(has_final(w, other) == has_final(records, other)) by {
            if has_final(w, other) {
                let j = choose|j: int| 0 <= j < w.len() && #[trigger] w[j].name == other && w[j].is_final;
                assert(records.contains(w[j]));
                let i = choose|i: int| 0 <= i < records.len() && records[i] == w[j];
                assert(records[i].name == other);
            }
            if has_final(records, other) {
                let i = choose|i: int| 0 <= i < records.len() && #[trigger] records[i].name == other && records[i].is_final;
                assert(records[i].name != name);
                let j = choose|j: int| 0 <= j < w.len() && w[j] == records[i];
                assert(w[j].name == other);
            }
        }
    }
}

/// The records, in order, without those of version `generation` of `name`.
pub open spec fn without_version(records: Seq<RecordView>, name: Seq<u8>, generation: u32) -> Seq<RecordView>
    decreases records.len(),
{
    if records.len() == 0 {
        seq![]
    } else {
        let rest = without_version(records.drop_last(), name, generation);
        let r = records.last();
        if r.name == name && r.generation == generation { rest } else { rest.push(r) }
    }
}

proof fn lemma_pick_without_version(s: Seq<RecordView>, p: spec_fn(RecordView) -> bool, name: Seq<u8>, generation: u32)
    requires
        forall|r: RecordView| #[trigger] p(r) ==> !(r.name == name && r.generation == generation),
    ensures
        pick_newest(without_version(s, name, generation), p) == pick_newest(s, p),
    decreases s.len(),
{
    if s.len() > 0 {
        lemma_pick_without_version(s.drop_last(), p, name, generation);
        let w = without_version(s.drop_last(), name, generation);
        if !(s.last().name == name && s.last().generation == generation) {
            assert(w.push(s.last()).drop_last() =~= w);
        }
    }
}

proof fn lemma_pick_agree(s: Seq<RecordView>, p: spec_fn(RecordView) -> bool, q: spec_fn(RecordView) -> bool)
    requires
        forall|i: int| 0 <= i < s.len() ==> #[trigger] p(s[i]) == q(s[i]),
    ensures
        pick_newest(s, p) == pick_newest(s, q),
    decreases s.len(),
{
    if s.len() > 0 {
        let rest = s.drop_last();
        assert forall|i: int| 0 <= i < rest.len() implies #[trigger] p(rest[i]) == q(rest[i]) by {
            assert(rest[i] == s[i]);
        }
        lemma_pick_agree(rest, p, q);
        assert(p(s[s.len() - 1]) == q(s[s.len() - 1]));
    }
}

proof fn lemma_without_version_members(records: Seq<RecordView>, name: Seq<u8>, generation: u32)
    ensures
        forall|j: int| 0 <= j < without_version(records, name, generation).len() ==> !((#[trigger] without_version(
            records,
            name,
            generation,
        )[j]).name == name && without_version(records, name, generation)[j].generation == generation)
            && records.contains(without_version(records, name, generation)[j]),
        forall|i: int| 0 <= i < records.len() && !((#[trigger] records[i]).name == name && records[i].generation == generation)
            ==> without_version(records, name, generation).contains(records[i]),
    decreases records.len(),
{
    if records.len() > 0 {
        let rest = records.drop_last();
        lemma_without_version_members(rest, name, generation);
        let w = without_version(rest, name, generation);
        let all = without_version(records, name, generation);
        assert forall|j: int| 0 <= j < all.len() implies !((#[trigger] all[j]).name == name && all[j].generation == generation)
            && records.contains(all[j]) by {
            if j < w.len() {
                assert(all[j] == w[j]);
                let i = choose|i: int| 0 <= i < rest.len() && rest[i] == w[j];
                assert(records[i] == rest[i]);
            } else {
                assert(records[records.len() - 1] == all[j]);
            }
        }
        assert forall|i: int| 0 <= i < records.len() && !((#[trigger] records[i]).name == name && records[i].generation == generation)
            implies all.contains(records[i]) by {
            if i < rest.len() {
                assert(rest[i] == records[i]);
                let j = choose|j: int| 0 <= j < w.len() && w[j] == rest[i];
                assert(all[j] == w[j]);
            } else {
                assert(all[all.len() - 1] == records[i]);
            }
        }
    }
}

/// Publication is atomic: the records of a version none of whose blocks
/// carries a final commit (such as the one a writer is still writing, or
/// one a dropped writer left) change nothing that `find` reports, for any
/// name. With `lemma_uncommitted_block_has_no_record` (a block with only
/// its header yields no record) and `lemma_next_generation_is_newer` (a
/// new version's generation is one no record of the name has), every
/// step of a writer before its final commit leaves `find` as it was.
pub proof fn lemma_unpublished_version_is_invisible<E>(records: Seq<RecordView>, name: Seq<u8>, generation: u32, other: Seq<u8>)
    requires
        forall|j: int| 0 <= j < records.len() && (#[trigger] records[j]).name == name && records[j].generation == generation
            ==> !records[j].is_final,
    ensures
        find_outcome::<E>(records, other) == find_outcome::<E>(without_version(records, name, generation), other),
{
    let w = without_version(records, name, generation);
    lemma_without_version_members(records, name, generation);
    assert forall|g: u32, idx: int| #[trigger] has_segment(w, other, g, idx)
        == (has_segment(records, other, g, idx) && !(other == name && g == generation)) by {
        if has_segment(w, other, g, idx) {
            let j = choose|j: int| 0 <= j < w.len() && #[trigger] w[j].name == other && w[j].generation == g
                && w[j].logical_index == idx;
            assert(records.contains(w[j]));
            let i = choose|i: int| 0 <= i < records.len() && records[i] == w[j];
            assert(records[i].name == other);
        }
        if has_segment(records, other, g, idx) && !(other == name && g == generation) {
            let i = choose|i: int| 0 <= i < records.len() && #[trigger] records[i].name == other
                && records[i].generation == g && records[i].logical_index == idx;
            let j = choose|j: int| 0 <= j < w.len() && w[j] == records[i];
            assert(w[j].name == other);
        }
    }
    let pr = |r: RecordView| completes_version(records, other, r);
    let pk = |r: RecordView| completes_version(records, other, r) && !(r.name == name && r.generation == generation);
    let pw = |r: RecordView| completes_version(w, other, r);
    assert forall|r: RecordView| #[trigger] pw(r) == pk(r) by {
        if r.name == name && r.generation == generation {
            if other == name {
                assert(!has_segment(w, other, r.generation, 0));
            }
        } else {
            if completes_version(w, other, r) {
                assert forall|idx: int| 0 <= idx <= r.logical_index implies #[trigger] has_segment(records, other, r.generation, idx) by {
                    assert(has_segment(w, other, r.generation, idx));
                }
            }
            if completes_version(records, other, r) {
                assert forall|idx: int| 0 <= idx <= r.logical_index implies #[trigger] has_segment(w, other, r.generation, idx) by {
                    assert(has_segment(records, other, r.generation, idx));
                }
            }
        }
    }
    assert(pw =~= pk);
    assert forall|i: int| 0 <= i < records.len() implies #[trigger] pr(records[i]) == pk(records[i]) by {
        if records[i].name == name && records[i].generation == generation {
            assert(!records[i].is_final);
        }
    }
    lemma_pick_agree(records, pr, pk);
    lemma_upto_is_pick(w, other, w.len());
    lemma_upto_is_pick(records, other, records.len());
    assert(w.take(w.len() as int) =~= w);
    assert(records.take(records.len() as int) =~= records);
    lemma_pick_without_version(records, pk, name, generation);
    assert(has_final(w, other) == has_final(records, other)) by {
        if has_final(w, other) {
            let j = choose|j: int| 0 <= j < w.len() && #[trigger] w[j].name == other && w[j].is_final;
            assert(records.contains(w[j]));
            let i = choose|i: int| 0 <= i < records.len() && records[i] == w[j];
            assert(records[i].name == other);
        }
        if has_final(records, other) {
            let i = choose|i: int| 0 <= i < records.len() && #[trigger] records[i].name == other && records[i].is_final;
            let j = choose|j: int| 0 <= j < w.len() && w[j] == records[i];
            assert(w[j].name == other);
        }
    }
}

/// Publication: once a version's final commit is on the flash and all its
/// segments 0 to `last` are there, `find` reports it, provided no version
/// of the name is newer (as `lemma_next_generation_is_newer` gives for a
/// version that `begin` started) and its final records (one block,
/// possibly committed more than once) all record `last` and `total`: the
/// generation, the total size and `last + 1` blocks.
pub proof fn lemma_finish_then_find<E>(records: Seq<RecordView>, name: Seq<u8>, generation: u32, last: u16, total: u64)
    requires
        forall|idx: int| 0 <= idx <= last ==> #[trigger] has_segment(records, name, generation, idx),
        exists|j: int| 0 <= j < records.len() && #[trigger] records[j].name == name && records[j].generation == generation
            && records[j].is_final && records[j].logical_index == last && records[j].total_size == total,
        forall|j: int| 0 <= j < records.len() && (#[trigger] records[j]).name == name ==> records[j].generation <= generation,
        forall|j: int| 0 <= j < records.len() && (#[trigger] records[j]).name == name && records[j].generation == generation
            && records[j].is_final ==> records[j].logical_index == last && records[j].total_size == total,
    ensures
        find_outcome::<E>(records, name) == Ok::<(u32, u64, u16), ArtifactError<E>>((generation, total, (last + 1) as u16)),
{
    let j = choose|j: int| 0 <= j < records.len() && #[trigger] records[j].name == name && records[j].generation == generation
        && records[j].is_final && records[j].logical_index == last && records[j].total_size == total;
    assert(completes_version(records, name, records[j]));
    lemma_find_reports_newest_complete::<E>(records, name);
    lemma_newest_complete_upto(records, name, records.len());
    let f = newest_complete(records, name)->Some_0;
    let k = choose|k: int| 0 <= k < records.len() && records[k] == f;
    assert(records[k].name == name);
}

/// Distinct segments live in distinct records, so a version whose segments
/// 0..=last are all present has at most as many segments as there are
/// records.
pub proof fn lemma_segments_fit(records: Seq<RecordView>, name: Seq<u8>, generation: u32, last: int)
    requires
        0 <= last,
        forall|idx: int| 0 <= idx <= last ==> #[trigger] has_segment(records, name, generation, idx),
    ensures
        last + 1 <= records.len(),
{
    let positions = set_int_range(0, records.len() as int);
    let f = |j: int| records[j].logical_index as int;
    let image = positions.map(f);
    lemma_int_range(0, records.len() as int);
    lemma_map_size_bound(positions, image, f);
    let wanted = set_int_range(0, last + 1);
    lemma_int_range(0, last + 1);
    assert forall|idx: int| wanted.contains(idx) implies image.contains(idx) by {
        assert(has_segment(records, name, generation, idx));
        let j = choose|j: int|
            0 <= j < records.len() && #[trigger] records[j].name == name && records[j].generation == generation
                && records[j].logical_index == idx;
        assert(positions.contains(j) && f(j) == idx);
    }
    lemma_len_subset(wanted, image);
}

/// Whether some record holds segment `index` of version `generation`.
fn segment_present(records: &Vec<BlockRecord>, name: &[u8], generation: u32, index: u16) -> (present: bool)
    ensures
        present == has_segment(records_view(records@), name@, generation, index as int),
{
    let ghost rv = records_view(records@);
    let mut j: usize = 0;
    while j < records.len()
        invariant
            rv == records_view(records@),
            j <= records@.len(),
            forall|k: int| 0 <= k < j ==> !(#[trigger] rv[k].name == name@ && rv[k].generation == generation
                && rv[k].logical_index == index),
        decreases records.len() - j,
    {
        let r = &records[j];
        if bytes_equal(r.name.as_slice(), name) && r.generation == generation && r.logical_index == index {
            assert(rv[j as int].name == name@);
            return true;
        }
        j = j + 1;
    }
    false
}

/// Whether every segment 0 to `last` of version `generation` is present.
fn version_complete(records: &Vec<BlockRecord>, name: &[u8], generation: u32, last: u16) -> (complete: bool)
    ensures
        complete == forall|idx: int| 0 <= idx <= last ==> #[trigger] has_segment(records_view(records@), name@, generation, idx),
{
    let ghost rv = records_view(records@);
    let mut index: u16 = 0;
    loop
        invariant
            rv == records_view(records@),
            index <= last,
            forall|idx: int| 0 <= idx < index ==> #[trigger] has_segment(rv, name@, generation, idx),
        ensures
            forall|idx: int| 0 <= idx <= last ==> #[trigger] has_segment(rv, name@, generation, idx),
        decreases last - index,
    {
        if !segment_present(records, name, generation, index) {
            assert(!has_segment(rv, name@, generation, index as int));
            return false;
        }
        if index == last {
            break;
        }
        index = index + 1;
    }
    true
}

/// Finds the newest complete version of `name` among the scanned records:
/// its generation, total size and number of blocks.
pub fn find_in_records<E>(records: &Vec<BlockRecord>, name: &[u8]) -> (outcome: Result<(u32, u64, u16), ArtifactError<E>>)
    requires
        records@.len() <= crate::nand::BLOCK_COUNT,
    ensures
        outcome == find_outcome::<E>(records_view(records@), name@),
{
    let ghost rv = records_view(records@);
    let mut best: Option<usize> = None;
    let mut any_final = false;
    let mut j: usize = 0;
    while j < records.len()
        invariant
            rv == records_view(records@),
            j <= records@.len(),
            match best {
                None => newest_complete_upto(rv, name@, j as nat) is None,
                Some(b) => b < j && newest_complete_upto(rv, name@, j as nat) == Some(rv[b as int]),
            },
            any_final == exists|k: int| 0 <= k < j && #[trigger] rv[k].name == name@ && rv[k].is_final,
        decreases records.len() - j,
    {
        let r = &records[j];
        if bytes_equal(r.name.as_slice(), name) && r.is_final {
            any_final = true;
            assert(rv[j as int].name == name@ && rv[j as int].is_final);
            if version_complete(records, name, r.generation, r.logical_index) {
                assert(completes_version(rv, name@, rv[j as int]));
                match best {
                    None => {
                        best = Some(j);
                    },
                    Some(b) => {
                        if r.generation >= records[b].generation {
                            best = Some(j);
                        }
                    },
                }
            } else {
                assert(!completes_version(rv, name@, rv[j as int]));
            }
        } else {
            assert(!(rv[j as int].name == name@ && rv[j as int].is_final));
            assert(!completes_version(rv, name@, rv[j as int]));
        }
        assert(forall|k: int| 0 <= k < j + 1 && #[trigger] rv[k].name == name@ && rv[k].is_final
            ==> (0 <= k < j && rv[k].name == name@ && rv[k].is_final) || k == j);
        j = j + 1;
    }
    match best {
        None => {
            if any_final {
                Err(ArtifactError::Incomplete)
            } else {
                Err(ArtifactError::NotFound)
            }
        },
        Some(b) => {
            let generation = records[b].generation;
            let final_index = records[b].logical_index;
            proof {
                lemma_newest_complete_upto(rv, name@, rv.len());
                lemma_segments_fit(rv, name@, generation, final_index as int);
            }
            Ok((generation, records[b].total_size, final_index + 1))
        },
    }
}


/// What `find` returns for the artifact called `name` (UTF-8 bytes
/// `name_bytes`) given the records on the flash.
pub open spec fn info_outcome<E>(records: Seq<RecordView>, name_bytes: Seq<u8>, name: Seq<char>) -> Result<InfoView, ArtifactError<E>> {
    match find_outcome::<E>(records, name_bytes) {
        Ok((generation, size, blocks)) => Ok(InfoView { name, generation, size, blocks }),
        Err(e) => Err(e),
    }
}

// ---------------------------------------------------------------------
// Generations and erasure

/// The highest generation of `name` on the flash, 0 when there is none.
pub open spec fn max_generation(records: Seq<RecordView>, name: Seq<u8>) -> u32
    decreases records.len(),
{
    if records.len() == 0 {
        0
    } else {
        let m = max_generation(records.drop_last(), name);
        let r = records.last();
        if r.name == name && r.generation > m { r.generation } else { m }
    }
}

/// The generation a new version of `name` gets: one past the highest on
/// the flash, wrapping around.
pub open spec fn next_generation_of(records: Seq<RecordView>, name: Seq<u8>) -> u32 {
    let m = max_generation(records, name);
    if m == u32::MAX { 0 } else { (m + 1) as u32 }
}

pub proof fn lemma_max_generation_bounds(records: Seq<RecordView>, name: Seq<u8>)
    ensures
        forall|j: int| 0 <= j < records.len() && #[trigger] records[j].name == name
            ==> records[j].generation <= max_generation(records, name),
    decreases records.len(),
{
    if records.len() > 0 {
        lemma_max_generation_bounds(records.drop_last(), name);
        assert forall|j: int| 0 <= j < records.len() && #[trigger] records[j].name == name
            implies records[j].generation <= max_generation(records, name) by {
            if j < records.len() - 1 {
                assert(records.drop_last()[j] == records[j]);
            }
        }
    }
}

/// A new version's generation exceeds every generation of the same name
/// on the flash, unless the highest is `u32::MAX` and the counter wraps.
pub proof fn lemma_next_generation_is_newer(records: Seq<RecordView>, name: Seq<u8>)
    requires
        max_generation(records, name) < u32::MAX,
    ensures
        forall|j: int| 0 <= j < records.len() && #[trigger] records[j].name == name
            ==> records[j].generation < next_generation_of(records, name),
{
    lemma_max_generation_bounds(records, name);
}

/// The generation for a new version of `name`.
pub fn next_generation_in(records: &Vec<BlockRecord>, name: &[u8]) -> (generation: u32)
    ensures
        generation == next_generation_of(records_view(records@), name@),
{
    let ghost rv = records_view(records@);
    let mut best: u32 = 0;
    let mut j: usize = 0;
    while j < records.len()
        invariant
            rv == records_view(records@),
            j <= records@.len(),
            best == max_generation(rv.take(j as int), name@),
        decreases records.len() - j,
    {
        assert(rv.take(j + 1).drop_last() =~= rv.take(j as int));
        let r = &records[j];
        if bytes_equal(r.name.as_slice(), name) && r.generation > best {
            best = r.generation;
        }
        j = j + 1;
    }
    assert(rv.take(records@.len() as int) =~= rv);
    best.wrapping_add(1)
}

} // verus!
