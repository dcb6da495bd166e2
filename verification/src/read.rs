//! Streaming the newest complete version of an artifact.

use vstd::prelude::*;
use vstd::string::StringSliceAdditionalSpecFns;
use crate::crc::{Crc32, crc_absorb, crc_initial};
use crate::layout::{valid_name_bytes, validate_name};
use crate::nand::{FlashOutput, FlashRequest, OutputView, RequestView, BLOCK_COUNT, PAGES_PER_BLOCK, PAGE_SIZE};
use crate::scan::{EventView, ScanStep, ScanStepView, ScanView, Scanner, StoreEvent, records_bounded, scan_accepts,
    scan_entry, scan_next};
use crate::store::{ArtifactError, BlockRecord, RecordView, bytes_equal, find_in_records, find_outcome, records_view,
    ARTIFACT_BLOCK_CAPACITY};
use crate::artifact::{StoreStep, StoreStepView, lift_scan};

verus! {

/// The records of version `generation` of `name`, in scan order.
pub open spec fn segments_of(records: Seq<RecordView>, name: Seq<u8>, generation: u32) -> Seq<RecordView>
    decreases records.len(),
{
    if records.len() == 0 {
        seq![]
    } else {
        let rest = segments_of(records.drop_last(), name, generation);
        let r = records.last();
        if r.name == name && r.generation == generation { rest.push(r) } else { rest }
    }
}

pub proof fn lemma_segments_bounded(records: Seq<RecordView>, name: Seq<u8>, generation: u32)
    requires
        records_bounded(records),
    ensures
        records_bounded(segments_of(records, name, generation)),
        segments_of(records, name, generation).len() <= records.len(),
    decreases records.len(),
{
    if records.len() > 0 {
        let rest = records.drop_last();
        assert(records_bounded(rest)) by {
            assert forall|j: int| 0 <= j < rest.len() implies {
                &&& #[trigger] rest[j].physical_block < BLOCK_COUNT
                &&& rest[j].size <= ARTIFACT_BLOCK_CAPACITY
            } by {
                assert(rest[j] == records[j]);
            }
        }
        lemma_segments_bounded(rest, name, generation);
        let prev = segments_of(rest, name, generation);
        let all = segments_of(records, name, generation);
        assert forall|j: int| 0 <= j < all.len() implies {
            &&& #[trigger] all[j].physical_block < BLOCK_COUNT
            &&& all[j].size <= ARTIFACT_BLOCK_CAPACITY
        } by {
            if j < prev.len() {
                assert(all[j] == prev[j]);
            } else {
                assert(all[j] == records.last());
            }
        }
    }
}

/// The segments a read streams from are the records of exactly the
/// version it found: every record of `segments_of` carries the requested
/// name and generation and is one of the scanned records, and every
/// scanned record with that name and generation is among them, in scan
/// order. So a read never delivers data of a block whose header names
/// another artifact or another version.
pub proof fn lemma_segments_are_the_version(records: Seq<RecordView>, name: Seq<u8>, generation: u32)
    ensures
        forall|j: int| 0 <= j < segments_of(records, name, generation).len() ==> {
            &&& (#[trigger] segments_of(records, name, generation)[j]).name == name
            &&& segments_of(records, name, generation)[j].generation == generation
            &&& records.contains(segments_of(records, name, generation)[j])
        },
        forall|i: int| 0 <= i < records.len() && (#[trigger] records[i]).name == name && records[i].generation == generation
            ==> segments_of(records, name, generation).contains(records[i]),
    decreases records.len(),
{
    if records.len() > 0 {
        let rest = records.drop_last();
        lemma_segments_are_the_version(rest, name, generation);
        let prev = segments_of(rest, name, generation);
        let all = segments_of(records, name, generation);
        assert forall|j: int| 0 <= j < all.len() implies {
            &&& (#[trigger] all[j]).name == name
            &&& all[j].generation == generation
            &&& records.contains(all[j])
        } by {
            if j < prev.len() {
                assert(all[j] == prev[j]);
                let i = choose|i: int| 0 <= i < rest.len() && rest[i] == prev[j];
                assert(records[i] == rest[i]);
            } else {
                assert(records[records.len() - 1] == all[j]);
            }
        }
        assert forall|i: int| 0 <= i < records.len() && (#[trigger] records[i]).name == name && records[i].generation == generation
            implies all.contains(records[i]) by {
            if i < rest.len() {
                assert(rest[i] == records[i]);
                let j = choose|j: int| 0 <= j < prev.len() && prev[j] == rest[i];
                assert(all[j] == prev[j]);
            } else {
                assert(all[all.len() - 1] == records[i]);
            }
        }
    }
}

/// The first segment (in scan order) with logical index `index`.
pub open spec fn first_segment(segments: Seq<RecordView>, index: u16) -> Option<RecordView>
    decreases segments.len(),
{
    if segments.len() == 0 {
        None
    } else {
        match first_segment(segments.drop_last(), index) {
            Some(r) => Some(r),
            None => if segments.last().logical_index == index { Some(segments.last()) } else { None },
        }
    }
}

proof fn lemma_first_segment_prefix(segments: Seq<RecordView>, index: u16, k: int)
    requires
        0 <= k <= segments.len(),
        first_segment(segments.take(k), index) is Some,
    ensures
        first_segment(segments, index) == first_segment(segments.take(k), index),
    decreases segments.len() - k,
{
    if k < segments.len() {
        assert(segments.take(k + 1).drop_last() =~= segments.take(k));
        lemma_first_segment_prefix(segments, index, k + 1);
    } else {
        assert(segments.take(k) =~= segments);
    }
}

pub struct ReadingView {
    pub segments: Seq<RecordView>,
    pub blocks: u16,
    /// Logical index of the segment being read.
    pub index: u16,
    pub block: u16,
    pub expected_crc: u32,
    pub page_offset: u16,
    pub block_remaining: nat,
    pub remaining: nat,
    pub crc: u32,
    pub awaiting_page: bool,
    pub length: nat,
}

pub enum ReadStage {
    Finding(ScanView),
    Collecting(ScanView, u32, u64, u16),
    Reading(ReadingView),
    Finished,
}

pub struct ReadView {
    pub name_bytes: Seq<u8>,
    pub stage: ReadStage,
    /// Everything delivered so far.
    pub delivered: Seq<u8>,
    /// The size `find` reported, as a byte count.
    pub size: nat,
}

/// The reading state positioned at the first page of segment `index`,
/// if that segment exists.
pub open spec fn enter_segment(r: ReadingView, index: u16) -> Option<ReadingView> {
    match first_segment(r.segments, index) {
        None => None,
        Some(rec) => Some(ReadingView {
            index,
            block: rec.physical_block,
            expected_crc: rec.crc32,
            page_offset: 1,
            block_remaining: rec.size as nat,
            crc: crc_initial(),
            awaiting_page: true,
            length: 0,
            ..r
        }),
    }
}

pub open spec fn read_finished<E>(s: ReadView, result: Result<(), ArtifactError<E>>) -> (ReadView, StoreStepView<(), E>) {
    (ReadView { stage: ReadStage::Finished, ..s }, StoreStepView::Done(result))
}

/// From a page boundary of the current segment: read the next page while
/// the segment has bytes left (pages 1..63); at the segment's end check its
/// size and checksum and move on to the next segment; after the last
/// segment all of the artifact's bytes must have been delivered.
pub open spec fn settle<E>(s: ReadView, r: ReadingView) -> (ReadView, StoreStepView<(), E>)
    decreases r.blocks - r.index,
{
    if r.block_remaining > 0 && r.page_offset < PAGES_PER_BLOCK {
        (
            ReadView { stage: ReadStage::Reading(ReadingView { awaiting_page: true, ..r }), ..s },
            StoreStepView::Flash(RequestView::ReadPage((r.block * PAGES_PER_BLOCK + r.page_offset) as u16)),
        )
    } else if r.block_remaining != 0 || (r.crc ^ 0xffff_ffff) != r.expected_crc {
        read_finished(s, Err(ArtifactError::CorruptMetadata))
    } else if r.index + 1 >= r.blocks {
        read_finished(s, if r.remaining == 0 { Ok(()) } else { Err(ArtifactError::Incomplete) })
    } else {
        match enter_segment(r, (r.index + 1) as u16) {
            None => read_finished(s, Err(ArtifactError::Incomplete)),
            Some(r2) => settle(s, r2),
        }
    }
}

/// Starting on segment 0.
pub open spec fn start_reading<E>(s: ReadView, r: ReadingView) -> (ReadView, StoreStepView<(), E>) {
    if r.blocks == 0 {
        read_finished(s, if r.remaining == 0 { Ok(()) } else { Err(ArtifactError::Incomplete) })
    } else {
        match enter_segment(r, 0) {
            None => read_finished(s, Err(ArtifactError::Incomplete)),
            Some(r2) => settle(s, r2),
        }
    }
}

pub open spec fn min_nat(a: nat, b: nat) -> nat {
    if a < b { a } else { b }
}

/// One transition of `read`: find the newest complete version, scan again
/// for its segments, then stream each segment's pages, checking sizes and
/// checksums.
pub open spec fn read_next<E>(s: ReadView, event: EventView<E>) -> (ReadView, StoreStepView<(), E>) {
    match s.stage {
        ReadStage::Finding(scan) => {
            let (scan2, step) = scan_next::<E>(scan, event);
            match step {
                ScanStepView::Finished(Ok(records)) => match find_outcome::<E>(records, s.name_bytes) {
                    Err(e) => read_finished(s, Err(e)),
                    Ok((generation, size, blocks)) => {
                        let (scan0, step0) = scan_entry::<E>(0, seq![]);
                        (
                            ReadView { stage: ReadStage::Collecting(scan0, generation, size, blocks), size: (size as usize) as nat, ..s },
                            lift_scan(step0),
                        )
                    },
                },
                _ => (ReadView { stage: ReadStage::Finding(scan2), ..s }, lift_scan(step)),
            }
        },
        ReadStage::Collecting(scan, generation, size, blocks) => {
            let (scan2, step) = scan_next::<E>(scan, event);
            match step {
                ScanStepView::Finished(Ok(records)) => start_reading(ReadView { stage: ReadStage::Finished, ..s }, ReadingView {
                    segments: segments_of(records, s.name_bytes, generation),
                    blocks,
                    index: 0,
                    block: 0,
                    expected_crc: 0,
                    page_offset: 1,
                    block_remaining: 0,
                    remaining: (size as usize) as nat,
                    crc: crc_initial(),
                    awaiting_page: true,
                    length: 0,
                }),
                _ => (ReadView { stage: ReadStage::Collecting(scan2, generation, size, blocks), ..s }, lift_scan(step)),
            }
        },
        ReadStage::Reading(r) => match event {
            EventView::Flash(Err(err)) => read_finished(s, Err(ArtifactError::Flash(err))),
            EventView::Flash(Ok(OutputView::Page(page))) => {
                let length = min_nat(min_nat(r.block_remaining, PAGE_SIZE as nat), r.remaining);
                let data = page.take(length as int);
                (
                    ReadView {
                        stage: ReadStage::Reading(ReadingView { awaiting_page: false, length, crc: crc_absorb(r.crc, data), ..r }),
                        delivered: s.delivered + data,
                        ..s
                    },
                    StoreStepView::Deliver(data),
                )
            },
            _ => settle(ReadView { stage: ReadStage::Finished, ..s }, ReadingView {
                block_remaining: (r.block_remaining - r.length) as nat,
                remaining: (r.remaining - r.length) as nat,
                page_offset: (r.page_offset + 1) as u16,
                awaiting_page: true,
                length: 0,
                ..r
            }),
        },
        ReadStage::Finished => (s, StoreStepView::Done(Ok(()))),
    }
}

pub open spec fn read_accepts<E>(s: ReadView, event: EventView<E>) -> bool {
    match s.stage {
        ReadStage::Finding(scan) => scan_accepts(scan, event),
        ReadStage::Collecting(scan, _, _, _) => scan_accepts(scan, event),
        ReadStage::Reading(r) => if r.awaiting_page {
            event matches EventView::Flash(res) && (res is Err || (res->Ok_0 is Page
                && res->Ok_0->Page_0.len() == PAGE_SIZE))
        } else {
            event is Consumed
        },
        ReadStage::Finished => false,
    }
}


/// The position of the first segment with logical index `index`.
fn find_first_segment(segments: &Vec<BlockRecord>, index: u16) -> (found: Option<usize>)
    ensures
        match found {
            None => first_segment(records_view(segments@), index) is None,
            Some(j) => j < segments@.len() && first_segment(records_view(segments@), index) == Some(
                records_view(segments@)[j as int],
            ),
        },
{
    let ghost sv = records_view(segments@);
    let mut j: usize = 0;
    while j < segments.len()
        invariant
            sv == records_view(segments@),
            j <= segments@.len(),
            first_segment(sv.take(j as int), index) is None,
        decreases segments.len() - j,
    {
        assert(sv.take(j + 1).drop_last() =~= sv.take(j as int));
        if segments[j].logical_index == index {
            proof {
                lemma_first_segment_prefix(sv, index, j + 1);
            }
            return Some(j);
        }
        j = j + 1;
    }
    assert(sv.take(segments@.len() as int) =~= sv);
    None
}

struct Reading {
    segments: Vec<BlockRecord>,
    blocks: u16,
    index: u16,
    block: u16,
    expected_crc: u32,
    page_offset: u16,
    block_remaining: usize,
    remaining: usize,
    crc: Crc32,
    awaiting_page: bool,
    length: usize,
}

impl Reading {
    spec fn view(&self) -> ReadingView {
        ReadingView {
            segments: records_view(self.segments@),
            blocks: self.blocks,
            index: self.index,
            block: self.block,
            expected_crc: self.expected_crc,
            page_offset: self.page_offset,
            block_remaining: self.block_remaining as nat,
            remaining: self.remaining as nat,
            crc: self.crc.state(),
            awaiting_page: self.awaiting_page,
            length: self.length as nat,
        }
    }

    /// Positioned within a segment, with its page number in range.
    spec fn positioned(&self) -> bool {
        &&& records_bounded(records_view(self.segments@))
        &&& self.block < BLOCK_COUNT
        &&& 1 <= self.page_offset <= PAGES_PER_BLOCK
        &&& self.block_remaining <= ARTIFACT_BLOCK_CAPACITY
        &&& self.index < self.blocks
        &&& (self.awaiting_page ==> self.length == 0)
        &&& (!self.awaiting_page ==> {
            &&& self.page_offset < PAGES_PER_BLOCK
            &&& self.length <= self.block_remaining
            &&& self.length <= self.remaining
        })
    }
}

enum ReadPhase {
    Finding(Scanner),
    Collecting(Scanner, u32, u64, u16),
    Reading(Reading),
    Finished,
}

/// A `read` in progress.
pub struct ReadOp {
    name_bytes: Vec<u8>,
    phase: ReadPhase,
    delivered: Ghost<Seq<u8>>,
    size: Ghost<nat>,
}

impl View for ReadOp {
    type V = ReadView;

    closed spec fn view(&self) -> ReadView {
        ReadView {
            name_bytes: self.name_bytes@,
            stage: match self.phase {
                ReadPhase::Finding(scan) => ReadStage::Finding(scan@),
                ReadPhase::Collecting(scan, g, size, blocks) => ReadStage::Collecting(scan@, g, size, blocks),
                ReadPhase::Reading(r) => ReadStage::Reading(r.view()),
                ReadPhase::Finished => ReadStage::Finished,
            },
            delivered: self.delivered@,
            size: self.size@,
        }
    }
}

impl ReadOp {
    pub closed spec fn wf(&self) -> bool {
        match self.phase {
            ReadPhase::Finding(scan) => scan.wf() && self.delivered@.len() == 0,
            ReadPhase::Collecting(scan, _, size, _) => scan.wf() && self.delivered@.len() == 0
                && self.size@ == (size as usize) as nat,
            ReadPhase::Reading(r) => {
                &&& r.positioned()
                &&& (r.awaiting_page ==> r.page_offset < PAGES_PER_BLOCK && r.block_remaining > 0)
                &&& self.delivered@.len() + r.remaining == self.size@ + (if r.awaiting_page { 0 } else { r.length as nat })
            },
            ReadPhase::Finished => false,
        }
    }

    /// Runs `settle` from a page boundary of the current segment.
    fn settle<E>(&mut self, start: Reading) -> (step: StoreStep<(), E>)
        requires
            start.positioned(),
            start.awaiting_page,
            old(self).delivered@.len() + start.remaining == old(self).size@,
        ensures
            !(step is Done) ==> final(self).wf(),
            step matches StoreStep::Done(Ok(())) ==> final(self)@.delivered.len() == final(self)@.size,
            (final(self)@, step.view()) == settle::<E>(old(self)@, start.view()),
    {
        let ghost s0 = self@;
        let ghost r0 = start.view();
        let mut r = start;
        loop
            invariant
                r.positioned(),
                r.awaiting_page,
                self@ == s0,
                s0 == old(self)@,
                r0 == start.view(),
                self.delivered@.len() + r.remaining == self.size@,
                settle::<E>(s0, r.view()) == settle::<E>(s0, r0),
            decreases r.blocks - r.index,
        {
            if r.block_remaining > 0 && r.page_offset < PAGES_PER_BLOCK {
                let page = r.block * PAGES_PER_BLOCK + r.page_offset;
                self.phase = ReadPhase::Reading(r);
                return StoreStep::Flash(FlashRequest::ReadPage(page));
            }
            if r.block_remaining != 0 || r.crc.finish() != r.expected_crc {
                self.phase = ReadPhase::Finished;
                return StoreStep::Done(Err(ArtifactError::CorruptMetadata));
            }
            if r.index as u32 + 1 >= r.blocks as u32 {
                let result = if r.remaining == 0 { Ok(()) } else { Err(ArtifactError::Incomplete) };
                self.phase = ReadPhase::Finished;
                return StoreStep::Done(result);
            }
            let next = r.index + 1;
            match find_first_segment(&r.segments, next) {
                None => {
                    self.phase = ReadPhase::Finished;
                    return StoreStep::Done(Err(ArtifactError::Incomplete));
                },
                Some(j) => {
                    let block = r.segments[j].physical_block;
                    let expected_crc = r.segments[j].crc32;
                    let size = r.segments[j].size as usize;
                    r.index = next;
                    r.block = block;
                    r.expected_crc = expected_crc;
                    r.page_offset = 1;
                    r.block_remaining = size;
                    r.crc = Crc32::new();
                    r.awaiting_page = true;
                    r.length = 0;
                },
            }
        }
    }

    /// Takes the answer to the read's last request.
    pub fn resume<E>(&mut self, event: StoreEvent<E>) -> (step: StoreStep<(), E>)
        requires
            old(self).wf(),
            read_accepts(old(self)@, event.view()),
        ensures
            !(step is Done) ==> final(self).wf(),
            step matches StoreStep::Done(Ok(())) ==> final(self)@.delivered.len() == final(self)@.size,
            (final(self)@, step.view()) == read_next::<E>(old(self)@, event.view()),
    {
        let mut phase = ReadPhase::Finished;
        std::mem::swap(&mut phase, &mut self.phase);
        assert(phase == old(self).phase);
        match phase {
            ReadPhase::Finding(mut scan) => match scan.resume(event) {
                ScanStep::Finished(Ok(records)) => match find_in_records::<E>(&records, self.name_bytes.as_slice()) {
                    Err(e) => StoreStep::Done(Err(e)),
                    Ok((generation, size, blocks)) => {
                        let (scan0, step0) = Scanner::start::<E>();
                        self.phase = ReadPhase::Collecting(scan0, generation, size, blocks);
                        self.size = Ghost((size as usize) as nat);
                        lift_read_scan(step0)
                    },
                },
                step => {
                    self.phase = ReadPhase::Finding(scan);
                    lift_read_scan(step)
                },
            },
            ReadPhase::Collecting(mut scan, generation, size, blocks) => match scan.resume(event) {
                ScanStep::Finished(Ok(records)) => {
                    let segments = segments_in(&records, self.name_bytes.as_slice(), generation);
                    proof {
                        lemma_segments_bounded(records_view(records@), self.name_bytes@, generation);
                    }
                    let remaining = size as usize;
                    if blocks == 0 {
                        let result = if remaining == 0 { Ok(()) } else { Err(ArtifactError::Incomplete) };
                        return StoreStep::Done(result);
                    }
                    match find_first_segment(&segments, 0) {
                        None => StoreStep::Done(Err(ArtifactError::Incomplete)),
                        Some(j) => {
                            assert(records_view(segments@)[j as int].physical_block < BLOCK_COUNT);
                            let block = segments[j].physical_block;
                            let expected_crc = segments[j].crc32;
                            let block_size = segments[j].size as usize;
                            let r = Reading {
                                segments,
                                blocks,
                                index: 0,
                                block,
                                expected_crc,
                                page_offset: 1,
                                block_remaining: block_size,
                                remaining,
                                crc: Crc32::new(),
                                awaiting_page: true,
                                length: 0,
                            };
                            self.settle(r)
                        },
                    }
                },
                step => {
                    self.phase = ReadPhase::Collecting(scan, generation, size, blocks);
                    lift_read_scan(step)
                },
            },
            ReadPhase::Reading(mut r) => match event {
                StoreEvent::Flash(Err(err)) => StoreStep::Done(Err(ArtifactError::Flash(err))),
                StoreEvent::Flash(Ok(FlashOutput::Page(page))) => {
                    let mut length = if r.block_remaining < PAGE_SIZE { r.block_remaining } else { PAGE_SIZE };
                    if r.remaining < length {
                        length = r.remaining;
                    }
                    let data = vstd::slice::slice_to_vec(&page.as_slice()[0..length]);
                    assert(data@ =~= page@.take(length as int));
                    r.crc.update(data.as_slice());
                    r.awaiting_page = false;
                    r.length = length;
                    self.delivered = Ghost(self.delivered@ + data@);
                    self.phase = ReadPhase::Reading(r);
                    StoreStep::Deliver(data)
                },
                _ => {
                    r.block_remaining = r.block_remaining - r.length;
                    r.remaining = r.remaining - r.length;
                    r.page_offset = r.page_offset + 1;
                    r.awaiting_page = true;
                    r.length = 0;
                    self.settle(r)
                },
            },
            ReadPhase::Finished => StoreStep::Done(Ok(())),
        }
    }

    /// Starts a `read` of `name`; the operation can run when the name is
    /// valid.
    pub fn start<E>(name: &str) -> (result: (ReadOp, StoreStep<(), E>))
        ensures
            valid_name_bytes(name.spec_bytes()) ==> result.0.wf(),
            ({
                let (scan, step) = scan_entry::<E>(0, seq![]);
                &&& result.0@ == ReadView { name_bytes: name.spec_bytes(), stage: ReadStage::Finding(scan), delivered: seq![], size: 0 }
                &&& result.1.view() == lift_scan::<(), E>(step)
            }),
    {
        let (scan, step) = Scanner::start::<E>();
        let ghost nothing: Seq<u8> = seq![];
        let op = ReadOp {
            name_bytes: vstd::slice::slice_to_vec(name.as_bytes()),
            phase: ReadPhase::Finding(scan),
            delivered: Ghost(nothing),
            size: Ghost(0),
        };
        (op, lift_read_scan(step))
    }
}

fn lift_read_scan<E>(step: ScanStep<E>) -> (lifted: StoreStep<(), E>)
    requires
        !(step matches ScanStep::Finished(Ok(_))),
    ensures
        lifted.view() == lift_scan::<(), E>(step.view()),
{
    match step {
        ScanStep::Flash(r) => StoreStep::Flash(r),
        ScanStep::Delay(ms) => StoreStep::Delay(ms),
        ScanStep::Finished(Err(e)) => StoreStep::Done(Err(e)),
        ScanStep::Finished(Ok(_)) => StoreStep::Done(Err(ArtifactError::Incomplete)),
    }
}

/// The records of version `generation` of `name`.
fn segments_in(records: &Vec<BlockRecord>, name: &[u8], generation: u32) -> (segments: Vec<BlockRecord>)
    ensures
        records_view(segments@) == segments_of(records_view(records@), name@, generation),
{
    let ghost rv = records_view(records@);
    let mut segments: Vec<BlockRecord> = Vec::new();
    let mut j: usize = 0;
    while j < records.len()
        invariant
            rv == records_view(records@),
            j <= records@.len(),
            records_view(segments@) == segments_of(rv.take(j as int), name@, generation),
        decreases records.len() - j,
    {
        assert(rv.take(j + 1).drop_last() =~= rv.take(j as int));
        let r = &records[j];
        if bytes_equal(r.name.as_slice(), name) && r.generation == generation {
            segments.push(r.copy());
            assert(records_view(segments@) =~= segments_of(rv.take(j + 1), name@, generation));
        }
        j = j + 1;
    }
    assert(rv.take(records@.len() as int) =~= rv);
    segments
}


// ---------------------------------------------------------------------
// What a read delivers from the flash contents

/// Every page of a flash image holds a full page of data.
pub open spec fn page_image_full(image: spec_fn(int) -> Seq<u8>) -> bool {
    forall|page: int| #[trigger] image(page).len() == PAGE_SIZE
}

/// Data pages 1 to `n` of `block` in `image`, one after another.
pub open spec fn data_pages(image: spec_fn(int) -> Seq<u8>, block: int, n: nat) -> Seq<u8>
    decreases n,
{
    if n == 0 {
        seq![]
    } else {
        data_pages(image, block, (n - 1) as nat) + image(block * PAGES_PER_BLOCK + n)
    }
}

/// The bytes of a segment: the first `size` bytes of its block's data
/// pages.
pub open spec fn segment_data(image: spec_fn(int) -> Seq<u8>, rec: RecordView) -> Seq<u8> {
    data_pages(image, rec.physical_block as int, (PAGES_PER_BLOCK - 1) as nat).take(rec.size as int)
}

/// The bytes of segments 0 to `k - 1` (in logical order) one after
/// another; a missing segment contributes nothing.
pub open spec fn artifact_data(image: spec_fn(int) -> Seq<u8>, segments: Seq<RecordView>, k: nat) -> Seq<u8>
    decreases k,
{
    if k == 0 {
        seq![]
    } else {
        artifact_data(image, segments, (k - 1) as nat) + match first_segment(segments, (k - 1) as u16) {
            Some(rec) => segment_data(image, rec),
            None => seq![],
        }
    }
}

proof fn lemma_data_pages(image: spec_fn(int) -> Seq<u8>, block: int, n: nat, k: int)
    requires
        page_image_full(image),
        1 <= k <= n,
    ensures
        data_pages(image, block, n).len() == n * PAGE_SIZE,
        data_pages(image, block, n).subrange((k - 1) * PAGE_SIZE, k * PAGE_SIZE) == image(block * PAGES_PER_BLOCK + k),
    decreases n,
{
    let d = data_pages(image, block, n);
    let prev = data_pages(image, block, (n - 1) as nat);
    let page = image(block * PAGES_PER_BLOCK + n);
    if n > 1 {
        lemma_data_pages_len(image, block, (n - 1) as nat);
    }
    if k < n {
        lemma_data_pages(image, block, (n - 1) as nat, k);
        assert(d.subrange((k - 1) * PAGE_SIZE, k * PAGE_SIZE) =~= prev.subrange((k - 1) * PAGE_SIZE, k * PAGE_SIZE));
    } else {
        assert(d.subrange((k - 1) * PAGE_SIZE, k * PAGE_SIZE) =~= page);
    }
}

proof fn lemma_data_pages_len(image: spec_fn(int) -> Seq<u8>, block: int, n: nat)
    requires
        page_image_full(image),
    ensures
        data_pages(image, block, n).len() == n * PAGE_SIZE,
    decreases n,
{
    if n > 0 {
        lemma_data_pages_len(image, block, (n - 1) as nat);
        assert(image(block * PAGES_PER_BLOCK + n).len() == PAGE_SIZE);
    }
}


proof fn lemma_first_segment_member(segments: Seq<RecordView>, index: u16)
    requires
        first_segment(segments, index) is Some,
    ensures
        exists|j: int| 0 <= j < segments.len() && segments[j] == first_segment(segments, index)->Some_0,
    decreases segments.len(),
{
    let rest = segments.drop_last();
    if first_segment(rest, index) is Some {
        lemma_first_segment_member(rest, index);
        let j = choose|j: int| 0 <= j < rest.len() && rest[j] == first_segment(rest, index)->Some_0;
        assert(segments[j] == rest[j]);
    } else {
        assert(segments[segments.len() - 1] == segments.last());
    }
}

proof fn lemma_segment_data_len(image: spec_fn(int) -> Seq<u8>, segments: Seq<RecordView>, index: u16)
    requires
        page_image_full(image),
        records_bounded(segments),
        first_segment(segments, index) is Some,
    ensures
        segment_data(image, first_segment(segments, index)->Some_0).len() == first_segment(segments, index)->Some_0.size,
        first_segment(segments, index)->Some_0.size <= ARTIFACT_BLOCK_CAPACITY,
{
    lemma_first_segment_member(segments, index);
    let rec = first_segment(segments, index)->Some_0;
    let j = choose|j: int| 0 <= j < segments.len() && segments[j] == rec;
    assert(segments[j].physical_block < BLOCK_COUNT);
    lemma_data_pages_len(image, rec.physical_block as int, (PAGES_PER_BLOCK - 1) as nat);
}

/// `artifact_data` for fewer segments is a prefix of it for more.
proof fn lemma_artifact_prefix(image: spec_fn(int) -> Seq<u8>, segments: Seq<RecordView>, j: nat, k: nat)
    requires
        j <= k,
    ensures
        artifact_data(image, segments, j).len() <= artifact_data(image, segments, k).len(),
        artifact_data(image, segments, k).take(artifact_data(image, segments, j).len() as int)
            == artifact_data(image, segments, j),
    decreases k,
{
    if j < k {
        lemma_artifact_prefix(image, segments, j, (k - 1) as nat);
        let a = artifact_data(image, segments, j);
        let b = artifact_data(image, segments, (k - 1) as nat);
        let c = artifact_data(image, segments, k);
        assert(c.take(a.len() as int) =~= b.take(a.len() as int));
    } else {
        assert(artifact_data(image, segments, k).take(artifact_data(image, segments, k).len() as int)
            =~= artifact_data(image, segments, k));
    }
}


/// A reading state agrees with `image`: what the read has delivered is
/// the beginning of the segments' data, and while bytes remain to be
/// delivered, its place in the current segment is where the delivered
/// bytes end.
pub open spec fn reading_matches(image: spec_fn(int) -> Seq<u8>, delivered: Seq<u8>, size: nat, r: ReadingView) -> bool {
    let full = artifact_data(image, r.segments, r.blocks as nat);
    let before = if r.awaiting_page { delivered.len() as int } else { delivered.len() - r.length };
    &&& records_bounded(r.segments)
    &&& r.index < r.blocks
    &&& 1 <= r.page_offset <= PAGES_PER_BLOCK
    &&& (r.awaiting_page ==> r.length == 0)
    &&& (!r.awaiting_page ==> r.page_offset < PAGES_PER_BLOCK
        && r.length == min_nat(min_nat(r.block_remaining, PAGE_SIZE as nat), r.remaining))
    &&& delivered.len() + r.remaining == size + (if r.awaiting_page { 0 } else { r.length })
    &&& delivered.len() <= full.len()
    &&& delivered == full.take(delivered.len() as int)
    &&& r.remaining > 0 ==> (first_segment(r.segments, r.index) matches Some(rec) && {
        &&& rec.physical_block == r.block
        &&& r.block_remaining <= rec.size
        &&& before == artifact_data(image, r.segments, r.index as nat).len() + (rec.size - r.block_remaining)
        &&& (r.block_remaining > 0 ==> rec.size - r.block_remaining == (r.page_offset - 1) * PAGE_SIZE)
    })
}

/// What a step of a read leaves, seen against `image`: a reading state
/// still agrees with it and reads the same segments, and a read that ends
/// successfully has delivered the first `size` bytes of their data.
pub open spec fn read_step_matches<E>(
    image: spec_fn(int) -> Seq<u8>,
    s: ReadView,
    r: ReadingView,
    next: (ReadView, StoreStepView<(), E>),
) -> bool {
    let (s2, step) = next;
    &&& (s2.stage matches ReadStage::Reading(r2) ==> {
        &&& reading_matches(image, s2.delivered, s2.size, r2)
        &&& (r2.awaiting_page ==> r2.page_offset < PAGES_PER_BLOCK)
        &&& r2.segments == r.segments
        &&& r2.blocks == r.blocks
    })
    &&& (step matches StoreStepView::Done(Ok(())) ==> s2.delivered == artifact_data(image, r.segments, r.blocks as nat).take(
        s.size as int,
    ))
}

proof fn lemma_settle_matches<E>(image: spec_fn(int) -> Seq<u8>, s: ReadView, r: ReadingView)
    requires
        page_image_full(image),
        r.awaiting_page,
        reading_matches(image, s.delivered, s.size, r),
    ensures
        settle::<E>(s, r).0.delivered == s.delivered,
        settle::<E>(s, r).0.size == s.size,
        read_step_matches(image, s, r, settle::<E>(s, r)),
    decreases r.blocks - r.index,
{
    if r.block_remaining > 0 && r.page_offset < PAGES_PER_BLOCK {
    } else if r.block_remaining != 0 || (r.crc ^ 0xffff_ffff) != r.expected_crc {
    } else if r.index + 1 >= r.blocks {
    } else {
        let next = (r.index + 1) as u16;
        match enter_segment(r, next) {
            None => {},
            Some(r2) => {
                if r.remaining > 0 {
                    let rec = first_segment(r.segments, r.index)->Some_0;
                    lemma_segment_data_len(image, r.segments, r.index);
                    assert(artifact_data(image, r.segments, (r.index + 1) as nat) == artifact_data(image, r.segments, r.index as nat)
                        + segment_data(image, rec));
                }
                lemma_settle_matches::<E>(image, s, r2);
            },
        }
    }
}


/// The page a reading state asks for, as `image` holds it.
pub open spec fn requested_page(image: spec_fn(int) -> Seq<u8>, r: ReadingView) -> Seq<u8> {
    image(r.block * PAGES_PER_BLOCK + r.page_offset)
}

/// Reading against a flash image: while a read streams the data pages of
/// the version it found, and each page it asks for comes back as the image
/// holds it, every byte it delivers is the next byte of the version's
/// segment data (in logical order, each segment cut to its recorded size),
/// and a read that ends successfully has delivered exactly the first
/// `size` bytes of that data.
pub proof fn lemma_read_delivers_image_data<E>(image: spec_fn(int) -> Seq<u8>, s: ReadView, event: EventView<E>)
    requires
        page_image_full(image),
        s.stage matches ReadStage::Reading(r) && {
            &&& reading_matches(image, s.delivered, s.size, r)
            &&& (r.awaiting_page ==> r.page_offset < PAGES_PER_BLOCK)
            &&& (event matches EventView::Flash(Ok(OutputView::Page(page))) ==> page == requested_page(image, r))
        },
        read_accepts(s, event),
    ensures
        read_step_matches(image, s, s.stage->Reading_0, read_next::<E>(s, event)),
{
    let r = s.stage->Reading_0;
    match event {
        EventView::Flash(Err(_)) => {},
        EventView::Flash(Ok(OutputView::Page(page))) => {
            let length = min_nat(min_nat(r.block_remaining, PAGE_SIZE as nat), r.remaining);
            let data = page.take(length as int);
            let full = artifact_data(image, r.segments, r.blocks as nat);
            let delivered = s.delivered + data;
            if r.remaining > 0 && r.block_remaining > 0 {
                let rec = first_segment(r.segments, r.index)->Some_0;
                let a = artifact_data(image, r.segments, r.index as nat);
                let a1 = artifact_data(image, r.segments, (r.index + 1) as nat);
                let seg = segment_data(image, rec);
                let pages = data_pages(image, rec.physical_block as int, (PAGES_PER_BLOCK - 1) as nat);
                let off = (r.page_offset - 1) * PAGE_SIZE;
                lemma_segment_data_len(image, r.segments, r.index);
                assert(a1 == a + seg);
                lemma_artifact_prefix(image, r.segments, (r.index + 1) as nat, r.blocks as nat);
                lemma_data_pages(image, rec.physical_block as int, (PAGES_PER_BLOCK - 1) as nat, r.page_offset as int);
                assert(data =~= full.subrange(s.delivered.len() as int, (s.delivered.len() + length) as int)) by {
                    assert forall|i: int| 0 <= i < length implies data[i] == full[s.delivered.len() + i] by {
                        assert(full[s.delivered.len() + i] == a1[a.len() + off + i]);
                        assert(a1[a.len() + off + i] == seg[off + i]);
                        assert(seg[off + i] == pages[off + i]);
                        assert(pages.subrange(off, off + PAGE_SIZE)[i] == pages[off + i]);
                    }
                }
                assert(delivered =~= full.take(delivered.len() as int));
            } else {
                assert(data =~= seq![]);
                assert(delivered =~= s.delivered);
            }
        },
        _ => {
            let r1 = ReadingView {
                block_remaining: (r.block_remaining - r.length) as nat,
                remaining: (r.remaining - r.length) as nat,
                page_offset: (r.page_offset + 1) as u16,
                awaiting_page: true,
                length: 0,
                ..r
            };
            let s1 = ReadView { stage: ReadStage::Finished, ..s };
            lemma_settle_matches::<E>(image, s1, r1);
        },
    }
}


/// Reading starts in agreement with any flash image: when the second scan
/// has collected the version's segments and the read turns to their
/// pages, nothing has been delivered yet, and a read of a version with no
/// bytes to deliver ends successfully with nothing delivered.
pub proof fn lemma_reading_starts_matching<E>(image: spec_fn(int) -> Seq<u8>, s: ReadView, r: ReadingView)
    requires
        page_image_full(image),
        records_bounded(r.segments),
        s.delivered.len() == 0,
        r.remaining == s.size,
        r.index == 0,
        r.page_offset == 1,
        r.awaiting_page,
        r.length == 0,
    ensures
        read_step_matches(image, s, r, start_reading::<E>(s, r)),
{
    assert(s.delivered =~= artifact_data(image, r.segments, r.blocks as nat).take(0));
    if r.blocks > 0 {
        match enter_segment(r, 0) {
            None => {},
            Some(r2) => {
                lemma_settle_matches::<E>(image, s, r2);
            },
        }
    }
}


/// Data page `k` (from 1) of `block` in `image`.
pub open spec fn data_page(image: spec_fn(int) -> Seq<u8>, block: int, k: int) -> Seq<u8> {
    image(block * PAGES_PER_BLOCK + k)
}

/// Where the `k`-th page-sized piece of `len` bytes ends.
pub open spec fn piece_end(len: int, k: int) -> int {
    if len < k * PAGE_SIZE { len } else { k * PAGE_SIZE }
}

/// Data pages that begin with the pieces of `bytes`: page `k` (from 1)
/// starts with the `k`-th piece of one page's length.
pub open spec fn pages_hold(image: spec_fn(int) -> Seq<u8>, block: int, bytes: Seq<u8>) -> bool {
    forall|k: int|
        1 <= k < PAGES_PER_BLOCK && (k - 1) * PAGE_SIZE < bytes.len() ==> #[trigger] data_page(image, block, k).take(
            piece_end(bytes.len() as int, k) - (k - 1) * PAGE_SIZE,
        ) == bytes.subrange((k - 1) * PAGE_SIZE, piece_end(bytes.len() as int, k))
}

proof fn lemma_data_pages_hold(image: spec_fn(int) -> Seq<u8>, block: int, bytes: Seq<u8>, n: nat)
    requires
        page_image_full(image),
        pages_hold(image, block, bytes),
        n < PAGES_PER_BLOCK,
        bytes.len() <= n * PAGE_SIZE,
    ensures
        data_pages(image, block, n).take(bytes.len() as int) == bytes,
    decreases n,
{
    if n > 0 {
        let prev = data_pages(image, block, (n - 1) as nat);
        let page = image(block * PAGES_PER_BLOCK + n);
        lemma_data_pages_len(image, block, (n - 1) as nat);
        if bytes.len() <= (n - 1) * PAGE_SIZE {
            lemma_data_pages_hold(image, block, bytes, (n - 1) as nat);
            assert(data_pages(image, block, n).take(bytes.len() as int) =~= prev.take(bytes.len() as int));
        } else {
            let head = bytes.take((n - 1) * PAGE_SIZE);
            assert(pages_hold(image, block, head)) by {
                assert forall|k: int| 1 <= k < PAGES_PER_BLOCK && (k - 1) * PAGE_SIZE < head.len() implies
                    #[trigger] data_page(image, block, k).take(piece_end(head.len() as int, k) - (k - 1) * PAGE_SIZE)
                        == head.subrange((k - 1) * PAGE_SIZE, piece_end(head.len() as int, k)) by {
                    assert(k * PAGE_SIZE <= (n - 1) * PAGE_SIZE) by (nonlinear_arith)
                        requires
                            (k - 1) * PAGE_SIZE < (n - 1) * PAGE_SIZE,
                    ;
                    assert(data_page(image, block, k).take(piece_end(bytes.len() as int, k) - (k - 1) * PAGE_SIZE)
                        == bytes.subrange((k - 1) * PAGE_SIZE, piece_end(bytes.len() as int, k)));
                    assert(bytes.subrange((k - 1) * PAGE_SIZE, k * PAGE_SIZE) =~= head.subrange((k - 1) * PAGE_SIZE, k * PAGE_SIZE));
                }
            }
            lemma_data_pages_hold(image, block, head, (n - 1) as nat);
            let tail_len = bytes.len() - (n - 1) * PAGE_SIZE;
            assert(data_page(image, block, n as int).take(piece_end(bytes.len() as int, n as int) - (n - 1) * PAGE_SIZE)
                == bytes.subrange((n - 1) * PAGE_SIZE, piece_end(bytes.len() as int, n as int)));
            assert(image(block * PAGES_PER_BLOCK + n).take(tail_len) == bytes.subrange((n - 1) * PAGE_SIZE, bytes.len() as int));
            assert(data_pages(image, block, n).take(bytes.len() as int) =~= bytes) by {
                assert(prev.take(head.len() as int) == head);
                assert forall|i: int| 0 <= i < bytes.len() implies data_pages(image, block, n).take(bytes.len() as int)[i] == bytes[i] by {
                    if i < head.len() {
                        assert(prev.take(head.len() as int)[i] == head[i]);
                    } else {
                        assert(bytes.subrange((n - 1) * PAGE_SIZE, bytes.len() as int)[i - (n - 1) * PAGE_SIZE] == bytes[i]);
                    }
                }
            }
        }
    }
}

/// A block whose data pages begin with the pieces of `bytes` reads back as
/// `bytes`: the segment recorded there with `bytes.len()` as its size
/// holds exactly those bytes.
pub proof fn lemma_programmed_segment_reads_back(image: spec_fn(int) -> Seq<u8>, rec: RecordView, bytes: Seq<u8>)
    requires
        page_image_full(image),
        rec.size == bytes.len(),
        bytes.len() <= ARTIFACT_BLOCK_CAPACITY,
        pages_hold(image, rec.physical_block as int, bytes),
    ensures
        segment_data(image, rec) == bytes,
{
    lemma_data_pages_hold(image, rec.physical_block as int, bytes, (PAGES_PER_BLOCK - 1) as nat);
}


/// Segment `i` of a version written from `stream`: the `i`-th piece of one
/// block's capacity (the last piece may be shorter).
pub open spec fn stream_chunk(stream: Seq<u8>, i: int) -> Seq<u8> {
    let end = if stream.len() < (i + 1) * ARTIFACT_BLOCK_CAPACITY {
        stream.len() as int
    } else {
        (i + 1) * ARTIFACT_BLOCK_CAPACITY
    };
    stream.subrange(i * ARTIFACT_BLOCK_CAPACITY, end)
}

/// In `image`, segment `i` of `segments` is recorded with the size of the
/// `i`-th piece of `stream`, and its block's data pages begin with that
/// piece, as a writer programs them.
pub open spec fn segment_holds(image: spec_fn(int) -> Seq<u8>, segments: Seq<RecordView>, stream: Seq<u8>, i: int) -> bool {
    &&& first_segment(segments, i as u16) matches Some(rec)
    &&& rec.size == stream_chunk(stream, i).len()
    &&& pages_hold(image, rec.physical_block as int, stream_chunk(stream, i))
}

proof fn lemma_written_prefix(image: spec_fn(int) -> Seq<u8>, segments: Seq<RecordView>, blocks: nat, stream: Seq<u8>, k: nat)
    requires
        page_image_full(image),
        1 <= blocks <= u16::MAX,
        k <= blocks,
        stream.len() <= blocks * ARTIFACT_BLOCK_CAPACITY,
        blocks == 1 || (blocks - 1) * ARTIFACT_BLOCK_CAPACITY < stream.len(),
        forall|i: int| 0 <= i < blocks ==> #[trigger] segment_holds(image, segments, stream, i),
    ensures
        artifact_data(image, segments, k) == stream.take(
            if k == blocks { stream.len() as int } else { k * ARTIFACT_BLOCK_CAPACITY },
        ),
    decreases k,
{
    if k == 0 {
        assert(stream.take(0) =~= seq![]);
    } else {
        let i = k - 1;
        lemma_written_prefix(image, segments, blocks, stream, (k - 1) as nat);
        assert(segment_holds(image, segments, stream, i));
        let rec = first_segment(segments, i as u16)->Some_0;
        let chunk = stream_chunk(stream, i);
        assert(i * ARTIFACT_BLOCK_CAPACITY <= stream.len()) by {
            if i > 0 {
                assert(i * ARTIFACT_BLOCK_CAPACITY <= (blocks - 1) * ARTIFACT_BLOCK_CAPACITY);
            }
        }
        assert(chunk.len() <= ARTIFACT_BLOCK_CAPACITY);
        lemma_programmed_segment_reads_back(image, rec, chunk);
        assert(((k - 1) as u16) == i as u16);
        let end = if k == blocks { stream.len() as int } else { k * ARTIFACT_BLOCK_CAPACITY };
        assert(k < blocks ==> k * ARTIFACT_BLOCK_CAPACITY <= stream.len()) by {
            if k < blocks {
                assert(k * ARTIFACT_BLOCK_CAPACITY <= (blocks - 1) * ARTIFACT_BLOCK_CAPACITY);
            }
        }
        assert(stream.take(i * ARTIFACT_BLOCK_CAPACITY) + chunk =~= stream.take(end));
    }
}

/// Read after write: when the segments of a version hold, piece by piece,
/// the stream a writer was given (each segment recorded with its piece's
/// size and its data pages beginning with that piece, as the writer laws
/// give), their data in logical order is exactly that stream; so, by
/// `lemma_read_delivers_image_data`, a read of the version that ends
/// successfully has delivered exactly the written bytes.
pub proof fn lemma_written_version_reads_back<E>(
    image: spec_fn(int) -> Seq<u8>,
    s: ReadView,
    event: EventView<E>,
    stream: Seq<u8>,
)
    requires
        page_image_full(image),
        s.stage matches ReadStage::Reading(r) && {
            &&& reading_matches(image, s.delivered, s.size, r)
            &&& (r.awaiting_page ==> r.page_offset < PAGES_PER_BLOCK)
            &&& (event matches EventView::Flash(Ok(OutputView::Page(page))) ==> page == requested_page(image, r))
            &&& 1 <= r.blocks
            &&& stream.len() <= r.blocks * ARTIFACT_BLOCK_CAPACITY
            &&& (r.blocks == 1 || (r.blocks - 1) * ARTIFACT_BLOCK_CAPACITY < stream.len())
            &&& forall|i: int| 0 <= i < r.blocks ==> #[trigger] segment_holds(image, r.segments, stream, i)
        },
        s.size == stream.len(),
        read_accepts(s, event),
    ensures
        artifact_data(image, s.stage->Reading_0.segments, s.stage->Reading_0.blocks as nat) == stream,
        read_next::<E>(s, event).1 matches StoreStepView::Done(Ok(())) ==> read_next::<E>(s, event).0.delivered == stream,
{
    let r = s.stage->Reading_0;
    lemma_written_prefix(image, r.segments, r.blocks as nat, stream, r.blocks as nat);
    assert(stream.take(stream.len() as int) =~= stream);
    lemma_read_delivers_image_data::<E>(image, s, event);
}

} // verus!
