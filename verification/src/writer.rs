//! Writing a new artifact version: block allocation, page buffering and
//! commit records.

use vstd::prelude::*;
use vstd::utf8::encode_utf8;
use vstd::string::StringSliceAdditionalSpecFns;
use crate::crc::{Crc32, crc32, crc_absorb, crc_initial, lemma_crc_absorb_concat};
use crate::layout::{commit_fields, commit_image, encode_commit, lemma_commit_round_trip, valid_name_bytes, validate_name};
use crate::nand::{FlashRequest, OutputView, RequestView, BLOCK_COUNT, PAGES_PER_BLOCK, PAGE_SIZE};
use crate::scan::{EventView, ScanStep, ScanStepView, ScanView, Scanner, StoreEvent, scan_accepts, scan_entry, scan_next};
use crate::store::{ArtifactError, ArtifactInfo, InfoView, next_generation_in, next_generation_of,
    ARTIFACT_BLOCK_CAPACITY, COMMIT_COLUMN};
use crate::artifact::{AllocOp, AllocPhase, AllocView, StoreStep, StoreStepView, alloc_accepts, alloc_entry,
    alloc_next, lift_scan};

verus! {

/// What the writer is waiting for.
pub enum WriterPhase {
    Idle,
    /// A full page buffer is being programmed.
    Flushing,
    /// The full block's (non-final) commit record is being programmed.
    Committing,
    /// A block for the next segment is being allocated.
    Allocating(AllocView),
    /// `finish` is programming the last, partial page.
    FinishFlushing,
    /// `finish` is programming the final commit record.
    FinishCommitting,
}

pub struct WriterView {
    pub name: Seq<char>,
    pub generation: u32,
    pub logical_index: u16,
    pub block: u16,
    pub next_page: u16,
    /// Bytes buffered for page `next_page`.
    pub buffer: Seq<u8>,
    pub block_size: u32,
    /// CRC register over the block's data programmed so far.
    pub crc: u32,
    /// The bytes programmed into the current block's data pages so far.
    pub block_data: Seq<u8>,
    /// The bytes programmed into the data pages of the version's earlier
    /// blocks, block after block.
    pub earlier: Seq<u8>,
    /// Every byte the writer has taken in: the data of its writes, less
    /// what a failed write had not yet buffered.
    pub stream: Seq<u8>,
    /// The data pages of the current block programmed successfully.
    pub block_pages: Set<int>,
    /// The current block's commit record has been programmed successfully.
    pub committed: bool,
    /// No step of this writer has failed.
    pub clean: bool,
    pub total_size: u64,
    pub finished: bool,
    /// Data of the current `write` not yet taken into the buffer.
    pub pending: Seq<u8>,
    pub phase: WriterPhase,
}

/// Programming the buffered bytes at the start of page `next_page`.
pub open spec fn flush_request(s: WriterView) -> RequestView {
    RequestView::ProgramPageAt((s.block * PAGES_PER_BLOCK + s.next_page) as u16, 0, s.buffer)
}

/// Programming the block's commit record into page zero at column 512.
pub open spec fn commit_request(s: WriterView, is_final: bool) -> RequestView {
    RequestView::ProgramPageAt(
        (s.block * PAGES_PER_BLOCK) as u16,
        COMMIT_COLUMN,
        commit_image(s.block_size, s.crc ^ 0xffff_ffff, is_final, if is_final { s.total_size } else { 0 }),
    )
}

/// The writer after its buffer has been programmed.
pub open spec fn after_flush(s: WriterView) -> WriterView {
    WriterView {
        crc: crc_absorb(s.crc, s.buffer),
        block_data: s.block_data + s.buffer,
        block_pages: s.block_pages.insert(s.block * PAGES_PER_BLOCK + s.next_page),
        block_size: (s.block_size + s.buffer.len()) as u32,
        total_size: (s.total_size + s.buffer.len()) as u64,
        next_page: (s.next_page + 1) as u16,
        buffer: seq![],
        ..s
    }
}

/// Taking as much pending data as fits into the page buffer.
pub open spec fn take_pending(s: WriterView) -> WriterView {
    let take = if PAGE_SIZE - s.buffer.len() < s.pending.len() { PAGE_SIZE - s.buffer.len() } else { s.pending.len() as int };
    WriterView { buffer: s.buffer + s.pending.take(take), pending: s.pending.skip(take), ..s }
}

/// The write loop, from the top: done when no data is pending; commit a
/// full block before moving on; otherwise buffer data and program the
/// buffer once it holds a whole page.
pub open spec fn continue_write<E>(s: WriterView) -> (WriterView, StoreStepView<(), E>) {
    if s.pending.len() == 0 {
        (WriterView { phase: WriterPhase::Idle, ..s }, StoreStepView::Done(Ok(())))
    } else if s.next_page == PAGES_PER_BLOCK && s.buffer.len() == 0 {
        (WriterView { phase: WriterPhase::Committing, ..s }, StoreStepView::Flash(commit_request(s, false)))
    } else {
        let t = take_pending(s);
        if t.buffer.len() == PAGE_SIZE {
            (WriterView { phase: WriterPhase::Flushing, ..t }, StoreStepView::Flash(flush_request(t)))
        } else {
            (WriterView { phase: WriterPhase::Idle, ..t }, StoreStepView::Done(Ok(())))
        }
    }
}

/// Starting `write(data)`: a finished writer refuses; otherwise the data
/// enters the write loop.
pub open spec fn write_start<E>(s: WriterView, data: Seq<u8>) -> (WriterView, StoreStepView<(), E>) {
    if s.finished {
        (s, StoreStepView::Done(Err(ArtifactError::Incomplete)))
    } else {
        continue_write(WriterView { pending: data, stream: stream_kept(s) + data, ..s })
    }
}

/// The stream without the data that a failed step leaves unbuffered.
pub open spec fn stream_kept(s: WriterView) -> Seq<u8> {
    s.stream.take(s.stream.len() - s.pending.len())
}

/// A failed step ends the write; the writer keeps its state, and the
/// write's data not yet buffered is dropped.
pub open spec fn write_failed<V, E>(s: WriterView, err: ArtifactError<E>) -> (WriterView, StoreStepView<V, E>) {
    (WriterView { phase: WriterPhase::Idle, pending: seq![], stream: stream_kept(s), clean: false, ..s }, StoreStepView::Done(Err(err)))
}

/// An allocation step seen from the writer.
pub open spec fn lift_alloc<V, E>(step: StoreStepView<u16, E>) -> StoreStepView<V, E> {
    match step {
        StoreStepView::Flash(r) => StoreStepView::Flash(r),
        StoreStepView::Delay(ms) => StoreStepView::Delay(ms),
        StoreStepView::Deliver(b) => StoreStepView::Deliver(b),
        StoreStepView::Done(Err(e)) => StoreStepView::Done(Err(e)),
        StoreStepView::Done(Ok(_)) => StoreStepView::Done(Err(ArtifactError::Incomplete)),
    }
}

/// One transition of a `write` in progress.
pub open spec fn write_next<E>(s: WriterView, event: EventView<E>) -> (WriterView, StoreStepView<(), E>) {
    match s.phase {
        WriterPhase::Flushing => match event {
            EventView::Flash(Err(err)) => write_failed(s, ArtifactError::Flash(err)),
            _ => continue_write(after_flush(s)),
        },
        WriterPhase::Committing => match event {
            EventView::Flash(Err(err)) => write_failed(s, ArtifactError::Flash(err)),
            _ => if s.logical_index == u16::MAX {
                write_failed(WriterView { committed: true, ..s }, ArtifactError::NoSpace)
            } else {
                let index = (s.logical_index + 1) as u16;
                let (a, step) = alloc_entry::<E>(
                    AllocView { name: s.name, generation: s.generation, logical_index: index, block: 0, phase: AllocPhase::Delaying },
                    0,
                );
                (WriterView { logical_index: index, phase: WriterPhase::Allocating(a), committed: true, ..s }, lift_alloc(step))
            },
        },
        WriterPhase::Allocating(a) => {
            let (a2, step) = alloc_next::<E>(a, event);
            match step {
                StoreStepView::Done(Ok(block)) => continue_write(
                    WriterView {
                        block,
                        next_page: 1,
                        block_size: 0,
                        crc: crc_initial(),
                        block_data: seq![],
                        earlier: s.earlier + s.block_data,
                        block_pages: Set::empty(),
                        committed: false,
                        ..s
                    },
                ),
                StoreStepView::Done(Err(e)) => write_failed(s, e),
                _ => (WriterView { phase: WriterPhase::Allocating(a2), ..s }, lift_alloc(step)),
            }
        },
        _ => (s, StoreStepView::Done(Ok(()))),
    }
}

/// Starting `finish`: a writer that has already finished (or failed to)
/// refuses; otherwise program what is buffered, then the final commit.
pub open spec fn finish_start<E>(s: WriterView) -> (WriterView, StoreStepView<InfoView, E>) {
    if s.finished {
        (s, StoreStepView::Done(Err(ArtifactError::Incomplete)))
    } else if s.buffer.len() != 0 {
        (WriterView { phase: WriterPhase::FinishFlushing, ..s }, StoreStepView::Flash(flush_request(s)))
    } else {
        (WriterView { phase: WriterPhase::FinishCommitting, ..s }, StoreStepView::Flash(commit_request(s, true)))
    }
}

/// A failed `finish` ends the writer: it takes no more data.
pub open spec fn finish_failed<E>(s: WriterView, err: ArtifactError<E>) -> (WriterView, StoreStepView<InfoView, E>) {
    (WriterView { finished: true, phase: WriterPhase::Idle, pending: seq![], stream: stream_kept(s), clean: false, ..s }, StoreStepView::Done(Err(err)))
}

/// One transition of a `finish` in progress; once the final commit record
/// is programmed the version is published.
pub open spec fn finish_next<E>(s: WriterView, event: EventView<E>) -> (WriterView, StoreStepView<InfoView, E>) {
    match event {
        EventView::Flash(Err(err)) => finish_failed(s, ArtifactError::Flash(err)),
        _ => match s.phase {
            WriterPhase::FinishFlushing => {
                let s2 = after_flush(s);
                (WriterView { phase: WriterPhase::FinishCommitting, ..s2 }, StoreStepView::Flash(commit_request(s2, true)))
            },
            _ => (
                WriterView { finished: true, phase: WriterPhase::Idle, committed: true, ..s },
                StoreStepView::Done(Ok(InfoView {
                    name: s.name,
                    generation: s.generation,
                    size: s.total_size,
                    blocks: (s.logical_index + 1) as u16,
                })),
            ),
        },
    }
}

pub open spec fn writer_accepts<E>(s: WriterView, event: EventView<E>) -> bool {
    match s.phase {
        WriterPhase::Allocating(a) => alloc_accepts(a, event),
        _ => event is Flash,
    }
}


enum Phase {
    Idle,
    Flushing,
    Committing,
    Allocating(AllocOp),
    FinishFlushing,
    FinishCommitting,
}

/// An in-progress artifact writer. It buffers one 2 KiB page so callers may
/// stream arbitrarily sized writes while the NAND only receives whole-page
/// programs (and one shorter last page).
pub struct ArtifactWriter {
    name: String,
    generation: u32,
    logical_index: u16,
    block: u16,
    next_page: u16,
    buffer: Vec<u8>,
    block_size: u32,
    block_crc: Crc32,
    block_data: Ghost<Seq<u8>>,
    earlier: Ghost<Seq<u8>>,
    stream: Ghost<Seq<u8>>,
    block_pages: Ghost<Set<int>>,
    committed: Ghost<bool>,
    clean: Ghost<bool>,
    total_size: u64,
    finished: bool,
    pending: Vec<u8>,
    pending_at: usize,
    phase: Phase,
}

impl View for ArtifactWriter {
    type V = WriterView;

    closed spec fn view(&self) -> WriterView {
        WriterView {
            name: self.name@,
            generation: self.generation,
            logical_index: self.logical_index,
            block: self.block,
            next_page: self.next_page,
            buffer: self.buffer@,
            block_size: self.block_size,
            crc: self.block_crc.state(),
            block_data: self.block_data@,
            earlier: self.earlier@,
            stream: self.stream@,
            block_pages: self.block_pages@,
            committed: self.committed@,
            clean: self.clean@,
            total_size: self.total_size,
            finished: self.finished,
            pending: self.pending@.skip(self.pending_at as int),
            phase: match self.phase {
                Phase::Idle => WriterPhase::Idle,
                Phase::Flushing => WriterPhase::Flushing,
                Phase::Committing => WriterPhase::Committing,
                Phase::Allocating(a) => WriterPhase::Allocating(a@),
                Phase::FinishFlushing => WriterPhase::FinishFlushing,
                Phase::FinishCommitting => WriterPhase::FinishCommitting,
            },
        }
    }
}

/// The invariant of a writer's mathematical state.
pub open spec fn writer_inv(s: WriterView) -> bool {
    &&& valid_name_bytes(encode_utf8(s.name))
    &&& s.block < BLOCK_COUNT
    &&& 1 <= s.next_page <= PAGES_PER_BLOCK
    &&& s.buffer.len() <= PAGE_SIZE
    &&& (s.next_page == PAGES_PER_BLOCK ==> s.buffer.len() == 0)
    &&& s.block_size <= (s.next_page - 1) * PAGE_SIZE
    &&& s.block_size == s.block_data.len()
    &&& s.earlier + s.block_data + s.buffer + s.pending == s.stream
    &&& s.total_size == s.earlier.len() + s.block_data.len()
    &&& s.block_pages == Set::new(|p: int| s.block * PAGES_PER_BLOCK + 1 <= p < s.block * PAGES_PER_BLOCK + s.next_page)
    &&& (s.clean && !s.finished && !(s.phase is Allocating) ==> !s.committed)
    &&& (s.earlier.len() as int) % (ARTIFACT_BLOCK_CAPACITY as int) == 0
    &&& ((s.phase is Committing || s.phase is Allocating) ==> s.next_page == PAGES_PER_BLOCK && s.buffer.len() == 0)
    &&& ((s.phase is Flushing || s.phase is Committing || s.phase is Allocating) ==> !s.finished)
    &&& s.crc == crc_absorb(crc_initial(), s.block_data)
    &&& (!s.finished && !(s.phase is FinishCommitting) ==> s.block_size == (s.next_page - 1) * PAGE_SIZE)
    &&& s.total_size <= s.logical_index * ARTIFACT_BLOCK_CAPACITY + s.block_size
    &&& (s.phase is Allocating ==> s.total_size <= s.logical_index * ARTIFACT_BLOCK_CAPACITY)
    &&& (s.phase is Flushing ==> s.buffer.len() == PAGE_SIZE)
    &&& (s.phase is FinishFlushing ==> s.buffer.len() > 0)
    &&& ((s.phase is FinishFlushing || s.phase is FinishCommitting) ==> s.logical_index < u16::MAX)
}

impl ArtifactWriter {
    pub closed spec fn wf(&self) -> bool {
        &&& writer_inv(self@)
        &&& self.pending_at <= self.pending@.len()
        &&& (self.phase matches Phase::Allocating(a) ==> {
            &&& a.wf()
            &&& a@.name == self.name@
            &&& a@.generation == self.generation
            &&& a@.logical_index == self.logical_index
        })
    }

    /// A fresh writer for segment 0 of version `generation`, in `block`.
    fn new(name: String, generation: u32, block: u16) -> (writer: ArtifactWriter)
        requires
            valid_name_bytes(encode_utf8(name@)),
            block < BLOCK_COUNT,
        ensures
            writer.wf(),
            writer@ == initial_writer(name@, generation, block),
    {
        let writer = ArtifactWriter {
            name,
            generation,
            logical_index: 0,
            block,
            next_page: 1,
            buffer: Vec::new(),
            block_size: 0,
            block_crc: Crc32::new(),
            block_data: Ghost(Seq::empty()),
            earlier: Ghost(Seq::empty()),
            stream: Ghost(Seq::empty()),
            block_pages: Ghost(Set::empty()),
            committed: Ghost(false),
            clean: Ghost(true),
            total_size: 0,
            finished: false,
            pending: Vec::new(),
            pending_at: 0,
            phase: Phase::Idle,
        };
        assert(writer@.pending =~= Seq::<u8>::empty());
        assert(writer.block_pages@ =~= Set::new(|p: int| writer.block * PAGES_PER_BLOCK + 1 <= p
            < writer.block * PAGES_PER_BLOCK + writer.next_page));
        writer
    }

    fn flush_request(&self) -> (request: FlashRequest)
        requires
            self.wf(),
            self.next_page < PAGES_PER_BLOCK,
        ensures
            request@ == flush_request(self@),
    {
        let data = self.buffer.clone();
        assert(data@ =~= self.buffer@);
        FlashRequest::ProgramPageAt(self.block * PAGES_PER_BLOCK + self.next_page, 0, data)
    }

    fn commit_request(&self, is_final: bool) -> (request: FlashRequest)
        requires
            self.wf(),
        ensures
            request@ == commit_request(self@, is_final),
    {
        let total = if is_final { self.total_size } else { 0 };
        let commit = encode_commit(self.block_size, self.block_crc.finish(), is_final, total);
        FlashRequest::ProgramPageAt(self.block * PAGES_PER_BLOCK, COMMIT_COLUMN, commit)
    }

    /// Records that the buffer has been programmed.
    fn apply_flush(&mut self)
        requires
            old(self).wf(),
            old(self).next_page < PAGES_PER_BLOCK,
        ensures
            final(self)@ == after_flush(old(self)@),
            final(self)@.crc == crc_absorb(crc_initial(), final(self)@.block_data),
            final(self)@.block_size == final(self)@.block_data.len(),
            final(self)@.block_pages == Set::new(|p: int| final(self)@.block * PAGES_PER_BLOCK + 1 <= p
                < final(self)@.block * PAGES_PER_BLOCK + final(self)@.next_page),
            final(self)@.earlier + final(self)@.block_data + final(self)@.buffer + final(self)@.pending
                == old(self)@.earlier + old(self)@.block_data + old(self)@.buffer + old(self)@.pending,
            final(self).pending == old(self).pending,
            final(self).pending_at == old(self).pending_at,
            final(self).phase == old(self).phase,
    {
        proof {
            assert(self.block_size + self.buffer@.len() <= (self.next_page as int) * PAGE_SIZE) by (nonlinear_arith)
                requires
                    self.block_size <= (self.next_page - 1) * PAGE_SIZE,
                    self.buffer@.len() <= PAGE_SIZE,
            ;
            assert((self.next_page as int) * PAGE_SIZE <= 64 * 2048) by (nonlinear_arith)
                requires
                    self.next_page < 64,
            ;
            assert(self.logical_index * ARTIFACT_BLOCK_CAPACITY <= 65535 * 129024) by (nonlinear_arith)
                requires
                    self.logical_index <= 65535,
            ;
        }
        proof {
            lemma_crc_absorb_concat(crc_initial(), self.block_data@, self.buffer@);
        }
        self.block_crc.update(self.buffer.as_slice());
        self.block_data = Ghost(self.block_data@ + self.buffer@);
        self.block_size = self.block_size + self.buffer.len() as u32;
        self.total_size = self.total_size + self.buffer.len() as u64;
        self.block_pages = Ghost(self.block_pages@.insert(self.block * PAGES_PER_BLOCK + self.next_page));
        self.next_page = self.next_page + 1;
        assert(self.block_pages@ =~= Set::new(|p: int| self.block * PAGES_PER_BLOCK + 1 <= p
            < self.block * PAGES_PER_BLOCK + self.next_page));
        let ghost before = old(self)@.earlier + old(self)@.block_data + old(self)@.buffer + old(self)@.pending;
        self.buffer = Vec::new();
        assert(self@.buffer =~= Seq::<u8>::empty());
        assert(self@.earlier + self@.block_data + self@.buffer + self@.pending =~= before);
    }
}

fn lift_alloc_step<T: View, E>(step: StoreStep<u16, E>) -> (lifted: StoreStep<T, E>)
    requires
        !(step matches StoreStep::Done(Ok(_))),
    ensures
        lifted.view() == lift_alloc::<T::V, E>(step.view()),
{
    match step {
        StoreStep::Flash(r) => StoreStep::Flash(r),
        StoreStep::Delay(ms) => StoreStep::Delay(ms),
        StoreStep::Deliver(b) => StoreStep::Deliver(b),
        StoreStep::Done(Err(e)) => StoreStep::Done(Err(e)),
        StoreStep::Done(Ok(_)) => StoreStep::Done(Err(ArtifactError::Incomplete)),
    }
}

impl ArtifactWriter {
    /// Ends the current operation after a failure.
    fn fail<T: View, E>(&mut self, err: ArtifactError<E>) -> (step: StoreStep<T, E>)
        requires
            writer_inv(old(self)@),
            old(self)@.finished || !(old(self)@.phase is FinishCommitting),
        ensures
            final(self).wf(),
            (final(self)@, step.view()) == write_failed::<T::V, E>(old(self)@, err),
    {
        let ghost kept = stream_kept(self@);
        assert(kept =~= self@.earlier + self@.block_data + self@.buffer);
        self.phase = Phase::Idle;
        self.pending = Vec::new();
        self.pending_at = 0;
        self.stream = Ghost(kept);
        self.clean = Ghost(false);
        assert(self@.pending =~= Seq::<u8>::empty());
        assert(self@.earlier + self@.block_data + self@.buffer + self@.pending =~= self@.stream);
        StoreStep::Done(Err(err))
    }

    /// The write loop from the top.
    fn continue_write<E>(&mut self) -> (step: StoreStep<(), E>)
        requires
            old(self).wf(),
            !(old(self).phase is Allocating),
            !(old(self)@.phase is FinishCommitting),
            !old(self)@.finished,
        ensures
            final(self).wf(),
            (final(self)@, step.view()) == continue_write::<E>(old(self)@),
    {
        let ghost s = self@;
        if self.pending_at >= self.pending.len() {
            self.phase = Phase::Idle;
            return StoreStep::Done(Ok(()));
        }
        if self.next_page == PAGES_PER_BLOCK && self.buffer.len() == 0 {
            self.phase = Phase::Committing;
            return StoreStep::Flash(self.commit_request(false));
        }
        let room = PAGE_SIZE - self.buffer.len();
        let avail = self.pending.len() - self.pending_at;
        let take = if room < avail { room } else { avail };
        let ghost start_at = self.pending_at;
        let mut buffer = Vec::new();
        std::mem::swap(&mut buffer, &mut self.buffer);
        let ghost start_buffer = buffer@;
        let mut i: usize = 0;
        while i < take
            invariant
                i <= take,
                take <= avail,
                avail == self.pending@.len() - self.pending_at,
                self.pending_at <= self.pending@.len(),
                self.pending_at == start_at,
                self.pending_at + take <= self.pending.len(),
                buffer@ == start_buffer + self.pending@.subrange(start_at as int, start_at + i),
            decreases take - i,
        {
            buffer.push(self.pending[self.pending_at + i]);
            i = i + 1;
            assert(buffer@ =~= start_buffer + self.pending@.subrange(start_at as int, start_at + i));
        }
        self.buffer = buffer;
        self.pending_at = self.pending_at + take;
        let ghost t = take_pending(s);
        assert(s.pending.take(take as int) =~= self.pending@.subrange(start_at as int, start_at + take));
        assert(s.pending.skip(take as int) =~= self.pending@.skip(start_at + take));
        assert(self@.buffer =~= t.buffer);
        assert(self@.pending =~= t.pending);
        assert(t.buffer + t.pending =~= s.buffer + s.pending) by {
            assert(s.pending =~= s.pending.take(take as int) + s.pending.skip(take as int));
        }
        assert(self@.earlier + self@.block_data + self@.buffer + self@.pending =~= s.earlier + s.block_data + s.buffer + s.pending);
        if self.buffer.len() == PAGE_SIZE {
            self.phase = Phase::Flushing;
            self.flush_request().into_step()
        } else {
            self.phase = Phase::Idle;
            StoreStep::Done(Ok(()))
        }
    }

    /// The logical index of the segment being written.
    pub fn logical_index(&self) -> (index: u16)
        ensures
            index == self@.logical_index,
    {
        self.logical_index
    }

    /// Starts writing `data`. Data is buffered; each full page is
    /// programmed as it completes, and a full block is committed before
    /// the next block is allocated.
    pub fn write<E>(&mut self, data: &[u8]) -> (step: StoreStep<(), E>)
        requires
            old(self).wf(),
            old(self)@.phase is Idle,
        ensures
            final(self).wf(),
            (final(self)@, step.view()) == write_start::<E>(old(self)@, data@),
    {
        if self.finished {
            return StoreStep::Done(Err(ArtifactError::Incomplete));
        }
        let ghost kept = stream_kept(self@);
        assert(kept =~= self@.earlier + self@.block_data + self@.buffer);
        self.pending = vstd::slice::slice_to_vec(data);
        self.pending_at = 0;
        self.stream = Ghost(kept + data@);
        assert(self.pending@.skip(0) =~= data@);
        assert(self@.earlier + self@.block_data + self@.buffer + self@.pending =~= self@.stream);
        self.continue_write()
    }

    /// Takes the answer to the last request of a `write`.
    pub fn resume_write<E>(&mut self, event: StoreEvent<E>) -> (step: StoreStep<(), E>)
        requires
            old(self).wf(),
            old(self)@.phase is Flushing || old(self)@.phase is Committing || old(self)@.phase is Allocating,
            writer_accepts(old(self)@, event.view()),
        ensures
            final(self).wf(),
            (final(self)@, step.view()) == write_next::<E>(old(self)@, event.view()),
    {
        let mut phase = Phase::Idle;
        std::mem::swap(&mut phase, &mut self.phase);
        assert(phase == old(self).phase);
        match phase {
            Phase::Flushing => match event {
                StoreEvent::Flash(Err(err)) => {
                    self.phase = Phase::Flushing;
                    self.fail(ArtifactError::Flash(err))
                },
                _ => {
                    self.apply_flush();
                    self.continue_write()
                },
            },
            Phase::Committing => match event {
                StoreEvent::Flash(Err(err)) => {
                    self.phase = Phase::Committing;
                    self.fail(ArtifactError::Flash(err))
                },
                _ => {
                    if self.logical_index == u16::MAX {
                        self.phase = Phase::Committing;
                        let step = self.fail(ArtifactError::NoSpace);
                        self.committed = Ghost(true);
                        return step;
                    }
                    self.logical_index = self.logical_index + 1;
                    let (alloc, step) = AllocOp::start::<E>(self.name.clone(), self.generation, self.logical_index);
                    self.phase = Phase::Allocating(alloc);
                    self.committed = Ghost(true);
                    proof {
                        let l = self.logical_index as int;
                        assert(l * ARTIFACT_BLOCK_CAPACITY == (l - 1) * ARTIFACT_BLOCK_CAPACITY + ARTIFACT_BLOCK_CAPACITY)
                            by (nonlinear_arith);
                    }
                    lift_alloc_step(step)
                },
            },
            Phase::Allocating(mut alloc) => {
                let step = alloc.resume(event);
                match step {
                    StoreStep::Done(Ok(block)) => {
                        self.block = block;
                        self.next_page = 1;
                        self.block_size = 0;
                        self.block_crc = Crc32::new();
                        proof {
                            let x = self.earlier@.len() as int;
                            assert((x + ARTIFACT_BLOCK_CAPACITY) % (ARTIFACT_BLOCK_CAPACITY as int) == 0) by (nonlinear_arith)
                                requires
                                    x % (ARTIFACT_BLOCK_CAPACITY as int) == 0,
                                    x >= 0,
                            ;
                        }
                        let ghost before = self@.earlier + self@.block_data + self@.buffer + self@.pending;
                        self.earlier = Ghost(self.earlier@ + self.block_data@);
                        self.block_data = Ghost(Seq::empty());
                        self.block_pages = Ghost(Set::empty());
                        self.committed = Ghost(false);
                        assert(self.block_pages@ =~= Set::new(|p: int| self.block * PAGES_PER_BLOCK + 1 <= p
                            < self.block * PAGES_PER_BLOCK + self.next_page));
                        assert(self@.earlier + self@.block_data + self@.buffer + self@.pending =~= before);
                        assert(crc_absorb(crc_initial(), self.block_data@) == crc_initial());
                        self.continue_write()
                    },
                    StoreStep::Done(Err(e)) => {
                        self.phase = Phase::Allocating(alloc);
                        self.fail(e)
                    },
                    _ => {
                        self.phase = Phase::Allocating(alloc);
                        lift_alloc_step(step)
                    },
                }
            },
            _ => StoreStep::Done(Ok(())),
        }
    }

    /// Starts publishing the version: programs the buffered bytes, then
    /// the final commit record.
    pub fn finish<E>(&mut self) -> (step: StoreStep<ArtifactInfo, E>)
        requires
            old(self).wf(),
            old(self)@.phase is Idle,
            old(self)@.logical_index < u16::MAX,
        ensures
            final(self).wf(),
            (final(self)@, step.view()) == finish_start::<E>(old(self)@),
    {
        if self.finished {
            return StoreStep::Done(Err(ArtifactError::Incomplete));
        }
        if self.buffer.len() != 0 {
            self.phase = Phase::FinishFlushing;
            self.flush_request().into_step()
        } else {
            self.phase = Phase::FinishCommitting;
            self.commit_request(true).into_step()
        }
    }

    /// Takes the answer to the last request of a `finish`.
    pub fn resume_finish<E>(&mut self, event: StoreEvent<E>) -> (step: StoreStep<ArtifactInfo, E>)
        requires
            old(self).wf(),
            old(self)@.phase is FinishFlushing || old(self)@.phase is FinishCommitting,
            event is Flash,
        ensures
            final(self).wf(),
            (final(self)@, step.view()) == finish_next::<E>(old(self)@, event.view()),
    {
        if let StoreEvent::Flash(Err(err)) = event {
            self.finished = true;
            return self.fail(ArtifactError::Flash(err));
        }
        match self.phase {
            Phase::FinishFlushing => {
                self.apply_flush();
                self.phase = Phase::FinishCommitting;
                self.commit_request(true).into_step()
            },
            _ => {
                self.finished = true;
                self.phase = Phase::Idle;
                self.committed = Ghost(true);
                StoreStep::Done(Ok(ArtifactInfo {
                    name: self.name.clone(),
                    generation: self.generation,
                    size: self.total_size,
                    blocks: self.logical_index + 1,
                }))
            },
        }
    }
}

impl FlashRequest {
    /// The step that asks for this request.
    pub fn into_step<T: View, E>(self) -> (step: StoreStep<T, E>)
        ensures
            step.view() == StoreStepView::<T::V, E>::Flash(self@),
    {
        StoreStep::Flash(self)
    }
}

/// Where the writer programs: data pages (1 to 63) of its block from
/// column 0, and the commit record into page zero at column 512, behind
/// the header sector, which is never written again.
pub proof fn lemma_writer_program_layout(s: WriterView, is_final: bool)
    requires
        writer_inv(s),
    ensures
        s.next_page < PAGES_PER_BLOCK ==> (flush_request(s) matches RequestView::ProgramPageAt(page, column, data)
            && page / PAGES_PER_BLOCK == s.block && 1 <= page % PAGES_PER_BLOCK && column == 0
            && data.len() <= PAGE_SIZE),
        commit_request(s, is_final) matches RequestView::ProgramPageAt(page, column, data)
            && page == s.block * PAGES_PER_BLOCK && column == 512 && data.len() == 512,
{
}

/// What a writer puts into its block: the data pages hold the block's
/// data in order, every page before the next one to program being full
/// (until `finish` programs a shorter last page), each flush appending the
/// buffered bytes; and the block's commit record states the size and the
/// CRC-32 of exactly that data.
pub proof fn lemma_writer_block_contents(s: WriterView, is_final: bool)
    requires
        writer_inv(s),
    ensures
        commit_request(s, is_final) == RequestView::ProgramPageAt(
            (s.block * PAGES_PER_BLOCK) as u16,
            COMMIT_COLUMN,
            commit_image(s.block_data.len() as u32, crc32(s.block_data), is_final, if is_final { s.total_size } else { 0 }),
        ),
        !s.finished && !(s.phase is FinishCommitting) ==> s.block_data.len() == (s.next_page - 1) * PAGE_SIZE,
        after_flush(s).block_data == s.block_data + s.buffer,
{
}

/// What a writer has programmed is the beginning of what it was given:
/// the data pages of its blocks, block after block, hold exactly the first
/// `total_size` bytes of its stream (the data of all its writes, less what
/// a failed write had not yet buffered); every earlier block is full; in
/// the current block every page before the next one to program is full
/// (until `finish` programs a shorter last page); and the rest of the
/// stream is still buffered or pending. A `write` puts its data at the end
/// of the stream. Every writer that `begin` returns and its operations
/// leave satisfies `writer_inv`.
pub proof fn lemma_writer_programs_stream_prefix<E>(s: WriterView, data: Seq<u8>)
    requires
        writer_inv(s),
    ensures
        s.earlier + s.block_data == s.stream.take(s.total_size as int),
        s.stream == s.earlier + s.block_data + s.buffer + s.pending,
        (s.earlier.len() as int) % (ARTIFACT_BLOCK_CAPACITY as int) == 0,
        !s.finished && !(s.phase is FinishCommitting) ==> s.block_data.len() == (s.next_page - 1) * PAGE_SIZE,
        !s.finished ==> write_start::<E>(s, data).0.stream == s.earlier + s.block_data + s.buffer + data,
{
    assert((s.earlier + s.block_data + s.buffer + s.pending).take(s.total_size as int) =~= s.earlier + s.block_data);
    if !s.finished {
        assert(stream_kept(s) =~= s.earlier + s.block_data + s.buffer);
    }
}

/// How often a writer programs each page of a block. The data pages it
/// has programmed successfully in its current block are exactly pages 1
/// up to (not including) the next one, and a flush programs that next page,
/// which it has not programmed yet; so each data page receives one
/// successful program. While no step of the writer has failed, the
/// current block's commit record has not been programmed yet whenever the
/// writer may still ask for it, so it is programmed once per block.
/// Together with `lemma_alloc_erases_only_unused_blocks` (the header is
/// programmed once, into the block just erased), page zero of each block
/// receives two programs and each data page at most one.
pub proof fn lemma_writer_programs_each_page_once(s: WriterView)
    requires
        writer_inv(s),
    ensures
        forall|p: int| #[trigger] s.block_pages.contains(p) <==> s.block * PAGES_PER_BLOCK + 1 <= p
            < s.block * PAGES_PER_BLOCK + s.next_page,
        s.next_page < PAGES_PER_BLOCK ==> (flush_request(s) matches RequestView::ProgramPageAt(page, _, _)
            && page == s.block * PAGES_PER_BLOCK + s.next_page && !s.block_pages.contains(page as int)),
        after_flush(s).block_pages == s.block_pages.insert(s.block * PAGES_PER_BLOCK + s.next_page),
        s.clean && !s.finished && !(s.phase is Allocating) ==> !s.committed,
{
}

/// Only `finish` publishes. Each request of the write loop is either a
/// data page of the writer's current block (pages 1 to 63 of the block,
/// from column 0) or, once that block is full, the block's commit record
/// at column 512 of its page zero, which decodes as a commit that is not
/// final and carries no total size: a version a writer abandons while
/// moving from block to block stays invisible. The commit record `finish`
/// programs decodes as final, with the block's size and CRC-32 and the
/// artifact's total size.
pub proof fn lemma_only_finish_publishes<E>(s: WriterView)
    requires
        writer_inv(s),
    ensures
        continue_write::<E>(s).1 matches StoreStepView::Flash(request) ==> (request matches RequestView::ProgramPageAt(
            page,
            column,
            data,
        ) && ((page / 64 == s.block && 1 <= page % 64 && column == 0) || (page == s.block * 64 && column == 512
            && commit_fields(data) == Some((s.block_data.len() as u32, crc32(s.block_data), false, 0u64))))),
        !s.finished && s.buffer.len() == 0 ==> (finish_start::<E>(s).1 matches StoreStepView::Flash(
            RequestView::ProgramPageAt(page, column, data),
        ) && page == s.block * 64 && column == 512 && commit_fields(data) == Some(
            (s.block_data.len() as u32, crc32(s.block_data), true, s.total_size),
        )),
        s.phase is FinishFlushing && s.next_page < 64 ==> ({
            let t = after_flush(s);
            finish_next::<E>(s, EventView::Flash(Ok(OutputView::Completed))).1 matches StoreStepView::Flash(
                RequestView::ProgramPageAt(page, column, data),
            ) && page == t.block * 64 && column == 512 && commit_fields(data) == Some(
                (t.block_data.len() as u32, crc32(t.block_data), true, t.total_size),
            )
        }),
{
    lemma_commit_round_trip(s.block_size, s.crc ^ 0xffff_ffff, false, 0);
    lemma_commit_round_trip(s.block_size, s.crc ^ 0xffff_ffff, true, s.total_size);
    let t = after_flush(s);
    lemma_commit_round_trip(t.block_size, t.crc ^ 0xffff_ffff, true, t.total_size);
    assert(s.block * 64 <= 65472) by (nonlinear_arith)
        requires
            s.block < 1024,
    ;
    let u = take_pending(s);
    assert(u.block == s.block && u.next_page == s.next_page);
    if s.phase is FinishFlushing && s.next_page < 64 {
        lemma_crc_absorb_concat(crc_initial(), s.block_data, s.buffer);
    }
}

/// The bytes a writer has taken in and not yet programmed, in order: its
/// page buffer, then the rest of the current `write`'s data.
pub open spec fn unprogrammed(s: WriterView) -> Seq<u8> {
    s.buffer + s.pending
}

/// Every byte handed to `write` is programmed once and in order: starting
/// a write puts its data behind the buffered bytes; a step of the write
/// loop moves bytes from the data into the page buffer without losing or
/// reordering any; and programming the buffer writes exactly the bytes at
/// the front, which then count towards the block's size, the artifact's
/// size and the block's checksum.
pub proof fn lemma_writer_keeps_byte_order<E>(s: WriterView, data: Seq<u8>)
    requires
        writer_inv(s),
    ensures
        !s.finished ==> unprogrammed(write_start::<E>(s, data).0) == s.buffer + data,
        unprogrammed(continue_write::<E>(s).0) == unprogrammed(s),
        flush_request(s) matches RequestView::ProgramPageAt(_, _, bytes) && bytes == s.buffer,
        unprogrammed(s) == s.buffer + unprogrammed(after_flush(s)),
        after_flush(s).crc == crc_absorb(s.crc, s.buffer),
        after_flush(s).block_size == s.block_size + s.buffer.len(),
        after_flush(s).total_size == s.total_size + s.buffer.len(),
{
    let t = take_pending(s);
    let take = if PAGE_SIZE - s.buffer.len() < s.pending.len() { PAGE_SIZE - s.buffer.len() } else { s.pending.len() as int };
    assert(t.buffer + t.pending =~= s.buffer + s.pending) by {
        assert(s.pending =~= s.pending.take(take) + s.pending.skip(take));
    }
    assert(unprogrammed(after_flush(s)) =~= s.pending);
    if !s.finished {
        let u = WriterView { pending: data, ..s };
        let ut = take_pending(u);
        let take_u = if PAGE_SIZE - u.buffer.len() < u.pending.len() { PAGE_SIZE - u.buffer.len() } else { u.pending.len() as int };
        assert(ut.buffer + ut.pending =~= u.buffer + u.pending) by {
            assert(u.pending =~= u.pending.take(take_u) + u.pending.skip(take_u));
        }
    }
}

/// The writer `begin` returns: segment 0 of the new version in `block`,
/// nothing buffered.
pub open spec fn initial_writer(name: Seq<char>, generation: u32, block: u16) -> WriterView {
    WriterView {
        name,
        generation,
        logical_index: 0,
        block,
        next_page: 1,
        buffer: seq![],
        block_size: 0,
        crc: crc_initial(),
        block_data: seq![],
        earlier: seq![],
        stream: seq![],
        block_pages: Set::empty(),
        committed: false,
        clean: true,
        total_size: 0,
        finished: false,
        pending: seq![],
        phase: WriterPhase::Idle,
    }
}


// ---------------------------------------------------------------------
// begin

pub enum BeginStage {
    Scanning(ScanView),
    Allocating(AllocView),
}

pub struct BeginView {
    pub name: Seq<char>,
    pub name_bytes: Seq<u8>,
    pub stage: BeginStage,
}

/// One transition of `begin`: scan for the next generation of the name,
/// then allocate a block for its segment 0.
pub open spec fn begin_next<E>(s: BeginView, event: EventView<E>) -> (BeginView, StoreStepView<WriterView, E>) {
    match s.stage {
        BeginStage::Scanning(scan) => {
            let (scan2, step) = scan_next::<E>(scan, event);
            match step {
                ScanStepView::Finished(Ok(records)) => {
                    let generation = next_generation_of(records, s.name_bytes);
                    let (a, astep) = alloc_entry::<E>(
                        AllocView { name: s.name, generation, logical_index: 0, block: 0, phase: AllocPhase::Delaying },
                        0,
                    );
                    (BeginView { stage: BeginStage::Allocating(a), ..s }, lift_alloc(astep))
                },
                _ => (BeginView { stage: BeginStage::Scanning(scan2), ..s }, lift_scan(step)),
            }
        },
        BeginStage::Allocating(a) => {
            let (a2, step) = alloc_next::<E>(a, event);
            match step {
                StoreStepView::Done(Ok(block)) => (
                    BeginView { stage: BeginStage::Allocating(a2), ..s },
                    StoreStepView::Done(Ok(initial_writer(s.name, a.generation, block))),
                ),
                _ => (BeginView { stage: BeginStage::Allocating(a2), ..s }, lift_alloc(step)),
            }
        },
    }
}

pub open spec fn begin_accepts<E>(s: BeginView, event: EventView<E>) -> bool {
    match s.stage {
        BeginStage::Scanning(scan) => scan_accepts(scan, event),
        BeginStage::Allocating(a) => alloc_accepts(a, event),
    }
}

enum BeginPhase {
    Scanning(Scanner),
    Allocating(AllocOp),
}

/// A `begin` in progress.
pub struct BeginOp {
    name: String,
    name_bytes: Vec<u8>,
    phase: BeginPhase,
}

impl View for BeginOp {
    type V = BeginView;

    closed spec fn view(&self) -> BeginView {
        BeginView {
            name: self.name@,
            name_bytes: self.name_bytes@,
            stage: match self.phase {
                BeginPhase::Scanning(scan) => BeginStage::Scanning(scan@),
                BeginPhase::Allocating(a) => BeginStage::Allocating(a@),
            },
        }
    }
}

impl BeginOp {
    pub closed spec fn wf(&self) -> bool {
        &&& valid_name_bytes(encode_utf8(self.name@))
        &&& match self.phase {
            BeginPhase::Scanning(scan) => scan.wf(),
            BeginPhase::Allocating(a) => a.wf() && a@.name == self.name@,
        }
    }

    /// Starts a `begin` for `name`; the operation can run when the name is
    /// valid.
    pub fn start<E>(name: &str) -> (result: (BeginOp, StoreStep<ArtifactWriter, E>))
        ensures
            valid_name_bytes(name.spec_bytes()) ==> result.0.wf(),
            ({
                let (scan, step) = scan_entry::<E>(0, seq![]);
                &&& result.0@ == BeginView { name: name@, name_bytes: name.spec_bytes(), stage: BeginStage::Scanning(scan) }
                &&& result.1.view() == lift_scan::<WriterView, E>(step)
            }),
    {
        let (scan, step) = Scanner::start::<E>();
        let op = BeginOp {
            name: name.to_owned(),
            name_bytes: vstd::slice::slice_to_vec(name.as_bytes()),
            phase: BeginPhase::Scanning(scan),
        };
        (op, scan_step_to_store(step))
    }

    pub fn resume<E>(&mut self, event: StoreEvent<E>) -> (step: StoreStep<ArtifactWriter, E>)
        requires
            old(self).wf(),
            begin_accepts(old(self)@, event.view()),
        ensures
            !(step is Done) ==> final(self).wf(),
            step matches StoreStep::Done(Ok(w)) ==> w.wf(),
            (final(self)@, step.view()) == begin_next::<E>(old(self)@, event.view()),
    {
        match &mut self.phase {
            BeginPhase::Scanning(scan) => {
                match scan.resume(event) {
                    ScanStep::Finished(Ok(records)) => {
                        let generation = next_generation_in(&records, self.name_bytes.as_slice());
                        let (alloc, step) = AllocOp::start::<E>(self.name.clone(), generation, 0);
                        self.phase = BeginPhase::Allocating(alloc);
                        lift_alloc_step(step)
                    },
                    step => scan_step_to_store(step),
                }
            },
            BeginPhase::Allocating(alloc) => {
                let generation = alloc.generation();
                match alloc.resume(event) {
                    StoreStep::Done(Ok(block)) => StoreStep::Done(Ok(ArtifactWriter::new(self.name.clone(), generation, block))),
                    step => lift_alloc_step(step),
                }
            },
        }
    }
}

fn scan_step_to_store<T: View, E>(step: ScanStep<E>) -> (lifted: StoreStep<T, E>)
    requires
        !(step matches ScanStep::Finished(Ok(_))),
    ensures
        lifted.view() == lift_scan::<T::V, E>(step.view()),
{
    match step {
        ScanStep::Flash(r) => StoreStep::Flash(r),
        ScanStep::Delay(ms) => StoreStep::Delay(ms),
        ScanStep::Finished(Err(e)) => StoreStep::Done(Err(e)),
        ScanStep::Finished(Ok(_)) => StoreStep::Done(Err(ArtifactError::Incomplete)),
    }
}

} // verus!
