//! The artifact store's operations, each a state machine driven by its
//! caller: it asks for flash operations, delays and deliveries, and is told
//! how each of them went.

use vstd::prelude::*;
use vstd::string::StringSliceAdditionalSpecFns;
use vstd::utf8::encode_utf8;
use crate::nand::{W25N01GV, DriverView, FlashRequest, FlashStep, FlashStepView, RequestView, Error,
    FlashOutput, OutputView, next, reply_view, start_outcome, expected_read_len, entered, entry_step, FlashOpView,
    BLOCK_COUNT, PAGES_PER_BLOCK, PAGE_SIZE};
use crate::scan::{Scanner, ScanStep, ScanStepView, ScanView, StoreEvent, EventView, scan_next, scan_entry,
    scan_accepts, named_blocks, SCAN_YIELD_MS};
use crate::store::{ArtifactError, ArtifactInfo, InfoView, RecordView, info_outcome, find_in_records, record_from_page};
use crate::read::{ReadOp, ReadView, ReadStage};
use crate::writer::{ArtifactWriter, BeginOp, BeginView, BeginStage, WriterView};
use crate::layout::{validate_name, valid_name_bytes, encode_header, header_image, header_fields,
    lemma_erased_sector_is_empty, METADATA_SECTOR_SIZE};

verus! {

/// What an artifact operation asks for next.
#[derive(Debug)]
pub enum StoreStep<T, E> {
    /// Run this flash operation and report its result.
    Flash(FlashRequest),
    /// Wait this many milliseconds.
    Delay(u32),
    /// Hand these bytes of artifact data to the consumer.
    Deliver(Vec<u8>),
    /// The operation has finished.
    Done(Result<T, ArtifactError<E>>),
}

pub enum StoreStepView<V, E> {
    Flash(RequestView),
    Delay(nat),
    Deliver(Seq<u8>),
    Done(Result<V, ArtifactError<E>>),
}

impl<T: View, E> StoreStep<T, E> {
    pub open spec fn view(&self) -> StoreStepView<T::V, E> {
        match self {
            StoreStep::Flash(r) => StoreStepView::Flash(r@),
            StoreStep::Delay(ms) => StoreStepView::Delay(*ms as nat),
            StoreStep::Deliver(b) => StoreStepView::Deliver(b@),
            StoreStep::Done(Ok(v)) => StoreStepView::Done(Ok(v@)),
            StoreStep::Done(Err(e)) => StoreStepView::Done(Err(*e)),
        }
    }
}

/// A scan step seen from an operation that is still scanning.
pub open spec fn lift_scan<V, E>(step: ScanStepView<E>) -> StoreStepView<V, E> {
    match step {
        ScanStepView::Flash(r) => StoreStepView::Flash(r),
        ScanStepView::Delay(ms) => StoreStepView::Delay(ms),
        ScanStepView::Finished(Err(e)) => StoreStepView::Done(Err(e)),
        ScanStepView::Finished(Ok(_)) => StoreStepView::Done(Err(ArtifactError::Incomplete)),
    }
}

fn lift_scan_step<T: View, E>(step: ScanStep<E>) -> (lifted: StoreStep<T, E>)
    requires
        !(step matches ScanStep::Finished(Ok(_))),
    ensures
        lifted.view() == lift_scan::<T::V, E>(step.view()),
{
    match step {
        ScanStep::Flash(r) => StoreStep::Flash(r),
        ScanStep::Delay(ms) => StoreStep::Delay(ms),
        ScanStep::Finished(Err(e)) => StoreStep::Done(Err(e)),
        ScanStep::Finished(Ok(_)) => StoreStep::Done(Err(ArtifactError::Incomplete)),
    }
}

// ---------------------------------------------------------------------
// find

pub struct FindView {
    pub name: Seq<char>,
    pub name_bytes: Seq<u8>,
    pub scan: ScanView,
}

/// One transition of `find`: the scan goes on; when it has finished, the
/// newest complete version among its records is the answer.
pub open spec fn find_next<E>(s: FindView, event: EventView<E>) -> (FindView, StoreStepView<InfoView, E>) {
    let (scan, step) = scan_next::<E>(s.scan, event);
    let s2 = FindView { scan, ..s };
    match step {
        ScanStepView::Finished(Ok(records)) => (s2, StoreStepView::Done(info_outcome::<E>(records, s.name_bytes, s.name))),
        _ => (s2, lift_scan(step)),
    }
}

/// A `find` in progress.
pub struct FindOp {
    name: String,
    name_bytes: Vec<u8>,
    scan: Scanner,
}

impl View for FindOp {
    type V = FindView;

    closed spec fn view(&self) -> FindView {
        FindView { name: self.name@, name_bytes: self.name_bytes@, scan: self.scan@ }
    }
}

impl FindOp {
    pub closed spec fn wf(&self) -> bool {
        &&& self.scan.wf()
    }

    pub fn resume<E>(&mut self, event: StoreEvent<E>) -> (step: StoreStep<ArtifactInfo, E>)
        requires
            old(self).wf(),
            scan_accepts(old(self)@.scan, event.view()),
        ensures
            !(step is Done) ==> final(self).wf(),
            (final(self)@, step.view()) == find_next::<E>(old(self)@, event.view()),
    {
        match self.scan.resume(event) {
            ScanStep::Finished(Ok(records)) => {
                let outcome = find_in_records::<E>(&records, self.name_bytes.as_slice());
                match outcome {
                    Ok((generation, size, blocks)) => StoreStep::Done(Ok(ArtifactInfo {
                        name: self.name.clone(),
                        generation,
                        size,
                        blocks,
                    })),
                    Err(e) => StoreStep::Done(Err(e)),
                }
            },
            step => lift_scan_step(step),
        }
    }
}

// ---------------------------------------------------------------------
// erase

pub enum EraseStage {
    Scanning(ScanView),
    Erasing(Seq<u16>, nat),
}

pub struct EraseView {
    pub name_bytes: Seq<u8>,
    pub stage: EraseStage,
}

/// Erasing block `k` of `targets`, or finishing after the last.
pub open spec fn erase_from<E>(name_bytes: Seq<u8>, targets: Seq<u16>, k: nat) -> (EraseView, StoreStepView<(), E>) {
    let s = EraseView { name_bytes, stage: EraseStage::Erasing(targets, k) };
    if k >= targets.len() {
        (s, StoreStepView::Done(Ok(())))
    } else {
        (s, StoreStepView::Flash(RequestView::EraseBlock(targets[k as int])))
    }
}

/// One transition of `erase`: scan, then erase every block whose header
/// carries the name (committed or not, so every version and every
/// abandoned one), in block order, stopping at the first failure.
pub open spec fn erase_next<E>(s: EraseView, event: EventView<E>) -> (EraseView, StoreStepView<(), E>) {
    match s.stage {
        EraseStage::Scanning(scan) => {
            let (scan2, step) = scan_next::<E>(scan, event);
            match step {
                ScanStepView::Finished(Ok(_)) => erase_from(s.name_bytes, named_blocks(scan2.observed, s.name_bytes), 0),
                _ => (EraseView { name_bytes: s.name_bytes, stage: EraseStage::Scanning(scan2) }, lift_scan(step)),
            }
        },
        EraseStage::Erasing(targets, k) => match event {
            EventView::Flash(Err(err)) => (s, StoreStepView::Done(Err(ArtifactError::Flash(err)))),
            _ => erase_from(s.name_bytes, targets, k + 1),
        },
    }
}

pub open spec fn erase_accepts<E>(s: EraseView, event: EventView<E>) -> bool {
    match s.stage {
        EraseStage::Scanning(scan) => scan_accepts(scan, event),
        EraseStage::Erasing(_, _) => event is Flash,
    }
}

enum ErasePhase {
    Scanning(Scanner),
    Erasing(Vec<u16>, usize),
}

/// An `erase` in progress.
pub struct EraseOp {
    name_bytes: Vec<u8>,
    phase: ErasePhase,
}

impl View for EraseOp {
    type V = EraseView;

    closed spec fn view(&self) -> EraseView {
        EraseView {
            name_bytes: self.name_bytes@,
            stage: match self.phase {
                ErasePhase::Scanning(scan) => EraseStage::Scanning(scan@),
                ErasePhase::Erasing(targets, k) => EraseStage::Erasing(targets@, k as nat),
            },
        }
    }
}

impl EraseOp {
    pub closed spec fn wf(&self) -> bool {
        match self.phase {
            ErasePhase::Scanning(scan) => scan.wf(),
            ErasePhase::Erasing(targets, k) => k < targets@.len(),
        }
    }

    fn erase_from<E>(name_bytes: Vec<u8>, targets: Vec<u16>, k: usize) -> (result: (EraseOp, StoreStep<(), E>))
        requires
            k <= targets@.len(),
        ensures
            (result.0@, result.1.view()) == erase_from::<E>(name_bytes@, targets@, k as nat),
            !(result.1 is Done) ==> result.0.wf(),
    {
        let step = if k >= targets.len() {
            StoreStep::Done(Ok(()))
        } else {
            StoreStep::Flash(FlashRequest::EraseBlock(targets[k]))
        };
        (EraseOp { name_bytes, phase: ErasePhase::Erasing(targets, k) }, step)
    }

    pub fn resume<E>(&mut self, event: StoreEvent<E>) -> (step: StoreStep<(), E>)
        requires
            old(self).wf(),
            erase_accepts(old(self)@, event.view()),
        ensures
            !(step is Done) ==> final(self).wf(),
            (final(self)@, step.view()) == erase_next::<E>(old(self)@, event.view()),
    {
        let mut name_bytes = Vec::new();
        std::mem::swap(&mut name_bytes, &mut self.name_bytes);
        let mut phase = ErasePhase::Erasing(Vec::new(), 0);
        std::mem::swap(&mut phase, &mut self.phase);
        assert(phase == old(self).phase);
        match phase {
            ErasePhase::Scanning(mut scan) => {
                match scan.resume(event) {
                    ScanStep::Finished(Ok(_)) => {
                        let targets = scan.blocks_named(name_bytes.as_slice());
                        let (op, step) = EraseOp::erase_from(name_bytes, targets, 0);
                        *self = op;
                        step
                    },
                    step => {
                        *self = EraseOp { name_bytes, phase: ErasePhase::Scanning(scan) };
                        lift_scan_step(step)
                    },
                }
            },
            ErasePhase::Erasing(targets, k) => {
                match event {
                    StoreEvent::Flash(Err(err)) => {
                        *self = EraseOp { name_bytes, phase: ErasePhase::Erasing(targets, k) };
                        StoreStep::Done(Err(ArtifactError::Flash(err)))
                    },
                    _ => {
                        assert(k < targets.len());
                        let (op, step) = EraseOp::erase_from(name_bytes, targets, k + 1);
                        *self = op;
                        step
                    },
                }
            },
        }
    }
}

// ---------------------------------------------------------------------
// Block allocation

/// An erased metadata sector.
pub open spec fn erased_sector() -> Seq<u8> {
    Seq::new(METADATA_SECTOR_SIZE as nat, |k: int| 0xffu8)
}

/// Every byte is 0xff: the page has not been programmed since its erase.
pub open spec fn all_erased(page: Seq<u8>) -> bool {
    forall|k: int| 0 <= k < page.len() ==> page[k] == 0xff
}

#[derive(Clone, Copy, PartialEq, Eq)]
pub enum AllocPhase {
    Delaying,
    CheckingBad,
    ReadingPage,
    Erasing,
    Programming,
}

pub struct AllocView {
    pub name: Seq<char>,
    pub generation: u32,
    pub logical_index: u16,
    pub block: nat,
    pub phase: AllocPhase,
}

/// Moving on to block `block` in search of a free one.
pub open spec fn alloc_entry<E>(s: AllocView, block: nat) -> (AllocView, StoreStepView<u16, E>) {
    if block >= BLOCK_COUNT {
        (AllocView { block, phase: AllocPhase::Delaying, ..s }, StoreStepView::Done(Err(ArtifactError::NoSpace)))
    } else if block % 8 == 0 {
        (AllocView { block, phase: AllocPhase::Delaying, ..s }, StoreStepView::Delay(SCAN_YIELD_MS as nat))
    } else {
        (AllocView { block, phase: AllocPhase::CheckingBad, ..s }, StoreStepView::Flash(RequestView::IsBadBlock(block as u16)))
    }
}

/// One transition of block allocation: the first good block whose page
/// zero is entirely erased is erased and receives the header of segment
/// `logical_index` of version `generation` of `name`.
pub open spec fn alloc_next<E>(s: AllocView, event: EventView<E>) -> (AllocView, StoreStepView<u16, E>) {
    let page0 = (s.block * PAGES_PER_BLOCK) as u16;
    match event {
        EventView::Flash(Err(err)) => (s, StoreStepView::Done(Err(ArtifactError::Flash(err)))),
        _ => match s.phase {
            AllocPhase::Delaying => (AllocView { phase: AllocPhase::CheckingBad, ..s }, StoreStepView::Flash(RequestView::IsBadBlock(s.block as u16))),
            AllocPhase::CheckingBad => if event == EventView::<E>::Flash(Ok(OutputView::BadBlock(true))) {
                alloc_entry(s, s.block + 1)
            } else {
                (AllocView { phase: AllocPhase::ReadingPage, ..s }, StoreStepView::Flash(RequestView::ReadPage(page0)))
            },
            AllocPhase::ReadingPage => {
                let page = event->Flash_0->Ok_0->Page_0;
                if all_erased(page) {
                    (AllocView { phase: AllocPhase::Erasing, ..s }, StoreStepView::Flash(RequestView::EraseBlock(s.block as u16)))
                } else {
                    alloc_entry(s, s.block + 1)
                }
            },
            AllocPhase::Erasing => (
                AllocView { phase: AllocPhase::Programming, ..s },
                StoreStepView::Flash(RequestView::ProgramPageAt(page0, 0,
                    header_image(erased_sector(), encode_utf8(s.name), s.generation, s.logical_index))),
            ),
            AllocPhase::Programming => (s, StoreStepView::Done(Ok(s.block as u16))),
        },
    }
}

pub open spec fn alloc_accepts<E>(s: AllocView, event: EventView<E>) -> bool {
    match s.phase {
        AllocPhase::Delaying => event is Delayed,
        AllocPhase::CheckingBad => event matches EventView::Flash(r) && (r is Err || r->Ok_0 is BadBlock),
        AllocPhase::ReadingPage => event matches EventView::Flash(r) && (r is Err || (r->Ok_0 is Page
            && r->Ok_0->Page_0.len() == PAGE_SIZE)),
        _ => event is Flash,
    }
}

/// Allocation erases only a block whose page zero it has just read back
/// entirely erased; such a block holds no record, so claiming it cannot
/// destroy any version of any artifact. The only program it issues is the
/// new segment's header, into column 0 of page zero of the block it has
/// just erased (the step after the erase, with the block unchanged), and
/// the block it then hands out is that block. The page it reads back
/// before deciding is page zero of the block it then erases, where a
/// header would be.
pub proof fn lemma_alloc_erases_only_unused_blocks<E>(s: AllocView, event: EventView<E>)
    requires
        alloc_accepts(s, event),
    ensures
        alloc_next::<E>(s, event).1 matches StoreStepView::Flash(RequestView::EraseBlock(b)) ==> {
            &&& s.phase is ReadingPage
            &&& b == s.block as u16
            &&& event matches EventView::Flash(Ok(OutputView::Page(page)))
            &&& all_erased(page)
            &&& record_from_page(b, page) is None
            &&& alloc_next::<E>(s, event).0.phase is Erasing
            &&& alloc_next::<E>(s, event).0.block == s.block
        },
        alloc_next::<E>(s, event).1 matches StoreStepView::Flash(RequestView::ProgramPageAt(page, column, data)) ==> {
            &&& s.phase is Erasing
            &&& page == (s.block * PAGES_PER_BLOCK) as u16
            &&& column == 0
            &&& data == header_image(erased_sector(), encode_utf8(s.name), s.generation, s.logical_index)
        },
        alloc_next::<E>(s, event).1 matches StoreStepView::Done(Ok(b)) ==> s.phase is Programming && b == s.block as u16,
        s.block < 1024 ==> (alloc_next::<E>(s, event).1 matches StoreStepView::Flash(RequestView::ReadPage(p)) ==> {
            &&& s.phase is CheckingBad
            &&& p == s.block * 64
            &&& alloc_next::<E>(s, event).0.phase is ReadingPage
            &&& alloc_next::<E>(s, event).0.block == s.block
        }),
{
    assert(s.block < 1024 ==> s.block * 64 < 65536) by (nonlinear_arith);
    if alloc_next::<E>(s, event).1 is Flash {
        if let EventView::Flash(Ok(OutputView::Page(page))) = event {
            if s.phase is ReadingPage && all_erased(page) {
                lemma_erased_sector_is_empty(page.subrange(0, METADATA_SECTOR_SIZE as int));
            }
        }
    }
}

/// A search for a free block in progress.
pub struct AllocOp {
    name: String,
    generation: u32,
    logical_index: u16,
    block: u16,
    phase: AllocPhase,
}

impl View for AllocOp {
    type V = AllocView;

    closed spec fn view(&self) -> AllocView {
        AllocView {
            name: self.name@,
            generation: self.generation,
            logical_index: self.logical_index,
            block: self.block as nat,
            phase: self.phase,
        }
    }
}

impl AllocOp {
    pub closed spec fn wf(&self) -> bool {
        &&& self.block < BLOCK_COUNT
        &&& valid_name_bytes(encode_utf8(self.name@))
        &&& (self.phase is Delaying ==> self.block % 8 == 0)
    }

    fn enter<E>(self, block: u32) -> (result: (AllocOp, StoreStep<u16, E>))
        requires
            block <= BLOCK_COUNT,
            valid_name_bytes(encode_utf8(self.name@)),
        ensures
            (result.0@, result.1.view()) == alloc_entry::<E>(self@, block as nat),
            !(result.1 is Done) ==> result.0.wf(),
    {
        let mut op = self;
        if block >= BLOCK_COUNT as u32 {
            op.block = block as u16;
            op.phase = AllocPhase::Delaying;
            (op, StoreStep::Done(Err(ArtifactError::NoSpace)))
        } else if block % 8 == 0 {
            op.block = block as u16;
            op.phase = AllocPhase::Delaying;
            (op, StoreStep::Delay(SCAN_YIELD_MS))
        } else {
            op.block = block as u16;
            op.phase = AllocPhase::CheckingBad;
            (op, StoreStep::Flash(FlashRequest::IsBadBlock(block as u16)))
        }
    }

    /// Starts looking for a free block from block 0.
    pub fn start<E>(name: String, generation: u32, logical_index: u16) -> (result: (AllocOp, StoreStep<u16, E>))
        requires
            valid_name_bytes(encode_utf8(name@)),
        ensures
            (result.0@, result.1.view()) == alloc_entry::<E>(
                AllocView { name: name@, generation, logical_index, block: 0, phase: AllocPhase::Delaying },
                0,
            ),
            result.0.wf(),
    {
        let op = AllocOp { name, generation, logical_index, block: 0, phase: AllocPhase::Delaying };
        op.enter(0)
    }

    /// The generation the allocated block's header names.
    pub fn generation(&self) -> (generation: u32)
        ensures
            generation == self@.generation,
    {
        self.generation
    }

    pub fn resume<E>(&mut self, event: StoreEvent<E>) -> (step: StoreStep<u16, E>)
        requires
            old(self).wf(),
            alloc_accepts(old(self)@, event.view()),
        ensures
            !(step is Done) ==> final(self).wf(),
            (final(self)@, step.view()) == alloc_next::<E>(old(self)@, event.view()),
            step matches StoreStep::Done(Ok(block)) ==> block < BLOCK_COUNT,
            valid_name_bytes(encode_utf8(final(self)@.name)),
    {
        let page0 = self.block * PAGES_PER_BLOCK;
        if let StoreEvent::Flash(Err(err)) = event {
            return StoreStep::Done(Err(ArtifactError::Flash(err)));
        }
        match self.phase {
            AllocPhase::Delaying => {
                self.phase = AllocPhase::CheckingBad;
                StoreStep::Flash(FlashRequest::IsBadBlock(self.block))
            },
            AllocPhase::CheckingBad => {
                if let StoreEvent::Flash(Ok(FlashOutput::BadBlock(true))) = event {
                    let next_block = self.block as u32 + 1;
                    let mut op = AllocOp { name: String::new(), generation: 0, logical_index: 0, block: 0, phase: AllocPhase::Delaying };
                    std::mem::swap(&mut op, self);
                    let (next, step) = op.enter(next_block);
                    *self = next;
                    step
                } else {
                    self.phase = AllocPhase::ReadingPage;
                    StoreStep::Flash(FlashRequest::ReadPage(page0))
                }
            },
            AllocPhase::ReadingPage => {
                let erased = match event {
                    StoreEvent::Flash(Ok(FlashOutput::Page(page))) => all_ff(page.as_slice()),
                    _ => false,
                };
                if erased {
                    self.phase = AllocPhase::Erasing;
                    StoreStep::Flash(FlashRequest::EraseBlock(self.block))
                } else {
                    let next_block = self.block as u32 + 1;
                    let mut op = AllocOp { name: String::new(), generation: 0, logical_index: 0, block: 0, phase: AllocPhase::Delaying };
                    std::mem::swap(&mut op, self);
                    let (next, step) = op.enter(next_block);
                    *self = next;
                    step
                }
            },
            AllocPhase::Erasing => {
                let mut header = [0xffu8; METADATA_SECTOR_SIZE];
                assert(header@ =~= erased_sector());
                let encoded = encode_header::<E>(&mut header, self.name.as_str(), self.generation, self.logical_index);
                self.phase = AllocPhase::Programming;
                StoreStep::Flash(FlashRequest::ProgramPageAt(page0, 0, vstd::slice::slice_to_vec(header.as_slice())))
            },
            AllocPhase::Programming => StoreStep::Done(Ok(self.block)),
        }
    }
}

/// Whether every byte is 0xff.
pub fn all_ff(page: &[u8]) -> (erased: bool)
    ensures
        erased == all_erased(page@),
{
    let mut i: usize = 0;
    while i < page.len()
        invariant
            i <= page@.len(),
            forall|k: int| 0 <= k < i ==> page@[k] == 0xff,
        decreases page.len() - i,
    {
        if page[i] != 0xff {
            return false;
        }
        i = i + 1;
    }
    true
}

// ---------------------------------------------------------------------
// The store

/// Versioned named artifacts on W25N01GV NAND.
///
/// Each physical block holds one sequential artifact segment. Page zero
/// uses one 512-byte program for its immutable header and a second for its
/// commit record. Pages 1..63 each receive one program operation. A version
/// becomes visible only when its final block is committed.
pub struct ArtifactStore {
    flash: W25N01GV,
}

impl View for ArtifactStore {
    type V = DriverView;

    closed spec fn view(&self) -> DriverView {
        self.flash@
    }
}

impl ArtifactStore {
    pub closed spec fn wf(&self) -> bool {
        self.flash.wf()
    }

    pub fn new(flash: W25N01GV) -> (store: Self)
        requires
            flash.wf(),
        ensures
            store.wf(),
            store@ == flash@,
    {
        ArtifactStore { flash }
    }

    pub fn into_inner(self) -> (flash: W25N01GV)
        requires
            self.wf(),
        ensures
            flash.wf(),
            flash@ == self@,
    {
        self.flash
    }

    /// Starts a flash operation on the store's driver.
    pub fn start_flash<E>(&mut self, request: FlashRequest) -> (step: FlashStep<E>)
        requires
            old(self).wf(),
        ensures
            final(self).wf(),
            (final(self)@, step.view()) == start_outcome::<E>(old(self)@, request@),
    {
        self.flash.start(request)
    }

    /// Continues the flash operation in progress on the store's driver.
    pub fn resume_flash<E>(&mut self, reply: Result<Vec<u8>, E>) -> (step: FlashStep<E>)
        requires
            old(self).wf(),
            old(self)@.op is Some,
            reply matches Ok(v) ==> v@.len() == expected_read_len(old(self)@),
        ensures
            final(self).wf(),
            (final(self)@, step.view()) == next::<E>(old(self)@, reply_view(reply)),
    {
        self.flash.resume(reply)
    }

    /// Resets the chip.
    pub fn reset<E>(&mut self) -> (step: FlashStep<E>)
        requires
            old(self).wf(),
        ensures
            final(self).wf(),
            final(self)@ == entered(FlashOpView::Reset, 0),
            step.view() == entry_step::<E>(FlashOpView::Reset, 0),
    {
        self.flash.reset()
    }

    /// Reads the chip's JEDEC identification.
    pub fn read_id<E>(&mut self) -> (step: FlashStep<E>)
        requires
            old(self).wf(),
        ensures
            final(self).wf(),
            final(self)@ == entered(FlashOpView::ReadId, 0),
            step.view() == entry_step::<E>(FlashOpView::ReadId, 0),
    {
        self.flash.read_id()
    }

    /// Finds the most recent complete version of `name`. The scan reads
    /// page zero of each block that is not marked bad.
    pub fn find<E>(&mut self, name: &str) -> (result: (FindOp, StoreStep<ArtifactInfo, E>))
        ensures
            final(self)@ == old(self)@,
            final(self).wf() == old(self).wf(),
            !valid_name_bytes(name.spec_bytes()) ==> result.1.view() == StoreStepView::<InfoView, E>::Done(
                Err(ArtifactError::InvalidName),
            ),
            valid_name_bytes(name.spec_bytes()) ==> {
                let (scan, step) = scan_entry::<E>(0, seq![]);
                &&& result.0.wf()
                &&& result.0@ == FindView { name: name@, name_bytes: name.spec_bytes(), scan }
                &&& result.1.view() == lift_scan::<InfoView, E>(step)
            },
    {
        let valid = validate_name::<E>(name);
        let (scan, step) = Scanner::start::<E>();
        let op = FindOp { name: name.to_owned(), name_bytes: vstd::slice::slice_to_vec(name.as_bytes()), scan };
        match valid {
            Err(e) => (op, StoreStep::Done(Err(e))),
            Ok(()) => (op, lift_scan_step(step)),
        }
    }

    /// Begins a new version of `name` without modifying older versions.
    /// Call the writer's `finish` to publish it; abandoning an unfinished
    /// writer leaves a version that `find` ignores.
    pub fn begin<E>(&mut self, name: &str) -> (result: (BeginOp, StoreStep<ArtifactWriter, E>))
        ensures
            final(self)@ == old(self)@,
            final(self).wf() == old(self).wf(),
            !valid_name_bytes(name.spec_bytes()) ==> result.1.view() == StoreStepView::<WriterView, E>::Done(
                Err(ArtifactError::InvalidName),
            ),
            valid_name_bytes(name.spec_bytes()) ==> {
                let (scan, step) = scan_entry::<E>(0, seq![]);
                &&& result.0.wf()
                &&& result.0@ == BeginView { name: name@, name_bytes: name.spec_bytes(), stage: BeginStage::Scanning(scan) }
                &&& result.1.view() == lift_scan::<WriterView, E>(step)
            },
    {
        let valid = validate_name::<E>(name);
        let (op, step) = BeginOp::start::<E>(name);
        match valid {
            Err(e) => (op, StoreStep::Done(Err(e))),
            Ok(()) => (op, step),
        }
    }

    /// Streams the newest complete version of `name` to the consumer
    /// (through `Deliver` steps) without holding a copy of it.
    pub fn read<E>(&mut self, name: &str) -> (result: (ReadOp, StoreStep<(), E>))
        ensures
            final(self)@ == old(self)@,
            final(self).wf() == old(self).wf(),
            !valid_name_bytes(name.spec_bytes()) ==> result.1.view() == StoreStepView::<(), E>::Done(
                Err(ArtifactError::InvalidName),
            ),
            valid_name_bytes(name.spec_bytes()) ==> {
                let (scan, step) = scan_entry::<E>(0, seq![]);
                &&& result.0.wf()
                &&& result.0@ == ReadView { name_bytes: name.spec_bytes(), stage: ReadStage::Finding(scan), delivered: seq![], size: 0 }
                &&& result.1.view() == lift_scan::<(), E>(step)
            },
    {
        let valid = validate_name::<E>(name);
        let (op, step) = ReadOp::start::<E>(name);
        match valid {
            Err(e) => (op, StoreStep::Done(Err(e))),
            Ok(()) => (op, step),
        }
    }

    /// Permanently erases every block belonging to every version of `name`.
    pub fn erase<E>(&mut self, name: &str) -> (result: (EraseOp, StoreStep<(), E>))
        ensures
            final(self)@ == old(self)@,
            final(self).wf() == old(self).wf(),
            !valid_name_bytes(name.spec_bytes()) ==> result.1.view() == StoreStepView::<(), E>::Done(
                Err(ArtifactError::InvalidName),
            ),
            valid_name_bytes(name.spec_bytes()) ==> {
                let (scan, step) = scan_entry::<E>(0, seq![]);
                &&& result.0.wf()
                &&& result.0@ == EraseView { name_bytes: name.spec_bytes(), stage: EraseStage::Scanning(scan) }
                &&& result.1.view() == lift_scan::<(), E>(step)
            },
    {
        let valid = validate_name::<E>(name);
        let (scan, step) = Scanner::start::<E>();
        let op = EraseOp { name_bytes: vstd::slice::slice_to_vec(name.as_bytes()), phase: ErasePhase::Scanning(scan) };
        match valid {
            Err(e) => (op, StoreStep::Done(Err(e))),
            Ok(()) => (op, lift_scan_step(step)),
        }
    }
}

} // verus!
