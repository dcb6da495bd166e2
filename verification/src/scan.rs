//! The block scan that every artifact operation starts with: page zero of
//! each good block is read and turned into a record when it holds a header
//! and a commit record; the scan also keeps the name of every block that
//! holds a header, committed or not, for `erase`.

use vstd::prelude::*;
use crate::nand::{Error, FlashOutput, OutputView, RequestView, FlashRequest, BLOCK_COUNT, PAGES_PER_BLOCK, PAGE_SIZE};
use crate::store::{ArtifactError, BlockRecord, RecordView, block_record, bytes_equal, find_outcome,
    lemma_find_without_name, record_from_page, records_view, without_name, ARTIFACT_BLOCK_CAPACITY};
use crate::layout::{decode_header, header_fields, lemma_erased_sector_is_empty, HEADER_NAME_OFFSET,
    METADATA_SECTOR_SIZE};

verus! {

/// Milliseconds to yield to other tasks every eighth block of a scan.
pub const SCAN_YIELD_MS: u32 = 1;

/// What an artifact operation is told after each step it asked for.
#[derive(Debug)]
pub enum StoreEvent<E> {
    /// The requested delay has passed.
    Delayed,
    /// The requested flash operation finished with this result.
    Flash(Result<FlashOutput, Error<E>>),
    /// The delivered bytes have been consumed.
    Consumed,
}

pub enum EventView<E> {
    Delayed,
    Flash(Result<OutputView, Error<E>>),
    Consumed,
}

impl<E> StoreEvent<E> {
    pub open spec fn view(&self) -> EventView<E> {
        match self {
            StoreEvent::Delayed => EventView::Delayed,
            StoreEvent::Flash(Ok(o)) => EventView::Flash(Ok(o@)),
            StoreEvent::Flash(Err(e)) => EventView::Flash(Err(*e)),
            StoreEvent::Consumed => EventView::Consumed,
        }
    }
}

/// What a scan learned about one block: it is marked bad, or its page
/// zero holds these bytes.
pub enum Observation {
    Bad,
    Page(Seq<u8>),
}

/// The records that a scan which made `observed` (one observation per
/// block, from block 0 on) has collected.
pub open spec fn records_of(observed: Seq<Observation>) -> Seq<RecordView>
    decreases observed.len(),
{
    if observed.len() == 0 {
        seq![]
    } else {
        let rest = records_of(observed.drop_last());
        match observed.last() {
            Observation::Page(page) => match record_from_page((observed.len() - 1) as u16, page) {
                Some(r) => rest.push(r),
                None => rest,
            },
            Observation::Bad => rest,
        }
    }
}

pub proof fn lemma_records_of_len(observed: Seq<Observation>)
    ensures
        records_of(observed).len() <= observed.len(),
    decreases observed.len(),
{
    if observed.len() > 0 {
        lemma_records_of_len(observed.drop_last());
    }
}

/// The name in a block's header, when page zero holds a valid header
/// (with or without a commit record behind it).
pub open spec fn header_name(page: Seq<u8>) -> Option<Seq<u8>> {
    let header = page.subrange(0, METADATA_SECTOR_SIZE as int);
    match header_fields(header) {
        None => None,
        Some(_) => Some(header.subrange(HEADER_NAME_OFFSET as int, HEADER_NAME_OFFSET + header[5])),
    }
}

/// The blocks a scan which made `observed` found with a valid header, and
/// the names in those headers, in block order.
pub open spec fn headers_of(observed: Seq<Observation>) -> Seq<(u16, Seq<u8>)>
    decreases observed.len(),
{
    if observed.len() == 0 {
        seq![]
    } else {
        let rest = headers_of(observed.drop_last());
        match observed.last() {
            Observation::Page(page) => match header_name(page) {
                Some(name) => rest.push(((observed.len() - 1) as u16, name)),
                None => rest,
            },
            Observation::Bad => rest,
        }
    }
}

/// The blocks among `headers` whose header carries `name`.
pub open spec fn blocks_named(headers: Seq<(u16, Seq<u8>)>, name: Seq<u8>) -> Seq<u16>
    decreases headers.len(),
{
    if headers.len() == 0 {
        seq![]
    } else {
        let rest = blocks_named(headers.drop_last(), name);
        if headers.last().1 == name { rest.push(headers.last().0) } else { rest }
    }
}

/// The blocks that belong to `name` in a scan which made `observed`: every
/// block whose header carries the name, committed or not, in block order.
pub open spec fn named_blocks(observed: Seq<Observation>, name: Seq<u8>) -> Seq<u16> {
    blocks_named(headers_of(observed), name)
}

/// Block `b` of a scan that made `observed` holds a header for `name`.
pub open spec fn block_named(observed: Seq<Observation>, b: int, name: Seq<u8>) -> bool {
    &&& 0 <= b < observed.len()
    &&& observed[b] matches Observation::Page(page) && header_name(page) == Some(name)
}

/// What `erase` clears: exactly the blocks whose header carries the name,
/// in increasing block order. So it takes every block of every version of
/// the name, published or left unfinished by a writer, and no block of
/// any other name.
pub proof fn lemma_erase_targets(observed: Seq<Observation>, name: Seq<u8>)
    requires
        observed.len() <= BLOCK_COUNT,
    ensures
        forall|b: int| #[trigger] block_named(observed, b, name) ==> named_blocks(observed, name).contains(b as u16),
        forall|k: int| 0 <= k < named_blocks(observed, name).len()
            ==> block_named(observed, #[trigger] named_blocks(observed, name)[k] as int, name),
        forall|i: int, k: int| 0 <= i < k < named_blocks(observed, name).len()
            ==> named_blocks(observed, name)[i] < named_blocks(observed, name)[k],
        forall|j: int| 0 <= j < records_of(observed).len() && (#[trigger] records_of(observed)[j]).name == name
            ==> named_blocks(observed, name).contains(records_of(observed)[j].physical_block),
    decreases observed.len(),
{
    let n = observed.len();
    if n > 0 {
        let rest = observed.drop_last();
        lemma_erase_targets(rest, name);
        let prev = named_blocks(rest, name);
        let all = named_blocks(observed, name);
        let last = (n - 1) as u16;
        assert(forall|b: int| 0 <= b < n - 1 ==> #[trigger] observed[b] == rest[b]);
        assert(forall|b: int| #[trigger] block_named(rest, b, name) <==> (block_named(observed, b, name) && b < n - 1));
        let h = headers_of(observed);
        let hr = headers_of(rest);
        match observed.last() {
            Observation::Page(page) => {
                if let Some(nm) = header_name(page) {
                    assert(h == hr.push((last, nm)));
                    assert(h.drop_last() =~= hr);
                } else {
                    assert(h == hr);
                }
                if header_name(page) == Some(name) {
                    assert(all == prev.push(last));
                    assert(all[all.len() - 1] == last);
                } else {
                    assert(all == prev);
                }
                match record_from_page(last, page) {
                    Some(r) => {
                        assert(records_of(observed) == records_of(rest).push(r));
                        if r.name == name {
                            assert(header_name(page) == Some(name));
                        }
                    },
                    None => {},
                }
            },
            Observation::Bad => {
                assert(all == prev);
            },
        }
        assert forall|b: int| #[trigger] block_named(observed, b, name) implies all.contains(b as u16) by {
            if b < n - 1 {
                assert(block_named(rest, b, name));
                let k = choose|k: int| 0 <= k < prev.len() && prev[k] == b as u16;
                assert(all[k] == prev[k]);
            } else {
                assert(all[all.len() - 1] == last);
            }
        }
        assert forall|k: int| 0 <= k < all.len() implies block_named(observed, #[trigger] all[k] as int, name) by {
            if k < prev.len() {
                assert(all[k] == prev[k]);
                assert(block_named(rest, prev[k] as int, name));
            }
        }
        assert forall|i: int, k: int| 0 <= i < k < all.len() implies all[i] < all[k] by {
            if k < prev.len() {
                assert(all[i] == prev[i] && all[k] == prev[k]);
            } else {
                assert(all[i] == prev[i]);
                assert(block_named(rest, prev[i] as int, name));
            }
        }
        assert forall|j: int| 0 <= j < records_of(observed).len() && (#[trigger] records_of(observed)[j]).name == name
            implies all.contains(records_of(observed)[j].physical_block) by {
            let rr = records_of(rest);
            if j < rr.len() {
                assert(records_of(observed)[j] == rr[j]);
                let k = choose|k: int| 0 <= k < prev.len() && prev[k] == rr[j].physical_block;
                assert(all[k] == prev[k]);
            } else {
                assert(all[all.len() - 1] == last);
            }
        }
    }
}

/// Page zero of an erased block.
pub open spec fn erased_page() -> Seq<u8> {
    Seq::new(PAGE_SIZE as nat, |i: int| 0xffu8)
}

/// What a scan observes once `blocks` have been erased on a chip that
/// does what it is told: page zero of each of them reads back erased, and
/// every other block reads as before.
pub open spec fn after_erasing(observed: Seq<Observation>, blocks: Seq<u16>) -> Seq<Observation> {
    Seq::new(
        observed.len(),
        |b: int|
            match observed[b] {
                Observation::Page(page) => if blocks.contains(b as u16) {
                    Observation::Page(erased_page())
                } else {
                    Observation::Page(page)
                },
                Observation::Bad => Observation::Bad,
            },
    )
}

proof fn lemma_records_after_erasing(observed: Seq<Observation>, blocks: Seq<u16>, name: Seq<u8>)
    requires
        observed.len() <= BLOCK_COUNT,
        forall|b: int| 0 <= b < observed.len() ==> (#[trigger] observed[b] matches Observation::Page(page)
            ==> (blocks.contains(b as u16) <==> header_name(page) == Some(name))),
    ensures
        records_of(after_erasing(observed, blocks)) == without_name(records_of(observed), name),
    decreases observed.len(),
{
    let n = observed.len();
    if n > 0 {
        let rest = observed.drop_last();
        assert forall|b: int| 0 <= b < rest.len() implies (#[trigger] rest[b] matches Observation::Page(page)
            ==> (blocks.contains(b as u16) <==> header_name(page) == Some(name))) by {
            assert(rest[b] == observed[b]);
        }
        lemma_records_after_erasing(rest, blocks, name);
        let after = after_erasing(observed, blocks);
        assert(after.drop_last() =~= after_erasing(rest, blocks));
        let recs = records_of(observed);
        let rr = records_of(rest);
        let b = n - 1;
        match observed.last() {
            Observation::Page(page) => {
                assert(observed[b] == observed.last());
                if blocks.contains(b as u16) {
                    assert(after.last() == Observation::Page(erased_page()));
                    lemma_erased_sector_is_empty(erased_page().subrange(0, METADATA_SECTOR_SIZE as int));
                    assert(record_from_page(b as u16, erased_page()) is None);
                    match record_from_page(b as u16, page) {
                        Some(r) => {
                            assert(header_name(page) == Some(r.name));
                            assert(recs == rr.push(r));
                            assert(recs.drop_last() =~= rr);
                        },
                        None => {},
                    }
                } else {
                    assert(after.last() == Observation::Page(page));
                    match record_from_page(b as u16, page) {
                        Some(r) => {
                            assert(header_name(page) == Some(r.name));
                            assert(recs == rr.push(r));
                            assert(recs.drop_last() =~= rr);
                        },
                        None => {},
                    }
                }
            },
            Observation::Bad => {
                assert(observed[b] == observed.last());
                assert(after.last() == Observation::Bad);
            },
        }
    }
}

/// Erase, then find: once `erase` has erased the blocks it targets on a
/// chip that does what it is told, a scan finds no version of the name
/// (`find` reports `NotFound`), and `find` reports for every other name
/// what it reported before.
pub proof fn lemma_erase_then_find<E>(observed: Seq<Observation>, name: Seq<u8>, other: Seq<u8>)
    requires
        observed.len() <= BLOCK_COUNT,
    ensures
        find_outcome::<E>(records_of(after_erasing(observed, named_blocks(observed, name))), name)
            == Err::<(u32, u64, u16), ArtifactError<E>>(ArtifactError::NotFound),
        other != name ==> find_outcome::<E>(records_of(after_erasing(observed, named_blocks(observed, name))), other)
            == find_outcome::<E>(records_of(observed), other),
{
    let blocks = named_blocks(observed, name);
    lemma_erase_targets(observed, name);
    assert forall|b: int| 0 <= b < observed.len() implies (#[trigger] observed[b] matches Observation::Page(page)
        ==> (blocks.contains(b as u16) <==> header_name(page) == Some(name))) by {
        if let Observation::Page(page) = observed[b] {
            if header_name(page) == Some(name) {
                assert(block_named(observed, b, name));
            }
            if blocks.contains(b as u16) {
                let k = choose|k: int| 0 <= k < blocks.len() && blocks[k] == b as u16;
                assert(block_named(observed, blocks[k] as int, name));
            }
        }
    }
    lemma_records_after_erasing(observed, blocks, name);
    lemma_find_without_name::<E>(records_of(observed), name, other);
}

/// A block with a valid header, as a scan finds it.
pub struct BlockHeader {
    pub block: u16,
    /// The name's UTF-8 bytes as stored in the header.
    pub name: Vec<u8>,
}

pub open spec fn headers_view(headers: Seq<BlockHeader>) -> Seq<(u16, Seq<u8>)> {
    headers.map_values(|h: BlockHeader| (h.block, h.name@))
}

/// Reads the header name of page zero of `block`.
fn block_header(block: u16, page: &[u8]) -> (header: Option<BlockHeader>)
    requires
        page@.len() == PAGE_SIZE,
    ensures
        match header {
            None => header_name(page@) is None,
            Some(h) => h.block == block && header_name(page@) == Some(h.name@),
        },
{
    let sector = &page[0..METADATA_SECTOR_SIZE];
    assert(sector@ =~= page@.subrange(0, METADATA_SECTOR_SIZE as int));
    match decode_header(sector) {
        None => None,
        Some(_) => {
            let name_len = sector[5] as usize;
            let name = vstd::slice::slice_to_vec(&sector[HEADER_NAME_OFFSET..HEADER_NAME_OFFSET + name_len]);
            Some(BlockHeader { block, name })
        },
    }
}

/// The records name existing blocks and sizes within capacity.
pub open spec fn records_bounded(records: Seq<RecordView>) -> bool {
    forall|j: int| 0 <= j < records.len() ==> {
        &&& #[trigger] records[j].physical_block < BLOCK_COUNT
        &&& records[j].size <= ARTIFACT_BLOCK_CAPACITY
    }
}

/// Every record a scan collects names an existing block and a block size
/// within capacity.
pub proof fn lemma_records_of_bounds(observed: Seq<Observation>)
    requires
        observed.len() <= BLOCK_COUNT,
    ensures
        records_bounded(records_of(observed)),
    decreases observed.len(),
{
    if observed.len() > 0 {
        let rest = observed.drop_last();
        lemma_records_of_bounds(rest);
        let prev = records_of(rest);
        let all = records_of(observed);
        match observed.last() {
            Observation::Page(page) => {
                match record_from_page((observed.len() - 1) as u16, page) {
                    Some(r) => {
                        assert(all == prev.push(r));
                        assert(r.physical_block == (observed.len() - 1) as u16);
                        assert forall|j: int| 0 <= j < all.len() implies {
                            &&& #[trigger] all[j].physical_block < BLOCK_COUNT
                            &&& all[j].size <= ARTIFACT_BLOCK_CAPACITY
                        } by {
                            if j < prev.len() {
                                assert(all[j] == prev[j]);
                            }
                        }
                    },
                    None => {},
                }
            },
            Observation::Bad => {},
        }
    }
}

#[derive(Clone, Copy, PartialEq, Eq)]
pub enum ScanPhase {
    /// Waiting for the periodic yield to pass.
    Delaying,
    /// Waiting for the block's bad-block check.
    CheckingBad,
    /// Waiting for the block's page zero.
    ReadingPage,
}

pub struct ScanView {
    pub block: nat,
    pub phase: ScanPhase,
    pub observed: Seq<Observation>,
}

pub enum ScanStepView<E> {
    Flash(RequestView),
    Delay(nat),
    Finished(Result<Seq<RecordView>, ArtifactError<E>>),
}

/// Moving on to block `block`, having made `observed`: yield every eighth
/// block, check each block's bad-block mark, and finish after the last.
pub open spec fn scan_entry<E>(block: nat, observed: Seq<Observation>) -> (ScanView, ScanStepView<E>) {
    if block >= BLOCK_COUNT {
        (ScanView { block, phase: ScanPhase::Delaying, observed }, ScanStepView::Finished(Ok(records_of(observed))))
    } else if block % 8 == 0 {
        (ScanView { block, phase: ScanPhase::Delaying, observed }, ScanStepView::Delay(SCAN_YIELD_MS as nat))
    } else {
        (ScanView { block, phase: ScanPhase::CheckingBad, observed }, ScanStepView::Flash(RequestView::IsBadBlock(block as u16)))
    }
}

/// Which events a scan in state `s` can be handed: the answer to what it
/// asked for.
pub open spec fn scan_accepts<E>(s: ScanView, event: EventView<E>) -> bool {
    match s.phase {
        ScanPhase::Delaying => event is Delayed,
        ScanPhase::CheckingBad => event matches EventView::Flash(r) && (r is Err || r->Ok_0 is BadBlock),
        ScanPhase::ReadingPage => event matches EventView::Flash(r) && (r is Err || (r->Ok_0 is Page
            && r->Ok_0->Page_0.len() == PAGE_SIZE)),
    }
}

/// One transition of the scan.
pub open spec fn scan_next<E>(s: ScanView, event: EventView<E>) -> (ScanView, ScanStepView<E>) {
    match event {
        EventView::Flash(Err(err)) => (s, ScanStepView::Finished(Err(ArtifactError::Flash(err)))),
        EventView::Flash(Ok(OutputView::BadBlock(true))) => scan_entry(s.block + 1, s.observed.push(Observation::Bad)),
        EventView::Flash(Ok(OutputView::BadBlock(false))) => (
            ScanView { block: s.block, phase: ScanPhase::ReadingPage, observed: s.observed },
            ScanStepView::Flash(RequestView::ReadPage((s.block * PAGES_PER_BLOCK) as u16)),
        ),
        EventView::Flash(Ok(OutputView::Page(page))) => scan_entry(s.block + 1, s.observed.push(Observation::Page(page))),
        _ => (
            ScanView { block: s.block, phase: ScanPhase::CheckingBad, observed: s.observed },
            ScanStepView::Flash(RequestView::IsBadBlock(s.block as u16)),
        ),
    }
}

/// The scan reads page zero of each block, where the header and the
/// commit record are: the only page it asks for is page zero of the block
/// it is at, and the page that comes back is recorded as that block's
/// observation.
pub proof fn lemma_scan_reads_page_zero<E>(s: ScanView, event: EventView<E>)
    requires
        s.block < 1024,
    ensures
        scan_next::<E>(s, event).1 matches ScanStepView::Flash(RequestView::ReadPage(p)) ==> {
            &&& p == s.block * 64
            &&& scan_next::<E>(s, event).0.phase is ReadingPage
            &&& scan_next::<E>(s, event).0.block == s.block
        },
        s.phase is ReadingPage ==> (event matches EventView::Flash(Ok(OutputView::Page(page))) ==> {
            &&& scan_next::<E>(s, event).0.observed == s.observed.push(Observation::Page(page))
            &&& scan_next::<E>(s, event).0.block == s.block + 1
        }),
{
    assert(s.block * 64 < 65536) by (nonlinear_arith)
        requires
            s.block < 1024,
    ;
}

/// What a scan asks for next.
pub enum ScanStep<E> {
    Flash(FlashRequest),
    Delay(u32),
    Finished(Result<Vec<BlockRecord>, ArtifactError<E>>),
}

impl<E> ScanStep<E> {
    pub open spec fn view(&self) -> ScanStepView<E> {
        match self {
            ScanStep::Flash(r) => ScanStepView::Flash(r@),
            ScanStep::Delay(ms) => ScanStepView::Delay(*ms as nat),
            ScanStep::Finished(Ok(records)) => ScanStepView::Finished(Ok(records_view(records@))),
            ScanStep::Finished(Err(e)) => ScanStepView::Finished(Err(*e)),
        }
    }
}

/// A scan of all blocks in progress.
pub struct Scanner {
    block: u16,
    phase: ScanPhase,
    records: Vec<BlockRecord>,
    headers: Vec<BlockHeader>,
    observed: Ghost<Seq<Observation>>,
}

impl View for Scanner {
    type V = ScanView;

    closed spec fn view(&self) -> ScanView {
        ScanView { block: self.block as nat, phase: self.phase, observed: self.observed@ }
    }
}

impl Scanner {
    /// The scan is still running and its records are those its
    /// observations yield.
    pub closed spec fn wf(&self) -> bool {
        &&& self.block < BLOCK_COUNT
        &&& self.observed@.len() == self.block
        &&& records_view(self.records@) == records_of(self.observed@)
        &&& self.holds_headers()
        &&& (self.phase is Delaying ==> self.block % 8 == 0)
    }

    /// The scanner holds the header of every block it has read.
    pub closed spec fn holds_headers(&self) -> bool {
        headers_view(self.headers@) == headers_of(self.observed@)
    }

    /// The blocks whose header carries `name`, among those scanned.
    pub fn blocks_named(&self, name: &[u8]) -> (blocks: Vec<u16>)
        requires
            self.holds_headers(),
        ensures
            blocks@ == named_blocks(self@.observed, name@),
    {
        let ghost hv = headers_view(self.headers@);
        let mut blocks: Vec<u16> = Vec::new();
        let mut j: usize = 0;
        while j < self.headers.len()
            invariant
                hv == headers_view(self.headers@),
                j <= self.headers@.len(),
                blocks@ == blocks_named(hv.take(j as int), name@),
            decreases self.headers.len() - j,
        {
            assert(hv.take(j + 1).drop_last() =~= hv.take(j as int));
            if bytes_equal(self.headers[j].name.as_slice(), name) {
                blocks.push(self.headers[j].block);
            }
            j = j + 1;
        }
        assert(hv.take(self.headers@.len() as int) =~= hv);
        blocks
    }

    /// Enters block `block` (a scan that passes the last block finishes).
    fn enter<E>(block: u32, records: Vec<BlockRecord>, headers: Vec<BlockHeader>, observed: Ghost<Seq<Observation>>) -> (result: (Scanner, ScanStep<E>))
        requires
            block <= BLOCK_COUNT,
            observed@.len() == block,
            records_view(records@) == records_of(observed@),
            headers_view(headers@) == headers_of(observed@),
        ensures
            block < BLOCK_COUNT ==> result.0.wf(),
            result.0.holds_headers(),
            (result.0@, result.1.view()) == scan_entry::<E>(block as nat, observed@),
            block >= BLOCK_COUNT ==> result.1 is Finished,
            result.1 matches ScanStep::Finished(Ok(r)) ==> r@.len() <= BLOCK_COUNT && records_bounded(records_view(r@)),
    {
        if block >= BLOCK_COUNT as u32 {
            proof {
                lemma_records_of_len(observed@);
                lemma_records_of_bounds(observed@);
            }
            let scanner = Scanner { block: block as u16, phase: ScanPhase::Delaying, records: Vec::new(), headers, observed };
            (scanner, ScanStep::Finished(Ok(records)))
        } else if block % 8 == 0 {
            (Scanner { block: block as u16, phase: ScanPhase::Delaying, records, headers, observed }, ScanStep::Delay(SCAN_YIELD_MS))
        } else {
            (Scanner { block: block as u16, phase: ScanPhase::CheckingBad, records, headers, observed },
                ScanStep::Flash(FlashRequest::IsBadBlock(block as u16)))
        }
    }

    /// Starts a scan at block 0.
    pub fn start<E>() -> (result: (Scanner, ScanStep<E>))
        ensures
            result.0.wf(),
            (result.0@, result.1.view()) == scan_entry::<E>(0, seq![]),
    {
        let records: Vec<BlockRecord> = Vec::new();
        let headers: Vec<BlockHeader> = Vec::new();
        assert(records_view(records@) =~= records_of(seq![]));
        assert(headers_view(headers@) =~= headers_of(seq![]));
        let ghost empty: Seq<Observation> = seq![];
        Scanner::enter(0, records, headers, Ghost(empty))
    }

    /// Takes the answer to the scan's last request.
    pub fn resume<E>(&mut self, event: StoreEvent<E>) -> (step: ScanStep<E>)
        requires
            old(self).wf(),
            scan_accepts(old(self)@, event.view()),
        ensures
            !(step is Finished) ==> final(self).wf(),
            step matches ScanStep::Finished(Ok(_)) ==> final(self).holds_headers(),
            step matches ScanStep::Finished(Ok(records)) ==> records@.len() <= BLOCK_COUNT && records_bounded(
                records_view(records@),
            ),
            (final(self)@, step.view()) == scan_next::<E>(old(self)@, event.view()),
    {
        match event {
            StoreEvent::Flash(Err(err)) => ScanStep::Finished(Err(ArtifactError::Flash(err))),
            StoreEvent::Flash(Ok(FlashOutput::BadBlock(true))) => {
                let ghost observed = self.observed@.push(Observation::Bad);
                assert(observed.drop_last() =~= self.observed@);
                let mut records = Vec::new();
                std::mem::swap(&mut records, &mut self.records);
                let mut headers = Vec::new();
                std::mem::swap(&mut headers, &mut self.headers);
                let (next, step) = Scanner::enter(self.block as u32 + 1, records, headers, Ghost(observed));
                *self = next;
                step
            },
            StoreEvent::Flash(Ok(FlashOutput::BadBlock(false))) => {
                self.phase = ScanPhase::ReadingPage;
                ScanStep::Flash(FlashRequest::ReadPage(self.block * PAGES_PER_BLOCK))
            },
            StoreEvent::Flash(Ok(FlashOutput::Page(page))) => {
                let ghost observed = self.observed@.push(Observation::Page(page@));
                assert(observed.drop_last() =~= self.observed@);
                let mut records = Vec::new();
                std::mem::swap(&mut records, &mut self.records);
                match block_record(self.block, page.as_slice()) {
                    Some(record) => {
                        records.push(record);
                        assert(records_view(records@) =~= records_of(observed));
                    },
                    None => {},
                }
                let mut headers = Vec::new();
                std::mem::swap(&mut headers, &mut self.headers);
                match block_header(self.block, page.as_slice()) {
                    Some(header) => {
                        headers.push(header);
                        assert(headers_view(headers@) =~= headers_of(observed));
                    },
                    None => {},
                }
                let (next, step) = Scanner::enter(self.block as u32 + 1, records, headers, Ghost(observed));
                *self = next;
                step
            },
            _ => {
                self.phase = ScanPhase::CheckingBad;
                ScanStep::Flash(FlashRequest::IsBadBlock(self.block))
            },
        }
    }
}

} // verus!
