//! Winbond W25N01GV serial-NAND command protocol.
//!
//! The device is NAND, not a byte-addressable SPI NOR part. A program
//! operation writes one 2 KiB page and an erase clears one 128 KiB block
//! (64 pages), so callers must use an append-only layout and never
//! overwrite a page.
//!
//! Every flash operation is a fixed script of SPI transactions. The driver
//! here decides; whoever owns the SPI device performs each transaction it
//! asks for and hands back what the device answered (see [`W25N01GV::resume`]).

use vstd::prelude::*;

verus! {

pub const PAGE_SIZE: usize = 2048;
pub const SPARE_SIZE: usize = 64;
pub const PAGES_PER_BLOCK: u16 = 64;
pub const BLOCK_SIZE: usize = 131072;
pub const BLOCK_COUNT: u16 = 1024;
pub const TOTAL_SIZE: usize = 134217728;

pub const CMD_WRITE_ENABLE: u8 = 0x06;
pub const CMD_RESET: u8 = 0xff;
pub const CMD_READ_ID: u8 = 0x9f;
pub const CMD_GET_FEATURE: u8 = 0x0f;
pub const CMD_PAGE_READ: u8 = 0x13;
pub const CMD_READ_CACHE: u8 = 0x03;
pub const CMD_PROGRAM_LOAD: u8 = 0x02;
pub const CMD_PROGRAM_EXECUTE: u8 = 0x10;
pub const CMD_BLOCK_ERASE: u8 = 0xd8;
pub const REG_STATUS: u8 = 0xc0;
/// How many times the status register is polled before giving up.
pub const READY_POLL_LIMIT: u32 = 10000;

/// Failures of a flash operation. `E` is the error type of the SPI device.
#[derive(Debug)]
pub enum Error<E> {
    Spi(E),
    Timeout,
    ProgramFailed,
    EraseFailed,
    EccUncorrectable,
    InvalidPage,
    InvalidBlock,
}

/// One SPI transaction, performed with chip select held asserted.
#[derive(Debug)]
pub enum SpiTransfer {
    /// Write the bytes.
    Write(Vec<u8>),
    /// Write the command, then read the given number of bytes.
    WriteRead(Vec<u8>, usize),
    /// Write the command, then the payload.
    WriteWrite(Vec<u8>, Vec<u8>),
}

/// The mathematical value of a [`SpiTransfer`].
pub enum TransferView {
    Write(Seq<u8>),
    WriteRead(Seq<u8>, nat),
    WriteWrite(Seq<u8>, Seq<u8>),
}

impl View for SpiTransfer {
    type V = TransferView;

    open spec fn view(&self) -> TransferView {
        match self {
            SpiTransfer::Write(b) => TransferView::Write(b@),
            SpiTransfer::WriteRead(c, n) => TransferView::WriteRead(c@, *n as nat),
            SpiTransfer::WriteWrite(c, p) => TransferView::WriteWrite(c@, p@),
        }
    }
}

/// A flash operation, as a caller of the driver asks for it.
#[derive(Debug)]
pub enum FlashRequest {
    Reset,
    ReadId,
    ReadPage(u16),
    ProgramPageAt(u16, u16, Vec<u8>),
    EraseBlock(u16),
    IsBadBlock(u16),
}

pub enum RequestView {
    Reset,
    ReadId,
    ReadPage(u16),
    ProgramPageAt(u16, u16, Seq<u8>),
    EraseBlock(u16),
    IsBadBlock(u16),
}

impl View for FlashRequest {
    type V = RequestView;

    open spec fn view(&self) -> RequestView {
        match self {
            FlashRequest::Reset => RequestView::Reset,
            FlashRequest::ReadId => RequestView::ReadId,
            FlashRequest::ReadPage(p) => RequestView::ReadPage(*p),
            FlashRequest::ProgramPageAt(p, c, d) => RequestView::ProgramPageAt(*p, *c, d@),
            FlashRequest::EraseBlock(b) => RequestView::EraseBlock(*b),
            FlashRequest::IsBadBlock(b) => RequestView::IsBadBlock(*b),
        }
    }
}

/// A flash operation in progress.
pub enum FlashOp {
    Reset,
    ReadId,
    ReadPage(u16),
    Program(u16, u16, Vec<u8>),
    Erase(u16),
    BadBlockCheck(u16),
}

pub enum FlashOpView {
    Reset,
    ReadId,
    ReadPage(u16),
    Program(u16, u16, Seq<u8>),
    Erase(u16),
    BadBlockCheck(u16),
}

impl View for FlashOp {
    type V = FlashOpView;

    open spec fn view(&self) -> FlashOpView {
        match self {
            FlashOp::Reset => FlashOpView::Reset,
            FlashOp::ReadId => FlashOpView::ReadId,
            FlashOp::ReadPage(p) => FlashOpView::ReadPage(*p),
            FlashOp::Program(p, c, d) => FlashOpView::Program(*p, *c, d@),
            FlashOp::Erase(b) => FlashOpView::Erase(*b),
            FlashOp::BadBlockCheck(b) => FlashOpView::BadBlockCheck(*b),
        }
    }
}

/// What a status-register reading is checked for once the chip is ready.
#[derive(Clone, Copy)]
pub enum StatusCheck {
    /// Any status is accepted.
    Nothing,
    /// ECC status 10 or 11 (bits 5..4) is an uncorrectable page.
    Ecc,
    /// Bit 3 reports a failed program.
    Program,
    /// Bit 2 reports a failed erase.
    Erase,
}

/// One stage of an operation's script.
pub enum Stage {
    /// Send a transaction whose answer carries no data.
    Send(TransferView),
    /// Poll the status register until the chip is ready, then check it.
    Wait(StatusCheck),
    /// Send a transaction and build the result from the bytes it reads.
    Fetch(TransferView),
}

/// `command` followed by the 24-bit address `0, page >> 8, page & 0xff`.
pub open spec fn page_address(command: u8, page: u16) -> Seq<u8> {
    seq![command, 0u8, (page >> 8u16) as u8, (page & 0xff) as u8]
}

/// The transaction that reads the status register.
pub open spec fn status_poll() -> TransferView {
    TransferView::WriteRead(seq![CMD_GET_FEATURE, REG_STATUS], 1)
}

/// The operation's arguments are in range: blocks exist, and a program
/// writes at least one byte and stays inside the page.
pub open spec fn op_valid(op: FlashOpView) -> bool {
    match op {
        FlashOpView::Program(_, column, data) => 0 < data.len() && column + data.len() <= PAGE_SIZE,
        FlashOpView::Erase(block) => block < BLOCK_COUNT,
        FlashOpView::BadBlockCheck(block) => block < BLOCK_COUNT,
        _ => true,
    }
}

/// The SPI script of each operation.
pub open spec fn script(op: FlashOpView) -> Seq<Stage> {
    match op {
        FlashOpView::Reset => seq![Stage::Send(TransferView::Write(seq![CMD_RESET])), Stage::Wait(StatusCheck::Nothing)],
        FlashOpView::ReadId => seq![Stage::Fetch(TransferView::WriteRead(seq![CMD_READ_ID], 4))],
        FlashOpView::ReadPage(page) => seq![
            Stage::Send(TransferView::Write(page_address(CMD_PAGE_READ, page))),
            Stage::Wait(StatusCheck::Ecc),
            Stage::Fetch(TransferView::WriteRead(seq![CMD_READ_CACHE, 0u8, 0u8, 0u8], PAGE_SIZE as nat)),
        ],
        FlashOpView::Program(page, column, data) => seq![
            Stage::Send(TransferView::Write(seq![CMD_WRITE_ENABLE])),
            Stage::Send(TransferView::WriteWrite(
                seq![CMD_PROGRAM_LOAD, (column >> 8u16) as u8, (column & 0xff) as u8], data)),
            Stage::Send(TransferView::Write(seq![CMD_WRITE_ENABLE])),
            Stage::Send(TransferView::Write(page_address(CMD_PROGRAM_EXECUTE, page))),
            Stage::Wait(StatusCheck::Program),
        ],
        FlashOpView::Erase(block) => seq![
            Stage::Send(TransferView::Write(seq![CMD_WRITE_ENABLE])),
            Stage::Send(TransferView::Write(page_address(CMD_BLOCK_ERASE, (block * PAGES_PER_BLOCK) as u16))),
            Stage::Wait(StatusCheck::Erase),
        ],
        FlashOpView::BadBlockCheck(block) => seq![
            Stage::Send(TransferView::Write(page_address(CMD_PAGE_READ, (block * PAGES_PER_BLOCK) as u16))),
            Stage::Wait(StatusCheck::Nothing),
            Stage::Fetch(TransferView::WriteRead(seq![CMD_READ_CACHE, 0x08u8, 0x00u8, 0u8], 1)),
        ],
    }
}


/// The result of a completed flash operation.
#[derive(Debug)]
pub enum FlashOutput {
    /// The operation has no data to return.
    Completed,
    /// Manufacturer, memory type and capacity (EF AA 21 for a W25N01GV).
    Id([u8; 3]),
    /// One 2 KiB data page (the spare area is never returned).
    Page(Vec<u8>),
    /// Whether the block carries a factory bad-block mark.
    BadBlock(bool),
}

pub enum OutputView {
    Completed,
    Id(Seq<u8>),
    Page(Seq<u8>),
    BadBlock(bool),
}

impl View for FlashOutput {
    type V = OutputView;

    open spec fn view(&self) -> OutputView {
        match self {
            FlashOutput::Completed => OutputView::Completed,
            FlashOutput::Id(id) => OutputView::Id(id@),
            FlashOutput::Page(p) => OutputView::Page(p@),
            FlashOutput::BadBlock(b) => OutputView::BadBlock(*b),
        }
    }
}

/// What the driver asks for next: a transaction, or nothing more because
/// the operation has finished.
#[derive(Debug)]
pub enum FlashStep<E> {
    Transfer(SpiTransfer),
    Finished(Result<FlashOutput, Error<E>>),
}

pub enum FlashStepView<E> {
    Transfer(TransferView),
    Finished(Result<OutputView, Error<E>>),
}

impl<E> FlashStep<E> {
    pub open spec fn view(&self) -> FlashStepView<E> {
        match self {
            FlashStep::Transfer(t) => FlashStepView::Transfer(t@),
            FlashStep::Finished(Ok(o)) => FlashStepView::Finished(Ok(o@)),
            FlashStep::Finished(Err(e)) => FlashStepView::Finished(Err(*e)),
        }
    }
}

/// The error a ready status reports for the given check, if any.
pub open spec fn status_failure<E>(check: StatusCheck, status: u8) -> Option<Error<E>> {
    match check {
        StatusCheck::Nothing => None,
        StatusCheck::Ecc => if status & 0x30 >= 0x20 { Some(Error::EccUncorrectable) } else { None },
        StatusCheck::Program => if status & 0x08 != 0 { Some(Error::ProgramFailed) } else { None },
        StatusCheck::Erase => if status & 0x04 != 0 { Some(Error::EraseFailed) } else { None },
    }
}

/// The result an operation builds from the bytes its final transaction read.
pub open spec fn fetched_output(op: FlashOpView, data: Seq<u8>) -> OutputView {
    match op {
        FlashOpView::ReadId => OutputView::Id(data.subrange(1, 4)),
        FlashOpView::ReadPage(_) => OutputView::Page(data),
        FlashOpView::BadBlockCheck(_) => OutputView::BadBlock(data[0] != 0xff),
        _ => OutputView::Completed,
    }
}

/// The driver's state: the operation in progress (if any), its current
/// stage, and how many status polls the current wait has issued.
pub struct DriverView {
    pub op: Option<FlashOpView>,
    pub stage: nat,
    pub polls: nat,
}

pub open spec fn idle() -> DriverView {
    DriverView { op: None, stage: 0, polls: 0 }
}

/// The state after entering stage `i` of `op`'s script.
pub open spec fn entered(op: FlashOpView, i: nat) -> DriverView {
    if i >= script(op).len() {
        idle()
    } else {
        DriverView { op: Some(op), stage: i, polls: if script(op)[i as int] is Wait { 1 } else { 0 } }
    }
}

/// The step issued on entering stage `i` of `op`'s script; past the last
/// stage the operation has completed.
pub open spec fn entry_step<E>(op: FlashOpView, i: nat) -> FlashStepView<E> {
    if i >= script(op).len() {
        FlashStepView::Finished(Ok(OutputView::Completed))
    } else {
        match script(op)[i as int] {
            Stage::Send(t) => FlashStepView::Transfer(t),
            Stage::Wait(_) => FlashStepView::Transfer(status_poll()),
            Stage::Fetch(t) => FlashStepView::Transfer(t),
        }
    }
}

/// How many bytes the transaction that the driver waits on reads.
pub open spec fn expected_read_len(s: DriverView) -> nat {
    match s.op {
        None => 0,
        Some(op) => if s.stage < script(op).len() {
            match script(op)[s.stage as int] {
                Stage::Send(_) => 0,
                Stage::Wait(_) => 1,
                Stage::Fetch(TransferView::WriteRead(_, n)) => n,
                Stage::Fetch(_) => 0,
            }
        } else {
            0
        },
    }
}

/// One transition of the driver: the device answered `reply` to the
/// transaction of the current stage.
pub open spec fn next<E>(s: DriverView, reply: Result<Seq<u8>, E>) -> (DriverView, FlashStepView<E>)
    recommends
        s.op is Some,
        s.stage < script(s.op->0).len(),
{
    let op = s.op->0;
    match reply {
        Err(e) => (idle(), FlashStepView::Finished(Err(Error::Spi(e)))),
        Ok(v) => match script(op)[s.stage as int] {
            Stage::Send(_) => (entered(op, s.stage + 1), entry_step(op, s.stage + 1)),
            Stage::Wait(check) => {
                let status = v[0];
                if status & 1 == 0 {
                    match status_failure::<E>(check, status) {
                        Some(err) => (idle(), FlashStepView::Finished(Err(err))),
                        None => (entered(op, s.stage + 1), entry_step(op, s.stage + 1)),
                    }
                } else if s.polls < READY_POLL_LIMIT {
                    (DriverView { op: Some(op), stage: s.stage, polls: s.polls + 1 }, FlashStepView::Transfer(status_poll()))
                } else {
                    (idle(), FlashStepView::Finished(Err(Error::Timeout)))
                }
            },
            Stage::Fetch(_) => (idle(), FlashStepView::Finished(Ok(fetched_output(op, v)))),
        },
    }
}


/// A stage of the script, as the driver executes it.
enum StageExec {
    Send(SpiTransfer),
    Wait(StatusCheck),
    Fetch(SpiTransfer),
}

spec fn stage_exec_view(s: StageExec) -> Stage {
    match s {
        StageExec::Send(t) => Stage::Send(t@),
        StageExec::Wait(c) => Stage::Wait(c),
        StageExec::Fetch(t) => Stage::Fetch(t@),
    }
}

/// `command` followed by the 24-bit page address.
fn page_command(command: u8, page: u16) -> (bytes: Vec<u8>)
    ensures
        bytes@ == page_address(command, page),
{
    let bytes = vec![command, 0, (page >> 8) as u8, (page & 0xff) as u8];
    assert(bytes@ =~= page_address(command, page));
    bytes
}

/// A one-byte command.
fn command_byte(command: u8) -> (bytes: Vec<u8>)
    ensures
        bytes@ == seq![command],
{
    let bytes = vec![command];
    assert(bytes@ =~= seq![command]);
    bytes
}

/// The GET FEATURE transaction that reads register `address`.
fn feature(address: u8) -> (t: SpiTransfer)
    ensures
        t@ == TransferView::WriteRead(seq![CMD_GET_FEATURE, address], 1),
{
    let command = vec![CMD_GET_FEATURE, address];
    assert(command@ =~= seq![CMD_GET_FEATURE, address]);
    SpiTransfer::WriteRead(command, 1)
}

/// The READ CACHE transaction reading `len` bytes from `column`.
fn read_cache(column: u16, len: usize) -> (t: SpiTransfer)
    ensures
        t@ == TransferView::WriteRead(seq![CMD_READ_CACHE, (column >> 8u16) as u8, (column & 0xff) as u8, 0u8], len as nat),
{
    let command = vec![CMD_READ_CACHE, (column >> 8) as u8, (column & 0xff) as u8, 0];
    assert(command@ =~= seq![CMD_READ_CACHE, (column >> 8u16) as u8, (column & 0xff) as u8, 0u8]);
    SpiTransfer::WriteRead(command, len)
}

fn stage_at(op: &FlashOp, i: usize) -> (stage: StageExec)
    requires
        op_valid(op@),
        i < script(op@).len(),
    ensures
        stage_exec_view(stage) == script(op@)[i as int],
{
    let stage = match op {
        FlashOp::Reset => {
            if i == 0 {
                StageExec::Send(SpiTransfer::Write(command_byte(CMD_RESET)))
            } else {
                StageExec::Wait(StatusCheck::Nothing)
            }
        },
        FlashOp::ReadId => StageExec::Fetch(SpiTransfer::WriteRead(command_byte(CMD_READ_ID), 4)),
        FlashOp::ReadPage(page) => {
            if i == 0 {
                StageExec::Send(SpiTransfer::Write(page_command(CMD_PAGE_READ, *page)))
            } else if i == 1 {
                StageExec::Wait(StatusCheck::Ecc)
            } else {
                StageExec::Fetch(read_cache(0, PAGE_SIZE))
            }
        },
        FlashOp::Program(page, column, data) => {
            if i == 0 || i == 2 {
                StageExec::Send(SpiTransfer::Write(command_byte(CMD_WRITE_ENABLE)))
            } else if i == 1 {
                let command = vec![CMD_PROGRAM_LOAD, (*column >> 8) as u8, (*column & 0xff) as u8];
                assert(command@ =~= seq![CMD_PROGRAM_LOAD, (*column >> 8u16) as u8, (*column & 0xff) as u8]);
                let payload = data.clone();
                assert(payload@ =~= data@);
                StageExec::Send(SpiTransfer::WriteWrite(command, payload))
            } else if i == 3 {
                StageExec::Send(SpiTransfer::Write(page_command(CMD_PROGRAM_EXECUTE, *page)))
            } else {
                StageExec::Wait(StatusCheck::Program)
            }
        },
        FlashOp::Erase(block) => {
            if i == 0 {
                StageExec::Send(SpiTransfer::Write(command_byte(CMD_WRITE_ENABLE)))
            } else if i == 1 {
                StageExec::Send(SpiTransfer::Write(page_command(CMD_BLOCK_ERASE, *block * PAGES_PER_BLOCK)))
            } else {
                StageExec::Wait(StatusCheck::Erase)
            }
        },
        FlashOp::BadBlockCheck(block) => {
            if i == 0 {
                StageExec::Send(SpiTransfer::Write(page_command(CMD_PAGE_READ, *block * PAGES_PER_BLOCK)))
            } else if i == 1 {
                StageExec::Wait(StatusCheck::Nothing)
            } else {
                StageExec::Fetch(read_cache(PAGE_SIZE as u16, 1))
            }
        },
    };
    proof {
        let sc = script(op@);
        assert((0u16 >> 8u16) as u8 == 0u8 && (0u16 & 0xff) as u8 == 0u8) by (bit_vector);
        assert((2048u16 >> 8u16) as u8 == 8u8 && (2048u16 & 0xff) as u8 == 0u8) by (bit_vector);
        match op@ {
            FlashOpView::Reset => {
                if i == 0 { assert(stage_exec_view(stage) == sc[0]); } else { assert(stage_exec_view(stage) == sc[1]); }
            },
            FlashOpView::ReadId => { assert(stage_exec_view(stage) == sc[0]); },
            FlashOpView::ReadPage(_) => {
                if i == 0 { assert(stage_exec_view(stage) == sc[0]); }
                else if i == 1 { assert(stage_exec_view(stage) == sc[1]); }
                else { assert(stage_exec_view(stage) == sc[2]); }
            },
            FlashOpView::Program(_, _, _) => {
                if i == 0 { assert(stage_exec_view(stage) == sc[0]); }
                else if i == 1 { assert(stage_exec_view(stage) == sc[1]); }
                else if i == 2 { assert(stage_exec_view(stage) == sc[2]); }
                else if i == 3 { assert(stage_exec_view(stage) == sc[3]); }
                else { assert(stage_exec_view(stage) == sc[4]); }
            },
            FlashOpView::Erase(_) => {
                if i == 0 { assert(stage_exec_view(stage) == sc[0]); }
                else if i == 1 { assert(stage_exec_view(stage) == sc[1]); }
                else { assert(stage_exec_view(stage) == sc[2]); }
            },
            FlashOpView::BadBlockCheck(_) => {
                if i == 0 { assert(stage_exec_view(stage) == sc[0]); }
                else if i == 1 { assert(stage_exec_view(stage) == sc[1]); }
                else { assert(stage_exec_view(stage) == sc[2]); }
            },
        }
    }
    stage
}


/// The driver state after `k` consecutive busy status readings.
pub open spec fn after_busy<E>(s: DriverView, k: nat) -> DriverView
    decreases k,
{
    if k == 0 {
        s
    } else {
        next::<E>(after_busy::<E>(s, (k - 1) as nat), Ok(seq![1u8])).0
    }
}

/// A wait for the chip keeps polling while the chip reports busy, up to
/// 10000 polls in all, and then gives up with `Timeout`.
pub proof fn lemma_wait_gives_up<E>(op: FlashOpView, stage: nat, polls: nat)
    requires
        stage < script(op).len(),
        script(op)[stage as int] is Wait,
        1 <= polls <= READY_POLL_LIMIT,
    ensures
        forall|k: nat| k <= READY_POLL_LIMIT - polls ==> #[trigger] after_busy::<E>(
            DriverView { op: Some(op), stage, polls },
            k,
        ) == (DriverView { op: Some(op), stage, polls: polls + k }),
        next::<E>(
            after_busy::<E>(DriverView { op: Some(op), stage, polls }, (READY_POLL_LIMIT - polls) as nat),
            Ok(seq![1u8]),
        ) == (idle(), FlashStepView::<E>::Finished(Err(Error::Timeout))),
{
    let s0 = DriverView { op: Some(op), stage, polls };
    assert forall|k: nat| k <= READY_POLL_LIMIT - polls implies #[trigger] after_busy::<E>(s0, k) == (DriverView {
        op: Some(op),
        stage,
        polls: polls + k,
    }) by {
        lemma_after_busy::<E>(op, stage, polls, k);
    }
    lemma_after_busy::<E>(op, stage, polls, (READY_POLL_LIMIT - polls) as nat);
    assert((1u8 & 1) != 0) by (bit_vector);
}

proof fn lemma_after_busy<E>(op: FlashOpView, stage: nat, polls: nat, k: nat)
    requires
        stage < script(op).len(),
        script(op)[stage as int] is Wait,
        1 <= polls,
        polls + k <= READY_POLL_LIMIT,
    ensures
        after_busy::<E>(DriverView { op: Some(op), stage, polls }, k) == (DriverView { op: Some(op), stage, polls: polls + k }),
    decreases k,
{
    if k > 0 {
        lemma_after_busy::<E>(op, stage, polls, (k - 1) as nat);
        assert((1u8 & 1) != 0) by (bit_vector);
    }
}

/// Checks that `page` addresses an existing page. Every `u16` does, as the
/// chip has exactly 65536 pages.
pub fn validate_page<E>(page: u16) -> (result: Result<(), Error<E>>)
    ensures
        result is Ok,
{
    assert(BLOCK_COUNT as usize * PAGES_PER_BLOCK as usize == 65536) by (nonlinear_arith);
    if page as usize >= BLOCK_COUNT as usize * PAGES_PER_BLOCK as usize {
        Err(Error::InvalidPage)
    } else {
        Ok(())
    }
}

/// The operation a request starts, when its arguments are accepted.
pub open spec fn request_op(request: RequestView) -> FlashOpView {
    match request {
        RequestView::Reset => FlashOpView::Reset,
        RequestView::ReadId => FlashOpView::ReadId,
        RequestView::ReadPage(p) => FlashOpView::ReadPage(p),
        RequestView::ProgramPageAt(p, c, d) => FlashOpView::Program(p, c, d),
        RequestView::EraseBlock(b) => FlashOpView::Erase(b),
        RequestView::IsBadBlock(b) => FlashOpView::BadBlockCheck(b),
    }
}

/// The error with which a request is refused before any transaction, if
/// its arguments are out of range.
pub open spec fn request_refusal<E>(request: RequestView) -> Option<Error<E>> {
    match request {
        RequestView::ProgramPageAt(_, c, d) => if 0 < d.len() && c + d.len() <= PAGE_SIZE { None } else { Some(Error::InvalidPage) },
        RequestView::EraseBlock(b) => if b < BLOCK_COUNT { None } else { Some(Error::InvalidBlock) },
        RequestView::IsBadBlock(b) => if b < BLOCK_COUNT { None } else { Some(Error::InvalidBlock) },
        _ => None,
    }
}

proof fn lemma_address_bytes(x: u16)
    by (bit_vector)
    ensures
        (x >> 8u16) as u8 == (x / 256) as u8,
        (x & 0xff) as u8 == (x % 256) as u8,
{
}

/// The transactions each request sends, in order, are the W25N01GV
/// datasheet's: RESET (FFh) then a status wait; JEDEC ID (9Fh) reading a
/// dummy byte and the three ID bytes; PAGE DATA READ (13h) with the page
/// address, a wait that checks ECC, then READ (03h) of the 2048 data
/// bytes from column 0; WRITE ENABLE (06h), PROGRAM DATA LOAD (02h) at the
/// column, WRITE ENABLE again, PROGRAM EXECUTE (10h) at the page and a
/// wait that checks for a program failure; WRITE ENABLE and BLOCK ERASE
/// (D8h) at the block's first page, then a wait that checks for an erase
/// failure; and for the bad-block check, PAGE DATA READ of the block's
/// first page, a wait, then READ of the first spare byte (column 800h).
/// Status waits read status register C0h with GET FEATURE (0Fh).
pub proof fn lemma_datasheet_commands(page: u16, column: u16, data: Seq<u8>, block: u16)
    requires
        block < 1024,
    ensures
        script(request_op(RequestView::Reset)) == seq![
            Stage::Send(TransferView::Write(seq![0xffu8])),
            Stage::Wait(StatusCheck::Nothing),
        ],
        script(request_op(RequestView::ReadId)) == seq![Stage::Fetch(TransferView::WriteRead(seq![0x9fu8], 4))],
        script(request_op(RequestView::ReadPage(page))) == seq![
            Stage::Send(TransferView::Write(seq![0x13u8, 0u8, (page / 256) as u8, (page % 256) as u8])),
            Stage::Wait(StatusCheck::Ecc),
            Stage::Fetch(TransferView::WriteRead(seq![0x03u8, 0u8, 0u8, 0u8], 2048)),
        ],
        script(request_op(RequestView::ProgramPageAt(page, column, data))) == seq![
            Stage::Send(TransferView::Write(seq![0x06u8])),
            Stage::Send(TransferView::WriteWrite(seq![0x02u8, (column / 256) as u8, (column % 256) as u8], data)),
            Stage::Send(TransferView::Write(seq![0x06u8])),
            Stage::Send(TransferView::Write(seq![0x10u8, 0u8, (page / 256) as u8, (page % 256) as u8])),
            Stage::Wait(StatusCheck::Program),
        ],
        script(request_op(RequestView::EraseBlock(block))) == seq![
            Stage::Send(TransferView::Write(seq![0x06u8])),
            Stage::Send(TransferView::Write(seq![0xd8u8, 0u8, ((block * 64) / 256) as u8, ((block * 64) % 256) as u8])),
            Stage::Wait(StatusCheck::Erase),
        ],
        script(request_op(RequestView::IsBadBlock(block))) == seq![
            Stage::Send(TransferView::Write(seq![0x13u8, 0u8, ((block * 64) / 256) as u8, ((block * 64) % 256) as u8])),
            Stage::Wait(StatusCheck::Nothing),
            Stage::Fetch(TransferView::WriteRead(seq![0x03u8, 0x08u8, 0x00u8, 0x00u8], 1)),
        ],
        status_poll() == TransferView::WriteRead(seq![0x0fu8, 0xc0u8], 1),
{
    lemma_address_bytes(page);
    lemma_address_bytes(column);
    let first = (block * PAGES_PER_BLOCK) as u16;
    assert(block * 64 < 65536) by (nonlinear_arith)
        requires
            block < 1024,
    ;
    assert(first == block * 64);
    lemma_address_bytes(first);
    assert(page_address(CMD_PAGE_READ, page) =~= seq![0x13u8, 0u8, (page / 256) as u8, (page % 256) as u8]);
    assert(page_address(CMD_PROGRAM_EXECUTE, page) =~= seq![0x10u8, 0u8, (page / 256) as u8, (page % 256) as u8]);
    assert(page_address(CMD_BLOCK_ERASE, first) =~= seq![0xd8u8, 0u8, ((block * 64) / 256) as u8, ((block * 64) % 256) as u8]);
    assert(page_address(CMD_PAGE_READ, first) =~= seq![0x13u8, 0u8, ((block * 64) / 256) as u8, ((block * 64) % 256) as u8]);
    assert(seq![CMD_PROGRAM_LOAD, (column >> 8u16) as u8, (column & 0xff) as u8] =~= seq![0x02u8, (column / 256) as u8, (column % 256) as u8]);
}

/// Starting `request` from driver state `s`: refused requests leave the
/// state alone; accepted ones enter the first stage of their script.
pub open spec fn start_outcome<E>(s: DriverView, request: RequestView) -> (DriverView, FlashStepView<E>) {
    match request_refusal::<E>(request) {
        Some(err) => (s, FlashStepView::Finished(Err(err))),
        None => (entered(request_op(request), 0), entry_step::<E>(request_op(request), 0)),
    }
}

/// The device's answer as a mathematical value.
pub open spec fn reply_view<E>(reply: Result<Vec<u8>, E>) -> Result<Seq<u8>, E> {
    match reply {
        Ok(v) => Ok(v@),
        Err(e) => Err(e),
    }
}

fn status_error<E>(check: StatusCheck, status: u8) -> (err: Option<Error<E>>)
    ensures
        err == status_failure::<E>(check, status),
{
    match check {
        StatusCheck::Nothing => None,
        StatusCheck::Ecc => if status & 0x30 >= 0x20 { Some(Error::EccUncorrectable) } else { None },
        StatusCheck::Program => if status & 0x08 != 0 { Some(Error::ProgramFailed) } else { None },
        StatusCheck::Erase => if status & 0x04 != 0 { Some(Error::EraseFailed) } else { None },
    }
}

fn script_len(op: &FlashOp) -> (n: usize)
    ensures
        n == script(op@).len(),
{
    match op {
        FlashOp::Reset => 2,
        FlashOp::ReadId => 1,
        FlashOp::ReadPage(_) => 3,
        FlashOp::Program(_, _, _) => 5,
        FlashOp::Erase(_) => 3,
        FlashOp::BadBlockCheck(_) => 3,
    }
}

fn output_of(op: &FlashOp, data: Vec<u8>) -> (out: FlashOutput)
    requires
        op@ is ReadId ==> data@.len() >= 4,
        op@ is BadBlockCheck ==> data@.len() >= 1,
    ensures
        out@ == fetched_output(op@, data@),
{
    match op {
        FlashOp::ReadId => {
            let id = [data[1], data[2], data[3]];
            assert(id@ =~= data@.subrange(1, 4));
            FlashOutput::Id(id)
        },
        FlashOp::ReadPage(_) => FlashOutput::Page(data),
        FlashOp::BadBlockCheck(_) => FlashOutput::BadBlock(data[0] != 0xff),
        _ => FlashOutput::Completed,
    }
}

/// A minimal, synchronous W25N01GV driver. It deliberately exposes NAND's
/// page/block geometry instead of pretending that this chip is a NOR
/// flash.
///
/// Each operation is started by one of the methods named after it, which
/// returns the first transaction to perform (or the result, when the
/// arguments are rejected); [`W25N01GV::resume`] takes the device's answer
/// to each transaction and returns the next step, until the operation has
/// finished.
pub struct W25N01GV {
    op: Option<FlashOp>,
    stage: usize,
    polls: u32,
}

impl View for W25N01GV {
    type V = DriverView;

    closed spec fn view(&self) -> DriverView {
        DriverView {
            op: match self.op {
                Some(op) => Some(op@),
                None => None,
            },
            stage: self.stage as nat,
            polls: self.polls as nat,
        }
    }
}

impl W25N01GV {
    /// The driver's invariant: an operation in progress has valid
    /// arguments, stands at an existing stage, and a wait has issued
    /// between 1 and 10000 polls.
    pub closed spec fn wf(&self) -> bool {
        match self.op {
            None => true,
            Some(op) => {
                &&& op_valid(op@)
                &&& self.stage < script(op@).len()
                &&& (script(op@)[self.stage as int] is Wait ==> 1 <= self.polls <= READY_POLL_LIMIT)
                &&& (!(script(op@)[self.stage as int] is Wait) ==> self.polls == 0)
            },
        }
    }

    pub fn new() -> (flash: Self)
        ensures
            flash.wf(),
            flash@ == idle(),
    {
        W25N01GV { op: None, stage: 0, polls: 0 }
    }

    /// Starts `op` at the first stage of its script.
    fn begin<E>(&mut self, op: FlashOp) -> (step: FlashStep<E>)
        requires
            op_valid(op@),
        ensures
            final(self).wf(),
            final(self)@ == entered(op@, 0),
            step.view() == entry_step::<E>(op@, 0),
    {
        let first = stage_at(&op, 0);
        let ghost opv = op@;
        let (step, polls) = match first {
            StageExec::Send(t) => (FlashStep::Transfer(t), 0u32),
            StageExec::Fetch(t) => (FlashStep::Transfer(t), 0u32),
            StageExec::Wait(_) => (FlashStep::Transfer(feature(REG_STATUS)), 1u32),
        };
        self.op = Some(op);
        self.stage = 0;
        self.polls = polls;
        assert(self@.op == Some(opv));
        step
    }

    /// Moves `op` on to the stage after `stage`.
    fn advance<E>(&mut self, op: FlashOp, stage: usize) -> (step: FlashStep<E>)
        requires
            op_valid(op@),
            stage < script(op@).len(),
        ensures
            final(self).wf(),
            final(self)@ == entered(op@, (stage + 1) as nat),
            step.view() == entry_step::<E>(op@, (stage + 1) as nat),
    {
        let next_stage = stage + 1;
        if next_stage >= script_len(&op) {
            self.op = None;
            self.stage = 0;
            self.polls = 0;
            return FlashStep::Finished(Ok(FlashOutput::Completed));
        }
        let ghost opv = op@;
        let (step, polls) = match stage_at(&op, next_stage) {
            StageExec::Send(t) => (FlashStep::Transfer(t), 0u32),
            StageExec::Fetch(t) => (FlashStep::Transfer(t), 0u32),
            StageExec::Wait(_) => (FlashStep::Transfer(feature(REG_STATUS)), 1u32),
        };
        self.op = Some(op);
        self.stage = next_stage;
        self.polls = polls;
        assert(self@.op == Some(opv));
        step
    }

    /// Takes the device's answer to the transaction of the current stage
    /// (the bytes it read, empty for a write, or the SPI error) and returns
    /// the next step of the operation.
    pub fn resume<E>(&mut self, reply: Result<Vec<u8>, E>) -> (step: FlashStep<E>)
        requires
            old(self).wf(),
            old(self)@.op is Some,
            reply matches Ok(v) ==> v@.len() == expected_read_len(old(self)@),
        ensures
            final(self).wf(),
            (final(self)@, step.view()) == next::<E>(old(self)@, reply_view(reply)),
    {
        let ghost old_view = self@;
        let op = self.op.take().unwrap();
        let stage = self.stage;
        let polls = self.polls;
        let current = stage_at(&op, stage);
        match reply {
            Err(e) => {
                self.op = None;
                self.stage = 0;
                self.polls = 0;
                FlashStep::Finished(Err(Error::Spi(e)))
            },
            Ok(v) => match current {
                StageExec::Send(_) => self.advance(op, stage),
                StageExec::Wait(check) => {
                    let status = v[0];
                    if status & 1 == 0 {
                        match status_error::<E>(check, status) {
                            Some(err) => {
                                self.op = None;
                                self.stage = 0;
                                self.polls = 0;
                                FlashStep::Finished(Err(err))
                            },
                            None => self.advance(op, stage),
                        }
                    } else if polls < READY_POLL_LIMIT {
                        self.op = Some(op);
                        self.stage = stage;
                        self.polls = polls + 1;
                        FlashStep::Transfer(feature(REG_STATUS))
                    } else {
                        self.op = None;
                        self.stage = 0;
                        self.polls = 0;
                        FlashStep::Finished(Err(Error::Timeout))
                    }
                },
                StageExec::Fetch(_) => {
                    let out = output_of(&op, v);
                    self.op = None;
                    self.stage = 0;
                    self.polls = 0;
                    FlashStep::Finished(Ok(out))
                },
            },
        }
    }

    /// Starts the operation `request` names, as the method of the same
    /// name does.
    pub fn start<E>(&mut self, request: FlashRequest) -> (step: FlashStep<E>)
        requires
            old(self).wf(),
        ensures
            final(self).wf(),
            (final(self)@, step.view()) == start_outcome::<E>(old(self)@, request@),
    {
        match request {
            FlashRequest::Reset => self.reset(),
            FlashRequest::ReadId => self.read_id(),
            FlashRequest::ReadPage(page) => self.read_page(page),
            FlashRequest::ProgramPageAt(page, column, data) => self.program_page_at(page, column, data.as_slice()),
            FlashRequest::EraseBlock(block) => self.erase_block(block),
            FlashRequest::IsBadBlock(block) => self.is_bad_block(block),
        }
    }

    /// Resets the chip and waits until it is ready.
    pub fn reset<E>(&mut self) -> (step: FlashStep<E>)
        requires
            old(self).wf(),
        ensures
            final(self).wf(),
            final(self)@ == entered(FlashOpView::Reset, 0),
            step.view() == entry_step::<E>(FlashOpView::Reset, 0),
    {
        self.begin(FlashOp::Reset)
    }

    /// Reads the three JEDEC bytes. A W25N01GV normally reports EF AA 21;
    /// the device sends a dummy byte before them.
    pub fn read_id<E>(&mut self) -> (step: FlashStep<E>)
        requires
            old(self).wf(),
        ensures
            final(self).wf(),
            final(self)@ == entered(FlashOpView::ReadId, 0),
            step.view() == entry_step::<E>(FlashOpView::ReadId, 0),
    {
        self.begin(FlashOp::ReadId)
    }

    /// Reads exactly one 2 KiB data page. The 64-byte spare area is not
    /// returned, which keeps application data away from bad-block marks.
    pub fn read_page<E>(&mut self, page: u16) -> (step: FlashStep<E>)
        requires
            old(self).wf(),
        ensures
            final(self).wf(),
            final(self)@ == entered(FlashOpView::ReadPage(page), 0),
            step.view() == entry_step::<E>(FlashOpView::ReadPage(page), 0),
    {
        let _ = validate_page::<E>(page);
        self.begin(FlashOp::ReadPage(page))
    }

    /// Programs `data` at column 0 of an erased page.
    pub fn program_page<E>(&mut self, page: u16, data: &[u8]) -> (step: FlashStep<E>)
        requires
            old(self).wf(),
        ensures
            final(self).wf(),
            0 < data@.len() <= PAGE_SIZE ==> final(self)@ == entered(FlashOpView::Program(page, 0, data@), 0)
                && step.view() == entry_step::<E>(FlashOpView::Program(page, 0, data@), 0),
            !(0 < data@.len() <= PAGE_SIZE) ==> final(self)@ == old(self)@
                && step.view() == FlashStepView::<E>::Finished(Err(Error::InvalidPage)),
    {
        self.program_page_at(page, 0, data)
    }

    /// Programs `data` at `column` of an erased page. Each physical page
    /// accepts at most four program executions between erases; callers
    /// must account for that limit.
    pub fn program_page_at<E>(&mut self, page: u16, column: u16, data: &[u8]) -> (step: FlashStep<E>)
        requires
            old(self).wf(),
        ensures
            final(self).wf(),
            0 < data@.len() && column + data@.len() <= PAGE_SIZE ==>
                final(self)@ == entered(FlashOpView::Program(page, column, data@), 0)
                && step.view() == entry_step::<E>(FlashOpView::Program(page, column, data@), 0),
            !(0 < data@.len() && column + data@.len() <= PAGE_SIZE) ==> final(self)@ == old(self)@
                && step.view() == FlashStepView::<E>::Finished(Err(Error::InvalidPage)),
    {
        let _ = validate_page::<E>(page);
        if data.len() == 0 || column as usize > PAGE_SIZE || data.len() > PAGE_SIZE - column as usize {
            return FlashStep::Finished(Err(Error::InvalidPage));
        }
        let owned = vstd::slice::slice_to_vec(data);
        self.begin(FlashOp::Program(page, column, owned))
    }

    /// Erases one 128 KiB block, destroying all 64 of its pages.
    pub fn erase_block<E>(&mut self, block: u16) -> (step: FlashStep<E>)
        requires
            old(self).wf(),
        ensures
            final(self).wf(),
            block < BLOCK_COUNT ==> final(self)@ == entered(FlashOpView::Erase(block), 0)
                && step.view() == entry_step::<E>(FlashOpView::Erase(block), 0),
            block >= BLOCK_COUNT ==> final(self)@ == old(self)@
                && step.view() == FlashStepView::<E>::Finished(Err(Error::InvalidBlock)),
    {
        if block >= BLOCK_COUNT {
            return FlashStep::Finished(Err(Error::InvalidBlock));
        }
        self.begin(FlashOp::Erase(block))
    }

    /// Checks the factory bad-block marker, the first spare byte of the
    /// block's first page. The page's ECC status is deliberately ignored:
    /// an erased first page need not have meaningful ECC parity.
    pub fn is_bad_block<E>(&mut self, block: u16) -> (step: FlashStep<E>)
        requires
            old(self).wf(),
        ensures
            final(self).wf(),
            block < BLOCK_COUNT ==> final(self)@ == entered(FlashOpView::BadBlockCheck(block), 0)
                && step.view() == entry_step::<E>(FlashOpView::BadBlockCheck(block), 0),
            block >= BLOCK_COUNT ==> final(self)@ == old(self)@
                && step.view() == FlashStepView::<E>::Finished(Err(Error::InvalidBlock)),
    {
        if block >= BLOCK_COUNT {
            return FlashStep::Finished(Err(Error::InvalidBlock));
        }
        self.begin(FlashOp::BadBlockCheck(block))
    }
}

} // verus!
