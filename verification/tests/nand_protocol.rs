//! The W25N01GV driver's transaction scripts and its reading of status.

use light_robot_core::nand::{Error, FlashOutput, FlashStep, SpiTransfer, W25N01GV};

type Step = FlashStep<&'static str>;

fn transfer(step: Step) -> SpiTransfer {
    match step {
        FlashStep::Transfer(t) => t,
        FlashStep::Finished(r) => panic!("finished early: {:?}", r),
    }
}

fn is_status_poll(t: &SpiTransfer) -> bool {
    matches!(t, SpiTransfer::WriteRead(c, 1) if c == &vec![0x0f, 0xc0])
}

#[test]
fn program_sends_enable_load_enable_execute_then_polls() {
    let mut flash = W25N01GV::new();
    let t = transfer(flash.program_page_at::<&str>(0x1234, 0x0200, &[1, 2, 3]));
    assert!(matches!(t, SpiTransfer::Write(ref b) if b == &vec![0x06]));
    let t = transfer(flash.resume::<&str>(Ok(vec![])));
    assert!(matches!(t, SpiTransfer::WriteWrite(ref c, ref d) if c == &vec![0x02, 0x02, 0x00] && d == &vec![1, 2, 3]));
    let t = transfer(flash.resume::<&str>(Ok(vec![])));
    assert!(matches!(t, SpiTransfer::Write(ref b) if b == &vec![0x06]));
    let t = transfer(flash.resume::<&str>(Ok(vec![])));
    assert!(matches!(t, SpiTransfer::Write(ref b) if b == &vec![0x10, 0x00, 0x12, 0x34]));
    let t = transfer(flash.resume::<&str>(Ok(vec![])));
    assert!(is_status_poll(&t));
    let t = transfer(flash.resume::<&str>(Ok(vec![0x01])));
    assert!(is_status_poll(&t));
    let done = flash.resume::<&str>(Ok(vec![0x00]));
    assert!(matches!(done, FlashStep::Finished(Ok(FlashOutput::Completed))));
}

#[test]
fn program_failure_bit_is_reported() {
    let mut flash = W25N01GV::new();
    let mut step = flash.program_page::<&str>(5, &[0xaa]);
    for _ in 0..4 {
        transfer(step);
        step = flash.resume::<&str>(Ok(vec![]));
    }
    assert!(is_status_poll(&transfer(step)));
    let done = flash.resume::<&str>(Ok(vec![0x08]));
    assert!(matches!(done, FlashStep::Finished(Err(Error::ProgramFailed))));
}

#[test]
fn program_arguments_are_checked() {
    let mut flash = W25N01GV::new();
    assert!(matches!(flash.program_page_at::<&str>(0, 0, &[]), FlashStep::Finished(Err(Error::InvalidPage))));
    assert!(matches!(flash.program_page_at::<&str>(0, 2047, &[1, 2]), FlashStep::Finished(Err(Error::InvalidPage))));
    assert!(matches!(flash.program_page_at::<&str>(0, 2047, &[1]), FlashStep::Transfer(_)));
    let page = vec![0u8; 2049];
    assert!(matches!(flash.program_page::<&str>(0, &page), FlashStep::Finished(Err(Error::InvalidPage))));
}

#[test]
fn erase_addresses_first_page_of_block() {
    let mut flash = W25N01GV::new();
    transfer(flash.erase_block::<&str>(3));
    let t = transfer(flash.resume::<&str>(Ok(vec![])));
    assert!(matches!(t, SpiTransfer::Write(ref b) if b == &vec![0xd8, 0x00, 0x00, 0xc0]));
    assert!(is_status_poll(&transfer(flash.resume::<&str>(Ok(vec![])))));
    let done = flash.resume::<&str>(Ok(vec![0x04]));
    assert!(matches!(done, FlashStep::Finished(Err(Error::EraseFailed))));
    assert!(matches!(flash.erase_block::<&str>(1024), FlashStep::Finished(Err(Error::InvalidBlock))));
}

#[test]
fn page_read_reports_uncorrectable_ecc() {
    let mut flash = W25N01GV::new();
    let t = transfer(flash.read_page::<&str>(0x0140));
    assert!(matches!(t, SpiTransfer::Write(ref b) if b == &vec![0x13, 0x00, 0x01, 0x40]));
    assert!(is_status_poll(&transfer(flash.resume::<&str>(Ok(vec![])))));
    let done = flash.resume::<&str>(Ok(vec![0x20]));
    assert!(matches!(done, FlashStep::Finished(Err(Error::EccUncorrectable))));
}

#[test]
fn page_read_accepts_corrected_ecc_and_returns_data_only() {
    let mut flash = W25N01GV::new();
    transfer(flash.read_page::<&str>(7));
    transfer(flash.resume::<&str>(Ok(vec![])));
    let t = transfer(flash.resume::<&str>(Ok(vec![0x10])));
    assert!(matches!(t, SpiTransfer::WriteRead(ref c, 2048) if c == &vec![0x03, 0x00, 0x00, 0x00]));
    let done = flash.resume::<&str>(Ok(vec![0x5a; 2048]));
    match done {
        FlashStep::Finished(Ok(FlashOutput::Page(p))) => assert_eq!(p, vec![0x5a; 2048]),
        other => panic!("unexpected {:?}", other),
    }
}

#[test]
fn bad_block_check_reads_first_spare_byte() {
    let mut flash = W25N01GV::new();
    let t = transfer(flash.is_bad_block::<&str>(2));
    assert!(matches!(t, SpiTransfer::Write(ref b) if b == &vec![0x13, 0x00, 0x00, 0x80]));
    transfer(flash.resume::<&str>(Ok(vec![])));
    // An ECC status on the erased page is ignored.
    let t = transfer(flash.resume::<&str>(Ok(vec![0x30])));
    assert!(matches!(t, SpiTransfer::WriteRead(ref c, 1) if c == &vec![0x03, 0x08, 0x00, 0x00]));
    assert!(matches!(flash.resume::<&str>(Ok(vec![0x00])), FlashStep::Finished(Ok(FlashOutput::BadBlock(true)))));
    transfer(flash.is_bad_block::<&str>(2));
    transfer(flash.resume::<&str>(Ok(vec![])));
    transfer(flash.resume::<&str>(Ok(vec![0x00])));
    assert!(matches!(flash.resume::<&str>(Ok(vec![0xff])), FlashStep::Finished(Ok(FlashOutput::BadBlock(false)))));
    assert!(matches!(flash.is_bad_block::<&str>(5000), FlashStep::Finished(Err(Error::InvalidBlock))));
}

#[test]
fn busy_chip_times_out_after_ten_thousand_polls() {
    let mut flash = W25N01GV::new();
    transfer(flash.reset::<&str>());
    let mut step = flash.resume::<&str>(Ok(vec![]));
    let mut polls = 0;
    loop {
        match step {
            FlashStep::Transfer(t) => {
                assert!(is_status_poll(&t));
                polls += 1;
                step = flash.resume::<&str>(Ok(vec![0x01]));
            }
            FlashStep::Finished(result) => {
                assert!(matches!(result, Err(Error::Timeout)));
                break;
            }
        }
    }
    assert_eq!(polls, 10_000);
}

#[test]
fn spi_errors_end_the_operation() {
    let mut flash = W25N01GV::new();
    transfer(flash.read_id::<&str>());
    assert!(matches!(flash.resume::<&str>(Err("bus fault")), FlashStep::Finished(Err(Error::Spi("bus fault")))));
}

#[test]
fn read_id_skips_dummy_byte() {
    let mut flash = W25N01GV::new();
    transfer(flash.read_id::<&str>());
    let done = flash.resume::<&str>(Ok(vec![0x00, 0xef, 0xaa, 0x21]));
    assert!(matches!(done, FlashStep::Finished(Ok(FlashOutput::Id([0xef, 0xaa, 0x21])))));
}
