//! End-to-end runs of the artifact store against a simulated W25N01GV.

use std::collections::HashMap;

use light_robot_core::artifact::{ArtifactStore, StoreStep};
use light_robot_core::nand::{Error, FlashOutput, FlashRequest, FlashStep, SpiTransfer, W25N01GV};
use light_robot_core::scan::StoreEvent;
use light_robot_core::store::{ArtifactError, ArtifactInfo};

const PAGE: usize = 2048;
const SPARE: usize = 64;

/// A simulated W25N01GV: sparse page storage, a cache register, the
/// status register and a count of program executions per page.
struct Chip {
    pages: HashMap<u16, Vec<u8>>,
    cache: Vec<u8>,
    write_enabled: bool,
    busy_polls: u32,
    programs: HashMap<u16, u32>,
    fail_program: bool,
    transfers: Vec<Vec<u8>>,
}

#[derive(Debug, PartialEq)]
struct SpiFault;

impl Chip {
    fn new() -> Self {
        Chip {
            pages: HashMap::new(),
            cache: vec![0xff; PAGE + SPARE],
            write_enabled: false,
            busy_polls: 0,
            programs: HashMap::new(),
            fail_program: false,
            transfers: Vec::new(),
        }
    }

    fn page(&self, page: u16) -> Vec<u8> {
        self.pages.get(&page).cloned().unwrap_or_else(|| vec![0xff; PAGE + SPARE])
    }

    fn mark_bad(&mut self, block: u16) {
        let mut p = self.page(block * 64);
        p[PAGE] = 0x00;
        self.pages.insert(block * 64, p);
    }

    fn perform(&mut self, t: SpiTransfer) -> Result<Vec<u8>, SpiFault> {
        match t {
            SpiTransfer::Write(bytes) => {
                self.transfers.push(bytes.clone());
                match bytes[0] {
                    0x06 => self.write_enabled = true,
                    0xff => self.busy_polls = 2,
                    0x13 => {
                        let page = u16::from_be_bytes([bytes[2], bytes[3]]);
                        self.cache = self.page(page);
                        self.busy_polls = 1;
                    }
                    0x10 => {
                        assert!(self.write_enabled, "program without write enable");
                        let page = u16::from_be_bytes([bytes[2], bytes[3]]);
                        let mut p = self.page(page);
                        for (dst, src) in p.iter_mut().zip(self.cache.iter()) {
                            *dst &= *src;
                        }
                        self.pages.insert(page, p);
                        *self.programs.entry(page).or_insert(0) += 1;
                        self.write_enabled = false;
                        self.busy_polls = 3;
                    }
                    0xd8 => {
                        assert!(self.write_enabled, "erase without write enable");
                        let page = u16::from_be_bytes([bytes[2], bytes[3]]);
                        for p in page..page + 64 {
                            // Erasing keeps factory bad-block marks.
                            let bad = self.page(p)[PAGE] != 0xff && p == page;
                            self.pages.remove(&p);
                            self.programs.remove(&p);
                            if bad {
                                self.mark_bad(page / 64);
                            }
                        }
                        self.write_enabled = false;
                        self.busy_polls = 5;
                    }
                    other => panic!("unexpected command {other:#x}"),
                }
                Ok(Vec::new())
            }
            SpiTransfer::WriteRead(command, len) => {
                self.transfers.push(command.clone());
                match command[0] {
                    0x9f => Ok(vec![0x00, 0xef, 0xaa, 0x21][..len].to_vec()),
                    0x0f => {
                        assert_eq!(command[1], 0xc0);
                        if self.busy_polls > 0 {
                            self.busy_polls -= 1;
                            Ok(vec![0x01])
                        } else if self.fail_program {
                            Ok(vec![0x08])
                        } else {
                            Ok(vec![0x00])
                        }
                    }
                    0x03 => {
                        let column = u16::from_be_bytes([command[1], command[2]]) as usize;
                        Ok(self.cache[column..column + len].to_vec())
                    }
                    other => panic!("unexpected command {other:#x}"),
                }
            }
            SpiTransfer::WriteWrite(command, payload) => {
                self.transfers.push(command.clone());
                assert_eq!(command[0], 0x02);
                let column = u16::from_be_bytes([command[1], command[2]]) as usize;
                self.cache = vec![0xff; PAGE + SPARE];
                self.cache[column..column + payload.len()].copy_from_slice(&payload);
                Ok(Vec::new())
            }
        }
    }
}

fn run_flash(store: &mut ArtifactStore, chip: &mut Chip, request: FlashRequest) -> Result<FlashOutput, Error<SpiFault>> {
    let mut step = store.start_flash(request);
    loop {
        match step {
            FlashStep::Transfer(t) => {
                let reply = chip.perform(t);
                step = store.resume_flash(reply);
            }
            FlashStep::Finished(result) => return result,
        }
    }
}

/// Runs an artifact operation to its end, collecting delivered bytes.
fn drive<T>(
    store: &mut ArtifactStore,
    chip: &mut Chip,
    first: StoreStep<T, SpiFault>,
    delivered: &mut Vec<u8>,
    mut resume: impl FnMut(StoreEvent<SpiFault>) -> StoreStep<T, SpiFault>,
) -> Result<T, ArtifactError<SpiFault>> {
    let mut step = first;
    loop {
        step = match step {
            StoreStep::Flash(request) => resume(StoreEvent::Flash(run_flash(store, chip, request))),
            StoreStep::Delay(_) => resume(StoreEvent::Delayed),
            StoreStep::Deliver(bytes) => {
                delivered.extend_from_slice(&bytes);
                resume(StoreEvent::Consumed)
            }
            StoreStep::Done(result) => return result,
        }
    }
}

fn write_artifact(store: &mut ArtifactStore, chip: &mut Chip, name: &str, data: &[u8], chunk: usize) -> Result<ArtifactInfo, ArtifactError<SpiFault>> {
    let (mut begin, step) = store.begin::<SpiFault>(name);
    let mut writer = drive(store, chip, step, &mut Vec::new(), |e| begin.resume(e))?;
    for piece in data.chunks(chunk.max(1)) {
        let step = writer.write::<SpiFault>(piece);
        drive(store, chip, step, &mut Vec::new(), |e| writer.resume_write(e))?;
    }
    let step = writer.finish::<SpiFault>();
    drive(store, chip, step, &mut Vec::new(), |e| writer.resume_finish(e))
}

fn find(store: &mut ArtifactStore, chip: &mut Chip, name: &str) -> Result<ArtifactInfo, ArtifactError<SpiFault>> {
    let (mut op, step) = store.find::<SpiFault>(name);
    drive(store, chip, step, &mut Vec::new(), |e| op.resume(e))
}

fn read(store: &mut ArtifactStore, chip: &mut Chip, name: &str) -> Result<Vec<u8>, ArtifactError<SpiFault>> {
    let (mut op, step) = store.read::<SpiFault>(name);
    let mut out = Vec::new();
    drive(store, chip, step, &mut out, |e| op.resume(e))?;
    Ok(out)
}

fn erase(store: &mut ArtifactStore, chip: &mut Chip, name: &str) -> Result<(), ArtifactError<SpiFault>> {
    let (mut op, step) = store.erase::<SpiFault>(name);
    drive(store, chip, step, &mut Vec::new(), |e| op.resume(e))
}

fn sample(len: usize, seed: u8) -> Vec<u8> {
    (0..len).map(|i| (i as u8).wrapping_mul(31).wrapping_add(seed)).collect()
}

#[test]
fn written_artifact_reads_back() {
    let mut chip = Chip::new();
    let mut store = ArtifactStore::new(W25N01GV::new());
    let data = sample(5000, 7);
    let info = write_artifact(&mut store, &mut chip, "flight-log", &data, 700).unwrap();
    assert_eq!(info, ArtifactInfo { name: "flight-log".to_owned(), generation: 1, size: 5000, blocks: 1 });
    assert_eq!(find(&mut store, &mut chip, "flight-log").unwrap(), info);
    assert_eq!(read(&mut store, &mut chip, "flight-log").unwrap(), data);
}

#[test]
fn artifact_spanning_blocks_reads_back() {
    let mut chip = Chip::new();
    let mut store = ArtifactStore::new(W25N01GV::new());
    let data = sample(63 * 2048 + 3000, 1);
    let info = write_artifact(&mut store, &mut chip, "model", &data, 4096).unwrap();
    assert_eq!(info.blocks, 2);
    assert_eq!(info.size, data.len() as u64);
    assert_eq!(read(&mut store, &mut chip, "model").unwrap(), data);
    // Page zero of each block receives two programs; data pages one.
    assert!(chip.programs.iter().all(|(page, n)| if page % 64 == 0 { *n == 2 } else { *n == 1 }));
}

#[test]
fn newest_version_wins() {
    let mut chip = Chip::new();
    let mut store = ArtifactStore::new(W25N01GV::new());
    write_artifact(&mut store, &mut chip, "config", b"first", 16).unwrap();
    let second = write_artifact(&mut store, &mut chip, "config", b"second version", 16).unwrap();
    assert_eq!(second.generation, 2);
    assert_eq!(find(&mut store, &mut chip, "config").unwrap().generation, 2);
    assert_eq!(read(&mut store, &mut chip, "config").unwrap(), b"second version".to_vec());
}

#[test]
fn unfinished_version_stays_invisible() {
    let mut chip = Chip::new();
    let mut store = ArtifactStore::new(W25N01GV::new());
    write_artifact(&mut store, &mut chip, "log", b"published", 4).unwrap();
    let (mut begin, step) = store.begin::<SpiFault>("log");
    let mut writer = drive(&mut store, &mut chip, step, &mut Vec::new(), |e| begin.resume(e)).unwrap();
    let step = writer.write::<SpiFault>(&sample(3000, 9));
    drive(&mut store, &mut chip, step, &mut Vec::new(), |e| writer.resume_write(e)).unwrap();
    // No finish: the new version must not be visible.
    let info = find(&mut store, &mut chip, "log").unwrap();
    assert_eq!(info.generation, 1);
    assert_eq!(read(&mut store, &mut chip, "log").unwrap(), b"published".to_vec());
}

#[test]
fn missing_artifact_is_not_found() {
    let mut chip = Chip::new();
    let mut store = ArtifactStore::new(W25N01GV::new());
    assert!(matches!(find(&mut store, &mut chip, "nothing"), Err(ArtifactError::NotFound)));
    assert!(matches!(read(&mut store, &mut chip, "nothing"), Err(ArtifactError::NotFound)));
}

#[test]
fn invalid_names_are_refused() {
    let mut chip = Chip::new();
    let mut store = ArtifactStore::new(W25N01GV::new());
    assert!(matches!(find(&mut store, &mut chip, ""), Err(ArtifactError::InvalidName)));
    assert!(matches!(find(&mut store, &mut chip, "a\0b"), Err(ArtifactError::InvalidName)));
    let long = "x".repeat(241);
    assert!(matches!(erase(&mut store, &mut chip, &long), Err(ArtifactError::InvalidName)));
    assert!(matches!(read(&mut store, &mut chip, &long), Err(ArtifactError::InvalidName)));
    let (_, step) = store.begin::<SpiFault>("");
    assert!(matches!(step, StoreStep::Done(Err(ArtifactError::InvalidName))));
    let ok = "y".repeat(240);
    assert!(matches!(find(&mut store, &mut chip, &ok), Err(ArtifactError::NotFound)));
}

#[test]
fn erase_removes_every_version() {
    let mut chip = Chip::new();
    let mut store = ArtifactStore::new(W25N01GV::new());
    write_artifact(&mut store, &mut chip, "a", b"one", 8).unwrap();
    write_artifact(&mut store, &mut chip, "a", b"two", 8).unwrap();
    write_artifact(&mut store, &mut chip, "b", b"other", 8).unwrap();
    erase(&mut store, &mut chip, "a").unwrap();
    assert!(matches!(find(&mut store, &mut chip, "a"), Err(ArtifactError::NotFound)));
    assert_eq!(read(&mut store, &mut chip, "b").unwrap(), b"other".to_vec());
    // The erased blocks are reused.
    let info = write_artifact(&mut store, &mut chip, "a", b"three", 8).unwrap();
    assert_eq!(info.generation, 1);
}

#[test]
fn bad_blocks_are_skipped() {
    let mut chip = Chip::new();
    chip.mark_bad(0);
    chip.mark_bad(1);
    let mut store = ArtifactStore::new(W25N01GV::new());
    write_artifact(&mut store, &mut chip, "log", b"data", 4).unwrap();
    assert!(chip.programs.keys().all(|page| *page >= 128));
    assert_eq!(read(&mut store, &mut chip, "log").unwrap(), b"data".to_vec());
}

#[test]
fn corrupted_data_is_reported() {
    let mut chip = Chip::new();
    let mut store = ArtifactStore::new(W25N01GV::new());
    write_artifact(&mut store, &mut chip, "log", &sample(100, 3), 100).unwrap();
    let mut page = chip.page(1);
    page[10] ^= 0x01;
    chip.pages.insert(1, page);
    assert!(matches!(read(&mut store, &mut chip, "log"), Err(ArtifactError::CorruptMetadata)));
}

#[test]
fn missing_segment_is_incomplete() {
    let mut chip = Chip::new();
    let mut store = ArtifactStore::new(W25N01GV::new());
    write_artifact(&mut store, &mut chip, "big", &sample(63 * 2048 + 10, 5), 2048).unwrap();
    // Wipe block 0, which holds segment 0.
    for p in 0..64 {
        chip.pages.remove(&p);
    }
    assert!(matches!(find(&mut store, &mut chip, "big"), Err(ArtifactError::Incomplete)));
}

#[test]
fn program_failure_is_reported() {
    let mut chip = Chip::new();
    let mut store = ArtifactStore::new(W25N01GV::new());
    chip.fail_program = true;
    let (mut begin, step) = store.begin::<SpiFault>("log");
    let result = drive(&mut store, &mut chip, step, &mut Vec::new(), |e| begin.resume(e));
    assert!(matches!(result, Err(ArtifactError::Flash(Error::ProgramFailed))));
}

#[test]
fn empty_artifact_round_trips() {
    let mut chip = Chip::new();
    let mut store = ArtifactStore::new(W25N01GV::new());
    let info = write_artifact(&mut store, &mut chip, "empty", b"", 1).unwrap();
    assert_eq!(info.size, 0);
    assert_eq!(info.blocks, 1);
    assert_eq!(read(&mut store, &mut chip, "empty").unwrap(), Vec::<u8>::new());
}

#[test]
fn exact_block_boundary_round_trips() {
    let mut chip = Chip::new();
    let mut store = ArtifactStore::new(W25N01GV::new());
    let data = sample(63 * 2048, 11);
    let info = write_artifact(&mut store, &mut chip, "exact", &data, 63 * 2048).unwrap();
    assert_eq!(info.blocks, 1);
    assert_eq!(read(&mut store, &mut chip, "exact").unwrap(), data);
}

#[test]
fn finished_writer_refuses_more_data() {
    let mut chip = Chip::new();
    let mut store = ArtifactStore::new(W25N01GV::new());
    let (mut begin, step) = store.begin::<SpiFault>("log");
    let mut writer = drive(&mut store, &mut chip, step, &mut Vec::new(), |e| begin.resume(e)).unwrap();
    let step = writer.finish::<SpiFault>();
    drive(&mut store, &mut chip, step, &mut Vec::new(), |e| writer.resume_finish(e)).unwrap();
    let step = writer.write::<SpiFault>(b"late");
    assert!(matches!(step, StoreStep::Done(Err(ArtifactError::Incomplete))));
}

#[test]
fn read_id_reports_jedec_bytes() {
    let mut chip = Chip::new();
    let mut store = ArtifactStore::new(W25N01GV::new());
    let output = run_flash(&mut store, &mut chip, FlashRequest::ReadId).unwrap();
    assert!(matches!(output, FlashOutput::Id([0xef, 0xaa, 0x21])));
    let step = store.read_id::<SpiFault>();
    assert!(matches!(step, FlashStep::Transfer(SpiTransfer::WriteRead(ref c, 4)) if c == &vec![0x9f]));
}

#[test]
fn failed_finish_ends_the_writer() {
    let mut chip = Chip::new();
    let mut store = ArtifactStore::new(W25N01GV::new());
    let (mut begin, step) = store.begin::<SpiFault>("log");
    let mut writer = drive(&mut store, &mut chip, step, &mut Vec::new(), |e| begin.resume(e)).unwrap();
    let step = writer.write::<SpiFault>(b"partial page");
    drive(&mut store, &mut chip, step, &mut Vec::new(), |e| writer.resume_write(e)).unwrap();
    chip.fail_program = true;
    let step = writer.finish::<SpiFault>();
    let result = drive(&mut store, &mut chip, step, &mut Vec::new(), |e| writer.resume_finish(e));
    assert!(matches!(result, Err(ArtifactError::Flash(Error::ProgramFailed))));
    chip.fail_program = false;
    let step = writer.write::<SpiFault>(b"more");
    assert!(matches!(step, StoreStep::Done(Err(ArtifactError::Incomplete))));
    assert!(matches!(find(&mut store, &mut chip, "log"), Err(ArtifactError::NotFound)));
}

#[test]
fn older_complete_version_is_found_when_the_newest_lost_a_segment() {
    let mut chip = Chip::new();
    let mut store = ArtifactStore::new(W25N01GV::new());
    let first = write_artifact(&mut store, &mut chip, "model", b"old model", 16).unwrap();
    assert_eq!(first.generation, 1);
    let second = write_artifact(&mut store, &mut chip, "model", &sample(63 * 2048 + 10, 2), 4096).unwrap();
    assert_eq!((second.generation, second.blocks), (2, 2));
    // Block 1 holds segment 0 of generation 2.
    for p in 64..128 {
        chip.pages.remove(&p);
    }
    let info = find(&mut store, &mut chip, "model").unwrap();
    assert_eq!(info, first);
    assert_eq!(read(&mut store, &mut chip, "model").unwrap(), b"old model".to_vec());
}

#[test]
fn erase_clears_the_block_of_an_abandoned_writer() {
    let mut chip = Chip::new();
    let mut store = ArtifactStore::new(W25N01GV::new());
    write_artifact(&mut store, &mut chip, "other", b"keep", 8).unwrap();
    let (mut begin, step) = store.begin::<SpiFault>("log");
    let writer = drive(&mut store, &mut chip, step, &mut Vec::new(), |e| begin.resume(e)).unwrap();
    drop(writer);
    // Block 1 holds the abandoned writer's header and no commit record.
    assert_eq!(&chip.page(64)[..4], b"LRAF");
    erase(&mut store, &mut chip, "log").unwrap();
    assert!(chip.page(64)[..PAGE].iter().all(|b| *b == 0xff));
    assert_eq!(read(&mut store, &mut chip, "other").unwrap(), b"keep".to_vec());
}

#[test]
fn finished_writer_refuses_a_second_finish() {
    let mut chip = Chip::new();
    let mut store = ArtifactStore::new(W25N01GV::new());
    let (mut begin, step) = store.begin::<SpiFault>("log");
    let mut writer = drive(&mut store, &mut chip, step, &mut Vec::new(), |e| begin.resume(e)).unwrap();
    let step = writer.finish::<SpiFault>();
    drive(&mut store, &mut chip, step, &mut Vec::new(), |e| writer.resume_finish(e)).unwrap();
    let programs: u32 = chip.programs.values().sum();
    let step = writer.finish::<SpiFault>();
    assert!(matches!(step, StoreStep::Done(Err(ArtifactError::Incomplete))));
    assert_eq!(chip.programs.values().sum::<u32>(), programs);
}
