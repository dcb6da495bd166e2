use light_robot_core::api::{ServoAxis, ServoDeviceId, ServoState, TestData, WifiConnectionConfiguration, WifiConnectionType};
use light_robot_core::crc::crc32_of;
use light_robot_core::layout::{decode_commit, decode_header, encode_commit, encode_header, validate_name, METADATA_SECTOR_SIZE};
use light_robot_core::sensors::{
    barometer_calibration, barometer_identity, barometer_raw, imu_axes, imu_identity, BarometerError, Calibration, ImuError,
};
use light_robot_core::store::{block_record, next_generation_in, ArtifactError, BlockRecord};

#[test]
fn header_layout_matches_format() {
    let mut header = [0xff; METADATA_SECTOR_SIZE];
    encode_header::<()>(&mut header, "ab", 0x0102_0304, 0x0506).unwrap();
    assert_eq!(&header[..16], &[b'L', b'R', b'A', b'F', 1, 2, 0xff, 0xff, 4, 3, 2, 1, 6, 5, 0xff, 0xff]);
    assert_eq!(&header[16..18], b"ab");
    assert!(header[18..].iter().all(|b| *b == 0xff));
}

#[test]
fn invalid_names_leave_header_untouched() {
    let mut header = [0xff; METADATA_SECTOR_SIZE];
    assert!(matches!(encode_header::<()>(&mut header, "", 1, 0), Err(ArtifactError::InvalidName)));
    assert!(matches!(encode_header::<()>(&mut header, "nul\0name", 1, 0), Err(ArtifactError::InvalidName)));
    assert!(header.iter().all(|b| *b == 0xff));
    assert!(validate_name::<()>(&"n".repeat(240)).is_ok());
    assert!(validate_name::<()>(&"n".repeat(241)).is_err());
    // The limit counts bytes, not characters.
    assert!(validate_name::<()>(&"é".repeat(121)).is_err());
    assert!(validate_name::<()>(&"é".repeat(120)).is_ok());
}

#[test]
fn non_ascii_name_round_trips() {
    let mut header = [0u8; METADATA_SECTOR_SIZE];
    encode_header::<()>(&mut header, "Höhe-📈", 9, 0).unwrap();
    assert_eq!(decode_header(&header), Some(("Höhe-📈".to_owned(), 9, 0)));
}

#[test]
fn header_decoding_rejects_bad_sectors() {
    let erased = [0xff; METADATA_SECTOR_SIZE];
    assert_eq!(decode_header(&erased), None);
    let mut header = [0xff; METADATA_SECTOR_SIZE];
    encode_header::<()>(&mut header, "log", 1, 0).unwrap();
    assert_eq!(decode_header(&header[..511]), None);
    let mut wrong_version = header;
    wrong_version[4] = 2;
    assert_eq!(decode_header(&wrong_version), None);
    let mut bad_utf8 = header;
    bad_utf8[16] = 0xc3;
    bad_utf8[17] = 0x28;
    assert_eq!(decode_header(&bad_utf8), None);
    let mut too_long = header;
    too_long[5] = 241;
    assert_eq!(decode_header(&too_long), None);
}

#[test]
fn commit_record_round_trips() {
    let commit = encode_commit(129024, 0xdead_beef, true, 0x0102_0304_0506_0708);
    assert_eq!(commit.len(), 512);
    assert_eq!(&commit[..4], b"DONE");
    assert_eq!(commit[12], 0);
    assert!(commit[24..].iter().all(|b| *b == 0xff));
    assert_eq!(decode_commit(&commit), Some((129024, 0xdead_beef, true, 0x0102_0304_0506_0708)));
    let partial = encode_commit(7, 1, false, 0);
    assert_eq!(partial[12], 0x7f);
    assert_eq!(decode_commit(&partial), Some((7, 1, false, 0)));
    let mut bad_flag = partial.clone();
    bad_flag[12] = 1;
    assert_eq!(decode_commit(&bad_flag), None);
    assert_eq!(decode_commit(&[0xff; 512]), None);
}

#[test]
fn crc_of_whole_equals_crc_of_pieces() {
    let data: Vec<u8> = (0..=255).collect();
    let mut crc = light_robot_core::crc::Crc32::new();
    crc.update(&data[..100]);
    crc.update(&data[100..]);
    assert_eq!(crc.finish(), crc32_of(&data));
    assert_eq!(crc32_of(b""), 0);
    assert_eq!(crc32_of(b"a"), 0xe8b7_be43);
}

fn record(name: &str, generation: u32) -> BlockRecord {
    BlockRecord {
        physical_block: 0,
        name: name.as_bytes().to_vec(),
        generation,
        logical_index: 0,
        size: 0,
        crc32: 0,
        is_final: true,
        total_size: 0,
    }
}

#[test]
fn next_generation_follows_highest() {
    assert_eq!(next_generation_in(&vec![], b"a"), 1);
    let records = vec![record("a", 3), record("b", 9), record("a", 7), record("a", 5)];
    assert_eq!(next_generation_in(&records, b"a"), 8);
    assert_eq!(next_generation_in(&vec![record("a", u32::MAX)], b"a"), 0);
}

#[test]
fn calibration_registers_decode() {
    let mut bytes = [0u8; 24];
    bytes[0] = 0x70;
    bytes[1] = 0x6b; // t1 = 27504
    bytes[2] = 0x43;
    bytes[3] = 0x67; // t2 = 26435
    bytes[4] = 0x18;
    bytes[5] = 0xfc; // t3 = -1000
    bytes[6] = 0x7d;
    bytes[7] = 0x8e; // p1 = 36477
    let c = Calibration::from_registers(bytes);
    assert_eq!((c.t1, c.t2, c.t3, c.p1), (27504, 26435, -1000, 36477));
    assert!(matches!(barometer_calibration(bytes), Ok(_)));
    bytes[6] = 0;
    bytes[7] = 0;
    assert!(matches!(barometer_calibration(bytes), Err(BarometerError::CalibrationRead)));
}

#[test]
fn sensor_identity_and_samples() {
    assert!(barometer_identity(0x58).is_ok());
    assert!(matches!(barometer_identity(0x60), Err(BarometerError::UnexpectedIdentity(0x60))));
    assert!(imu_identity(0x47).is_ok());
    assert!(matches!(imu_identity(0x12), Err(ImuError::UnexpectedIdentity(0x12))));
    assert_eq!(barometer_raw([0x65, 0x5a, 0xc0, 0x7e, 0xed, 0x00]), (415148, 519888));
    let axes = imu_axes([0x00, 0x01, 0xff, 0xff, 0x80, 0x00, 0x7f, 0xff, 0x12, 0x34, 0xfe, 0xdc]);
    assert_eq!(axes, [1, -1, -32768, 32767, 0x1234, -292]);
}

#[test]
fn api_defaults() {
    assert_eq!(ServoAxis::default(), ServoAxis::X);
    assert_eq!(WifiConnectionType::default(), WifiConnectionType::StartAccessPoint);
    let c = WifiConnectionConfiguration::default();
    assert_eq!(c.connection_type, WifiConnectionType::StartAccessPoint);
    assert!(c.credentials.ssid.is_empty() && c.credentials.password.is_empty());
    assert_eq!(ServoDeviceId::default(), ServoDeviceId { chip_id1: [0; 6], chip_id2: [0; 6] });
    assert_eq!(ServoState::default(), ServoState { position: 0, velocity: 0, current: 0, sensor_detected: false });
    assert!(TestData::default().data.is_empty());
}

#[test]
fn committed_block_is_recorded_with_its_fields() {
    let mut page = vec![0xff; 2048];
    let mut header = [0xff; METADATA_SECTOR_SIZE];
    encode_header::<()>(&mut header, "flight-log", 9, 2).unwrap();
    page[..METADATA_SECTOR_SIZE].copy_from_slice(&header);
    let commit = encode_commit(4096, 0xdead_beef, true, 262_000);
    page[METADATA_SECTOR_SIZE..2 * METADATA_SECTOR_SIZE].copy_from_slice(&commit);
    let record = block_record(37, &page).unwrap();
    assert_eq!(record.physical_block, 37);
    assert_eq!(record.name, b"flight-log".to_vec());
    assert_eq!((record.generation, record.logical_index), (9, 2));
    assert_eq!((record.size, record.crc32, record.is_final, record.total_size), (4096, 0xdead_beef, true, 262_000));
    // Without its commit record the block holds no record.
    page[METADATA_SECTOR_SIZE..2 * METADATA_SECTOR_SIZE].fill(0xff);
    assert!(block_record(37, &page).is_none());
}
