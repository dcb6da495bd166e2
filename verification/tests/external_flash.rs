use light_robot_core::crc::Crc32;
use light_robot_core::layout::{decode_header, encode_header, METADATA_SECTOR_SIZE};

#[test]
fn metadata_round_trip() {
    let mut header = [0xff; METADATA_SECTOR_SIZE];
    encode_header::<()>(&mut header, "flight-log", 17, 3).unwrap();
    assert_eq!(
        decode_header(&header),
        Some(("flight-log".to_owned(), 17, 3))
    );
}

#[test]
fn crc32_matches_standard_vector() {
    let mut crc = Crc32::new();
    crc.update(b"123456789");
    assert_eq!(crc.finish(), 0xcbf4_3926);
}
