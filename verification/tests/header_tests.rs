use chat_server::header::MessageHeader;

// Make sure that packet numbers that go in, come out the same.
#[test]
fn message_header_test_packet_numbers() {
    let mut header = MessageHeader::new();
    header.set_packet_num(5);
    assert!(header.get_packet_num() == 5);
}

// Make sure that header numbers are settable and retrievable
#[test]
fn message_header_test_header_versions() {
    let mut header = MessageHeader::new();
    header.set_version_num(5);
    assert!(header.get_version_num() == 5);
}

#[test]
fn message_header_test_usernames() -> Result<(), &'static str> {
    // Make sure set usernames are retrievable
    let mut header = MessageHeader::new();
    header.set_source_username("meow").unwrap();
    header.set_dest_username("brown").unwrap();
    let result = header.get_source_username().unwrap();
    assert!(result == "meow");
    let result = header.get_dest_username().unwrap();
    assert!(result == "brown");
    // Make sure usernames that are too long are not accepted.
    match header.set_source_username("123456789012345678901234567890123") {
        Ok(_) => Err("This username is too long, and should fail."),
        Err(_) => Ok(()),
    }
}

#[test]
fn test_header_checksumming() {
    let mut header = MessageHeader::new();
    header.set_packet_num(5);
    header.set_version_num(3);
    header.calculate_header_checksum();
    // Make sure verification works
    assert!(header.verify_header_checksum());
    // Mess up the header
    header.set_packet_num(16);
    // make sure it gets caught.
    assert!(!(header.verify_header_checksum()));
}

#[test]
fn test_data_checksumming() {
    // Make sure that the checksum catches when the data portion has been
    // tampered with
    let mut header = MessageHeader::new();
    let garbage: Vec<u8> = vec![0, 1, 2, 3];
    let garbage2: Vec<u8> = vec![3, 2, 1, 0];
    header.calculate_data_checksum(&garbage);
    assert!(header.verify_data_checksum(&garbage));
    assert!(!(header.verify_data_checksum(&garbage2)));
}

#[test]
fn test_message_types() {
    let mut header = MessageHeader::new();
    header.set_message_type(5);
    assert!(header.get_message_type() == 5);
}

#[test]
fn test_packet_lengths() {
    let mut header = MessageHeader::new();
    header.set_data_packet_length(56);
    assert!(header.get_data_packet_length() == 56);
}

#[test]
fn clone_test() {
    let mut header = MessageHeader::new();
    header.set_data_packet_length(6);
    header.set_dest_username("brown").unwrap();
    header.set_message_type(4);
    assert_eq!(header.0, header.clone().0)
}

// Make sure that packet numbers that go in, come out the same.
#[test]
fn lib_test_packet_numbers() {
    let mut header = MessageHeader::new();
    header.set_packet_num(5);
    assert!(header.get_packet_num() == 5);
}

// Make sure that header numbers are settable and retrievable
#[test]
fn lib_test_header_versions() {
    let mut header = MessageHeader::new();
    header.set_version_num(5);
    assert!(header.get_version_num() == 5);
}

#[test]
fn lib_test_usernames() -> Result<(), &'static str> {
    // Make sure set usernames are retrievable
    let mut header = MessageHeader::new();
    header.set_source_username("meow").unwrap();
    let result = header.get_source_username().unwrap();
    assert!(result == "meow");
    // Make sure usernames that are too long are not accepted.
    match header.set_source_username("123456789012345678901234567890123") {
        Ok(_) => Err("This username is too long, and should fail."),
        Err(_) => Ok(()),
    }
}

// A full 32-byte name has no terminator and still reads back whole.
#[test]
fn test_username_exactly_32_bytes() {
    let name = "abcdefghijklmnopqrstuvwxyz012345";
    assert_eq!(name.len(), 32);
    let mut header = MessageHeader::new();
    header.set_source_username(name).unwrap();
    assert_eq!(header.get_source_username().unwrap(), name);
}

// A rejected over-long name leaves the field bytes unchanged.
#[test]
fn test_username_too_long_leaves_field() {
    let mut header = MessageHeader::new();
    header.set_source_username("meow").unwrap();
    let before = header.0;
    assert!(header.set_source_username("123456789012345678901234567890123").is_err());
    assert_eq!(header.0, before);
}

// A source field that is not valid UTF-8 is refused on read.
#[test]
fn test_username_invalid_utf8() {
    let mut header = MessageHeader::new();
    header.0[3] = 0xff;
    header.0[4] = 0xfe;
    assert!(header.get_source_username().is_err());
}

// The stored data checksum is the SHA-256 of the body: known digest.
#[test]
fn test_data_checksum_known_digest() {
    let expected: [u8; 32] = [
        0xba, 0x78, 0x16, 0xbf, 0x8f, 0x01, 0xcf, 0xea, 0x41, 0x41, 0x40, 0xde, 0x5d, 0xae,
        0x22, 0x23, 0xb0, 0x03, 0x61, 0xa3, 0x96, 0x17, 0x7a, 0x9c, 0xb4, 0x10, 0xff, 0x61,
        0xf2, 0x00, 0x15, 0xad,
    ];
    let mut header = MessageHeader::new();
    let body: Vec<u8> = vec![b'a', b'b', b'c'];
    header.calculate_data_checksum(&body);
    assert_eq!(&header.0[70..102], &expected[..]);
}

// Version and packet number cover their whole ranges.
#[test]
fn test_full_range_round_trips() {
    let mut header = MessageHeader::new();
    header.set_packet_num(65535);
    assert_eq!(header.get_packet_num(), 65535);
    header.set_packet_num(0);
    assert_eq!(header.get_packet_num(), 0);
    header.set_version_num(255);
    assert_eq!(header.get_version_num(), 255);
    header.set_data_packet_length(65535);
    assert_eq!(header.get_data_packet_length(), 65535);
}

// Clearing zeroes the whole buffer.
#[test]
fn test_clear() {
    let mut header = MessageHeader::new();
    header.set_packet_num(7);
    header.set_source_username("meow").unwrap();
    header.clear();
    assert_eq!(header.0, [0u8; 166]);
}
