use bresize2fs::fs::superblock::{read_le32, Superblock};

fn header() -> Vec<u8> {
    let mut h = vec![0u8; 1024];
    h[0] = 16; // inodes
    h[4..8].copy_from_slice(&[0x78, 0x56, 0x34, 0x12]);
    h[24] = 2;
    h[56] = 0x53;
    h[57] = 0xef;
    for i in 0..16 {
        h[104 + i] = (i * 0x11) as u8;
    }
    h[336..340].copy_from_slice(&[0x01, 0x02, 0x03, 0x04]);
    h
}

#[test]
fn reads_little_endian() {
    assert_eq!(read_le32(&[9, 0x78, 0x56, 0x34, 0x12], 1), 0x12345678);
    assert_eq!(read_le32(&[255, 255, 255, 255], 0), u32::MAX);
}

#[test]
fn parses_a_32_bit_superblock() {
    let sb = Superblock::parse(&header());
    assert_eq!(sb.block_size, 4);
    assert_eq!(sb.block_count, 0x12345678);
    assert_eq!(sb.uuid, "00112233-4455-6677-8899-aabbccddeeff");
}

#[test]
fn parses_a_64_bit_superblock() {
    let mut h = header();
    h[96] = 0x40;
    assert_eq!(Superblock::parse(&h).block_count, 0x0403020112345678);
    h[96] = 0xff;
    assert_eq!(Superblock::parse(&h).block_count, 0x0403020112345678);
    h[96] = 0xbf;
    assert_eq!(Superblock::parse(&h).block_count, 0x12345678);
}

#[test]
fn block_sizes_are_powers_of_two() {
    let mut h = header();
    for log in 0..=6u8 {
        h[24] = log;
        assert_eq!(Superblock::parse(&h).block_size, 1 << log);
    }
}

#[test]
fn uuids_differ_in_text() {
    let a = Superblock::parse(&header()).uuid;
    let mut h = header();
    h[119] = 0xfe;
    let b = Superblock::parse(&h).uuid;
    assert_ne!(a, b);
    assert_eq!(a.len(), 36);
    for i in [8, 13, 18, 23] {
        assert_eq!(a.as_bytes()[i], b'-');
    }
}
