use learn_os::exe::v0::{magic_bytes, Error, Exe, SegmentInfo, HEADER_SIZE, VERSION};

fn descriptor(start: u64, size: u64, load_address: u64) -> Vec<u8> {
    let mut bytes = Vec::new();
    bytes.extend_from_slice(&start.to_le_bytes());
    bytes.extend_from_slice(&size.to_le_bytes());
    bytes.extend_from_slice(&load_address.to_le_bytes());
    bytes
}

fn image(version: u16, payload: &[u8]) -> Vec<u8> {
    let mut bytes = b"learn-os".to_vec();
    bytes.extend_from_slice(&version.to_le_bytes());
    bytes.extend(descriptor(82, 4, 0x1000));
    bytes.extend(descriptor(86, 0, 0x2000));
    bytes.extend(descriptor(86, 2, 0x3000));
    bytes.extend_from_slice(payload);
    bytes
}

#[test]
fn the_magic_bytes_spell_the_name() {
    assert_eq!(&magic_bytes(), b"learn-os");
    assert_eq!(HEADER_SIZE, 82);
    assert_eq!(VERSION, 0);
}

#[test]
fn a_short_buffer_is_a_length_error() {
    let buffer = [0u8; 70];
    assert_eq!(
        Exe::parse(&buffer).err(),
        Some(Error::Length { minimum_length: 82, actual_length: 70 })
    );
    let buffer = image(0, &[]);
    assert_eq!(
        Exe::parse(&buffer[..81]).err(),
        Some(Error::Length { minimum_length: 82, actual_length: 81 })
    );
    assert_eq!(
        Exe::parse(&[]).err(),
        Some(Error::Length { minimum_length: 82, actual_length: 0 })
    );
}

#[test]
fn wrong_first_bytes_are_a_magic_bytes_error() {
    let mut buffer = image(0, &[]);
    buffer[7] = b'S';
    assert_eq!(
        Exe::parse(&buffer).err(),
        Some(Error::MagicBytes { expected: *b"learn-os", actual: *b"learn-oS" })
    );
    let buffer = [0u8; 82];
    assert_eq!(
        Exe::parse(&buffer).err(),
        Some(Error::MagicBytes { expected: *b"learn-os", actual: [0; 8] })
    );
}

#[test]
fn another_version_is_a_version_error() {
    let buffer = image(1, &[]);
    assert_eq!(Exe::parse(&buffer).err(), Some(Error::Version { expected: 0, actual: 1 }));
    let buffer = image(0x0100, &[]);
    assert_eq!(Exe::parse(&buffer).err(), Some(Error::Version { expected: 0, actual: 256 }));
}

#[test]
fn the_magic_bytes_are_checked_before_the_version() {
    let mut buffer = image(7, &[]);
    buffer[0] = 0;
    assert!(matches!(Exe::parse(&buffer), Err(Error::MagicBytes { .. })));
}

#[test]
fn an_image_parses_and_gives_its_segments() {
    let buffer = image(0, &[0xde, 0xad, 0xbe, 0xef, 0x11, 0x22]);
    let exe = Exe::parse(&buffer).expect("the image is valid");
    assert_eq!(exe.magic_bytes(), *b"learn-os");
    assert_eq!(exe.version(), 0);
    assert_eq!(exe.code_info(), SegmentInfo { start: 82, size: 4, load_address: 0x1000 });
    assert_eq!(exe.rodata_info(), SegmentInfo { start: 86, size: 0, load_address: 0x2000 });
    assert_eq!(exe.rwdata_info(), SegmentInfo { start: 86, size: 2, load_address: 0x3000 });
    assert_eq!(exe.code(), Ok(&[0xde, 0xad, 0xbe, 0xef][..]));
    assert_eq!(exe.code().unwrap(), &buffer[82..86]);
    assert_eq!(exe.rodata(), Ok(&[][..]));
    assert_eq!(exe.rwdata(), Ok(&[0x11, 0x22][..]));
    let header = exe.header();
    assert_eq!(header.magic_bytes, *b"learn-os");
    assert_eq!(header.version, 0);
    assert_eq!(header.code_info, exe.code_info());
    assert_eq!(header.rodata_info, exe.rodata_info());
    assert_eq!(header.rwdata_info, exe.rwdata_info());
}

#[test]
fn a_segment_beyond_the_buffer_is_refused() {
    let buffer = image(0, &[0xde, 0xad, 0xbe]);
    let exe = Exe::parse(&buffer).expect("the header is valid");
    assert_eq!(
        exe.code(),
        Err(Error::SegmentBounds { start: 82, size: 4, actual_length: 85 })
    );
    assert_eq!(
        exe.rwdata(),
        Err(Error::SegmentBounds { start: 86, size: 2, actual_length: 85 })
    );
    assert_eq!(
        exe.rodata(),
        Err(Error::SegmentBounds { start: 86, size: 0, actual_length: 85 })
    );
    assert_eq!(
        exe.segment(SegmentInfo { start: u64::MAX, size: 2, load_address: 0 }),
        Err(Error::SegmentBounds { start: u64::MAX, size: 2, actual_length: 85 })
    );
    assert_eq!(
        exe.segment(SegmentInfo { start: 85, size: 0, load_address: 0 }),
        Ok(&[][..])
    );
    assert_eq!(exe.segment(SegmentInfo { start: 0, size: 85, load_address: 0 }), Ok(&buffer[..]));
}

#[test]
fn a_descriptor_is_three_little_endian_numbers() {
    let mut bytes = [0u8; 24];
    bytes[..8].copy_from_slice(&0x0102_0304_0506_0708u64.to_le_bytes());
    bytes[8..16].copy_from_slice(&0xffff_ffff_ffff_ffffu64.to_le_bytes());
    bytes[16..].copy_from_slice(&0x8000_0000_0000_0001u64.to_le_bytes());
    assert_eq!(
        SegmentInfo::from(bytes),
        SegmentInfo {
            start: 0x0102_0304_0506_0708,
            size: u64::MAX,
            load_address: 0x8000_0000_0000_0001
        }
    );
}

#[test]
fn the_segments_are_checked_in_order() {
    let buffer = image(0, &[0xde, 0xad, 0xbe, 0xef, 0x11, 0x22]);
    assert_eq!(Exe::parse(&buffer).unwrap().check_segments(), Ok(()));
    let exe = Exe::parse(&buffer[..87]).unwrap();
    assert_eq!(
        exe.check_segments(),
        Err(Error::SegmentBounds { start: 86, size: 2, actual_length: 87 })
    );
    let exe = Exe::parse(&buffer[..85]).unwrap();
    assert_eq!(
        exe.check_segments(),
        Err(Error::SegmentBounds { start: 82, size: 4, actual_length: 85 })
    );
}
