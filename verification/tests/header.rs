use esedb::byte_io::LittleEndianWrite;
use esedb::error::{IoErrorKind, ReadError};
use esedb::header::{
    read_header, read_headers, BackupType, DbState, FileType, Header, HEADER_SIGNATURE,
    HEADER_SIZE,
};

fn header_xor(page: &[u8]) -> u32 {
    let mut checksum = 0u32;
    let mut at = 8;
    while at + 4 <= page.len() {
        checksum ^= u32::from_le_bytes([page[at], page[at + 1], page[at + 2], page[at + 3]]);
        at += 4;
    }
    checksum
}

fn seal_header_page(page: &mut Vec<u8>) {
    let checksum = header_xor(page);
    page[0..4].copy_from_slice(&checksum.to_le_bytes());
}

fn header_page(page_size: u32) -> Vec<u8> {
    let mut page = vec![0u8; page_size as usize];
    page[4..8].copy_from_slice(&[0xEF, 0xCD, 0xAB, 0x89]);
    page[8..12].copy_from_slice(&0x620u32.to_le_bytes());
    page[12..16].copy_from_slice(&1u32.to_le_bytes());
    page[52..56].copy_from_slice(&3u32.to_le_bytes());
    page[71] = 7;
    page[232..236].copy_from_slice(&0x11u32.to_le_bytes());
    page[236..240].copy_from_slice(&page_size.to_le_bytes());
    for i in 0..16 {
        page[348 + i] = i as u8;
    }
    page[700] = 0x5A;
    seal_header_page(&mut page);
    page
}

#[test]
fn header_with_magic_and_checksum_decodes() {
    let page = header_page(4096);
    let header = read_header(&page, 0).expect("a valid header");
    assert_eq!(header.signature, 0x89AB_CDEF);
    assert_eq!(header.signature, HEADER_SIGNATURE);
    assert_eq!(header.page_size, 4096);
    assert_eq!(header.page_size_as_usize(), 4096);
    assert_eq!(header.version, 0x620);
    assert_eq!(header.format_revision, 0x11);
    assert_eq!(header.version_and_revision(), 0x0000_0620_0000_0011);
    assert_eq!(header.file_type, FileType::StreamingFile);
    assert_eq!(header.state, DbState::CleanShutdown);
    assert_eq!(header.consistent_timestamp.backup_type, BackupType::Other(7));
    assert_eq!(header.checksum, header_xor(&page));
    assert_eq!(header.unknown3, [0, 1, 2, 3, 4, 5, 6, 7, 8, 9, 10, 11, 12, 13, 14, 15]);
}

#[test]
fn any_flipped_bit_behind_the_magic_breaks_the_checksum() {
    let page = header_page(1024);
    let stored = header_xor(&page);
    for byte in (8usize..1024).filter(|byte| !(236..240).contains(byte)) {
        for bit in 0u8..8 {
            let mut broken = page.clone();
            broken[byte] ^= 1 << bit;
            let calculated = header_xor(&broken);
            assert_ne!(calculated, stored);
            assert_eq!(
                read_header(&broken, 0),
                Err(ReadError::WrongHeaderChecksum { calculated, read: stored })
            );
        }
    }
}

#[test]
fn flipped_bit_in_the_page_size_fails_an_earlier_check() {
    let page = header_page(1024);
    let mut odd = page.clone();
    odd[236] ^= 1;
    assert_eq!(read_header(&odd, 0), Err(ReadError::PageSizeNotDivisibleBy4 { page_size: 1025 }));
    let mut long = page.clone();
    long[237] ^= 0x08;
    assert_eq!(read_header(&long, 0), Err(ReadError::Io(IoErrorKind::UnexpectedEof)));
    let mut short = page.clone();
    short[237] ^= 0x04;
    assert_eq!(
        read_header(&short, 0),
        Err(ReadError::HeaderLongerThanPage { header_length: 668, page_size: 0 })
    );
}

#[test]
fn header_checks_come_in_order() {
    let page = header_page(1024);
    assert_eq!(read_header(&page[..667], 0), Err(ReadError::Io(IoErrorKind::UnexpectedEof)));
    assert_eq!(read_header(&page, 400), Err(ReadError::Io(IoErrorKind::UnexpectedEof)));
    assert_eq!(read_header(&page, 2000), Err(ReadError::Io(IoErrorKind::UnexpectedEof)));

    let mut wrong_magic = page.clone();
    wrong_magic[4] = 0xEE;
    assert_eq!(
        read_header(&wrong_magic, 0),
        Err(ReadError::WrongHeaderSignature { expected: 0x89AB_CDEF, read: 0x89AB_CDEE })
    );

    let mut small = page.clone();
    small[236..240].copy_from_slice(&664u32.to_le_bytes());
    assert_eq!(
        read_header(&small, 0),
        Err(ReadError::HeaderLongerThanPage { header_length: 668, page_size: 664 })
    );
    assert_eq!(HEADER_SIZE, 668);

    let mut odd = page.clone();
    odd[236..240].copy_from_slice(&1022u32.to_le_bytes());
    assert_eq!(read_header(&odd, 0), Err(ReadError::PageSizeNotDivisibleBy4 { page_size: 1022 }));

    let mut long = page.clone();
    long[236..240].copy_from_slice(&2048u32.to_le_bytes());
    assert_eq!(read_header(&long, 0), Err(ReadError::Io(IoErrorKind::UnexpectedEof)));
}

#[test]
fn serialized_header_is_decoded_to_itself() {
    let page = header_page(2048);
    let header = read_header(&page, 0).expect("a valid header");
    let mut write = LittleEndianWrite::new();
    header.write_into(&mut write);
    let bytes = write.into_bytes();
    assert_eq!(bytes.len(), 668);
    assert_eq!(&bytes[..], &page[..668]);

    let mut again = bytes.clone();
    again.resize(2048, 0);
    again[700] = 0x5A;
    let decoded = read_header(&again, 0).expect("the same header");
    assert_eq!(decoded, header);
    assert!(decoded.same_as(&header));
    assert_eq!(
        u32::from_le_bytes([again[0], again[1], again[2], again[3]]),
        header_xor(&again)
    );
}

#[test]
fn changed_header_is_serialized_with_its_changes() {
    let page = header_page(1024);
    let mut header: Header = read_header(&page, 0).expect("a valid header");
    header.dbid = 0x0102_0304;
    header.file_type = FileType::Other(9);
    header.state = DbState::Other(0);
    header.required_log = 0x1122_3344_5566_7788;
    let mut write = LittleEndianWrite::new();
    header.write_into(&mut write);
    let mut bytes = write.into_bytes();
    assert_eq!(&bytes[104..108], &[4, 3, 2, 1]);
    assert_eq!(&bytes[12..16], &[9, 0, 0, 0]);
    assert_eq!(&bytes[52..56], &[0, 0, 0, 0]);
    assert_eq!(&bytes[296..304], &[0x88, 0x77, 0x66, 0x55, 0x44, 0x33, 0x22, 0x11]);
    bytes.resize(1024, 0);
    seal_header_page(&mut bytes);
    let decoded = read_header(&bytes, 0).expect("a valid header");
    assert_eq!(decoded.dbid, 0x0102_0304);
    assert_eq!(decoded.file_type, FileType::Other(9));
    assert_eq!(decoded.state.to_base_type(), 0);
    assert_eq!(decoded.required_log, 0x1122_3344_5566_7788);
}

#[test]
fn shadow_header_that_differs_is_reported_beside_the_primary() {
    let primary = header_page(1024);
    let mut file = primary.clone();
    file.extend_from_slice(&primary);
    let (header, same) = read_headers(&file).expect("two valid headers");
    assert!(same);
    assert_eq!(header.page_size, 1024);

    let mut shadow = primary.clone();
    shadow[104] = 0x77;
    seal_header_page(&mut shadow);
    let mut file = primary.clone();
    file.extend_from_slice(&shadow);
    let (header, same) = read_headers(&file).expect("two valid headers");
    assert!(!same);
    assert_eq!(header.dbid, 0);
    assert_eq!(read_header(&file, 1024).expect("the shadow").dbid, 0x77);

    assert_eq!(read_headers(&primary), Err(ReadError::Io(IoErrorKind::UnexpectedEof)));
}

#[test]
fn header_enumerations_keep_unnamed_numbers() {
    assert_eq!(FileType::from_base_type(0), FileType::Database);
    assert_eq!(FileType::from_base_type(1), FileType::StreamingFile);
    assert_eq!(FileType::from_base_type(5).to_base_type(), 5);
    assert_eq!(FileType::Other(0), FileType::Database);
    assert_eq!(BackupType::from_base_type(1), BackupType::Snapshot);
    assert_eq!(BackupType::from_base_type(200).to_base_type(), 200);
    assert_eq!(DbState::from_base_type(2), DbState::DirtyShutdown);
    assert_eq!(DbState::from_base_type(5), DbState::ForceDetach);
    assert_eq!(DbState::from_base_type(0).to_base_type(), 0);
    assert_ne!(DbState::JustCreated, DbState::BeingConverted);
}
