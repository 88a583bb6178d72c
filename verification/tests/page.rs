use esedb::common::DbTime;
use esedb::error::{IoErrorKind, ReadError};
use esedb::header::{read_header, Header};
use esedb::page::{
    decode_page_entry, page_byte_offset, page_tag_data_offset, read_data_for_tag,
    read_data_from_tree, read_page_entry, read_page_header, read_page_tags,
    read_root_page_header, BranchPageEntry, ChecksumAndPageNumber, CommonPageEntry,
    ExtendedPageHeaderOrPageNumber, ExtentSpace, IndexLeafPageEntry, LeafPageEntry, PageEntry,
    PageFlags, PageTag, PageTagFlags, RootPageHeader, SpaceLeafPageEntry, BRANCH_PAGE,
    CATALOG_PAGE_NUMBER, INDEX_PAGE, LEAF_PAGE, MAX_SIZE_SMALL_PAGE, MAX_TREE_DEPTH,
    NEW_CHECKSUM_FORMAT, PAGE_TAG_COMPRESSED, PAGE_TAG_DELETED, ROOT_PAGE, SPACE_TREE_PAGE,
};

fn page_file_header(page_size: u32, version: u32, revision: u32) -> Vec<u8> {
    let mut page = vec![0u8; page_size as usize];
    page[4..8].copy_from_slice(&[0xEF, 0xCD, 0xAB, 0x89]);
    page[8..12].copy_from_slice(&version.to_le_bytes());
    page[232..236].copy_from_slice(&revision.to_le_bytes());
    page[236..240].copy_from_slice(&page_size.to_le_bytes());
    let mut checksum = 0u32;
    let mut at = 8;
    while at + 4 <= page.len() {
        checksum ^= u32::from_le_bytes([page[at], page[at + 1], page[at + 2], page[at + 3]]);
        at += 4;
    }
    page[0..4].copy_from_slice(&checksum.to_le_bytes());
    page
}

fn page_file(page_size: u32, version: u32, revision: u32, pages: usize) -> (Vec<u8>, Header) {
    let head = page_file_header(page_size, version, revision);
    let header = read_header(&head, 0).expect("a valid header");
    let mut file = head.clone();
    file.extend_from_slice(&head);
    file.resize((pages + 2) * page_size as usize, 0);
    (file, header)
}

/// Writes a small page in the old checksum format: payloads one behind the
/// other, and their tags at the end of the page.
fn put_small_page(
    file: &mut [u8],
    page_size: usize,
    number: u64,
    flags: u32,
    payloads: &[(Vec<u8>, u8)],
) {
    let start = (number as usize + 1) * page_size;
    let page = &mut file[start..start + page_size];
    page[0..4].copy_from_slice(&0xAABB_CCDDu32.to_le_bytes());
    page[4..8].copy_from_slice(&(number as u32).to_le_bytes());
    page[8..10].copy_from_slice(&5u16.to_le_bytes());
    page[16..20].copy_from_slice(&11u32.to_le_bytes());
    page[20..24].copy_from_slice(&12u32.to_le_bytes());
    page[24..28].copy_from_slice(&13u32.to_le_bytes());
    page[28..30].copy_from_slice(&14u16.to_le_bytes());
    page[30..32].copy_from_slice(&15u16.to_le_bytes());
    page[32..34].copy_from_slice(&16u16.to_le_bytes());
    page[34..36].copy_from_slice(&(payloads.len() as u16).to_le_bytes());
    page[36..40].copy_from_slice(&flags.to_le_bytes());
    let mut offset = 0usize;
    for (i, (payload, tag_flags)) in payloads.iter().enumerate() {
        page[40 + offset..40 + offset + payload.len()].copy_from_slice(payload);
        let tag_at = page_size - 4 * (i + 1);
        page[tag_at..tag_at + 2].copy_from_slice(&(payload.len() as u16).to_le_bytes());
        let word = offset as u16 | ((*tag_flags as u16) << 13);
        page[tag_at + 2..tag_at + 4].copy_from_slice(&word.to_le_bytes());
        offset += payload.len();
    }
}

fn leaf_payload(key: &[u8], data: &[u8]) -> Vec<u8> {
    let mut payload = (key.len() as u16).to_le_bytes().to_vec();
    payload.extend_from_slice(key);
    payload.extend_from_slice(data);
    payload
}

fn branch_payload(key: &[u8], child: u32) -> Vec<u8> {
    let mut payload = (key.len() as u16).to_le_bytes().to_vec();
    payload.extend_from_slice(key);
    payload.extend_from_slice(&child.to_le_bytes());
    payload
}

#[test]
fn pages_are_addressed_behind_the_two_headers() {
    assert_eq!(page_byte_offset(4096, 1), Ok(8192));
    assert_eq!(page_byte_offset(4096, 4), Ok(20480));
    assert_eq!(page_byte_offset(8192, 1000), Ok(1001 * 8192));
    assert_eq!(page_byte_offset(32768, u32::MAX as u64), Ok((u32::MAX as u64 + 1) * 32768));
    assert_eq!(page_byte_offset(0, 7), Ok(0));
    assert_eq!(page_byte_offset(4096, 0), Err(ReadError::Page0));
    assert_eq!(page_byte_offset(0, 0), Err(ReadError::Page0));
    assert_eq!(page_tag_data_offset(4096, 1, 40, 7), Ok(8192 + 47));
    assert_eq!(page_tag_data_offset(16384, 3, 80, 0x7FFF), Ok(4 * 16384 + 80 + 0x7FFF));
    assert_eq!(page_tag_data_offset(4096, 0, 40, 7), Err(ReadError::Page0));
    assert_eq!(CATALOG_PAGE_NUMBER, 4);
    assert_eq!(MAX_SIZE_SMALL_PAGE, 8192);
}

#[test]
fn page_header_of_the_old_format_holds_its_number() {
    let (mut file, header) = page_file(1024, 0x620, 0x0C, 3);
    put_small_page(&mut file, 1024, 2, LEAF_PAGE, &[(vec![1, 2, 3], 0)]);
    let page_header = read_page_header(&file, &header, 2).expect("a page header");
    assert_eq!(
        page_header.checksum_and_page_number,
        ChecksumAndPageNumber::V1 { xor_checksum: 0xAABB_CCDD, page_number: 2 }
    );
    assert_eq!(page_header.page_number(), 2);
    assert_eq!(page_header.size_bytes(), 40);
    assert_eq!(
        page_header.last_modification_time,
        DbTime { hour: 5, minute: 0, second: 0, padding: 0 }
    );
    assert_eq!(page_header.prev_page_num, 11);
    assert_eq!(page_header.next_page_num, 12);
    assert_eq!(page_header.father_data_page_oid, 13);
    assert_eq!(page_header.available_data_size, 14);
    assert_eq!(page_header.available_uncommitted_data_size, 15);
    assert_eq!(page_header.first_available_data_offset, 16);
    assert_eq!(page_header.first_available_page_tag, 1);
    assert_eq!(page_header.flags, PageFlags { bits: LEAF_PAGE });
    assert!(page_header.flags.contains(LEAF_PAGE));
    assert!(!page_header.flags.contains(ROOT_PAGE));
}

#[test]
fn page_header_fails_on_page_zero_and_past_the_end() {
    let (file, header) = page_file(1024, 0x620, 0x0C, 2);
    assert_eq!(read_page_header(&file, &header, 0), Err(ReadError::Page0));
    assert!(read_page_header(&file, &header, 2).is_ok());
    assert_eq!(
        read_page_header(&file, &header, 3),
        Err(ReadError::Io(IoErrorKind::UnexpectedEof))
    );
    assert_eq!(
        read_page_header(&file, &header, u64::MAX),
        Err(ReadError::Io(IoErrorKind::UnexpectedEof))
    );
    assert_eq!(
        read_page_header(&file[..file.len() - 1000], &header, 2),
        Err(ReadError::Io(IoErrorKind::UnexpectedEof))
    );
}

#[test]
fn page_header_of_the_new_format_depends_on_size_and_revision() {
    // A small page takes its number from the caller.
    let (mut file, header) = page_file(4096, 0x620, 0x0C, 2);
    let start = 3 * 4096;
    file[start..start + 8].copy_from_slice(&0x1122_3344_5566_7788u64.to_le_bytes());
    file[start + 36..start + 40].copy_from_slice(&(NEW_CHECKSUM_FORMAT | LEAF_PAGE).to_le_bytes());
    let page_header = read_page_header(&file, &header, 2).expect("a page header");
    assert_eq!(
        page_header.checksum_and_page_number,
        ChecksumAndPageNumber::V2 {
            xor_checksum: 0x5566_7788,
            ecc_checksum: 0x1122_3344,
            extended_header: ExtendedPageHeaderOrPageNumber::PageNumber(2),
        }
    );
    assert_eq!(page_header.page_number(), 2);
    assert_eq!(page_header.size_bytes(), 40);

    // From revision 0x11 on the eight bytes are one checksum.
    let (mut file, header) = page_file(4096, 0x620, 0x11, 2);
    file[start..start + 8].copy_from_slice(&0x1122_3344_5566_7788u64.to_le_bytes());
    file[start + 36..start + 40].copy_from_slice(&NEW_CHECKSUM_FORMAT.to_le_bytes());
    let page_header = read_page_header(&file, &header, 2).expect("a page header");
    assert_eq!(
        page_header.checksum_and_page_number,
        ChecksumAndPageNumber::V3 {
            checksum: 0x1122_3344_5566_7788,
            extended_header: ExtendedPageHeaderOrPageNumber::PageNumber(2),
        }
    );

    // A large page carries an extended header with its number.
    let (mut file, header) = page_file(16384, 0x620, 0x11, 2);
    let start = 2 * 16384;
    file[start..start + 8].copy_from_slice(&9u64.to_le_bytes());
    file[start + 36..start + 40].copy_from_slice(&NEW_CHECKSUM_FORMAT.to_le_bytes());
    file[start + 40..start + 48].copy_from_slice(&1u64.to_le_bytes());
    file[start + 48..start + 56].copy_from_slice(&2u64.to_le_bytes());
    file[start + 56..start + 64].copy_from_slice(&3u64.to_le_bytes());
    file[start + 64..start + 72].copy_from_slice(&77u64.to_le_bytes());
    file[start + 72..start + 80].copy_from_slice(&5u64.to_le_bytes());
    let page_header = read_page_header(&file, &header, 1).expect("a page header");
    match page_header.checksum_and_page_number {
        ChecksumAndPageNumber::V3 {
            checksum: 9,
            extended_header: ExtendedPageHeaderOrPageNumber::ExtendedPageHeader(extended),
        } => {
            assert_eq!(extended.extended_checksum_1, 1);
            assert_eq!(extended.extended_checksum_2, 2);
            assert_eq!(extended.extended_checksum_3, 3);
            assert_eq!(extended.page_number, 77);
            assert_eq!(extended.unknown, 5);
        },
        other => panic!("unexpected {:?}", other),
    }
    assert_eq!(page_header.page_number(), 77);
    assert_eq!(page_header.size_bytes(), 80);
}

#[test]
fn small_tags_come_out_by_index_with_their_flags() {
    let (mut file, header) = page_file(1024, 0x620, 0x0C, 2);
    put_small_page(
        &mut file,
        1024,
        1,
        LEAF_PAGE,
        &[(vec![0; 16], 0), (vec![1; 5], PAGE_TAG_COMPRESSED), (vec![2; 7], PAGE_TAG_DELETED)],
    );
    let page_header = read_page_header(&file, &header, 1).expect("a page header");
    let tags = read_page_tags(&file, &header, &page_header).expect("three tags");
    assert_eq!(tags.len(), 3);
    assert_eq!(4 * tags.len(), 4 * page_header.first_available_page_tag as usize);
    assert_eq!(
        tags,
        vec![
            PageTag {
                value_offset: 0,
                value_size: 16,
                flags: PageTagFlags { bits: 0 },
                flags_in_data: false
            },
            PageTag {
                value_offset: 16,
                value_size: 5,
                flags: PageTagFlags { bits: PAGE_TAG_COMPRESSED },
                flags_in_data: false
            },
            PageTag {
                value_offset: 21,
                value_size: 7,
                flags: PageTagFlags { bits: PAGE_TAG_DELETED },
                flags_in_data: false
            },
        ]
    );
    // The tag with index 0 stands last in the file.
    assert_eq!(&file[3 * 1024 - 4..3 * 1024], &[16, 0, 0, 0]);
    assert_eq!(read_data_for_tag(&file, &header, &page_header, &tags[1]), Ok(vec![1; 5]));
    assert_eq!(read_data_for_tag(&file, &header, &page_header, &tags[2]), Ok(vec![2; 7]));
}

#[test]
fn page_without_tags_has_none() {
    let (mut file, header) = page_file(1024, 0x620, 0x0C, 1);
    put_small_page(&mut file, 1024, 1, LEAF_PAGE, &[]);
    let page_header = read_page_header(&file, &header, 1).expect("a page header");
    assert_eq!(read_page_tags(&file, &header, &page_header), Ok(vec![]));
}

#[test]
fn tags_that_lie_outside_the_file_fail() {
    let (mut file, header) = page_file(1024, 0x620, 0x0C, 1);
    put_small_page(&mut file, 1024, 1, LEAF_PAGE, &[(vec![0; 4], 0), (vec![1; 4], 0)]);
    let page_header = read_page_header(&file, &header, 1).expect("a page header");
    assert_eq!(
        read_page_tags(&file[..file.len() - 2], &header, &page_header),
        Err(ReadError::Io(IoErrorKind::UnexpectedEof))
    );
    let mut far = page_header;
    far.checksum_and_page_number =
        ChecksumAndPageNumber::V1 { xor_checksum: 0, page_number: 900 };
    assert_eq!(
        read_page_tags(&file, &header, &far),
        Err(ReadError::Io(IoErrorKind::UnexpectedEof))
    );
    let tag =
        PageTag { value_offset: 900, value_size: 200, flags: PageTagFlags { bits: 0 }, flags_in_data: false };
    assert_eq!(
        read_data_for_tag(&file, &header, &page_header, &tag),
        Err(ReadError::Io(IoErrorKind::UnexpectedEof))
    );
    let mut zero = page_header;
    zero.checksum_and_page_number = ChecksumAndPageNumber::V1 { xor_checksum: 0, page_number: 0 };
    assert_eq!(read_data_for_tag(&file, &header, &zero, &tag), Err(ReadError::Page0));
}

#[test]
fn large_tags_take_their_flags_from_the_payload() {
    let (mut file, header) = page_file(16384, 0x620, 0x11, 1);
    let start = 2 * 16384;
    file[start + 34..start + 36].copy_from_slice(&3u16.to_le_bytes());
    file[start + 36..start + 40].copy_from_slice(&(NEW_CHECKSUM_FORMAT | LEAF_PAGE).to_le_bytes());
    file[start + 64..start + 72].copy_from_slice(&1u64.to_le_bytes());
    // Payloads behind the 80 bytes of the header.
    let data = start + 80;
    file[data..data + 2].copy_from_slice(&[0xFF, 0xFF]);
    file[data + 2..data + 6].copy_from_slice(&[0x03, 0x80 | 0x05, 9, 9]);
    file[data + 6..data + 10].copy_from_slice(&[0x04, 0x40 | 0x01, 8, 8]);
    // Tags: index 0 last in the file.
    let end = start + 16384;
    file[end - 4..end].copy_from_slice(&[2, 0x80, 0, 0]);
    file[end - 8..end - 4].copy_from_slice(&[4, 0, 2, 0x80]);
    file[end - 12..end - 8].copy_from_slice(&[4, 0, 6, 0]);
    let page_header = read_page_header(&file, &header, 1).expect("a page header");
    assert_eq!(page_header.size_bytes(), 80);
    let tags = read_page_tags(&file, &header, &page_header).expect("three tags");
    assert_eq!(
        tags,
        vec![
            // The tag with index 0 has no flags, whatever its payload holds.
            PageTag {
                value_offset: 0,
                value_size: 2,
                flags: PageTagFlags { bits: 0 },
                flags_in_data: true
            },
            PageTag {
                value_offset: 2,
                value_size: 4,
                flags: PageTagFlags { bits: 4 },
                flags_in_data: true
            },
            PageTag {
                value_offset: 6,
                value_size: 4,
                flags: PageTagFlags { bits: 2 },
                flags_in_data: true
            },
        ]
    );
    // The entry decoder clears the flag bits of the payload.
    let entry = read_page_entry(&file, &header, &page_header, &tags[1]);
    assert_eq!(entry, Err(ReadError::Io(IoErrorKind::UnexpectedEof)));
    let mut index_leaf = page_header;
    index_leaf.flags = PageFlags { bits: LEAF_PAGE | INDEX_PAGE };
    assert_eq!(
        read_page_entry(&file, &header, &index_leaf, &tags[1]),
        Ok(PageEntry::IndexLeaf(IndexLeafPageEntry { record_page_key: vec![0x03, 0x05, 9, 9] }))
    );
}

#[test]
fn the_only_tag_of_a_large_page_has_no_flags() {
    let (mut file, header) = page_file(16384, 0x620, 0x11, 1);
    let start = 2 * 16384;
    file[start + 34..start + 36].copy_from_slice(&1u16.to_le_bytes());
    file[start + 36..start + 40].copy_from_slice(&(NEW_CHECKSUM_FORMAT | LEAF_PAGE).to_le_bytes());
    file[start + 64..start + 72].copy_from_slice(&1u64.to_le_bytes());
    let data = start + 80;
    file[data..data + 4].copy_from_slice(&[0x01, 0xE2, 3, 4]);
    let end = start + 16384;
    file[end - 4..end].copy_from_slice(&[4, 0, 0, 0]);
    let page_header = read_page_header(&file, &header, 1).expect("a page header");
    let tags = read_page_tags(&file, &header, &page_header).expect("one tag");
    assert_eq!(
        tags,
        vec![PageTag {
            value_offset: 0,
            value_size: 4,
            flags: PageTagFlags { bits: 0 },
            flags_in_data: true
        }]
    );
    // Its payload is short of nothing even where the file ends behind the tag's first byte.
    assert_eq!(
        read_data_for_tag(&file, &header, &page_header, &tags[0]),
        Ok(vec![0x01, 0xE2, 3, 4])
    );
}

#[test]
fn entries_take_their_shape_from_the_page() {
    let plain = PageTag {
        value_offset: 0,
        value_size: 0,
        flags: PageTagFlags { bits: 0 },
        flags_in_data: false,
    };
    let compressed = PageTag { flags: PageTagFlags { bits: PAGE_TAG_COMPRESSED }, ..plain };
    let key = CommonPageEntry { common_page_key_size: None, local_page_key: vec![0xA, 0xB] };
    let branch = BranchPageEntry { common: key.clone(), child_page_number: 0x0102_0304 };
    let payload = vec![2, 0, 0xA, 0xB, 4, 3, 2, 1, 9];

    assert_eq!(
        decode_page_entry(payload.clone(), PageFlags { bits: ROOT_PAGE | LEAF_PAGE }, &plain),
        Ok(PageEntry::Root(branch.clone()))
    );
    assert_eq!(
        decode_page_entry(payload.clone(), PageFlags { bits: BRANCH_PAGE }, &plain),
        Ok(PageEntry::Branch(branch.clone()))
    );
    assert_eq!(
        decode_page_entry(
            payload.clone(),
            PageFlags { bits: BRANCH_PAGE | SPACE_TREE_PAGE | INDEX_PAGE },
            &plain
        ),
        Ok(PageEntry::SpaceBranch(branch.clone()))
    );
    assert_eq!(
        decode_page_entry(payload.clone(), PageFlags { bits: BRANCH_PAGE | INDEX_PAGE }, &plain),
        Ok(PageEntry::IndexBranch(branch.clone()))
    );
    assert_eq!(
        decode_page_entry(payload.clone(), PageFlags { bits: LEAF_PAGE }, &plain),
        Ok(PageEntry::Leaf(LeafPageEntry { common: key.clone(), entry_data: vec![4, 3, 2, 1, 9] }))
    );
    assert_eq!(
        decode_page_entry(payload.clone(), PageFlags { bits: LEAF_PAGE | SPACE_TREE_PAGE }, &plain),
        Ok(PageEntry::SpaceLeaf(SpaceLeafPageEntry {
            common: key.clone(),
            number_of_pages: 0x0102_0304
        }))
    );
    assert_eq!(
        decode_page_entry(payload.clone(), PageFlags { bits: LEAF_PAGE | INDEX_PAGE }, &plain),
        Ok(PageEntry::IndexLeaf(IndexLeafPageEntry { record_page_key: payload.clone() }))
    );
    assert_eq!(
        decode_page_entry(payload.clone(), PageFlags { bits: 0 }, &plain),
        Err(ReadError::UnknownPageType)
    );
    assert_eq!(
        decode_page_entry(payload.clone(), PageFlags { bits: SPACE_TREE_PAGE }, &plain),
        Err(ReadError::UnknownPageType)
    );

    // A compressed tag opens with the size of the common key.
    assert_eq!(
        decode_page_entry(vec![7, 0, 1, 0, 0xC, 5, 6], PageFlags { bits: LEAF_PAGE }, &compressed),
        Ok(PageEntry::Leaf(LeafPageEntry {
            common: CommonPageEntry { common_page_key_size: Some(7), local_page_key: vec![0xC] },
            entry_data: vec![5, 6]
        }))
    );

    // Flags in the payload are cleared before anything is read.
    let in_data = PageTag { flags_in_data: true, ..plain };
    assert_eq!(
        decode_page_entry(vec![1, 0xE0, 0xD, 1], PageFlags { bits: LEAF_PAGE }, &in_data),
        Ok(PageEntry::Leaf(LeafPageEntry {
            common: CommonPageEntry { common_page_key_size: None, local_page_key: vec![0xD] },
            entry_data: vec![1]
        }))
    );

    // A key block that does not fit is a failure, whatever the page is.
    for short in [vec![], vec![2], vec![2, 0, 1], vec![0, 0, 1, 2, 3]] {
        let flags = if short.len() == 5 { BRANCH_PAGE } else { 0 };
        assert_eq!(
            decode_page_entry(short, PageFlags { bits: flags }, &plain),
            Err(ReadError::Io(IoErrorKind::UnexpectedEof))
        );
    }
    assert_eq!(branch.child_page_number, 0x0102_0304);
}

#[test]
fn branch_entries_are_told_from_the_others() {
    let key = CommonPageEntry { common_page_key_size: None, local_page_key: vec![] };
    let branch = BranchPageEntry { common: key.clone(), child_page_number: 3 };
    assert_eq!(PageEntry::Root(branch.clone()).as_branch(), Some(&branch));
    assert_eq!(PageEntry::Branch(branch.clone()).as_branch(), Some(&branch));
    assert_eq!(PageEntry::SpaceBranch(branch.clone()).as_branch(), Some(&branch));
    assert_eq!(PageEntry::IndexBranch(branch.clone()).as_branch(), Some(&branch));
    assert_eq!(
        PageEntry::Leaf(LeafPageEntry { common: key.clone(), entry_data: vec![] }).as_branch(),
        None
    );
    assert_eq!(
        PageEntry::SpaceLeaf(SpaceLeafPageEntry { common: key, number_of_pages: 1 }).as_branch(),
        None
    );
    assert_eq!(
        PageEntry::IndexLeaf(IndexLeafPageEntry { record_page_key: vec![] }).as_branch(),
        None
    );
}

#[test]
fn root_page_header_has_two_lengths() {
    let short: Vec<u8> = vec![1, 0, 0, 0, 2, 0, 0, 0, 1, 0, 0, 0, 4, 0, 0, 0];
    match read_root_page_header(&short) {
        Ok(RootPageHeader::Short(h)) => {
            assert_eq!(h.initial_page_count, 1);
            assert_eq!(h.parent_father_data_page_number, 2);
            assert_eq!(h.extent_space, ExtentSpace::Multiple);
            assert_eq!(h.space_tree_page_number, 4);
        },
        other => panic!("unexpected {:?}", other),
    }
    let mut long = vec![1, 0, 0, 0, 9, 2, 0, 0, 0, 7, 0, 0, 0, 4, 0, 0, 0];
    long.extend_from_slice(&[5, 0, 0, 0, 6, 0, 0, 0]);
    let header = read_root_page_header(&long).expect("the long form");
    assert_eq!(header.initial_page_count(), 1);
    assert_eq!(header.parent_father_data_page_number(), 2);
    assert_eq!(header.extent_space().to_base_type(), 7);
    assert_eq!(header.space_tree_page_number(), 4);
    match header {
        RootPageHeader::Long(h) => {
            assert_eq!(h.unknown1, 9);
            assert_eq!(h.unknown2, 5);
            assert_eq!(h.unknown3, 6);
        },
        other => panic!("unexpected {:?}", other),
    }
    assert_eq!(read_root_page_header(&long[..24]), Err(ReadError::UnknownFormatVariant));
    assert_eq!(read_root_page_header(&[]), Err(ReadError::UnknownFormatVariant));
    assert_eq!(ExtentSpace::from_base_type(0), ExtentSpace::Single);
}

/// A tree of three levels: page 1 is the root, page 2 a branch under it with
/// the leaves 3 and 4, and page 5 a leaf directly under the root.
fn tree_file() -> (Vec<u8>, Header) {
    let (mut file, header) = page_file(1024, 0x620, 0x0C, 6);
    let head = (vec![0u8; 16], 0u8);
    put_small_page(
        &mut file,
        1024,
        1,
        ROOT_PAGE | BRANCH_PAGE,
        &[head.clone(), (branch_payload(b"k", 2), 0), (branch_payload(b"", 5), 0)],
    );
    put_small_page(
        &mut file,
        1024,
        2,
        BRANCH_PAGE,
        &[head.clone(), (branch_payload(b"a", 3), 0), (branch_payload(b"b", 4), 0)],
    );
    put_small_page(
        &mut file,
        1024,
        3,
        LEAF_PAGE,
        &[head.clone(), (leaf_payload(b"x", b"one"), 0), (leaf_payload(b"", b"two"), 0)],
    );
    put_small_page(&mut file, 1024, 4, LEAF_PAGE, &[head.clone(), (leaf_payload(b"y", b"three"), 0)]);
    put_small_page(
        &mut file,
        1024,
        5,
        LEAF_PAGE,
        &[head.clone(), (leaf_payload(b"", b"four"), 0), (leaf_payload(b"", b"five"), 0)],
    );
    (file, header)
}

fn walked(file: &[u8], header: &Header, start: usize, max: usize) -> (Vec<Vec<u8>>, usize) {
    let mut out = Vec::new();
    let mut cursor = 0;
    read_data_from_tree(file, header, 1, start, max, &mut out, &mut cursor).expect("a walk");
    (out, cursor)
}

#[test]
fn tree_walk_yields_leaf_payloads_in_tag_order() {
    let (file, header) = tree_file();
    let all: Vec<Vec<u8>> =
        vec![b"one".to_vec(), b"two".to_vec(), b"three".to_vec(), b"four".to_vec(), b"five".to_vec()];
    assert_eq!(walked(&file, &header, 0, usize::MAX), (all.clone(), 5));
    assert_eq!(walked(&file, &header, 2, usize::MAX), (all[2..].to_vec(), 5));
    assert_eq!(walked(&file, &header, 9, usize::MAX), (vec![], 5));
    assert_eq!(walked(&file, &header, 0, 0), (vec![], 0));
}

#[test]
fn tree_walk_stops_behind_the_page_that_fills_the_output() {
    let (file, header) = tree_file();
    // The leaf that holds the first kept payload is read to its end.
    assert_eq!(walked(&file, &header, 0, 1), (vec![b"one".to_vec(), b"two".to_vec()], 2));
    assert_eq!(walked(&file, &header, 1, 1), (vec![b"two".to_vec()], 2));
    assert_eq!(walked(&file, &header, 2, 1), (vec![b"three".to_vec()], 3));
    assert_eq!(walked(&file, &header, 3, 1), (vec![b"four".to_vec(), b"five".to_vec()], 5));
    assert_eq!(
        walked(&file, &header, 1, 2),
        (vec![b"two".to_vec(), b"three".to_vec()], 3)
    );
}

#[test]
fn tree_walk_goes_on_from_where_it_stands() {
    let (file, header) = tree_file();
    let mut out = vec![b"kept".to_vec()];
    let mut cursor = 0;
    read_data_from_tree(&file, &header, 2, 1, 3, &mut out, &mut cursor).expect("a walk");
    assert_eq!(out, vec![b"kept".to_vec(), b"two".to_vec(), b"three".to_vec()]);
    assert_eq!(cursor, 3);
    // Nothing more is wanted: no page is entered.
    read_data_from_tree(&file, &header, 900, 0, 3, &mut out, &mut cursor).expect("no walk");
    assert_eq!(out.len(), 3);
    assert_eq!(cursor, 3);
}

#[test]
fn tree_walk_fails_on_a_cycle_and_on_missing_pages() {
    let (mut file, header) = page_file(1024, 0x620, 0x0C, 2);
    let head = (vec![0u8; 16], 0u8);
    put_small_page(&mut file, 1024, 1, BRANCH_PAGE, &[head.clone(), (branch_payload(b"", 2), 0)]);
    put_small_page(&mut file, 1024, 2, BRANCH_PAGE, &[head.clone(), (branch_payload(b"", 1), 0)]);
    let mut out = vec![b"kept".to_vec()];
    let mut cursor = 3;
    assert_eq!(
        read_data_from_tree(&file, &header, 1, 0, 10, &mut out, &mut cursor),
        Err(ReadError::Io(IoErrorKind::InvalidData))
    );
    assert_eq!(out[0], b"kept".to_vec());
    assert!(cursor >= 3);
    assert_eq!(MAX_TREE_DEPTH, 64);
    put_small_page(&mut file, 1024, 2, BRANCH_PAGE, &[head.clone(), (branch_payload(b"", 9), 0)]);
    assert_eq!(
        read_data_from_tree(&file, &header, 1, 0, 10, &mut out, &mut cursor),
        Err(ReadError::Io(IoErrorKind::UnexpectedEof))
    );
    put_small_page(&mut file, 1024, 2, BRANCH_PAGE, &[head.clone(), (branch_payload(b"", 0), 0)]);
    assert_eq!(
        read_data_from_tree(&file, &header, 1, 0, 10, &mut out, &mut cursor),
        Err(ReadError::Page0)
    );
    put_small_page(&mut file, 1024, 2, 0, &[head.clone(), (branch_payload(b"", 1), 0)]);
    assert_eq!(
        read_data_from_tree(&file, &header, 1, 0, 10, &mut out, &mut cursor),
        Err(ReadError::UnknownPageType)
    );
}

#[test]
fn tree_walk_that_fails_keeps_what_it_has_gathered() {
    let (mut file, header) = tree_file();
    // The second child of page 2 is gone: the payloads of the first stay.
    let head = (vec![0u8; 16], 0u8);
    put_small_page(
        &mut file,
        1024,
        2,
        BRANCH_PAGE,
        &[head.clone(), (branch_payload(b"a", 3), 0), (branch_payload(b"b", 99), 0)],
    );
    let mut out = vec![b"kept".to_vec()];
    let mut cursor = 0;
    assert_eq!(
        read_data_from_tree(&file, &header, 1, 1, 10, &mut out, &mut cursor),
        Err(ReadError::Io(IoErrorKind::UnexpectedEof))
    );
    assert_eq!(out, vec![b"kept".to_vec(), b"two".to_vec()]);
    assert_eq!(cursor, 2);
    // A leaf entry that cannot be decoded ends the walk before it is counted.
    let (mut file, header) = tree_file();
    put_small_page(
        &mut file,
        1024,
        3,
        LEAF_PAGE,
        &[head.clone(), (leaf_payload(b"x", b"one"), 0), (vec![9, 0, 1], 0)],
    );
    let mut out = Vec::new();
    let mut cursor = 0;
    assert_eq!(
        read_data_from_tree(&file, &header, 1, 0, 10, &mut out, &mut cursor),
        Err(ReadError::Io(IoErrorKind::UnexpectedEof))
    );
    assert_eq!(out, vec![b"one".to_vec()]);
    assert_eq!(cursor, 1);
}

#[test]
fn page_flags_are_sets_of_bits() {
    let flags = PageFlags::from_bits_retain(ROOT_PAGE | LEAF_PAGE | 0x1000);
    assert_eq!(flags.bits(), 0x1003);
    assert!(flags.contains(ROOT_PAGE));
    assert!(flags.contains(ROOT_PAGE | LEAF_PAGE));
    assert!(!flags.contains(ROOT_PAGE | BRANCH_PAGE));
    assert!(PageFlags::empty().contains(0));
    assert_eq!(PageTagFlags::from_bits_retain(5).bits(), 5);
    assert!(PageTagFlags::from_bits_retain(5).contains(PAGE_TAG_COMPRESSED));
    assert!(!PageTagFlags::empty().contains(PAGE_TAG_DELETED));
}
