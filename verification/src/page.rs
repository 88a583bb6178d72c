//! Pages: addressing, page headers, page tags, page entries and the walk
//! through a tree of pages.

use vstd::prelude::*;

use crate::byte_io::{
    copy_range, in_bounds, le_u16_at, le_u32_at, le_u64_at, lemma_u16_round_trip, u16_at,
    u16_bytes, u32_at, u32_bytes, u64_at, u64_bytes, ByteRead, ByteWrite, LittleEndianRead,
    ReadFromBytes, WriteToBytes,
};
use crate::common::DbTime;
use crate::error::{IoErrorKind, ReadError, WriteError};
use crate::header::Header;

verus! {

/// The largest size of a small page. On larger pages the page tags have the
/// large format.
pub const MAX_SIZE_SMALL_PAGE: u32 = 8192;

/// The page at which the tree of the catalog is rooted.
pub const CATALOG_PAGE_NUMBER: u64 = 4;

/// From this version and revision on the first eight bytes of a page are one
/// checksum.
pub const SINGLE_CHECKSUM_SINCE: u64 = 0x0000_0620_0000_0011;

pub const ROOT_PAGE: u32 = 0x0000_0001;

pub const LEAF_PAGE: u32 = 0x0000_0002;

pub const BRANCH_PAGE: u32 = 0x0000_0004;

pub const EMPTY_PAGE: u32 = 0x0000_0008;

pub const REPAIR_PAGE: u32 = 0x0000_0010;

pub const SPACE_TREE_PAGE: u32 = 0x0000_0020;

pub const INDEX_PAGE: u32 = 0x0000_0040;

pub const LONG_VALUE_PAGE: u32 = 0x0000_0080;

pub const SLV_AVAIL_PAGE: u32 = 0x0000_0100;

pub const SLV_OWNER_MAP_PAGE: u32 = 0x0000_0200;

pub const NON_UNIQUE_KEYS: u32 = 0x0000_0400;

pub const NEW_RECORD_FORMAT: u32 = 0x0000_0800;

pub const NEW_CHECKSUM_FORMAT: u32 = 0x0000_2000;

pub const SCRUBBED: u32 = 0x0000_4000;

/// The two bits `0x0001_8000` tell how the page was flushed.
pub const ROCK_WRITE: u32 = 0x0000_8000;

pub const PAPER_WRITE: u32 = 0x0001_0000;

pub const SCISSORS_WRITE: u32 = 0x0001_8000;

pub const PREINITIALIZED: u32 = 0x0002_0000;

/// The flag bits of a page header. The constants of this module name them.
#[derive(Clone, Copy, Debug, PartialEq, Eq, Structural, PartialOrd, Ord, Hash)]
pub struct PageFlags {
    pub bits: u32,
}

impl PageFlags {
    /// Whether every bit of `mask` is set.
    pub open spec fn spec_contains(&self, mask: u32) -> bool {
        self.bits & mask == mask
    }

    #[verifier::when_used_as_spec(spec_contains)]
    pub fn contains(&self, mask: u32) -> (r: bool)
        ensures
            r == self.spec_contains(mask),
    {
        self.bits & mask == mask
    }

    pub fn from_bits_retain(bits: u32) -> (r: PageFlags)
        ensures
            r.bits == bits,
    {
        PageFlags { bits }
    }

    pub fn bits(&self) -> (r: u32)
        ensures
            r == self.bits,
    {
        self.bits
    }

    pub fn empty() -> (r: PageFlags)
        ensures
            r.bits == 0,
    {
        PageFlags { bits: 0 }
    }
}

pub const PAGE_TAG_VERSION: u8 = 0x1;

pub const PAGE_TAG_DELETED: u8 = 0x2;

pub const PAGE_TAG_COMPRESSED: u8 = 0x4;

/// The three flag bits of a page tag.
#[derive(Clone, Copy, Debug, PartialEq, Eq, Structural, PartialOrd, Ord, Hash)]
pub struct PageTagFlags {
    pub bits: u8,
}

impl PageTagFlags {
    /// Whether every bit of `mask` is set.
    pub open spec fn spec_contains(&self, mask: u8) -> bool {
        self.bits & mask == mask
    }

    #[verifier::when_used_as_spec(spec_contains)]
    pub fn contains(&self, mask: u8) -> (r: bool)
        ensures
            r == self.spec_contains(mask),
    {
        self.bits & mask == mask
    }

    pub fn from_bits_retain(bits: u8) -> (r: PageTagFlags)
        ensures
            r.bits == bits,
    {
        PageTagFlags { bits }
    }

    pub fn bits(&self) -> (r: u8)
        ensures
            r == self.bits,
    {
        self.bits
    }

    pub fn empty() -> (r: PageTagFlags)
        ensures
            r.bits == 0,
    {
        PageTagFlags { bits: 0 }
    }
}

/// The second half of the header of a large page: forty bytes on disk.
#[derive(Clone, Copy, Debug, PartialEq, Eq, Structural, PartialOrd, Ord, Hash)]
pub struct ExtendedPageHeader {
    pub extended_checksum_1: u64,
    pub extended_checksum_2: u64,
    pub extended_checksum_3: u64,
    pub page_number: u64,
    pub unknown: u64,
}

impl ExtendedPageHeader {
    /// The value stored at `s[at..at + 40]`.
    pub open spec fn spec_parse(s: Seq<u8>, at: int) -> ExtendedPageHeader {
        ExtendedPageHeader {
            extended_checksum_1: le_u64_at(s, at),
            extended_checksum_2: le_u64_at(s, at + 8),
            extended_checksum_3: le_u64_at(s, at + 16),
            page_number: le_u64_at(s, at + 24),
            unknown: le_u64_at(s, at + 32),
        }
    }

    /// Decodes the value stored at `data[at..at + 40]`.
    pub fn parse(data: &[u8], at: usize) -> (r: ExtendedPageHeader)
        requires
            at + 40 <= data.len(),
        ensures
            r == Self::spec_parse(data@, at as int),
    {
        ExtendedPageHeader {
            extended_checksum_1: u64_at(data, at),
            extended_checksum_2: u64_at(data, at + 8),
            extended_checksum_3: u64_at(data, at + 16),
            page_number: u64_at(data, at + 24),
            unknown: u64_at(data, at + 32),
        }
    }
}

/// Where the number of a page with the new checksum format comes from: from
/// the extended header of a large page, or from the caller for a small one.
#[derive(Clone, Copy, Debug, PartialEq, Eq, Structural, PartialOrd, Ord, Hash)]
pub enum ExtendedPageHeaderOrPageNumber {
    ExtendedPageHeader(ExtendedPageHeader),
    PageNumber(u64),
}

impl ExtendedPageHeaderOrPageNumber {
    pub open spec fn spec_page_number(&self) -> u64 {
        match self {
            ExtendedPageHeaderOrPageNumber::ExtendedPageHeader(eph) => eph.page_number,
            ExtendedPageHeaderOrPageNumber::PageNumber(pn) => *pn,
        }
    }

    #[verifier::when_used_as_spec(spec_page_number)]
    pub fn page_number(&self) -> (r: u64)
        ensures
            r == self.spec_page_number(),
    {
        match self {
            ExtendedPageHeaderOrPageNumber::ExtendedPageHeader(eph) => eph.page_number,
            ExtendedPageHeaderOrPageNumber::PageNumber(pn) => *pn,
        }
    }

    pub open spec fn spec_page_header_size_bytes(&self) -> u64 {
        match self {
            ExtendedPageHeaderOrPageNumber::ExtendedPageHeader(_) => 80,
            ExtendedPageHeaderOrPageNumber::PageNumber(_) => 40,
        }
    }

    #[verifier::when_used_as_spec(spec_page_header_size_bytes)]
    pub fn page_header_size_bytes(&self) -> (r: u64)
        ensures
            r == self.spec_page_header_size_bytes(),
    {
        match self {
            ExtendedPageHeaderOrPageNumber::ExtendedPageHeader(_) => 80,
            ExtendedPageHeaderOrPageNumber::PageNumber(_) => 40,
        }
    }
}

/// The first eight bytes of a page, read by the format that the page has.
#[derive(Clone, Copy, Debug, PartialEq, Eq, Structural, PartialOrd, Ord, Hash)]
pub enum ChecksumAndPageNumber {
    V1 { xor_checksum: u32, page_number: u32 },
    V2 { xor_checksum: u32, ecc_checksum: u32, extended_header: ExtendedPageHeaderOrPageNumber },
    V3 { checksum: u64, extended_header: ExtendedPageHeaderOrPageNumber },
}

impl ChecksumAndPageNumber {
    pub open spec fn spec_page_number(&self) -> u64 {
        match self {
            ChecksumAndPageNumber::V1 { page_number, .. } => *page_number as u64,
            ChecksumAndPageNumber::V2 { extended_header, .. } => extended_header.page_number(),
            ChecksumAndPageNumber::V3 { extended_header, .. } => extended_header.page_number(),
        }
    }

    #[verifier::when_used_as_spec(spec_page_number)]
    pub fn page_number(&self) -> (r: u64)
        ensures
            r == self.spec_page_number(),
    {
        match self {
            ChecksumAndPageNumber::V1 { page_number, .. } => *page_number as u64,
            ChecksumAndPageNumber::V2 { extended_header, .. } => extended_header.page_number(),
            ChecksumAndPageNumber::V3 { extended_header, .. } => extended_header.page_number(),
        }
    }
}

/// The header of a page, whatever its format.
#[derive(Clone, Copy, Debug, PartialEq, Eq, Structural, PartialOrd, Ord, Hash)]
pub struct PageHeader {
    pub checksum_and_page_number: ChecksumAndPageNumber,
    pub last_modification_time: DbTime,
    pub prev_page_num: u32,
    pub next_page_num: u32,
    pub father_data_page_oid: u32,
    pub available_data_size: u16,
    pub available_uncommitted_data_size: u16,
    pub first_available_data_offset: u16,
    pub first_available_page_tag: u16,
    pub flags: PageFlags,
}

impl PageHeader {
    pub open spec fn spec_page_number(&self) -> u64 {
        self.checksum_and_page_number.page_number()
    }

    #[verifier::when_used_as_spec(spec_page_number)]
    pub fn page_number(&self) -> (r: u64)
        ensures
            r == self.spec_page_number(),
    {
        self.checksum_and_page_number.page_number()
    }

    /// The number of bytes that the page header takes: 40, or 80 with an
    /// extended header.
    pub open spec fn spec_size_bytes(&self) -> u64 {
        match &self.checksum_and_page_number {
            ChecksumAndPageNumber::V1 { .. } => 40,
            ChecksumAndPageNumber::V2 {
                extended_header,
                ..
            } => extended_header.page_header_size_bytes(),
            ChecksumAndPageNumber::V3 {
                extended_header,
                ..
            } => extended_header.page_header_size_bytes(),
        }
    }

    #[verifier::when_used_as_spec(spec_size_bytes)]
    pub fn size_bytes(&self) -> (r: u64)
        ensures
            r == self.spec_size_bytes(),
            r == 40 || r == 80,
    {
        match &self.checksum_and_page_number {
            ChecksumAndPageNumber::V1 { .. } => 40,
            ChecksumAndPageNumber::V2 {
                extended_header,
                ..
            } => extended_header.page_header_size_bytes(),
            ChecksumAndPageNumber::V3 {
                extended_header,
                ..
            } => extended_header.page_header_size_bytes(),
        }
    }
}

/// The byte offset of page `page_number` in a file of pages of `page_size`
/// bytes. Pages are numbered from 1, after the two header pages.
pub open spec fn page_offset(page_size: u32, page_number: u64) -> int {
    (page_number + 1) * page_size
}

/// The byte offset at which page `page_number` starts; there is no page 0.
pub fn page_byte_offset(page_size: u32, page_number: u64) -> (r: Result<u64, ReadError>)
    requires
        page_offset(page_size, page_number) <= u64::MAX,
    ensures
        page_number == 0 ==> r == Err::<u64, ReadError>(ReadError::Page0),
        page_number >= 1 ==> r == Ok::<u64, ReadError>(
            ((page_number + 1) * page_size) as u64,
        ),
{
    if page_number == 0 {
        return Err(ReadError::Page0);
    }
    if page_size == 0 {
        assert((page_number + 1) * page_size == 0) by (nonlinear_arith)
            requires
                page_size == 0,
        ;
        return Ok(0);
    }
    assert(page_number + 1 <= u64::MAX) by (nonlinear_arith)
        requires
            (page_number + 1) * page_size <= u64::MAX,
            page_size >= 1,
    ;
    let page_index = page_number + 1;
    let byte_offset = page_index * (page_size as u64);
    Ok(byte_offset)
}

/// The byte offset of the payload of a page tag: the page's offset, then the
/// page header, then the tag's own offset.
pub fn page_tag_data_offset(
    page_size: u32,
    page_number: u64,
    page_header_size: u64,
    tag_value_offset: u16,
) -> (r: Result<u64, ReadError>)
    requires
        page_offset(page_size, page_number) + page_header_size + tag_value_offset <= u64::MAX,
    ensures
        page_number == 0 ==> r == Err::<u64, ReadError>(ReadError::Page0),
        page_number >= 1 ==> r == Ok::<u64, ReadError>(
            ((page_number + 1) * page_size + page_header_size + tag_value_offset) as u64,
        ),
{
    let page_offset = page_byte_offset(page_size, page_number)?;
    Ok(page_offset + page_header_size + (tag_value_offset as u64))
}

/// The byte offset of page `page_number`, where the page starts inside the
/// file or at its end.
pub fn locate_page(data: &[u8], page_size: u32, page_number: u64) -> (r: Option<u64>)
    ensures
        page_offset(page_size, page_number) <= data@.len() ==> r == Some(
            page_offset(page_size, page_number) as u64,
        ),
        page_offset(page_size, page_number) > data@.len() ==> r.is_none(),
        data@.len() <= u64::MAX,
{
    let wide: u128 = wide_page_offset(page_size, page_number);
    if wide <= (data.len() as u128) {
        Some(wide as u64)
    } else {
        None
    }
}

/// The byte offset of page `page_number`, which may lie past every file.
fn wide_page_offset(page_size: u32, page_number: u64) -> (r: u128)
    ensures
        r == page_offset(page_size, page_number),
        r + page_size <= 0x2_0000_0000_0000_0000_0000_0000,
{
    assert((page_number + 1) * page_size <= 0x1_0000_0000_0000_0000 * 0x1_0000_0000)
        by (nonlinear_arith)
        requires
            page_number + 1 <= 0x1_0000_0000_0000_0000,
            page_size <= 0x1_0000_0000,
    ;
    ((page_number as u128) + 1) * (page_size as u128)
}


/// What decoding the header of page `page_number` gives.
///
/// Without the new checksum format the first eight bytes hold a checksum
/// and the page's number. With it, a large page carries an extended header
/// and a small page takes its number from the caller; the header's version
/// and revision decide between two checksums and a single one.
pub open spec fn spec_read_page_header(s: Seq<u8>, header: Header, page_number: u64) -> Result<
    PageHeader,
    ReadError,
> {
    let off = page_offset(header.page_size, page_number);
    let value = le_u64_at(s, off);
    let flags = PageFlags { bits: le_u32_at(s, off + 36) };
    let extended = if header.page_size <= MAX_SIZE_SMALL_PAGE {
        ExtendedPageHeaderOrPageNumber::PageNumber(page_number)
    } else {
        ExtendedPageHeaderOrPageNumber::ExtendedPageHeader(
            ExtendedPageHeader::spec_parse(s, off + 40),
        )
    };
    let low = (value % 0x1_0000_0000) as u32;
    let high = (value / 0x1_0000_0000) as u32;
    let checksum_and_page_number = if !flags.contains(NEW_CHECKSUM_FORMAT) {
        ChecksumAndPageNumber::V1 { xor_checksum: low, page_number: high }
    } else if header.version_and_revision() >= SINGLE_CHECKSUM_SINCE {
        ChecksumAndPageNumber::V3 { checksum: value, extended_header: extended }
    } else {
        ChecksumAndPageNumber::V2 {
            xor_checksum: low,
            ecc_checksum: high,
            extended_header: extended,
        }
    };
    if page_number == 0 {
        Err(ReadError::Page0)
    } else if off + 40 > s.len() {
        Err(ReadError::Io(IoErrorKind::UnexpectedEof))
    } else if flags.contains(NEW_CHECKSUM_FORMAT) && header.page_size > MAX_SIZE_SMALL_PAGE && off
        + 80 > s.len() {
        Err(ReadError::Io(IoErrorKind::UnexpectedEof))
    } else {
        Ok(
            PageHeader {
                checksum_and_page_number,
                last_modification_time: DbTime::spec_parse(s, off + 8),
                prev_page_num: le_u32_at(s, off + 16),
                next_page_num: le_u32_at(s, off + 20),
                father_data_page_oid: le_u32_at(s, off + 24),
                available_data_size: le_u16_at(s, off + 28),
                available_uncommitted_data_size: le_u16_at(s, off + 30),
                first_available_data_offset: le_u16_at(s, off + 32),
                first_available_page_tag: le_u16_at(s, off + 34),
                flags,
            },
        )
    }
}

/// Decodes the header of page `page_number` of the file `data`.
pub fn read_page_header(data: &[u8], header: &Header, page_number: u64) -> (r: Result<
    PageHeader,
    ReadError,
>)
    ensures
        r == spec_read_page_header(data@, *header, page_number),
{
    if page_number == 0 {
        return Err(ReadError::Page0);
    }
    let byte_offset = match locate_page(data, header.page_size, page_number) {
        Some(offset) => offset,
        None => { return Err(ReadError::Io(IoErrorKind::UnexpectedEof)); },
    };
    if !in_bounds(data, byte_offset, 40) {
        return Err(ReadError::Io(IoErrorKind::UnexpectedEof));
    }
    let at: usize = byte_offset as usize;
    let value = u64_at(data, at);
    let flags = PageFlags::from_bits_retain(u32_at(data, at + 36));
    let low: u32 = (value % 0x1_0000_0000) as u32;
    let high: u32 = (value / 0x1_0000_0000) as u32;
    let checksum_and_page_number = if flags.contains(NEW_CHECKSUM_FORMAT) {
        let extended_header = if header.page_size <= MAX_SIZE_SMALL_PAGE {
            ExtendedPageHeaderOrPageNumber::PageNumber(page_number)
        } else {
            if !in_bounds(data, byte_offset, 80) {
                return Err(ReadError::Io(IoErrorKind::UnexpectedEof));
            }
            ExtendedPageHeaderOrPageNumber::ExtendedPageHeader(
                ExtendedPageHeader::parse(data, at + 40),
            )
        };
        if header.version_and_revision() >= SINGLE_CHECKSUM_SINCE {
            ChecksumAndPageNumber::V3 { checksum: value, extended_header }
        } else {
            ChecksumAndPageNumber::V2 { xor_checksum: low, ecc_checksum: high, extended_header }
        }
    } else {
        ChecksumAndPageNumber::V1 { xor_checksum: low, page_number: high }
    };
    Ok(
        PageHeader {
            checksum_and_page_number,
            last_modification_time: DbTime::parse(data, at + 8),
            prev_page_num: u32_at(data, at + 16),
            next_page_num: u32_at(data, at + 20),
            father_data_page_oid: u32_at(data, at + 24),
            available_data_size: u16_at(data, at + 28),
            available_uncommitted_data_size: u16_at(data, at + 30),
            first_available_data_offset: u16_at(data, at + 32),
            first_available_page_tag: u16_at(data, at + 34),
            flags,
        },
    )
}

/// A page tag as a small page stores it, in four bytes: the size of the
/// payload in thirteen bits with three bits of unknown use above them, then
/// the offset of the payload in thirteen bits with the tag's flags above
/// them.
#[derive(Clone, Copy, Debug, PartialEq, Eq, Structural, PartialOrd, Ord, Hash)]
pub struct PageTagSmall {
    pub value_offset: u16,
    pub flags: PageTagFlags,
    pub value_size: u16,
    pub unknown: u8,
}

impl PageTagSmall {
    /// The tag stored at `s[at..at + 4]`.
    pub open spec fn spec_parse(s: Seq<u8>, at: int) -> PageTagSmall {
        let size_word = le_u16_at(s, at);
        let offset_word = le_u16_at(s, at + 2);
        PageTagSmall {
            value_offset: offset_word % 0x2000,
            flags: PageTagFlags { bits: (offset_word / 0x2000) as u8 },
            value_size: size_word % 0x2000,
            unknown: (size_word / 0x2000) as u8,
        }
    }

    /// The part of the tag that does not fit its bits, if any: the first in
    /// the order offset, flags, size, unknown bits.
    pub open spec fn spec_range_error(self) -> Option<WriteError> {
        if self.value_offset > 0x1FFF {
            Some(
                WriteError::UnsignedOutOfRange {
                    name: "value_offset",
                    value: self.value_offset as u128,
                    min_value: 0,
                    max_value: 0x1FFF,
                },
            )
        } else if self.flags.bits > 7 {
            Some(
                WriteError::UnsignedOutOfRange {
                    name: "flags",
                    value: self.flags.bits as u128,
                    min_value: 0,
                    max_value: 7,
                },
            )
        } else if self.value_size > 0x1FFF {
            Some(
                WriteError::UnsignedOutOfRange {
                    name: "value_size",
                    value: self.value_size as u128,
                    min_value: 0,
                    max_value: 0x1FFF,
                },
            )
        } else if self.unknown > 7 {
            Some(
                WriteError::UnsignedOutOfRange {
                    name: "unknown",
                    value: self.unknown as u128,
                    min_value: 0,
                    max_value: 7,
                },
            )
        } else {
            None
        }
    }

    /// The four bytes that store a tag whose parts fit their bits.
    pub open spec fn spec_bytes(self) -> Seq<u8> {
        u16_bytes((self.value_size + self.unknown * 0x2000) as u16) + u16_bytes(
            (self.value_offset + self.flags.bits * 0x2000) as u16,
        )
    }

    /// A tag whose parts fit their bits is decoded from its bytes.
    pub proof fn lemma_round_trip(self, s: Seq<u8>, at: int)
        requires
            self.spec_range_error().is_none(),
            0 <= at,
            at + 4 <= s.len(),
            s.subrange(at, at + 4) == self.spec_bytes(),
        ensures
            Self::spec_parse(s, at) == self,
    {
        let size_word = (self.value_size + self.unknown * 0x2000) as u16;
        let offset_word = (self.value_offset + self.flags.bits * 0x2000) as u16;
        let whole = self.spec_bytes();
        assert(whole.subrange(0, 2) =~= u16_bytes(size_word));
        assert(whole.subrange(2, 4) =~= u16_bytes(offset_word));
        crate::byte_io::lemma_part(s, at, whole, 0, u16_bytes(size_word));
        crate::byte_io::lemma_part(s, at, whole, 2, u16_bytes(offset_word));
        lemma_u16_round_trip(s, at, size_word);
        lemma_u16_round_trip(s, at + 2, offset_word);
    }

    /// Decodes the tag stored at `data[at..at + 4]`.
    pub fn parse(data: &[u8], at: usize) -> (r: PageTagSmall)
        requires
            at + 4 <= data.len(),
        ensures
            r == Self::spec_parse(data@, at as int),
            r.spec_range_error().is_none(),
    {
        let size_word = u16_at(data, at);
        let offset_word = u16_at(data, at + 2);
        PageTagSmall {
            value_offset: offset_word % 0x2000,
            flags: PageTagFlags::from_bits_retain((offset_word / 0x2000) as u8),
            value_size: size_word % 0x2000,
            unknown: (size_word / 0x2000) as u8,
        }
    }
}

impl ReadFromBytes for PageTagSmall {
    open spec fn spec_size() -> nat {
        4
    }

    open spec fn spec_read(s: Seq<u8>) -> PageTagSmall {
        PageTagSmall::spec_parse(s.take(4), 0)
    }

    fn read_from_bytes<R: ByteRead>(reader: &mut R) -> (r: Result<PageTagSmall, ReadError>) {
        let bytes = reader.read_exact(4)?;
        Ok(PageTagSmall::parse(bytes.as_slice(), 0))
    }
}

impl WriteToBytes for PageTagSmall {
    open spec fn spec_write_error(&self) -> Option<WriteError> {
        self.spec_range_error()
    }

    open spec fn spec_written(&self) -> Seq<u8> {
        self.spec_bytes()
    }

    fn write_to_bytes<W: ByteWrite>(&self, writer: &mut W) -> (r: Result<(), WriteError>) {
        WriteError::check_unsigned_max("value_offset", self.value_offset as u128, 0x1FFF)?;
        WriteError::check_unsigned_max("flags", self.flags.bits() as u128, 7)?;
        WriteError::check_unsigned_max("value_size", self.value_size as u128, 0x1FFF)?;
        WriteError::check_unsigned_max("unknown", self.unknown as u128, 7)?;
        let size_word: u16 = self.value_size + (self.unknown as u16) * 0x2000;
        let offset_word: u16 = self.value_offset + (self.flags.bits() as u16) * 0x2000;
        let mut buffer = crate::byte_io::LittleEndianWrite::new();
        buffer.write_u16(size_word);
        buffer.write_u16(offset_word);
        let bytes = buffer.into_bytes();
        assert(bytes@ =~= self.spec_bytes());
        writer.write_bytes(bytes.as_slice())
    }
}

/// A page tag as a large page stores it, in four bytes: the size of the
/// payload in fifteen bits with one flag above them, then the offset of the
/// payload in fifteen bits with one flag above them.
#[derive(Clone, Copy, Debug, PartialEq, Eq, Structural, PartialOrd, Ord, Hash)]
pub struct PageTagLarge {
    pub value_offset: u16,
    pub offset_flag: bool,
    pub value_size: u16,
    pub size_flag: bool,
}

impl PageTagLarge {
    /// The tag stored at `s[at..at + 4]`.
    pub open spec fn spec_parse(s: Seq<u8>, at: int) -> PageTagLarge {
        let size_word = le_u16_at(s, at);
        let offset_word = le_u16_at(s, at + 2);
        PageTagLarge {
            value_offset: offset_word % 0x8000,
            offset_flag: offset_word >= 0x8000,
            value_size: size_word % 0x8000,
            size_flag: size_word >= 0x8000,
        }
    }

    /// The part of the tag that does not fit its bits, if any: the offset
    /// before the size.
    pub open spec fn spec_range_error(self) -> Option<WriteError> {
        if self.value_offset > 0x7FFF {
            Some(
                WriteError::UnsignedOutOfRange {
                    name: "value_offset",
                    value: self.value_offset as u128,
                    min_value: 0,
                    max_value: 0x7FFF,
                },
            )
        } else if self.value_size > 0x7FFF {
            Some(
                WriteError::UnsignedOutOfRange {
                    name: "value_size",
                    value: self.value_size as u128,
                    min_value: 0,
                    max_value: 0x7FFF,
                },
            )
        } else {
            None
        }
    }

    /// The word that stores fifteen bits and a flag.
    pub open spec fn flagged_word(value: u16, flag: bool) -> u16 {
        (value + if flag {
            0x8000int
        } else {
            0int
        }) as u16
    }

    /// The four bytes that store a tag whose parts fit their bits.
    pub open spec fn spec_bytes(self) -> Seq<u8> {
        u16_bytes(Self::flagged_word(self.value_size, self.size_flag)) + u16_bytes(
            Self::flagged_word(self.value_offset, self.offset_flag),
        )
    }

    /// A tag whose parts fit their bits is decoded from its bytes.
    pub proof fn lemma_round_trip(self, s: Seq<u8>, at: int)
        requires
            self.spec_range_error().is_none(),
            0 <= at,
            at + 4 <= s.len(),
            s.subrange(at, at + 4) == self.spec_bytes(),
        ensures
            Self::spec_parse(s, at) == self,
    {
        let size_word = Self::flagged_word(self.value_size, self.size_flag);
        let offset_word = Self::flagged_word(self.value_offset, self.offset_flag);
        let whole = self.spec_bytes();
        assert(whole.subrange(0, 2) =~= u16_bytes(size_word));
        assert(whole.subrange(2, 4) =~= u16_bytes(offset_word));
        crate::byte_io::lemma_part(s, at, whole, 0, u16_bytes(size_word));
        crate::byte_io::lemma_part(s, at, whole, 2, u16_bytes(offset_word));
        lemma_u16_round_trip(s, at, size_word);
        lemma_u16_round_trip(s, at + 2, offset_word);
    }

    /// Decodes the tag stored at `data[at..at + 4]`.
    pub fn parse(data: &[u8], at: usize) -> (r: PageTagLarge)
        requires
            at + 4 <= data.len(),
        ensures
            r == Self::spec_parse(data@, at as int),
            r.spec_range_error().is_none(),
    {
        let size_word = u16_at(data, at);
        let offset_word = u16_at(data, at + 2);
        PageTagLarge {
            value_offset: offset_word % 0x8000,
            offset_flag: offset_word >= 0x8000,
            value_size: size_word % 0x8000,
            size_flag: size_word >= 0x8000,
        }
    }
}

impl ReadFromBytes for PageTagLarge {
    open spec fn spec_size() -> nat {
        4
    }

    open spec fn spec_read(s: Seq<u8>) -> PageTagLarge {
        PageTagLarge::spec_parse(s.take(4), 0)
    }

    fn read_from_bytes<R: ByteRead>(reader: &mut R) -> (r: Result<PageTagLarge, ReadError>) {
        let bytes = reader.read_exact(4)?;
        Ok(PageTagLarge::parse(bytes.as_slice(), 0))
    }
}

impl WriteToBytes for PageTagLarge {
    open spec fn spec_write_error(&self) -> Option<WriteError> {
        self.spec_range_error()
    }

    open spec fn spec_written(&self) -> Seq<u8> {
        self.spec_bytes()
    }

    fn write_to_bytes<W: ByteWrite>(&self, writer: &mut W) -> (r: Result<(), WriteError>) {
        WriteError::check_unsigned_max("value_offset", self.value_offset as u128, 0x7FFF)?;
        WriteError::check_unsigned_max("value_size", self.value_size as u128, 0x7FFF)?;
        let size_word: u16 = if self.size_flag {
            self.value_size + 0x8000
        } else {
            self.value_size
        };
        let offset_word: u16 = if self.offset_flag {
            self.value_offset + 0x8000
        } else {
            self.value_offset
        };
        let mut buffer = crate::byte_io::LittleEndianWrite::new();
        buffer.write_u16(size_word);
        buffer.write_u16(offset_word);
        let bytes = buffer.into_bytes();
        assert(bytes@ =~= self.spec_bytes());
        writer.write_bytes(bytes.as_slice())
    }
}

impl ReadFromBytes for PageFlags {
    open spec fn spec_size() -> nat {
        4
    }

    open spec fn spec_read(s: Seq<u8>) -> PageFlags {
        PageFlags { bits: le_u32_at(s, 0) }
    }

    fn read_from_bytes<R: ByteRead>(reader: &mut R) -> (r: Result<PageFlags, ReadError>) {
        let bits = reader.read_u32()?;
        Ok(PageFlags::from_bits_retain(bits))
    }
}

impl WriteToBytes for PageFlags {
    open spec fn spec_write_error(&self) -> Option<WriteError> {
        None
    }

    open spec fn spec_written(&self) -> Seq<u8> {
        u32_bytes(self.bits)
    }

    fn write_to_bytes<W: ByteWrite>(&self, writer: &mut W) -> (r: Result<(), WriteError>) {
        writer.write_u32(self.bits())
    }
}

impl ReadFromBytes for PageTagFlags {
    open spec fn spec_size() -> nat {
        1
    }

    open spec fn spec_read(s: Seq<u8>) -> PageTagFlags {
        PageTagFlags { bits: s[0] }
    }

    fn read_from_bytes<R: ByteRead>(reader: &mut R) -> (r: Result<PageTagFlags, ReadError>) {
        let bits = reader.read_u8()?;
        Ok(PageTagFlags::from_bits_retain(bits))
    }
}

impl WriteToBytes for PageTagFlags {
    open spec fn spec_write_error(&self) -> Option<WriteError> {
        None
    }

    open spec fn spec_written(&self) -> Seq<u8> {
        seq![self.bits]
    }

    fn write_to_bytes<W: ByteWrite>(&self, writer: &mut W) -> (r: Result<(), WriteError>) {
        writer.write_u8(self.bits())
    }
}

impl ReadFromBytes for ExtendedPageHeader {
    open spec fn spec_size() -> nat {
        40
    }

    open spec fn spec_read(s: Seq<u8>) -> ExtendedPageHeader {
        ExtendedPageHeader::spec_parse(s.take(40), 0)
    }

    fn read_from_bytes<R: ByteRead>(reader: &mut R) -> (r: Result<ExtendedPageHeader, ReadError>) {
        let bytes = reader.read_exact(40)?;
        Ok(ExtendedPageHeader::parse(bytes.as_slice(), 0))
    }
}

impl WriteToBytes for ExtendedPageHeader {
    open spec fn spec_write_error(&self) -> Option<WriteError> {
        None
    }

    open spec fn spec_written(&self) -> Seq<u8> {
        u64_bytes(self.extended_checksum_1) + u64_bytes(self.extended_checksum_2) + u64_bytes(
            self.extended_checksum_3,
        ) + u64_bytes(self.page_number) + u64_bytes(self.unknown)
    }

    fn write_to_bytes<W: ByteWrite>(&self, writer: &mut W) -> (r: Result<(), WriteError>) {
        let mut buffer = crate::byte_io::LittleEndianWrite::new();
        buffer.write_u64(self.extended_checksum_1);
        buffer.write_u64(self.extended_checksum_2);
        buffer.write_u64(self.extended_checksum_3);
        buffer.write_u64(self.page_number);
        buffer.write_u64(self.unknown);
        let bytes = buffer.into_bytes();
        assert(bytes@ =~= self.spec_written());
        writer.write_bytes(bytes.as_slice())
    }
}

/// One entry of the tag array of a page: where a payload stands in the page
/// and how long it is.
#[derive(Clone, Copy, Debug, PartialEq, Eq, Structural, PartialOrd, Ord, Hash)]
pub struct PageTag {
    pub value_offset: u16,
    pub value_size: u16,
    pub flags: PageTagFlags,
    /// The flags were found in the payload, whose second byte still holds
    /// them in its three upper bits.
    pub flags_in_data: bool,
}

/// The byte offset at which the tag array of a page starts. The array ends
/// with the page; the tag with index 0 is the last one in the file.
pub open spec fn tags_start(header: Header, page_header: PageHeader) -> int {
    page_offset(header.page_size, page_header.page_number()) + header.page_size - 4
        * page_header.first_available_page_tag
}

/// The tag that stands `j`-th in the file, counted from 0 at the start of the
/// tag array.
///
/// A small page keeps the tag's flags in the three upper bits of the offset
/// word. A large page keeps them in the three upper bits of the first 16-bit
/// word of the payload; they are read from there where the payload has two
/// bytes or more, for every tag but the one with index 0, which stands last
/// in the file and has no flags.
pub open spec fn tag_in_file_order(s: Seq<u8>, header: Header, page_header: PageHeader, j: int)
    -> Result<PageTag, ReadError> {
    let pos = tags_start(header, page_header) + 4 * j;
    if pos + 4 > s.len() {
        Err(ReadError::Io(IoErrorKind::UnexpectedEof))
    } else if header.page_size <= MAX_SIZE_SMALL_PAGE {
        let small = PageTagSmall::spec_parse(s, pos);
        Ok(
            PageTag {
                value_offset: small.value_offset,
                value_size: small.value_size,
                flags: small.flags,
                flags_in_data: false,
            },
        )
    } else {
        let large = PageTagLarge::spec_parse(s, pos);
        let value_offset = large.value_offset;
        let value_size = large.value_size;
        let data_pos = page_offset(header.page_size, page_header.page_number())
            + page_header.size_bytes() + value_offset;
        if !(j < page_header.first_available_page_tag - 1 && value_size >= 2) {
            Ok(
                PageTag {
                    value_offset,
                    value_size,
                    flags: PageTagFlags { bits: 0 },
                    flags_in_data: true,
                },
            )
        } else if page_header.page_number() == 0 {
            Err(ReadError::Page0)
        } else if data_pos + 2 > s.len() {
            Err(ReadError::Io(IoErrorKind::UnexpectedEof))
        } else {
            Ok(
                PageTag {
                    value_offset,
                    value_size,
                    flags: PageTagFlags { bits: (le_u16_at(s, data_pos) / 0x2000) as u8 },
                    flags_in_data: true,
                },
            )
        }
    }
}

/// The first `n` tags in file order, or the first failure among them.
pub open spec fn tags_in_file_order(s: Seq<u8>, header: Header, page_header: PageHeader, n: nat)
    -> Result<Seq<PageTag>, ReadError>
    decreases n,
{
    if n == 0 {
        Ok(Seq::empty())
    } else {
        match tags_in_file_order(s, header, page_header, (n - 1) as nat) {
            Err(e) => Err(e),
            Ok(tags) => match tag_in_file_order(s, header, page_header, n - 1) {
                Err(e) => Err(e),
                Ok(tag) => Ok(tags.push(tag)),
            },
        }
    }
}

/// The tag with index `i` of a page: the `i`-th from the end of the page.
pub open spec fn tag_at(s: Seq<u8>, header: Header, page_header: PageHeader, i: int) -> Result<
    PageTag,
    ReadError,
> {
    tag_in_file_order(s, header, page_header, page_header.first_available_page_tag - 1 - i)
}

/// The tags of a page by ascending index, or the failure that reading them
/// in file order meets first.
pub open spec fn spec_read_page_tags(s: Seq<u8>, header: Header, page_header: PageHeader)
    -> Result<Seq<PageTag>, ReadError> {
    if page_header.first_available_page_tag > 0 && tags_start(header, page_header) < 0 {
        Err(ReadError::Io(IoErrorKind::InvalidData))
    } else {
        match tags_in_file_order(
            s,
            header,
            page_header,
            page_header.first_available_page_tag as nat,
        ) {
            Err(e) => Err(e),
            Ok(tags) => Ok(tags.reverse()),
        }
    }
}

/// The first `n` tags in file order are all there exactly when their
/// sequence is, and then the sequence holds them one by one.
pub proof fn lemma_tags_in_file_order(s: Seq<u8>, header: Header, page_header: PageHeader, n: nat)
    ensures
        match tags_in_file_order(s, header, page_header, n) {
            Ok(tags) => tags.len() == n && forall|j: int|
                0 <= j < n ==> tag_in_file_order(s, header, page_header, j) == Ok::<
                    PageTag,
                    ReadError,
                >(#[trigger] tags[j]),
            Err(e) => exists|j: int|
                0 <= j < n && #[trigger] tag_in_file_order(s, header, page_header, j) == Err::<
                    PageTag,
                    ReadError,
                >(e),
        },
    decreases n,
{
    if n > 0 {
        lemma_tags_in_file_order(s, header, page_header, (n - 1) as nat);
        match tags_in_file_order(s, header, page_header, (n - 1) as nat) {
            Err(e) => {},
            Ok(tags) => {
                match tag_in_file_order(s, header, page_header, n - 1) {
                    Err(e) => {},
                    Ok(tag) => {},
                }
            },
        }
    }
}

/// Reads the tag that stands `j`-th in the file.
fn read_tag_in_file_order(
    data: &[u8],
    header: &Header,
    page_header: &PageHeader,
    start: u64,
    j: usize,
) -> (r: Result<PageTag, ReadError>)
    requires
        start == tags_start(*header, *page_header),
        j < page_header.first_available_page_tag,
    ensures
        r == tag_in_file_order(data@, *header, *page_header, j as int),
{
    let ghost ps = header.page_size;
    let ghost pn = page_header.page_number();
    let delta: u64 = 4 * (j as u64);
    if !in_bounds(data, start, delta + 4) {
        return Err(ReadError::Io(IoErrorKind::UnexpectedEof));
    }
    let pos: usize = (start + delta) as usize;
    if header.page_size <= MAX_SIZE_SMALL_PAGE {
        let small = PageTagSmall::parse(data, pos);
        return Ok(
            PageTag {
                value_offset: small.value_offset,
                value_size: small.value_size,
                flags: small.flags,
                flags_in_data: false,
            },
        );
    }
    let large = PageTagLarge::parse(data, pos);
    let value_offset = large.value_offset;
    let value_size = large.value_size;
    if !(j + 1 < (page_header.first_available_page_tag as usize) && value_size >= 2) {
        return Ok(
            PageTag { value_offset, value_size, flags: PageTagFlags::empty(), flags_in_data: true },
        );
    }
    if page_header.page_number() == 0 {
        return Err(ReadError::Page0);
    }
    let inside: u64 = page_header.size_bytes() + (value_offset as u64);
    let page_start = match locate_page(data, header.page_size, page_header.page_number()) {
        Some(offset) => offset,
        None => { return Err(ReadError::Io(IoErrorKind::UnexpectedEof)); },
    };
    if !in_bounds(data, page_start, inside + 2) {
        return Err(ReadError::Io(IoErrorKind::UnexpectedEof));
    }
    let flags_word = u16_at(data, (page_start + inside) as usize);
    Ok(
        PageTag {
            value_offset,
            value_size,
            flags: PageTagFlags::from_bits_retain((flags_word / 0x2000) as u8),
            flags_in_data: true,
        },
    )
}

/// Reads the tags of a page. The result is ordered by tag index: its element
/// `i` is the tag whose four bytes end `4 * i` bytes before the end of the
/// page, so that index 0 is the tag written first.
pub fn read_page_tags(data: &[u8], header: &Header, page_header: &PageHeader) -> (r: Result<
    Vec<PageTag>,
    ReadError,
>)
    ensures
        match r {
            Ok(tags) => {
                &&& spec_read_page_tags(data@, *header, *page_header) == Ok::<
                    Seq<PageTag>,
                    ReadError,
                >(tags@)
                &&& tags@.len() == page_header.first_available_page_tag
                &&& header.page_size > MAX_SIZE_SMALL_PAGE && tags@.len() > 0 ==> tags@[0].flags
                    == PageTagFlags { bits: 0 }
                &&& forall|i: int|
                    0 <= i < tags@.len() ==> tag_at(data@, *header, *page_header, i) == Ok::<
                        PageTag,
                        ReadError,
                    >(#[trigger] tags@[i])
            },
            Err(e) => spec_read_page_tags(data@, *header, *page_header) == Err::<
                Seq<PageTag>,
                ReadError,
            >(e),
        },
{
    let count: usize = page_header.first_available_page_tag as usize;
    if count == 0 {
        let none: Vec<PageTag> = Vec::new();
        assert(none@ =~= Seq::<PageTag>::empty().reverse());
        return Ok(none);
    }
    // The tag array ends where the next page starts.
    let end: u128 = wide_page_offset(header.page_size, page_header.page_number()) + (
    header.page_size as u128);
    let tag_bytes: u128 = 4 * (count as u128);
    if end < tag_bytes {
        return Err(ReadError::Io(IoErrorKind::InvalidData));
    }
    if end - tag_bytes > (data.len() as u128) {
        proof {
            lemma_first_tag_fails(data@, *header, *page_header, count as nat);
        }
        return Err(ReadError::Io(IoErrorKind::UnexpectedEof));
    }
    let start: u64 = (end - tag_bytes) as u64;
    let mut in_file_order: Vec<PageTag> = Vec::new();
    let mut j: usize = 0;
    while j < count
        invariant
            j <= count,
            count == page_header.first_available_page_tag,
            start == tags_start(*header, *page_header),
            tags_in_file_order(data@, *header, *page_header, j as nat) == Ok::<
                Seq<PageTag>,
                ReadError,
            >(in_file_order@),
            in_file_order@.len() == j,
            forall|k: int|
                0 <= k < j ==> tag_in_file_order(data@, *header, *page_header, k) == Ok::<
                    PageTag,
                    ReadError,
                >(#[trigger] in_file_order@[k]),
        decreases count - j,
    {
        match read_tag_in_file_order(data, header, page_header, start, j) {
            Ok(tag) => {
                in_file_order.push(tag);
            },
            Err(e) => {
                proof {
                    lemma_tags_fail_from(
                        data@,
                        *header,
                        *page_header,
                        (j + 1) as nat,
                        count as nat,
                    );
                }
                return Err(e);
            },
        }
        j += 1;
    }
    let mut tags: Vec<PageTag> = Vec::new();
    let mut i: usize = 0;
    while i < count
        invariant
            i <= count,
            in_file_order@.len() == count,
            tags@.len() == i,
            forall|k: int| 0 <= k < i ==> #[trigger] tags@[k] == in_file_order@[count - 1 - k],
        decreases count - i,
    {
        tags.push(in_file_order[count - 1 - i]);
        i += 1;
    }
    assert(tags@ =~= in_file_order@.reverse());
    Ok(tags)
}

/// A failure among the first `n` tags is the failure of every longer prefix.
proof fn lemma_tags_fail_from(
    s: Seq<u8>,
    header: Header,
    page_header: PageHeader,
    n: nat,
    m: nat,
)
    requires
        n <= m,
        tags_in_file_order(s, header, page_header, n) is Err,
    ensures
        tags_in_file_order(s, header, page_header, m) == tags_in_file_order(
            s,
            header,
            page_header,
            n,
        ),
    decreases m - n,
{
    if n < m {
        lemma_tags_fail_from(s, header, page_header, n, (m - 1) as nat);
    }
}

/// Where the first tag in the file cannot be read, no prefix of the tags
/// can, and the failure is that of the first tag.
proof fn lemma_first_tag_fails(s: Seq<u8>, header: Header, page_header: PageHeader, m: nat)
    requires
        m >= 1,
        tag_in_file_order(s, header, page_header, 0) is Err,
    ensures
        tags_in_file_order(s, header, page_header, m) == Err::<Seq<PageTag>, ReadError>(
            tag_in_file_order(s, header, page_header, 0)->Err_0,
        ),
{
    assert(tags_in_file_order(s, header, page_header, 0) is Ok);
    assert(tags_in_file_order(s, header, page_header, 1) is Err);
    lemma_tags_fail_from(s, header, page_header, 1, m);
}

/// The payload of a tag: `value_size` bytes at the tag's offset behind the
/// page header.
pub open spec fn spec_read_data_for_tag(
    s: Seq<u8>,
    header: Header,
    page_header: PageHeader,
    tag: PageTag,
) -> Result<Seq<u8>, ReadError> {
    let pos = page_offset(header.page_size, page_header.page_number())
        + page_header.size_bytes() + tag.value_offset;
    if page_header.page_number() == 0 {
        Err(ReadError::Page0)
    } else if pos + tag.value_size > s.len() {
        Err(ReadError::Io(IoErrorKind::UnexpectedEof))
    } else {
        Ok(s.subrange(pos, pos + tag.value_size))
    }
}

/// Reads the payload of a tag.
pub fn read_data_for_tag(
    data: &[u8],
    header: &Header,
    page_header: &PageHeader,
    tag: &PageTag,
) -> (r: Result<Vec<u8>, ReadError>)
    ensures
        match r {
            Ok(bytes) => spec_read_data_for_tag(data@, *header, *page_header, *tag) == Ok::<
                Seq<u8>,
                ReadError,
            >(bytes@),
            Err(e) => spec_read_data_for_tag(data@, *header, *page_header, *tag) == Err::<
                Seq<u8>,
                ReadError,
            >(e),
        },
{
    if page_header.page_number() == 0 {
        return Err(ReadError::Page0);
    }
    let page_start = match locate_page(data, header.page_size, page_header.page_number()) {
        Some(offset) => offset,
        None => { return Err(ReadError::Io(IoErrorKind::UnexpectedEof)); },
    };
    let inside: u64 = page_header.size_bytes() + (tag.value_offset as u64);
    let length: u64 = tag.value_size as u64;
    if !in_bounds(data, page_start, inside + length) {
        return Err(ReadError::Io(IoErrorKind::UnexpectedEof));
    }
    let from: usize = (page_start + inside) as usize;
    Ok(copy_range(data, from, from + (tag.value_size as usize)))
}


/// How a table's space is laid out.
///
/// `Other` stands for every number without a name of its own. A value is
/// well formed when it is the one that `from_base_type` gives for its number.
#[derive(Clone, Copy, Debug)]
pub enum ExtentSpace {
    Single,
    Multiple,
    Other(u32),
}

impl ExtentSpace {
    /// The number that stores this value.
    pub open spec fn code(self) -> u32 {
        match self {
            ExtentSpace::Single => 0,
            ExtentSpace::Multiple => 1,
            ExtentSpace::Other(n) => n,
        }
    }

    /// The value that `n` stores.
    pub open spec fn of_code(n: u32) -> ExtentSpace {
        if n == 0 {
            ExtentSpace::Single
        } else if n == 1 {
            ExtentSpace::Multiple
        } else {
            ExtentSpace::Other(n)
        }
    }

    /// `Other` holds no number that has a name.
    pub open spec fn wf(self) -> bool {
        self matches ExtentSpace::Other(n) ==> n > 1
    }

    pub fn from_base_type(n: u32) -> (r: ExtentSpace)
        ensures
            r == Self::of_code(n),
            r.wf(),
            r.code() == n,
    {
        match n {
            0 => ExtentSpace::Single,
            1 => ExtentSpace::Multiple,
            _ => ExtentSpace::Other(n),
        }
    }

    pub fn to_base_type(&self) -> (r: u32)
        ensures
            r == self.code(),
    {
        match self {
            ExtentSpace::Single => 0,
            ExtentSpace::Multiple => 1,
            ExtentSpace::Other(n) => *n,
        }
    }
}

/// Two values are equal when the same number stores them.
impl PartialEq for ExtentSpace {
    fn eq(&self, other: &ExtentSpace) -> (r: bool) {
        self.to_base_type() == other.to_base_type()
    }
}

impl vstd::std_specs::cmp::PartialEqSpecImpl for ExtentSpace {
    open spec fn obeys_eq_spec() -> bool {
        true
    }

    open spec fn eq_spec(&self, other: &ExtentSpace) -> bool {
        self.code() == other.code()
    }
}

impl Eq for ExtentSpace {

}

/// The short form of the header that the first tag of a root page holds:
/// sixteen bytes on disk.
#[derive(Clone, Copy, Debug, PartialEq, Eq)]
pub struct RootPageHeaderShort {
    pub initial_page_count: u32,
    pub parent_father_data_page_number: u32,
    pub extent_space: ExtentSpace,
    pub space_tree_page_number: u32,
}

/// The long form of the header that the first tag of a root page holds:
/// twenty-five bytes on disk.
#[derive(Clone, Copy, Debug, PartialEq, Eq)]
pub struct RootPageHeaderLong {
    pub initial_page_count: u32,
    pub unknown1: u8,
    pub parent_father_data_page_number: u32,
    pub extent_space: ExtentSpace,
    pub space_tree_page_number: u32,
    pub unknown2: u32,
    pub unknown3: u32,
}

/// The header that the first tag of a root page holds.
#[derive(Clone, Copy, Debug, PartialEq, Eq)]
pub enum RootPageHeader {
    Short(RootPageHeaderShort),
    Long(RootPageHeaderLong),
}

impl RootPageHeader {
    pub open spec fn spec_initial_page_count(&self) -> u32 {
        match self {
            RootPageHeader::Short(h) => h.initial_page_count,
            RootPageHeader::Long(h) => h.initial_page_count,
        }
    }

    #[verifier::when_used_as_spec(spec_initial_page_count)]
    pub fn initial_page_count(&self) -> (r: u32)
        ensures
            r == self.spec_initial_page_count(),
    {
        match self {
            RootPageHeader::Short(h) => h.initial_page_count,
            RootPageHeader::Long(h) => h.initial_page_count,
        }
    }

    pub open spec fn spec_parent_father_data_page_number(&self) -> u32 {
        match self {
            RootPageHeader::Short(h) => h.parent_father_data_page_number,
            RootPageHeader::Long(h) => h.parent_father_data_page_number,
        }
    }

    #[verifier::when_used_as_spec(spec_parent_father_data_page_number)]
    pub fn parent_father_data_page_number(&self) -> (r: u32)
        ensures
            r == self.spec_parent_father_data_page_number(),
    {
        match self {
            RootPageHeader::Short(h) => h.parent_father_data_page_number,
            RootPageHeader::Long(h) => h.parent_father_data_page_number,
        }
    }

    pub open spec fn spec_extent_space(&self) -> ExtentSpace {
        match self {
            RootPageHeader::Short(h) => h.extent_space,
            RootPageHeader::Long(h) => h.extent_space,
        }
    }

    #[verifier::when_used_as_spec(spec_extent_space)]
    pub fn extent_space(&self) -> (r: ExtentSpace)
        ensures
            r == self.spec_extent_space(),
    {
        match self {
            RootPageHeader::Short(h) => h.extent_space,
            RootPageHeader::Long(h) => h.extent_space,
        }
    }

    pub open spec fn spec_space_tree_page_number(&self) -> u32 {
        match self {
            RootPageHeader::Short(h) => h.space_tree_page_number,
            RootPageHeader::Long(h) => h.space_tree_page_number,
        }
    }

    #[verifier::when_used_as_spec(spec_space_tree_page_number)]
    pub fn space_tree_page_number(&self) -> (r: u32)
        ensures
            r == self.spec_space_tree_page_number(),
    {
        match self {
            RootPageHeader::Short(h) => h.space_tree_page_number,
            RootPageHeader::Long(h) => h.space_tree_page_number,
        }
    }
}

/// What the payload of the first tag of a root page holds: the short form in
/// sixteen bytes, the long form in twenty-five, nothing known in any other
/// length.
pub open spec fn spec_read_root_page_header(s: Seq<u8>) -> Result<RootPageHeader, ReadError> {
    if s.len() == 16 {
        Ok(
            RootPageHeader::Short(
                RootPageHeaderShort {
                    initial_page_count: le_u32_at(s, 0),
                    parent_father_data_page_number: le_u32_at(s, 4),
                    extent_space: ExtentSpace::of_code(le_u32_at(s, 8)),
                    space_tree_page_number: le_u32_at(s, 12),
                },
            ),
        )
    } else if s.len() == 25 {
        Ok(
            RootPageHeader::Long(
                RootPageHeaderLong {
                    initial_page_count: le_u32_at(s, 0),
                    unknown1: s[4],
                    parent_father_data_page_number: le_u32_at(s, 5),
                    extent_space: ExtentSpace::of_code(le_u32_at(s, 9)),
                    space_tree_page_number: le_u32_at(s, 13),
                    unknown2: le_u32_at(s, 17),
                    unknown3: le_u32_at(s, 21),
                },
            ),
        )
    } else {
        Err(ReadError::UnknownFormatVariant)
    }
}

/// Decodes the payload of the first tag of a root page.
pub fn read_root_page_header(data: &[u8]) -> (r: Result<RootPageHeader, ReadError>)
    ensures
        r == spec_read_root_page_header(data@),
{
    if data.len() == 16 {
        Ok(
            RootPageHeader::Short(
                RootPageHeaderShort {
                    initial_page_count: u32_at(data, 0),
                    parent_father_data_page_number: u32_at(data, 4),
                    extent_space: ExtentSpace::from_base_type(u32_at(data, 8)),
                    space_tree_page_number: u32_at(data, 12),
                },
            ),
        )
    } else if data.len() == 25 {
        Ok(
            RootPageHeader::Long(
                RootPageHeaderLong {
                    initial_page_count: u32_at(data, 0),
                    unknown1: data[4],
                    parent_father_data_page_number: u32_at(data, 5),
                    extent_space: ExtentSpace::from_base_type(u32_at(data, 9)),
                    space_tree_page_number: u32_at(data, 13),
                    unknown2: u32_at(data, 17),
                    unknown3: u32_at(data, 21),
                },
            ),
        )
    } else {
        Err(ReadError::UnknownFormatVariant)
    }
}

/// The key block that opens every entry but those of index leaves.
#[derive(Clone, Debug, PartialEq, Eq)]
pub struct CommonPageEntry {
    pub common_page_key_size: Option<u16>,
    pub local_page_key: Vec<u8>,
}

/// An entry that points to a child page.
#[derive(Clone, Debug, PartialEq, Eq)]
pub struct BranchPageEntry {
    pub common: CommonPageEntry,
    pub child_page_number: u32,
}

/// An entry of a leaf page: its data is a row, or a chunk of a long value.
#[derive(Clone, Debug, PartialEq, Eq)]
pub struct LeafPageEntry {
    pub common: CommonPageEntry,
    pub entry_data: Vec<u8>,
}

/// An entry of a leaf page of a space tree.
#[derive(Clone, Debug, PartialEq, Eq)]
pub struct SpaceLeafPageEntry {
    pub common: CommonPageEntry,
    pub number_of_pages: u32,
}

/// An entry of a leaf page of an index: nothing but a key.
#[derive(Clone, Debug, PartialEq, Eq)]
pub struct IndexLeafPageEntry {
    pub record_page_key: Vec<u8>,
}

/// The payload of a page tag, read by the kind of page that holds it.
#[derive(Clone, Debug, PartialEq, Eq)]
pub enum PageEntry {
    Root(BranchPageEntry),
    Branch(BranchPageEntry),
    Leaf(LeafPageEntry),
    SpaceBranch(BranchPageEntry),
    SpaceLeaf(SpaceLeafPageEntry),
    IndexBranch(BranchPageEntry),
    IndexLeaf(IndexLeafPageEntry),
}

/// What a `CommonPageEntry` holds.
pub struct CommonPageEntryView {
    pub common_page_key_size: Option<u16>,
    pub local_page_key: Seq<u8>,
}

/// What a `BranchPageEntry` holds.
pub struct BranchPageEntryView {
    pub common: CommonPageEntryView,
    pub child_page_number: u32,
}

/// What a `LeafPageEntry` holds.
pub struct LeafPageEntryView {
    pub common: CommonPageEntryView,
    pub entry_data: Seq<u8>,
}

/// What a `SpaceLeafPageEntry` holds.
pub struct SpaceLeafPageEntryView {
    pub common: CommonPageEntryView,
    pub number_of_pages: u32,
}

/// What a `PageEntry` holds.
pub enum PageEntryView {
    Root(BranchPageEntryView),
    Branch(BranchPageEntryView),
    Leaf(LeafPageEntryView),
    SpaceBranch(BranchPageEntryView),
    SpaceLeaf(SpaceLeafPageEntryView),
    IndexBranch(BranchPageEntryView),
    IndexLeaf(Seq<u8>),
}

impl View for CommonPageEntry {
    type V = CommonPageEntryView;

    open spec fn view(&self) -> CommonPageEntryView {
        CommonPageEntryView {
            common_page_key_size: self.common_page_key_size,
            local_page_key: self.local_page_key@,
        }
    }
}

impl View for BranchPageEntry {
    type V = BranchPageEntryView;

    open spec fn view(&self) -> BranchPageEntryView {
        BranchPageEntryView { common: self.common@, child_page_number: self.child_page_number }
    }
}

impl View for LeafPageEntry {
    type V = LeafPageEntryView;

    open spec fn view(&self) -> LeafPageEntryView {
        LeafPageEntryView { common: self.common@, entry_data: self.entry_data@ }
    }
}

impl View for SpaceLeafPageEntry {
    type V = SpaceLeafPageEntryView;

    open spec fn view(&self) -> SpaceLeafPageEntryView {
        SpaceLeafPageEntryView { common: self.common@, number_of_pages: self.number_of_pages }
    }
}

impl View for PageEntry {
    type V = PageEntryView;

    open spec fn view(&self) -> PageEntryView {
        match self {
            PageEntry::Root(b) => PageEntryView::Root(b@),
            PageEntry::Branch(b) => PageEntryView::Branch(b@),
            PageEntry::Leaf(l) => PageEntryView::Leaf(l@),
            PageEntry::SpaceBranch(b) => PageEntryView::SpaceBranch(b@),
            PageEntry::SpaceLeaf(l) => PageEntryView::SpaceLeaf(l@),
            PageEntry::IndexBranch(b) => PageEntryView::IndexBranch(b@),
            PageEntry::IndexLeaf(l) => PageEntryView::IndexLeaf(l.record_page_key@),
        }
    }
}

impl PageEntryView {
    /// The branch entry of an entry that points to a child page.
    pub open spec fn as_branch(self) -> Option<BranchPageEntryView> {
        match self {
            PageEntryView::Root(b) => Some(b),
            PageEntryView::Branch(b) => Some(b),
            PageEntryView::SpaceBranch(b) => Some(b),
            PageEntryView::IndexBranch(b) => Some(b),
            PageEntryView::Leaf(_) | PageEntryView::SpaceLeaf(_) | PageEntryView::IndexLeaf(
                _,
            ) => None,
        }
    }
}

impl PageEntry {
    /// The branch entry of an entry that points to a child page.
    pub fn as_branch(&self) -> (r: Option<&BranchPageEntry>)
        ensures
            match r {
                Some(b) => self@.as_branch() == Some(b@),
                None => self@.as_branch().is_none(),
            },
    {
        match self {
            PageEntry::Root(b) => Some(b),
            PageEntry::Branch(b) => Some(b),
            PageEntry::SpaceBranch(b) => Some(b),
            PageEntry::IndexBranch(b) => Some(b),
            PageEntry::Leaf(_) | PageEntry::SpaceLeaf(_) | PageEntry::IndexLeaf(_) => None,
        }
    }
}

/// The payload of a tag as the entry decoder takes it: where the tag's flags
/// stand in the payload, the three upper bits of its second byte are cleared.
pub open spec fn strip_flags(payload: Seq<u8>, tag: PageTag) -> Seq<u8> {
    if payload.len() >= 2 && tag.flags_in_data {
        payload.update(1, payload[1] % 0x20)
    } else {
        payload
    }
}

/// The entry that a payload holds on a page with flags `page_flags`, under a
/// tag with flags `tag_flags`.
///
/// On an index leaf the whole payload is the key. Everywhere else a key
/// block comes first: the size of the common key where the tag is marked
/// compressed, then the size of the local key and the key itself. What
/// follows depends on the page: a child page number on a root or branch
/// page, a page count on a leaf of a space tree, the entry's data on any
/// other leaf.
pub open spec fn spec_page_entry(data: Seq<u8>, page_flags: PageFlags, tag_flags: PageTagFlags)
    -> Result<PageEntryView, ReadError> {
    let compressed = tag_flags.contains(PAGE_TAG_COMPRESSED);
    let p: int = if compressed {
        2
    } else {
        0
    };
    let q = p + 2 + le_u16_at(data, p);
    let common = CommonPageEntryView {
        common_page_key_size: if compressed {
            Some(le_u16_at(data, 0))
        } else {
            None
        },
        local_page_key: data.subrange(p + 2, q),
    };
    let branch = BranchPageEntryView { common, child_page_number: le_u32_at(data, q) };
    let eof = Err::<PageEntryView, ReadError>(ReadError::Io(IoErrorKind::UnexpectedEof));
    if page_flags.contains(LEAF_PAGE | INDEX_PAGE) {
        Ok(PageEntryView::IndexLeaf(data))
    } else if p + 2 > data.len() || q > data.len() {
        eof
    } else if page_flags.contains(ROOT_PAGE) {
        if q + 4 > data.len() {
            eof
        } else {
            Ok(PageEntryView::Root(branch))
        }
    } else if page_flags.contains(BRANCH_PAGE) {
        if q + 4 > data.len() {
            eof
        } else if page_flags.contains(SPACE_TREE_PAGE) {
            Ok(PageEntryView::SpaceBranch(branch))
        } else if page_flags.contains(INDEX_PAGE) {
            Ok(PageEntryView::IndexBranch(branch))
        } else {
            Ok(PageEntryView::Branch(branch))
        }
    } else if page_flags.contains(LEAF_PAGE) {
        if !page_flags.contains(SPACE_TREE_PAGE) {
            Ok(PageEntryView::Leaf(LeafPageEntryView { common, entry_data: data.skip(q) }))
        } else if q + 4 > data.len() {
            eof
        } else {
            Ok(
                PageEntryView::SpaceLeaf(
                    SpaceLeafPageEntryView { common, number_of_pages: le_u32_at(data, q) },
                ),
            )
        }
    } else {
        Err(ReadError::UnknownPageType)
    }
}

/// Decodes the payload of a tag into a page entry.
pub fn decode_page_entry(payload: Vec<u8>, page_flags: PageFlags, tag: &PageTag) -> (r: Result<
    PageEntry,
    ReadError,
>)
    ensures
        match r {
            Ok(entry) => spec_page_entry(strip_flags(payload@, *tag), page_flags, tag.flags)
                == Ok::<PageEntryView, ReadError>(entry@),
            Err(e) => spec_page_entry(strip_flags(payload@, *tag), page_flags, tag.flags) == Err::<
                PageEntryView,
                ReadError,
            >(e),
        },
{
    let mut data = payload;
    if data.len() >= 2 && tag.flags_in_data {
        let second = data[1];
        data.set(1, second % 0x20);
    }
    if page_flags.contains(LEAF_PAGE | INDEX_PAGE) {
        return Ok(PageEntry::IndexLeaf(IndexLeafPageEntry { record_page_key: data }));
    }
    let mut read = LittleEndianRead::new(data.as_slice());
    let common_page_key_size = if tag.flags.contains(PAGE_TAG_COMPRESSED) {
        Some(read.read_u16()?)
    } else {
        None
    };
    let local_page_key_size = read.read_u16()?;
    let local_page_key = read.read_exact(local_page_key_size as usize)?;
    let common = CommonPageEntry { common_page_key_size, local_page_key };
    if page_flags.contains(ROOT_PAGE) {
        let child_page_number = read.read_u32()?;
        Ok(PageEntry::Root(BranchPageEntry { common, child_page_number }))
    } else if page_flags.contains(BRANCH_PAGE) {
        let child_page_number = read.read_u32()?;
        let entry = BranchPageEntry { common, child_page_number };
        if page_flags.contains(SPACE_TREE_PAGE) {
            Ok(PageEntry::SpaceBranch(entry))
        } else if page_flags.contains(INDEX_PAGE) {
            Ok(PageEntry::IndexBranch(entry))
        } else {
            Ok(PageEntry::Branch(entry))
        }
    } else if page_flags.contains(LEAF_PAGE) {
        if page_flags.contains(SPACE_TREE_PAGE) {
            let number_of_pages = read.read_u32()?;
            Ok(PageEntry::SpaceLeaf(SpaceLeafPageEntry { common, number_of_pages }))
        } else {
            let entry_data = read.read_to_end();
            Ok(PageEntry::Leaf(LeafPageEntry { common, entry_data }))
        }
    } else {
        Err(ReadError::UnknownPageType)
    }
}

/// The entry under a tag of a page: the tag's payload, decoded.
pub open spec fn spec_read_page_entry(
    s: Seq<u8>,
    header: Header,
    page_header: PageHeader,
    tag: PageTag,
) -> Result<PageEntryView, ReadError> {
    match spec_read_data_for_tag(s, header, page_header, tag) {
        Err(e) => Err(e),
        Ok(payload) => spec_page_entry(strip_flags(payload, tag), page_header.flags, tag.flags),
    }
}

/// Reads the entry under a tag of a page.
pub fn read_page_entry(
    data: &[u8],
    header: &Header,
    page_header: &PageHeader,
    tag: &PageTag,
) -> (r: Result<PageEntry, ReadError>)
    ensures
        match r {
            Ok(entry) => spec_read_page_entry(data@, *header, *page_header, *tag) == Ok::<
                PageEntryView,
                ReadError,
            >(entry@),
            Err(e) => spec_read_page_entry(data@, *header, *page_header, *tag) == Err::<
                PageEntryView,
                ReadError,
            >(e),
        },
{
    let payload = read_data_for_tag(data, header, page_header, tag)?;
    decode_page_entry(payload, page_header.flags, tag)
}


/// How many pages deep a tree may reach. A chain of child pages that is
/// longer, as a cycle is, ends the walk with a failure.
pub const MAX_TREE_DEPTH: usize = 64;

/// What a walk has gathered: the leaf payloads it has kept and the number of
/// leaf entries it has passed.
pub struct WalkState {
    pub out: Seq<Seq<u8>>,
    pub cursor: nat,
}

/// The byte sequences that a vector of buffers holds.
pub open spec fn payloads(v: Seq<Vec<u8>>) -> Seq<Seq<u8>> {
    v.map_values(|b: Vec<u8>| b@)
}

/// The state in which a walk leaves page `page`, entered in state `st` with
/// `depth` levels to go.
///
/// A page is not entered once `max` payloads are kept. The tag with index 0
/// of a page is its header; the entries under the other tags are visited by
/// ascending index.
pub open spec fn walk_page(
    s: Seq<u8>,
    header: Header,
    page: u64,
    start: nat,
    max: nat,
    st: WalkState,
    depth: nat,
) -> Result<WalkState, ReadError>
    decreases depth, 1nat, 0nat,
{
    if st.out.len() >= max {
        Ok(st)
    } else if depth == 0 {
        Err(ReadError::Io(IoErrorKind::InvalidData))
    } else {
        match spec_read_page_header(s, header, page) {
            Err(e) => Err(e),
            Ok(page_header) => match spec_read_page_tags(s, header, page_header) {
                Err(e) => Err(e),
                Ok(tags) => walk_entries(s, header, page_header, tags, 1, start, max, st, depth),
            },
        }
    }
}

/// The state in which a walk leaves a page after the entries from index `i`
/// on.
///
/// A leaf entry is passed: its payload is kept once `start` leaf entries
/// have been passed before it. An entry with a child page sends the walk
/// through that page. On a page that is no leaf page the walk ends before
/// an entry once `max` payloads are kept; on a leaf page it goes on to the
/// page's last entry.
pub open spec fn walk_entries(
    s: Seq<u8>,
    header: Header,
    page_header: PageHeader,
    tags: Seq<PageTag>,
    i: int,
    start: nat,
    max: nat,
    st: WalkState,
    depth: nat,
) -> Result<WalkState, ReadError>
    decreases depth, 0nat, tags.len() - i,
{
    if i < 1 || i >= tags.len() || depth == 0 {
        Ok(st)
    } else if !page_header.flags.contains(LEAF_PAGE) && st.out.len() >= max {
        Ok(st)
    } else {
        match spec_read_page_entry(s, header, page_header, tags[i]) {
            Err(e) => Err(e),
            Ok(entry) => match entry {
                PageEntryView::Leaf(leaf) => {
                    if st.cursor >= usize::MAX {
                        Err(ReadError::Io(IoErrorKind::InvalidData))
                    } else {
                        walk_entries(
                            s,
                            header,
                            page_header,
                            tags,
                            i + 1,
                            start,
                            max,
                            WalkState {
                                out: if st.cursor >= start {
                                    st.out.push(leaf.entry_data)
                                } else {
                                    st.out
                                },
                                cursor: st.cursor + 1,
                            },
                            depth,
                        )
                    }
                },
                _ => match entry.as_branch() {
                    None => walk_entries(
                        s,
                        header,
                        page_header,
                        tags,
                        i + 1,
                        start,
                        max,
                        st,
                        depth,
                    ),
                    Some(branch) => match walk_page(
                        s,
                        header,
                        branch.child_page_number as u64,
                        start,
                        max,
                        st,
                        (depth - 1) as nat,
                    ) {
                        Err(e) => Err(e),
                        Ok(after) => walk_entries(
                            s,
                            header,
                            page_header,
                            tags,
                            i + 1,
                            start,
                            max,
                            after,
                            depth,
                        ),
                    },
                },
            },
        }
    }
}

/// The state in which a walk of page `page` ends, entered in state `st`
/// with `depth` levels to go: the state in which it leaves the page, or,
/// where it fails, the state that it has reached by then.
pub open spec fn walk_page_end(
    s: Seq<u8>,
    header: Header,
    page: u64,
    start: nat,
    max: nat,
    st: WalkState,
    depth: nat,
) -> WalkState
    decreases depth, 1nat, 0nat,
{
    if st.out.len() >= max || depth == 0 {
        st
    } else {
        match spec_read_page_header(s, header, page) {
            Err(_) => st,
            Ok(page_header) => match spec_read_page_tags(s, header, page_header) {
                Err(_) => st,
                Ok(tags) => walk_entries_end(
                    s,
                    header,
                    page_header,
                    tags,
                    1,
                    start,
                    max,
                    st,
                    depth,
                ),
            },
        }
    }
}

/// The state in which a walk ends that goes through the entries of a page
/// from index `i` on: the state in which it leaves the page, or, where it
/// fails, the state that it has reached by then. An entry that cannot be
/// decoded changes nothing; a failure under a child page leaves what the
/// walk has gathered under that page.
pub open spec fn walk_entries_end(
    s: Seq<u8>,
    header: Header,
    page_header: PageHeader,
    tags: Seq<PageTag>,
    i: int,
    start: nat,
    max: nat,
    st: WalkState,
    depth: nat,
) -> WalkState
    decreases depth, 0nat, tags.len() - i,
{
    if i < 1 || i >= tags.len() || depth == 0 {
        st
    } else if !page_header.flags.contains(LEAF_PAGE) && st.out.len() >= max {
        st
    } else {
        match spec_read_page_entry(s, header, page_header, tags[i]) {
            Err(_) => st,
            Ok(entry) => match entry {
                PageEntryView::Leaf(leaf) => {
                    if st.cursor >= usize::MAX {
                        st
                    } else {
                        walk_entries_end(
                            s,
                            header,
                            page_header,
                            tags,
                            i + 1,
                            start,
                            max,
                            WalkState {
                                out: if st.cursor >= start {
                                    st.out.push(leaf.entry_data)
                                } else {
                                    st.out
                                },
                                cursor: st.cursor + 1,
                            },
                            depth,
                        )
                    }
                },
                _ => match entry.as_branch() {
                    None => walk_entries_end(
                        s,
                        header,
                        page_header,
                        tags,
                        i + 1,
                        start,
                        max,
                        st,
                        depth,
                    ),
                    Some(branch) => {
                        let under = walk_page_end(
                            s,
                            header,
                            branch.child_page_number as u64,
                            start,
                            max,
                            st,
                            (depth - 1) as nat,
                        );
                        if walk_page(
                            s,
                            header,
                            branch.child_page_number as u64,
                            start,
                            max,
                            st,
                            (depth - 1) as nat,
                        ) is Err {
                            under
                        } else {
                            walk_entries_end(
                                s,
                                header,
                                page_header,
                                tags,
                                i + 1,
                                start,
                                max,
                                under,
                                depth,
                            )
                        }
                    },
                },
            },
        }
    }
}

/// A walk that does not fail ends in the state in which it leaves the
/// page.
pub proof fn lemma_walk_page_end(
    s: Seq<u8>,
    header: Header,
    page: u64,
    start: nat,
    max: nat,
    st: WalkState,
    depth: nat,
)
    ensures
        walk_page(s, header, page, start, max, st, depth) matches Ok(after) ==> walk_page_end(
            s,
            header,
            page,
            start,
            max,
            st,
            depth,
        ) == after,
    decreases depth, 1nat, 0nat,
{
    if st.out.len() < max && depth > 0 {
        match spec_read_page_header(s, header, page) {
            Err(_) => {},
            Ok(page_header) => match spec_read_page_tags(s, header, page_header) {
                Err(_) => {},
                Ok(tags) => {
                    lemma_walk_entries_end(s, header, page_header, tags, 1, start, max, st, depth);
                },
            },
        }
    }
}

/// A walk through the entries of a page that does not fail ends in the
/// state in which it leaves the page.
pub proof fn lemma_walk_entries_end(
    s: Seq<u8>,
    header: Header,
    page_header: PageHeader,
    tags: Seq<PageTag>,
    i: int,
    start: nat,
    max: nat,
    st: WalkState,
    depth: nat,
)
    ensures
        walk_entries(s, header, page_header, tags, i, start, max, st, depth) matches Ok(after)
            ==> walk_entries_end(s, header, page_header, tags, i, start, max, st, depth) == after,
    decreases depth, 0nat, tags.len() - i,
{
    if !(i < 1 || i >= tags.len() || depth == 0) && !(!page_header.flags.contains(LEAF_PAGE)
        && st.out.len() >= max) {
        match spec_read_page_entry(s, header, page_header, tags[i]) {
            Err(_) => {},
            Ok(entry) => match entry {
                PageEntryView::Leaf(leaf) => {
                    if st.cursor < usize::MAX {
                        lemma_walk_entries_end(
                            s,
                            header,
                            page_header,
                            tags,
                            i + 1,
                            start,
                            max,
                            WalkState {
                                out: if st.cursor >= start {
                                    st.out.push(leaf.entry_data)
                                } else {
                                    st.out
                                },
                                cursor: st.cursor + 1,
                            },
                            depth,
                        );
                    }
                },
                _ => match entry.as_branch() {
                    None => {
                        lemma_walk_entries_end(
                            s,
                            header,
                            page_header,
                            tags,
                            i + 1,
                            start,
                            max,
                            st,
                            depth,
                        );
                    },
                    Some(branch) => {
                        lemma_walk_page_end(
                            s,
                            header,
                            branch.child_page_number as u64,
                            start,
                            max,
                            st,
                            (depth - 1) as nat,
                        );
                        match walk_page(
                            s,
                            header,
                            branch.child_page_number as u64,
                            start,
                            max,
                            st,
                            (depth - 1) as nat,
                        ) {
                            Err(_) => {},
                            Ok(after) => {
                                lemma_walk_entries_end(
                                    s,
                                    header,
                                    page_header,
                                    tags,
                                    i + 1,
                                    start,
                                    max,
                                    after,
                                    depth,
                                );
                            },
                        }
                    },
                },
            },
        }
    }
}

/// The buffers of `before` still stand, unchanged, in front of those of
/// `after`.
pub open spec fn kept(before: Seq<Vec<u8>>, after: Seq<Vec<u8>>) -> bool {
    before.len() <= after.len() && after.subrange(0, before.len() as int) == before
}

/// One state of a walk comes after another: it keeps the payloads of the
/// other in front of its own and has passed no fewer leaf entries.
pub open spec fn walk_extends(before: WalkState, after: WalkState) -> bool {
    &&& before.cursor <= after.cursor
    &&& before.out.len() <= after.out.len()
    &&& after.out.subrange(0, before.out.len() as int) == before.out
}

/// A walk only appends. The state in which a walk leaves a page comes after
/// the state in which it entered the page: no payload that was kept is lost
/// or moved, and the count of leaf entries does not fall.
pub proof fn lemma_walk_page_appends(
    s: Seq<u8>,
    header: Header,
    page: u64,
    start: nat,
    max: nat,
    st: WalkState,
    depth: nat,
)
    ensures
        walk_page(s, header, page, start, max, st, depth) matches Ok(after) ==> walk_extends(
            st,
            after,
        ),
    decreases depth, 1nat, 0nat,
{
    assert(st.out.subrange(0, st.out.len() as int) =~= st.out);
    if st.out.len() < max && depth > 0 {
        match spec_read_page_header(s, header, page) {
            Err(e) => {},
            Ok(page_header) => match spec_read_page_tags(s, header, page_header) {
                Err(e) => {},
                Ok(tags) => {
                    lemma_walk_entries_appends(
                        s,
                        header,
                        page_header,
                        tags,
                        1,
                        start,
                        max,
                        st,
                        depth,
                    );
                },
            },
        }
    }
}

/// The state in which a walk leaves the entries of a page comes after the
/// state in which it reached them.
pub proof fn lemma_walk_entries_appends(
    s: Seq<u8>,
    header: Header,
    page_header: PageHeader,
    tags: Seq<PageTag>,
    i: int,
    start: nat,
    max: nat,
    st: WalkState,
    depth: nat,
)
    ensures
        walk_entries(s, header, page_header, tags, i, start, max, st, depth) matches Ok(after)
            ==> walk_extends(st, after),
    decreases depth, 0nat, tags.len() - i,
{
    assert(st.out.subrange(0, st.out.len() as int) =~= st.out);
    if !(i < 1 || i >= tags.len() || depth == 0) && !(!page_header.flags.contains(LEAF_PAGE)
        && st.out.len() >= max) {
        match spec_read_page_entry(s, header, page_header, tags[i]) {
            Err(e) => {},
            Ok(entry) => match entry {
                PageEntryView::Leaf(leaf) => {
                    if st.cursor < usize::MAX {
                        let next = WalkState {
                            out: if st.cursor >= start {
                                st.out.push(leaf.entry_data)
                            } else {
                                st.out
                            },
                            cursor: st.cursor + 1,
                        };
                        lemma_walk_entries_appends(
                            s,
                            header,
                            page_header,
                            tags,
                            i + 1,
                            start,
                            max,
                            next,
                            depth,
                        );
                        let last = walk_entries(
                            s,
                            header,
                            page_header,
                            tags,
                            i + 1,
                            start,
                            max,
                            next,
                            depth,
                        );
                        if last is Ok {
                            assert(next.out.subrange(0, st.out.len() as int) =~= st.out);
                            assert(last->Ok_0.out.subrange(0, st.out.len() as int)
                                =~= last->Ok_0.out.subrange(0, next.out.len() as int).subrange(
                                0,
                                st.out.len() as int,
                            ));
                        }
                    }
                },
                _ => match entry.as_branch() {
                    None => {
                        lemma_walk_entries_appends(
                            s,
                            header,
                            page_header,
                            tags,
                            i + 1,
                            start,
                            max,
                            st,
                            depth,
                        );
                    },
                    Some(branch) => {
                        lemma_walk_page_appends(
                            s,
                            header,
                            branch.child_page_number as u64,
                            start,
                            max,
                            st,
                            (depth - 1) as nat,
                        );
                        match walk_page(
                            s,
                            header,
                            branch.child_page_number as u64,
                            start,
                            max,
                            st,
                            (depth - 1) as nat,
                        ) {
                            Err(e) => {},
                            Ok(middle) => {
                                lemma_walk_entries_appends(
                                    s,
                                    header,
                                    page_header,
                                    tags,
                                    i + 1,
                                    start,
                                    max,
                                    middle,
                                    depth,
                                );
                                let last = walk_entries(
                                    s,
                                    header,
                                    page_header,
                                    tags,
                                    i + 1,
                                    start,
                                    max,
                                    middle,
                                    depth,
                                );
                                if last is Ok {
                                    assert(last->Ok_0.out.subrange(0, st.out.len() as int)
                                        =~= last->Ok_0.out.subrange(
                                        0,
                                        middle.out.len() as int,
                                    ).subrange(0, st.out.len() as int));
                                }
                            },
                        }
                    },
                },
            },
        }
    }
}

/// Walks the page `page` and what lies under it.
fn walk(
    data: &[u8],
    header: &Header,
    page: u64,
    start_index: usize,
    max_count: usize,
    out: &mut Vec<Vec<u8>>,
    cursor: &mut usize,
    depth: usize,
) -> (r: Result<(), ReadError>)
    ensures
        match r {
            Ok(()) => walk_page(
                data@,
                *header,
                page,
                start_index as nat,
                max_count as nat,
                WalkState { out: payloads(old(out)@), cursor: *old(cursor) as nat },
                depth as nat,
            ) == Ok::<WalkState, ReadError>(
                WalkState { out: payloads(final(out)@), cursor: *final(cursor) as nat },
            ),
            Err(e) => walk_page(
                data@,
                *header,
                page,
                start_index as nat,
                max_count as nat,
                WalkState { out: payloads(old(out)@), cursor: *old(cursor) as nat },
                depth as nat,
            ) == Err::<WalkState, ReadError>(e),
        },
        walk_page_end(
            data@,
            *header,
            page,
            start_index as nat,
            max_count as nat,
            WalkState { out: payloads(old(out)@), cursor: *old(cursor) as nat },
            depth as nat,
        ) == (WalkState { out: payloads(final(out)@), cursor: *final(cursor) as nat }),
        kept(old(out)@, final(out)@),
        *old(cursor) <= *final(cursor),
    decreases depth,
{
    assert(out@.subrange(0, out@.len() as int) =~= out@);
    if out.len() >= max_count {
        return Ok(());
    }
    if depth == 0 {
        return Err(ReadError::Io(IoErrorKind::InvalidData));
    }
    let page_header = read_page_header(data, header, page)?;
    let tags = read_page_tags(data, header, &page_header)?;
    let leaf_page = page_header.flags.contains(LEAF_PAGE);
    let ghost whole = walk_page(
        data@,
        *header,
        page,
        start_index as nat,
        max_count as nat,
        WalkState { out: payloads(old(out)@), cursor: *old(cursor) as nat },
        depth as nat,
    );
    let ghost end = walk_page_end(
        data@,
        *header,
        page,
        start_index as nat,
        max_count as nat,
        WalkState { out: payloads(old(out)@), cursor: *old(cursor) as nat },
        depth as nat,
    );
    let mut i: usize = 1;
    while i < tags.len()
        invariant
            1 <= i,
            depth > 0,
            kept(old(out)@, out@),
            end == walk_page_end(
                data@,
                *header,
                page,
                start_index as nat,
                max_count as nat,
                WalkState { out: payloads(old(out)@), cursor: *old(cursor) as nat },
                depth as nat,
            ),
            end == walk_entries_end(
                data@,
                *header,
                page_header,
                tags@,
                i as int,
                start_index as nat,
                max_count as nat,
                WalkState { out: payloads(out@), cursor: *cursor as nat },
                depth as nat,
            ),
            *old(cursor) <= *cursor,
            leaf_page == page_header.flags.contains(LEAF_PAGE),
            whole == walk_page(
                data@,
                *header,
                page,
                start_index as nat,
                max_count as nat,
                WalkState { out: payloads(old(out)@), cursor: *old(cursor) as nat },
                depth as nat,
            ),
            whole == walk_entries(
                data@,
                *header,
                page_header,
                tags@,
                i as int,
                start_index as nat,
                max_count as nat,
                WalkState { out: payloads(out@), cursor: *cursor as nat },
                depth as nat,
            ),
        decreases tags.len() - i,
    {
        if !leaf_page && out.len() >= max_count {
            return Ok(());
        }
        let entry = match read_page_entry(data, header, &page_header, &tags[i]) {
            Ok(entry) => entry,
            Err(e) => { return Err(e); },
        };
        match entry {
            PageEntry::Leaf(leaf) => {
                if *cursor >= usize::MAX {
                    return Err(ReadError::Io(IoErrorKind::InvalidData));
                }
                if *cursor >= start_index {
                    let ghost before = out@;
                    out.push(leaf.entry_data);
                    assert(payloads(out@) =~= payloads(before).push(leaf.entry_data@));
                    assert(out@.subrange(0, old(out)@.len() as int) =~= before.subrange(
                        0,
                        old(out)@.len() as int,
                    ));
                }
                *cursor = *cursor + 1;
            },
            PageEntry::Root(branch) | PageEntry::Branch(branch) | PageEntry::SpaceBranch(
                branch,
            ) | PageEntry::IndexBranch(branch) => {
                let ghost before = out@;
                let outcome = walk(
                    data,
                    header,
                    branch.child_page_number as u64,
                    start_index,
                    max_count,
                    out,
                    cursor,
                    depth - 1,
                );
                assert(out@.subrange(0, old(out)@.len() as int) =~= out@.subrange(
                    0,
                    before.len() as int,
                ).subrange(0, old(out)@.len() as int));
                match outcome {
                    Ok(()) => {},
                    Err(e) => { return Err(e); },
                }
            },
            PageEntry::SpaceLeaf(_) | PageEntry::IndexLeaf(_) => {},
        }
        i += 1;
    }
    Ok(())
}

/// Walks the tree of pages rooted at `root_page` and appends leaf payloads
/// to `out`, in the order of the pages' tags.
///
/// `cursor` counts the leaf entries that the walk passes. A payload is kept
/// once `cursor` has reached `start_index`. The walk enters no further page
/// once `out` holds `max_count` payloads, and it stops inside a page that is
/// no leaf page; a leaf page that it has entered is read to its end, so that
/// the payloads which follow the first kept one on its page are kept too.
/// A tree deeper than `MAX_TREE_DEPTH` pages fails. Whatever the outcome,
/// what `out` held before stays in front of what is appended; a walk that
/// fails leaves in `out` and `cursor` what it has gathered up to the
/// failure.
pub fn read_data_from_tree(
    data: &[u8],
    header: &Header,
    root_page: u64,
    start_index: usize,
    max_count: usize,
    out: &mut Vec<Vec<u8>>,
    cursor: &mut usize,
) -> (r: Result<(), ReadError>)
    ensures
        match r {
            Ok(()) => walk_page(
                data@,
                *header,
                root_page,
                start_index as nat,
                max_count as nat,
                WalkState { out: payloads(old(out)@), cursor: *old(cursor) as nat },
                MAX_TREE_DEPTH as nat,
            ) == Ok::<WalkState, ReadError>(
                WalkState { out: payloads(final(out)@), cursor: *final(cursor) as nat },
            ),
            Err(e) => walk_page(
                data@,
                *header,
                root_page,
                start_index as nat,
                max_count as nat,
                WalkState { out: payloads(old(out)@), cursor: *old(cursor) as nat },
                MAX_TREE_DEPTH as nat,
            ) == Err::<WalkState, ReadError>(e),
        },
        walk_page_end(
            data@,
            *header,
            root_page,
            start_index as nat,
            max_count as nat,
            WalkState { out: payloads(old(out)@), cursor: *old(cursor) as nat },
            MAX_TREE_DEPTH as nat,
        ) == (WalkState { out: payloads(final(out)@), cursor: *final(cursor) as nat }),
        kept(old(out)@, final(out)@),
        *old(cursor) <= *final(cursor),
{
    walk(data, header, root_page, start_index, max_count, out, cursor, MAX_TREE_DEPTH)
}

impl ReadFromBytes for ExtentSpace {
    open spec fn spec_size() -> nat {
        4
    }

    open spec fn spec_read(s: Seq<u8>) -> ExtentSpace {
        ExtentSpace::of_code(le_u32_at(s, 0))
    }

    fn read_from_bytes<R: ByteRead>(reader: &mut R) -> (r: Result<ExtentSpace, ReadError>) {
        let code = reader.read_u32()?;
        Ok(ExtentSpace::from_base_type(code))
    }
}

impl WriteToBytes for ExtentSpace {
    open spec fn spec_write_error(&self) -> Option<WriteError> {
        None
    }

    open spec fn spec_written(&self) -> Seq<u8> {
        u32_bytes(self.code())
    }

    fn write_to_bytes<W: ByteWrite>(&self, writer: &mut W) -> (r: Result<(), WriteError>) {
        writer.write_u32(self.to_base_type())
    }
}

impl ReadFromBytes for RootPageHeaderShort {
    open spec fn spec_size() -> nat {
        16
    }

    open spec fn spec_read(s: Seq<u8>) -> RootPageHeaderShort {
        spec_read_root_page_header(s.take(16))->Ok_0->Short_0
    }

    fn read_from_bytes<R: ByteRead>(reader: &mut R) -> (r: Result<RootPageHeaderShort, ReadError>) {
        let bytes = reader.read_exact(16)?;
        match read_root_page_header(bytes.as_slice()) {
            Ok(RootPageHeader::Short(header)) => Ok(header),
            // Sixteen bytes are always read as the short form.
            _ => Err(ReadError::Io(IoErrorKind::UnexpectedEof)),
        }
    }
}

impl WriteToBytes for RootPageHeaderShort {
    open spec fn spec_write_error(&self) -> Option<WriteError> {
        None
    }

    open spec fn spec_written(&self) -> Seq<u8> {
        u32_bytes(self.initial_page_count) + u32_bytes(self.parent_father_data_page_number)
            + u32_bytes(self.extent_space.code()) + u32_bytes(self.space_tree_page_number)
    }

    fn write_to_bytes<W: ByteWrite>(&self, writer: &mut W) -> (r: Result<(), WriteError>) {
        let mut buffer = crate::byte_io::LittleEndianWrite::new();
        buffer.write_u32(self.initial_page_count);
        buffer.write_u32(self.parent_father_data_page_number);
        buffer.write_u32(self.extent_space.to_base_type());
        buffer.write_u32(self.space_tree_page_number);
        let bytes = buffer.into_bytes();
        assert(bytes@ =~= self.spec_written());
        writer.write_bytes(bytes.as_slice())
    }
}

impl ReadFromBytes for RootPageHeaderLong {
    open spec fn spec_size() -> nat {
        25
    }

    open spec fn spec_read(s: Seq<u8>) -> RootPageHeaderLong {
        spec_read_root_page_header(s.take(25))->Ok_0->Long_0
    }

    fn read_from_bytes<R: ByteRead>(reader: &mut R) -> (r: Result<RootPageHeaderLong, ReadError>) {
        let bytes = reader.read_exact(25)?;
        match read_root_page_header(bytes.as_slice()) {
            Ok(RootPageHeader::Long(header)) => Ok(header),
            // Twenty-five bytes are always read as the long form.
            _ => Err(ReadError::Io(IoErrorKind::UnexpectedEof)),
        }
    }
}

impl WriteToBytes for RootPageHeaderLong {
    open spec fn spec_write_error(&self) -> Option<WriteError> {
        None
    }

    open spec fn spec_written(&self) -> Seq<u8> {
        u32_bytes(self.initial_page_count) + seq![self.unknown1] + u32_bytes(
            self.parent_father_data_page_number,
        ) + u32_bytes(self.extent_space.code()) + u32_bytes(self.space_tree_page_number)
            + u32_bytes(self.unknown2) + u32_bytes(self.unknown3)
    }

    fn write_to_bytes<W: ByteWrite>(&self, writer: &mut W) -> (r: Result<(), WriteError>) {
        let mut buffer = crate::byte_io::LittleEndianWrite::new();
        buffer.write_u32(self.initial_page_count);
        buffer.write_u8(self.unknown1);
        buffer.write_u32(self.parent_father_data_page_number);
        buffer.write_u32(self.extent_space.to_base_type());
        buffer.write_u32(self.space_tree_page_number);
        buffer.write_u32(self.unknown2);
        buffer.write_u32(self.unknown3);
        let bytes = buffer.into_bytes();
        assert(bytes@ =~= self.spec_written());
        writer.write_bytes(bytes.as_slice())
    }
}

} // verus!
