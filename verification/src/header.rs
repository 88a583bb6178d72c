//! The file header: its layout, its checksum and its decoder.

use vstd::prelude::*;

use crate::byte_io::{
    array_at, le_u16_at, le_u32_at, le_u64_at, lemma_array_at, lemma_part, lemma_u16_round_trip,
    lemma_u32_round_trip, lemma_u64_round_trip, read_array, same_bytes, u16_at, u16_bytes, u32_at,
    u32_bytes, u64_at, u64_bytes, ByteRead, ByteWrite, LittleEndianWrite, ReadFromBytes,
    WriteToBytes,
};
use crate::common::DbTime;
use crate::error::{IoErrorKind, ReadError, WriteError};

verus! {

/// The magic number that every header carries at byte 4.
pub const HEADER_SIGNATURE: u32 = 0x89ABCDEF;

/// The number of bytes that the header's fields take.
pub const HEADER_SIZE: usize = 668;

/// What kind of file a header opens.
///
/// `Other` stands for every number without a name of its own. A value is
/// well formed when it is the one that `from_base_type` gives for its number.
#[derive(Clone, Copy, Debug)]
pub enum FileType {
    Database,
    StreamingFile,
    Other(u32),
}

impl FileType {
    /// The number that stores this value.
    pub open spec fn code(self) -> u32 {
        match self {
            FileType::Database => 0,
            FileType::StreamingFile => 1,
            FileType::Other(n) => n,
        }
    }

    /// The value that `n` stores.
    pub open spec fn of_code(n: u32) -> FileType {
        if n == 0 {
            FileType::Database
        } else if n == 1 {
            FileType::StreamingFile
        } else {
            FileType::Other(n)
        }
    }

    /// `Other` holds no number that has a name.
    pub open spec fn wf(self) -> bool {
        self matches FileType::Other(n) ==> n > 1
    }

    pub fn from_base_type(n: u32) -> (r: FileType)
        ensures
            r == Self::of_code(n),
            r.wf(),
            r.code() == n,
    {
        match n {
            0 => FileType::Database,
            1 => FileType::StreamingFile,
            _ => FileType::Other(n),
        }
    }

    pub fn to_base_type(&self) -> (r: u32)
        ensures
            r == self.code(),
    {
        match self {
            FileType::Database => 0,
            FileType::StreamingFile => 1,
            FileType::Other(n) => *n,
        }
    }
}

/// Two file types are equal when the same number stores them.
impl PartialEq for FileType {
    fn eq(&self, other: &FileType) -> (r: bool) {
        self.to_base_type() == other.to_base_type()
    }
}

impl vstd::std_specs::cmp::PartialEqSpecImpl for FileType {
    open spec fn obeys_eq_spec() -> bool {
        true
    }

    open spec fn eq_spec(&self, other: &FileType) -> bool {
        self.code() == other.code()
    }
}

impl Eq for FileType {

}

/// How a backup was taken.
///
/// `Other` stands for every number without a name of its own. A value is
/// well formed when it is the one that `from_base_type` gives for its number.
#[derive(Clone, Copy, Debug)]
pub enum BackupType {
    Streaming,
    Snapshot,
    Other(u8),
}

impl BackupType {
    /// The number that stores this value.
    pub open spec fn code(self) -> u8 {
        match self {
            BackupType::Streaming => 0,
            BackupType::Snapshot => 1,
            BackupType::Other(n) => n,
        }
    }

    /// The value that `n` stores.
    pub open spec fn of_code(n: u8) -> BackupType {
        if n == 0 {
            BackupType::Streaming
        } else if n == 1 {
            BackupType::Snapshot
        } else {
            BackupType::Other(n)
        }
    }

    /// `Other` holds no number that has a name.
    pub open spec fn wf(self) -> bool {
        self matches BackupType::Other(n) ==> n > 1
    }

    pub fn from_base_type(n: u8) -> (r: BackupType)
        ensures
            r == Self::of_code(n),
            r.wf(),
            r.code() == n,
    {
        match n {
            0 => BackupType::Streaming,
            1 => BackupType::Snapshot,
            _ => BackupType::Other(n),
        }
    }

    pub fn to_base_type(&self) -> (r: u8)
        ensures
            r == self.code(),
    {
        match self {
            BackupType::Streaming => 0,
            BackupType::Snapshot => 1,
            BackupType::Other(n) => *n,
        }
    }
}

/// Two backup types are equal when the same number stores them.
impl PartialEq for BackupType {
    fn eq(&self, other: &BackupType) -> (r: bool) {
        self.to_base_type() == other.to_base_type()
    }
}

impl vstd::std_specs::cmp::PartialEqSpecImpl for BackupType {
    open spec fn obeys_eq_spec() -> bool {
        true
    }

    open spec fn eq_spec(&self, other: &BackupType) -> bool {
        self.code() == other.code()
    }
}

impl Eq for BackupType {

}

/// The state in which the database was left.
///
/// `Other` stands for every number without a name of its own. A value is
/// well formed when it is the one that `from_base_type` gives for its number.
#[derive(Clone, Copy, Debug)]
pub enum DbState {
    JustCreated,
    DirtyShutdown,
    CleanShutdown,
    BeingConverted,
    ForceDetach,
    Other(u32),
}

impl DbState {
    /// The number that stores this value.
    pub open spec fn code(self) -> u32 {
        match self {
            DbState::JustCreated => 1,
            DbState::DirtyShutdown => 2,
            DbState::CleanShutdown => 3,
            DbState::BeingConverted => 4,
            DbState::ForceDetach => 5,
            DbState::Other(n) => n,
        }
    }

    /// The value that `n` stores.
    pub open spec fn of_code(n: u32) -> DbState {
        if n == 1 {
            DbState::JustCreated
        } else if n == 2 {
            DbState::DirtyShutdown
        } else if n == 3 {
            DbState::CleanShutdown
        } else if n == 4 {
            DbState::BeingConverted
        } else if n == 5 {
            DbState::ForceDetach
        } else {
            DbState::Other(n)
        }
    }

    /// `Other` holds no number that has a name.
    pub open spec fn wf(self) -> bool {
        self matches DbState::Other(n) ==> !(1 <= n <= 5)
    }

    pub fn from_base_type(n: u32) -> (r: DbState)
        ensures
            r == Self::of_code(n),
            r.wf(),
            r.code() == n,
    {
        match n {
            1 => DbState::JustCreated,
            2 => DbState::DirtyShutdown,
            3 => DbState::CleanShutdown,
            4 => DbState::BeingConverted,
            5 => DbState::ForceDetach,
            _ => DbState::Other(n),
        }
    }

    pub fn to_base_type(&self) -> (r: u32)
        ensures
            r == self.code(),
    {
        match self {
            DbState::JustCreated => 1,
            DbState::DirtyShutdown => 2,
            DbState::CleanShutdown => 3,
            DbState::BeingConverted => 4,
            DbState::ForceDetach => 5,
            DbState::Other(n) => *n,
        }
    }
}

/// Two states are equal when the same number stores them.
impl PartialEq for DbState {
    fn eq(&self, other: &DbState) -> (r: bool) {
        self.to_base_type() == other.to_base_type()
    }
}

impl vstd::std_specs::cmp::PartialEqSpecImpl for DbState {
    open spec fn obeys_eq_spec() -> bool {
        true
    }

    open spec fn eq_spec(&self, other: &DbState) -> bool {
        self.code() == other.code()
    }
}

impl Eq for DbState {

}

/// A timestamp of the transaction log: eight bytes on disk.
#[derive(Clone, Copy, Debug, PartialEq, Eq)]
pub struct LogTime {
    pub second: u8,
    pub minute: u8,
    pub hour: u8,
    pub day: u8,
    pub month: u8,
    pub year: u8,
    pub padding: u8,
    pub backup_type: BackupType,
}

impl LogTime {
    /// The value stored at `s[at..at + 8]`.
    pub open spec fn spec_parse(s: Seq<u8>, at: int) -> LogTime {
        LogTime {
            second: s[at],
            minute: s[at + 1],
            hour: s[at + 2],
            day: s[at + 3],
            month: s[at + 4],
            year: s[at + 5],
            padding: s[at + 6],
            backup_type: BackupType::of_code(s[at + 7]),
        }
    }

    /// The eight bytes that store `self`.
    #[verifier::opaque]
    pub open spec fn spec_bytes(self) -> Seq<u8> {
        seq![
            self.second,
            self.minute,
            self.hour,
            self.day,
            self.month,
            self.year,
            self.padding,
            self.backup_type.code(),
        ]
    }

    /// `self` takes 8 bytes.
    pub proof fn lemma_len(self)
        ensures
            self.spec_bytes().len() == 8,
    {
        reveal(LogTime::spec_bytes);
    }

    /// Every enumeration in the value is well formed.
    pub open spec fn wf(self) -> bool {
        self.backup_type.wf()
    }

    /// Where the eight bytes of `self` stand, `self` is what is decoded.
    pub proof fn lemma_round_trip(self, s: Seq<u8>, at: int)
        requires
            self.wf(),
            0 <= at,
            at + 8 <= s.len(),
            s.subrange(at, at + 8) == self.spec_bytes(),
        ensures
            Self::spec_parse(s, at) == self,
    {
        reveal(LogTime::spec_bytes);
        let t = s.subrange(at, at + 8);
        assert forall|k: int| 0 <= k < 8 implies s[at + k] == self.spec_bytes()[k] by {
            assert(t[k] == s[at + k]);
        }
        assert(s[at] == self.spec_bytes()[0]);
        assert(s[at + 1] == self.spec_bytes()[1]);
        assert(s[at + 2] == self.spec_bytes()[2]);
        assert(s[at + 3] == self.spec_bytes()[3]);
        assert(s[at + 4] == self.spec_bytes()[4]);
        assert(s[at + 5] == self.spec_bytes()[5]);
        assert(s[at + 6] == self.spec_bytes()[6]);
        assert(s[at + 7] == self.spec_bytes()[7]);
    }

    /// Decodes the value stored at `data[at..at + 8]`.
    pub fn parse(data: &[u8], at: usize) -> (r: LogTime)
        requires
            at + 8 <= data.len(),
        ensures
            r == Self::spec_parse(data@, at as int),
            r.wf(),
    {
        LogTime {
            second: data[at],
            minute: data[at + 1],
            hour: data[at + 2],
            day: data[at + 3],
            month: data[at + 4],
            year: data[at + 5],
            padding: data[at + 6],
            backup_type: BackupType::from_base_type(data[at + 7]),
        }
    }

    /// Appends the eight bytes of `self` to `writer`.
    pub fn write_into(&self, writer: &mut LittleEndianWrite)
        ensures
            final(writer)@ == old(writer)@ + self.spec_bytes(),
    {
        reveal(LogTime::spec_bytes);
        writer.write_u8(self.second);
        writer.write_u8(self.minute);
        writer.write_u8(self.hour);
        writer.write_u8(self.day);
        writer.write_u8(self.month);
        writer.write_u8(self.year);
        writer.write_u8(self.padding);
        writer.write_u8(self.backup_type.to_base_type());
        assert(writer@ =~= old(writer)@ + self.spec_bytes());
    }
}

/// The identity of a database or of a log: twenty-eight bytes on disk.
#[derive(Clone, Copy, Debug, PartialEq, Eq)]
pub struct DbSignature {
    pub random_number: u32,
    pub creation_timestamp: LogTime,
    pub computer_name: [u8; 16],
}

impl DbSignature {
    /// The value stored at `s[at..at + 28]`.
    pub open spec fn spec_parse(s: Seq<u8>, at: int) -> DbSignature {
        DbSignature {
            random_number: le_u32_at(s, at),
            creation_timestamp: LogTime::spec_parse(s, at + 4),
            computer_name: array_at::<16>(s, at + 12),
        }
    }

    /// The twenty-eight bytes that store `self`.
    #[verifier::opaque]
    pub open spec fn spec_bytes(self) -> Seq<u8> {
        u32_bytes(self.random_number) + self.creation_timestamp.spec_bytes()
            + self.computer_name@
    }

    /// `self` takes 28 bytes.
    pub proof fn lemma_len(self)
        ensures
            self.spec_bytes().len() == 28,
    {
        reveal(DbSignature::spec_bytes);
        self.creation_timestamp.lemma_len();
    }

    /// Every enumeration in the value is well formed.
    pub open spec fn wf(self) -> bool {
        self.creation_timestamp.wf()
    }

    /// Where the twenty-eight bytes of `self` stand, `self` is what is
    /// decoded.
    pub proof fn lemma_round_trip(self, s: Seq<u8>, at: int)
        requires
            self.wf(),
            0 <= at,
            at + 28 <= s.len(),
            s.subrange(at, at + 28) == self.spec_bytes(),
        ensures
            Self::spec_parse(s, at) == self,
    {
        reveal(DbSignature::spec_bytes);
        self.creation_timestamp.lemma_len();
        let whole = self.spec_bytes();
        assert(whole.subrange(0, 4) =~= u32_bytes(self.random_number));
        lemma_part(s, at, whole, 0, u32_bytes(self.random_number));
        assert(whole.subrange(4, 12) =~= self.creation_timestamp.spec_bytes());
        lemma_part(s, at, whole, 4, self.creation_timestamp.spec_bytes());
        assert(whole.subrange(12, 28) =~= self.computer_name@);
        lemma_part(s, at, whole, 12, self.computer_name@);
        lemma_u32_round_trip(s, at, self.random_number);
        self.creation_timestamp.lemma_round_trip(s, at + 4);
        lemma_array_at::<16>(self.computer_name, s, at + 12);
    }

    /// Decodes the value stored at `data[at..at + 28]`.
    pub fn parse(data: &[u8], at: usize) -> (r: DbSignature)
        requires
            at + 28 <= data.len(),
        ensures
            r == Self::spec_parse(data@, at as int),
            r.wf(),
    {
        DbSignature {
            random_number: u32_at(data, at),
            creation_timestamp: LogTime::parse(data, at + 4),
            computer_name: read_array::<16>(data, at + 12),
        }
    }

    /// Appends the twenty-eight bytes of `self` to `writer`.
    pub fn write_into(&self, writer: &mut LittleEndianWrite)
        ensures
            final(writer)@ == old(writer)@ + self.spec_bytes(),
    {
        reveal(DbSignature::spec_bytes);
        writer.write_u32(self.random_number);
        self.creation_timestamp.write_into(writer);
        writer.append(self.computer_name.as_slice());
        assert(writer@ =~= old(writer)@ + self.spec_bytes());
    }
}

/// A position in the transaction log: eight bytes on disk.
#[derive(Clone, Copy, Debug, PartialEq, Eq, Structural)]
pub struct LogPosition {
    pub block: u16,
    pub sector: u16,
    pub generation: u32,
}

impl LogPosition {
    /// The value stored at `s[at..at + 8]`.
    pub open spec fn spec_parse(s: Seq<u8>, at: int) -> LogPosition {
        LogPosition {
            block: le_u16_at(s, at),
            sector: le_u16_at(s, at + 2),
            generation: le_u32_at(s, at + 4),
        }
    }

    /// The eight bytes that store `self`.
    #[verifier::opaque]
    pub open spec fn spec_bytes(self) -> Seq<u8> {
        u16_bytes(self.block) + u16_bytes(self.sector) + u32_bytes(self.generation)
    }

    /// `self` takes 8 bytes.
    pub proof fn lemma_len(self)
        ensures
            self.spec_bytes().len() == 8,
    {
        reveal(LogPosition::spec_bytes);
    }

    /// Where the eight bytes of `self` stand, `self` is what is decoded.
    pub proof fn lemma_round_trip(self, s: Seq<u8>, at: int)
        requires
            0 <= at,
            at + 8 <= s.len(),
            s.subrange(at, at + 8) == self.spec_bytes(),
        ensures
            Self::spec_parse(s, at) == self,
    {
        reveal(LogPosition::spec_bytes);
        let whole = self.spec_bytes();
        assert(whole.subrange(0, 2) =~= u16_bytes(self.block));
        lemma_part(s, at, whole, 0, u16_bytes(self.block));
        assert(whole.subrange(2, 4) =~= u16_bytes(self.sector));
        lemma_part(s, at, whole, 2, u16_bytes(self.sector));
        assert(whole.subrange(4, 8) =~= u32_bytes(self.generation));
        lemma_part(s, at, whole, 4, u32_bytes(self.generation));
        lemma_u16_round_trip(s, at, self.block);
        lemma_u16_round_trip(s, at + 2, self.sector);
        lemma_u32_round_trip(s, at + 4, self.generation);
    }

    /// Decodes the value stored at `data[at..at + 8]`.
    pub fn parse(data: &[u8], at: usize) -> (r: LogPosition)
        requires
            at + 8 <= data.len(),
        ensures
            r == Self::spec_parse(data@, at as int),
    {
        LogPosition {
            block: u16_at(data, at),
            sector: u16_at(data, at + 2),
            generation: u32_at(data, at + 4),
        }
    }

    /// Appends the eight bytes of `self` to `writer`.
    pub fn write_into(&self, writer: &mut LittleEndianWrite)
        ensures
            final(writer)@ == old(writer)@ + self.spec_bytes(),
    {
        reveal(LogPosition::spec_bytes);
        writer.write_u16(self.block);
        writer.write_u16(self.sector);
        writer.write_u32(self.generation);
        assert(writer@ =~= old(writer)@ + self.spec_bytes());
    }
}

/// What the header records of one backup: twenty-four bytes on disk.
#[derive(Clone, Copy, Debug, PartialEq, Eq)]
pub struct BackupInfo {
    pub position: LogPosition,
    pub timestamp: LogTime,
    pub generation_lower: u32,
    pub generation_upper: u32,
}

impl BackupInfo {
    /// The value stored at `s[at..at + 24]`.
    pub open spec fn spec_parse(s: Seq<u8>, at: int) -> BackupInfo {
        BackupInfo {
            position: LogPosition::spec_parse(s, at),
            timestamp: LogTime::spec_parse(s, at + 8),
            generation_lower: le_u32_at(s, at + 16),
            generation_upper: le_u32_at(s, at + 20),
        }
    }

    /// The twenty-four bytes that store `self`.
    #[verifier::opaque]
    pub open spec fn spec_bytes(self) -> Seq<u8> {
        self.position.spec_bytes() + self.timestamp.spec_bytes() + u32_bytes(
            self.generation_lower,
        ) + u32_bytes(self.generation_upper)
    }

    /// `self` takes 24 bytes.
    pub proof fn lemma_len(self)
        ensures
            self.spec_bytes().len() == 24,
    {
        reveal(BackupInfo::spec_bytes);
        self.position.lemma_len();
        self.timestamp.lemma_len();
    }

    /// Every enumeration in the value is well formed.
    pub open spec fn wf(self) -> bool {
        self.timestamp.wf()
    }

    /// Where the twenty-four bytes of `self` stand, `self` is what is
    /// decoded.
    pub proof fn lemma_round_trip(self, s: Seq<u8>, at: int)
        requires
            self.wf(),
            0 <= at,
            at + 24 <= s.len(),
            s.subrange(at, at + 24) == self.spec_bytes(),
        ensures
            Self::spec_parse(s, at) == self,
    {
        reveal(BackupInfo::spec_bytes);
        self.position.lemma_len();
        self.timestamp.lemma_len();
        let whole = self.spec_bytes();
        assert(whole.subrange(0, 8) =~= self.position.spec_bytes());
        lemma_part(s, at, whole, 0, self.position.spec_bytes());
        assert(whole.subrange(8, 16) =~= self.timestamp.spec_bytes());
        lemma_part(s, at, whole, 8, self.timestamp.spec_bytes());
        assert(whole.subrange(16, 20) =~= u32_bytes(self.generation_lower));
        lemma_part(s, at, whole, 16, u32_bytes(self.generation_lower));
        assert(whole.subrange(20, 24) =~= u32_bytes(self.generation_upper));
        lemma_part(s, at, whole, 20, u32_bytes(self.generation_upper));
        self.position.lemma_round_trip(s, at);
        self.timestamp.lemma_round_trip(s, at + 8);
        lemma_u32_round_trip(s, at + 16, self.generation_lower);
        lemma_u32_round_trip(s, at + 20, self.generation_upper);
    }

    /// Decodes the value stored at `data[at..at + 24]`.
    pub fn parse(data: &[u8], at: usize) -> (r: BackupInfo)
        requires
            at + 24 <= data.len(),
        ensures
            r == Self::spec_parse(data@, at as int),
            r.wf(),
    {
        BackupInfo {
            position: LogPosition::parse(data, at),
            timestamp: LogTime::parse(data, at + 8),
            generation_lower: u32_at(data, at + 16),
            generation_upper: u32_at(data, at + 20),
        }
    }

    /// Appends the twenty-four bytes of `self` to `writer`.
    pub fn write_into(&self, writer: &mut LittleEndianWrite)
        ensures
            final(writer)@ == old(writer)@ + self.spec_bytes(),
    {
        reveal(BackupInfo::spec_bytes);
        self.position.write_into(writer);
        self.timestamp.write_into(writer);
        writer.write_u32(self.generation_lower);
        writer.write_u32(self.generation_upper);
        assert(writer@ =~= old(writer)@ + self.spec_bytes());
    }
}

/// An operating system version: sixteen bytes on disk.
#[derive(Clone, Copy, Debug, PartialEq, Eq, Structural)]
pub struct NtVersion {
    pub major: u32,
    pub minor: u32,
    pub build: u32,
    pub service_pack: u32,
}

impl NtVersion {
    /// The value stored at `s[at..at + 16]`.
    pub open spec fn spec_parse(s: Seq<u8>, at: int) -> NtVersion {
        NtVersion {
            major: le_u32_at(s, at),
            minor: le_u32_at(s, at + 4),
            build: le_u32_at(s, at + 8),
            service_pack: le_u32_at(s, at + 12),
        }
    }

    /// The sixteen bytes that store `self`.
    #[verifier::opaque]
    pub open spec fn spec_bytes(self) -> Seq<u8> {
        u32_bytes(self.major) + u32_bytes(self.minor) + u32_bytes(self.build) + u32_bytes(
            self.service_pack,
        )
    }

    /// `self` takes 16 bytes.
    pub proof fn lemma_len(self)
        ensures
            self.spec_bytes().len() == 16,
    {
        reveal(NtVersion::spec_bytes);
    }

    /// Where the sixteen bytes of `self` stand, `self` is what is decoded.
    pub proof fn lemma_round_trip(self, s: Seq<u8>, at: int)
        requires
            0 <= at,
            at + 16 <= s.len(),
            s.subrange(at, at + 16) == self.spec_bytes(),
        ensures
            Self::spec_parse(s, at) == self,
    {
        reveal(NtVersion::spec_bytes);
        let whole = self.spec_bytes();
        assert(whole.subrange(0, 4) =~= u32_bytes(self.major));
        lemma_part(s, at, whole, 0, u32_bytes(self.major));
        assert(whole.subrange(4, 8) =~= u32_bytes(self.minor));
        lemma_part(s, at, whole, 4, u32_bytes(self.minor));
        assert(whole.subrange(8, 12) =~= u32_bytes(self.build));
        lemma_part(s, at, whole, 8, u32_bytes(self.build));
        assert(whole.subrange(12, 16) =~= u32_bytes(self.service_pack));
        lemma_part(s, at, whole, 12, u32_bytes(self.service_pack));
        lemma_u32_round_trip(s, at, self.major);
        lemma_u32_round_trip(s, at + 4, self.minor);
        lemma_u32_round_trip(s, at + 8, self.build);
        lemma_u32_round_trip(s, at + 12, self.service_pack);
    }

    /// Decodes the value stored at `data[at..at + 16]`.
    pub fn parse(data: &[u8], at: usize) -> (r: NtVersion)
        requires
            at + 16 <= data.len(),
        ensures
            r == Self::spec_parse(data@, at as int),
    {
        NtVersion {
            major: u32_at(data, at),
            minor: u32_at(data, at + 4),
            build: u32_at(data, at + 8),
            service_pack: u32_at(data, at + 12),
        }
    }

    /// Appends the sixteen bytes of `self` to `writer`.
    pub fn write_into(&self, writer: &mut LittleEndianWrite)
        ensures
            final(writer)@ == old(writer)@ + self.spec_bytes(),
    {
        reveal(NtVersion::spec_bytes);
        writer.write_u32(self.major);
        writer.write_u32(self.minor);
        writer.write_u32(self.build);
        writer.write_u32(self.service_pack);
        assert(writer@ =~= old(writer)@ + self.spec_bytes());
    }
}

/// A counter of one kind of error: sixteen bytes on disk.
#[derive(Clone, Copy, Debug, PartialEq, Eq)]
pub struct ErrorStats {
    pub count: u32,
    pub last_timestamp: LogTime,
    pub old_count: u32,
}

impl ErrorStats {
    /// The value stored at `s[at..at + 16]`.
    pub open spec fn spec_parse(s: Seq<u8>, at: int) -> ErrorStats {
        ErrorStats {
            count: le_u32_at(s, at),
            last_timestamp: LogTime::spec_parse(s, at + 4),
            old_count: le_u32_at(s, at + 12),
        }
    }

    /// The sixteen bytes that store `self`.
    #[verifier::opaque]
    pub open spec fn spec_bytes(self) -> Seq<u8> {
        u32_bytes(self.count) + self.last_timestamp.spec_bytes() + u32_bytes(self.old_count)
    }

    /// `self` takes 16 bytes.
    pub proof fn lemma_len(self)
        ensures
            self.spec_bytes().len() == 16,
    {
        reveal(ErrorStats::spec_bytes);
        self.last_timestamp.lemma_len();
    }

    /// Every enumeration in the value is well formed.
    pub open spec fn wf(self) -> bool {
        self.last_timestamp.wf()
    }

    /// Where the sixteen bytes of `self` stand, `self` is what is decoded.
    pub proof fn lemma_round_trip(self, s: Seq<u8>, at: int)
        requires
            self.wf(),
            0 <= at,
            at + 16 <= s.len(),
            s.subrange(at, at + 16) == self.spec_bytes(),
        ensures
            Self::spec_parse(s, at) == self,
    {
        reveal(ErrorStats::spec_bytes);
        self.last_timestamp.lemma_len();
        let whole = self.spec_bytes();
        assert(whole.subrange(0, 4) =~= u32_bytes(self.count));
        lemma_part(s, at, whole, 0, u32_bytes(self.count));
        assert(whole.subrange(4, 12) =~= self.last_timestamp.spec_bytes());
        lemma_part(s, at, whole, 4, self.last_timestamp.spec_bytes());
        assert(whole.subrange(12, 16) =~= u32_bytes(self.old_count));
        lemma_part(s, at, whole, 12, u32_bytes(self.old_count));
        lemma_u32_round_trip(s, at, self.count);
        self.last_timestamp.lemma_round_trip(s, at + 4);
        lemma_u32_round_trip(s, at + 12, self.old_count);
    }

    /// Decodes the value stored at `data[at..at + 16]`.
    pub fn parse(data: &[u8], at: usize) -> (r: ErrorStats)
        requires
            at + 16 <= data.len(),
        ensures
            r == Self::spec_parse(data@, at as int),
            r.wf(),
    {
        ErrorStats {
            count: u32_at(data, at),
            last_timestamp: LogTime::parse(data, at + 4),
            old_count: u32_at(data, at + 12),
        }
    }

    /// Appends the sixteen bytes of `self` to `writer`.
    pub fn write_into(&self, writer: &mut LittleEndianWrite)
        ensures
            final(writer)@ == old(writer)@ + self.spec_bytes(),
    {
        reveal(ErrorStats::spec_bytes);
        writer.write_u32(self.count);
        self.last_timestamp.write_into(writer);
        writer.write_u32(self.old_count);
        assert(writer@ =~= old(writer)@ + self.spec_bytes());
    }
}


/// The file header. Two copies open the file, one page each.
#[derive(Clone, Copy, Debug, PartialEq, Eq)]
pub struct Header {
    pub checksum: u32,
    pub signature: u32,
    pub version: u32,
    pub file_type: FileType,
    pub database_time: DbTime,
    pub db_signature: DbSignature,
    pub state: DbState,
    pub consistent_position: LogPosition,
    pub consistent_timestamp: LogTime,
    pub attach_timestamp: LogTime,
    pub attach_position: LogPosition,
    pub detach_timestamp: LogTime,
    pub detach_position: LogPosition,
    pub dbid: u32,
    pub log_signature: DbSignature,
    pub previous_full_backup: BackupInfo,
    pub previous_incremental_backup: BackupInfo,
    pub current_full_backup: BackupInfo,
    pub shadowing_disabled: u32,
    pub last_oid: u32,
    pub last_index_update_version: NtVersion,
    pub format_revision: u32,
    pub page_size: u32,
    pub repair_count: u32,
    pub repair_timestamp: LogTime,
    pub unknown2: DbSignature,
    pub scrub_time: DbTime,
    pub scrub_timestamp: LogTime,
    pub required_log: u64,
    pub upgrade_exchange55: u32,
    pub upgrade_free_pages: u32,
    pub upgrade_space_map_pages: u32,
    pub current_shadow_copy_backup: BackupInfo,
    pub creation_version: u32,
    pub creation_revision: u32,
    pub unknown3: [u8; 16],
    pub old_repair_count: u32,
    pub ecc_fix_success: ErrorStats,
    pub ecc_fix_error: ErrorStats,
    pub bad_checksum_error: ErrorStats,
    pub committed_log: u32,
    pub previous_shadow_copy_backup: BackupInfo,
    pub previous_differential_backup: BackupInfo,
    pub unknown4: [u8; 40],
    pub nls_major_version: u32,
    pub nls_minor_version: u32,
    pub unknown5: [u8; 148],
    pub unknown_flags: u32,
}

impl Header {
    pub open spec fn spec_page_size_as_usize(&self) -> usize {
        self.page_size as usize
    }

    #[verifier::when_used_as_spec(spec_page_size_as_usize)]
    pub fn page_size_as_usize(&self) -> (r: usize)
        ensures
            r == self.page_size,
    {
        self.page_size as usize
    }

    /// The version in the upper and the format revision in the lower
    /// thirty-two bits.
    pub open spec fn spec_version_and_revision(&self) -> u64 {
        (self.version as int * 0x1_0000_0000 + self.format_revision as int) as u64
    }

    #[verifier::when_used_as_spec(spec_version_and_revision)]
    pub fn version_and_revision(&self) -> (r: u64)
        ensures
            r == self.version as int * 0x1_0000_0000 + self.format_revision as int,
    {
        (self.version as u64) * 0x1_0000_0000 + (self.format_revision as u64)
    }

    /// Every enumeration in the header is well formed.
    pub open spec fn wf(self) -> bool {
        &&& self.file_type.wf()
        &&& self.db_signature.wf()
        &&& self.state.wf()
        &&& self.consistent_timestamp.wf()
        &&& self.attach_timestamp.wf()
        &&& self.detach_timestamp.wf()
        &&& self.log_signature.wf()
        &&& self.previous_full_backup.wf()
        &&& self.previous_incremental_backup.wf()
        &&& self.current_full_backup.wf()
        &&& self.repair_timestamp.wf()
        &&& self.unknown2.wf()
        &&& self.scrub_timestamp.wf()
        &&& self.current_shadow_copy_backup.wf()
        &&& self.ecc_fix_success.wf()
        &&& self.ecc_fix_error.wf()
        &&& self.bad_checksum_error.wf()
        &&& self.previous_shadow_copy_backup.wf()
        &&& self.previous_differential_backup.wf()
    }

    /// The header stored at `s[at..at + 668]`.
    pub open spec fn spec_parse(s: Seq<u8>, at: int) -> Header {
        Header {
            checksum: le_u32_at(s, at),
            signature: le_u32_at(s, at + 4),
            version: le_u32_at(s, at + 8),
            file_type: FileType::of_code(le_u32_at(s, at + 12)),
            database_time: DbTime::spec_parse(s, at + 16),
            db_signature: DbSignature::spec_parse(s, at + 24),
            state: DbState::of_code(le_u32_at(s, at + 52)),
            consistent_position: LogPosition::spec_parse(s, at + 56),
            consistent_timestamp: LogTime::spec_parse(s, at + 64),
            attach_timestamp: LogTime::spec_parse(s, at + 72),
            attach_position: LogPosition::spec_parse(s, at + 80),
            detach_timestamp: LogTime::spec_parse(s, at + 88),
            detach_position: LogPosition::spec_parse(s, at + 96),
            dbid: le_u32_at(s, at + 104),
            log_signature: DbSignature::spec_parse(s, at + 108),
            previous_full_backup: BackupInfo::spec_parse(s, at + 136),
            previous_incremental_backup: BackupInfo::spec_parse(s, at + 160),
            current_full_backup: BackupInfo::spec_parse(s, at + 184),
            shadowing_disabled: le_u32_at(s, at + 208),
            last_oid: le_u32_at(s, at + 212),
            last_index_update_version: NtVersion::spec_parse(s, at + 216),
            format_revision: le_u32_at(s, at + 232),
            page_size: le_u32_at(s, at + 236),
            repair_count: le_u32_at(s, at + 240),
            repair_timestamp: LogTime::spec_parse(s, at + 244),
            unknown2: DbSignature::spec_parse(s, at + 252),
            scrub_time: DbTime::spec_parse(s, at + 280),
            scrub_timestamp: LogTime::spec_parse(s, at + 288),
            required_log: le_u64_at(s, at + 296),
            upgrade_exchange55: le_u32_at(s, at + 304),
            upgrade_free_pages: le_u32_at(s, at + 308),
            upgrade_space_map_pages: le_u32_at(s, at + 312),
            current_shadow_copy_backup: BackupInfo::spec_parse(s, at + 316),
            creation_version: le_u32_at(s, at + 340),
            creation_revision: le_u32_at(s, at + 344),
            unknown3: array_at::<16>(s, at + 348),
            old_repair_count: le_u32_at(s, at + 364),
            ecc_fix_success: ErrorStats::spec_parse(s, at + 368),
            ecc_fix_error: ErrorStats::spec_parse(s, at + 384),
            bad_checksum_error: ErrorStats::spec_parse(s, at + 400),
            committed_log: le_u32_at(s, at + 416),
            previous_shadow_copy_backup: BackupInfo::spec_parse(s, at + 420),
            previous_differential_backup: BackupInfo::spec_parse(s, at + 444),
            unknown4: array_at::<40>(s, at + 468),
            nls_major_version: le_u32_at(s, at + 508),
            nls_minor_version: le_u32_at(s, at + 512),
            unknown5: array_at::<148>(s, at + 516),
            unknown_flags: le_u32_at(s, at + 664),
        }
    }

    /// The bytes of the first quarter of the fields: `[0, 104)` of the header.
    #[verifier::opaque]
    pub open spec fn spec_bytes_1(self) -> Seq<u8> {
        u32_bytes(self.checksum)
            + u32_bytes(self.signature)
            + u32_bytes(self.version)
            + u32_bytes(self.file_type.code())
            + self.database_time.spec_bytes()
            + self.db_signature.spec_bytes()
            + u32_bytes(self.state.code())
            + self.consistent_position.spec_bytes()
            + self.consistent_timestamp.spec_bytes()
            + self.attach_timestamp.spec_bytes()
            + self.attach_position.spec_bytes()
            + self.detach_timestamp.spec_bytes()
            + self.detach_position.spec_bytes()
    }

    /// The bytes of the second quarter of the fields: `[104, 244)` of the header.
    #[verifier::opaque]
    pub open spec fn spec_bytes_2(self) -> Seq<u8> {
        u32_bytes(self.dbid)
            + self.log_signature.spec_bytes()
            + self.previous_full_backup.spec_bytes()
            + self.previous_incremental_backup.spec_bytes()
            + self.current_full_backup.spec_bytes()
            + u32_bytes(self.shadowing_disabled)
            + u32_bytes(self.last_oid)
            + self.last_index_update_version.spec_bytes()
            + u32_bytes(self.format_revision)
            + u32_bytes(self.page_size)
            + u32_bytes(self.repair_count)
    }

    /// The bytes of the third quarter of the fields: `[244, 364)` of the header.
    #[verifier::opaque]
    pub open spec fn spec_bytes_3(self) -> Seq<u8> {
        self.repair_timestamp.spec_bytes()
            + self.unknown2.spec_bytes()
            + self.scrub_time.spec_bytes()
            + self.scrub_timestamp.spec_bytes()
            + u64_bytes(self.required_log)
            + u32_bytes(self.upgrade_exchange55)
            + u32_bytes(self.upgrade_free_pages)
            + u32_bytes(self.upgrade_space_map_pages)
            + self.current_shadow_copy_backup.spec_bytes()
            + u32_bytes(self.creation_version)
            + u32_bytes(self.creation_revision)
            + self.unknown3@
    }

    /// The bytes of the fourth quarter of the fields: `[364, 668)` of the header.
    #[verifier::opaque]
    pub open spec fn spec_bytes_4(self) -> Seq<u8> {
        u32_bytes(self.old_repair_count)
            + self.ecc_fix_success.spec_bytes()
            + self.ecc_fix_error.spec_bytes()
            + self.bad_checksum_error.spec_bytes()
            + u32_bytes(self.committed_log)
            + self.previous_shadow_copy_backup.spec_bytes()
            + self.previous_differential_backup.spec_bytes()
            + self.unknown4@
            + u32_bytes(self.nls_major_version)
            + u32_bytes(self.nls_minor_version)
            + self.unknown5@
            + u32_bytes(self.unknown_flags)
    }

    /// The 668 bytes that store `self`.
    pub open spec fn spec_bytes(self) -> Seq<u8> {
        self.spec_bytes_1() + self.spec_bytes_2() + self.spec_bytes_3() + self.spec_bytes_4()
    }

    proof fn lemma_field_lengths(self)
        ensures
            self.database_time.spec_bytes().len() == 8,
            self.db_signature.spec_bytes().len() == 28,
            self.consistent_position.spec_bytes().len() == 8,
            self.consistent_timestamp.spec_bytes().len() == 8,
            self.attach_timestamp.spec_bytes().len() == 8,
            self.attach_position.spec_bytes().len() == 8,
            self.detach_timestamp.spec_bytes().len() == 8,
            self.detach_position.spec_bytes().len() == 8,
            self.log_signature.spec_bytes().len() == 28,
            self.previous_full_backup.spec_bytes().len() == 24,
            self.previous_incremental_backup.spec_bytes().len() == 24,
            self.current_full_backup.spec_bytes().len() == 24,
            self.last_index_update_version.spec_bytes().len() == 16,
            self.repair_timestamp.spec_bytes().len() == 8,
            self.unknown2.spec_bytes().len() == 28,
            self.scrub_time.spec_bytes().len() == 8,
            self.scrub_timestamp.spec_bytes().len() == 8,
            self.current_shadow_copy_backup.spec_bytes().len() == 24,
            self.ecc_fix_success.spec_bytes().len() == 16,
            self.ecc_fix_error.spec_bytes().len() == 16,
            self.bad_checksum_error.spec_bytes().len() == 16,
            self.previous_shadow_copy_backup.spec_bytes().len() == 24,
            self.previous_differential_backup.spec_bytes().len() == 24,
    {
        self.database_time.lemma_len();
        self.db_signature.lemma_len();
        self.consistent_position.lemma_len();
        self.consistent_timestamp.lemma_len();
        self.attach_timestamp.lemma_len();
        self.attach_position.lemma_len();
        self.detach_timestamp.lemma_len();
        self.detach_position.lemma_len();
        self.log_signature.lemma_len();
        self.previous_full_backup.lemma_len();
        self.previous_incremental_backup.lemma_len();
        self.current_full_backup.lemma_len();
        self.last_index_update_version.lemma_len();
        self.repair_timestamp.lemma_len();
        self.unknown2.lemma_len();
        self.scrub_time.lemma_len();
        self.scrub_timestamp.lemma_len();
        self.current_shadow_copy_backup.lemma_len();
        self.ecc_fix_success.lemma_len();
        self.ecc_fix_error.lemma_len();
        self.bad_checksum_error.lemma_len();
        self.previous_shadow_copy_backup.lemma_len();
        self.previous_differential_backup.lemma_len();
    }

    /// The lengths of the four quarters.
    pub proof fn lemma_lengths(self)
        ensures
            self.spec_bytes_1().len() == 104,
            self.spec_bytes_2().len() == 140,
            self.spec_bytes_3().len() == 120,
            self.spec_bytes_4().len() == 304,
            self.spec_bytes().len() == 668,
    {
        self.lemma_field_lengths();
        assert(self.spec_bytes_1().len() == 104) by {
            reveal(Header::spec_bytes_1);
        }
        assert(self.spec_bytes_2().len() == 140) by {
            reveal(Header::spec_bytes_2);
        }
        assert(self.spec_bytes_3().len() == 120) by {
            reveal(Header::spec_bytes_3);
        }
        assert(self.spec_bytes_4().len() == 304) by {
            reveal(Header::spec_bytes_4);
        }
    }

    proof fn lemma_round_trip_1(self, s: Seq<u8>, at: int)
        requires
            self.wf(),
            0 <= at,
            at + 668 <= s.len(),
            s.subrange(at + 0, at + 104) == self.spec_bytes_1(),
        ensures
            le_u32_at(s, at) == self.checksum,
            le_u32_at(s, at + 4) == self.signature,
            le_u32_at(s, at + 8) == self.version,
            FileType::of_code(le_u32_at(s, at + 12)) == self.file_type,
            DbTime::spec_parse(s, at + 16) == self.database_time,
            DbSignature::spec_parse(s, at + 24) == self.db_signature,
            DbState::of_code(le_u32_at(s, at + 52)) == self.state,
            LogPosition::spec_parse(s, at + 56) == self.consistent_position,
            LogTime::spec_parse(s, at + 64) == self.consistent_timestamp,
            LogTime::spec_parse(s, at + 72) == self.attach_timestamp,
            LogPosition::spec_parse(s, at + 80) == self.attach_position,
            LogTime::spec_parse(s, at + 88) == self.detach_timestamp,
            LogPosition::spec_parse(s, at + 96) == self.detach_position,
    {
        reveal(Header::spec_bytes_1);
        self.lemma_field_lengths();
        let whole = self.spec_bytes_1();
        let base = at + 0;
        assert(whole.subrange(0, 4) =~= u32_bytes(self.checksum));
        lemma_part(s, base, whole, 0, u32_bytes(self.checksum));
        lemma_u32_round_trip(s, at, self.checksum);
        assert(whole.subrange(4, 8) =~= u32_bytes(self.signature));
        lemma_part(s, base, whole, 4, u32_bytes(self.signature));
        lemma_u32_round_trip(s, at + 4, self.signature);
        assert(whole.subrange(8, 12) =~= u32_bytes(self.version));
        lemma_part(s, base, whole, 8, u32_bytes(self.version));
        lemma_u32_round_trip(s, at + 8, self.version);
        assert(whole.subrange(12, 16) =~= u32_bytes(self.file_type.code()));
        lemma_part(s, base, whole, 12, u32_bytes(self.file_type.code()));
        lemma_u32_round_trip(s, at + 12, self.file_type.code());
        assert(whole.subrange(16, 24) =~= self.database_time.spec_bytes());
        lemma_part(s, base, whole, 16, self.database_time.spec_bytes());
        self.database_time.lemma_round_trip(s, at + 16);
        assert(whole.subrange(24, 52) =~= self.db_signature.spec_bytes());
        lemma_part(s, base, whole, 24, self.db_signature.spec_bytes());
        self.db_signature.lemma_round_trip(s, at + 24);
        assert(whole.subrange(52, 56) =~= u32_bytes(self.state.code()));
        lemma_part(s, base, whole, 52, u32_bytes(self.state.code()));
        lemma_u32_round_trip(s, at + 52, self.state.code());
        assert(whole.subrange(56, 64) =~= self.consistent_position.spec_bytes());
        lemma_part(s, base, whole, 56, self.consistent_position.spec_bytes());
        self.consistent_position.lemma_round_trip(s, at + 56);
        assert(whole.subrange(64, 72) =~= self.consistent_timestamp.spec_bytes());
        lemma_part(s, base, whole, 64, self.consistent_timestamp.spec_bytes());
        self.consistent_timestamp.lemma_round_trip(s, at + 64);
        assert(whole.subrange(72, 80) =~= self.attach_timestamp.spec_bytes());
        lemma_part(s, base, whole, 72, self.attach_timestamp.spec_bytes());
        self.attach_timestamp.lemma_round_trip(s, at + 72);
        assert(whole.subrange(80, 88) =~= self.attach_position.spec_bytes());
        lemma_part(s, base, whole, 80, self.attach_position.spec_bytes());
        self.attach_position.lemma_round_trip(s, at + 80);
        assert(whole.subrange(88, 96) =~= self.detach_timestamp.spec_bytes());
        lemma_part(s, base, whole, 88, self.detach_timestamp.spec_bytes());
        self.detach_timestamp.lemma_round_trip(s, at + 88);
        assert(whole.subrange(96, 104) =~= self.detach_position.spec_bytes());
        lemma_part(s, base, whole, 96, self.detach_position.spec_bytes());
        self.detach_position.lemma_round_trip(s, at + 96);
    }

    proof fn lemma_round_trip_2(self, s: Seq<u8>, at: int)
        requires
            self.wf(),
            0 <= at,
            at + 668 <= s.len(),
            s.subrange(at + 104, at + 244) == self.spec_bytes_2(),
        ensures
            le_u32_at(s, at + 104) == self.dbid,
            DbSignature::spec_parse(s, at + 108) == self.log_signature,
            BackupInfo::spec_parse(s, at + 136) == self.previous_full_backup,
            BackupInfo::spec_parse(s, at + 160) == self.previous_incremental_backup,
            BackupInfo::spec_parse(s, at + 184) == self.current_full_backup,
            le_u32_at(s, at + 208) == self.shadowing_disabled,
            le_u32_at(s, at + 212) == self.last_oid,
            NtVersion::spec_parse(s, at + 216) == self.last_index_update_version,
            le_u32_at(s, at + 232) == self.format_revision,
            le_u32_at(s, at + 236) == self.page_size,
            le_u32_at(s, at + 240) == self.repair_count,
    {
        reveal(Header::spec_bytes_2);
        self.lemma_field_lengths();
        let whole = self.spec_bytes_2();
        let base = at + 104;
        assert(whole.subrange(0, 4) =~= u32_bytes(self.dbid));
        lemma_part(s, base, whole, 0, u32_bytes(self.dbid));
        lemma_u32_round_trip(s, at + 104, self.dbid);
        assert(whole.subrange(4, 32) =~= self.log_signature.spec_bytes());
        lemma_part(s, base, whole, 4, self.log_signature.spec_bytes());
        self.log_signature.lemma_round_trip(s, at + 108);
        assert(whole.subrange(32, 56) =~= self.previous_full_backup.spec_bytes());
        lemma_part(s, base, whole, 32, self.previous_full_backup.spec_bytes());
        self.previous_full_backup.lemma_round_trip(s, at + 136);
        assert(whole.subrange(56, 80) =~= self.previous_incremental_backup.spec_bytes());
        lemma_part(s, base, whole, 56, self.previous_incremental_backup.spec_bytes());
        self.previous_incremental_backup.lemma_round_trip(s, at + 160);
        assert(whole.subrange(80, 104) =~= self.current_full_backup.spec_bytes());
        lemma_part(s, base, whole, 80, self.current_full_backup.spec_bytes());
        self.current_full_backup.lemma_round_trip(s, at + 184);
        assert(whole.subrange(104, 108) =~= u32_bytes(self.shadowing_disabled));
        lemma_part(s, base, whole, 104, u32_bytes(self.shadowing_disabled));
        lemma_u32_round_trip(s, at + 208, self.shadowing_disabled);
        assert(whole.subrange(108, 112) =~= u32_bytes(self.last_oid));
        lemma_part(s, base, whole, 108, u32_bytes(self.last_oid));
        lemma_u32_round_trip(s, at + 212, self.last_oid);
        assert(whole.subrange(112, 128) =~= self.last_index_update_version.spec_bytes());
        lemma_part(s, base, whole, 112, self.last_index_update_version.spec_bytes());
        self.last_index_update_version.lemma_round_trip(s, at + 216);
        assert(whole.subrange(128, 132) =~= u32_bytes(self.format_revision));
        lemma_part(s, base, whole, 128, u32_bytes(self.format_revision));
        lemma_u32_round_trip(s, at + 232, self.format_revision);
        assert(whole.subrange(132, 136) =~= u32_bytes(self.page_size));
        lemma_part(s, base, whole, 132, u32_bytes(self.page_size));
        lemma_u32_round_trip(s, at + 236, self.page_size);
        assert(whole.subrange(136, 140) =~= u32_bytes(self.repair_count));
        lemma_part(s, base, whole, 136, u32_bytes(self.repair_count));
        lemma_u32_round_trip(s, at + 240, self.repair_count);
    }

    proof fn lemma_round_trip_3(self, s: Seq<u8>, at: int)
        requires
            self.wf(),
            0 <= at,
            at + 668 <= s.len(),
            s.subrange(at + 244, at + 364) == self.spec_bytes_3(),
        ensures
            LogTime::spec_parse(s, at + 244) == self.repair_timestamp,
            DbSignature::spec_parse(s, at + 252) == self.unknown2,
            DbTime::spec_parse(s, at + 280) == self.scrub_time,
            LogTime::spec_parse(s, at + 288) == self.scrub_timestamp,
            le_u64_at(s, at + 296) == self.required_log,
            le_u32_at(s, at + 304) == self.upgrade_exchange55,
            le_u32_at(s, at + 308) == self.upgrade_free_pages,
            le_u32_at(s, at + 312) == self.upgrade_space_map_pages,
            BackupInfo::spec_parse(s, at + 316) == self.current_shadow_copy_backup,
            le_u32_at(s, at + 340) == self.creation_version,
            le_u32_at(s, at + 344) == self.creation_revision,
            array_at::<16>(s, at + 348) == self.unknown3,
    {
        reveal(Header::spec_bytes_3);
        self.lemma_field_lengths();
        let whole = self.spec_bytes_3();
        let base = at + 244;
        assert(whole.subrange(0, 8) =~= self.repair_timestamp.spec_bytes());
        lemma_part(s, base, whole, 0, self.repair_timestamp.spec_bytes());
        self.repair_timestamp.lemma_round_trip(s, at + 244);
        assert(whole.subrange(8, 36) =~= self.unknown2.spec_bytes());
        lemma_part(s, base, whole, 8, self.unknown2.spec_bytes());
        self.unknown2.lemma_round_trip(s, at + 252);
        assert(whole.subrange(36, 44) =~= self.scrub_time.spec_bytes());
        lemma_part(s, base, whole, 36, self.scrub_time.spec_bytes());
        self.scrub_time.lemma_round_trip(s, at + 280);
        assert(whole.subrange(44, 52) =~= self.scrub_timestamp.spec_bytes());
        lemma_part(s, base, whole, 44, self.scrub_timestamp.spec_bytes());
        self.scrub_timestamp.lemma_round_trip(s, at + 288);
        assert(whole.subrange(52, 60) =~= u64_bytes(self.required_log));
        lemma_part(s, base, whole, 52, u64_bytes(self.required_log));
        lemma_u64_round_trip(s, at + 296, self.required_log);
        assert(whole.subrange(60, 64) =~= u32_bytes(self.upgrade_exchange55));
        lemma_part(s, base, whole, 60, u32_bytes(self.upgrade_exchange55));
        lemma_u32_round_trip(s, at + 304, self.upgrade_exchange55);
        assert(whole.subrange(64, 68) =~= u32_bytes(self.upgrade_free_pages));
        lemma_part(s, base, whole, 64, u32_bytes(self.upgrade_free_pages));
        lemma_u32_round_trip(s, at + 308, self.upgrade_free_pages);
        assert(whole.subrange(68, 72) =~= u32_bytes(self.upgrade_space_map_pages));
        lemma_part(s, base, whole, 68, u32_bytes(self.upgrade_space_map_pages));
        lemma_u32_round_trip(s, at + 312, self.upgrade_space_map_pages);
        assert(whole.subrange(72, 96) =~= self.current_shadow_copy_backup.spec_bytes());
        lemma_part(s, base, whole, 72, self.current_shadow_copy_backup.spec_bytes());
        self.current_shadow_copy_backup.lemma_round_trip(s, at + 316);
        assert(whole.subrange(96, 100) =~= u32_bytes(self.creation_version));
        lemma_part(s, base, whole, 96, u32_bytes(self.creation_version));
        lemma_u32_round_trip(s, at + 340, self.creation_version);
        assert(whole.subrange(100, 104) =~= u32_bytes(self.creation_revision));
        lemma_part(s, base, whole, 100, u32_bytes(self.creation_revision));
        lemma_u32_round_trip(s, at + 344, self.creation_revision);
        assert(whole.subrange(104, 120) =~= self.unknown3@);
        lemma_part(s, base, whole, 104, self.unknown3@);
        lemma_array_at::<16>(self.unknown3, s, at + 348);
    }

    proof fn lemma_round_trip_4(self, s: Seq<u8>, at: int)
        requires
            self.wf(),
            0 <= at,
            at + 668 <= s.len(),
            s.subrange(at + 364, at + 668) == self.spec_bytes_4(),
        ensures
            le_u32_at(s, at + 364) == self.old_repair_count,
            ErrorStats::spec_parse(s, at + 368) == self.ecc_fix_success,
            ErrorStats::spec_parse(s, at + 384) == self.ecc_fix_error,
            ErrorStats::spec_parse(s, at + 400) == self.bad_checksum_error,
            le_u32_at(s, at + 416) == self.committed_log,
            BackupInfo::spec_parse(s, at + 420) == self.previous_shadow_copy_backup,
            BackupInfo::spec_parse(s, at + 444) == self.previous_differential_backup,
            array_at::<40>(s, at + 468) == self.unknown4,
            le_u32_at(s, at + 508) == self.nls_major_version,
            le_u32_at(s, at + 512) == self.nls_minor_version,
            array_at::<148>(s, at + 516) == self.unknown5,
            le_u32_at(s, at + 664) == self.unknown_flags,
    {
        reveal(Header::spec_bytes_4);
        self.lemma_field_lengths();
        let whole = self.spec_bytes_4();
        let base = at + 364;
        assert(whole.subrange(0, 4) =~= u32_bytes(self.old_repair_count));
        lemma_part(s, base, whole, 0, u32_bytes(self.old_repair_count));
        lemma_u32_round_trip(s, at + 364, self.old_repair_count);
        assert(whole.subrange(4, 20) =~= self.ecc_fix_success.spec_bytes());
        lemma_part(s, base, whole, 4, self.ecc_fix_success.spec_bytes());
        self.ecc_fix_success.lemma_round_trip(s, at + 368);
        assert(whole.subrange(20, 36) =~= self.ecc_fix_error.spec_bytes());
        lemma_part(s, base, whole, 20, self.ecc_fix_error.spec_bytes());
        self.ecc_fix_error.lemma_round_trip(s, at + 384);
        assert(whole.subrange(36, 52) =~= self.bad_checksum_error.spec_bytes());
        lemma_part(s, base, whole, 36, self.bad_checksum_error.spec_bytes());
        self.bad_checksum_error.lemma_round_trip(s, at + 400);
        assert(whole.subrange(52, 56) =~= u32_bytes(self.committed_log));
        lemma_part(s, base, whole, 52, u32_bytes(self.committed_log));
        lemma_u32_round_trip(s, at + 416, self.committed_log);
        assert(whole.subrange(56, 80) =~= self.previous_shadow_copy_backup.spec_bytes());
        lemma_part(s, base, whole, 56, self.previous_shadow_copy_backup.spec_bytes());
        self.previous_shadow_copy_backup.lemma_round_trip(s, at + 420);
        assert(whole.subrange(80, 104) =~= self.previous_differential_backup.spec_bytes());
        lemma_part(s, base, whole, 80, self.previous_differential_backup.spec_bytes());
        self.previous_differential_backup.lemma_round_trip(s, at + 444);
        assert(whole.subrange(104, 144) =~= self.unknown4@);
        lemma_part(s, base, whole, 104, self.unknown4@);
        lemma_array_at::<40>(self.unknown4, s, at + 468);
        assert(whole.subrange(144, 148) =~= u32_bytes(self.nls_major_version));
        lemma_part(s, base, whole, 144, u32_bytes(self.nls_major_version));
        lemma_u32_round_trip(s, at + 508, self.nls_major_version);
        assert(whole.subrange(148, 152) =~= u32_bytes(self.nls_minor_version));
        lemma_part(s, base, whole, 148, u32_bytes(self.nls_minor_version));
        lemma_u32_round_trip(s, at + 512, self.nls_minor_version);
        assert(whole.subrange(152, 300) =~= self.unknown5@);
        lemma_part(s, base, whole, 152, self.unknown5@);
        lemma_array_at::<148>(self.unknown5, s, at + 516);
        assert(whole.subrange(300, 304) =~= u32_bytes(self.unknown_flags));
        lemma_part(s, base, whole, 300, u32_bytes(self.unknown_flags));
        lemma_u32_round_trip(s, at + 664, self.unknown_flags);
    }

    /// Where the 668 bytes of `self` stand, `self` is what is decoded.
    pub proof fn lemma_round_trip(self, s: Seq<u8>, at: int)
        requires
            self.wf(),
            0 <= at,
            at + 668 <= s.len(),
            s.subrange(at, at + 668) == self.spec_bytes(),
        ensures
            Self::spec_parse(s, at) == self,
    {
        let whole = self.spec_bytes();
        self.lemma_lengths();
        assert(whole.subrange(0, 104) =~= self.spec_bytes_1());
        lemma_part(s, at, whole, 0, self.spec_bytes_1());
        self.lemma_round_trip_1(s, at);
        assert(whole.subrange(104, 244) =~= self.spec_bytes_2());
        lemma_part(s, at, whole, 104, self.spec_bytes_2());
        self.lemma_round_trip_2(s, at);
        assert(whole.subrange(244, 364) =~= self.spec_bytes_3());
        lemma_part(s, at, whole, 244, self.spec_bytes_3());
        self.lemma_round_trip_3(s, at);
        assert(whole.subrange(364, 668) =~= self.spec_bytes_4());
        lemma_part(s, at, whole, 364, self.spec_bytes_4());
        self.lemma_round_trip_4(s, at);
    }

    /// Decodes the header stored at `data[at..at + 668]`.
    pub fn parse(data: &[u8], at: usize) -> (r: Header)
        requires
            at + 668 <= data.len(),
        ensures
            r == Self::spec_parse(data@, at as int),
            r.wf(),
    {
        Header {
            checksum: u32_at(data, at),
            signature: u32_at(data, at + 4),
            version: u32_at(data, at + 8),
            file_type: FileType::from_base_type(u32_at(data, at + 12)),
            database_time: DbTime::parse(data, at + 16),
            db_signature: DbSignature::parse(data, at + 24),
            state: DbState::from_base_type(u32_at(data, at + 52)),
            consistent_position: LogPosition::parse(data, at + 56),
            consistent_timestamp: LogTime::parse(data, at + 64),
            attach_timestamp: LogTime::parse(data, at + 72),
            attach_position: LogPosition::parse(data, at + 80),
            detach_timestamp: LogTime::parse(data, at + 88),
            detach_position: LogPosition::parse(data, at + 96),
            dbid: u32_at(data, at + 104),
            log_signature: DbSignature::parse(data, at + 108),
            previous_full_backup: BackupInfo::parse(data, at + 136),
            previous_incremental_backup: BackupInfo::parse(data, at + 160),
            current_full_backup: BackupInfo::parse(data, at + 184),
            shadowing_disabled: u32_at(data, at + 208),
            last_oid: u32_at(data, at + 212),
            last_index_update_version: NtVersion::parse(data, at + 216),
            format_revision: u32_at(data, at + 232),
            page_size: u32_at(data, at + 236),
            repair_count: u32_at(data, at + 240),
            repair_timestamp: LogTime::parse(data, at + 244),
            unknown2: DbSignature::parse(data, at + 252),
            scrub_time: DbTime::parse(data, at + 280),
            scrub_timestamp: LogTime::parse(data, at + 288),
            required_log: u64_at(data, at + 296),
            upgrade_exchange55: u32_at(data, at + 304),
            upgrade_free_pages: u32_at(data, at + 308),
            upgrade_space_map_pages: u32_at(data, at + 312),
            current_shadow_copy_backup: BackupInfo::parse(data, at + 316),
            creation_version: u32_at(data, at + 340),
            creation_revision: u32_at(data, at + 344),
            unknown3: read_array::<16>(data, at + 348),
            old_repair_count: u32_at(data, at + 364),
            ecc_fix_success: ErrorStats::parse(data, at + 368),
            ecc_fix_error: ErrorStats::parse(data, at + 384),
            bad_checksum_error: ErrorStats::parse(data, at + 400),
            committed_log: u32_at(data, at + 416),
            previous_shadow_copy_backup: BackupInfo::parse(data, at + 420),
            previous_differential_backup: BackupInfo::parse(data, at + 444),
            unknown4: read_array::<40>(data, at + 468),
            nls_major_version: u32_at(data, at + 508),
            nls_minor_version: u32_at(data, at + 512),
            unknown5: read_array::<148>(data, at + 516),
            unknown_flags: u32_at(data, at + 664),
        }
    }

    fn write_part_1(&self, writer: &mut LittleEndianWrite)
        ensures
            final(writer)@ == old(writer)@ + self.spec_bytes_1(),
    {
        reveal(Header::spec_bytes_1);
        writer.write_u32(self.checksum);
        writer.write_u32(self.signature);
        writer.write_u32(self.version);
        writer.write_u32(self.file_type.to_base_type());
        self.database_time.write_into(writer);
        self.db_signature.write_into(writer);
        writer.write_u32(self.state.to_base_type());
        self.consistent_position.write_into(writer);
        self.consistent_timestamp.write_into(writer);
        self.attach_timestamp.write_into(writer);
        self.attach_position.write_into(writer);
        self.detach_timestamp.write_into(writer);
        self.detach_position.write_into(writer);
        assert(writer@ =~= old(writer)@ + self.spec_bytes_1());
    }

    fn write_part_2(&self, writer: &mut LittleEndianWrite)
        ensures
            final(writer)@ == old(writer)@ + self.spec_bytes_2(),
    {
        reveal(Header::spec_bytes_2);
        writer.write_u32(self.dbid);
        self.log_signature.write_into(writer);
        self.previous_full_backup.write_into(writer);
        self.previous_incremental_backup.write_into(writer);
        self.current_full_backup.write_into(writer);
        writer.write_u32(self.shadowing_disabled);
        writer.write_u32(self.last_oid);
        self.last_index_update_version.write_into(writer);
        writer.write_u32(self.format_revision);
        writer.write_u32(self.page_size);
        writer.write_u32(self.repair_count);
        assert(writer@ =~= old(writer)@ + self.spec_bytes_2());
    }

    fn write_part_3(&self, writer: &mut LittleEndianWrite)
        ensures
            final(writer)@ == old(writer)@ + self.spec_bytes_3(),
    {
        reveal(Header::spec_bytes_3);
        self.repair_timestamp.write_into(writer);
        self.unknown2.write_into(writer);
        self.scrub_time.write_into(writer);
        self.scrub_timestamp.write_into(writer);
        writer.write_u64(self.required_log);
        writer.write_u32(self.upgrade_exchange55);
        writer.write_u32(self.upgrade_free_pages);
        writer.write_u32(self.upgrade_space_map_pages);
        self.current_shadow_copy_backup.write_into(writer);
        writer.write_u32(self.creation_version);
        writer.write_u32(self.creation_revision);
        writer.append(self.unknown3.as_slice());
        assert(writer@ =~= old(writer)@ + self.spec_bytes_3());
    }

    fn write_part_4(&self, writer: &mut LittleEndianWrite)
        ensures
            final(writer)@ == old(writer)@ + self.spec_bytes_4(),
    {
        reveal(Header::spec_bytes_4);
        writer.write_u32(self.old_repair_count);
        self.ecc_fix_success.write_into(writer);
        self.ecc_fix_error.write_into(writer);
        self.bad_checksum_error.write_into(writer);
        writer.write_u32(self.committed_log);
        self.previous_shadow_copy_backup.write_into(writer);
        self.previous_differential_backup.write_into(writer);
        writer.append(self.unknown4.as_slice());
        writer.write_u32(self.nls_major_version);
        writer.write_u32(self.nls_minor_version);
        writer.append(self.unknown5.as_slice());
        writer.write_u32(self.unknown_flags);
        assert(writer@ =~= old(writer)@ + self.spec_bytes_4());
    }

    /// Appends the 668 bytes of `self` to `writer`.
    pub fn write_into(&self, writer: &mut LittleEndianWrite)
        ensures
            final(writer)@ == old(writer)@ + self.spec_bytes(),
    {
        self.write_part_1(writer);
        self.write_part_2(writer);
        self.write_part_3(writer);
        self.write_part_4(writer);
        assert(writer@ =~= old(writer)@ + self.spec_bytes());
    }
}


/// The exclusive-or of the `count` 32-bit words that start at `s[from]`.
pub open spec fn xor_words(s: Seq<u8>, from: int, count: nat) -> u32
    decreases count,
{
    if count == 0 {
        0
    } else {
        xor_words(s, from, (count - 1) as nat) ^ le_u32_at(s, from + 4 * (count - 1))
    }
}

/// The checksum of the header page of `page_size` bytes at `s[at]`: the
/// exclusive-or of its words from byte 8 on.
pub open spec fn header_checksum(s: Seq<u8>, at: int, page_size: int) -> u32 {
    xor_words(s, at + 8, ((page_size - 8) / 4) as nat)
}

/// What decoding the header page at `s[at]` gives: the header, or the first
/// check that fails.
pub open spec fn spec_read_header(s: Seq<u8>, at: int) -> Result<Header, ReadError> {
    let signature = le_u32_at(s, at + 4);
    let page_size = le_u32_at(s, at + 236);
    let stored = le_u32_at(s, at);
    let calculated = header_checksum(s, at, page_size as int);
    if at + 668 > s.len() {
        Err(ReadError::Io(IoErrorKind::UnexpectedEof))
    } else if signature != HEADER_SIGNATURE {
        Err(ReadError::WrongHeaderSignature { expected: HEADER_SIGNATURE, read: signature })
    } else if page_size < 668 {
        Err(
            ReadError::HeaderLongerThanPage {
                header_length: HEADER_SIZE,
                page_size: page_size as usize,
            },
        )
    } else if page_size % 4 != 0 {
        Err(ReadError::PageSizeNotDivisibleBy4 { page_size: page_size as usize })
    } else if at + page_size > s.len() {
        Err(ReadError::Io(IoErrorKind::UnexpectedEof))
    } else if stored != calculated {
        Err(ReadError::WrongHeaderChecksum { calculated, read: stored })
    } else {
        Ok(Header::spec_parse(s, at))
    }
}

/// Computes the exclusive-or of the `count` words that start at `data[from]`.
fn xor_of_words(data: &[u8], from: usize, count: usize) -> (r: u32)
    requires
        from + 4 * count <= data.len(),
    ensures
        r == xor_words(data@, from as int, count as nat),
{
    let mut acc: u32 = 0;
    let mut i: usize = 0;
    while i < count
        invariant
            i <= count,
            from + 4 * count <= data.len(),
            acc == xor_words(data@, from as int, i as nat),
        decreases count - i,
    {
        let word = u32_at(data, from + 4 * i);
        acc = acc ^ word;
        i += 1;
    }
    acc
}

/// Decodes the header page that starts at `data[at]`.
///
/// The primary header stands at offset 0 and the shadow header one page
/// after it.
pub fn read_header(data: &[u8], at: usize) -> (r: Result<Header, ReadError>)
    ensures
        r == spec_read_header(data@, at as int),
        r matches Ok(h) ==> h.wf(),
{
    if at > data.len() || data.len() - at < HEADER_SIZE {
        return Err(ReadError::Io(IoErrorKind::UnexpectedEof));
    }
    let signature = u32_at(data, at + 4);
    if signature != HEADER_SIGNATURE {
        return Err(
            ReadError::WrongHeaderSignature { expected: HEADER_SIGNATURE, read: signature },
        );
    }
    let page_size_u32 = u32_at(data, at + 236);
    let page_size: usize = page_size_u32 as usize;
    if page_size < HEADER_SIZE {
        return Err(ReadError::HeaderLongerThanPage { header_length: HEADER_SIZE, page_size });
    }
    if page_size % 4 != 0 {
        return Err(ReadError::PageSizeNotDivisibleBy4 { page_size });
    }
    if data.len() - at < page_size {
        return Err(ReadError::Io(IoErrorKind::UnexpectedEof));
    }
    let file_checksum = u32_at(data, at);
    let calculated_checksum = xor_of_words(data, at + 8, (page_size - 8) / 4);
    if file_checksum != calculated_checksum {
        return Err(
            ReadError::WrongHeaderChecksum { calculated: calculated_checksum, read: file_checksum },
        );
    }
    Ok(Header::parse(data, at))
}

/// Serializing a valid header and decoding the page again gives the header
/// back, and the checksum of that page is the field at its offset 0.
///
/// A header is valid when its enumerations are well formed, it carries the
/// magic number, its page size is a multiple of four that holds the header,
/// and its checksum field is the checksum of its page. `page` is any page of
/// that size that starts with the header's bytes.
pub proof fn lemma_header_round_trip(h: Header, page: Seq<u8>)
    requires
        h.wf(),
        h.signature == HEADER_SIGNATURE,
        h.page_size >= 668,
        h.page_size % 4 == 0,
        page.len() == h.page_size,
        page.subrange(0, 668) == h.spec_bytes(),
        h.checksum == header_checksum(page, 0, h.page_size as int),
    ensures
        spec_read_header(page, 0) == Ok::<Header, ReadError>(h),
        le_u32_at(page, 0) == header_checksum(page, 0, page.len() as int),
{
    h.lemma_round_trip(page, 0);
}


/// The 32-bit word `k` of those that start at `s[from]`.
pub open spec fn word_at(s: Seq<u8>, from: int, k: int) -> u32 {
    le_u32_at(s, from + 4 * k)
}

/// The exclusive-or of the same words of two buffers that agree in all of
/// them is the same.
proof fn lemma_xor_words_agree(p: Seq<u8>, q: Seq<u8>, from: int, count: nat)
    requires
        forall|k: int| 0 <= k < count ==> #[trigger] word_at(p, from, k) == word_at(q, from, k),
    ensures
        xor_words(p, from, count) == xor_words(q, from, count),
    decreases count,
{
    if count > 0 {
        lemma_xor_words_agree(p, q, from, (count - 1) as nat);
        assert(word_at(p, from, count - 1) == word_at(q, from, count - 1));
    }
}

/// The exclusive-or of the same words of two buffers that differ in one of
/// them, and in no other, is not the same.
proof fn lemma_xor_words_differ(p: Seq<u8>, q: Seq<u8>, from: int, count: nat, w: int)
    requires
        0 <= w < count,
        word_at(p, from, w) != word_at(q, from, w),
        forall|k: int|
            0 <= k < count && k != w ==> #[trigger] word_at(p, from, k) == word_at(q, from, k),
    ensures
        xor_words(p, from, count) != xor_words(q, from, count),
    decreases count,
{
    let a = xor_words(p, from, (count - 1) as nat);
    let b = xor_words(q, from, (count - 1) as nat);
    let x = word_at(p, from, count - 1);
    let y = word_at(q, from, count - 1);
    if w == count - 1 {
        lemma_xor_words_agree(p, q, from, (count - 1) as nat);
        assert(a == b && x != y ==> a ^ x != b ^ y) by (bit_vector);
    } else {
        lemma_xor_words_differ(p, q, from, (count - 1) as nat, w);
        assert(a != b && x == y ==> a ^ x != b ^ y) by (bit_vector);
    }
}

/// A word of which one byte is another is another word.
proof fn lemma_word_differs(p: Seq<u8>, q: Seq<u8>, pos: int, r: int)
    requires
        0 <= r < 4,
        q[pos + r] != p[pos + r],
        forall|j: int| pos <= j < pos + 4 && j != pos + r ==> q[j] == p[j],
    ensures
        le_u32_at(p, pos) != le_u32_at(q, pos),
{
    assert(q[pos] == p[pos] || r == 0);
    assert(q[pos + 1] == p[pos + 1] || r == 1);
    assert(q[pos + 2] == p[pos + 2] || r == 2);
    assert(q[pos + 3] == p[pos + 3] || r == 3);
}

/// One changed byte changes the checksum of a header page.
proof fn lemma_checksum_differs(p: Seq<u8>, q: Seq<u8>, at: int, page_size: int, i: int)
    requires
        page_size % 4 == 0,
        8 <= i < page_size,
        q[at + i] != p[at + i],
        forall|j: int| at + 8 <= j < at + page_size && j != at + i ==> q[j] == p[j],
    ensures
        header_checksum(p, at, page_size) != header_checksum(q, at, page_size),
{
    let count = ((page_size - 8) / 4) as nat;
    let w = (i - 8) / 4;
    lemma_word_differs(p, q, at + 8 + 4 * w, (i - 8) % 4);
    assert forall|k: int| 0 <= k < count && k != w implies #[trigger] word_at(p, at + 8, k)
        == word_at(q, at + 8, k) by {
        let pos = at + 8 + 4 * k;
        assert(q[pos] == p[pos]);
        assert(q[pos + 1] == p[pos + 1]);
        assert(q[pos + 2] == p[pos + 2]);
        assert(q[pos + 3] == p[pos + 3]);
    }
    lemma_xor_words_differ(p, q, at + 8, count, w);
}

/// One changed byte is caught by the checksum, and so is one flipped bit.
///
/// Where the header page at `p[at]` decodes, and `q` is `p` with another
/// byte at the offset `i` of that page, from offset 8 on and outside of the
/// four bytes of the page size, decoding the header page at `q[at]` fails
/// with `WrongHeaderChecksum`, which holds the checksum of the changed page
/// and the checksum field as it was.
pub proof fn lemma_changed_byte_fails_checksum(p: Seq<u8>, q: Seq<u8>, at: int, i: int)
    requires
        0 <= at,
        spec_read_header(p, at) is Ok,
        q.len() == p.len(),
        8 <= i < le_u32_at(p, at + 236),
        !(236 <= i < 240),
        q[at + i] != p[at + i],
        forall|j: int| 0 <= j < p.len() && j != at + i ==> q[j] == p[j],
    ensures
        spec_read_header(q, at) == Err::<Header, ReadError>(
            ReadError::WrongHeaderChecksum {
                calculated: header_checksum(q, at, le_u32_at(p, at + 236) as int),
                read: le_u32_at(p, at),
            },
        ),
        header_checksum(q, at, le_u32_at(p, at + 236) as int) != le_u32_at(p, at),
{
    let page_size = le_u32_at(p, at + 236) as int;
    assert(le_u32_at(q, at) == le_u32_at(p, at));
    assert(le_u32_at(q, at + 4) == le_u32_at(p, at + 4));
    assert(le_u32_at(q, at + 236) == le_u32_at(p, at + 236));
    lemma_checksum_differs(p, q, at, page_size, i);
}

/// Two well-formed headers are equal exactly when the same bytes store
/// them.
pub proof fn lemma_header_bytes_injective(a: Header, b: Header)
    requires
        a.wf(),
        b.wf(),
    ensures
        (a.spec_bytes() == b.spec_bytes()) <==> a == b,
{
    if a.spec_bytes() == b.spec_bytes() {
        let s = a.spec_bytes();
        a.lemma_lengths();
        assert(s.subrange(0, 668) =~= s);
        a.lemma_round_trip(s, 0);
        b.lemma_round_trip(s, 0);
    }
}

impl Header {
    /// Whether two headers are equal.
    pub fn same_as(&self, other: &Header) -> (r: bool)
        requires
            self.wf(),
            other.wf(),
        ensures
            r == (*self == *other),
    {
        let mut mine = LittleEndianWrite::new();
        self.write_into(&mut mine);
        let mut theirs = LittleEndianWrite::new();
        other.write_into(&mut theirs);
        let mine = mine.into_bytes();
        let theirs = theirs.into_bytes();
        proof {
            lemma_header_bytes_injective(*self, *other);
            assert(mine@ =~= self.spec_bytes());
            assert(theirs@ =~= other.spec_bytes());
        }
        same_bytes(mine.as_slice(), theirs.as_slice())
    }
}

/// What decoding the two headers of a file gives: the primary header, and
/// whether the shadow header, one page behind it, is equal to it.
pub open spec fn spec_read_headers(s: Seq<u8>) -> Result<(Header, bool), ReadError> {
    match spec_read_header(s, 0) {
        Err(e) => Err(e),
        Ok(primary) => match spec_read_header(s, primary.page_size as int) {
            Err(e) => Err(e),
            Ok(shadow) => Ok((primary, shadow == primary)),
        },
    }
}

/// Decodes the primary and the shadow header of the file `data`. A shadow
/// header that differs from the primary one is no failure: the primary
/// header is returned, and the difference is reported beside it.
pub fn read_headers(data: &[u8]) -> (r: Result<(Header, bool), ReadError>)
    ensures
        r == spec_read_headers(data@),
{
    let primary = read_header(data, 0)?;
    let shadow = read_header(data, primary.page_size_as_usize())?;
    let same = shadow.same_as(&primary);
    Ok((primary, same))
}

impl ReadFromBytes for FileType {
    open spec fn spec_size() -> nat {
        4
    }

    open spec fn spec_read(s: Seq<u8>) -> FileType {
        FileType::of_code(le_u32_at(s, 0))
    }

    fn read_from_bytes<R: ByteRead>(reader: &mut R) -> (r: Result<FileType, ReadError>) {
        let code = reader.read_u32()?;
        Ok(FileType::from_base_type(code))
    }
}

impl WriteToBytes for FileType {
    open spec fn spec_write_error(&self) -> Option<WriteError> {
        None
    }

    open spec fn spec_written(&self) -> Seq<u8> {
        u32_bytes(self.code())
    }

    fn write_to_bytes<W: ByteWrite>(&self, writer: &mut W) -> (r: Result<(), WriteError>) {
        writer.write_u32(self.to_base_type())
    }
}

impl ReadFromBytes for BackupType {
    open spec fn spec_size() -> nat {
        1
    }

    open spec fn spec_read(s: Seq<u8>) -> BackupType {
        BackupType::of_code(s[0])
    }

    fn read_from_bytes<R: ByteRead>(reader: &mut R) -> (r: Result<BackupType, ReadError>) {
        let code = reader.read_u8()?;
        Ok(BackupType::from_base_type(code))
    }
}

impl WriteToBytes for BackupType {
    open spec fn spec_write_error(&self) -> Option<WriteError> {
        None
    }

    open spec fn spec_written(&self) -> Seq<u8> {
        seq![self.code()]
    }

    fn write_to_bytes<W: ByteWrite>(&self, writer: &mut W) -> (r: Result<(), WriteError>) {
        writer.write_u8(self.to_base_type())
    }
}

impl ReadFromBytes for DbState {
    open spec fn spec_size() -> nat {
        4
    }

    open spec fn spec_read(s: Seq<u8>) -> DbState {
        DbState::of_code(le_u32_at(s, 0))
    }

    fn read_from_bytes<R: ByteRead>(reader: &mut R) -> (r: Result<DbState, ReadError>) {
        let code = reader.read_u32()?;
        Ok(DbState::from_base_type(code))
    }
}

impl WriteToBytes for DbState {
    open spec fn spec_write_error(&self) -> Option<WriteError> {
        None
    }

    open spec fn spec_written(&self) -> Seq<u8> {
        u32_bytes(self.code())
    }

    fn write_to_bytes<W: ByteWrite>(&self, writer: &mut W) -> (r: Result<(), WriteError>) {
        writer.write_u32(self.to_base_type())
    }
}

impl ReadFromBytes for LogTime {
    open spec fn spec_size() -> nat {
        8
    }

    open spec fn spec_read(s: Seq<u8>) -> LogTime {
        LogTime::spec_parse(s.take(8), 0)
    }

    fn read_from_bytes<R: ByteRead>(reader: &mut R) -> (r: Result<LogTime, ReadError>) {
        let bytes = reader.read_exact(8)?;
        Ok(LogTime::parse(bytes.as_slice(), 0))
    }
}

impl WriteToBytes for LogTime {
    open spec fn spec_write_error(&self) -> Option<WriteError> {
        None
    }

    open spec fn spec_written(&self) -> Seq<u8> {
        self.spec_bytes()
    }

    fn write_to_bytes<W: ByteWrite>(&self, writer: &mut W) -> (r: Result<(), WriteError>) {
        let mut buffer = LittleEndianWrite::new();
        self.write_into(&mut buffer);
        writer.write_bytes(buffer.into_bytes().as_slice())
    }
}

impl ReadFromBytes for DbSignature {
    open spec fn spec_size() -> nat {
        28
    }

    open spec fn spec_read(s: Seq<u8>) -> DbSignature {
        DbSignature::spec_parse(s.take(28), 0)
    }

    fn read_from_bytes<R: ByteRead>(reader: &mut R) -> (r: Result<DbSignature, ReadError>) {
        let bytes = reader.read_exact(28)?;
        Ok(DbSignature::parse(bytes.as_slice(), 0))
    }
}

impl WriteToBytes for DbSignature {
    open spec fn spec_write_error(&self) -> Option<WriteError> {
        None
    }

    open spec fn spec_written(&self) -> Seq<u8> {
        self.spec_bytes()
    }

    fn write_to_bytes<W: ByteWrite>(&self, writer: &mut W) -> (r: Result<(), WriteError>) {
        let mut buffer = LittleEndianWrite::new();
        self.write_into(&mut buffer);
        writer.write_bytes(buffer.into_bytes().as_slice())
    }
}

impl ReadFromBytes for LogPosition {
    open spec fn spec_size() -> nat {
        8
    }

    open spec fn spec_read(s: Seq<u8>) -> LogPosition {
        LogPosition::spec_parse(s.take(8), 0)
    }

    fn read_from_bytes<R: ByteRead>(reader: &mut R) -> (r: Result<LogPosition, ReadError>) {
        let bytes = reader.read_exact(8)?;
        Ok(LogPosition::parse(bytes.as_slice(), 0))
    }
}

impl WriteToBytes for LogPosition {
    open spec fn spec_write_error(&self) -> Option<WriteError> {
        None
    }

    open spec fn spec_written(&self) -> Seq<u8> {
        self.spec_bytes()
    }

    fn write_to_bytes<W: ByteWrite>(&self, writer: &mut W) -> (r: Result<(), WriteError>) {
        let mut buffer = LittleEndianWrite::new();
        self.write_into(&mut buffer);
        writer.write_bytes(buffer.into_bytes().as_slice())
    }
}

impl ReadFromBytes for BackupInfo {
    open spec fn spec_size() -> nat {
        24
    }

    open spec fn spec_read(s: Seq<u8>) -> BackupInfo {
        BackupInfo::spec_parse(s.take(24), 0)
    }

    fn read_from_bytes<R: ByteRead>(reader: &mut R) -> (r: Result<BackupInfo, ReadError>) {
        let bytes = reader.read_exact(24)?;
        Ok(BackupInfo::parse(bytes.as_slice(), 0))
    }
}

impl WriteToBytes for BackupInfo {
    open spec fn spec_write_error(&self) -> Option<WriteError> {
        None
    }

    open spec fn spec_written(&self) -> Seq<u8> {
        self.spec_bytes()
    }

    fn write_to_bytes<W: ByteWrite>(&self, writer: &mut W) -> (r: Result<(), WriteError>) {
        let mut buffer = LittleEndianWrite::new();
        self.write_into(&mut buffer);
        writer.write_bytes(buffer.into_bytes().as_slice())
    }
}

impl ReadFromBytes for NtVersion {
    open spec fn spec_size() -> nat {
        16
    }

    open spec fn spec_read(s: Seq<u8>) -> NtVersion {
        NtVersion::spec_parse(s.take(16), 0)
    }

    fn read_from_bytes<R: ByteRead>(reader: &mut R) -> (r: Result<NtVersion, ReadError>) {
        let bytes = reader.read_exact(16)?;
        Ok(NtVersion::parse(bytes.as_slice(), 0))
    }
}

impl WriteToBytes for NtVersion {
    open spec fn spec_write_error(&self) -> Option<WriteError> {
        None
    }

    open spec fn spec_written(&self) -> Seq<u8> {
        self.spec_bytes()
    }

    fn write_to_bytes<W: ByteWrite>(&self, writer: &mut W) -> (r: Result<(), WriteError>) {
        let mut buffer = LittleEndianWrite::new();
        self.write_into(&mut buffer);
        writer.write_bytes(buffer.into_bytes().as_slice())
    }
}

impl ReadFromBytes for ErrorStats {
    open spec fn spec_size() -> nat {
        16
    }

    open spec fn spec_read(s: Seq<u8>) -> ErrorStats {
        ErrorStats::spec_parse(s.take(16), 0)
    }

    fn read_from_bytes<R: ByteRead>(reader: &mut R) -> (r: Result<ErrorStats, ReadError>) {
        let bytes = reader.read_exact(16)?;
        Ok(ErrorStats::parse(bytes.as_slice(), 0))
    }
}

impl WriteToBytes for ErrorStats {
    open spec fn spec_write_error(&self) -> Option<WriteError> {
        None
    }

    open spec fn spec_written(&self) -> Seq<u8> {
        self.spec_bytes()
    }

    fn write_to_bytes<W: ByteWrite>(&self, writer: &mut W) -> (r: Result<(), WriteError>) {
        let mut buffer = LittleEndianWrite::new();
        self.write_into(&mut buffer);
        writer.write_bytes(buffer.into_bytes().as_slice())
    }
}

impl ReadFromBytes for Header {
    open spec fn spec_size() -> nat {
        668
    }

    open spec fn spec_read(s: Seq<u8>) -> Header {
        Header::spec_parse(s.take(668), 0)
    }

    fn read_from_bytes<R: ByteRead>(reader: &mut R) -> (r: Result<Header, ReadError>) {
        let bytes = reader.read_exact(668)?;
        Ok(Header::parse(bytes.as_slice(), 0))
    }
}

impl WriteToBytes for Header {
    open spec fn spec_write_error(&self) -> Option<WriteError> {
        None
    }

    open spec fn spec_written(&self) -> Seq<u8> {
        self.spec_bytes()
    }

    fn write_to_bytes<W: ByteWrite>(&self, writer: &mut W) -> (r: Result<(), WriteError>) {
        let mut buffer = LittleEndianWrite::new();
        self.write_into(&mut buffer);
        writer.write_bytes(buffer.into_bytes().as_slice())
    }
}

} // verus!
