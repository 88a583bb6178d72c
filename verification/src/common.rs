use vstd::prelude::*;

use crate::byte_io::{
    le_u16_at, lemma_part, lemma_u16_round_trip, u16_at, u16_bytes, ByteRead, ByteWrite,
    LittleEndianWrite, ReadFromBytes, WriteToBytes,
};
use crate::error::{ReadError, WriteError};

verus! {

/// A coarse database clock value: eight bytes on disk.
#[derive(Clone, Copy, Debug, PartialEq, Eq, Structural, PartialOrd, Ord, Hash)]
pub struct DbTime {
    pub hour: u16,
    pub minute: u16,
    pub second: u16,
    pub padding: u16,
}

impl DbTime {
    /// The value stored at `s[at..at + 8]`.
    pub open spec fn spec_parse(s: Seq<u8>, at: int) -> DbTime {
        DbTime {
            hour: le_u16_at(s, at),
            minute: le_u16_at(s, at + 2),
            second: le_u16_at(s, at + 4),
            padding: le_u16_at(s, at + 6),
        }
    }

    /// The eight bytes that store `self`.
    #[verifier::opaque]
    pub open spec fn spec_bytes(self) -> Seq<u8> {
        u16_bytes(self.hour) + u16_bytes(self.minute) + u16_bytes(self.second) + u16_bytes(
            self.padding,
        )
    }

    /// `self` takes 8 bytes.
    pub proof fn lemma_len(self)
        ensures
            self.spec_bytes().len() == 8,
    {
        reveal(DbTime::spec_bytes);
    }

    /// Where the eight bytes of `self` stand, `self` is what is decoded.
    pub proof fn lemma_round_trip(self, s: Seq<u8>, at: int)
        requires
            0 <= at,
            at + 8 <= s.len(),
            s.subrange(at, at + 8) == self.spec_bytes(),
        ensures
            Self::spec_parse(s, at) == self,
    {
        reveal(DbTime::spec_bytes);
        let whole = self.spec_bytes();
        assert(whole.subrange(0, 2) =~= u16_bytes(self.hour));
        lemma_part(s, at, whole, 0, u16_bytes(self.hour));
        assert(whole.subrange(2, 4) =~= u16_bytes(self.minute));
        lemma_part(s, at, whole, 2, u16_bytes(self.minute));
        assert(whole.subrange(4, 6) =~= u16_bytes(self.second));
        lemma_part(s, at, whole, 4, u16_bytes(self.second));
        assert(whole.subrange(6, 8) =~= u16_bytes(self.padding));
        lemma_part(s, at, whole, 6, u16_bytes(self.padding));
        lemma_u16_round_trip(s, at, self.hour);
        lemma_u16_round_trip(s, at + 2, self.minute);
        lemma_u16_round_trip(s, at + 4, self.second);
        lemma_u16_round_trip(s, at + 6, self.padding);
    }

    /// Decodes the value stored at `data[at..at + 8]`.
    pub fn parse(data: &[u8], at: usize) -> (r: DbTime)
        requires
            at + 8 <= data.len(),
        ensures
            r == Self::spec_parse(data@, at as int),
    {
        DbTime {
            hour: u16_at(data, at),
            minute: u16_at(data, at + 2),
            second: u16_at(data, at + 4),
            padding: u16_at(data, at + 6),
        }
    }

    /// Appends the eight bytes of `self` to `writer`.
    pub fn write_into(&self, writer: &mut LittleEndianWrite)
        ensures
            final(writer)@ == old(writer)@ + self.spec_bytes(),
    {
        reveal(DbTime::spec_bytes);
        writer.write_u16(self.hour);
        writer.write_u16(self.minute);
        writer.write_u16(self.second);
        writer.write_u16(self.padding);
        assert(writer@ =~= old(writer)@ + self.spec_bytes());
    }
}

impl ReadFromBytes for DbTime {
    open spec fn spec_size() -> nat {
        8
    }

    open spec fn spec_read(s: Seq<u8>) -> DbTime {
        DbTime::spec_parse(s.take(8), 0)
    }

    fn read_from_bytes<R: ByteRead>(reader: &mut R) -> (r: Result<DbTime, ReadError>) {
        let bytes = reader.read_exact(8)?;
        Ok(DbTime::parse(bytes.as_slice(), 0))
    }
}

impl WriteToBytes for DbTime {
    open spec fn spec_write_error(&self) -> Option<WriteError> {
        None
    }

    open spec fn spec_written(&self) -> Seq<u8> {
        self.spec_bytes()
    }

    fn write_to_bytes<W: ByteWrite>(&self, writer: &mut W) -> (r: Result<(), WriteError>) {
        let mut buffer = LittleEndianWrite::new();
        self.write_into(&mut buffer);
        writer.write_bytes(buffer.into_bytes().as_slice())
    }
}

} // verus!
