//! Little-endian integers over byte sequences: their mathematical meaning, a
//! bounds-checked reading cursor and an appending writer.

use vstd::prelude::*;

use crate::error::{IoErrorKind, ReadError, WriteError};

verus! {

/// The unsigned 16-bit integer stored little-endian at `s[i..i + 2]`.
pub open spec fn le_u16_at(s: Seq<u8>, i: int) -> u16 {
    (s[i] as int + s[i + 1] as int * 0x100) as u16
}

/// The unsigned 32-bit integer stored little-endian at `s[i..i + 4]`.
pub open spec fn le_u32_at(s: Seq<u8>, i: int) -> u32 {
    (s[i] as int + s[i + 1] as int * 0x100 + s[i + 2] as int * 0x1_0000 + s[i + 3] as int
        * 0x100_0000) as u32
}

/// The unsigned 64-bit integer stored little-endian at `s[i..i + 8]`.
pub open spec fn le_u64_at(s: Seq<u8>, i: int) -> u64 {
    (le_u32_at(s, i) as int + le_u32_at(s, i + 4) as int * 0x1_0000_0000) as u64
}

/// The unsigned 128-bit integer stored little-endian at `s[i..i + 16]`.
pub open spec fn le_u128_at(s: Seq<u8>, i: int) -> u128 {
    (le_u64_at(s, i) as int + le_u64_at(s, i + 8) as int * 0x1_0000_0000_0000_0000) as u128
}

/// Two's-complement reading of eight bits.
pub open spec fn signed8(u: u8) -> i8 {
    if u < 0x80 {
        u as i8
    } else {
        (u - 0x100) as i8
    }
}

/// Two's-complement reading of sixteen bits.
pub open spec fn signed16(u: u16) -> i16 {
    if u < 0x8000 {
        u as i16
    } else {
        (u - 0x1_0000) as i16
    }
}

/// Two's-complement reading of thirty-two bits.
pub open spec fn signed32(u: u32) -> i32 {
    if u < 0x8000_0000 {
        u as i32
    } else {
        (u - 0x1_0000_0000) as i32
    }
}

/// Two's-complement reading of sixty-four bits.
pub open spec fn signed64(u: u64) -> i64 {
    if u < 0x8000_0000_0000_0000 {
        u as i64
    } else {
        (u - 0x1_0000_0000_0000_0000) as i64
    }
}

/// Two's-complement reading of one hundred and twenty-eight bits.
pub open spec fn signed128(u: u128) -> i128 {
    if u < 0x8000_0000_0000_0000_0000_0000_0000_0000 {
        u as i128
    } else {
        (u - 0x1_0000_0000_0000_0000_0000_0000_0000_0000) as i128
    }
}

/// The bit pattern that stores `v` in two's complement.
pub open spec fn unsigned16(v: i16) -> u16 {
    if v >= 0 {
        v as u16
    } else {
        (v + 0x1_0000) as u16
    }
}

/// The bit pattern that stores `v` in two's complement.
pub open spec fn unsigned32(v: i32) -> u32 {
    if v >= 0 {
        v as u32
    } else {
        (v + 0x1_0000_0000) as u32
    }
}

/// The bit pattern that stores `v` in two's complement.
pub open spec fn unsigned64(v: i64) -> u64 {
    if v >= 0 {
        v as u64
    } else {
        (v + 0x1_0000_0000_0000_0000) as u64
    }
}

/// The two bytes that store `v` little-endian.
pub open spec fn u16_bytes(v: u16) -> Seq<u8> {
    seq![(v % 0x100) as u8, (v / 0x100) as u8]
}

/// The four bytes that store `v` little-endian.
pub open spec fn u32_bytes(v: u32) -> Seq<u8> {
    seq![
        (v % 0x100) as u8,
        (v / 0x100 % 0x100) as u8,
        (v / 0x1_0000 % 0x100) as u8,
        (v / 0x100_0000) as u8,
    ]
}

/// The eight bytes that store `v` little-endian.
pub open spec fn u64_bytes(v: u64) -> Seq<u8> {
    u32_bytes((v % 0x1_0000_0000) as u32) + u32_bytes((v / 0x1_0000_0000) as u32)
}

/// A part of an embedded sequence stands in the surrounding sequence where
/// the offsets add up.
pub proof fn lemma_part(s: Seq<u8>, at: int, whole: Seq<u8>, from: int, part: Seq<u8>)
    requires
        0 <= at,
        at + whole.len() <= s.len(),
        s.subrange(at, at + whole.len()) == whole,
        0 <= from,
        from + part.len() <= whole.len(),
        whole.subrange(from, from + part.len()) == part,
    ensures
        s.subrange(at + from, at + from + part.len()) == part,
{
    let t = s.subrange(at + from, at + from + part.len());
    assert forall|k: int| 0 <= k < part.len() implies t[k] == part[k] by {
        assert(whole.subrange(from, from + part.len())[k] == whole[from + k]);
        assert(s.subrange(at, at + whole.len())[from + k] == s[at + from + k]);
    }
    assert(t =~= part);
}

/// The sixteen bytes that store `v` little-endian.
pub open spec fn u128_bytes(v: u128) -> Seq<u8> {
    u64_bytes((v % 0x1_0000_0000_0000_0000) as u64) + u64_bytes(
        (v / 0x1_0000_0000_0000_0000) as u64,
    )
}

/// The bit pattern that stores `v` in two's complement.
pub open spec fn unsigned8(v: i8) -> u8 {
    if v >= 0 {
        v as u8
    } else {
        (v + 0x100) as u8
    }
}

/// The bit pattern that stores `v` in two's complement.
pub open spec fn unsigned128(v: i128) -> u128 {
    if v >= 0 {
        v as u128
    } else {
        (v + 0x1_0000_0000_0000_0000_0000_0000_0000_0000) as u128
    }
}

/// Reading back what `u16_bytes` wrote gives the value, wherever the two
/// bytes stand in a sequence.
pub proof fn lemma_u16_round_trip(s: Seq<u8>, at: int, v: u16)
    requires
        0 <= at,
        at + 2 <= s.len(),
        s.subrange(at, at + 2) == u16_bytes(v),
    ensures
        le_u16_at(s, at) == v,
{
    let t = s.subrange(at, at + 2);
    assert(t[0] == s[at] && t[1] == s[at + 1]);
}

/// Reading back what `u32_bytes` wrote gives the value, wherever the four
/// bytes stand in a sequence.
pub proof fn lemma_u32_round_trip(s: Seq<u8>, at: int, v: u32)
    requires
        0 <= at,
        at + 4 <= s.len(),
        s.subrange(at, at + 4) == u32_bytes(v),
    ensures
        le_u32_at(s, at) == v,
{
    let t = s.subrange(at, at + 4);
    assert(t[0] == s[at] && t[1] == s[at + 1] && t[2] == s[at + 2] && t[3] == s[at + 3]);
}

/// Reading back what `u64_bytes` wrote gives the value, wherever the eight
/// bytes stand in a sequence.
pub proof fn lemma_u64_round_trip(s: Seq<u8>, at: int, v: u64)
    requires
        0 <= at,
        at + 8 <= s.len(),
        s.subrange(at, at + 8) == u64_bytes(v),
    ensures
        le_u64_at(s, at) == v,
{
    let t = s.subrange(at, at + 8);
    let lo = (v % 0x1_0000_0000) as u32;
    let hi = (v / 0x1_0000_0000) as u32;
    assert(s.subrange(at, at + 4) =~= u32_bytes(lo)) by {
        assert forall|k: int| 0 <= k < 4 implies s.subrange(at, at + 4)[k] == u32_bytes(lo)[k] by {
            assert(t[k] == s[at + k]);
        }
    }
    assert(s.subrange(at + 4, at + 8) =~= u32_bytes(hi)) by {
        assert forall|k: int| 0 <= k < 4 implies s.subrange(at + 4, at + 8)[k] == u32_bytes(
            hi,
        )[k] by {
            assert(t[k + 4] == s[at + 4 + k]);
        }
    }
    lemma_u32_round_trip(s, at, lo);
    lemma_u32_round_trip(s, at + 4, hi);
}

/// The signed and the unsigned reading of a bit pattern determine each other.
pub proof fn lemma_signed_round_trip(a: i16, b: i32, c: i64, d: i8, e: i128)
    ensures
        signed16(unsigned16(a)) == a,
        signed32(unsigned32(b)) == b,
        signed64(unsigned64(c)) == c,
        signed8(unsigned8(d)) == d,
        signed128(unsigned128(e)) == e,
{
}

/// Reads the 16-bit integer at `data[at..at + 2]`.
pub fn u16_at(data: &[u8], at: usize) -> (r: u16)
    requires
        at + 2 <= data.len(),
    ensures
        r == le_u16_at(data@, at as int),
{
    let b0: u16 = data[at] as u16;
    let b1: u16 = data[at + 1] as u16;
    b0 + b1 * 0x100
}

/// Reads the 32-bit integer at `data[at..at + 4]`.
pub fn u32_at(data: &[u8], at: usize) -> (r: u32)
    requires
        at + 4 <= data.len(),
    ensures
        r == le_u32_at(data@, at as int),
{
    let b0: u32 = data[at] as u32;
    let b1: u32 = data[at + 1] as u32;
    let b2: u32 = data[at + 2] as u32;
    let b3: u32 = data[at + 3] as u32;
    b0 + b1 * 0x100 + b2 * 0x1_0000 + b3 * 0x100_0000
}

/// Reads the 64-bit integer at `data[at..at + 8]`.
pub fn u64_at(data: &[u8], at: usize) -> (r: u64)
    requires
        at + 8 <= data.len(),
    ensures
        r == le_u64_at(data@, at as int),
{
    let lo: u64 = u32_at(data, at) as u64;
    let hi: u64 = u32_at(data, at + 4) as u64;
    lo + hi * 0x1_0000_0000
}

/// Reinterprets eight bits as a signed integer.
pub fn i8_from_bits(u: u8) -> (r: i8)
    ensures
        r == signed8(u),
{
    if u < 0x80 {
        u as i8
    } else {
        ((u - 0x80) as i8) + i8::MIN
    }
}

/// Reinterprets sixteen bits as a signed integer.
pub fn i16_from_bits(u: u16) -> (r: i16)
    ensures
        r == signed16(u),
{
    if u < 0x8000 {
        u as i16
    } else {
        ((u - 0x8000) as i16) + i16::MIN
    }
}

/// Reinterprets thirty-two bits as a signed integer.
pub fn i32_from_bits(u: u32) -> (r: i32)
    ensures
        r == signed32(u),
{
    if u < 0x8000_0000 {
        u as i32
    } else {
        ((u - 0x8000_0000) as i32) + i32::MIN
    }
}

/// Reinterprets sixty-four bits as a signed integer.
pub fn i64_from_bits(u: u64) -> (r: i64)
    ensures
        r == signed64(u),
{
    if u < 0x8000_0000_0000_0000 {
        u as i64
    } else {
        ((u - 0x8000_0000_0000_0000) as i64) + i64::MIN
    }
}

/// Reinterprets one hundred and twenty-eight bits as a signed integer.
pub fn i128_from_bits(u: u128) -> (r: i128)
    ensures
        r == signed128(u),
{
    if u < 0x8000_0000_0000_0000_0000_0000_0000_0000 {
        u as i128
    } else {
        ((u - 0x8000_0000_0000_0000_0000_0000_0000_0000) as i128) + i128::MIN
    }
}

/// The bits that store a signed eight-bit integer.
pub fn i8_to_bits(v: i8) -> (r: u8)
    ensures
        r == unsigned8(v),
{
    if v >= 0 {
        v as u8
    } else {
        ((v - i8::MIN) as u8) + 0x80
    }
}

/// The bits that store a signed integer of one hundred and twenty-eight
/// bits.
pub fn i128_to_bits(v: i128) -> (r: u128)
    ensures
        r == unsigned128(v),
{
    if v >= 0 {
        v as u128
    } else {
        ((v - i128::MIN) as u128) + 0x8000_0000_0000_0000_0000_0000_0000_0000
    }
}

/// The bits that store a signed sixteen-bit integer.
pub fn i16_to_bits(v: i16) -> (r: u16)
    ensures
        r == unsigned16(v),
{
    if v >= 0 {
        v as u16
    } else {
        ((v - i16::MIN) as u16) + 0x8000
    }
}

/// The bits that store a signed thirty-two-bit integer.
pub fn i32_to_bits(v: i32) -> (r: u32)
    ensures
        r == unsigned32(v),
{
    if v >= 0 {
        v as u32
    } else {
        ((v - i32::MIN) as u32) + 0x8000_0000
    }
}

/// The bits that store a signed sixty-four-bit integer.
pub fn i64_to_bits(v: i64) -> (r: u64)
    ensures
        r == unsigned64(v),
{
    if v >= 0 {
        v as u64
    } else {
        ((v - i64::MIN) as u64) + 0x8000_0000_0000_0000
    }
}

/// Whether the `len` bytes at offset `at` lie inside `data`.
pub fn in_bounds(data: &[u8], at: u64, len: u64) -> (r: bool)
    ensures
        r == (at + len <= data@.len()),
        r ==> at + len <= usize::MAX,
{
    let n: u64 = data.len() as u64;
    at <= n && len <= n - at
}

/// Copies `data[from..to]` into a new vector.
pub fn copy_range(data: &[u8], from: usize, to: usize) -> (r: Vec<u8>)
    requires
        from <= to <= data.len(),
    ensures
        r@ == data@.subrange(from as int, to as int),
{
    let mut out: Vec<u8> = Vec::new();
    let mut i: usize = from;
    while i < to
        invariant
            from <= i <= to <= data.len(),
            out@ == data@.subrange(from as int, i as int),
        decreases to - i,
    {
        out.push(data[i]);
        i += 1;
    }
    out
}

/// Copies `data` into a new vector.
pub fn copy_all(data: &[u8]) -> (r: Vec<u8>)
    ensures
        r@ == data@,
{
    let out = copy_range(data, 0, data.len());
    assert(data@.subrange(0, data@.len() as int) =~= data@);
    out
}

/// Whether two slices hold the same bytes.
pub fn same_bytes(a: &[u8], b: &[u8]) -> (r: bool)
    ensures
        r == (a@ == b@),
{
    if a.len() != b.len() {
        return false;
    }
    let mut i: usize = 0;
    while i < a.len()
        invariant
            i <= a@.len() == b@.len(),
            forall|k: int| 0 <= k < i ==> a@[k] == b@[k],
        decreases a@.len() - i,
    {
        if a[i] != b[i] {
            return false;
        }
        i += 1;
    }
    assert(a@ =~= b@);
    true
}

/// A reading position in a byte slice. Every read is bounds-checked: one that
/// would pass the end of the slice fails and leaves the position where it was.
pub struct LittleEndianRead<'a> {
    data: &'a [u8],
    pos: usize,
}

impl<'a> LittleEndianRead<'a> {
    /// The bytes that are read from.
    pub closed spec fn bytes(&self) -> Seq<u8> {
        self.data@
    }

    /// The index of the next byte to read.
    pub closed spec fn position(&self) -> int {
        self.pos as int
    }

    /// Whether `n` more bytes can be read.
    pub open spec fn can_read(&self, n: int) -> bool {
        self.position() + n <= self.bytes().len()
    }

    /// `self` reads the same bytes as `before` and stands `n` bytes further.
    pub open spec fn advanced(&self, before: &Self, n: int) -> bool {
        self.bytes() == before.bytes() && self.position() == before.position() + n
    }

    /// The outcome of a read of `n` bytes that gives `value` when the bytes
    /// are there.
    pub open spec fn read_outcome<T>(
        &self,
        before: &Self,
        n: int,
        value: T,
        r: Result<T, ReadError>,
    ) -> bool {
        if before.can_read(n) {
            r == Ok::<T, ReadError>(value) && self.advanced(before, n)
        } else {
            r == Err::<T, ReadError>(ReadError::Io(IoErrorKind::UnexpectedEof)) && self.advanced(
                before,
                0,
            )
        }
    }

    /// A cursor at the start of `data`.
    pub fn new(data: &'a [u8]) -> (r: Self)
        ensures
            r.bytes() == data@,
            r.position() == 0,
    {
        LittleEndianRead { data, pos: 0 }
    }

    /// Moves the cursor to `position`, which may lie past the end.
    pub fn seek(&mut self, position: usize)
        ensures
            final(self).bytes() == old(self).bytes(),
            final(self).position() == position,
    {
        self.pos = position;
    }

    /// The index of the next byte to read.
    pub fn stream_position(&self) -> (r: usize)
        ensures
            r == self.position(),
    {
        self.pos
    }

    /// The number of bytes between the cursor and the end.
    pub fn remaining(&self) -> (r: usize)
        ensures
            r == if self.position() <= self.bytes().len() {
                self.bytes().len() - self.position()
            } else {
                0
            },
    {
        if self.pos <= self.data.len() {
            self.data.len() - self.pos
        } else {
            0
        }
    }

    fn has(&self, n: usize) -> (r: bool)
        ensures
            r == self.can_read(n as int),
            r ==> self.position() + n <= usize::MAX,
    {
        self.pos <= self.data.len() && n <= self.data.len() - self.pos
    }

    pub fn read_u8(&mut self) -> (r: Result<u8, ReadError>)
        ensures
            final(self).read_outcome(
                old(self),
                1,
                old(self).bytes()[old(self).position()],
                r,
            ),
    {
        if !self.has(1) {
            return Err(ReadError::Io(IoErrorKind::UnexpectedEof));
        }
        let v = self.data[self.pos];
        self.pos += 1;
        Ok(v)
    }

    pub fn read_u16(&mut self) -> (r: Result<u16, ReadError>)
        ensures
            final(self).read_outcome(
                old(self),
                2,
                le_u16_at(old(self).bytes(), old(self).position()),
                r,
            ),
    {
        if !self.has(2) {
            return Err(ReadError::Io(IoErrorKind::UnexpectedEof));
        }
        let v = u16_at(self.data, self.pos);
        self.pos += 2;
        Ok(v)
    }

    pub fn read_u32(&mut self) -> (r: Result<u32, ReadError>)
        ensures
            final(self).read_outcome(
                old(self),
                4,
                le_u32_at(old(self).bytes(), old(self).position()),
                r,
            ),
    {
        if !self.has(4) {
            return Err(ReadError::Io(IoErrorKind::UnexpectedEof));
        }
        let v = u32_at(self.data, self.pos);
        self.pos += 4;
        Ok(v)
    }

    pub fn read_u64(&mut self) -> (r: Result<u64, ReadError>)
        ensures
            final(self).read_outcome(
                old(self),
                8,
                le_u64_at(old(self).bytes(), old(self).position()),
                r,
            ),
    {
        if !self.has(8) {
            return Err(ReadError::Io(IoErrorKind::UnexpectedEof));
        }
        let v = u64_at(self.data, self.pos);
        self.pos += 8;
        Ok(v)
    }

    pub fn read_u128(&mut self) -> (r: Result<u128, ReadError>)
        ensures
            final(self).read_outcome(
                old(self),
                16,
                le_u128_at(old(self).bytes(), old(self).position()),
                r,
            ),
    {
        if !self.has(16) {
            return Err(ReadError::Io(IoErrorKind::UnexpectedEof));
        }
        let lo: u128 = u64_at(self.data, self.pos) as u128;
        let hi: u128 = u64_at(self.data, self.pos + 8) as u128;
        self.pos += 16;
        Ok(lo + hi * 0x1_0000_0000_0000_0000)
    }

    pub fn read_i8(&mut self) -> (r: Result<i8, ReadError>)
        ensures
            final(self).read_outcome(
                old(self),
                1,
                signed8(old(self).bytes()[old(self).position()]),
                r,
            ),
    {
        if !self.has(1) {
            return Err(ReadError::Io(IoErrorKind::UnexpectedEof));
        }
        let u = self.data[self.pos];
        self.pos += 1;
        if u < 0x80 {
            Ok(u as i8)
        } else {
            Ok(((u - 0x80) as i8) + i8::MIN)
        }
    }

    pub fn read_i16(&mut self) -> (r: Result<i16, ReadError>)
        ensures
            final(self).read_outcome(
                old(self),
                2,
                signed16(le_u16_at(old(self).bytes(), old(self).position())),
                r,
            ),
    {
        if !self.has(2) {
            return Err(ReadError::Io(IoErrorKind::UnexpectedEof));
        }
        let v = i16_from_bits(u16_at(self.data, self.pos));
        self.pos += 2;
        Ok(v)
    }

    pub fn read_i32(&mut self) -> (r: Result<i32, ReadError>)
        ensures
            final(self).read_outcome(
                old(self),
                4,
                signed32(le_u32_at(old(self).bytes(), old(self).position())),
                r,
            ),
    {
        if !self.has(4) {
            return Err(ReadError::Io(IoErrorKind::UnexpectedEof));
        }
        let v = i32_from_bits(u32_at(self.data, self.pos));
        self.pos += 4;
        Ok(v)
    }

    pub fn read_i64(&mut self) -> (r: Result<i64, ReadError>)
        ensures
            final(self).read_outcome(
                old(self),
                8,
                signed64(le_u64_at(old(self).bytes(), old(self).position())),
                r,
            ),
    {
        if !self.has(8) {
            return Err(ReadError::Io(IoErrorKind::UnexpectedEof));
        }
        let v = i64_from_bits(u64_at(self.data, self.pos));
        self.pos += 8;
        Ok(v)
    }

    pub fn read_i128(&mut self) -> (r: Result<i128, ReadError>)
        ensures
            final(self).read_outcome(
                old(self),
                16,
                signed128(le_u128_at(old(self).bytes(), old(self).position())),
                r,
            ),
    {
        if !self.has(16) {
            return Err(ReadError::Io(IoErrorKind::UnexpectedEof));
        }
        let lo: u128 = u64_at(self.data, self.pos) as u128;
        let hi: u128 = u64_at(self.data, self.pos + 8) as u128;
        self.pos += 16;
        let u: u128 = lo + hi * 0x1_0000_0000_0000_0000;
        if u < 0x8000_0000_0000_0000_0000_0000_0000_0000 {
            Ok(u as i128)
        } else {
            Ok(((u - 0x8000_0000_0000_0000_0000_0000_0000_0000) as i128) + i128::MIN)
        }
    }

    /// Reads the bit pattern of a 32-bit IEEE number.
    pub fn read_f32_bits(&mut self) -> (r: Result<u32, ReadError>)
        ensures
            final(self).read_outcome(
                old(self),
                4,
                le_u32_at(old(self).bytes(), old(self).position()),
                r,
            ),
    {
        self.read_u32()
    }

    /// Reads the bit pattern of a 64-bit IEEE number.
    pub fn read_f64_bits(&mut self) -> (r: Result<u64, ReadError>)
        ensures
            final(self).read_outcome(
                old(self),
                8,
                le_u64_at(old(self).bytes(), old(self).position()),
                r,
            ),
    {
        self.read_u64()
    }

    /// Reads the next `n` bytes.
    pub fn read_exact(&mut self, n: usize) -> (r: Result<Vec<u8>, ReadError>)
        ensures
            old(self).can_read(n as int) ==> r is Ok && r->Ok_0@ == old(self).bytes().subrange(
                old(self).position(),
                old(self).position() + n,
            ) && final(self).advanced(old(self), n as int),
            !old(self).can_read(n as int) ==> r == Err::<Vec<u8>, ReadError>(
                ReadError::Io(IoErrorKind::UnexpectedEof),
            ) && final(self).advanced(old(self), 0),
    {
        if !self.has(n) {
            return Err(ReadError::Io(IoErrorKind::UnexpectedEof));
        }
        let v = copy_range(self.data, self.pos, self.pos + n);
        self.pos += n;
        Ok(v)
    }

    /// Reads every byte that is left. At or past the end that is none.
    pub fn read_to_end(&mut self) -> (r: Vec<u8>)
        ensures
            final(self).bytes() == old(self).bytes(),
            old(self).can_read(0) ==> r@ == old(self).bytes().skip(old(self).position())
                && final(self).position() == old(self).bytes().len(),
            !old(self).can_read(0) ==> r@ == Seq::<u8>::empty() && final(self).position() == old(
                self,
            ).position(),
    {
        if !self.has(0) {
            return Vec::new();
        }
        let v = copy_range(self.data, self.pos, self.data.len());
        self.pos = self.data.len();
        v
    }
}

/// A growing byte buffer that integers are appended to in little-endian
/// order.
pub struct LittleEndianWrite {
    buf: Vec<u8>,
}

impl View for LittleEndianWrite {
    type V = Seq<u8>;

    closed spec fn view(&self) -> Seq<u8> {
        self.buf@
    }
}

impl LittleEndianWrite {
    /// An empty buffer.
    pub fn new() -> (r: Self)
        ensures
            r@ == Seq::<u8>::empty(),
    {
        LittleEndianWrite { buf: Vec::new() }
    }

    /// The bytes written so far.
    pub fn into_bytes(self) -> (r: Vec<u8>)
        ensures
            r@ == self@,
    {
        self.buf
    }

    pub fn write_u8(&mut self, value: u8)
        ensures
            final(self)@ == old(self)@.push(value),
    {
        self.buf.push(value);
    }

    pub fn write_u16(&mut self, value: u16)
        ensures
            final(self)@ == old(self)@ + u16_bytes(value),
    {
        self.buf.push((value % 0x100) as u8);
        self.buf.push((value / 0x100) as u8);
        assert(self.buf@ =~= old(self)@ + u16_bytes(value));
    }

    pub fn write_u32(&mut self, value: u32)
        ensures
            final(self)@ == old(self)@ + u32_bytes(value),
    {
        self.buf.push((value % 0x100) as u8);
        self.buf.push((value / 0x100 % 0x100) as u8);
        self.buf.push((value / 0x1_0000 % 0x100) as u8);
        self.buf.push((value / 0x100_0000) as u8);
        assert(self.buf@ =~= old(self)@ + u32_bytes(value));
    }

    pub fn write_u64(&mut self, value: u64)
        ensures
            final(self)@ == old(self)@ + u64_bytes(value),
    {
        let lo: u32 = (value % 0x1_0000_0000) as u32;
        let hi: u32 = (value / 0x1_0000_0000) as u32;
        self.write_u32(lo);
        self.write_u32(hi);
        assert(self@ =~= old(self)@ + u64_bytes(value));
    }

    pub fn write_u128(&mut self, value: u128)
        ensures
            final(self)@ == old(self)@ + u128_bytes(value),
    {
        let lo: u64 = (value % 0x1_0000_0000_0000_0000) as u64;
        let hi: u64 = (value / 0x1_0000_0000_0000_0000) as u64;
        self.write_u64(lo);
        self.write_u64(hi);
        assert(self@ =~= old(self)@ + u128_bytes(value));
    }

    pub fn write_i8(&mut self, value: i8)
        ensures
            final(self)@ == old(self)@.push(unsigned8(value)),
    {
        self.write_u8(i8_to_bits(value));
    }

    pub fn write_i16(&mut self, value: i16)
        ensures
            final(self)@ == old(self)@ + u16_bytes(unsigned16(value)),
    {
        self.write_u16(i16_to_bits(value));
    }

    pub fn write_i32(&mut self, value: i32)
        ensures
            final(self)@ == old(self)@ + u32_bytes(unsigned32(value)),
    {
        self.write_u32(i32_to_bits(value));
    }

    pub fn write_i64(&mut self, value: i64)
        ensures
            final(self)@ == old(self)@ + u64_bytes(unsigned64(value)),
    {
        self.write_u64(i64_to_bits(value));
    }

    pub fn write_i128(&mut self, value: i128)
        ensures
            final(self)@ == old(self)@ + u128_bytes(unsigned128(value)),
    {
        self.write_u128(i128_to_bits(value));
    }

    /// Appends `bytes` unchanged.
    pub fn append(&mut self, bytes: &[u8])
        ensures
            final(self)@ == old(self)@ + bytes@,
    {
        let mut i: usize = 0;
        while i < bytes.len()
            invariant
                i <= bytes.len(),
                self@ == old(self)@ + bytes@.subrange(0, i as int),
            decreases bytes.len() - i,
        {
            self.buf.push(bytes[i]);
            i += 1;
        }
        assert(bytes@.subrange(0, bytes.len() as int) =~= bytes@);
    }
}


/// The array whose elements are `s[at..at + N]`.
pub open spec fn array_at<const N: usize>(s: Seq<u8>, at: int) -> [u8; N] {
    choose|a: [u8; N]| a@ == s.subrange(at, at + N)
}

/// An array is the one that `array_at` finds where its elements stand.
pub proof fn lemma_array_at<const N: usize>(a: [u8; N], s: Seq<u8>, at: int)
    requires
        a@ == s.subrange(at, at + N),
    ensures
        array_at::<N>(s, at) == a,
{
    let c = array_at::<N>(s, at);
    assert(c@ == s.subrange(at, at + N));
    assert(c =~= a);
}

/// Reads the `N` bytes at `data[at..at + N]`.
pub fn read_array<const N: usize>(data: &[u8], at: usize) -> (r: [u8; N])
    requires
        at + N <= data.len(),
    ensures
        r == array_at::<N>(data@, at as int),
        r@ == data@.subrange(at as int, at + N),
{
    let mut a: [u8; N] = [0u8; N];
    let mut i: usize = 0;
    while i < N
        invariant
            i <= N,
            at + N <= data.len(),
            forall|k: int| 0 <= k < i ==> a@[k] == data@[at + k],
        decreases N - i,
    {
        a[i] = data[at + i];
        i += 1;
    }
    proof {
        assert(a@ =~= data@.subrange(at as int, at + N));
        lemma_array_at::<N>(a, data@, at as int);
    }
    a
}


/// The outcome of taking `n` bytes from the front of `before`, which gives
/// `value` where the bytes are there and fails, taking nothing, where they
/// are not.
pub open spec fn taken<T>(
    before: Seq<u8>,
    after: Seq<u8>,
    n: int,
    value: T,
    r: Result<T, ReadError>,
) -> bool {
    if n <= before.len() {
        r == Ok::<T, ReadError>(value) && after == before.skip(n)
    } else {
        r == Err::<T, ReadError>(ReadError::Io(IoErrorKind::UnexpectedEof)) && after == before
    }
}

/// A source of bytes that is read from front to back, in little-endian
/// order.
pub trait ByteRead {
    /// The bytes that are still to be read.
    spec fn unread(&self) -> Seq<u8>;

    /// Reads the next `n` bytes. Where fewer are left the read fails and
    /// nothing is taken.
    fn read_exact(&mut self, n: usize) -> (r: Result<Vec<u8>, ReadError>)
        ensures
            match r {
                Ok(bytes) => n <= old(self).unread().len() && bytes@ == old(self).unread().take(
                    n as int,
                ) && final(self).unread() == old(self).unread().skip(n as int),
                Err(e) => n > old(self).unread().len() && e == ReadError::Io(
                    IoErrorKind::UnexpectedEof,
                ) && final(self).unread() == old(self).unread(),
            },
    ;

    fn read_u8(&mut self) -> (r: Result<u8, ReadError>)
        ensures
            taken(old(self).unread(), final(self).unread(), 1, old(self).unread()[0], r),
    {
        let bytes = self.read_exact(1)?;
        Ok(bytes[0])
    }

    fn read_u16(&mut self) -> (r: Result<u16, ReadError>)
        ensures
            taken(
                old(self).unread(),
                final(self).unread(),
                2,
                le_u16_at(old(self).unread(), 0),
                r,
            ),
    {
        let bytes = self.read_exact(2)?;
        Ok(u16_at(bytes.as_slice(), 0))
    }

    fn read_u32(&mut self) -> (r: Result<u32, ReadError>)
        ensures
            taken(
                old(self).unread(),
                final(self).unread(),
                4,
                le_u32_at(old(self).unread(), 0),
                r,
            ),
    {
        let bytes = self.read_exact(4)?;
        Ok(u32_at(bytes.as_slice(), 0))
    }

    fn read_u64(&mut self) -> (r: Result<u64, ReadError>)
        ensures
            taken(
                old(self).unread(),
                final(self).unread(),
                8,
                le_u64_at(old(self).unread(), 0),
                r,
            ),
    {
        let bytes = self.read_exact(8)?;
        Ok(u64_at(bytes.as_slice(), 0))
    }

    fn read_u128(&mut self) -> (r: Result<u128, ReadError>)
        ensures
            taken(
                old(self).unread(),
                final(self).unread(),
                16,
                le_u128_at(old(self).unread(), 0),
                r,
            ),
    {
        let bytes = self.read_exact(16)?;
        let lo: u128 = u64_at(bytes.as_slice(), 0) as u128;
        let hi: u128 = u64_at(bytes.as_slice(), 8) as u128;
        Ok(lo + hi * 0x1_0000_0000_0000_0000)
    }

    fn read_i8(&mut self) -> (r: Result<i8, ReadError>)
        ensures
            taken(old(self).unread(), final(self).unread(), 1, signed8(old(self).unread()[0]), r),
    {
        let bytes = self.read_exact(1)?;
        Ok(i8_from_bits(bytes[0]))
    }

    fn read_i16(&mut self) -> (r: Result<i16, ReadError>)
        ensures
            taken(
                old(self).unread(),
                final(self).unread(),
                2,
                signed16(le_u16_at(old(self).unread(), 0)),
                r,
            ),
    {
        let bytes = self.read_exact(2)?;
        Ok(i16_from_bits(u16_at(bytes.as_slice(), 0)))
    }

    fn read_i32(&mut self) -> (r: Result<i32, ReadError>)
        ensures
            taken(
                old(self).unread(),
                final(self).unread(),
                4,
                signed32(le_u32_at(old(self).unread(), 0)),
                r,
            ),
    {
        let bytes = self.read_exact(4)?;
        Ok(i32_from_bits(u32_at(bytes.as_slice(), 0)))
    }

    fn read_i64(&mut self) -> (r: Result<i64, ReadError>)
        ensures
            taken(
                old(self).unread(),
                final(self).unread(),
                8,
                signed64(le_u64_at(old(self).unread(), 0)),
                r,
            ),
    {
        let bytes = self.read_exact(8)?;
        Ok(i64_from_bits(u64_at(bytes.as_slice(), 0)))
    }

    fn read_i128(&mut self) -> (r: Result<i128, ReadError>)
        ensures
            taken(
                old(self).unread(),
                final(self).unread(),
                16,
                signed128(le_u128_at(old(self).unread(), 0)),
                r,
            ),
    {
        let bits = self.read_u128()?;
        Ok(i128_from_bits(bits))
    }

    /// Reads the bit pattern of a 32-bit IEEE number.
    fn read_f32_bits(&mut self) -> (r: Result<u32, ReadError>)
        ensures
            taken(
                old(self).unread(),
                final(self).unread(),
                4,
                le_u32_at(old(self).unread(), 0),
                r,
            ),
    {
        self.read_u32()
    }

    /// Reads the bit pattern of a 64-bit IEEE number.
    fn read_f64_bits(&mut self) -> (r: Result<u64, ReadError>)
        ensures
            taken(
                old(self).unread(),
                final(self).unread(),
                8,
                le_u64_at(old(self).unread(), 0),
                r,
            ),
    {
        self.read_u64()
    }
}

impl<'a> ByteRead for LittleEndianRead<'a> {
    open spec fn unread(&self) -> Seq<u8> {
        if self.position() <= self.bytes().len() {
            self.bytes().skip(self.position())
        } else {
            Seq::empty()
        }
    }

    fn read_exact(&mut self, n: usize) -> (r: Result<Vec<u8>, ReadError>) {
        if self.pos > self.data.len() {
            if n == 0 {
                let nothing: Vec<u8> = Vec::new();
                assert(nothing@ =~= self.unread().take(0));
                assert(self.unread() =~= self.unread().skip(0));
                return Ok(nothing);
            }
            return Err(ReadError::Io(IoErrorKind::UnexpectedEof));
        }
        if n > self.data.len() - self.pos {
            return Err(ReadError::Io(IoErrorKind::UnexpectedEof));
        }
        let v = copy_range(self.data, self.pos, self.pos + n);
        self.pos += n;
        assert(v@ =~= old(self).unread().take(n as int));
        assert(self.unread() =~= old(self).unread().skip(n as int));
        Ok(v)
    }
}

/// The outcome of handing `bytes` to a sink that held `before` and holds
/// `after`: where the sink has no reason to refuse them they are appended,
/// and where it has one the write fails with that reason and nothing is
/// appended.
pub open spec fn write_outcome(
    failure: Option<WriteError>,
    before: Seq<u8>,
    after: Seq<u8>,
    bytes: Seq<u8>,
    r: Result<(), WriteError>,
) -> bool {
    match failure {
        None => r is Ok && after == before + bytes,
        Some(reason) => r == Err::<(), WriteError>(reason) && after == before,
    }
}

/// A sink of bytes that is written from front to back, in little-endian
/// order.
///
/// A sink says of itself which bytes it refuses, and why. Every write hands
/// its bytes over in one piece: they are appended whole or not at all.
pub trait ByteWrite {
    /// The bytes that were written.
    spec fn written(&self) -> Seq<u8>;

    /// Why the sink, as it stands, refuses `bytes`, if it does.
    spec fn write_failure(&self, bytes: Seq<u8>) -> Option<WriteError>;

    /// Appends `bytes`, unless the sink refuses them.
    fn write_bytes(&mut self, bytes: &[u8]) -> (r: Result<(), WriteError>)
        ensures
            write_outcome(
                old(self).write_failure(bytes@),
                old(self).written(),
                final(self).written(),
                bytes@,
                r,
            ),
    ;

    fn write_u8(&mut self, value: u8) -> (r: Result<(), WriteError>)
        ensures
            write_outcome(
                old(self).write_failure(seq![value]),
                old(self).written(),
                final(self).written(),
                seq![value],
                r,
            ),
    {
        let bytes: [u8; 1] = [value];
        assert(bytes@ =~= seq![value]);
        self.write_bytes(bytes.as_slice())
    }

    fn write_u16(&mut self, value: u16) -> (r: Result<(), WriteError>)
        ensures
            write_outcome(
                old(self).write_failure(u16_bytes(value)),
                old(self).written(),
                final(self).written(),
                u16_bytes(value),
                r,
            ),
    {
        let mut buffer = LittleEndianWrite::new();
        buffer.write_u16(value);
        let bytes = buffer.into_bytes();
        assert(bytes@ =~= u16_bytes(value));
        self.write_bytes(bytes.as_slice())
    }

    fn write_u32(&mut self, value: u32) -> (r: Result<(), WriteError>)
        ensures
            write_outcome(
                old(self).write_failure(u32_bytes(value)),
                old(self).written(),
                final(self).written(),
                u32_bytes(value),
                r,
            ),
    {
        let mut buffer = LittleEndianWrite::new();
        buffer.write_u32(value);
        let bytes = buffer.into_bytes();
        assert(bytes@ =~= u32_bytes(value));
        self.write_bytes(bytes.as_slice())
    }

    fn write_u64(&mut self, value: u64) -> (r: Result<(), WriteError>)
        ensures
            write_outcome(
                old(self).write_failure(u64_bytes(value)),
                old(self).written(),
                final(self).written(),
                u64_bytes(value),
                r,
            ),
    {
        let mut buffer = LittleEndianWrite::new();
        buffer.write_u64(value);
        let bytes = buffer.into_bytes();
        assert(bytes@ =~= u64_bytes(value));
        self.write_bytes(bytes.as_slice())
    }

    fn write_u128(&mut self, value: u128) -> (r: Result<(), WriteError>)
        ensures
            write_outcome(
                old(self).write_failure(u128_bytes(value)),
                old(self).written(),
                final(self).written(),
                u128_bytes(value),
                r,
            ),
    {
        let mut buffer = LittleEndianWrite::new();
        buffer.write_u128(value);
        let bytes = buffer.into_bytes();
        assert(bytes@ =~= u128_bytes(value));
        self.write_bytes(bytes.as_slice())
    }

    fn write_i8(&mut self, value: i8) -> (r: Result<(), WriteError>)
        ensures
            write_outcome(
                old(self).write_failure(seq![unsigned8(value)]),
                old(self).written(),
                final(self).written(),
                seq![unsigned8(value)],
                r,
            ),
    {
        self.write_u8(i8_to_bits(value))
    }

    fn write_i16(&mut self, value: i16) -> (r: Result<(), WriteError>)
        ensures
            write_outcome(
                old(self).write_failure(u16_bytes(unsigned16(value))),
                old(self).written(),
                final(self).written(),
                u16_bytes(unsigned16(value)),
                r,
            ),
    {
        self.write_u16(i16_to_bits(value))
    }

    fn write_i32(&mut self, value: i32) -> (r: Result<(), WriteError>)
        ensures
            write_outcome(
                old(self).write_failure(u32_bytes(unsigned32(value))),
                old(self).written(),
                final(self).written(),
                u32_bytes(unsigned32(value)),
                r,
            ),
    {
        self.write_u32(i32_to_bits(value))
    }

    fn write_i64(&mut self, value: i64) -> (r: Result<(), WriteError>)
        ensures
            write_outcome(
                old(self).write_failure(u64_bytes(unsigned64(value))),
                old(self).written(),
                final(self).written(),
                u64_bytes(unsigned64(value)),
                r,
            ),
    {
        self.write_u64(i64_to_bits(value))
    }

    fn write_i128(&mut self, value: i128) -> (r: Result<(), WriteError>)
        ensures
            write_outcome(
                old(self).write_failure(u128_bytes(unsigned128(value))),
                old(self).written(),
                final(self).written(),
                u128_bytes(unsigned128(value)),
                r,
            ),
    {
        self.write_u128(i128_to_bits(value))
    }

    /// Writes the bit pattern of a 32-bit IEEE number.
    fn write_f32_bits(&mut self, value: u32) -> (r: Result<(), WriteError>)
        ensures
            write_outcome(
                old(self).write_failure(u32_bytes(value)),
                old(self).written(),
                final(self).written(),
                u32_bytes(value),
                r,
            ),
    {
        self.write_u32(value)
    }

    /// Writes the bit pattern of a 64-bit IEEE number.
    fn write_f64_bits(&mut self, value: u64) -> (r: Result<(), WriteError>)
        ensures
            write_outcome(
                old(self).write_failure(u64_bytes(value)),
                old(self).written(),
                final(self).written(),
                u64_bytes(value),
                r,
            ),
    {
        self.write_u64(value)
    }
}

impl ByteWrite for LittleEndianWrite {
    open spec fn written(&self) -> Seq<u8> {
        self@
    }

    /// A buffer takes whatever it is given.
    open spec fn write_failure(&self, bytes: Seq<u8>) -> Option<WriteError> {
        None
    }

    fn write_bytes(&mut self, bytes: &[u8]) -> (r: Result<(), WriteError>) {
        LittleEndianWrite::append(self, bytes);
        Ok(())
    }
}

/// A value that is stored in a fixed number of bytes and can be read from
/// any source of bytes.
pub trait ReadFromBytes: Sized {
    /// The number of bytes that store a value.
    spec fn spec_size() -> nat;

    /// The value that the first `spec_size()` bytes of `s` store.
    spec fn spec_read(s: Seq<u8>) -> Self;

    /// Reads a value. Where the source has too few bytes left the read fails
    /// and nothing is taken.
    fn read_from_bytes<R: ByteRead>(reader: &mut R) -> (r: Result<Self, ReadError>)
        ensures
            taken(
                old(reader).unread(),
                final(reader).unread(),
                Self::spec_size() as int,
                Self::spec_read(old(reader).unread()),
                r,
            ),
    ;
}

/// A value that can be written to any sink of bytes.
pub trait WriteToBytes {
    /// Why the value cannot be stored, if it cannot: a part of it does not
    /// fit the bits it has on disk.
    spec fn spec_write_error(&self) -> Option<WriteError>;

    /// The bytes that store the value.
    spec fn spec_written(&self) -> Seq<u8>;

    /// Writes the value. A value that cannot be stored is a failure, and
    /// nothing is written of it. The bytes of any other value are handed to
    /// the sink in one piece, and the outcome is that of the sink.
    fn write_to_bytes<W: ByteWrite>(&self, writer: &mut W) -> (r: Result<(), WriteError>)
        ensures
            match self.spec_write_error() {
                Some(cause) => r == Err::<(), WriteError>(cause) && final(writer).written() == old(
                    writer,
                ).written(),
                None => write_outcome(
                    old(writer).write_failure(self.spec_written()),
                    old(writer).written(),
                    final(writer).written(),
                    self.spec_written(),
                    r,
                ),
            },
    ;
}

impl ReadFromBytes for u8 {
    open spec fn spec_size() -> nat {
        1
    }

    open spec fn spec_read(s: Seq<u8>) -> u8 {
        s[0]
    }

    fn read_from_bytes<R: ByteRead>(reader: &mut R) -> (r: Result<u8, ReadError>) {
        reader.read_u8()
    }
}

impl WriteToBytes for u8 {
    open spec fn spec_write_error(&self) -> Option<WriteError> {
        None
    }

    open spec fn spec_written(&self) -> Seq<u8> {
        seq![*self]
    }

    fn write_to_bytes<W: ByteWrite>(&self, writer: &mut W) -> (r: Result<(), WriteError>) {
        writer.write_u8(*self)
    }
}

impl ReadFromBytes for u16 {
    open spec fn spec_size() -> nat {
        2
    }

    open spec fn spec_read(s: Seq<u8>) -> u16 {
        le_u16_at(s, 0)
    }

    fn read_from_bytes<R: ByteRead>(reader: &mut R) -> (r: Result<u16, ReadError>) {
        reader.read_u16()
    }
}

impl WriteToBytes for u16 {
    open spec fn spec_write_error(&self) -> Option<WriteError> {
        None
    }

    open spec fn spec_written(&self) -> Seq<u8> {
        u16_bytes(*self)
    }

    fn write_to_bytes<W: ByteWrite>(&self, writer: &mut W) -> (r: Result<(), WriteError>) {
        writer.write_u16(*self)
    }
}

impl ReadFromBytes for u32 {
    open spec fn spec_size() -> nat {
        4
    }

    open spec fn spec_read(s: Seq<u8>) -> u32 {
        le_u32_at(s, 0)
    }

    fn read_from_bytes<R: ByteRead>(reader: &mut R) -> (r: Result<u32, ReadError>) {
        reader.read_u32()
    }
}

impl WriteToBytes for u32 {
    open spec fn spec_write_error(&self) -> Option<WriteError> {
        None
    }

    open spec fn spec_written(&self) -> Seq<u8> {
        u32_bytes(*self)
    }

    fn write_to_bytes<W: ByteWrite>(&self, writer: &mut W) -> (r: Result<(), WriteError>) {
        writer.write_u32(*self)
    }
}

impl ReadFromBytes for u64 {
    open spec fn spec_size() -> nat {
        8
    }

    open spec fn spec_read(s: Seq<u8>) -> u64 {
        le_u64_at(s, 0)
    }

    fn read_from_bytes<R: ByteRead>(reader: &mut R) -> (r: Result<u64, ReadError>) {
        reader.read_u64()
    }
}

impl WriteToBytes for u64 {
    open spec fn spec_write_error(&self) -> Option<WriteError> {
        None
    }

    open spec fn spec_written(&self) -> Seq<u8> {
        u64_bytes(*self)
    }

    fn write_to_bytes<W: ByteWrite>(&self, writer: &mut W) -> (r: Result<(), WriteError>) {
        writer.write_u64(*self)
    }
}

impl ReadFromBytes for u128 {
    open spec fn spec_size() -> nat {
        16
    }

    open spec fn spec_read(s: Seq<u8>) -> u128 {
        le_u128_at(s, 0)
    }

    fn read_from_bytes<R: ByteRead>(reader: &mut R) -> (r: Result<u128, ReadError>) {
        reader.read_u128()
    }
}

impl WriteToBytes for u128 {
    open spec fn spec_write_error(&self) -> Option<WriteError> {
        None
    }

    open spec fn spec_written(&self) -> Seq<u8> {
        u128_bytes(*self)
    }

    fn write_to_bytes<W: ByteWrite>(&self, writer: &mut W) -> (r: Result<(), WriteError>) {
        writer.write_u128(*self)
    }
}

impl ReadFromBytes for i8 {
    open spec fn spec_size() -> nat {
        1
    }

    open spec fn spec_read(s: Seq<u8>) -> i8 {
        signed8(s[0])
    }

    fn read_from_bytes<R: ByteRead>(reader: &mut R) -> (r: Result<i8, ReadError>) {
        reader.read_i8()
    }
}

impl WriteToBytes for i8 {
    open spec fn spec_write_error(&self) -> Option<WriteError> {
        None
    }

    open spec fn spec_written(&self) -> Seq<u8> {
        seq![unsigned8(*self)]
    }

    fn write_to_bytes<W: ByteWrite>(&self, writer: &mut W) -> (r: Result<(), WriteError>) {
        writer.write_i8(*self)
    }
}

impl ReadFromBytes for i128 {
    open spec fn spec_size() -> nat {
        16
    }

    open spec fn spec_read(s: Seq<u8>) -> i128 {
        signed128(le_u128_at(s, 0))
    }

    fn read_from_bytes<R: ByteRead>(reader: &mut R) -> (r: Result<i128, ReadError>) {
        reader.read_i128()
    }
}

impl WriteToBytes for i128 {
    open spec fn spec_write_error(&self) -> Option<WriteError> {
        None
    }

    open spec fn spec_written(&self) -> Seq<u8> {
        u128_bytes(unsigned128(*self))
    }

    fn write_to_bytes<W: ByteWrite>(&self, writer: &mut W) -> (r: Result<(), WriteError>) {
        writer.write_i128(*self)
    }
}

impl ReadFromBytes for i16 {
    open spec fn spec_size() -> nat {
        2
    }

    open spec fn spec_read(s: Seq<u8>) -> i16 {
        signed16(le_u16_at(s, 0))
    }

    fn read_from_bytes<R: ByteRead>(reader: &mut R) -> (r: Result<i16, ReadError>) {
        reader.read_i16()
    }
}

impl WriteToBytes for i16 {
    open spec fn spec_write_error(&self) -> Option<WriteError> {
        None
    }

    open spec fn spec_written(&self) -> Seq<u8> {
        u16_bytes(unsigned16(*self))
    }

    fn write_to_bytes<W: ByteWrite>(&self, writer: &mut W) -> (r: Result<(), WriteError>) {
        writer.write_i16(*self)
    }
}

impl ReadFromBytes for i32 {
    open spec fn spec_size() -> nat {
        4
    }

    open spec fn spec_read(s: Seq<u8>) -> i32 {
        signed32(le_u32_at(s, 0))
    }

    fn read_from_bytes<R: ByteRead>(reader: &mut R) -> (r: Result<i32, ReadError>) {
        reader.read_i32()
    }
}

impl WriteToBytes for i32 {
    open spec fn spec_write_error(&self) -> Option<WriteError> {
        None
    }

    open spec fn spec_written(&self) -> Seq<u8> {
        u32_bytes(unsigned32(*self))
    }

    fn write_to_bytes<W: ByteWrite>(&self, writer: &mut W) -> (r: Result<(), WriteError>) {
        writer.write_i32(*self)
    }
}

impl ReadFromBytes for i64 {
    open spec fn spec_size() -> nat {
        8
    }

    open spec fn spec_read(s: Seq<u8>) -> i64 {
        signed64(le_u64_at(s, 0))
    }

    fn read_from_bytes<R: ByteRead>(reader: &mut R) -> (r: Result<i64, ReadError>) {
        reader.read_i64()
    }
}

impl WriteToBytes for i64 {
    open spec fn spec_write_error(&self) -> Option<WriteError> {
        None
    }

    open spec fn spec_written(&self) -> Seq<u8> {
        u64_bytes(unsigned64(*self))
    }

    fn write_to_bytes<W: ByteWrite>(&self, writer: &mut W) -> (r: Result<(), WriteError>) {
        writer.write_i64(*self)
    }
}

impl<const N: usize> ReadFromBytes for [u8; N] {
    open spec fn spec_size() -> nat {
        N as nat
    }

    open spec fn spec_read(s: Seq<u8>) -> [u8; N] {
        array_at::<N>(s, 0)
    }

    fn read_from_bytes<R: ByteRead>(reader: &mut R) -> (r: Result<[u8; N], ReadError>) {
        let bytes = reader.read_exact(N)?;
        let array = read_array::<N>(bytes.as_slice(), 0);
        proof {
            assert(array@ =~= old(reader).unread().subrange(0, N as int));
            lemma_array_at::<N>(array, old(reader).unread(), 0);
        }
        Ok(array)
    }
}

impl<const N: usize> WriteToBytes for [u8; N] {
    open spec fn spec_write_error(&self) -> Option<WriteError> {
        None
    }

    open spec fn spec_written(&self) -> Seq<u8> {
        self@
    }

    fn write_to_bytes<W: ByteWrite>(&self, writer: &mut W) -> (r: Result<(), WriteError>) {
        writer.write_bytes(self.as_slice())
    }
}

} // verus!
