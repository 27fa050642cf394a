//! A positioned little-endian reader over one message payload, and the
//! capability set that each transport's decoder offers on top of it.
use vstd::prelude::*;
use vstd::slice::{slice_subrange, slice_to_vec};
use vstd::utf8::{decode_utf8, valid_utf8};
use crate::error::UvtError;
use crate::hexdump::{dump_bytes, hex_dump};
use crate::pose::{Header, HeaderView, Time};

verus! {

// ---------------------------------------------------------------------------
// Byte-level model of a read: each read at position `p` of `b` either yields
// a value and the position after it, or fails.
// ---------------------------------------------------------------------------

/// Little-endian `u16` at `p`.
pub open spec fn u16_at(b: Seq<u8>, p: int) -> u16 {
    (b[p] as int + 0x100 * b[p + 1]) as u16
}

/// Little-endian `u32` at `p`.
pub open spec fn u32_at(b: Seq<u8>, p: int) -> u32 {
    (b[p] as int + 0x100 * b[p + 1] + 0x1_0000 * b[p + 2] + 0x100_0000 * b[p + 3]) as u32
}

/// Little-endian `u64` at `p`.
pub open spec fn u64_at(b: Seq<u8>, p: int) -> u64 {
    (u32_at(b, p) as int + 0x1_0000_0000 * u32_at(b, p + 4)) as u64
}

/// An IEEE-754 binary32 value, kept as its bit pattern.
pub open spec fn spec_f32_bits(b: Seq<u8>, p: int) -> Result<(u32, int), UvtError> {
    spec_u32(b, p)
}

/// Reads `n` raw bytes.
pub open spec fn spec_take(b: Seq<u8>, p: int, n: int) -> Result<(Seq<u8>, int), UvtError> {
    if 0 <= p && 0 <= n && p + n <= b.len() {
        Ok((b.subrange(p, p + n), p + n))
    } else {
        Err(UvtError::Underrun)
    }
}

pub open spec fn spec_byte(b: Seq<u8>, p: int) -> Result<(u8, int), UvtError> {
    if 0 <= p && p + 1 <= b.len() {
        Ok((b[p], p + 1))
    } else {
        Err(UvtError::Underrun)
    }
}

pub open spec fn spec_u16(b: Seq<u8>, p: int) -> Result<(u16, int), UvtError> {
    if 0 <= p && p + 2 <= b.len() {
        Ok((u16_at(b, p), p + 2))
    } else {
        Err(UvtError::Underrun)
    }
}

pub open spec fn spec_i16(b: Seq<u8>, p: int) -> Result<(i16, int), UvtError> {
    if 0 <= p && p + 2 <= b.len() {
        Ok((u16_at(b, p) as i16, p + 2))
    } else {
        Err(UvtError::Underrun)
    }
}

pub open spec fn spec_u32(b: Seq<u8>, p: int) -> Result<(u32, int), UvtError> {
    if 0 <= p && p + 4 <= b.len() {
        Ok((u32_at(b, p), p + 4))
    } else {
        Err(UvtError::Underrun)
    }
}

pub open spec fn spec_i32(b: Seq<u8>, p: int) -> Result<(i32, int), UvtError> {
    if 0 <= p && p + 4 <= b.len() {
        Ok((u32_at(b, p) as i32, p + 4))
    } else {
        Err(UvtError::Underrun)
    }
}

/// An IEEE-754 binary64 value, kept as its bit pattern.
pub open spec fn spec_f64_bits(b: Seq<u8>, p: int) -> Result<(u64, int), UvtError> {
    if 0 <= p && p + 8 <= b.len() {
        Ok((u64_at(b, p), p + 8))
    } else {
        Err(UvtError::Underrun)
    }
}

/// Text of a byte string: its UTF-8 decoding, or `InvalidUtf8`.
pub open spec fn spec_text(bytes: Seq<u8>) -> Result<Seq<char>, UvtError> {
    if valid_utf8(bytes) {
        Ok(decode_utf8(bytes))
    } else {
        Err(UvtError::InvalidUtf8)
    }
}

/// A string behind a 4-byte little-endian length prefix; returns its raw
/// bytes.
pub open spec fn spec_lp_bytes(b: Seq<u8>, p: int) -> Result<(Seq<u8>, int), UvtError> {
    match spec_u32(b, p) {
        Err(e) => Err(e),
        Ok((n, q)) => spec_take(b, q, n as int),
    }
}

/// A length-prefixed UTF-8 string.
pub open spec fn spec_lp_string(b: Seq<u8>, p: int) -> Result<(Seq<char>, int), UvtError> {
    match spec_lp_bytes(b, p) {
        Err(e) => Err(e),
        Ok((bytes, q)) => match spec_text(bytes) {
            Err(e) => Err(e),
            Ok(s) => Ok((s, q)),
        },
    }
}

/// Index of the first NUL byte at or after `i`, or `b.len()` when there is
/// none.
pub open spec fn nul_index(b: Seq<u8>, i: int) -> int
    decreases b.len() - i,
{
    if i < 0 || i >= b.len() {
        b.len() as int
    } else if b[i] == 0 {
        i
    } else {
        nul_index(b, i + 1)
    }
}

/// A 4-byte length (not used), then the bytes up to the first NUL, which is
/// consumed too.
pub open spec fn spec_nul_terminated_string(b: Seq<u8>, p: int) -> Result<(Seq<char>, int), UvtError> {
    match spec_u32(b, p) {
        Err(e) => Err(e),
        Ok((_, q)) => {
            let z = nul_index(b, q);
            if z >= b.len() {
                Err(UvtError::Underrun)
            } else {
                match spec_text(b.subrange(q, z)) {
                    Err(e) => Err(e),
                    Ok(s) => Ok((s, z + 1)),
                }
            }
        },
    }
}

/// Relies on `std::str::from_utf8`: it accepts exactly the well-formed UTF-8
/// byte sequences, and the string then holds the characters they encode.
#[verifier::external_body]
pub(crate) fn utf8_text(bytes: &[u8]) -> (r: Option<String>)
    ensures
        r is Some <==> valid_utf8(bytes@),
        r matches Some(s) ==> s@ == decode_utf8(bytes@),
{
    std::str::from_utf8(bytes).ok().map(|s| s.to_owned())
}

/// Decodes a byte string as UTF-8 text.
pub fn decode_text(bytes: &[u8]) -> (r: Result<String, UvtError>)
    ensures
        r matches Ok(s) ==> spec_text(bytes@) == Ok::<Seq<char>, UvtError>(s@),
        r matches Err(e) ==> spec_text(bytes@) == Err::<Seq<char>, UvtError>(e),
{
    match utf8_text(bytes) {
        Some(s) => Ok(s),
        None => Err(UvtError::InvalidUtf8),
    }
}

/// A read-only cursor over an owned message payload.
#[derive(Debug, Clone)]
pub struct MessageDataBuffer {
    data: Vec<u8>,
    position: usize,
}

impl MessageDataBuffer {
    /// The payload.
    pub closed spec fn bytes(&self) -> Seq<u8> {
        self.data@
    }

    /// The cursor.
    pub closed spec fn pos(&self) -> int {
        self.position as int
    }

    /// The cursor never passes the end of the payload.
    pub open spec fn wf(&self) -> bool {
        0 <= self.pos() <= self.bytes().len()
    }

    /// `self` is `old` with the cursor moved as `r` says: to the position
    /// after the value read on success, nowhere on failure; the value (or
    /// the error) is the one `r` gives.
    pub open spec fn advanced<T>(&self, old: &Self, got: Result<T, UvtError>, r: Result<(T, int), UvtError>) -> bool {
        &&& self.bytes() == old.bytes()
        &&& self.wf()
        &&& match r {
            Ok((v, q)) => got == Ok::<T, UvtError>(v) && self.pos() == q,
            Err(e) => got == Err::<T, UvtError>(e) && self.pos() == old.pos(),
        }
    }

    /// A cursor at the start of `data`.
    pub fn new(data: Vec<u8>) -> (r: Self)
        ensures
            r.bytes() == data@,
            r.pos() == 0,
            r.wf(),
    {
        Self { data, position: 0 }
    }

    /// Total length of the payload.
    pub fn len(&self) -> (r: usize)
        ensures
            r == self.bytes().len(),
    {
        self.data.len()
    }

    /// Bytes left after the cursor.
    pub fn n_remaining(&self) -> (r: usize)
        requires
            self.wf(),
        ensures
            r == self.bytes().len() - self.pos(),
    {
        self.data.len() - self.position
    }

    /// The whole payload as a canonical hex dump (16 bytes per row, offset,
    /// hex bytes, printable-ASCII gutter), for debugging.
    pub fn hex_dump(&self) -> (r: Vec<u8>)
        ensures
            r@ == hex_dump(self.bytes()),
    {
        dump_bytes(&self.data)
    }

    /// The byte at `position`, without moving the cursor.
    pub fn seek(&self, position: usize) -> (r: Option<u8>)
        ensures
            position < self.bytes().len() ==> r == Some(self.bytes()[position as int]),
            position >= self.bytes().len() ==> r is None,
    {
        if position >= self.data.len() {
            None
        } else {
            Some(self.data[position])
        }
    }

    /// Reads one byte.
    pub fn read_byte(&mut self) -> (r: Result<u8, UvtError>)
        requires
            old(self).wf(),
        ensures
            final(self).advanced(old(self), r, spec_byte(old(self).bytes(), old(self).pos())),
    {
        if self.position >= self.data.len() {
            return Err(UvtError::Underrun);
        }
        let b = self.data[self.position];
        self.position = self.position + 1;
        Ok(b)
    }

    /// Reads a little-endian `u16`.
    pub fn read_u16_le(&mut self) -> (r: Result<u16, UvtError>)
        requires
            old(self).wf(),
        ensures
            final(self).advanced(old(self), r, spec_u16(old(self).bytes(), old(self).pos())),
    {
        if 2 > self.data.len() - self.position {
            return Err(UvtError::Underrun);
        }
        let p = self.position;
        let v = self.data[p] as u16 + 0x100 * (self.data[p + 1] as u16);
        self.position = p + 2;
        Ok(v)
    }

    /// Reads a little-endian `i16`.
    pub fn read_i16_le(&mut self) -> (r: Result<i16, UvtError>)
        requires
            old(self).wf(),
        ensures
            final(self).advanced(old(self), r, spec_i16(old(self).bytes(), old(self).pos())),
    {
        match self.read_u16_le() {
            Ok(v) => Ok(v as i16),
            Err(e) => Err(e),
        }
    }

    /// Reads a little-endian `u32`.
    pub fn read_u32_le(&mut self) -> (r: Result<u32, UvtError>)
        requires
            old(self).wf(),
        ensures
            final(self).advanced(old(self), r, spec_u32(old(self).bytes(), old(self).pos())),
    {
        if 4 > self.data.len() - self.position {
            return Err(UvtError::Underrun);
        }
        let p = self.position;
        let v = self.data[p] as u32 + 0x100 * (self.data[p + 1] as u32) + 0x1_0000 * (
        self.data[p + 2] as u32) + 0x100_0000 * (self.data[p + 3] as u32);
        self.position = p + 4;
        Ok(v)
    }

    /// Reads a little-endian `i32`.
    pub fn read_i32_le(&mut self) -> (r: Result<i32, UvtError>)
        requires
            old(self).wf(),
        ensures
            final(self).advanced(old(self), r, spec_i32(old(self).bytes(), old(self).pos())),
    {
        match self.read_u32_le() {
            Ok(v) => Ok(v as i32),
            Err(e) => Err(e),
        }
    }

    /// Reads a little-endian binary64 value as its bit pattern.
    pub fn read_f64_bits(&mut self) -> (r: Result<u64, UvtError>)
        requires
            old(self).wf(),
        ensures
            final(self).advanced(old(self), r, spec_f64_bits(old(self).bytes(), old(self).pos())),
    {
        if 8 > self.data.len() - self.position {
            return Err(UvtError::Underrun);
        }
        let lo = self.read_u32_le();
        let hi = self.read_u32_le();
        match (lo, hi) {
            (Ok(lo), Ok(hi)) => Ok(lo as u64 + 0x1_0000_0000 * (hi as u64)),
            _ => Err(UvtError::Underrun),
        }
    }

    /// Reads a little-endian binary32 value as its bit pattern.
    pub fn read_f32_bits(&mut self) -> (r: Result<u32, UvtError>)
        requires
            old(self).wf(),
        ensures
            final(self).advanced(old(self), r, spec_f32_bits(old(self).bytes(), old(self).pos())),
    {
        self.read_u32_le()
    }

    /// Reads `n` raw bytes into a vector of their own.
    pub fn take(&mut self, n: usize) -> (r: Result<Vec<u8>, UvtError>)
        requires
            old(self).wf(),
        ensures
            final(self).bytes() == old(self).bytes(),
            final(self).wf(),
            match spec_take(old(self).bytes(), old(self).pos(), n as int) {
                Ok((v, q)) => r matches Ok(got) && got@ == v && final(self).pos() == q,
                Err(e) => r == Err::<Vec<u8>, UvtError>(e) && final(self).pos() == old(self).pos(),
            },
    {
        match self.slice(n) {
            Some(s) => Ok(slice_to_vec(s)),
            None => Err(UvtError::Underrun),
        }
    }

    /// Reads a length-prefixed UTF-8 string (4-byte little-endian length,
    /// then that many bytes).
    pub fn read_lp_string(&mut self) -> (r: Result<String, UvtError>)
        requires
            old(self).wf(),
        ensures
            final(self).bytes() == old(self).bytes(),
            final(self).wf(),
            match spec_lp_string(old(self).bytes(), old(self).pos()) {
                Ok((v, q)) => r matches Ok(got) && got@ == v && final(self).pos() == q,
                Err(e) => r == Err::<String, UvtError>(e),
            },
    {
        let n = match self.read_u32_le() {
            Ok(n) => n,
            Err(e) => return Err(e),
        };
        match self.slice(n as usize) {
            Some(bytes) => decode_text(bytes),
            None => Err(UvtError::Underrun),
        }
    }

    /// Reads a length-prefixed string (the length is not used) up to its
    /// first NUL byte, which is consumed too.
    pub fn read_null_terminated_string(&mut self) -> (r: Result<String, UvtError>)
        requires
            old(self).wf(),
        ensures
            final(self).bytes() == old(self).bytes(),
            final(self).wf(),
            match spec_nul_terminated_string(old(self).bytes(), old(self).pos()) {
                Ok((v, q)) => r matches Ok(got) && got@ == v && final(self).pos() == q,
                Err(e) => r == Err::<String, UvtError>(e),
            },
    {
        match self.read_u32_le() {
            Ok(_) => {},
            Err(e) => return Err(e),
        };
        let start = self.position;
        let mut i = start;
        while i < self.data.len() && self.data[i] != 0
            invariant
                self.wf(),
                self.bytes() == old(self).bytes(),
                self.pos() == start,
                start <= i <= self.data@.len(),
                nul_index(self.data@, start as int) == nul_index(self.data@, i as int),
            decreases self.data@.len() - i,
        {
            i = i + 1;
        }
        if i >= self.data.len() {
            return Err(UvtError::Underrun);
        }
        self.position = i + 1;
        decode_text(slice_subrange(self.data.as_slice(), start, i))
    }

    /// The next `length` bytes; moves the cursor past them. Nothing moves
    /// when fewer remain.
    pub fn slice(&mut self, length: usize) -> (r: Option<&[u8]>)
        requires
            old(self).wf(),
        ensures
            final(self).bytes() == old(self).bytes(),
            final(self).wf(),
            match spec_take(old(self).bytes(), old(self).pos(), length as int) {
                Ok((s, q)) => r matches Some(v) && v@ == s && final(self).pos() == q,
                Err(_) => r is None && final(self).pos() == old(self).pos(),
            },
    {
        if length > self.data.len() - self.position {
            return None;
        }
        let start = self.position;
        self.position = self.position + length;
        Some(slice_subrange(self.data.as_slice(), start, start + length))
    }
}


// ---------------------------------------------------------------------------
// Transports
// ---------------------------------------------------------------------------

/// How a transport lays out one message payload.
#[derive(Debug, Clone, Copy, PartialEq, Eq, Structural)]
pub enum Encoding {
    /// Bag: no alignment, plain length-prefixed strings, a header with
    /// `seq`, `sec`, `nsec`, `frame_id`.
    Bag,
    /// MCAP: CDR, with a 4-byte encapsulation prologue, strings carrying a
    /// trailing NUL, and padding up to the alignment of the next field.
    Mcap,
}

/// `got` is what the read model `r` gives, and `new_pos` is where it leaves
/// the cursor on success.
pub open spec fn stepped<T: View>(got: Result<T, UvtError>, r: Result<(T::V, int), UvtError>, new_pos: int) -> bool {
    match r {
        Ok((v, q)) => got matches Ok(g) && g@ == v && new_pos == q,
        Err(e) => got matches Err(g) && g == e,
    }
}

/// Bytes of padding that bring a field of `len` bytes up to alignment `a`.
pub open spec fn padding(len: int, a: int) -> int
    recommends
        a > 0,
{
    (a - len % a) % a
}

/// Skips `n` padding bytes, which must be there.
pub open spec fn skip_padding(b: Seq<u8>, q: int, n: int) -> Result<int, UvtError> {
    if 0 <= q && 0 <= n && q + n <= b.len() {
        Ok(q + n)
    } else {
        Err(UvtError::Underrun)
    }
}

/// The bytes of a string without a single trailing NUL.
pub open spec fn trim_nul(s: Seq<u8>) -> Seq<u8> {
    if s.len() > 0 && s.last() == 0 {
        s.drop_last()
    } else {
        s
    }
}

/// One byte, then (MCAP) the padding up to alignment `a`.
pub open spec fn spec_byte_aligned(enc: Encoding, b: Seq<u8>, p: int, a: int) -> Result<(u8, int), UvtError> {
    match enc {
        Encoding::Bag => spec_byte(b, p),
        Encoding::Mcap => match spec_byte(b, p) {
            Err(e) => Err(e),
            Ok((v, q)) => match skip_padding(b, q, padding(1, a)) {
                Err(e) => Err(e),
                Ok(q2) => Ok((v, q2)),
            },
        },
    }
}

/// A length-prefixed string; under MCAP a single trailing NUL is dropped
/// and the padding after its `L` bytes up to alignment `a` is skipped.
pub open spec fn spec_lp_string_aligned(enc: Encoding, b: Seq<u8>, p: int, a: int) -> Result<(Seq<char>, int), UvtError> {
    match enc {
        Encoding::Bag => spec_lp_string(b, p),
        Encoding::Mcap => match spec_lp_bytes(b, p) {
            Err(e) => Err(e),
            Ok((raw, q)) => match spec_text(trim_nul(raw)) {
                Err(e) => Err(e),
                Ok(s) => match skip_padding(b, q, padding(raw.len() as int, a)) {
                    Err(e) => Err(e),
                    Ok(q2) => Ok((s, q2)),
                },
            },
        },
    }
}

/// The 4-byte CDR encapsulation prologue; its representation identifier
/// must name a little-endian encoding (an odd second byte).
pub open spec fn spec_prologue(b: Seq<u8>, p: int) -> Result<int, UvtError> {
    match spec_take(b, p, 4) {
        Err(e) => Err(e),
        Ok((pro, q)) => if pro[1] % 2 == 1 {
            Ok(q)
        } else {
            Err(UvtError::Invalid)
        },
    }
}

/// Time stamp and frame after the sequence number (Bag) or the prologue
/// (MCAP).
pub open spec fn spec_stamp_frame(enc: Encoding, b: Seq<u8>, p: int, seq: u32) -> Result<(HeaderView, int), UvtError> {
    match spec_i32(b, p) {
        Err(e) => Err(e),
        Ok((sec, pos1)) => match spec_u32(b, pos1) {
            Err(e) => Err(e),
            Ok((nanosec, pos2)) => match spec_lp_string_aligned(enc, b, pos2, 4) {
                Err(e) => Err(e),
                Ok((frame_id, pos3)) => Ok(
                    (HeaderView { seq, stamp: Time { sec, nanosec }, frame_id }, pos3),
                ),
            },
        },
    }
}

/// A message header: `seq`, stamp and frame under Bag; prologue, stamp and
/// frame under MCAP, which reports `seq` as `0`.
pub open spec fn spec_header(enc: Encoding, b: Seq<u8>, p: int) -> Result<(HeaderView, int), UvtError> {
    match enc {
        Encoding::Bag => match spec_u32(b, p) {
            Err(e) => Err(e),
            Ok((seq, q)) => spec_stamp_frame(enc, b, q, seq),
        },
        Encoding::Mcap => match spec_prologue(b, p) {
            Err(e) => Err(e),
            Ok(q) => spec_stamp_frame(enc, b, q, 0),
        },
    }
}

/// The capability set through which the message parsers read a payload.
/// Each transport decides how single bytes and strings are padded and what
/// a header holds; everything else is shared.
pub trait BufferReader: Sized {
    /// The transport's layout.
    spec fn encoding() -> Encoding;

    /// The payload.
    spec fn bytes(&self) -> Seq<u8>;

    /// The cursor.
    spec fn pos(&self) -> int;

    /// The cursor is within the payload.
    spec fn wf(&self) -> bool;

    proof fn lemma_wf_bounds(&self)
        requires
            self.wf(),
        ensures
            0 <= self.pos() <= self.bytes().len(),
    ;

    fn read_u32_le(&mut self) -> (r: Result<u32, UvtError>)
        requires
            old(self).wf(),
        ensures
            final(self).wf(),
            final(self).bytes() == old(self).bytes(),
            stepped(r, spec_u32(old(self).bytes(), old(self).pos()), final(self).pos()),
            r is Err ==> final(self).pos() == old(self).pos(),
    ;

    /// Reads a binary64 value as its bit pattern.
    fn read_f64_bits(&mut self) -> (r: Result<u64, UvtError>)
        requires
            old(self).wf(),
        ensures
            final(self).wf(),
            final(self).bytes() == old(self).bytes(),
            stepped(r, spec_f64_bits(old(self).bytes(), old(self).pos()), final(self).pos()),
            r is Err ==> final(self).pos() == old(self).pos(),
    ;

    fn read_byte(&mut self) -> (r: Result<u8, UvtError>)
        requires
            old(self).wf(),
        ensures
            final(self).wf(),
            final(self).bytes() == old(self).bytes(),
            stepped(r, spec_byte(old(self).bytes(), old(self).pos()), final(self).pos()),
            r is Err ==> final(self).pos() == old(self).pos(),
    ;

    /// Reads one byte followed by the transport's padding up to the
    /// alignment of the next field.
    fn read_byte_aligned(&mut self, next_alignment: usize) -> (r: Result<u8, UvtError>)
        requires
            old(self).wf(),
            next_alignment > 0,
        ensures
            final(self).wf(),
            final(self).bytes() == old(self).bytes(),
            stepped(
                r,
                spec_byte_aligned(Self::encoding(), old(self).bytes(), old(self).pos(), next_alignment as int),
                final(self).pos(),
            ),
    ;

    /// Reads `n` raw bytes.
    fn take(&mut self, n: usize) -> (r: Result<Vec<u8>, UvtError>)
        requires
            old(self).wf(),
        ensures
            final(self).wf(),
            final(self).bytes() == old(self).bytes(),
            stepped(r, spec_take(old(self).bytes(), old(self).pos(), n as int), final(self).pos()),
            r is Err ==> final(self).pos() == old(self).pos(),
    ;

    fn read_lp_string(&mut self) -> (r: Result<String, UvtError>)
        requires
            old(self).wf(),
        ensures
            final(self).wf(),
            final(self).bytes() == old(self).bytes(),
            stepped(r, spec_lp_string(old(self).bytes(), old(self).pos()), final(self).pos()),
    ;

    /// Reads a length-prefixed string followed by the transport's padding up
    /// to the alignment of the next field.
    fn read_lp_string_aligned(&mut self, next_alignment: usize) -> (r: Result<String, UvtError>)
        requires
            old(self).wf(),
            next_alignment > 0,
        ensures
            final(self).wf(),
            final(self).bytes() == old(self).bytes(),
            stepped(
                r,
                spec_lp_string_aligned(Self::encoding(), old(self).bytes(), old(self).pos(), next_alignment as int),
                final(self).pos(),
            ),
    ;

    fn read_null_terminated_string(&mut self) -> (r: Result<String, UvtError>)
        requires
            old(self).wf(),
        ensures
            final(self).wf(),
            final(self).bytes() == old(self).bytes(),
            stepped(r, spec_nul_terminated_string(old(self).bytes(), old(self).pos()), final(self).pos()),
    ;

    fn read_header(&mut self) -> (r: Result<Header, UvtError>)
        requires
            old(self).wf(),
        ensures
            final(self).wf(),
            final(self).bytes() == old(self).bytes(),
            stepped(r, spec_header(Self::encoding(), old(self).bytes(), old(self).pos()), final(self).pos()),
    ;
}

} // verus!
