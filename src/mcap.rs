//! The MCAP transport: CDR payloads, where each field sits at its natural
//! alignment and strings carry a trailing NUL. Padding is part of the
//! payload: a payload that ends before its padding is short.
use vstd::prelude::*;
use crate::deserialization::{
    padding, skip_padding, spec_prologue, trim_nul, BufferReader, Encoding,
    MessageDataBuffer, decode_text,
};
use crate::error::UvtError;
use crate::pose::{Header, Time};

verus! {

/// A decoder over one MCAP (CDR) message payload.
pub struct McapDeserializer {
    buf: MessageDataBuffer,
}

impl McapDeserializer {
    /// A decoder at the start of `data`.
    pub fn new(data: Vec<u8>) -> (r: Self)
        ensures
            r.bytes() == data@,
            r.pos() == 0,
            r.wf(),
    {
        Self { buf: MessageDataBuffer::new(data) }
    }

    /// Skips `n` padding bytes; `Underrun` when they are not there.
    fn skip(&mut self, n: usize) -> (r: Result<(), UvtError>)
        requires
            old(self).wf(),
        ensures
            final(self).wf(),
            final(self).bytes() == old(self).bytes(),
            match skip_padding(old(self).bytes(), old(self).pos(), n as int) {
                Ok(q) => r is Ok && final(self).pos() == q,
                Err(e) => r == Err::<(), UvtError>(e),
            },
    {
        match self.buf.slice(n) {
            Some(_) => Ok(()),
            None => Err(UvtError::Underrun),
        }
    }

    /// Reads the encapsulation prologue.
    fn read_prologue(&mut self) -> (r: Result<(), UvtError>)
        requires
            old(self).wf(),
        ensures
            final(self).wf(),
            final(self).bytes() == old(self).bytes(),
            match spec_prologue(old(self).bytes(), old(self).pos()) {
                Ok(q) => r is Ok && final(self).pos() == q,
                Err(e) => r == Err::<(), UvtError>(e),
            },
    {
        match self.buf.slice(4) {
            Some(pro) => if pro[1] % 2 == 1 {
                Ok(())
            } else {
                Err(UvtError::Invalid)
            },
            None => Err(UvtError::Underrun),
        }
    }
}

impl BufferReader for McapDeserializer {
    open spec fn encoding() -> Encoding {
        Encoding::Mcap
    }

    closed spec fn bytes(&self) -> Seq<u8> {
        self.buf.bytes()
    }

    closed spec fn pos(&self) -> int {
        self.buf.pos()
    }

    closed spec fn wf(&self) -> bool {
        self.buf.wf()
    }

    proof fn lemma_wf_bounds(&self) {
    }

    fn read_u32_le(&mut self) -> (r: Result<u32, UvtError>) {
        self.buf.read_u32_le()
    }

    fn read_f64_bits(&mut self) -> (r: Result<u64, UvtError>) {
        self.buf.read_f64_bits()
    }

    fn read_byte(&mut self) -> (r: Result<u8, UvtError>) {
        self.buf.read_byte()
    }

    /// One byte, then `(A - 1 mod A) mod A` padding bytes.
    fn read_byte_aligned(&mut self, next_alignment: usize) -> (r: Result<u8, UvtError>) {
        let b = match self.buf.read_byte() {
            Ok(b) => b,
            Err(e) => return Err(e),
        };
        let pad = (next_alignment - (1 % next_alignment)) % next_alignment;
        match self.skip(pad) {
            Ok(()) => Ok(b),
            Err(e) => Err(e),
        }
    }

    fn take(&mut self, n: usize) -> (r: Result<Vec<u8>, UvtError>) {
        self.buf.take(n)
    }

    fn read_lp_string(&mut self) -> (r: Result<String, UvtError>) {
        self.buf.read_lp_string()
    }

    /// `L: u32`, `L` bytes less a single trailing NUL, then
    /// `(A - L mod A) mod A` padding bytes.
    fn read_lp_string_aligned(&mut self, next_alignment: usize) -> (r: Result<String, UvtError>) {
        let n = match self.buf.read_u32_le() {
            Ok(n) => n,
            Err(e) => return Err(e),
        };
        let len = n as usize;
        let decoded = match self.buf.slice(len) {
            Some(raw) => {
                let trimmed = if len > 0 && raw[len - 1] == 0 {
                    vstd::slice::slice_subrange(raw, 0, len - 1)
                } else {
                    raw
                };
                assert(trimmed@ == trim_nul(raw@));
                decode_text(trimmed)
            },
            None => return Err(UvtError::Underrun),
        };
        let s = match decoded {
            Ok(s) => s,
            Err(e) => return Err(e),
        };
        let pad = (next_alignment - (len % next_alignment)) % next_alignment;
        match self.skip(pad) {
            Ok(()) => Ok(s),
            Err(e) => Err(e),
        }
    }

    fn read_null_terminated_string(&mut self) -> (r: Result<String, UvtError>) {
        self.buf.read_null_terminated_string()
    }

    /// The encapsulation prologue (checked, then dropped), `sec: i32`,
    /// `nsec: u32`, `frame_id` aligned to 4; `seq` is `0`.
    fn read_header(&mut self) -> (r: Result<Header, UvtError>) {
        match self.read_prologue() {
            Ok(()) => {},
            Err(e) => return Err(e),
        }
        let sec = match self.buf.read_i32_le() {
            Ok(v) => v,
            Err(e) => return Err(e),
        };
        let nanosec = match self.buf.read_u32_le() {
            Ok(v) => v,
            Err(e) => return Err(e),
        };
        let frame_id = match self.read_lp_string_aligned(4) {
            Ok(v) => v,
            Err(e) => return Err(e),
        };
        Ok(Header { seq: 0, stamp: Time { sec, nanosec }, frame_id })
    }
}

} // verus!
