//! The Bag transport: fields follow each other with no alignment, strings
//! are plain length-prefixed bytes.
use vstd::prelude::*;
use crate::deserialization::{BufferReader, Encoding, MessageDataBuffer};
use crate::error::UvtError;
use crate::pose::{Header, Time};

verus! {

/// A decoder over one Bag message payload.
pub struct BagDeserializer {
    buf: MessageDataBuffer,
}

impl BagDeserializer {
    /// A decoder at the start of `data`.
    pub fn new(data: Vec<u8>) -> (r: Self)
        ensures
            r.bytes() == data@,
            r.pos() == 0,
            r.wf(),
    {
        Self { buf: MessageDataBuffer::new(data) }
    }
}

impl BufferReader for BagDeserializer {
    open spec fn encoding() -> Encoding {
        Encoding::Bag
    }

    closed spec fn bytes(&self) -> Seq<u8> {
        self.buf.bytes()
    }

    closed spec fn pos(&self) -> int {
        self.buf.pos()
    }

    closed spec fn wf(&self) -> bool {
        self.buf.wf()
    }

    proof fn lemma_wf_bounds(&self) {
    }

    fn read_u32_le(&mut self) -> (r: Result<u32, UvtError>) {
        self.buf.read_u32_le()
    }

    fn read_f64_bits(&mut self) -> (r: Result<u64, UvtError>) {
        self.buf.read_f64_bits()
    }

    fn read_byte(&mut self) -> (r: Result<u8, UvtError>) {
        self.buf.read_byte()
    }

    /// No alignment: the same as `read_byte`.
    fn read_byte_aligned(&mut self, next_alignment: usize) -> (r: Result<u8, UvtError>) {
        self.buf.read_byte()
    }

    fn take(&mut self, n: usize) -> (r: Result<Vec<u8>, UvtError>) {
        self.buf.take(n)
    }

    fn read_lp_string(&mut self) -> (r: Result<String, UvtError>) {
        self.buf.read_lp_string()
    }

    /// No alignment: the same as `read_lp_string`.
    fn read_lp_string_aligned(&mut self, next_alignment: usize) -> (r: Result<String, UvtError>) {
        self.buf.read_lp_string()
    }

    fn read_null_terminated_string(&mut self) -> (r: Result<String, UvtError>) {
        self.buf.read_null_terminated_string()
    }

    /// `seq: u32`, `sec: i32`, `nsec: u32`, `frame_id`.
    fn read_header(&mut self) -> (r: Result<Header, UvtError>) {
        let seq = match self.buf.read_u32_le() {
            Ok(v) => v,
            Err(e) => return Err(e),
        };
        let sec = match self.buf.read_i32_le() {
            Ok(v) => v,
            Err(e) => return Err(e),
        };
        let nanosec = match self.buf.read_u32_le() {
            Ok(v) => v,
            Err(e) => return Err(e),
        };
        let frame_id = match self.buf.read_lp_string() {
            Ok(v) => v,
            Err(e) => return Err(e),
        };
        Ok(Header { seq, stamp: Time { sec, nanosec }, frame_id })
    }
}

} // verus!
