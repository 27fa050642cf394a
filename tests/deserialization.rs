use uvt::bag::BagDeserializer;
use uvt::deserialization::{decode_text, BufferReader, MessageDataBuffer};
use uvt::error::UvtError;
use uvt::mcap::McapDeserializer;

#[test]
fn buffer_reads_little_endian_values() {
    let mut b = MessageDataBuffer::new(vec![
        0x01, 0x02, 0x03, 0x04, 0xfe, 0xff, 0xff, 0xff, 0x34, 0x12, 0xff, 0xff, 0x07,
    ]);
    assert_eq!(b.len(), 13);
    assert_eq!(b.read_u32_le(), Ok(0x0403_0201));
    assert_eq!(b.read_i32_le(), Ok(-2));
    assert_eq!(b.read_u16_le(), Ok(0x1234));
    assert_eq!(b.read_i16_le(), Ok(-1));
    assert_eq!(b.n_remaining(), 1);
    assert_eq!(b.read_byte(), Ok(7));
    assert_eq!(b.read_byte(), Err(UvtError::Underrun));
}

#[test]
fn buffer_reads_f64_bits() {
    let mut b = MessageDataBuffer::new(1.5f64.to_le_bytes().to_vec());
    assert_eq!(b.read_f64_bits(), Ok(1.5f64.to_bits()));
    assert_eq!(b.read_f64_bits(), Err(UvtError::Underrun));
}

#[test]
fn buffer_underrun_leaves_cursor() {
    let mut b = MessageDataBuffer::new(vec![1, 2, 3]);
    assert_eq!(b.read_u32_le(), Err(UvtError::Underrun));
    assert_eq!(b.n_remaining(), 3);
    assert_eq!(b.slice(2), Some(&[1u8, 2][..]));
    assert_eq!(b.slice(2), None);
    assert_eq!(b.n_remaining(), 1);
}

#[test]
fn buffer_seek_does_not_move() {
    let b = MessageDataBuffer::new(vec![9, 8]);
    assert_eq!(b.seek(1), Some(8));
    assert_eq!(b.seek(2), None);
    assert_eq!(b.n_remaining(), 2);
}

#[test]
fn buffer_reads_lp_string() {
    let mut data = 3u32.to_le_bytes().to_vec();
    data.extend_from_slice(b"abcX");
    let mut b = MessageDataBuffer::new(data);
    assert_eq!(b.read_lp_string(), Ok(String::from("abc")));
    assert_eq!(b.read_byte(), Ok(b'X'));
}

#[test]
fn buffer_lp_string_too_long() {
    let mut data = 9u32.to_le_bytes().to_vec();
    data.extend_from_slice(b"abc");
    let mut b = MessageDataBuffer::new(data);
    assert_eq!(b.read_lp_string(), Err(UvtError::Underrun));
}

#[test]
fn buffer_lp_string_invalid_utf8() {
    let mut data = 2u32.to_le_bytes().to_vec();
    data.extend_from_slice(&[0xc3, 0x28]);
    let mut b = MessageDataBuffer::new(data);
    assert_eq!(b.read_lp_string(), Err(UvtError::InvalidUtf8));
}

#[test]
fn buffer_reads_nul_terminated_string() {
    let mut data = 99u32.to_le_bytes().to_vec();
    data.extend_from_slice(b"h\xc3\xa9\0rest");
    let mut b = MessageDataBuffer::new(data);
    assert_eq!(b.read_null_terminated_string(), Ok(String::from("hé")));
    assert_eq!(b.read_byte(), Ok(b'r'));
}

#[test]
fn buffer_nul_terminated_string_without_nul() {
    let mut data = 1u32.to_le_bytes().to_vec();
    data.extend_from_slice(b"abc");
    let mut b = MessageDataBuffer::new(data);
    assert_eq!(b.read_null_terminated_string(), Err(UvtError::Underrun));
}

#[test]
fn decode_text_checks_utf8() {
    assert_eq!(decode_text(b"caf\xc3\xa9"), Ok(String::from("café")));
    assert_eq!(decode_text(&[0xff]), Err(UvtError::InvalidUtf8));
}

#[test]
fn take_copies_bytes() {
    let mut b = MessageDataBuffer::new(vec![1, 2, 3, 4]);
    assert_eq!(b.take(3), Ok(vec![1, 2, 3]));
    assert_eq!(b.take(3), Err(UvtError::Underrun));
}

fn bag_header(seq: u32, sec: i32, nsec: u32, frame: &str) -> Vec<u8> {
    let mut v = seq.to_le_bytes().to_vec();
    v.extend_from_slice(&sec.to_le_bytes());
    v.extend_from_slice(&nsec.to_le_bytes());
    v.extend_from_slice(&(frame.len() as u32).to_le_bytes());
    v.extend_from_slice(frame.as_bytes());
    v
}

#[test]
fn bag_header_carries_seq() {
    let mut d = BagDeserializer::new(bag_header(7, -3, 42, "map"));
    let h = d.read_header().unwrap();
    assert_eq!(h.seq, 7);
    assert_eq!(h.stamp.sec, -3);
    assert_eq!(h.stamp.nanosec, 42);
    assert_eq!(h.frame_id, "map");
}

#[test]
fn bag_aligned_reads_ignore_alignment() {
    let mut data = vec![5u8];
    data.extend_from_slice(&2u32.to_le_bytes());
    data.extend_from_slice(b"ab");
    data.push(9);
    let mut d = BagDeserializer::new(data);
    assert_eq!(d.read_byte_aligned(4), Ok(5));
    assert_eq!(d.read_lp_string_aligned(8), Ok(String::from("ab")));
    assert_eq!(d.read_byte(), Ok(9));
}

fn mcap_header(sec: i32, nsec: u32, frame: &str) -> Vec<u8> {
    let mut v = vec![0u8, 1, 0, 0];
    v.extend_from_slice(&sec.to_le_bytes());
    v.extend_from_slice(&nsec.to_le_bytes());
    let n = frame.len() + 1;
    v.extend_from_slice(&(n as u32).to_le_bytes());
    v.extend_from_slice(frame.as_bytes());
    v.push(0);
    while v.len() % 4 != 0 {
        v.push(0);
    }
    v
}

#[test]
fn mcap_header_reports_seq_zero() {
    let mut data = mcap_header(12, 34, "odom");
    data.push(0xaa);
    let mut d = McapDeserializer::new(data);
    let h = d.read_header().unwrap();
    assert_eq!(h.seq, 0);
    assert_eq!(h.stamp.sec, 12);
    assert_eq!(h.stamp.nanosec, 34);
    assert_eq!(h.frame_id, "odom");
    assert_eq!(d.read_byte(), Ok(0xaa));
}

#[test]
fn mcap_header_refuses_big_endian() {
    let mut data = mcap_header(1, 2, "x");
    data[1] = 0;
    let mut d = McapDeserializer::new(data);
    assert_eq!(d.read_header(), Err(UvtError::Invalid));
}

#[test]
fn mcap_header_short_prologue() {
    let mut d = McapDeserializer::new(vec![0, 1]);
    assert_eq!(d.read_header(), Err(UvtError::Underrun));
}

#[test]
fn mcap_aligned_byte_skips_padding() {
    let mut d = McapDeserializer::new(vec![1, 0, 0, 0, 2, 0, 3, 0, 0, 0, 4, 0]);
    assert_eq!(d.read_byte_aligned(4), Ok(1));
    assert_eq!(d.read_byte_aligned(2), Ok(2));
    assert_eq!(d.read_byte_aligned(4), Ok(3));
    assert_eq!(d.read_byte_aligned(4), Err(UvtError::Underrun));
}

#[test]
fn mcap_aligned_string_trims_one_nul() {
    let mut data = 4u32.to_le_bytes().to_vec();
    data.extend_from_slice(b"ab\0\0");
    data.push(7);
    let mut d = McapDeserializer::new(data);
    assert_eq!(d.read_lp_string_aligned(4), Ok(String::from("ab\0")));
    assert_eq!(d.read_byte(), Ok(7));
}

#[test]
fn hex_dump_rows() {
    let mut data: Vec<u8> = (0x41u8..0x51).collect();
    data.extend_from_slice(&[0x00, 0x7f, 0x20]);
    let b = MessageDataBuffer::new(data);
    let text = String::from_utf8(b.hex_dump()).unwrap();
    let expected = "00000000: 41 42 43 44 45 46 47 48 49 4a 4b 4c 4d 4e 4f 50  |ABCDEFGHIJKLMNOP|\n\
                    00000010: 00 7f 20                                         |.. |\n";
    assert_eq!(text, expected);
}

#[test]
fn hex_dump_of_empty_buffer() {
    assert!(MessageDataBuffer::new(vec![]).hex_dump().is_empty());
}

#[test]
fn failed_reads_keep_the_cursor() {
    let mut b = MessageDataBuffer::new(vec![1, 2, 3]);
    assert_eq!(b.read_f64_bits(), Err(UvtError::Underrun));
    assert_eq!(b.read_u32_le(), Err(UvtError::Underrun));
    assert_eq!(b.read_i32_le(), Err(UvtError::Underrun));
    assert_eq!(b.n_remaining(), 3);
    assert_eq!(b.read_u16_le(), Ok(0x0201));
    assert_eq!(b.read_i16_le(), Err(UvtError::Underrun));
    assert_eq!(b.n_remaining(), 1);
    assert_eq!(b.read_byte(), Ok(3));
    assert_eq!(b.read_byte(), Err(UvtError::Underrun));
    assert_eq!(b.n_remaining(), 0);
}

#[test]
fn buffer_reads_f32_bits() {
    let mut b = MessageDataBuffer::new((-0.75f32).to_le_bytes().to_vec());
    assert_eq!(b.read_f32_bits(), Ok((-0.75f32).to_bits()));
    assert_eq!(b.read_f32_bits(), Err(UvtError::Underrun));
}

#[test]
fn mcap_string_missing_padding_underruns() {
    let mut data = 1u32.to_le_bytes().to_vec();
    data.extend_from_slice(b"ab");
    let mut d = McapDeserializer::new(data);
    assert_eq!(d.read_lp_string_aligned(4), Err(UvtError::Underrun));
}
