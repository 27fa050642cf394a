//! How a sender lays a point-cloud message out on each transport, and what
//! the decoders make of such bytes.
use vstd::prelude::*;
use vstd::utf8::{decode_utf8, valid_utf8};
use crate::deserialization::{
    padding, spec_byte_aligned, spec_lp_string, spec_lp_string_aligned, spec_take, spec_u32, trim_nul,
    u32_at, Encoding,
};
use crate::error::UvtError;
use crate::pointcloud::{
    datatype_of, spec_cloud_body, spec_data, spec_field_list, spec_point_field, spec_point_fields,
    spec_pointcloud, PointCloud2View, PointFieldView,
};
use crate::deserialization::{spec_header, spec_i32, spec_prologue};
use crate::pose::{HeaderView, Time};

verus! {

/// The four little-endian bytes of `v`.
pub open spec fn le32(v: u32) -> Seq<u8> {
    seq![
        (v % 0x100) as u8,
        (v / 0x100 % 0x100) as u8,
        (v / 0x1_0000 % 0x100) as u8,
        (v / 0x100_0000) as u8,
    ]
}

/// `n` zero bytes.
pub open spec fn zeros(n: nat) -> Seq<u8> {
    Seq::new(n, |i: int| 0u8)
}

/// A string as Bag writes it: its length, then its bytes.
pub open spec fn bag_string(s: Seq<u8>) -> Seq<u8> {
    le32(s.len() as u32) + s
}

/// A string as CDR writes it before a field of alignment `a`: its length
/// (counting the NUL), its bytes, a NUL, then zero padding.
pub open spec fn cdr_string(s: Seq<u8>, a: int) -> Seq<u8> {
    le32((s.len() + 1) as u32) + s + seq![0u8] + zeros(padding((s.len() + 1) as int, a) as nat)
}

/// A point field as Bag writes it.
pub open spec fn bag_point_field(name: Seq<u8>, offset: u32, code: u8, count: u32) -> Seq<u8> {
    bag_string(name) + le32(offset) + seq![code] + le32(count)
}

/// A point field as CDR writes it: the type byte is padded up to the
/// following `u32`.
pub open spec fn cdr_point_field(name: Seq<u8>, offset: u32, code: u8, count: u32) -> Seq<u8> {
    cdr_string(name, 4) + le32(offset) + seq![code] + zeros(3) + le32(count)
}

pub proof fn lemma_le32_value(v: u32)
    ensures
        u32_at(le32(v), 0) == v,
{
    let b = le32(v);
    assert(b[0] as int == v % 0x100);
    assert(b[1] as int == v / 0x100 % 0x100);
    assert(b[2] as int == v / 0x1_0000 % 0x100);
    assert(b[3] as int == v / 0x100_0000);
    assert((v % 0x100) + 0x100 * (v / 0x100 % 0x100) + 0x1_0000 * (v / 0x1_0000 % 0x100)
        + 0x100_0000 * (v / 0x100_0000) == v) by (nonlinear_arith);
}

/// A `u32` read where its four bytes were written.
pub proof fn lemma_read_le32(b: Seq<u8>, p: int, v: u32)
    requires
        0 <= p,
        p + 4 <= b.len(),
        b.subrange(p, p + 4) == le32(v),
    ensures
        spec_u32(b, p) == Ok::<(u32, int), UvtError>((v, p + 4)),
{
    lemma_le32_value(v);
    assert(b[p] == le32(v)[0]);
    assert(b[p + 1] == le32(v)[1]);
    assert(b[p + 2] == le32(v)[2]);
    assert(b[p + 3] == le32(v)[3]);
}


/// Bytes `i..j` of the window `p..` of `b` are bytes `p + i..p + j` of `b`.
proof fn lemma_window(b: Seq<u8>, p: int, w: Seq<u8>, i: int, j: int)
    requires
        0 <= p,
        p + w.len() <= b.len(),
        b.subrange(p, p + w.len()) == w,
        0 <= i <= j <= w.len(),
    ensures
        b.subrange(p + i, p + j) == w.subrange(i, j),
{
    assert forall|k: int| 0 <= k < j - i implies b.subrange(p + i, p + j)[k] == w.subrange(i, j)[k] by {
        assert(b.subrange(p, p + w.len())[i + k] == b[p + i + k]);
    }
    assert(b.subrange(p + i, p + j) =~= w.subrange(i, j));
}

/// A CDR string is read back as its text, and the cursor lands right after
/// its padding.
pub proof fn lemma_read_cdr_string(b: Seq<u8>, p: int, s: Seq<u8>, a: int)
    requires
        0 <= p,
        a > 0,
        s.len() + 1 <= u32::MAX,
        valid_utf8(s),
        p + cdr_string(s, a).len() <= b.len(),
        b.subrange(p, p + cdr_string(s, a).len()) == cdr_string(s, a),
    ensures
        spec_lp_string_aligned(Encoding::Mcap, b, p, a) == Ok::<(Seq<char>, int), UvtError>(
            (decode_utf8(s), p + cdr_string(s, a).len()),
        ),
{
    let w = cdr_string(s, a);
    let n: int = (s.len() + 1) as int;
    lemma_window(b, p, w, 0, 4);
    assert(w.subrange(0, 4) =~= le32(n as u32));
    lemma_read_le32(b, p, n as u32);
    lemma_window(b, p, w, 4, 4 + n);
    assert(w.subrange(4, 4 + n) =~= s + seq![0u8]);
    assert(trim_nul(s + seq![0u8]) =~= s);
    assert(w.len() == 4 + n + padding(n, a));
}

/// A Bag string is read back as its text, and the cursor lands right after
/// it.
pub proof fn lemma_read_bag_string(b: Seq<u8>, p: int, s: Seq<u8>)
    requires
        0 <= p,
        s.len() <= u32::MAX,
        valid_utf8(s),
        p + bag_string(s).len() <= b.len(),
        b.subrange(p, p + bag_string(s).len()) == bag_string(s),
    ensures
        spec_lp_string(b, p) == Ok::<(Seq<char>, int), UvtError>((decode_utf8(s), p + bag_string(s).len())),
{
    let w = bag_string(s);
    lemma_window(b, p, w, 0, 4);
    assert(w.subrange(0, 4) =~= le32(s.len() as u32));
    lemma_read_le32(b, p, s.len() as u32);
    lemma_window(b, p, w, 4, w.len() as int);
    assert(w.subrange(4, w.len() as int) =~= s);
}

/// The view of a point field written with these values.
pub open spec fn field_view(name: Seq<u8>, offset: u32, code: u8, count: u32) -> PointFieldView {
    PointFieldView { name: decode_utf8(name), offset, datatype: datatype_of(code)->Some_0, count }
}

/// CDR alignment of point fields: whatever the length of its name, a point
/// field written by a CDR sender is read back whole (name, offset, type,
/// count), and the cursor ends exactly where the field ends, so the next
/// field is read in step.
pub proof fn lemma_cdr_point_field(name: Seq<u8>, offset: u32, code: u8, count: u32, rest: Seq<u8>)
    requires
        valid_utf8(name),
        name.len() + 1 <= u32::MAX,
        datatype_of(code) is Some,
    ensures
        spec_point_field(Encoding::Mcap, cdr_point_field(name, offset, code, count) + rest, 0)
            == Ok::<(PointFieldView, int), UvtError>(
            (field_view(name, offset, code, count), cdr_point_field(name, offset, code, count).len() as int),
        ),
{
    let w = cdr_point_field(name, offset, code, count);
    assert((w + rest).subrange(0, w.len() as int) =~= w);
    lemma_read_cdr_point_field(w + rest, 0, name, offset, code, count);
}

proof fn lemma_read_cdr_point_field(b: Seq<u8>, p: int, name: Seq<u8>, offset: u32, code: u8, count: u32)
    requires
        valid_utf8(name),
        name.len() + 1 <= u32::MAX,
        datatype_of(code) is Some,
        0 <= p,
        p + cdr_point_field(name, offset, code, count).len() <= b.len(),
        b.subrange(p, p + cdr_point_field(name, offset, code, count).len()) == cdr_point_field(
            name,
            offset,
            code,
            count,
        ),
    ensures
        spec_point_field(Encoding::Mcap, b, p) == Ok::<(PointFieldView, int), UvtError>(
            (field_view(name, offset, code, count), p + cdr_point_field(name, offset, code, count).len()),
        ),
{
    let w = cdr_point_field(name, offset, code, count);
    let sl = cdr_string(name, 4).len() as int;
    lemma_window(b, p, w, 0, sl);
    assert(w.subrange(0, sl) =~= cdr_string(name, 4));
    lemma_read_cdr_string(b, p, name, 4);
    lemma_window(b, p, w, sl, sl + 4);
    assert(w.subrange(sl, sl + 4) =~= le32(offset));
    lemma_read_le32(b, p + sl, offset);
    lemma_window(b, p, w, sl + 4, sl + 5);
    assert(w.subrange(sl + 4, sl + 5)[0] == code);
    assert(b[p + sl + 4] == code);
    lemma_window(b, p, w, sl + 8, sl + 12);
    assert(w.subrange(sl + 8, sl + 12) =~= le32(count));
    lemma_read_le32(b, p + sl + 8, count);
}

/// A point field written by a Bag sender is read back whole.
proof fn lemma_read_bag_point_field(b: Seq<u8>, p: int, name: Seq<u8>, offset: u32, code: u8, count: u32)
    requires
        valid_utf8(name),
        name.len() <= u32::MAX,
        datatype_of(code) is Some,
        0 <= p,
        p + bag_point_field(name, offset, code, count).len() <= b.len(),
        b.subrange(p, p + bag_point_field(name, offset, code, count).len()) == bag_point_field(
            name,
            offset,
            code,
            count,
        ),
    ensures
        spec_point_field(Encoding::Bag, b, p) == Ok::<(PointFieldView, int), UvtError>(
            (field_view(name, offset, code, count), p + bag_point_field(name, offset, code, count).len()),
        ),
{
    let w = bag_point_field(name, offset, code, count);
    let sl = bag_string(name).len() as int;
    lemma_window(b, p, w, 0, sl);
    assert(w.subrange(0, sl) =~= bag_string(name));
    lemma_read_bag_string(b, p, name);
    lemma_window(b, p, w, sl, sl + 4);
    assert(w.subrange(sl, sl + 4) =~= le32(offset));
    lemma_read_le32(b, p + sl, offset);
    lemma_window(b, p, w, sl + 4, sl + 5);
    assert(w.subrange(sl + 4, sl + 5)[0] == code);
    assert(b[p + sl + 4] == code);
    lemma_window(b, p, w, sl + 5, sl + 9);
    assert(w.subrange(sl + 5, sl + 9) =~= le32(count));
    lemma_read_le32(b, p + sl + 5, count);
}


/// Splitting a window `x + y` at `p` into a window `x` at `p` and a window
/// `y` right after it.
proof fn lemma_split(b: Seq<u8>, p: int, x: Seq<u8>, y: Seq<u8>)
    requires
        0 <= p,
        p + (x + y).len() <= b.len(),
        b.subrange(p, p + (x + y).len()) == x + y,
    ensures
        b.subrange(p, p + x.len()) == x,
        b.subrange(p + x.len(), p + x.len() + y.len()) == y,
{
    lemma_window(b, p, x + y, 0, x.len() as int);
    assert((x + y).subrange(0, x.len() as int) =~= x);
    lemma_window(b, p, x + y, x.len() as int, (x + y).len() as int);
    assert((x + y).subrange(x.len() as int, (x + y).len() as int) =~= y);
}

/// One point field as a sender describes it: name bytes, offset, type code,
/// count.
pub struct FieldWire {
    pub name: Seq<u8>,
    pub offset: u32,
    pub code: u8,
    pub count: u32,
}

/// A point-cloud message as a sender describes it, strings as UTF-8 bytes.
pub struct CloudWire {
    pub seq: u32,
    pub stamp: Time,
    pub frame_id: Seq<u8>,
    pub height: u32,
    pub width: u32,
    pub fields: Seq<FieldWire>,
    pub is_bigendian: bool,
    pub point_step: u32,
    pub row_step: u32,
    pub data: Seq<u8>,
    pub is_dense: bool,
}

/// The message values that a sender can write: UTF-8 strings and lengths
/// that fit the `u32` prefixes, known type codes.
pub open spec fn writable(m: CloudWire) -> bool {
    &&& valid_utf8(m.frame_id)
    &&& m.frame_id.len() + 1 <= u32::MAX
    &&& m.fields.len() <= u32::MAX
    &&& m.data.len() <= u32::MAX
    &&& forall|i: int|
        0 <= i < m.fields.len() ==> {
            &&& valid_utf8(#[trigger] m.fields[i].name)
            &&& m.fields[i].name.len() + 1 <= u32::MAX
            &&& datatype_of(m.fields[i].code) is Some
        }
}

pub open spec fn point_field_bytes(enc: Encoding, f: FieldWire) -> Seq<u8> {
    match enc {
        Encoding::Bag => bag_point_field(f.name, f.offset, f.code, f.count),
        Encoding::Mcap => cdr_point_field(f.name, f.offset, f.code, f.count),
    }
}

pub open spec fn point_fields_bytes(enc: Encoding, fs: Seq<FieldWire>) -> Seq<u8>
    decreases fs.len(),
{
    if fs.len() == 0 {
        Seq::empty()
    } else {
        point_fields_bytes(enc, fs.drop_last()) + point_field_bytes(enc, fs.last())
    }
}

/// A flag byte; CDR pads it up to the next `u32`.
pub open spec fn flag_bytes(enc: Encoding, v: bool) -> Seq<u8> {
    let b: u8 = if v {
        1
    } else {
        0
    };
    match enc {
        Encoding::Bag => seq![b],
        Encoding::Mcap => seq![b] + zeros(3),
    }
}

pub open spec fn header_bytes(enc: Encoding, m: CloudWire) -> Seq<u8> {
    match enc {
        Encoding::Bag => le32(m.seq) + le32(m.stamp.sec as u32) + le32(m.stamp.nanosec) + bag_string(
            m.frame_id,
        ),
        Encoding::Mcap => seq![0u8, 1u8, 0u8, 0u8] + le32(m.stamp.sec as u32) + le32(m.stamp.nanosec)
            + cdr_string(m.frame_id, 4),
    }
}

pub open spec fn body_bytes(enc: Encoding, m: CloudWire) -> Seq<u8> {
    flag_bytes(enc, m.is_bigendian) + le32(m.point_step) + le32(m.row_step) + le32(
        m.data.len() as u32,
    ) + m.data + flag_bytes(enc, m.is_dense)
}

/// The whole message as the transport's sender writes it.
pub open spec fn cloud_bytes(enc: Encoding, m: CloudWire) -> Seq<u8> {
    header_bytes(enc, m) + (le32(m.height) + le32(m.width) + le32(m.fields.len() as u32))
        + point_fields_bytes(enc, m.fields) + body_bytes(enc, m)
}

pub open spec fn fields_view(fs: Seq<FieldWire>) -> Seq<PointFieldView> {
    fs.map_values(|f: FieldWire| field_view(f.name, f.offset, f.code, f.count))
}

/// What the decoders should make of the message.
pub open spec fn cloud_view(m: CloudWire) -> PointCloud2View {
    PointCloud2View {
        header: HeaderView { seq: m.seq, stamp: m.stamp, frame_id: decode_utf8(m.frame_id) },
        height: m.height,
        width: m.width,
        fields: fields_view(m.fields),
        is_bigendian: m.is_bigendian,
        point_step: m.point_step,
        row_step: m.row_step,
        data: m.data,
        is_dense: m.is_dense,
    }
}

proof fn lemma_read_point_fields(enc: Encoding, b: Seq<u8>, p: int, fs: Seq<FieldWire>)
    requires
        0 <= p,
        p + point_fields_bytes(enc, fs).len() <= b.len(),
        b.subrange(p, p + point_fields_bytes(enc, fs).len()) == point_fields_bytes(enc, fs),
        forall|i: int|
            0 <= i < fs.len() ==> {
                &&& valid_utf8(#[trigger] fs[i].name)
                &&& fs[i].name.len() + 1 <= u32::MAX
                &&& datatype_of(fs[i].code) is Some
            },
    ensures
        spec_point_fields(enc, b, p, fs.len()) == Ok::<(Seq<PointFieldView>, int), UvtError>(
            (fields_view(fs), p + point_fields_bytes(enc, fs).len()),
        ),
    decreases fs.len(),
{
    if fs.len() > 0 {
        let init = fs.drop_last();
        let f = fs.last();
        lemma_split(b, p, point_fields_bytes(enc, init), point_field_bytes(enc, f));
        assert forall|i: int| 0 <= i < init.len() implies {
            &&& valid_utf8(#[trigger] init[i].name)
            &&& init[i].name.len() + 1 <= u32::MAX
            &&& datatype_of(init[i].code) is Some
        } by {
            assert(init[i] == fs[i]);
        }
        lemma_read_point_fields(enc, b, p, init);
        assert(valid_utf8(fs[fs.len() - 1].name));
        let q = p + point_fields_bytes(enc, init).len();
        match enc {
            Encoding::Bag => lemma_read_bag_point_field(b, q, f.name, f.offset, f.code, f.count),
            Encoding::Mcap => lemma_read_cdr_point_field(b, q, f.name, f.offset, f.code, f.count),
        }
        assert(fields_view(fs) =~= fields_view(init).push(field_view(f.name, f.offset, f.code, f.count)));
    } else {
        assert(fields_view(fs) =~= Seq::<PointFieldView>::empty());
    }
}

proof fn lemma_read_flag(enc: Encoding, b: Seq<u8>, p: int, v: bool)
    requires
        0 <= p,
        p + flag_bytes(enc, v).len() <= b.len(),
        b.subrange(p, p + flag_bytes(enc, v).len()) == flag_bytes(enc, v),
    ensures
        spec_byte_aligned(enc, b, p, 4) matches Ok((x, q)) && (x == 1) == v && q == p + flag_bytes(
            enc,
            v,
        ).len(),
{
    assert(b[p] == b.subrange(p, p + flag_bytes(enc, v).len())[0]);
}

proof fn lemma_i32_round_trip(v: i32)
    ensures
        (v as u32) as i32 == v,
{
    assert((v as u32) as i32 == v) by (bit_vector);
}

proof fn lemma_read_header_bag(b: Seq<u8>, p: int, m: CloudWire)
    requires
        0 <= p,
        valid_utf8(m.frame_id),
        m.frame_id.len() + 1 <= u32::MAX,
        p + header_bytes(Encoding::Bag, m).len() <= b.len(),
        b.subrange(p, p + header_bytes(Encoding::Bag, m).len()) == header_bytes(Encoding::Bag, m),
    ensures
        spec_header(Encoding::Bag, b, p) == Ok::<(HeaderView, int), UvtError>(
            (cloud_view(m).header, p + header_bytes(Encoding::Bag, m).len()),
        ),
{
    let sec = le32(m.stamp.sec as u32);
    let nsec = le32(m.stamp.nanosec);
    let fr = bag_string(m.frame_id);
    lemma_split(b, p, le32(m.seq) + sec + nsec, fr);
    lemma_split(b, p, le32(m.seq) + sec, nsec);
    lemma_split(b, p, le32(m.seq), sec);
    lemma_read_le32(b, p, m.seq);
    lemma_read_le32(b, p + 4, m.stamp.sec as u32);
    lemma_read_le32(b, p + 8, m.stamp.nanosec);
    lemma_read_bag_string(b, p + 12, m.frame_id);
    lemma_i32_round_trip(m.stamp.sec);
    assert(spec_i32(b, p + 4) == Ok::<(i32, int), UvtError>((m.stamp.sec, p + 8)));
}

proof fn lemma_read_header_mcap(b: Seq<u8>, p: int, m: CloudWire)
    requires
        0 <= p,
        m.seq == 0,
        valid_utf8(m.frame_id),
        m.frame_id.len() + 1 <= u32::MAX,
        p + header_bytes(Encoding::Mcap, m).len() <= b.len(),
        b.subrange(p, p + header_bytes(Encoding::Mcap, m).len()) == header_bytes(Encoding::Mcap, m),
    ensures
        spec_header(Encoding::Mcap, b, p) == Ok::<(HeaderView, int), UvtError>(
            (cloud_view(m).header, p + header_bytes(Encoding::Mcap, m).len()),
        ),
{
    let sec = le32(m.stamp.sec as u32);
    let nsec = le32(m.stamp.nanosec);
    let pro = seq![0u8, 1u8, 0u8, 0u8];
    let fr = cdr_string(m.frame_id, 4);
    lemma_split(b, p, pro + sec + nsec, fr);
    lemma_split(b, p, pro + sec, nsec);
    lemma_split(b, p, pro, sec);
    assert(b.subrange(p, p + 4)[1] == 1u8);
    assert(spec_prologue(b, p) == Ok::<int, UvtError>(p + 4));
    lemma_read_le32(b, p + 4, m.stamp.sec as u32);
    lemma_read_le32(b, p + 8, m.stamp.nanosec);
    lemma_read_cdr_string(b, p + 12, m.frame_id, 4);
    lemma_i32_round_trip(m.stamp.sec);
    assert(spec_i32(b, p + 4) == Ok::<(i32, int), UvtError>((m.stamp.sec, p + 8)));
}

proof fn lemma_read_body(enc: Encoding, b: Seq<u8>, p: int, m: CloudWire)
    requires
        0 <= p,
        m.data.len() <= u32::MAX,
        p + body_bytes(enc, m).len() <= b.len(),
        b.subrange(p, p + body_bytes(enc, m).len()) == body_bytes(enc, m),
    ensures
        spec_cloud_body(enc, b, p, cloud_view(m).header, m.height, m.width, fields_view(m.fields))
            == Ok::<(PointCloud2View, int), UvtError>((cloud_view(m), p + body_bytes(enc, m).len())),
{
    let big = flag_bytes(enc, m.is_bigendian);
    let dense = flag_bytes(enc, m.is_dense);
    let dl = le32(m.data.len() as u32);
    lemma_split(b, p, big + le32(m.point_step) + le32(m.row_step) + dl + m.data, dense);
    lemma_split(b, p, big + le32(m.point_step) + le32(m.row_step) + dl, m.data);
    lemma_split(b, p, big + le32(m.point_step) + le32(m.row_step), dl);
    lemma_split(b, p, big + le32(m.point_step), le32(m.row_step));
    lemma_split(b, p, big, le32(m.point_step));
    lemma_read_flag(enc, b, p, m.is_bigendian);
    let pos4 = p + big.len();
    lemma_read_le32(b, pos4, m.point_step);
    lemma_read_le32(b, pos4 + 4, m.row_step);
    lemma_read_le32(b, pos4 + 8, m.data.len() as u32);
    let pos5 = pos4 + 12;
    assert(spec_take(b, pos5, m.data.len() as int) == Ok::<(Seq<u8>, int), UvtError>(
        (m.data, pos5 + m.data.len()),
    ));
    assert(spec_data(b, pos4 + 8) == Ok::<(Seq<u8>, int), UvtError>((m.data, pos5 + m.data.len())));
    lemma_read_flag(enc, b, pos5 + m.data.len(), m.is_dense);
}

/// Both decoders read back a point-cloud message from the bytes that the
/// transport's sender writes for it; Bag is the carrier of `seq`, so an
/// MCAP message is taken with `seq == 0`.
#[verifier::rlimit(80)]
pub proof fn lemma_read_cloud(enc: Encoding, m: CloudWire)
    requires
        writable(m),
        enc == Encoding::Mcap ==> m.seq == 0,
    ensures
        spec_pointcloud(enc, cloud_bytes(enc, m), 0) == Ok::<(PointCloud2View, int), UvtError>(
            (cloud_view(m), cloud_bytes(enc, m).len() as int),
        ),
{
    let b = cloud_bytes(enc, m);
    let h = header_bytes(enc, m);
    let dims = le32(m.height) + le32(m.width) + le32(m.fields.len() as u32);
    let fb = point_fields_bytes(enc, m.fields);
    let body = body_bytes(enc, m);
    let pos1 = h.len() as int;
    let pos2 = pos1 + 12;
    let pos3 = pos2 + fb.len();
    lemma_cloud_parts(enc, m);
    lemma_cloud_front(enc, b, m, h, dims);
    lemma_cloud_dims(b, pos1, m);
    lemma_read_point_fields(enc, b, pos2, m.fields);
    lemma_read_body(enc, b, pos3, m);
}

proof fn lemma_cloud_parts(enc: Encoding, m: CloudWire)
    ensures
        ({
            let b = cloud_bytes(enc, m);
            let h = header_bytes(enc, m);
            let dims = le32(m.height) + le32(m.width) + le32(m.fields.len() as u32);
            let fb = point_fields_bytes(enc, m.fields);
            let body = body_bytes(enc, m);
            &&& b.len() == h.len() + 12 + fb.len() + body.len()
            &&& b.subrange(0, h.len() as int) == h
            &&& b.subrange(h.len() as int, (h.len() + 12) as int) == dims
            &&& b.subrange((h.len() + 12) as int, (h.len() + 12 + fb.len()) as int) == fb
            &&& b.subrange((h.len() + 12 + fb.len()) as int, b.len() as int) == body
        }),
{
    let b = cloud_bytes(enc, m);
    let h = header_bytes(enc, m);
    let dims = le32(m.height) + le32(m.width) + le32(m.fields.len() as u32);
    let fb = point_fields_bytes(enc, m.fields);
    let body = body_bytes(enc, m);
    assert(b.subrange(0, b.len() as int) =~= b);
    lemma_split(b, 0, h + dims + fb, body);
    lemma_split(b, 0, h + dims, fb);
    lemma_split(b, 0, h, dims);
}

proof fn lemma_cloud_front(enc: Encoding, b: Seq<u8>, m: CloudWire, h: Seq<u8>, dims: Seq<u8>)
    requires
        writable(m),
        enc == Encoding::Mcap ==> m.seq == 0,
        h == header_bytes(enc, m),
        h.len() <= b.len(),
        b.subrange(0, h.len() as int) == h,
    ensures
        spec_header(enc, b, 0) == Ok::<(HeaderView, int), UvtError>((cloud_view(m).header, h.len() as int)),
{
    match enc {
        Encoding::Bag => lemma_read_header_bag(b, 0, m),
        Encoding::Mcap => lemma_read_header_mcap(b, 0, m),
    }
}

proof fn lemma_cloud_dims(b: Seq<u8>, pos1: int, m: CloudWire)
    requires
        0 <= pos1,
        pos1 + 12 <= b.len(),
        b.subrange(pos1, pos1 + 12) == le32(m.height) + le32(m.width) + le32(m.fields.len() as u32),
    ensures
        spec_u32(b, pos1) == Ok::<(u32, int), UvtError>((m.height, pos1 + 4)),
        spec_u32(b, pos1 + 4) == Ok::<(u32, int), UvtError>((m.width, pos1 + 8)),
        spec_u32(b, pos1 + 8) == Ok::<(u32, int), UvtError>((m.fields.len() as u32, pos1 + 12)),
{
    lemma_split(b, pos1, le32(m.height) + le32(m.width), le32(m.fields.len() as u32));
    lemma_split(b, pos1, le32(m.height), le32(m.width));
    lemma_read_le32(b, pos1, m.height);
    lemma_read_le32(b, pos1 + 4, m.width);
    lemma_read_le32(b, pos1 + 8, m.fields.len() as u32);
}

/// Backend equivalence: a point-cloud message written by a Bag sender and by
/// an MCAP sender is decoded to the same value by the two decoders. MCAP
/// carries no sequence number, so the message is one with `seq == 0`.
pub proof fn lemma_backend_equivalence(m: CloudWire)
    requires
        writable(m),
        m.seq == 0,
    ensures
        spec_pointcloud(Encoding::Bag, cloud_bytes(Encoding::Bag, m), 0) is Ok,
        spec_pointcloud(Encoding::Mcap, cloud_bytes(Encoding::Mcap, m), 0) is Ok,
        spec_pointcloud(Encoding::Bag, cloud_bytes(Encoding::Bag, m), 0)->Ok_0.0 == spec_pointcloud(
            Encoding::Mcap,
            cloud_bytes(Encoding::Mcap, m),
            0,
        )->Ok_0.0,
{
    lemma_read_cloud(Encoding::Bag, m);
    lemma_read_cloud(Encoding::Mcap, m);
}

} // verus!
