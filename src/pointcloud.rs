//! Dense point-cloud messages: a runtime schema of point fields and the raw
//! point records it describes.
use vstd::prelude::*;
use vstd::string::StrSliceExecFns;
use crate::deserialization::{
    stepped, spec_byte_aligned, spec_header, spec_lp_string_aligned, spec_take, spec_u32, u16_at, u32_at,
    u64_at, BufferReader, Encoding,
};
use crate::bag::BagDeserializer;
use crate::error::UvtError;
use crate::mcap::McapDeserializer;
use crate::pose::{Header, HeaderView};

verus! {

/// The scalar type of a point field. Its wire code (`INT8 = 1` through
/// `FLOAT64 = 8`) is given by `code` and read by `from_code`.
#[derive(Debug, Clone, Copy, PartialEq, Eq, Structural)]
pub enum DataType {
    INT8,
    UINT8,
    INT16,
    UINT16,
    INT32,
    UINT32,
    FLOAT32,
    FLOAT64,
}

/// The type a wire code names, if any.
pub open spec fn datatype_of(code: u8) -> Option<DataType> {
    if code == 1 {
        Some(DataType::INT8)
    } else if code == 2 {
        Some(DataType::UINT8)
    } else if code == 3 {
        Some(DataType::INT16)
    } else if code == 4 {
        Some(DataType::UINT16)
    } else if code == 5 {
        Some(DataType::INT32)
    } else if code == 6 {
        Some(DataType::UINT32)
    } else if code == 7 {
        Some(DataType::FLOAT32)
    } else if code == 8 {
        Some(DataType::FLOAT64)
    } else {
        None
    }
}

/// Size in bytes of one scalar of type `t`.
pub open spec fn size_of_type(t: DataType) -> u32 {
    match t {
        DataType::INT8 | DataType::UINT8 => 1,
        DataType::INT16 | DataType::UINT16 => 2,
        DataType::INT32 | DataType::UINT32 | DataType::FLOAT32 => 4,
        DataType::FLOAT64 => 8,
    }
}

impl DataType {
    /// The type of a wire code; codes outside `1..=8` are refused.
    pub fn from_code(code: u8) -> (r: Result<DataType, UvtError>)
        ensures
            datatype_of(code) matches Some(t) ==> r == Ok::<DataType, UvtError>(t),
            datatype_of(code) is None ==> r == Err::<DataType, UvtError>(UvtError::UnknownDatatype(code)),
    {
        match code {
            1 => Ok(DataType::INT8),
            2 => Ok(DataType::UINT8),
            3 => Ok(DataType::INT16),
            4 => Ok(DataType::UINT16),
            5 => Ok(DataType::INT32),
            6 => Ok(DataType::UINT32),
            7 => Ok(DataType::FLOAT32),
            8 => Ok(DataType::FLOAT64),
            _ => Err(UvtError::UnknownDatatype(code)),
        }
    }

    /// The wire code of this type, `1..=8`.
    pub fn code(&self) -> (r: u8)
        ensures
            1 <= r <= 8,
            datatype_of(r) == Some(*self),
    {
        match self {
            DataType::INT8 => 1,
            DataType::UINT8 => 2,
            DataType::INT16 => 3,
            DataType::UINT16 => 4,
            DataType::INT32 => 5,
            DataType::UINT32 => 6,
            DataType::FLOAT32 => 7,
            DataType::FLOAT64 => 8,
        }
    }

    /// Size in bytes of one scalar of this type.
    pub fn size(&self) -> (r: u32)
        ensures
            r == size_of_type(*self),
    {
        match self {
            DataType::INT8 | DataType::UINT8 => 1,
            DataType::INT16 | DataType::UINT16 => 2,
            DataType::INT32 | DataType::UINT32 | DataType::FLOAT32 => 4,
            DataType::FLOAT64 => 8,
        }
    }
}

/// One scalar channel of the per-point record.
#[derive(Debug, Clone, PartialEq)]
pub struct PointField {
    pub name: String,
    /// Byte offset of the field inside a point record.
    pub offset: u32,
    pub datatype: DataType,
    /// Number of consecutive scalars.
    pub count: u32,
}

pub struct PointFieldView {
    pub name: Seq<char>,
    pub offset: u32,
    pub datatype: DataType,
    pub count: u32,
}

impl View for PointField {
    type V = PointFieldView;

    open spec fn view(&self) -> PointFieldView {
        PointFieldView {
            name: self.name@,
            offset: self.offset,
            datatype: self.datatype,
            count: self.count,
        }
    }
}

/// A dense point cloud: schema and raw point records.
#[derive(Debug, Clone, PartialEq)]
pub struct PointCloud2 {
    pub header: Header,
    pub height: u32,
    pub width: u32,
    pub fields: Vec<PointField>,
    pub is_bigendian: bool,
    /// Length of one point record in bytes.
    pub point_step: u32,
    /// Length of one row in bytes.
    pub row_step: u32,
    pub data: Vec<u8>,
    pub is_dense: bool,
}

pub struct PointCloud2View {
    pub header: HeaderView,
    pub height: u32,
    pub width: u32,
    pub fields: Seq<PointFieldView>,
    pub is_bigendian: bool,
    pub point_step: u32,
    pub row_step: u32,
    pub data: Seq<u8>,
    pub is_dense: bool,
}

impl View for PointCloud2 {
    type V = PointCloud2View;

    open spec fn view(&self) -> PointCloud2View {
        PointCloud2View {
            header: self.header@,
            height: self.height,
            width: self.width,
            fields: self.fields@.map_values(|f: PointField| f@),
            is_bigendian: self.is_bigendian,
            point_step: self.point_step,
            row_step: self.row_step,
            data: self.data@,
            is_dense: self.is_dense,
        }
    }
}

// ---------------------------------------------------------------------------
// Wire model
// ---------------------------------------------------------------------------

/// One point field: name (aligned to 4), `offset: u32`, type code (aligned
/// to 4), `count: u32`.
pub open spec fn spec_point_field(enc: Encoding, b: Seq<u8>, p: int) -> Result<(PointFieldView, int), UvtError> {
    match spec_lp_string_aligned(enc, b, p, 4) {
        Err(e) => Err(e),
        Ok((name, pos1)) => match spec_u32(b, pos1) {
            Err(e) => Err(e),
            Ok((offset, pos2)) => match spec_byte_aligned(enc, b, pos2, 4) {
                Err(e) => Err(e),
                Ok((code, pos3)) => match datatype_of(code) {
                    None => Err(UvtError::UnknownDatatype(code)),
                    Some(datatype) => match spec_u32(b, pos3) {
                        Err(e) => Err(e),
                        Ok((count, pos4)) => Ok((PointFieldView { name, offset, datatype, count }, pos4)),
                    },
                },
            },
        },
    }
}

/// `n` point fields, one after the other.
pub open spec fn spec_point_fields(enc: Encoding, b: Seq<u8>, p: int, n: nat) -> Result<(Seq<PointFieldView>, int), UvtError>
    decreases n,
{
    if n == 0 {
        Ok((Seq::empty(), p))
    } else {
        match spec_point_fields(enc, b, p, (n - 1) as nat) {
            Err(e) => Err(e),
            Ok((fs, q)) => match spec_point_field(enc, b, q) {
                Err(e) => Err(e),
                Ok((f, q2)) => Ok((fs.push(f), q2)),
            },
        }
    }
}

/// Once the field at index `i` fails, every longer list fails the same way.
proof fn lemma_point_fields_fail(enc: Encoding, b: Seq<u8>, p: int, i: nat, n: nat)
    requires
        i < n,
        spec_point_fields(enc, b, p, i) is Ok,
        spec_point_field(enc, b, spec_point_fields(enc, b, p, i)->Ok_0.1) is Err,
    ensures
        spec_point_fields(enc, b, p, n) == Err::<(Seq<PointFieldView>, int), UvtError>(
            spec_point_field(enc, b, spec_point_fields(enc, b, p, i)->Ok_0.1)->Err_0,
        ),
    decreases n,
{
    if n > i + 1 {
        lemma_point_fields_fail(enc, b, p, i, (n - 1) as nat);
    }
}

/// A field count, then that many point fields.
pub open spec fn spec_field_list(enc: Encoding, b: Seq<u8>, p: int) -> Result<(Seq<PointFieldView>, int), UvtError> {
    match spec_u32(b, p) {
        Err(e) => Err(e),
        Ok((n, q)) => spec_point_fields(enc, b, q, n as nat),
    }
}

/// A byte count, then that many bytes.
pub open spec fn spec_data(b: Seq<u8>, p: int) -> Result<(Seq<u8>, int), UvtError> {
    match spec_u32(b, p) {
        Err(e) => Err(e),
        Ok((n, q)) => spec_take(b, q, n as int),
    }
}

/// What follows the schema: `is_bigendian`, `point_step`, `row_step`, the
/// data, `is_dense`; the flags are true exactly when their byte is `1`.
pub open spec fn spec_cloud_body(
    enc: Encoding,
    b: Seq<u8>,
    p: int,
    header: HeaderView,
    height: u32,
    width: u32,
    fields: Seq<PointFieldView>,
) -> Result<(PointCloud2View, int), UvtError> {
    match spec_byte_aligned(enc, b, p, 4) {
        Err(e) => Err(e),
        Ok((big, pos1)) => match spec_u32(b, pos1) {
            Err(e) => Err(e),
            Ok((point_step, pos2)) => match spec_u32(b, pos2) {
                Err(e) => Err(e),
                Ok((row_step, pos3)) => match spec_data(b, pos3) {
                    Err(e) => Err(e),
                    Ok((data, pos4)) => match spec_byte_aligned(enc, b, pos4, 4) {
                        Err(e) => Err(e),
                        Ok((dense, pos5)) => Ok(
                            (
                                PointCloud2View {
                                    header,
                                    height,
                                    width,
                                    fields,
                                    is_bigendian: big == 1,
                                    point_step,
                                    row_step,
                                    data,
                                    is_dense: dense == 1,
                                },
                                pos5,
                            ),
                        ),
                    },
                },
            },
        },
    }
}

/// A whole point-cloud message: header, `height`, `width`, schema, body.
pub open spec fn spec_pointcloud(enc: Encoding, b: Seq<u8>, p: int) -> Result<(PointCloud2View, int), UvtError> {
    match spec_header(enc, b, p) {
        Err(e) => Err(e),
        Ok((header, pos1)) => match spec_u32(b, pos1) {
            Err(e) => Err(e),
            Ok((height, pos2)) => match spec_u32(b, pos2) {
                Err(e) => Err(e),
                Ok((width, pos3)) => match spec_field_list(enc, b, pos3) {
                    Err(e) => Err(e),
                    Ok((fields, pos4)) => spec_cloud_body(enc, b, pos4, header, height, width, fields),
                },
            },
        },
    }
}

/// `got` is the value (or the error) that the model `r` gives; where the
/// cursor ends does not matter.
pub open spec fn parsed<T: View>(got: Result<T, UvtError>, r: Result<(T::V, int), UvtError>) -> bool {
    match r {
        Ok((v, _)) => got matches Ok(g) && g@ == v,
        Err(e) => got matches Err(g) && g == e,
    }
}


/// The point-cloud part of a transport's decoder. The methods are written
/// once over the transport's `BufferReader` capabilities.
pub trait PointCloud2Deserializer: BufferReader {
    /// Reads one point field.
    fn read_point_field(&mut self) -> (r: Result<PointField, UvtError>)
        requires
            old(self).wf(),
        ensures
            final(self).wf(),
            final(self).bytes() == old(self).bytes(),
            stepped(r, spec_point_field(Self::encoding(), old(self).bytes(), old(self).pos()), final(self).pos()),
    {
        let name = match self.read_lp_string_aligned(4) {
            Ok(v) => v,
            Err(e) => return Err(e),
        };
        let offset = match self.read_u32_le() {
            Ok(v) => v,
            Err(e) => return Err(e),
        };
        let code = match self.read_byte_aligned(4) {
            Ok(v) => v,
            Err(e) => return Err(e),
        };
        let datatype = match DataType::from_code(code) {
            Ok(v) => v,
            Err(e) => return Err(e),
        };
        let count = match self.read_u32_le() {
            Ok(v) => v,
            Err(e) => return Err(e),
        };
        Ok(PointField { name, offset, datatype, count })
    }

    /// Reads the field count, then that many point fields.
    fn read_point_fields(&mut self) -> (r: Result<Vec<PointField>, UvtError>)
        requires
            old(self).wf(),
        ensures
            final(self).wf(),
            final(self).bytes() == old(self).bytes(),
            match spec_field_list(Self::encoding(), old(self).bytes(), old(self).pos()) {
                Ok((fs, q)) => r matches Ok(v) && v@.map_values(|f: PointField| f@) == fs
                    && final(self).pos() == q,
                Err(e) => r == Err::<Vec<PointField>, UvtError>(e),
            },
    {
        let n = match self.read_u32_le() {
            Ok(v) => v,
            Err(e) => return Err(e),
        };
        let ghost b = self.bytes();
        let ghost start = self.pos();
        let mut fields: Vec<PointField> = Vec::new();
        assert(fields@.map_values(|f: PointField| f@) =~= Seq::<PointFieldView>::empty());
        let mut i: u32 = 0;
        while i < n
            invariant
                self.wf(),
                self.bytes() == b,
                b == old(self).bytes(),
                spec_u32(b, old(self).pos()) == Ok::<(u32, int), UvtError>((n, start)),
                i <= n,
                spec_point_fields(Self::encoding(), b, start, i as nat) == Ok::<(Seq<PointFieldView>, int), UvtError>(
                    (fields@.map_values(|f: PointField| f@), self.pos()),
                ),
            decreases n - i,
        {
            let f = match self.read_point_field() {
                Ok(v) => v,
                Err(e) => {
                    proof {
                        lemma_point_fields_fail(Self::encoding(), b, start, i as nat, n as nat);
                    }
                    return Err(e);
                },
            };
            let ghost prev = fields@;
            let ghost fv = f@;
            fields.push(f);
            i = i + 1;
            assert(fields@.map_values(|f: PointField| f@) =~= prev.map_values(|f: PointField| f@).push(
                fv,
            ));
        }
        Ok(fields)
    }

    /// Reads a byte count, then that many bytes of point records.
    fn read_data(&mut self) -> (r: Result<Vec<u8>, UvtError>)
        requires
            old(self).wf(),
        ensures
            final(self).wf(),
            final(self).bytes() == old(self).bytes(),
            stepped(r, spec_data(old(self).bytes(), old(self).pos()), final(self).pos()),
    {
        let n = match self.read_u32_le() {
            Ok(v) => v,
            Err(e) => return Err(e),
        };
        self.take(n as usize)
    }
}

impl PointCloud2Deserializer for BagDeserializer {}

impl PointCloud2Deserializer for McapDeserializer {}


/// Parses a point-cloud message from the decoder's cursor on; the result is
/// the one that the transport's wire layout gives.
pub fn parse_pointcloud<D: PointCloud2Deserializer>(d: D) -> (r: Result<PointCloud2, UvtError>)
    requires
        d.wf(),
    ensures
        parsed(r, spec_pointcloud(D::encoding(), d.bytes(), d.pos())),
{
    let mut d = d;
    let header = match d.read_header() {
        Ok(v) => v,
        Err(e) => return Err(e),
    };
    let height = match d.read_u32_le() {
        Ok(v) => v,
        Err(e) => return Err(e),
    };
    let width = match d.read_u32_le() {
        Ok(v) => v,
        Err(e) => return Err(e),
    };
    let fields = match d.read_point_fields() {
        Ok(v) => v,
        Err(e) => return Err(e),
    };
    let is_bigendian = match d.read_byte_aligned(4) {
        Ok(v) => v == 1,
        Err(e) => return Err(e),
    };
    let point_step = match d.read_u32_le() {
        Ok(v) => v,
        Err(e) => return Err(e),
    };
    let row_step = match d.read_u32_le() {
        Ok(v) => v,
        Err(e) => return Err(e),
    };
    let data = match d.read_data() {
        Ok(v) => v,
        Err(e) => return Err(e),
    };
    let is_dense = match d.read_byte_aligned(4) {
        Ok(v) => v == 1,
        Err(e) => return Err(e),
    };
    Ok(
        PointCloud2 {
            header,
            height,
            width,
            fields,
            is_bigendian,
            point_step,
            row_step,
            data,
            is_dense,
        },
    )
}

/// Number of whole point records in `data`; none when `point_step` is `0`.
pub open spec fn spec_n_points(c: PointCloud2View) -> nat {
    if c.point_step == 0 {
        0
    } else {
        c.data.len() / (c.point_step as nat)
    }
}

impl PointCloud2 {
    /// Length of the raw point data in bytes.
    pub fn len(&self) -> (r: usize)
        ensures
            r == self.data@.len(),
    {
        self.data.len()
    }

    /// Number of whole point records in the data.
    pub fn n_points(&self) -> (r: usize)
        ensures
            r == spec_n_points(self@),
    {
        if self.point_step == 0 {
            0
        } else {
            self.data.len() / (self.point_step as usize)
        }
    }
}


// ---------------------------------------------------------------------------
// Point extraction
// ---------------------------------------------------------------------------

/// One decoded scalar of a point record. Floating-point values are kept as
/// their IEEE-754 bit patterns.
#[derive(Debug, Clone, Copy, PartialEq, Eq, Structural)]
pub enum Scalar {
    Float32(u32),
    Float64(u64),
    Uint16(u16),
}

/// Whether a field can be decoded inside records of `point_step` bytes:
/// its type must be one that is promoted to a coordinate (`FLOAT32`,
/// `FLOAT64`, `UINT16`), and `offset + size * count` must fit in a record
/// (a field always spans at least one scalar, whatever its count).
pub open spec fn field_check(f: PointFieldView, point_step: u32) -> Result<(), UvtError> {
    if !(f.datatype == DataType::FLOAT32 || f.datatype == DataType::FLOAT64 || f.datatype
        == DataType::UINT16) {
        Err(UvtError::UnsupportedFieldType)
    } else if f.offset + size_of_type(f.datatype) * scalar_count(f.count) > point_step {
        Err(UvtError::Invalid)
    } else {
        Ok(())
    }
}

pub open spec fn scalar_count(count: u32) -> int {
    if count == 0 {
        1
    } else {
        count as int
    }
}

/// The first failing field check, in schema order.
pub open spec fn schema_check(fields: Seq<PointFieldView>, point_step: u32) -> Result<(), UvtError>
    decreases fields.len(),
{
    if fields.len() == 0 {
        Ok(())
    } else {
        match schema_check(fields.drop_last(), point_step) {
            Err(e) => Err(e),
            Ok(()) => field_check(fields.last(), point_step),
        }
    }
}

/// The little-endian scalar of type `t` at byte `at`.
pub open spec fn scalar_at(b: Seq<u8>, at: int, t: DataType) -> Scalar {
    match t {
        DataType::FLOAT64 => Scalar::Float64(u64_at(b, at)),
        DataType::UINT16 => Scalar::Uint16(u16_at(b, at)),
        _ => Scalar::Float32(u32_at(b, at)),
    }
}

/// Every point record decoded field by field: the value of field `j` in
/// point `i` is the scalar at `i * point_step + offset_j`.
pub open spec fn spec_points(c: PointCloud2View) -> Result<Seq<Seq<Scalar>>, UvtError> {
    match schema_check(c.fields, c.point_step) {
        Err(e) => Err(e),
        Ok(()) => Ok(
            Seq::new(
                spec_n_points(c),
                |i: int|
                    Seq::new(
                        c.fields.len(),
                        |j: int|
                            scalar_at(
                                c.data,
                                i * c.point_step + c.fields[j].offset,
                                c.fields[j].datatype,
                            ),
                    ),
            ),
        ),
    }
}

/// Index of the first field from `j` on named `name`, if any.
pub open spec fn field_index_from(fields: Seq<PointFieldView>, name: Seq<char>, j: int) -> Option<int>
    decreases fields.len() - j,
{
    if j < 0 || j >= fields.len() {
        None
    } else if fields[j].name == name {
        Some(j)
    } else {
        field_index_from(fields, name, j + 1)
    }
}

/// Index of the first field named `name`, if any.
pub open spec fn field_index(fields: Seq<PointFieldView>, name: Seq<char>) -> Option<int> {
    field_index_from(fields, name, 0)
}

/// The `(x, y, z)` triple of every point record, taken from the first fields
/// named `x`, `y` and `z`.
pub open spec fn spec_xyz_points(c: PointCloud2View) -> Result<Seq<(Scalar, Scalar, Scalar)>, UvtError> {
    match spec_points(c) {
        Err(e) => Err(e),
        Ok(pts) => match (
            field_index(c.fields, seq!['x']),
            field_index(c.fields, seq!['y']),
            field_index(c.fields, seq!['z']),
        ) {
            (Some(ix), Some(iy), Some(iz)) => Ok(pts.map_values(|p: Seq<Scalar>| (p[ix], p[iy], p[iz]))),
            _ => Err(UvtError::MissingField),
        },
    }
}

fn le_u16(b: &Vec<u8>, at: usize) -> (r: u16)
    requires
        at + 2 <= b@.len(),
    ensures
        r == u16_at(b@, at as int),
{
    let _len = b.len();
    b[at] as u16 + 0x100 * (b[at + 1] as u16)
}

fn le_u32(b: &Vec<u8>, at: usize) -> (r: u32)
    requires
        at + 4 <= b@.len(),
    ensures
        r == u32_at(b@, at as int),
{
    let _len = b.len();
    b[at] as u32 + 0x100 * (b[at + 1] as u32) + 0x1_0000 * (b[at + 2] as u32) + 0x100_0000 * (
    b[at + 3] as u32)
}

fn le_u64(b: &Vec<u8>, at: usize) -> (r: u64)
    requires
        at + 8 <= b@.len(),
    ensures
        r == u64_at(b@, at as int),
{
    let _len = b.len();
    le_u32(b, at) as u64 + 0x1_0000_0000 * (le_u32(b, at + 4) as u64)
}

proof fn lemma_record_in_data(i: int, n: int, step: int, len: int)
    requires
        0 <= i < n,
        step > 0,
        n == len / step,
        len >= 0,
    ensures
        i * step + step <= len,
{
    assert(i * step + step <= n * step) by (nonlinear_arith)
        requires
            0 <= i < n,
            step > 0,
    ;
    assert(n * step <= len) by (nonlinear_arith)
        requires
            n == len / step,
            step > 0,
            len >= 0,
    ;
}

/// Whether the field's name is the single character `c`.
fn name_is(f: &PointField, c: char) -> (r: bool)
    ensures
        r == (f.name@ == seq![c]),
{
    let s = f.name.as_str();
    if s.unicode_len() != 1 {
        return false;
    }
    let r = s.get_char(0) == c;
    assert(r ==> s@ =~= seq![c]);
    r
}

/// Index of the first field named `c`.
fn find_field(fields: &Vec<PointField>, c: char) -> (r: Option<usize>)
    ensures
        match field_index(fields@.map_values(|f: PointField| f@), seq![c]) {
            Some(j) => r == Some(j as usize),
            None => r is None,
        },
{
    let ghost fs = fields@.map_values(|f: PointField| f@);
    let mut j: usize = 0;
    while j < fields.len()
        invariant
            j <= fields@.len(),
            fs == fields@.map_values(|f: PointField| f@),
            field_index(fs, seq![c]) == field_index_from(fs, seq![c], j as int),
        decreases fields@.len() - j,
    {
        assert(fs[j as int] == fields@[j as int]@);
        if name_is(&fields[j], c) {
            return Some(j);
        }
        j = j + 1;
    }
    None
}

impl PointCloud2 {
    /// Checks the schema against `point_step`.
    fn check_fields(&self) -> (r: Result<(), UvtError>)
        ensures
            r == schema_check(self@.fields, self.point_step),
    {
        let ghost fs = self@.fields;
        let mut i: usize = 0;
        while i < self.fields.len()
            invariant
                i <= self.fields@.len(),
                fs == self@.fields,
                fs.len() == self.fields@.len(),
                schema_check(fs.take(i as int), self.point_step) == Ok::<(), UvtError>(()),
            decreases self.fields@.len() - i,
        {
            let f = &self.fields[i];
            assert(fs.take(i + 1).drop_last() =~= fs.take(i as int));
            assert(fs.take(i + 1).last() == f@);
            if !(f.datatype == DataType::FLOAT32 || f.datatype == DataType::FLOAT64 || f.datatype
                == DataType::UINT16) {
                proof {
                    lemma_schema_check_prefix_fail(fs, self.point_step, (i + 1) as int);
                }
                return Err(UvtError::UnsupportedFieldType);
            }
            let size = f.datatype.size() as u64;
            let count: u64 = if f.count == 0 {
                1
            } else {
                f.count as u64
            };
            assert(size * count <= 8 * 0xFFFF_FFFF) by (nonlinear_arith)
                requires
                    size <= 8,
                    count <= 0xFFFF_FFFF,
            ;
            let span = f.offset as u64 + size * count;
            if span > self.point_step as u64 {
                proof {
                    lemma_schema_check_prefix_fail(fs, self.point_step, (i + 1) as int);
                }
                return Err(UvtError::Invalid);
            }
            i = i + 1;
        }
        assert(fs.take(fs.len() as int) =~= fs);
        Ok(())
    }

    /// Decodes every point record, field by field.
    pub fn points(&self) -> (r: Result<Vec<Vec<Scalar>>, UvtError>)
        ensures
            match spec_points(self@) {
                Ok(pts) => r matches Ok(v) && v@.map_values(|p: Vec<Scalar>| p@) == pts,
                Err(e) => r == Err::<Vec<Vec<Scalar>>, UvtError>(e),
            },
    {
        match self.check_fields() {
            Ok(()) => {},
            Err(e) => return Err(e),
        }
        let ghost c = self@;
        let n = self.n_points();
        let step = self.point_step as usize;
        let ghost want = spec_points(c)->Ok_0;
        let len = self.data.len();
        let mut out: Vec<Vec<Scalar>> = Vec::new();
        let mut i: usize = 0;
        while i < n
            invariant
                c == self@,
                n == spec_n_points(c),
                step == self.point_step,
                schema_check(c.fields, c.point_step) == Ok::<(), UvtError>(()),
                want == spec_points(c)->Ok_0,
                len == self.data@.len(),
                i <= n,
                out@.len() == i,
                forall|k: int| 0 <= k < i ==> out@[k]@ == want[k],
            decreases n - i,
        {
            proof {
                lemma_record_in_data(i as int, n as int, step as int, self.data@.len() as int);
            }
            let base = i * step;
            let mut rec: Vec<Scalar> = Vec::new();
            let mut j: usize = 0;
            while j < self.fields.len()
                invariant
                    c == self@,
                    n == spec_n_points(c),
                    step == self.point_step,
                    step > 0,
                    i < n,
                    base == i * step,
                    base + step <= self.data@.len(),
                    len == self.data@.len(),
                    c.fields.len() == self.fields@.len(),
                    schema_check(c.fields, c.point_step) == Ok::<(), UvtError>(()),
                    want == spec_points(c)->Ok_0,
                    j <= self.fields@.len(),
                    rec@.len() == j,
                    forall|k: int| 0 <= k < j ==> rec@[k] == want[i as int][k],
                decreases self.fields@.len() - j,
            {
                let f = &self.fields[j];
                proof {
                    lemma_schema_check_each(c.fields, c.point_step, j as int);
                    assert(c.fields[j as int] == f@);
                    assert(size_of_type(f.datatype) * scalar_count(f.count) >= size_of_type(f.datatype)) by (nonlinear_arith)
                        requires
                            scalar_count(f.count) >= 1,
                            size_of_type(f.datatype) >= 1,
                    ;
                }
                let at = base + f.offset as usize;
                let v = if f.datatype == DataType::FLOAT64 {
                    Scalar::Float64(le_u64(&self.data, at))
                } else if f.datatype == DataType::UINT16 {
                    Scalar::Uint16(le_u16(&self.data, at))
                } else {
                    Scalar::Float32(le_u32(&self.data, at))
                };
                rec.push(v);
                j = j + 1;
            }
            assert(rec@ =~= want[i as int]);
            out.push(rec);
            i = i + 1;
        }
        assert(out@.map_values(|p: Vec<Scalar>| p@) =~= want);
        Ok(out)
    }

    /// The `(x, y, z)` triple of every point record.
    pub fn xyz_points(&self) -> (r: Result<Vec<(Scalar, Scalar, Scalar)>, UvtError>)
        ensures
            match spec_xyz_points(self@) {
                Ok(pts) => r matches Ok(v) && v@ == pts,
                Err(e) => r == Err::<Vec<(Scalar, Scalar, Scalar)>, UvtError>(e),
            },
    {
        let pts = match self.points() {
            Ok(p) => p,
            Err(e) => return Err(e),
        };
        let ghost pv = pts@.map_values(|p: Vec<Scalar>| p@);
        let (ix, iy, iz) = match (
            find_field(&self.fields, 'x'),
            find_field(&self.fields, 'y'),
            find_field(&self.fields, 'z'),
        ) {
            (Some(ix), Some(iy), Some(iz)) => (ix, iy, iz),
            _ => return Err(UvtError::MissingField),
        };
        proof {
            lemma_field_index_bounds(self@.fields, seq!['x'], 0);
            lemma_field_index_bounds(self@.fields, seq!['y'], 0);
            lemma_field_index_bounds(self@.fields, seq!['z'], 0);
        }
        let mut out: Vec<(Scalar, Scalar, Scalar)> = Vec::new();
        let mut i: usize = 0;
        while i < pts.len()
            invariant
                pv == pts@.map_values(|p: Vec<Scalar>| p@),
                pv == spec_points(self@)->Ok_0,
                spec_points(self@) is Ok,
                ix < self.fields@.len(),
                iy < self.fields@.len(),
                iz < self.fields@.len(),
                i <= pts@.len(),
                out@.len() == i,
                forall|k: int| 0 <= k < i ==> out@[k] == (pv[k][ix as int], pv[k][iy as int], pv[k][iz as int]),
            decreases pts@.len() - i,
        {
            assert(pts@[i as int]@ == pv[i as int]);
            proof {
                lemma_points_shape(self@, i as int);
            }
            let p = &pts[i];
            out.push((p[ix], p[iy], p[iz]));
            i = i + 1;
        }
        assert(out@ =~= pv.map_values(|p: Seq<Scalar>| (p[ix as int], p[iy as int], p[iz as int])));
        Ok(out)
    }
}

proof fn lemma_field_index_bounds(fs: Seq<PointFieldView>, name: Seq<char>, j: int)
    ensures
        field_index_from(fs, name, j) matches Some(k) ==> j <= k < fs.len() && fs[k].name == name,
    decreases fs.len() - j,
{
    if 0 <= j < fs.len() && fs[j].name != name {
        lemma_field_index_bounds(fs, name, j + 1);
    }
}

proof fn lemma_points_shape(c: PointCloud2View, i: int)
    requires
        spec_points(c) is Ok,
        0 <= i < spec_points(c)->Ok_0.len(),
    ensures
        spec_points(c)->Ok_0[i].len() == c.fields.len(),
{
}

proof fn lemma_schema_check_prefix_fail(fs: Seq<PointFieldView>, step: u32, k: int)
    requires
        0 < k <= fs.len(),
        schema_check(fs.take(k), step) is Err,
    ensures
        schema_check(fs, step) == schema_check(fs.take(k), step),
    decreases fs.len() - k,
{
    if k < fs.len() {
        assert(fs.take(k + 1).drop_last() =~= fs.take(k));
        lemma_schema_check_prefix_fail(fs, step, k + 1);
    } else {
        assert(fs.take(k) =~= fs);
    }
}

proof fn lemma_schema_check_each(fs: Seq<PointFieldView>, step: u32, j: int)
    requires
        0 <= j < fs.len(),
        schema_check(fs, step) is Ok,
    ensures
        field_check(fs[j], step) is Ok,
    decreases fs.len(),
{
    if j < fs.len() - 1 {
        assert(fs.drop_last()[j] == fs[j]);
        lemma_schema_check_each(fs.drop_last(), step, j);
    }
}

} // verus!
