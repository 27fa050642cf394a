use uvt::bag::BagDeserializer;
use uvt::error::UvtError;
use uvt::mcap::McapDeserializer;
use uvt::pointcloud::{parse_pointcloud, DataType, PointCloud2, PointField, Scalar};
use uvt::pose::{Header, Time};

struct Field {
    name: &'static str,
    offset: u32,
    code: u8,
    count: u32,
}

struct Cloud {
    seq: u32,
    sec: i32,
    nsec: u32,
    frame: &'static str,
    height: u32,
    width: u32,
    fields: Vec<Field>,
    big: bool,
    point_step: u32,
    row_step: u32,
    data: Vec<u8>,
    dense: bool,
}

fn bag_string(v: &mut Vec<u8>, s: &str) {
    v.extend_from_slice(&(s.len() as u32).to_le_bytes());
    v.extend_from_slice(s.as_bytes());
}

fn cdr_string(v: &mut Vec<u8>, s: &str, align: usize) {
    let n = s.len() + 1;
    v.extend_from_slice(&(n as u32).to_le_bytes());
    v.extend_from_slice(s.as_bytes());
    v.push(0);
    for _ in 0..((align - n % align) % align) {
        v.push(0);
    }
}

fn bag_bytes(c: &Cloud) -> Vec<u8> {
    let mut v = c.seq.to_le_bytes().to_vec();
    v.extend_from_slice(&c.sec.to_le_bytes());
    v.extend_from_slice(&c.nsec.to_le_bytes());
    bag_string(&mut v, c.frame);
    v.extend_from_slice(&c.height.to_le_bytes());
    v.extend_from_slice(&c.width.to_le_bytes());
    v.extend_from_slice(&(c.fields.len() as u32).to_le_bytes());
    for f in &c.fields {
        bag_string(&mut v, f.name);
        v.extend_from_slice(&f.offset.to_le_bytes());
        v.push(f.code);
        v.extend_from_slice(&f.count.to_le_bytes());
    }
    v.push(c.big as u8);
    v.extend_from_slice(&c.point_step.to_le_bytes());
    v.extend_from_slice(&c.row_step.to_le_bytes());
    v.extend_from_slice(&(c.data.len() as u32).to_le_bytes());
    v.extend_from_slice(&c.data);
    v.push(c.dense as u8);
    v
}

fn mcap_bytes(c: &Cloud) -> Vec<u8> {
    let mut v = vec![0u8, 1, 0, 0];
    v.extend_from_slice(&c.sec.to_le_bytes());
    v.extend_from_slice(&c.nsec.to_le_bytes());
    cdr_string(&mut v, c.frame, 4);
    v.extend_from_slice(&c.height.to_le_bytes());
    v.extend_from_slice(&c.width.to_le_bytes());
    v.extend_from_slice(&(c.fields.len() as u32).to_le_bytes());
    for f in &c.fields {
        cdr_string(&mut v, f.name, 4);
        v.extend_from_slice(&f.offset.to_le_bytes());
        v.extend_from_slice(&[f.code, 0, 0, 0]);
        v.extend_from_slice(&f.count.to_le_bytes());
    }
    v.extend_from_slice(&[c.big as u8, 0, 0, 0]);
    v.extend_from_slice(&c.point_step.to_le_bytes());
    v.extend_from_slice(&c.row_step.to_le_bytes());
    v.extend_from_slice(&(c.data.len() as u32).to_le_bytes());
    v.extend_from_slice(&c.data);
    v.extend_from_slice(&[c.dense as u8, 0, 0, 0]);
    v
}

fn xyz_data(points: &[(f32, f32, f32)]) -> Vec<u8> {
    let mut d = Vec::new();
    for p in points {
        d.extend_from_slice(&p.0.to_le_bytes());
        d.extend_from_slice(&p.1.to_le_bytes());
        d.extend_from_slice(&p.2.to_le_bytes());
    }
    d
}

fn sample_cloud(seq: u32) -> Cloud {
    Cloud {
        seq,
        sec: 5,
        nsec: 6,
        frame: "velodyne",
        height: 1,
        width: 2,
        fields: vec![
            Field { name: "x", offset: 0, code: 7, count: 1 },
            Field { name: "y", offset: 4, code: 7, count: 1 },
            Field { name: "z", offset: 8, code: 7, count: 1 },
        ],
        big: false,
        point_step: 12,
        row_step: 24,
        data: xyz_data(&[(1.0, 2.0, 3.0), (-4.0, 5.5, 0.25)]),
        dense: true,
    }
}

#[test]
fn bag_empty_cloud_has_no_points() {
    let c = Cloud {
        seq: 0,
        sec: 0,
        nsec: 0,
        frame: "",
        height: 1,
        width: 2,
        fields: vec![],
        big: false,
        point_step: 0,
        row_step: 0,
        data: vec![],
        dense: true,
    };
    let cloud = parse_pointcloud(BagDeserializer::new(bag_bytes(&c))).unwrap();
    assert_eq!(cloud.height, 1);
    assert_eq!(cloud.width, 2);
    assert!(cloud.fields.is_empty());
    assert!(!cloud.is_bigendian);
    assert!(cloud.is_dense);
    assert_eq!(cloud.len(), 0);
    assert_eq!(cloud.n_points(), 0);
}

#[test]
fn bag_cloud_parses_every_field() {
    let cloud = parse_pointcloud(BagDeserializer::new(bag_bytes(&sample_cloud(9)))).unwrap();
    assert_eq!(
        cloud.header,
        Header { seq: 9, stamp: Time { sec: 5, nanosec: 6 }, frame_id: String::from("velodyne") }
    );
    assert_eq!(cloud.fields.len(), 3);
    assert_eq!(
        cloud.fields[1],
        PointField { name: String::from("y"), offset: 4, datatype: DataType::FLOAT32, count: 1 }
    );
    assert_eq!(cloud.point_step, 12);
    assert_eq!(cloud.row_step, 24);
    assert_eq!(cloud.len(), 24);
    assert_eq!(cloud.n_points(), 2);
}

#[test]
fn backends_agree_on_same_cloud() {
    let c = sample_cloud(0);
    let from_bag = parse_pointcloud(BagDeserializer::new(bag_bytes(&c))).unwrap();
    let from_mcap = parse_pointcloud(McapDeserializer::new(mcap_bytes(&c))).unwrap();
    assert_eq!(from_bag, from_mcap);
}

fn one_field_mcap(name: &str) -> Vec<u8> {
    let c = Cloud {
        seq: 0,
        sec: 0,
        nsec: 0,
        frame: "f",
        height: 1,
        width: 1,
        fields: vec![],
        big: false,
        point_step: 4,
        row_step: 4,
        data: vec![],
        dense: false,
    };
    let mut v = mcap_bytes(&c);
    let head_len = 4 + 8 + 8 + 8;
    let mut out = v[..head_len].to_vec();
    out.extend_from_slice(&1u32.to_le_bytes());
    cdr_string(&mut out, name, 4);
    out.extend_from_slice(&0xdead_beefu32.to_le_bytes());
    out.extend_from_slice(&[7, 0, 0, 0]);
    out.extend_from_slice(&3u32.to_le_bytes());
    out.extend_from_slice(&v.split_off(head_len + 4));
    out
}

#[test]
fn mcap_field_names_of_any_length_stay_aligned() {
    for name in ["a", "ab", "abc", "abcd", "abcde", "abcdefg", "abcdefgh"] {
        let cloud = parse_pointcloud(McapDeserializer::new(one_field_mcap(name))).unwrap();
        assert_eq!(cloud.fields.len(), 1);
        assert_eq!(cloud.fields[0].name, name);
        assert_eq!(cloud.fields[0].offset, 0xdead_beef);
        assert_eq!(cloud.fields[0].datatype, DataType::FLOAT32);
        assert_eq!(cloud.fields[0].count, 3);
        assert_eq!(cloud.point_step, 4);
        assert_eq!(cloud.row_step, 4);
    }
}

#[test]
fn mcap_one_byte_name_skips_three_padding_bytes() {
    let mut v = vec![0u8, 1, 0, 0];
    v.extend_from_slice(&0i32.to_le_bytes());
    v.extend_from_slice(&0u32.to_le_bytes());
    v.extend_from_slice(&0u32.to_le_bytes());
    v.extend_from_slice(&1u32.to_le_bytes());
    v.extend_from_slice(&1u32.to_le_bytes());
    v.extend_from_slice(&1u32.to_le_bytes());
    v.extend_from_slice(&1u32.to_le_bytes());
    v.push(b'x');
    v.extend_from_slice(&[0xee, 0xee, 0xee]);
    v.extend_from_slice(&0u32.to_le_bytes());
    v.extend_from_slice(&[7, 0, 0, 0]);
    v.extend_from_slice(&1u32.to_le_bytes());
    v.extend_from_slice(&[0, 0, 0, 0]);
    v.extend_from_slice(&4u32.to_le_bytes());
    v.extend_from_slice(&4u32.to_le_bytes());
    v.extend_from_slice(&4u32.to_le_bytes());
    v.extend_from_slice(&2.5f32.to_le_bytes());
    v.extend_from_slice(&[1, 0, 0, 0]);
    let cloud = parse_pointcloud(McapDeserializer::new(v)).unwrap();
    assert_eq!(
        cloud.fields,
        vec![PointField { name: String::from("x"), offset: 0, datatype: DataType::FLOAT32, count: 1 }]
    );
    assert_eq!(cloud.data, 2.5f32.to_le_bytes().to_vec());
    assert!(cloud.is_dense);
    assert_eq!(cloud.points(), Ok(vec![vec![Scalar::Float32(2.5f32.to_bits())]]));
}

#[test]
fn unknown_datatype_is_refused() {
    let mut c = sample_cloud(0);
    c.fields[2].code = 9;
    let r = parse_pointcloud(BagDeserializer::new(bag_bytes(&c)));
    assert_eq!(r, Err(UvtError::UnknownDatatype(9)));
}

#[test]
fn truncated_cloud_underruns() {
    let mut bytes = bag_bytes(&sample_cloud(0));
    bytes.truncate(bytes.len() - 5);
    let r = parse_pointcloud(BagDeserializer::new(bytes));
    assert_eq!(r, Err(UvtError::Underrun));
}

#[test]
fn datatype_codes() {
    assert_eq!(DataType::from_code(1), Ok(DataType::INT8));
    assert_eq!(DataType::from_code(8), Ok(DataType::FLOAT64));
    assert_eq!(DataType::from_code(0), Err(UvtError::UnknownDatatype(0)));
    assert_eq!(DataType::FLOAT64.size(), 8);
    for code in 1u8..=8 {
        assert_eq!(DataType::from_code(code).unwrap().code(), code);
    }
    assert_eq!(DataType::FLOAT32.code(), 7);
    assert_eq!(DataType::UINT16.size(), 2);
}

fn cloud_with(fields: Vec<PointField>, point_step: u32, data: Vec<u8>) -> PointCloud2 {
    PointCloud2 {
        header: Header { seq: 0, stamp: Time { sec: 0, nanosec: 0 }, frame_id: String::new() },
        height: 1,
        width: 1,
        fields,
        is_bigendian: false,
        point_step,
        row_step: point_step,
        data,
        is_dense: true,
    }
}

fn field(name: &str, offset: u32, datatype: DataType) -> PointField {
    PointField { name: String::from(name), offset, datatype, count: 1 }
}

#[test]
fn points_use_field_offsets() {
    let mut data = Vec::new();
    for (i, y) in [(7u16, 1.25f64), (9u16, -2.0f64)] {
        data.extend_from_slice(&y.to_le_bytes());
        data.extend_from_slice(&i.to_le_bytes());
        data.extend_from_slice(&[0xff, 0xff]);
    }
    let c = cloud_with(
        vec![field("ring", 8, DataType::UINT16), field("y", 0, DataType::FLOAT64)],
        12,
        data,
    );
    assert_eq!(c.n_points(), 2);
    assert_eq!(
        c.points(),
        Ok(vec![
            vec![Scalar::Uint16(7), Scalar::Float64(1.25f64.to_bits())],
            vec![Scalar::Uint16(9), Scalar::Float64((-2.0f64).to_bits())],
        ])
    );
}

#[test]
fn points_refuse_unsupported_type() {
    let c = cloud_with(vec![field("t", 0, DataType::UINT32)], 4, vec![0; 4]);
    assert_eq!(c.points(), Err(UvtError::UnsupportedFieldType));
}

#[test]
fn points_refuse_field_past_step() {
    let c = cloud_with(vec![field("x", 2, DataType::FLOAT32)], 4, vec![0; 8]);
    assert_eq!(c.points(), Err(UvtError::Invalid));
}

#[test]
fn xyz_points_pick_named_fields() {
    let cloud = parse_pointcloud(BagDeserializer::new(bag_bytes(&sample_cloud(0)))).unwrap();
    let pts = cloud.xyz_points().unwrap();
    assert_eq!(pts.len(), 2);
    assert_eq!(
        pts[1],
        (
            Scalar::Float32((-4.0f32).to_bits()),
            Scalar::Float32(5.5f32.to_bits()),
            Scalar::Float32(0.25f32.to_bits()),
        )
    );
}

#[test]
fn xyz_points_need_all_three() {
    let c = cloud_with(vec![field("x", 0, DataType::FLOAT32)], 4, vec![0; 4]);
    assert_eq!(c.xyz_points(), Err(UvtError::MissingField));
}

#[test]
fn partial_record_is_not_a_point() {
    let c = cloud_with(vec![field("x", 0, DataType::FLOAT32)], 4, vec![0; 7]);
    assert_eq!(c.n_points(), 1);
}

#[test]
fn mcap_cloud_without_final_padding_underruns() {
    let mut bytes = mcap_bytes(&sample_cloud(0));
    for _ in 1..=3 {
        bytes.truncate(bytes.len() - 1);
        let r = parse_pointcloud(McapDeserializer::new(bytes.clone()));
        assert_eq!(r, Err(UvtError::Underrun));
    }
}
