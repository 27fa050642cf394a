use uvt::error::UvtError;
use uvt::uvt::{read_uvt_text, write_uvt_text};
use vtkio::model::{Attributes, ByteOrder, DataSet, PolyDataPiece, Version};
use vtkio::{IOBuffer, Vtk};

const DELIM: &str = "#############################";

fn map_of(points: Vec<f32>) -> Vtk {
    Vtk {
        version: Version { major: 3, minor: 0 },
        byte_order: ByteOrder::BigEndian,
        title: String::from("map"),
        file_path: None,
        data: DataSet::inline(PolyDataPiece {
            points: IOBuffer::F32(points),
            verts: None,
            lines: None,
            polys: None,
            strips: None,
            data: Attributes::new(),
        }),
    }
}

fn map_text(points: Vec<f32>) -> String {
    let mut text = String::new();
    Vtk::write_legacy_ascii(map_of(points), &mut text).unwrap();
    text
}

fn row(values: [f64; 6]) -> Vec<String> {
    values.iter().map(|v| format!("{}", v)).collect()
}

fn strings(v: &[&str]) -> Vec<String> {
    v.iter().map(|s| String::from(*s)).collect()
}

#[test]
fn write_puts_frame_and_rows_after_delimiter() {
    let map = map_text(vec![]);
    let text = write_uvt_text(map.as_bytes(), "base", &vec![row([1.0, 2.0, 3.0, 0.0, 0.0, 0.0])]);
    let text = String::from_utf8(text).unwrap();
    let (_, second) = text.split_once(DELIM).unwrap();
    assert_eq!(second, "\nframe_id : base\n1,2,3,0,0,0");
}

#[test]
fn written_file_reads_back() {
    let map = map_text(vec![0.5, 1.5, 2.5]);
    let text = write_uvt_text(map.as_bytes(), "base", &vec![row([1.0, 2.0, 3.0, 0.0, 0.0, 0.0])]);
    let doc = read_uvt_text(&text).unwrap();
    assert_eq!(doc.map, map.trim().as_bytes().to_vec());
    assert!(Vtk::parse_legacy_be(doc.map.as_slice()).is_ok());
    assert_eq!(doc.frame_id, "base");
    assert_eq!(doc.rows.len(), 1);
    let values: Vec<f64> = doc.rows[0].iter().map(|v| v.parse::<f64>().unwrap()).collect();
    assert_eq!(values, vec![1.0, 2.0, 3.0, 0.0, 0.0, 0.0]);
    let q = quaternion_core::from_euler_angles(
        quaternion_core::RotationType::Extrinsic,
        quaternion_core::RotationSequence::XYZ,
        [values[3], values[4], values[5]],
    );
    assert!((q.0 - 1.0).abs() < 1e-9);
    assert!(q.1.iter().all(|c| c.abs() < 1e-9));
}

#[test]
fn text_layout_is_exact() {
    let rows = vec![strings(&["1", "2", "3", "0.1", "0.2", "0.3"]), strings(&["4", "5", "6", "0", "0", "-1.5"])];
    let out = write_uvt_text(b"MAP", "odom", &rows);
    let expected = format!("MAP\n{}\nframe_id : odom\n1,2,3,0.1,0.2,0.3\n4,5,6,0,0,-1.5", DELIM);
    assert_eq!(out, expected.into_bytes());
}

#[test]
fn text_round_trip() {
    let rows = vec![strings(&["1", "2", "3", "0.1", "0.2", "0.3"]), strings(&["4", "5", "6", "0", "0", "-1.5"])];
    let out = write_uvt_text(b"MAP\nBODY", "odom", &rows);
    let back = read_uvt_text(&out).unwrap();
    assert_eq!(back.map, b"MAP\nBODY".to_vec());
    assert_eq!(back.frame_id, "odom");
    assert_eq!(back.rows, rows);
}

#[test]
fn six_values_parse_five_fail() {
    let good = format!("m\n{}\nframe_id : f\n1, 2, 3, 4, 5, 6\n", DELIM);
    let r = read_uvt_text(good.as_bytes()).unwrap();
    assert_eq!(r.rows, vec![strings(&["1", "2", "3", "4", "5", "6"])]);
    let bad = format!("m\n{}\nframe_id : f\n1,2,3,4,5\n", DELIM);
    assert!(matches!(read_uvt_text(bad.as_bytes()), Err(UvtError::MalformedTrajLine(2))));
}

#[test]
fn malformed_line_number_counts_frame_line() {
    let bad = format!("m\n{}\nframe_id : f\n1,2,3,4,5,6\r\n1,2,3,4,5,6,7\n", DELIM);
    assert!(matches!(read_uvt_text(bad.as_bytes()), Err(UvtError::MalformedTrajLine(3))));
}

#[test]
fn crlf_lines_and_spaces_are_trimmed() {
    let text = format!("  m  \r\n{}\r\nframe_id :  base link \r\n1,2,3,4,5,6\r\n", DELIM);
    let r = read_uvt_text(text.as_bytes()).unwrap();
    assert_eq!(r.map, b"m".to_vec());
    assert_eq!(r.frame_id, "base link");
    assert_eq!(r.rows.len(), 1);
}

#[test]
fn missing_delimiter() {
    assert!(matches!(read_uvt_text(b"no delimiter here"), Err(UvtError::MissingDelimiter)));
}

#[test]
fn missing_frame_line() {
    let empty = format!("m\n{}\n   \n", DELIM);
    assert!(matches!(read_uvt_text(empty.as_bytes()), Err(UvtError::MissingFrameId)));
    let no_colon = format!("m\n{}\nframe_id base\n", DELIM);
    assert!(matches!(read_uvt_text(no_colon.as_bytes()), Err(UvtError::MissingFrameId)));
}

#[test]
fn frame_must_be_utf8() {
    let mut text = format!("m\n{}\nframe_id : ", DELIM).into_bytes();
    text.push(0xff);
    assert!(matches!(read_uvt_text(&text), Err(UvtError::InvalidUtf8)));
}

#[test]
fn unicode_white_space_is_trimmed() {
    let text = format!(
        "\u{a0}m\u{2028}\n{}\nframe_id :\u{3000}base\u{85} \n1,2,3,4,5,\u{2009}6\u{200a}\n",
        DELIM
    );
    let r = read_uvt_text(text.as_bytes()).unwrap();
    assert_eq!(r.map, b"m".to_vec());
    assert_eq!(r.frame_id, "base");
    assert_eq!(r.rows, vec![strings(&["1", "2", "3", "4", "5", "6"])]);
}

#[test]
fn non_space_multibyte_characters_are_kept() {
    let text = format!("m\n{}\nframe_id : \u{e9}t\u{e9}\n", DELIM);
    let r = read_uvt_text(text.as_bytes()).unwrap();
    assert_eq!(r.frame_id, "\u{e9}t\u{e9}");
}
