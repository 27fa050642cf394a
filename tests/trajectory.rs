use uvt::bag::BagDeserializer;
use uvt::error::UvtError;
use uvt::mcap::McapDeserializer;
use uvt::trajectory::parse_trajectory;

fn values(position: [f64; 3], orientation: [f64; 4]) -> Vec<u8> {
    let mut v = Vec::new();
    for x in position.iter().chain(orientation.iter()) {
        v.extend_from_slice(&x.to_le_bytes());
    }
    for i in 0..78 {
        v.extend_from_slice(&(i as f64 * 0.5).to_le_bytes());
    }
    v
}

fn mcap_odometry(child: &str) -> Vec<u8> {
    let mut v = vec![0u8, 1, 0, 0];
    v.extend_from_slice(&100i32.to_le_bytes());
    v.extend_from_slice(&200u32.to_le_bytes());
    v.extend_from_slice(&4u32.to_le_bytes());
    v.extend_from_slice(b"map\0");
    let n = child.len() + 1;
    v.extend_from_slice(&(n as u32).to_le_bytes());
    v.extend_from_slice(child.as_bytes());
    v.push(0);
    for _ in 0..((8 - n % 8) % 8) {
        v.push(0xee);
    }
    v.extend_from_slice(&values([1.5, 2.5, 3.5], [0.0, 0.0, 0.0, 1.0]));
    v
}

#[test]
fn mcap_child_frame_pads_to_eight() {
    let msg = mcap_odometry("base");
    let p = parse_trajectory(McapDeserializer::new(msg)).unwrap();
    assert_eq!(p.header.seq, 0);
    assert_eq!(p.header.stamp.sec, 100);
    assert_eq!(p.header.stamp.nanosec, 200);
    assert_eq!(p.header.frame_id, "map");
    assert_eq!(f64::from_bits(p.pose.position.x), 1.5);
    assert_eq!(f64::from_bits(p.pose.position.y), 2.5);
    assert_eq!(f64::from_bits(p.pose.position.z), 3.5);
    assert_eq!(f64::from_bits(p.pose.orientation.x), 0.0);
    assert_eq!(f64::from_bits(p.pose.orientation.w), 1.0);
}

#[test]
fn mcap_child_frames_of_other_lengths() {
    for child in ["", "a", "base_link", "abcdefg"] {
        let p = parse_trajectory(McapDeserializer::new(mcap_odometry(child))).unwrap();
        assert_eq!(f64::from_bits(p.pose.position.x), 1.5);
        assert_eq!(f64::from_bits(p.pose.orientation.w), 1.0);
    }
}

#[test]
fn bag_odometry_parses() {
    let mut v = 3u32.to_le_bytes().to_vec();
    v.extend_from_slice(&7i32.to_le_bytes());
    v.extend_from_slice(&8u32.to_le_bytes());
    v.extend_from_slice(&4u32.to_le_bytes());
    v.extend_from_slice(b"odom");
    v.extend_from_slice(&9u32.to_le_bytes());
    v.extend_from_slice(b"base_link");
    v.extend_from_slice(&values([-1.0, 0.0, 4.0], [0.1, 0.2, 0.3, 0.9]));
    let p = parse_trajectory(BagDeserializer::new(v)).unwrap();
    assert_eq!(p.header.seq, 3);
    assert_eq!(p.header.frame_id, "odom");
    assert_eq!(f64::from_bits(p.pose.position.x), -1.0);
    assert_eq!(f64::from_bits(p.pose.position.z), 4.0);
    assert_eq!(f64::from_bits(p.pose.orientation.y), 0.2);
    assert_eq!(f64::from_bits(p.pose.orientation.w), 0.9);
}

#[test]
fn odometry_needs_covariance_and_twist() {
    let mut msg = mcap_odometry("base");
    msg.truncate(msg.len() - 1);
    assert_eq!(parse_trajectory(McapDeserializer::new(msg)), Err(UvtError::Underrun));
}
