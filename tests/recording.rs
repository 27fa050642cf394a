use uvt::error::UvtError;
use uvt::recording::{
    recording_from_bag, recording_from_mcap, select_topic, Connection, ConnectionMessage,
    TopicMessage,
};

fn odometry(seq: u32, x: f64) -> Vec<u8> {
    let mut v = seq.to_le_bytes().to_vec();
    v.extend_from_slice(&0i32.to_le_bytes());
    v.extend_from_slice(&0u32.to_le_bytes());
    v.extend_from_slice(&3u32.to_le_bytes());
    v.extend_from_slice(b"map");
    v.extend_from_slice(&0u32.to_le_bytes());
    let mut vals = vec![x, 0.0, 0.0, 0.0, 0.0, 0.0, 1.0];
    vals.extend(std::iter::repeat(0.0).take(78));
    for f in vals {
        v.extend_from_slice(&f.to_le_bytes());
    }
    v
}

fn mcap_odometry(x: f64) -> Vec<u8> {
    let mut v = vec![0u8, 1, 0, 0];
    v.extend_from_slice(&0i32.to_le_bytes());
    v.extend_from_slice(&0u32.to_le_bytes());
    v.extend_from_slice(&4u32.to_le_bytes());
    v.extend_from_slice(b"map\0");
    v.extend_from_slice(&1u32.to_le_bytes());
    v.extend_from_slice(&[0, 0, 0, 0, 0, 0, 0, 0]);
    let mut vals = vec![x, 0.0, 0.0, 0.0, 0.0, 0.0, 1.0];
    vals.extend(std::iter::repeat(0.0).take(78));
    for f in vals {
        v.extend_from_slice(&f.to_le_bytes());
    }
    v
}

fn bag_cloud(points: &[f32]) -> Vec<u8> {
    let mut v = 0u32.to_le_bytes().to_vec();
    v.extend_from_slice(&0i32.to_le_bytes());
    v.extend_from_slice(&0u32.to_le_bytes());
    v.extend_from_slice(&0u32.to_le_bytes());
    v.extend_from_slice(&1u32.to_le_bytes());
    v.extend_from_slice(&((points.len() / 3) as u32).to_le_bytes());
    v.extend_from_slice(&3u32.to_le_bytes());
    for (i, n) in ["x", "y", "z"].iter().enumerate() {
        v.extend_from_slice(&1u32.to_le_bytes());
        v.extend_from_slice(n.as_bytes());
        v.extend_from_slice(&(4 * i as u32).to_le_bytes());
        v.push(7);
        v.extend_from_slice(&1u32.to_le_bytes());
    }
    v.push(0);
    v.extend_from_slice(&12u32.to_le_bytes());
    v.extend_from_slice(&((points.len() * 4) as u32).to_le_bytes());
    v.extend_from_slice(&((points.len() * 4) as u32).to_le_bytes());
    for p in points {
        v.extend_from_slice(&p.to_le_bytes());
    }
    v.push(1);
    v
}

fn mcap_cloud(points: &[f32]) -> Vec<u8> {
    let mut v = vec![0u8, 1, 0, 0];
    v.extend_from_slice(&0i32.to_le_bytes());
    v.extend_from_slice(&0u32.to_le_bytes());
    v.extend_from_slice(&1u32.to_le_bytes());
    v.extend_from_slice(&[0, 0, 0, 0]);
    v.extend_from_slice(&1u32.to_le_bytes());
    v.extend_from_slice(&((points.len() / 3) as u32).to_le_bytes());
    v.extend_from_slice(&3u32.to_le_bytes());
    for (i, n) in ["x", "y", "z"].iter().enumerate() {
        v.extend_from_slice(&2u32.to_le_bytes());
        v.extend_from_slice(n.as_bytes());
        v.extend_from_slice(&[0, 0, 0]);
        v.extend_from_slice(&(4 * i as u32).to_le_bytes());
        v.extend_from_slice(&[7, 0, 0, 0]);
        v.extend_from_slice(&1u32.to_le_bytes());
    }
    v.extend_from_slice(&[0, 0, 0, 0]);
    v.extend_from_slice(&12u32.to_le_bytes());
    v.extend_from_slice(&((points.len() * 4) as u32).to_le_bytes());
    v.extend_from_slice(&((points.len() * 4) as u32).to_le_bytes());
    for p in points {
        v.extend_from_slice(&p.to_le_bytes());
    }
    v.extend_from_slice(&[1, 0, 0, 0]);
    v
}

fn msg(topic: &str, data: Vec<u8>) -> TopicMessage {
    TopicMessage { topic: String::from(topic), data }
}

#[test]
fn select_topic_keeps_log_order() {
    let msgs = vec![msg("/a", vec![1]), msg("/b", vec![2]), msg("/a", vec![3])];
    assert_eq!(select_topic(&msgs, "/a"), vec![vec![1], vec![3]]);
    assert_eq!(select_topic(&msgs, "/c"), Vec::<Vec<u8>>::new());
}

#[test]
fn mcap_trajectory_in_wire_order() {
    let msgs = vec![
        msg("/odom", mcap_odometry(3.0)),
        msg("/map", mcap_cloud(&[1.0, 2.0, 3.0])),
        msg("/odom", mcap_odometry(1.0)),
        msg("/other", vec![0xff]),
        msg("/odom", mcap_odometry(2.0)),
        msg("/map", mcap_cloud(&[4.0, 5.0, 6.0, 7.0, 8.0, 9.0])),
    ];
    let r = recording_from_mcap(&msgs, "/map", "/odom").unwrap();
    let xs: Vec<f64> = r.trajectory.iter().map(|p| f64::from_bits(p.pose.position.x)).collect();
    assert_eq!(xs, vec![3.0, 1.0, 2.0]);
    assert_eq!(r.map.len(), 2);
    let (_, _, z) = r.map[1];
    assert_eq!(z, uvt::pointcloud::Scalar::Float32(9.0f32.to_bits()));
}

#[test]
fn missing_topic_is_reported() {
    let msgs = vec![msg("/map", mcap_cloud(&[1.0, 2.0, 3.0]))];
    assert!(matches!(recording_from_mcap(&msgs, "/map", "/odom"), Err(UvtError::TopicNotFound)));
}

#[test]
fn latest_map_without_points_is_empty_map() {
    let msgs = vec![
        msg("/map", mcap_cloud(&[1.0, 2.0, 3.0])),
        msg("/map", mcap_cloud(&[])),
        msg("/odom", mcap_odometry(1.0)),
    ];
    assert!(matches!(recording_from_mcap(&msgs, "/map", "/odom"), Err(UvtError::EmptyMap)));
}

#[test]
fn bad_trajectory_message_fails_all() {
    let msgs = vec![
        msg("/map", mcap_cloud(&[1.0, 2.0, 3.0])),
        msg("/odom", mcap_odometry(1.0)),
        msg("/odom", vec![0, 1, 0]),
    ];
    assert!(matches!(recording_from_mcap(&msgs, "/map", "/odom"), Err(UvtError::Underrun)));
}

#[test]
fn bag_uses_first_connection_of_topic() {
    let conns = vec![
        Connection { id: 4, topic: String::from("/odom") },
        Connection { id: 2, topic: String::from("/map") },
        Connection { id: 9, topic: String::from("/odom") },
    ];
    let msgs = vec![
        ConnectionMessage { conn_id: 4, data: odometry(1, 10.0) },
        ConnectionMessage { conn_id: 9, data: odometry(2, 20.0) },
        ConnectionMessage { conn_id: 2, data: bag_cloud(&[1.0, 1.0, 1.0]) },
        ConnectionMessage { conn_id: 4, data: odometry(3, 30.0) },
    ];
    let r = recording_from_bag(&conns, &msgs, "/map", "/odom").unwrap();
    let seqs: Vec<u32> = r.trajectory.iter().map(|p| p.header.seq).collect();
    assert_eq!(seqs, vec![1, 3]);
    assert_eq!(f64::from_bits(r.trajectory[1].pose.position.x), 30.0);
    assert_eq!(r.map.len(), 1);
}

#[test]
fn bag_without_connection_is_topic_not_found() {
    let conns = vec![Connection { id: 2, topic: String::from("/map") }];
    let msgs = vec![ConnectionMessage { conn_id: 2, data: bag_cloud(&[1.0, 1.0, 1.0]) }];
    assert!(matches!(recording_from_bag(&conns, &msgs, "/map", "/odom"), Err(UvtError::TopicNotFound)));
}
