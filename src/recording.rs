//! Assembly of a recording from the messages of a Bag or MCAP log: picking
//! the messages of the map and trajectory topics, decoding each, and keeping
//! the most recent map.
use vstd::prelude::*;
use vstd::slice::slice_to_vec;
use crate::bag::BagDeserializer;
use crate::deserialization::Encoding;
use crate::error::UvtError;
use crate::mcap::McapDeserializer;
use crate::pointcloud::{parse_pointcloud, parsed, spec_pointcloud, spec_xyz_points, Scalar};
use crate::pose::{PoseStampedBits, PoseStampedBitsView};
use crate::trajectory::{parse_trajectory, spec_trajectory};

verus! {

/// A message of a log whose records name their topic (MCAP).
pub struct TopicMessage {
    pub topic: String,
    pub data: Vec<u8>,
}

/// A connection record of a Bag index: a connection id and its topic.
pub struct Connection {
    pub id: u32,
    pub topic: String,
}

/// A message of a Bag chunk, tagged with its connection id.
pub struct ConnectionMessage {
    pub conn_id: u32,
    pub data: Vec<u8>,
}

/// The payloads, in log order, of the messages on `topic`.
pub open spec fn on_topic(ms: Seq<TopicMessage>, topic: Seq<char>) -> Seq<Seq<u8>>
    decreases ms.len(),
{
    if ms.len() == 0 {
        Seq::empty()
    } else if ms.last().topic@ == topic {
        on_topic(ms.drop_last(), topic).push(ms.last().data@)
    } else {
        on_topic(ms.drop_last(), topic)
    }
}

/// The payloads, in log order, of the messages on connection `id`.
pub open spec fn on_connection(ms: Seq<ConnectionMessage>, id: u32) -> Seq<Seq<u8>>
    decreases ms.len(),
{
    if ms.len() == 0 {
        Seq::empty()
    } else if ms.last().conn_id == id {
        on_connection(ms.drop_last(), id).push(ms.last().data@)
    } else {
        on_connection(ms.drop_last(), id)
    }
}

/// The first connection record on `topic`, from index `i` on.
pub open spec fn first_connection_from(cs: Seq<Connection>, topic: Seq<char>, i: int) -> Option<u32>
    decreases cs.len() - i,
{
    if i < 0 || i >= cs.len() {
        None
    } else if cs[i].topic@ == topic {
        Some(cs[i].id)
    } else {
        first_connection_from(cs, topic, i + 1)
    }
}

/// The payloads of the messages on the first connection of `topic`.
pub open spec fn on_bag_topic(cs: Seq<Connection>, ms: Seq<ConnectionMessage>, topic: Seq<char>) -> Seq<Seq<u8>> {
    match first_connection_from(cs, topic, 0) {
        Some(id) => on_connection(ms, id),
        None => Seq::empty(),
    }
}

/// Every payload decoded as an odometry message, in order; the first
/// failure fails the whole.
pub open spec fn parse_all_poses(enc: Encoding, ms: Seq<Seq<u8>>) -> Result<Seq<PoseStampedBitsView>, UvtError>
    decreases ms.len(),
{
    if ms.len() == 0 {
        Ok(Seq::empty())
    } else {
        match parse_all_poses(enc, ms.drop_last()) {
            Err(e) => Err(e),
            Ok(ps) => match spec_trajectory(enc, ms.last(), 0) {
                Err(e) => Err(e),
                Ok((p, _)) => Ok(ps.push(p)),
            },
        }
    }
}

/// The `(x, y, z)` points of one point-cloud payload.
pub open spec fn cloud_points(enc: Encoding, m: Seq<u8>) -> Result<Seq<(Scalar, Scalar, Scalar)>, UvtError> {
    match spec_pointcloud(enc, m, 0) {
        Err(e) => Err(e),
        Ok((c, _)) => spec_xyz_points(c),
    }
}

/// The points of every point-cloud payload, in order; the first failure
/// fails the whole.
pub open spec fn parse_all_clouds(enc: Encoding, ms: Seq<Seq<u8>>) -> Result<Seq<Seq<(Scalar, Scalar, Scalar)>>, UvtError>
    decreases ms.len(),
{
    if ms.len() == 0 {
        Ok(Seq::empty())
    } else {
        match parse_all_clouds(enc, ms.drop_last()) {
            Err(e) => Err(e),
            Ok(cs) => match cloud_points(enc, ms.last()) {
                Err(e) => Err(e),
                Ok(c) => Ok(cs.push(c)),
            },
        }
    }
}

/// The map of a recording: the points of the most recent map message,
/// which must have some.
pub open spec fn spec_map(enc: Encoding, ms: Seq<Seq<u8>>) -> Result<Seq<(Scalar, Scalar, Scalar)>, UvtError> {
    match parse_all_clouds(enc, ms) {
        Err(e) => Err(e),
        Ok(cs) => if cs.len() == 0 || cs.last().len() == 0 {
            Err(UvtError::EmptyMap)
        } else {
            Ok(cs.last())
        },
    }
}

/// A recording: the map points and the trajectory.
pub struct Recording {
    pub map: Vec<(Scalar, Scalar, Scalar)>,
    pub trajectory: Vec<PoseStampedBits>,
}

pub struct RecordingView {
    pub map: Seq<(Scalar, Scalar, Scalar)>,
    pub trajectory: Seq<PoseStampedBitsView>,
}

impl View for Recording {
    type V = RecordingView;

    open spec fn view(&self) -> RecordingView {
        RecordingView {
            map: self.map@,
            trajectory: self.trajectory@.map_values(|p: PoseStampedBits| p@),
        }
    }
}

/// The recording made of the payloads of the map topic and of the
/// trajectory topic: `TopicNotFound` when either has none, else the map of
/// the map payloads and the poses of the trajectory payloads, in order.
pub open spec fn spec_assemble(enc: Encoding, map_msgs: Seq<Seq<u8>>, traj_msgs: Seq<Seq<u8>>) -> Result<RecordingView, UvtError> {
    if map_msgs.len() == 0 || traj_msgs.len() == 0 {
        Err(UvtError::TopicNotFound)
    } else {
        match spec_map(enc, map_msgs) {
            Err(e) => Err(e),
            Ok(map) => match parse_all_poses(enc, traj_msgs) {
                Err(e) => Err(e),
                Ok(trajectory) => Ok(RecordingView { map, trajectory }),
            },
        }
    }
}

/// The payloads of the messages on `topic`, in log order.
pub fn select_topic(msgs: &Vec<TopicMessage>, topic: &str) -> (r: Vec<Vec<u8>>)
    ensures
        r@.map_values(|m: Vec<u8>| m@) == on_topic(msgs@, topic@),
{
    let t = topic.to_owned();
    let mut out: Vec<Vec<u8>> = Vec::new();
    let mut i: usize = 0;
    while i < msgs.len()
        invariant
            t@ == topic@,
            i <= msgs@.len(),
            out@.map_values(|m: Vec<u8>| m@) == on_topic(msgs@.take(i as int), topic@),
        decreases msgs@.len() - i,
    {
        let m = &msgs[i];
        assert(msgs@.take(i + 1).drop_last() =~= msgs@.take(i as int));
        assert(msgs@.take(i + 1).last() == msgs@[i as int]);
        if m.topic == t {
            let ghost prev = out@;
            out.push(slice_to_vec(m.data.as_slice()));
            assert(out@.map_values(|m: Vec<u8>| m@) =~= prev.map_values(|m: Vec<u8>| m@).push(
                msgs@[i as int].data@,
            ));
        }
        i = i + 1;
    }
    assert(msgs@.take(msgs@.len() as int) =~= msgs@);
    out
}

/// Id of the first connection record on `topic`.
fn find_connection(conns: &Vec<Connection>, topic: &str) -> (r: Option<u32>)
    ensures
        r == first_connection_from(conns@, topic@, 0),
{
    let t = topic.to_owned();
    let mut j: usize = 0;
    while j < conns.len()
        invariant
            t@ == topic@,
            j <= conns@.len(),
            first_connection_from(conns@, topic@, 0) == first_connection_from(conns@, topic@, j as int),
        decreases conns@.len() - j,
    {
        if conns[j].topic == t {
            return Some(conns[j].id);
        }
        j = j + 1;
    }
    None
}

/// The payloads of the messages on the first connection of `topic`, in log
/// order; none when no connection carries the topic.
pub fn select_connection_topic(conns: &Vec<Connection>, msgs: &Vec<ConnectionMessage>, topic: &str) -> (r: Vec<Vec<u8>>)
    ensures
        r@.map_values(|m: Vec<u8>| m@) == on_bag_topic(conns@, msgs@, topic@),
{
    let found = find_connection(conns, topic);
    let id = match found {
        Some(id) => id,
        None => {
            let out: Vec<Vec<u8>> = Vec::new();
            assert(out@.map_values(|m: Vec<u8>| m@) =~= Seq::<Seq<u8>>::empty());
            return out;
        },
    };
    let mut out: Vec<Vec<u8>> = Vec::new();
    let mut i: usize = 0;
    while i < msgs.len()
        invariant
            first_connection_from(conns@, topic@, 0) == Some(id),
            i <= msgs@.len(),
            out@.map_values(|m: Vec<u8>| m@) == on_connection(msgs@.take(i as int), id),
        decreases msgs@.len() - i,
    {
        let m = &msgs[i];
        assert(msgs@.take(i + 1).drop_last() =~= msgs@.take(i as int));
        assert(msgs@.take(i + 1).last() == msgs@[i as int]);
        if m.conn_id == id {
            let ghost prev = out@;
            out.push(slice_to_vec(m.data.as_slice()));
            assert(out@.map_values(|m: Vec<u8>| m@) =~= prev.map_values(|m: Vec<u8>| m@).push(
                msgs@[i as int].data@,
            ));
        }
        i = i + 1;
    }
    assert(msgs@.take(msgs@.len() as int) =~= msgs@);
    out
}


/// Decodes one odometry payload with the transport's decoder.
pub fn decode_pose(enc: Encoding, data: Vec<u8>) -> (r: Result<PoseStampedBits, UvtError>)
    ensures
        parsed(r, spec_trajectory(enc, data@, 0)),
{
    match enc {
        Encoding::Bag => parse_trajectory(BagDeserializer::new(data)),
        Encoding::Mcap => parse_trajectory(McapDeserializer::new(data)),
    }
}

/// Decodes one point-cloud payload with the transport's decoder and takes
/// its `(x, y, z)` points.
pub fn decode_cloud_points(enc: Encoding, data: Vec<u8>) -> (r: Result<Vec<(Scalar, Scalar, Scalar)>, UvtError>)
    ensures
        match cloud_points(enc, data@) {
            Ok(v) => r matches Ok(got) && got@ == v,
            Err(e) => r == Err::<Vec<(Scalar, Scalar, Scalar)>, UvtError>(e),
        },
{
    let cloud = match enc {
        Encoding::Bag => parse_pointcloud(BagDeserializer::new(data)),
        Encoding::Mcap => parse_pointcloud(McapDeserializer::new(data)),
    };
    match cloud {
        Ok(c) => c.xyz_points(),
        Err(e) => Err(e),
    }
}

/// Decodes every odometry payload, keeping their order.
pub fn decode_poses(enc: Encoding, msgs: &Vec<Vec<u8>>) -> (r: Result<Vec<PoseStampedBits>, UvtError>)
    ensures
        match parse_all_poses(enc, msgs@.map_values(|m: Vec<u8>| m@)) {
            Ok(v) => r matches Ok(got) && got@.map_values(|p: PoseStampedBits| p@) == v,
            Err(e) => r == Err::<Vec<PoseStampedBits>, UvtError>(e),
        },
{
    let ghost ms = msgs@.map_values(|m: Vec<u8>| m@);
    let mut out: Vec<PoseStampedBits> = Vec::new();
    assert(ms.take(0) =~= Seq::<Seq<u8>>::empty());
    assert(out@.map_values(|p: PoseStampedBits| p@) =~= Seq::<PoseStampedBitsView>::empty());
    let mut i: usize = 0;
    while i < msgs.len()
        invariant
            ms == msgs@.map_values(|m: Vec<u8>| m@),
            i <= msgs@.len(),
            parse_all_poses(enc, ms.take(i as int)) == Ok::<Seq<PoseStampedBitsView>, UvtError>(
                out@.map_values(|p: PoseStampedBits| p@),
            ),
        decreases msgs@.len() - i,
    {
        assert(ms.take(i + 1).drop_last() =~= ms.take(i as int));
        assert(ms.take(i + 1).last() == msgs@[i as int]@);
        match decode_pose(enc, slice_to_vec(msgs[i].as_slice())) {
            Ok(p) => {
                let ghost prev = out@;
                out.push(p);
                assert(out@.map_values(|p: PoseStampedBits| p@) =~= prev.map_values(
                    |p: PoseStampedBits| p@,
                ).push(p@));
            },
            Err(e) => {
                proof {
                    lemma_poses_fail(enc, ms, (i + 1) as int);
                }
                return Err(e);
            },
        }
        i = i + 1;
    }
    assert(ms.take(msgs@.len() as int) =~= ms);
    Ok(out)
}

proof fn lemma_poses_fail(enc: Encoding, ms: Seq<Seq<u8>>, k: int)
    requires
        0 < k <= ms.len(),
        parse_all_poses(enc, ms.take(k)) is Err,
    ensures
        parse_all_poses(enc, ms) == parse_all_poses(enc, ms.take(k)),
    decreases ms.len() - k,
{
    if k < ms.len() {
        assert(ms.take(k + 1).drop_last() =~= ms.take(k));
        lemma_poses_fail(enc, ms, k + 1);
    } else {
        assert(ms.take(k) =~= ms);
    }
}

proof fn lemma_clouds_fail(enc: Encoding, ms: Seq<Seq<u8>>, k: int)
    requires
        0 < k <= ms.len(),
        parse_all_clouds(enc, ms.take(k)) is Err,
    ensures
        parse_all_clouds(enc, ms) == parse_all_clouds(enc, ms.take(k)),
    decreases ms.len() - k,
{
    if k < ms.len() {
        assert(ms.take(k + 1).drop_last() =~= ms.take(k));
        lemma_clouds_fail(enc, ms, k + 1);
    } else {
        assert(ms.take(k) =~= ms);
    }
}

/// Decodes every map payload and keeps the points of the most recent one.
pub fn decode_map(enc: Encoding, msgs: &Vec<Vec<u8>>) -> (r: Result<Vec<(Scalar, Scalar, Scalar)>, UvtError>)
    ensures
        match spec_map(enc, msgs@.map_values(|m: Vec<u8>| m@)) {
            Ok(v) => r matches Ok(got) && got@ == v,
            Err(e) => r == Err::<Vec<(Scalar, Scalar, Scalar)>, UvtError>(e),
        },
{
    let ghost ms = msgs@.map_values(|m: Vec<u8>| m@);
    let ghost mut all: Seq<Seq<(Scalar, Scalar, Scalar)>> = Seq::empty();
    let mut last: Vec<(Scalar, Scalar, Scalar)> = Vec::new();
    let mut i: usize = 0;
    while i < msgs.len()
        invariant
            ms == msgs@.map_values(|m: Vec<u8>| m@),
            i <= msgs@.len(),
            parse_all_clouds(enc, ms.take(i as int)) == Ok::<Seq<Seq<(Scalar, Scalar, Scalar)>>, UvtError>(all),
            all.len() == i,
            i > 0 ==> last@ == all.last(),
        decreases msgs@.len() - i,
    {
        assert(ms.take(i + 1).drop_last() =~= ms.take(i as int));
        assert(ms.take(i + 1).last() == msgs@[i as int]@);
        match decode_cloud_points(enc, slice_to_vec(msgs[i].as_slice())) {
            Ok(pts) => {
                proof {
                    all = all.push(pts@);
                }
                last = pts;
            },
            Err(e) => {
                proof {
                    lemma_clouds_fail(enc, ms, (i + 1) as int);
                }
                return Err(e);
            },
        }
        i = i + 1;
    }
    assert(ms.take(msgs@.len() as int) =~= ms);
    if msgs.len() == 0 || last.len() == 0 {
        return Err(UvtError::EmptyMap);
    }
    Ok(last)
}

/// Builds a recording from the payloads of the map topic and of the
/// trajectory topic.
pub fn assemble(enc: Encoding, map_msgs: &Vec<Vec<u8>>, traj_msgs: &Vec<Vec<u8>>) -> (r: Result<Recording, UvtError>)
    ensures
        match spec_assemble(
            enc,
            map_msgs@.map_values(|m: Vec<u8>| m@),
            traj_msgs@.map_values(|m: Vec<u8>| m@),
        ) {
            Ok(v) => r matches Ok(got) && got@ == v,
            Err(e) => r matches Err(g) && g == e,
        },
{
    if map_msgs.len() == 0 || traj_msgs.len() == 0 {
        return Err(UvtError::TopicNotFound);
    }
    let map = match decode_map(enc, map_msgs) {
        Ok(m) => m,
        Err(e) => return Err(e),
    };
    let trajectory = match decode_poses(enc, traj_msgs) {
        Ok(t) => t,
        Err(e) => return Err(e),
    };
    Ok(Recording { map, trajectory })
}

/// Builds a recording from the messages of an MCAP log, selected by topic.
pub fn recording_from_mcap(msgs: &Vec<TopicMessage>, map_topic: &str, traj_topic: &str) -> (r: Result<Recording, UvtError>)
    ensures
        match spec_assemble(Encoding::Mcap, on_topic(msgs@, map_topic@), on_topic(msgs@, traj_topic@)) {
            Ok(v) => r matches Ok(got) && got@ == v,
            Err(e) => r matches Err(g) && g == e,
        },
{
    let map_msgs = select_topic(msgs, map_topic);
    let traj_msgs = select_topic(msgs, traj_topic);
    assemble(Encoding::Mcap, &map_msgs, &traj_msgs)
}

/// Builds a recording from the connection records and chunk messages of a
/// Bag log, selected by the first connection of each topic.
pub fn recording_from_bag(
    conns: &Vec<Connection>,
    msgs: &Vec<ConnectionMessage>,
    map_topic: &str,
    traj_topic: &str,
) -> (r: Result<Recording, UvtError>)
    ensures
        match spec_assemble(
            Encoding::Bag,
            on_bag_topic(conns@, msgs@, map_topic@),
            on_bag_topic(conns@, msgs@, traj_topic@),
        ) {
            Ok(v) => r matches Ok(got) && got@ == v,
            Err(e) => r matches Err(g) && g == e,
        },
{
    let map_msgs = select_connection_topic(conns, msgs, map_topic);
    let traj_msgs = select_connection_topic(conns, msgs, traj_topic);
    assemble(Encoding::Bag, &map_msgs, &traj_msgs)
}

/// Path ordering: the trajectory of a recording has one pose per message of
/// the trajectory topic, each decoded from the message at the same place in
/// the log.
pub proof fn lemma_path_ordering(enc: Encoding, map_msgs: Seq<Seq<u8>>, traj_msgs: Seq<Seq<u8>>)
    requires
        spec_assemble(enc, map_msgs, traj_msgs) is Ok,
    ensures
        spec_assemble(enc, map_msgs, traj_msgs)->Ok_0.trajectory.len() == traj_msgs.len(),
        forall|i: int|
            0 <= i < traj_msgs.len() ==> spec_trajectory(enc, #[trigger] traj_msgs[i], 0) is Ok
                && spec_assemble(enc, map_msgs, traj_msgs)->Ok_0.trajectory[i] == spec_trajectory(
                enc,
                traj_msgs[i],
                0,
            )->Ok_0.0,
{
    lemma_poses_in_order(enc, traj_msgs);
}

proof fn lemma_poses_in_order(enc: Encoding, ms: Seq<Seq<u8>>)
    requires
        parse_all_poses(enc, ms) is Ok,
    ensures
        parse_all_poses(enc, ms)->Ok_0.len() == ms.len(),
        forall|i: int|
            0 <= i < ms.len() ==> spec_trajectory(enc, #[trigger] ms[i], 0) is Ok && parse_all_poses(
                enc,
                ms,
            )->Ok_0[i] == spec_trajectory(enc, ms[i], 0)->Ok_0.0,
    decreases ms.len(),
{
    if ms.len() > 0 {
        let init = ms.drop_last();
        lemma_poses_in_order(enc, init);
        assert forall|i: int| 0 <= i < ms.len() implies spec_trajectory(enc, #[trigger] ms[i], 0) is Ok
            && parse_all_poses(enc, ms)->Ok_0[i] == spec_trajectory(enc, ms[i], 0)->Ok_0.0 by {
            if i < ms.len() - 1 {
                assert(init[i] == ms[i]);
            }
        }
    }
}

} // verus!
