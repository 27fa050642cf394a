//! Message building blocks shared by the decoders: time stamps, headers and
//! poses.
use vstd::prelude::*;
use std::time::Duration;

verus! {

/// Whole seconds of a duration, as `Duration::as_secs` reports them.
pub uninterp spec fn secs_of(d: Duration) -> u64;

/// Sub-second nanoseconds of a duration, as `Duration::subsec_nanos` reports them.
pub uninterp spec fn subsec_nanos_of(d: Duration) -> u32;

pub const NANOS_PER_SEC: u32 = 1_000_000_000;

/// Relies on `Duration::as_secs`: the whole seconds of the duration.
pub assume_specification[ Duration::as_secs ](d: &Duration) -> (r: u64)
    ensures
        r == secs_of(*d),
;

/// Relies on `Duration::subsec_nanos`: the fractional part in nanoseconds,
/// which the documentation bounds by one second.
pub assume_specification[ Duration::subsec_nanos ](d: &Duration) -> (r: u32)
    ensures
        r == subsec_nanos_of(*d),
        r < NANOS_PER_SEC,
;

/// Relies on `Duration::new`: nanoseconds beyond one billion carry into the
/// seconds; it panics when that carry overflows the seconds.
pub assume_specification[ Duration::new ](secs: u64, nanos: u32) -> (r: Duration)
    requires
        secs + nanos / NANOS_PER_SEC <= u64::MAX,
    ensures
        secs_of(r) == secs + nanos / NANOS_PER_SEC,
        subsec_nanos_of(r) == nanos % NANOS_PER_SEC,
;

/// A time stamp: seconds and nanoseconds.
#[derive(Debug, Clone, Copy, PartialEq, Eq, Structural)]
pub struct Time {
    pub sec: i32,
    pub nanosec: u32,
}

impl Time {
    /// The stamp of a duration: its whole seconds (wrapped into `i32`) and its
    /// sub-second nanoseconds.
    pub fn from_duration(d: Duration) -> (t: Time)
        ensures
            t.sec == secs_of(d) as i32,
            t.nanosec == subsec_nanos_of(d),
    {
        Time { sec: d.as_secs() as i32, nanosec: d.subsec_nanos() }
    }

    /// The duration of a stamp. Negative seconds are read as their `u64`
    /// two's-complement image; when the nanosecond carry would then overflow,
    /// the result saturates at the largest duration.
    pub fn to_duration(&self) -> (d: Duration)
        ensures
            (self.sec as u64) + self.nanosec / NANOS_PER_SEC <= u64::MAX ==> {
                &&& secs_of(d) == (self.sec as u64) + self.nanosec / NANOS_PER_SEC
                &&& subsec_nanos_of(d) == self.nanosec % NANOS_PER_SEC
            },
            (self.sec as u64) + self.nanosec / NANOS_PER_SEC > u64::MAX ==> {
                &&& secs_of(d) == u64::MAX
                &&& subsec_nanos_of(d) == NANOS_PER_SEC - 1
            },
    {
        let secs = self.sec as u64;
        let carry = self.nanosec / NANOS_PER_SEC;
        if secs <= u64::MAX - (carry as u64) {
            Duration::new(secs, self.nanosec)
        } else {
            Duration::new(u64::MAX, NANOS_PER_SEC - 1)
        }
    }
}

impl From<Duration> for Time {
    /// See `Time::from_duration`.
    fn from(d: Duration) -> (t: Time) {
        Time::from_duration(d)
    }
}

impl vstd::std_specs::convert::FromSpecImpl<Duration> for Time {
    open spec fn obeys_from_spec() -> bool {
        true
    }

    open spec fn from_spec(d: Duration) -> Time {
        Time { sec: secs_of(d) as i32, nanosec: subsec_nanos_of(d) }
    }
}

impl From<Time> for Duration {
    /// See `Time::to_duration`.
    fn from(t: Time) -> (d: Duration) {
        t.to_duration()
    }
}

impl vstd::std_specs::convert::FromSpecImpl<Time> for Duration {
    /// A duration is opaque: its value is told by `secs_of` and
    /// `subsec_nanos_of` through `Time::to_duration`.
    open spec fn obeys_from_spec() -> bool {
        false
    }

    open spec fn from_spec(t: Time) -> Duration {
        arbitrary()
    }
}

/// A duration under `2^31` seconds survives the trip through a stamp: the
/// duration rebuilt from `Time::from_duration(d)` has the seconds and the
/// sub-second nanoseconds of `d`.
pub proof fn lemma_duration_round_trip(d: Duration)
    requires
        secs_of(d) < 0x8000_0000,
        subsec_nanos_of(d) < NANOS_PER_SEC,
    ensures
        ({
            let t = Time { sec: secs_of(d) as i32, nanosec: subsec_nanos_of(d) };
            &&& (t.sec as u64) + t.nanosec / NANOS_PER_SEC <= u64::MAX
            &&& (t.sec as u64) + t.nanosec / NANOS_PER_SEC == secs_of(d)
            &&& t.nanosec % NANOS_PER_SEC == subsec_nanos_of(d)
        }),
{
}

/// A message header: sequence number, time stamp and coordinate frame.
#[derive(Debug, Clone, PartialEq)]
pub struct Header {
    /// Informational; transports that do not carry it report `0`.
    pub seq: u32,
    pub stamp: Time,
    pub frame_id: String,
}

/// What a header holds, with the frame as characters.
pub struct HeaderView {
    pub seq: u32,
    pub stamp: Time,
    pub frame_id: Seq<char>,
}

impl View for Header {
    type V = HeaderView;

    open spec fn view(&self) -> HeaderView {
        HeaderView { seq: self.seq, stamp: self.stamp, frame_id: self.frame_id@ }
    }
}

/// A position whose coordinates are IEEE-754 binary64 values, kept as the bit
/// patterns read from the wire.
#[derive(Debug, Clone, Copy, PartialEq, Eq, Structural)]
pub struct PointBits {
    pub x: u64,
    pub y: u64,
    pub z: u64,
}

/// An orientation quaternion `(x, y, z, w)` whose components are IEEE-754
/// binary64 values, kept as the bit patterns read from the wire.
#[derive(Debug, Clone, Copy, PartialEq, Eq, Structural)]
pub struct QuaternionBits {
    pub x: u64,
    pub y: u64,
    pub z: u64,
    pub w: u64,
}

/// The sign bit of an IEEE-754 binary64 value.
pub const SIGN_BIT: u64 = 0x8000_0000_0000_0000;

/// IEEE-754 negation: the value with its sign bit flipped.
pub open spec fn negated(v: u64) -> u64 {
    v ^ SIGN_BIT
}

impl QuaternionBits {
    /// The conjugate `w - xi - yj - zk`: the vector part negated (its sign
    /// bits flipped, as IEEE-754 negation does), `w` kept.
    pub fn conjugate(&self) -> (r: QuaternionBits)
        ensures
            r.x == negated(self.x),
            r.y == negated(self.y),
            r.z == negated(self.z),
            r.w == self.w,
    {
        QuaternionBits {
            x: self.x ^ SIGN_BIT,
            y: self.y ^ SIGN_BIT,
            z: self.z ^ SIGN_BIT,
            w: self.w,
        }
    }
}

/// Conjugating twice gives back the quaternion, bit for bit.
pub proof fn lemma_conjugate_involution(q: QuaternionBits)
    ensures
        negated(negated(q.x)) == q.x,
        negated(negated(q.y)) == q.y,
        negated(negated(q.z)) == q.z,
{
    let (x, y, z) = (q.x, q.y, q.z);
    assert((x ^ 0x8000_0000_0000_0000u64) ^ 0x8000_0000_0000_0000u64 == x) by (bit_vector);
    assert((y ^ 0x8000_0000_0000_0000u64) ^ 0x8000_0000_0000_0000u64 == y) by (bit_vector);
    assert((z ^ 0x8000_0000_0000_0000u64) ^ 0x8000_0000_0000_0000u64 == z) by (bit_vector);
}

/// A position and an orientation, as read from the wire.
#[derive(Debug, Clone, Copy, PartialEq, Eq, Structural)]
pub struct PoseBits {
    pub position: PointBits,
    pub orientation: QuaternionBits,
}

/// A pose with its header, as read from the wire.
#[derive(Debug, Clone, PartialEq)]
pub struct PoseStampedBits {
    pub header: Header,
    pub pose: PoseBits,
}

pub struct PoseStampedBitsView {
    pub header: HeaderView,
    pub pose: PoseBits,
}

impl View for PoseStampedBits {
    type V = PoseStampedBitsView;

    open spec fn view(&self) -> PoseStampedBitsView {
        PoseStampedBitsView { header: self.header@, pose: self.pose }
    }
}

} // verus!
