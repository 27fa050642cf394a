use std::time::Duration;
use uvt::pose::Time;

#[test]
fn test_duration_time_conversion() {
    let duration = Duration::new(10, 250_000_000);
    let time: Time = duration.into();
    let converted_duration: Duration = time.into();

    assert_eq!(duration, converted_duration);
}

#[test]
fn time_from_duration_keeps_parts() {
    let time = Time::from_duration(Duration::new(1_700_000_000, 999_999_999));
    assert_eq!(time.sec, 1_700_000_000);
    assert_eq!(time.nanosec, 999_999_999);
}

#[test]
fn duration_round_trip_near_limit() {
    let d = Duration::new((1u64 << 31) - 1, 1);
    let back: Duration = Time::from(d).into();
    assert_eq!(back, d);
}

#[test]
fn time_nanoseconds_carry_into_seconds() {
    let t = Time { sec: 3, nanosec: 2_500_000_000 };
    assert_eq!(t.to_duration(), Duration::new(5, 500_000_000));
}

#[test]
fn time_overflowing_carry_saturates() {
    let t = Time { sec: -1, nanosec: 1_000_000_000 };
    assert_eq!(t.to_duration(), Duration::new(u64::MAX, 999_999_999));
}

#[test]
fn conjugate_negates_vector_part() {
    let q = uvt::pose::QuaternionBits {
        x: 1.0f64.to_bits(),
        y: (-2.0f64).to_bits(),
        z: 3.0f64.to_bits(),
        w: (-4.0f64).to_bits(),
    };
    let c = q.conjugate();
    assert_eq!(f64::from_bits(c.x), -1.0);
    assert_eq!(f64::from_bits(c.y), 2.0);
    assert_eq!(f64::from_bits(c.z), -3.0);
    assert_eq!(f64::from_bits(c.w), -4.0);
    assert_eq!(c.conjugate(), q);
}
