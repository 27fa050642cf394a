//! Odometry messages (pose with covariance, plus twist): only the stamped
//! pose is kept.
use vstd::prelude::*;
use crate::bag::BagDeserializer;
use crate::deserialization::{
    spec_header, spec_lp_string_aligned, stepped, u64_at, BufferReader, Encoding,
};
use crate::error::UvtError;
use crate::mcap::McapDeserializer;
use crate::pointcloud::parsed;
use crate::pose::{PointBits, PoseBits, PoseStampedBits, PoseStampedBitsView, QuaternionBits};

verus! {

/// Values in a 6 x 6 covariance matrix.
pub const COVARIANCE_LEN: usize = 36;

/// `k` consecutive binary64 bit patterns from `p` on, when they are there.
pub open spec fn spec_f64_block(b: Seq<u8>, p: int, k: nat) -> Result<(Seq<u64>, int), UvtError> {
    if 0 <= p && p + 8 * k <= b.len() {
        Ok((Seq::new(k, |i: int| u64_at(b, p + 8 * i)), p + 8 * k))
    } else {
        Err(UvtError::Underrun)
    }
}

pub open spec fn spec_position(b: Seq<u8>, p: int) -> Result<(PointBits, int), UvtError> {
    match spec_f64_block(b, p, 3) {
        Err(e) => Err(e),
        Ok((v, q)) => Ok((PointBits { x: v[0], y: v[1], z: v[2] }, q)),
    }
}

/// The quaternion in wire order `x, y, z, w`.
pub open spec fn spec_orientation(b: Seq<u8>, p: int) -> Result<(QuaternionBits, int), UvtError> {
    match spec_f64_block(b, p, 4) {
        Err(e) => Err(e),
        Ok((v, q)) => Ok((QuaternionBits { x: v[0], y: v[1], z: v[2], w: v[3] }, q)),
    }
}

/// Binary64 values after the orientation: pose covariance (36), twist
/// linear (3) and angular (3), twist covariance (36).
pub open spec fn trailing_values() -> nat {
    78
}

/// A whole odometry message: header, child frame (aligned to 8, dropped),
/// position, orientation, then the covariances and twist, which must be
/// there but are dropped.
#[verifier::opaque]
pub open spec fn spec_trajectory(enc: Encoding, b: Seq<u8>, p: int) -> Result<(PoseStampedBitsView, int), UvtError> {
    match spec_header(enc, b, p) {
        Err(e) => Err(e),
        Ok((header, pos1)) => match spec_lp_string_aligned(enc, b, pos1, 8) {
            Err(e) => Err(e),
            Ok((_, pos2)) => match spec_position(b, pos2) {
                Err(e) => Err(e),
                Ok((position, pos3)) => match spec_orientation(b, pos3) {
                    Err(e) => Err(e),
                    Ok((orientation, pos4)) => match spec_f64_block(b, pos4, trailing_values()) {
                        Err(e) => Err(e),
                        Ok((_, pos5)) => Ok(
                            (PoseStampedBitsView { header, pose: PoseBits { position, orientation } }, pos5),
                        ),
                    },
                },
            },
        },
    }
}

/// The odometry part of a transport's decoder, written once over the
/// transport's `BufferReader` capabilities.
pub trait TrajectoryDeserializer: BufferReader {
    fn read_position(&mut self) -> (r: Result<PointBits, UvtError>)
        requires
            old(self).wf(),
        ensures
            final(self).wf(),
            final(self).bytes() == old(self).bytes(),
            stepped_copy(r, spec_position(old(self).bytes(), old(self).pos()), final(self).pos()),
    {
        let x = match self.read_f64_bits() {
            Ok(v) => v,
            Err(e) => return Err(e),
        };
        let y = match self.read_f64_bits() {
            Ok(v) => v,
            Err(e) => return Err(e),
        };
        let z = match self.read_f64_bits() {
            Ok(v) => v,
            Err(e) => return Err(e),
        };
        Ok(PointBits { x, y, z })
    }

    fn read_orientation(&mut self) -> (r: Result<QuaternionBits, UvtError>)
        requires
            old(self).wf(),
        ensures
            final(self).wf(),
            final(self).bytes() == old(self).bytes(),
            stepped_copy(r, spec_orientation(old(self).bytes(), old(self).pos()), final(self).pos()),
    {
        let x = match self.read_f64_bits() {
            Ok(v) => v,
            Err(e) => return Err(e),
        };
        let y = match self.read_f64_bits() {
            Ok(v) => v,
            Err(e) => return Err(e),
        };
        let z = match self.read_f64_bits() {
            Ok(v) => v,
            Err(e) => return Err(e),
        };
        let w = match self.read_f64_bits() {
            Ok(v) => v,
            Err(e) => return Err(e),
        };
        Ok(QuaternionBits { x, y, z, w })
    }

    /// Reads the 36 values of a 6 x 6 covariance matrix, row-major.
    fn read_covariance(&mut self) -> (r: Result<Vec<u64>, UvtError>)
        requires
            old(self).wf(),
        ensures
            final(self).wf(),
            final(self).bytes() == old(self).bytes(),
            stepped(r, spec_f64_block(old(self).bytes(), old(self).pos(), COVARIANCE_LEN as nat), final(self).pos()),
    {
        self.read_f64_values(COVARIANCE_LEN)
    }

    /// Reads a 3-vector.
    fn read_vector(&mut self) -> (r: Result<Vec<u64>, UvtError>)
        requires
            old(self).wf(),
        ensures
            final(self).wf(),
            final(self).bytes() == old(self).bytes(),
            stepped(r, spec_f64_block(old(self).bytes(), old(self).pos(), 3), final(self).pos()),
    {
        self.read_f64_values(3)
    }

    /// Reads `k` consecutive binary64 bit patterns.
    fn read_f64_values(&mut self, k: usize) -> (r: Result<Vec<u64>, UvtError>)
        requires
            old(self).wf(),
        ensures
            final(self).wf(),
            final(self).bytes() == old(self).bytes(),
            stepped(r, spec_f64_block(old(self).bytes(), old(self).pos(), k as nat), final(self).pos()),
    {
        let ghost b = self.bytes();
        let ghost p = self.pos();
        proof {
            self.lemma_wf_bounds();
        }
        let mut values: Vec<u64> = Vec::new();
        let mut i: usize = 0;
        while i < k
            invariant
                self.wf(),
                self.bytes() == b,
                b == old(self).bytes(),
                p == old(self).pos(),
                0 <= p <= b.len(),
                i <= k,
                values@.len() == i,
                self.pos() == p + 8 * i,
                forall|j: int| 0 <= j < i ==> values@[j] == u64_at(b, p + 8 * j),
            decreases k - i,
        {
            let v = match self.read_f64_bits() {
                Ok(v) => v,
                Err(e) => return Err(e),
            };
            values.push(v);
            i = i + 1;
        }
        proof {
            self.lemma_wf_bounds();
        }
        assert(values@ =~= Seq::new(k as nat, |j: int| u64_at(b, p + 8 * j)));
        Ok(values)
    }
}

impl TrajectoryDeserializer for BagDeserializer {}

impl TrajectoryDeserializer for McapDeserializer {}

/// `got` is the `Copy` value (or the error) that the model `r` gives, and
/// `new_pos` is where it leaves the cursor on success.
pub open spec fn stepped_copy<T>(got: Result<T, UvtError>, r: Result<(T, int), UvtError>, new_pos: int) -> bool {
    match r {
        Ok((v, q)) => got == Ok::<T, UvtError>(v) && new_pos == q,
        Err(e) => got == Err::<T, UvtError>(e),
    }
}

/// Parses an odometry message from the decoder's cursor on, keeping its
/// header and pose.
pub fn parse_trajectory<D: TrajectoryDeserializer>(d: D) -> (r: Result<PoseStampedBits, UvtError>)
    requires
        d.wf(),
    ensures
        parsed(r, spec_trajectory(D::encoding(), d.bytes(), d.pos())),
{
    reveal(spec_trajectory);
    let mut d = d;
    let header = match d.read_header() {
        Ok(v) => v,
        Err(e) => return Err(e),
    };
    let _child_frame = match d.read_lp_string_aligned(8) {
        Ok(v) => v,
        Err(e) => return Err(e),
    };
    let position = match d.read_position() {
        Ok(v) => v,
        Err(e) => return Err(e),
    };
    let orientation = match d.read_orientation() {
        Ok(v) => v,
        Err(e) => return Err(e),
    };
    let _pose_covariance = match d.read_covariance() {
        Ok(v) => v,
        Err(e) => return Err(e),
    };
    let _twist_linear = match d.read_vector() {
        Ok(v) => v,
        Err(e) => return Err(e),
    };
    let _twist_angular = match d.read_vector() {
        Ok(v) => v,
        Err(e) => return Err(e),
    };
    let _twist_covariance = match d.read_covariance() {
        Ok(v) => v,
        Err(e) => return Err(e),
    };
    Ok(PoseStampedBits { header, pose: PoseBits { position, orientation } })
}

} // verus!
