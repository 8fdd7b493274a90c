use vstd::prelude::*;

use crate::transform::Transform;

verus! {

/// Something with a pose in the scene.
pub trait Body: Sized {
    /// Where the body stands.
    fn pose(&self) -> Transform;

    /// The body seen from the frame of `other`.
    fn in_other_body_frame(&self, other: &Self) -> Self;
}

} // verus!
