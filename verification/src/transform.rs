use vstd::prelude::*;

use crate::scalar::{Scalar, ONE_BITS, ZERO_BITS};

verus! {

/// A point or a direction in three dimensions.
#[derive(Clone, Copy, Debug, PartialEq, Eq, Structural)]
pub struct Vec3 {
    pub x: Scalar,
    pub y: Scalar,
    pub z: Scalar,
}

impl Vec3 {
    /// The coordinate of axis `axis` (0 for x, 1 for y, 2 for z).
    pub open spec fn component(self, axis: int) -> Scalar {
        if axis == 0 {
            self.x
        } else if axis == 1 {
            self.y
        } else {
            self.z
        }
    }

    pub fn new(x: Scalar, y: Scalar, z: Scalar) -> (v: Vec3)
        ensures
            v.x == x,
            v.y == y,
            v.z == z,
    {
        Vec3 { x: x, y: y, z: z }
    }
}

/// A rigid pose: a 4x4 homogeneous matrix, stored row by row. Its rotation is
/// the upper-left 3x3 block, its position the first three rows of the last
/// column.
#[derive(Clone, Copy, Debug)]
pub struct Transform {
    pose: [Scalar; 16],
}

/// The entry of the identity matrix at `row`, `col`.
pub open spec fn identity_entry(row: int, col: int) -> Scalar {
    if row == col {
        Scalar { bits: ONE_BITS }
    } else {
        Scalar { bits: ZERO_BITS }
    }
}

/// Whether `row`, `col` is an entry of a 4x4 matrix.
pub open spec fn in_matrix(row: int, col: int) -> bool {
    0 <= row < 4 && 0 <= col < 4
}

impl Transform {
    /// The matrix entry at `row`, `col` (both below 4).
    pub closed spec fn entry(self, row: int, col: int) -> Scalar {
        self.pose@[4 * row + col]
    }

    /// The position held in `t`.
    pub open spec fn spec_position(self) -> Vec3 {
        Vec3 { x: self.entry(0, 3), y: self.entry(1, 3), z: self.entry(2, 3) }
    }

    /// The third column of the rotation of `t`: where the pose looks.
    pub open spec fn spec_forward(self) -> Vec3 {
        Vec3 { x: self.entry(0, 2), y: self.entry(1, 2), z: self.entry(2, 2) }
    }

    /// Whether `self` equals `other` entry by entry.
    pub open spec fn same_entries(self, other: Transform) -> bool {
        forall|r: int, c: int| in_matrix(r, c) ==> #[trigger] self.entry(r, c) == other.entry(r, c)
    }

    /// Whether `self` is `base` with its position replaced by `v`.
    pub open spec fn is_moved(self, base: Transform, v: Vec3) -> bool {
        forall|r: int, c: int|
            in_matrix(r, c) ==> #[trigger] self.entry(r, c) == if c == 3 && r < 3 {
                v.component(r)
            } else {
                base.entry(r, c)
            }
    }

    /// The pose whose matrix, row by row, is `entries`.
    pub fn from_entries(entries: [Scalar; 16]) -> (t: Transform)
        ensures
            forall|r: int, c: int| in_matrix(r, c) ==> #[trigger] t.entry(r, c) == entries@[4 * r + c],
    {
        Transform { pose: entries }
    }

    /// The entries of the matrix, row by row.
    pub fn entries(&self) -> (entries: [Scalar; 16])
        ensures
            forall|r: int, c: int| in_matrix(r, c) ==> #[trigger] self.entry(r, c) == entries@[4 * r + c],
    {
        self.pose
    }

    /// The identity pose.
    pub fn new() -> (t: Transform)
        ensures
            forall|r: int, c: int| in_matrix(r, c) ==> #[trigger] t.entry(r, c) == identity_entry(r, c),
    {
        let o = Scalar::zero();
        let l = Scalar::one();
        Transform { pose: [l, o, o, o, o, l, o, o, o, o, l, o, o, o, o, l] }
    }

    /// The identity rotation placed at `position`.
    pub fn at_position(position: Vec3) -> (t: Transform)
        ensures
            forall|r: int, c: int|
                in_matrix(r, c) ==> #[trigger] t.entry(r, c) == if c == 3 && r < 3 {
                    position.component(r)
                } else {
                    identity_entry(r, c)
                },
    {
        Self::new().with_new_position(position)
    }

    /// The position of the pose.
    pub fn position(&self) -> (p: Vec3)
        ensures
            p == self.spec_position(),
    {
        Vec3 { x: self.pose[3], y: self.pose[7], z: self.pose[11] }
    }

    /// The same pose moved to `v`: the position column is replaced, every
    /// other entry is kept.
    pub fn with_new_position(self, v: Vec3) -> (t: Transform)
        ensures
            t.is_moved(self, v),
    {
        let mut a = self.pose;
        a[3] = v.x;
        a[7] = v.y;
        a[11] = v.z;
        Transform { pose: a }
    }

    /// The viewing direction of the pose (third column of its rotation).
    pub fn forward(&self) -> (f: Vec3)
        ensures
            f == self.spec_forward(),
    {
        Vec3 { x: self.pose[2], y: self.pose[6], z: self.pose[10] }
    }
}


/// Reading the position of a moved pose gives the position it was moved to,
/// and moving does not turn the pose.
pub proof fn law_position_after_move(t: Transform, moved: Transform, v: Vec3)
    requires
        moved.is_moved(t, v),
    ensures
        moved.spec_position() == v,
        moved.spec_forward() == t.spec_forward(),
{
    assert(moved.entry(0, 3) == v.component(0));
    assert(moved.entry(1, 3) == v.component(1));
    assert(moved.entry(2, 3) == v.component(2));
    assert(moved.entry(0, 2) == t.entry(0, 2));
    assert(moved.entry(1, 2) == t.entry(1, 2));
    assert(moved.entry(2, 2) == t.entry(2, 2));
}

/// Of two moves, the second decides the position: moving to `v` and then to
/// `w` is moving to `w`.
pub proof fn law_last_move_wins(t: Transform, a: Transform, b: Transform, v: Vec3, w: Vec3)
    requires
        a.is_moved(t, v),
        b.is_moved(a, w),
    ensures
        b.is_moved(t, w),
{
    assert forall|r: int, c: int| in_matrix(r, c) implies #[trigger] b.entry(r, c) == if c == 3
        && r < 3 {
        w.component(r)
    } else {
        t.entry(r, c)
    } by {
        assert(a.entry(r, c) == if c == 3 && r < 3 {
            v.component(r)
        } else {
            t.entry(r, c)
        });
    }
}

/// Moving a pose to where it already is changes no entry.
pub proof fn law_move_in_place(t: Transform, moved: Transform)
    requires
        moved.is_moved(t, t.spec_position()),
    ensures
        moved.same_entries(t),
{
    assert forall|r: int, c: int| in_matrix(r, c) implies #[trigger] moved.entry(r, c) == t.entry(
        r,
        c,
    ) by {
        assert(moved.entry(r, c) == if c == 3 && r < 3 {
            t.spec_position().component(r)
        } else {
            t.entry(r, c)
        });
    }
}

/// The identity pose stands at the origin and looks along the z axis.
pub proof fn law_identity_pose(t: Transform)
    requires
        forall|r: int, c: int| in_matrix(r, c) ==> #[trigger] t.entry(r, c) == identity_entry(r, c),
    ensures
        t.spec_position() == (Vec3 {
            x: Scalar { bits: ZERO_BITS },
            y: Scalar { bits: ZERO_BITS },
            z: Scalar { bits: ZERO_BITS },
        }),
        t.spec_forward() == (Vec3 {
            x: Scalar { bits: ZERO_BITS },
            y: Scalar { bits: ZERO_BITS },
            z: Scalar { bits: ONE_BITS },
        }),
{
    assert(t.entry(0, 3) == identity_entry(0, 3));
    assert(t.entry(1, 3) == identity_entry(1, 3));
    assert(t.entry(2, 3) == identity_entry(2, 3));
    assert(t.entry(0, 2) == identity_entry(0, 2));
    assert(t.entry(1, 2) == identity_entry(1, 2));
    assert(t.entry(2, 2) == identity_entry(2, 2));
}

} // verus!
