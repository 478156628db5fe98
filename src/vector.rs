//! Fixed-point vectors and matrices.

use vstd::prelude::*;
use crate::fixed::ONE;

verus! {

/// A pair of fixed-point numbers.
#[derive(Clone, Copy, Debug, PartialEq, Eq, Structural)]
pub struct Vec2 {
    pub x: i32,
    pub y: i32,
}

/// A triple of fixed-point numbers.
#[derive(Clone, Copy, Debug, PartialEq, Eq, Structural)]
pub struct Vec3 {
    pub x: i32,
    pub y: i32,
    pub z: i32,
}

/// A 4x4 fixed-point matrix, indexed `m[row][column]`.
#[derive(Clone, Copy, Debug)]
pub struct Mat4 {
    pub m: [[i32; 4]; 4],
}

impl Vec2 {
    pub fn new(x: i32, y: i32) -> (r: Vec2)
        ensures
            r == (Vec2 { x, y }),
    {
        Vec2 { x, y }
    }
}

impl Vec3 {
    pub fn new(x: i32, y: i32, z: i32) -> (r: Vec3)
        ensures
            r == (Vec3 { x, y, z }),
    {
        Vec3 { x, y, z }
    }

    /// Component `k` (0, 1 or 2).
    pub open spec fn at(self, k: int) -> int {
        if k == 0 {
            self.x as int
        } else if k == 1 {
            self.y as int
        } else {
            self.z as int
        }
    }
}

impl Mat4 {
    /// The entry in row `i`, column `j`.
    pub open spec fn entry(self, i: int, j: int) -> int {
        self.m[i][j] as int
    }

    pub open spec fn is_identity(self) -> bool {
        forall|i: int, j: int|
            0 <= i < 4 && 0 <= j < 4 ==> #[trigger] self.entry(i, j) == if i == j {
                ONE as int
            } else {
                0
            }
    }

    pub fn new(m: [[i32; 4]; 4]) -> (r: Mat4)
        ensures
            r.m == m,
    {
        Mat4 { m }
    }

    /// The identity matrix.
    pub fn identity() -> (r: Mat4)
        ensures
            r.is_identity(),
    {
        let one = ONE as i32;
        let r = Mat4 {
            m: [[one, 0, 0, 0], [0, one, 0, 0], [0, 0, one, 0], [0, 0, 0, one]],
        };
        assert(r.is_identity()) by {
            assert forall|i: int, j: int| 0 <= i < 4 && 0 <= j < 4 implies #[trigger] r.entry(i, j)
                == if i == j {
                ONE as int
            } else {
                0
            } by {
                assert(r.m[i][j] == r.m@[i]@[j]);
            }
        }
        r
    }
}

} // verus!
