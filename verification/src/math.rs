//! Face directions, quarter-turn rotations, and the face remapping tables
//! used to orient a model placed with an x/y rotation.

use vstd::prelude::*;

verus! {

/// Axis in the voxel coordinate system: X east, Y up, Z south.
#[derive(Clone, Copy, Debug, PartialEq, Eq, Structural)]
pub enum Axis {
    X,
    Y,
    Z,
}

/// Canonical cube face direction.
#[derive(Clone, Copy, Debug, PartialEq, Eq, Structural)]
pub enum Face {
    Down,
    Up,
    North,
    South,
    West,
    East,
}

impl Face {
    /// Position of this face in the canonical order West, Down, North, South, Up, East.
    pub open spec fn spec_index(self) -> int {
        match self {
            Face::West => 0,
            Face::Down => 1,
            Face::North => 2,
            Face::South => 3,
            Face::Up => 4,
            Face::East => 5,
        }
    }

    /// Index of this face in the canonical face order.
    pub fn index(&self) -> (i: usize)
        ensures
            i == self.spec_index(),
            i < 6,
    {
        match self {
            Face::West => 0,
            Face::Down => 1,
            Face::North => 2,
            Face::South => 3,
            Face::Up => 4,
            Face::East => 5,
        }
    }

    /// The face pointing the other way.
    pub open spec fn spec_opposite(self) -> Face {
        match self {
            Face::West => Face::East,
            Face::Down => Face::Up,
            Face::North => Face::South,
            Face::South => Face::North,
            Face::Up => Face::Down,
            Face::East => Face::West,
        }
    }

    /// The face pointing the other way.
    pub fn opposite(&self) -> (r: Face)
        ensures
            r == self.spec_opposite(),
    {
        match self {
            Face::West => Face::East,
            Face::Down => Face::Up,
            Face::North => Face::South,
            Face::South => Face::North,
            Face::Up => Face::Down,
            Face::East => Face::West,
        }
    }

    /// Outward unit vector of this face.
    pub open spec fn spec_unit(self) -> Vec3i {
        match self {
            Face::East => Vec3i { x: 1i32, y: 0i32, z: 0i32 },
            Face::West => Vec3i { x: -1i32, y: 0i32, z: 0i32 },
            Face::Up => Vec3i { x: 0i32, y: 1i32, z: 0i32 },
            Face::Down => Vec3i { x: 0i32, y: -1i32, z: 0i32 },
            Face::South => Vec3i { x: 0i32, y: 0i32, z: 1i32 },
            Face::North => Vec3i { x: 0i32, y: 0i32, z: -1i32 },
        }
    }

    /// Outward unit vector of this face.
    pub fn get_unit(&self) -> (r: Vec3i)
        ensures
            r == self.spec_unit(),
    {
        match self {
            Face::East => Vec3i { x: 1, y: 0, z: 0 },
            Face::West => Vec3i { x: -1, y: 0, z: 0 },
            Face::Up => Vec3i { x: 0, y: 1, z: 0 },
            Face::Down => Vec3i { x: 0, y: -1, z: 0 },
            Face::South => Vec3i { x: 0, y: 0, z: 1 },
            Face::North => Vec3i { x: 0, y: 0, z: -1 },
        }
    }
}

/// Rotation by a multiple of a quarter turn.
#[derive(Clone, Copy, Debug, PartialEq, Eq, Structural)]
pub enum Rotate90 {
    R0,
    R90,
    R180,
    R270,
}

impl Default for Rotate90 {
    /// The identity rotation.
    fn default() -> (r: Self)
        ensures
            r == Rotate90::R0,
    {
        Rotate90::R0
    }
}

impl Rotate90 {
    /// Number of quarter turns.
    pub open spec fn spec_index(self) -> int {
        match self {
            Rotate90::R0 => 0,
            Rotate90::R90 => 1,
            Rotate90::R180 => 2,
            Rotate90::R270 => 3,
        }
    }

    /// Number of quarter turns.
    pub fn index(&self) -> (i: usize)
        ensures
            i == self.spec_index(),
            i < 4,
    {
        match self {
            Rotate90::R0 => 0,
            Rotate90::R90 => 1,
            Rotate90::R180 => 2,
            Rotate90::R270 => 3,
        }
    }

    /// The rotation that undoes this one.
    pub open spec fn spec_inverse(self) -> Rotate90 {
        match self {
            Rotate90::R0 => Rotate90::R0,
            Rotate90::R90 => Rotate90::R270,
            Rotate90::R180 => Rotate90::R180,
            Rotate90::R270 => Rotate90::R90,
        }
    }

    /// The rotation that undoes this one.
    pub fn inverse(&self) -> (r: Rotate90)
        ensures
            r == self.spec_inverse(),
    {
        match self {
            Rotate90::R0 => Rotate90::R0,
            Rotate90::R90 => Rotate90::R270,
            Rotate90::R180 => Rotate90::R180,
            Rotate90::R270 => Rotate90::R90,
        }
    }

    /// Sum of two rotations, modulo a full turn.
    pub open spec fn spec_compose(self, other: Rotate90) -> Rotate90 {
        Rotate90::from_quarter_turns((self.spec_index() + other.spec_index()) % 4)
    }

    /// The rotation of `n` quarter turns, for `n` in 0..4.
    pub open spec fn from_quarter_turns(n: int) -> Rotate90 {
        if n == 0 {
            Rotate90::R0
        } else if n == 1 {
            Rotate90::R90
        } else if n == 2 {
            Rotate90::R180
        } else {
            Rotate90::R270
        }
    }

    /// Sum of two rotations, modulo a full turn.
    pub fn compose(&self, other: &Rotate90) -> (r: Rotate90)
        ensures
            r == self.spec_compose(*other),
    {
        let n: usize = (self.index() + other.index()) % 4;
        match n {
            0 => Rotate90::R0,
            1 => Rotate90::R90,
            2 => Rotate90::R180,
            _ => Rotate90::R270,
        }
    }
}

/// A point or direction with integer coordinates.
#[derive(Clone, Copy, Debug, PartialEq, Eq, Structural)]
pub struct Vec3i {
    pub x: i32,
    pub y: i32,
    pub z: i32,
}

/// A texture coordinate pair.
#[derive(Clone, Copy, Debug, PartialEq, Eq, Structural)]
pub struct Vec2i {
    pub x: i32,
    pub y: i32,
}

/// An axis-aligned texture rectangle, from one corner to the opposite one.
#[derive(Clone, Copy, Debug, PartialEq, Eq, Structural)]
pub struct Rect2i {
    pub from: Vec2i,
    pub to: Vec2i,
}

/// One quarter turn about the world X axis, counter-clockwise looking down +X.
pub open spec fn spec_rot_x(f: Face) -> Face {
    match f {
        Face::West => Face::West,
        Face::East => Face::East,
        Face::Down => Face::South,
        Face::South => Face::Up,
        Face::Up => Face::North,
        Face::North => Face::Down,
    }
}

/// One quarter turn about the world Y axis, clockwise looking down +Y.
pub open spec fn spec_rot_y(f: Face) -> Face {
    match f {
        Face::Up => Face::Up,
        Face::Down => Face::Down,
        Face::West => Face::South,
        Face::South => Face::East,
        Face::East => Face::North,
        Face::North => Face::West,
    }
}

/// `r` quarter turns about the world X axis.
pub open spec fn spec_rot_x_n(r: Rotate90, f: Face) -> Face {
    match r {
        Rotate90::R0 => f,
        Rotate90::R90 => spec_rot_x(f),
        Rotate90::R180 => spec_rot_x(spec_rot_x(f)),
        Rotate90::R270 => spec_rot_x(spec_rot_x(spec_rot_x(f))),
    }
}

/// `r` quarter turns about the world Y axis.
pub open spec fn spec_rot_y_n(r: Rotate90, f: Face) -> Face {
    match r {
        Rotate90::R0 => f,
        Rotate90::R90 => spec_rot_y(f),
        Rotate90::R180 => spec_rot_y(spec_rot_y(f)),
        Rotate90::R270 => spec_rot_y(spec_rot_y(spec_rot_y(f))),
    }
}

/// Where the canonical face `f` points after the placement rotation:
/// `x` quarter turns about the X axis first, then `y` about the Y axis.
pub open spec fn spec_face_mapping(x: Rotate90, y: Rotate90, f: Face) -> Face {
    spec_rot_y_n(y, spec_rot_x_n(x, f))
}

/// The canonical face that ends up pointing at the world face `f`:
/// the exact inverse of `spec_face_mapping`.
pub open spec fn spec_face_inv_mapping(x: Rotate90, y: Rotate90, f: Face) -> Face {
    spec_rot_x_n(x.spec_inverse(), spec_rot_y_n(y.spec_inverse(), f))
}

fn rot_x_face(f: Face) -> (r: Face)
    ensures
        r == spec_rot_x(f),
{
    match f {
        Face::West => Face::West,
        Face::East => Face::East,
        Face::Down => Face::South,
        Face::South => Face::Up,
        Face::Up => Face::North,
        Face::North => Face::Down,
    }
}

fn rot_y_face(f: Face) -> (r: Face)
    ensures
        r == spec_rot_y(f),
{
    match f {
        Face::Up => Face::Up,
        Face::Down => Face::Down,
        Face::West => Face::South,
        Face::South => Face::East,
        Face::East => Face::North,
        Face::North => Face::West,
    }
}

fn rot_x_face_n(r: &Rotate90, f: Face) -> (g: Face)
    ensures
        g == spec_rot_x_n(*r, f),
{
    match r {
        Rotate90::R0 => f,
        Rotate90::R90 => rot_x_face(f),
        Rotate90::R180 => rot_x_face(rot_x_face(f)),
        Rotate90::R270 => rot_x_face(rot_x_face(rot_x_face(f))),
    }
}

fn rot_y_face_n(r: &Rotate90, f: Face) -> (g: Face)
    ensures
        g == spec_rot_y_n(*r, f),
{
    match r {
        Rotate90::R0 => f,
        Rotate90::R90 => rot_y_face(f),
        Rotate90::R180 => rot_y_face(rot_y_face(f)),
        Rotate90::R270 => rot_y_face(rot_y_face(rot_y_face(f))),
    }
}

/// The face remap table: where the canonical face `f` of a model placed with
/// rotation `(x, y)` ends up pointing, X rotation applied first, Y second.
pub fn face_mapping(x: &Rotate90, y: &Rotate90, f: Face) -> (g: Face)
    ensures
        g == spec_face_mapping(*x, *y, f),
{
    rot_y_face_n(y, rot_x_face_n(x, f))
}

/// The inverse face remap table: the canonical face of a model placed with
/// rotation `(x, y)` that ends up pointing at the world face `f`.
pub fn face_inv_mapping(x: &Rotate90, y: &Rotate90, f: Face) -> (g: Face)
    ensures
        g == spec_face_inv_mapping(*x, *y, f),
{
    rot_x_face_n(&x.inverse(), rot_y_face_n(&y.inverse(), f))
}

/// The forward and inverse face remap tables are mutual inverses, for every
/// placement rotation and every face.
pub proof fn lemma_mapping_inverse(x: Rotate90, y: Rotate90, f: Face)
    ensures
        spec_face_inv_mapping(x, y, spec_face_mapping(x, y, f)) == f,
        spec_face_mapping(x, y, spec_face_inv_mapping(x, y, f)) == f,
{
}

/// The face array after one application of the X-axis permutation step:
/// positions west, north, east, south cycle; down and up stand.
pub open spec fn spec_transform_x(r: Rotate90, s: Seq<Face>) -> Seq<Face> {
    match r {
        Rotate90::R0 => s,
        Rotate90::R90 => s.update(0, s[2]).update(2, s[5]).update(5, s[3]).update(3, s[0]),
        Rotate90::R180 => s.update(0, s[5]).update(2, s[3]).update(5, s[0]).update(3, s[2]),
        Rotate90::R270 => s.update(5, s[2]).update(2, s[0]).update(0, s[3]).update(3, s[5]),
    }
}

/// The face array after one application of the Y-axis permutation step:
/// positions up, north, down, south cycle; west and east stand.
pub open spec fn spec_transform_y(r: Rotate90, s: Seq<Face>) -> Seq<Face> {
    match r {
        Rotate90::R0 => s,
        Rotate90::R90 => s.update(4, s[2]).update(2, s[1]).update(1, s[3]).update(3, s[4]),
        Rotate90::R180 => s.update(4, s[1]).update(2, s[3]).update(1, s[4]).update(3, s[2]),
        Rotate90::R270 => s.update(1, s[2]).update(2, s[4]).update(4, s[3]).update(3, s[1]),
    }
}

/// Permutes a six-entry face array in place by the X-axis rotation step.
pub fn transform_x(rotation: &Rotate90, cube: &mut Vec<Face>)
    requires
        old(cube)@.len() == 6,
    ensures
        final(cube)@ == spec_transform_x(*rotation, old(cube)@),
{
    match rotation {
        Rotate90::R0 => {},
        Rotate90::R90 => {
            let tmp = cube[0];
            let c2 = cube[2];
            let c5 = cube[5];
            let c3 = cube[3];
            cube.set(0, c2);
            cube.set(2, c5);
            cube.set(5, c3);
            cube.set(3, tmp);
        },
        Rotate90::R180 => {
            let tmp1 = cube[0];
            let tmp2 = cube[2];
            let c5 = cube[5];
            let c3 = cube[3];
            cube.set(0, c5);
            cube.set(2, c3);
            cube.set(5, tmp1);
            cube.set(3, tmp2);
        },
        Rotate90::R270 => {
            let tmp = cube[5];
            let c2 = cube[2];
            let c0 = cube[0];
            let c3 = cube[3];
            cube.set(5, c2);
            cube.set(2, c0);
            cube.set(0, c3);
            cube.set(3, tmp);
        },
    }
    proof {
        assert(cube@ =~= spec_transform_x(*rotation, old(cube)@));
    }
}

/// Permutes a six-entry face array in place by the Y-axis rotation step.
pub fn transform_y(rotation: &Rotate90, cube: &mut Vec<Face>)
    requires
        old(cube)@.len() == 6,
    ensures
        final(cube)@ == spec_transform_y(*rotation, old(cube)@),
{
    match rotation {
        Rotate90::R0 => {},
        Rotate90::R90 => {
            let tmp = cube[4];
            let c2 = cube[2];
            let c1 = cube[1];
            let c3 = cube[3];
            cube.set(4, c2);
            cube.set(2, c1);
            cube.set(1, c3);
            cube.set(3, tmp);
        },
        Rotate90::R180 => {
            let tmp1 = cube[4];
            let tmp2 = cube[2];
            let c1 = cube[1];
            let c3 = cube[3];
            cube.set(4, c1);
            cube.set(2, c3);
            cube.set(1, tmp1);
            cube.set(3, tmp2);
        },
        Rotate90::R270 => {
            let tmp = cube[1];
            let c2 = cube[2];
            let c4 = cube[4];
            let c3 = cube[3];
            cube.set(1, c2);
            cube.set(2, c4);
            cube.set(4, c3);
            cube.set(3, tmp);
        },
    }
    proof {
        assert(cube@ =~= spec_transform_y(*rotation, old(cube)@));
    }
}

} // verus!
