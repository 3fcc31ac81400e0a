//! Resolved models: cuboid elements with textured faces, the texture
//! indirection resolver, and oriented placements with their face remapping
//! and UV-lock rotation tables.

use vstd::prelude::*;

use crate::data_raw::ElementRaw;
use crate::data_raw::FaceTextureRaw;
use crate::data_raw::ModelRaw;
use crate::data_raw::RotationRaw;
use crate::errors::BuildError;
use crate::math::Axis;
use crate::math::Face;
use crate::math::face_inv_mapping;
use crate::math::face_mapping;
use crate::math::Rect2i;
use crate::math::Rotate90;
use crate::math::spec_face_inv_mapping;
use crate::math::spec_face_mapping;
use crate::math::Vec2i;
use crate::math::Vec3i;

verus! {

/// An opaque handle to an uploaded texture; zero stands for a missing one.
#[derive(Clone, Copy, Debug, PartialEq, Eq, Structural)]
pub struct CombinedTexture(pub i32);

/// A capability that turns texture names into handles.
pub trait TextureGen {
    /// Resolves a literal texture name to its handle.
    fn get(&mut self, name: &str) -> CombinedTexture;
}

/// A cuboid in the 0..16 voxel space, held by two opposite corners.
#[derive(Clone, Copy, Debug, PartialEq, Eq, Structural)]
pub struct Cubic {
    /// One corner.
    pub from: Vec3i,
    /// The opposite corner.
    pub to: Vec3i,
}

/// The four corners of one cube face, in face-local winding order:
/// bottom-left, bottom-right, top-right, top-left.
pub open spec fn spec_face_corners(c: Cubic, f: Face) -> (Vec3i, Vec3i, Vec3i, Vec3i) {
    let fr = c.from;
    let t = c.to;
    match f {
        Face::West => (
            Vec3i { x: fr.x, y: fr.y, z: fr.z },
            Vec3i { x: fr.x, y: fr.y, z: t.z },
            Vec3i { x: fr.x, y: t.y, z: t.z },
            Vec3i { x: fr.x, y: t.y, z: fr.z },
        ),
        Face::Down => (
            Vec3i { x: fr.x, y: fr.y, z: fr.z },
            Vec3i { x: t.x, y: fr.y, z: fr.z },
            Vec3i { x: t.x, y: fr.y, z: t.z },
            Vec3i { x: fr.x, y: fr.y, z: t.z },
        ),
        Face::North => (
            Vec3i { x: t.x, y: fr.y, z: fr.z },
            Vec3i { x: fr.x, y: fr.y, z: fr.z },
            Vec3i { x: fr.x, y: t.y, z: fr.z },
            Vec3i { x: t.x, y: t.y, z: fr.z },
        ),
        Face::South => (
            Vec3i { x: fr.x, y: fr.y, z: t.z },
            Vec3i { x: t.x, y: fr.y, z: t.z },
            Vec3i { x: t.x, y: t.y, z: t.z },
            Vec3i { x: fr.x, y: t.y, z: t.z },
        ),
        Face::Up => (
            Vec3i { x: fr.x, y: t.y, z: t.z },
            Vec3i { x: t.x, y: t.y, z: t.z },
            Vec3i { x: t.x, y: t.y, z: fr.z },
            Vec3i { x: fr.x, y: t.y, z: fr.z },
        ),
        Face::East => (
            Vec3i { x: t.x, y: fr.y, z: t.z },
            Vec3i { x: t.x, y: fr.y, z: fr.z },
            Vec3i { x: t.x, y: t.y, z: fr.z },
            Vec3i { x: t.x, y: t.y, z: t.z },
        ),
    }
}

impl Cubic {
    /// Reorders the corners so that `from` is the minimum and `to` the
    /// maximum on every axis.
    pub fn rectify(self) -> (r: Self)
        ensures
            r.from.x == if self.from.x > self.to.x {
                self.to.x
            } else {
                self.from.x
            },
            r.to.x == if self.from.x > self.to.x {
                self.from.x
            } else {
                self.to.x
            },
            r.from.y == if self.from.y > self.to.y {
                self.to.y
            } else {
                self.from.y
            },
            r.to.y == if self.from.y > self.to.y {
                self.from.y
            } else {
                self.to.y
            },
            r.from.z == if self.from.z > self.to.z {
                self.to.z
            } else {
                self.from.z
            },
            r.to.z == if self.from.z > self.to.z {
                self.from.z
            } else {
                self.to.z
            },
    {
        let mut c = self;
        if c.from.x > c.to.x {
            let tmp = c.from.x;
            c.from.x = c.to.x;
            c.to.x = tmp;
        }
        if c.from.y > c.to.y {
            let tmp = c.from.y;
            c.from.y = c.to.y;
            c.to.y = tmp;
        }
        if c.from.z > c.to.z {
            let tmp = c.from.z;
            c.from.z = c.to.z;
            c.to.z = tmp;
        }
        c
    }

    /// Writes the four corners of the face `f`, in face-local winding
    /// order: bottom-left, bottom-right, top-right, top-left.
    pub fn get_face_vert(
        &self,
        face: Face,
        bl: &mut Vec3i,
        br: &mut Vec3i,
        tr: &mut Vec3i,
        tl: &mut Vec3i,
    )
        ensures
            (*final(bl), *final(br), *final(tr), *final(tl)) == spec_face_corners(*self, face),
    {
        let f = self.from;
        let t = self.to;
        match face {
            Face::West => {
                *bl = Vec3i { x: f.x, y: f.y, z: f.z };
                *br = Vec3i { x: f.x, y: f.y, z: t.z };
                *tr = Vec3i { x: f.x, y: t.y, z: t.z };
                *tl = Vec3i { x: f.x, y: t.y, z: f.z };
            },
            Face::Down => {
                *bl = Vec3i { x: f.x, y: f.y, z: f.z };
                *br = Vec3i { x: t.x, y: f.y, z: f.z };
                *tr = Vec3i { x: t.x, y: f.y, z: t.z };
                *tl = Vec3i { x: f.x, y: f.y, z: t.z };
            },
            Face::North => {
                *bl = Vec3i { x: t.x, y: f.y, z: f.z };
                *br = Vec3i { x: f.x, y: f.y, z: f.z };
                *tr = Vec3i { x: f.x, y: t.y, z: f.z };
                *tl = Vec3i { x: t.x, y: t.y, z: f.z };
            },
            Face::South => {
                *bl = Vec3i { x: f.x, y: f.y, z: t.z };
                *br = Vec3i { x: t.x, y: f.y, z: t.z };
                *tr = Vec3i { x: t.x, y: t.y, z: t.z };
                *tl = Vec3i { x: f.x, y: t.y, z: t.z };
            },
            Face::Up => {
                *bl = Vec3i { x: f.x, y: t.y, z: t.z };
                *br = Vec3i { x: t.x, y: t.y, z: t.z };
                *tr = Vec3i { x: t.x, y: t.y, z: f.z };
                *tl = Vec3i { x: f.x, y: t.y, z: f.z };
            },
            Face::East => {
                *bl = Vec3i { x: t.x, y: f.y, z: t.z };
                *br = Vec3i { x: t.x, y: f.y, z: f.z };
                *tr = Vec3i { x: t.x, y: t.y, z: f.z };
                *tl = Vec3i { x: t.x, y: t.y, z: t.z };
            },
        }
    }
}

/// A resolved textured face.
#[derive(Clone, Copy, Debug, PartialEq, Eq, Structural)]
pub struct FaceTexture {
    /// The UV rectangle.
    pub uv: Rect2i,
    /// The declared face whose neighbor decides culling, if any.
    pub cullface: Option<Face>,
    /// The texture rotation.
    pub rotation: Rotate90,
    /// The resolved texture handle.
    pub texture: CombinedTexture,
    /// The tint color index, if the face is tinted.
    pub tintindex: Option<usize>,
}

/// The four UV corners of a face texture under a total rotation, in the
/// order bottom-left, bottom-right, top-right, top-left.
pub open spec fn spec_uv_corners(uv: Rect2i, total: Rotate90) -> (Vec2i, Vec2i, Vec2i, Vec2i) {
    let p00 = Vec2i { x: uv.from.x, y: uv.from.y };
    let p10 = Vec2i { x: uv.to.x, y: uv.from.y };
    let p11 = Vec2i { x: uv.to.x, y: uv.to.y };
    let p01 = Vec2i { x: uv.from.x, y: uv.to.y };
    match total {
        Rotate90::R0 => (p00, p10, p11, p01),
        Rotate90::R270 => (p01, p00, p10, p11),
        Rotate90::R180 => (p11, p01, p00, p10),
        Rotate90::R90 => (p10, p11, p01, p00),
    }
}

impl FaceTexture {
    /// Writes the four UV corners for this face under the extra `rotation`,
    /// composed with the face's own declared rotation, in the order
    /// bottom-left, bottom-right, top-right, top-left.
    pub fn get_face_vert(
        &self,
        rotation: &Rotate90,
        bl: &mut Vec2i,
        br: &mut Vec2i,
        tr: &mut Vec2i,
        tl: &mut Vec2i,
    )
        ensures
            (*final(bl), *final(br), *final(tr), *final(tl)) == spec_uv_corners(
                self.uv,
                self.rotation.spec_compose(*rotation),
            ),
    {
        let total = self.rotation.compose(rotation);
        let p00 = Vec2i { x: self.uv.from.x, y: self.uv.from.y };
        let p10 = Vec2i { x: self.uv.to.x, y: self.uv.from.y };
        let p11 = Vec2i { x: self.uv.to.x, y: self.uv.to.y };
        let p01 = Vec2i { x: self.uv.from.x, y: self.uv.to.y };
        match total {
            Rotate90::R0 => {
                *bl = p00;
                *br = p10;
                *tr = p11;
                *tl = p01;
            },
            Rotate90::R270 => {
                *bl = p01;
                *br = p00;
                *tr = p10;
                *tl = p11;
            },
            Rotate90::R180 => {
                *bl = p11;
                *br = p01;
                *tr = p00;
                *tl = p10;
            },
            Rotate90::R90 => {
                *bl = p10;
                *br = p11;
                *tr = p01;
                *tl = p00;
            },
        }
    }
}

/// The rotation a resolved element declares for itself.
#[derive(Clone, Copy, Debug, PartialEq, Eq, Structural)]
pub struct ElementRotation {
    /// The point the cuboid rotates about.
    pub origin: Vec3i,
    /// The axis of rotation.
    pub axis: Axis,
    /// The angle, in tenths of a degree.
    pub angle: i32,
    /// Whether the cuboid is rescaled to span its original extent.
    pub rescale: bool,
}

/// One resolved cuboid: geometry, own rotation, and up to six faces indexed
/// by the canonical face order.
#[derive(Clone, Debug)]
pub struct Element {
    /// The cuboid.
    pub cubic: Cubic,
    /// The element's own rotation.
    pub rotation: ElementRotation,
    /// One optional face texture per canonical face index.
    pub faces: Vec<Option<FaceTexture>>,
    /// Whether the cuboid is shaded.
    pub shade: bool,
}

impl Element {
    /// Structural invariant: one slot per canonical face.
    pub open spec fn wf(self) -> bool {
        self.faces@.len() == 6
    }
}

/// A resolved model: shared, read-only cuboids.
#[derive(Clone, Debug)]
pub struct Model {
    /// Whether ambient occlusion applies.
    pub ambientocclusion: bool,
    /// The resolved cuboids.
    pub elements: Vec<Element>,
}

impl Model {
    /// Structural invariant: every element has its six face slots.
    pub open spec fn wf(self) -> bool {
        forall|i: int| 0 <= i < self.elements@.len() ==> (#[trigger] self.elements@[i]).wf()
    }
}

/// A column basis of three integer direction vectors: the change of basis
/// of a placement rotation.
#[derive(Clone, Copy, Debug, PartialEq, Eq, Structural)]
pub struct Mat3i {
    /// The image of the east unit vector.
    pub cx: Vec3i,
    /// The image of the up unit vector.
    pub cy: Vec3i,
    /// The image of the south unit vector.
    pub cz: Vec3i,
}

/// A model placed with an x/y rotation and an uv-lock flag, referring to
/// its resolved model by an arena handle. Shared read-only by every rule
/// that requests the same placement.
#[derive(Clone, Copy, Debug, PartialEq, Eq, Structural)]
pub struct TransformedModel {
    /// Arena handle of the resolved model.
    pub model: u32,
    /// Quarter turns about the world X axis, applied first.
    pub x: Rotate90,
    /// Quarter turns about the world Y axis, applied second.
    pub y: Rotate90,
    /// Whether face textures stay visually upright under the rotation.
    pub uvlock: bool,
}

/// The extra per-face texture rotation that keeps a texture visually
/// upright under the placement: under uv-lock the up face undoes the
/// y-rotation, the down face follows it, the east face undoes the
/// x-rotation, the west face follows it; without uv-lock there is none.
pub open spec fn spec_uv_lock_rotation(tm: TransformedModel, face: Face) -> Rotate90 {
    if !tm.uvlock {
        Rotate90::R0
    } else {
        match face {
            Face::Up => tm.y.spec_inverse(),
            Face::Down => tm.y,
            Face::East => tm.x.spec_inverse(),
            Face::West => tm.x,
            Face::South => Rotate90::R0,
            Face::North => Rotate90::R0,
        }
    }
}

impl TransformedModel {
    /// Places the model `model` with `x` quarter turns about the world X
    /// axis, then `y` about the world Y axis, with or without uv-lock.
    pub fn from_mxy(model: u32, x: Rotate90, y: Rotate90, uvlock: bool) -> (r: Self)
        ensures
            r == (TransformedModel { model, x, y, uvlock }),
    {
        TransformedModel { model, x, y, uvlock }
    }

    /// The forward face remap table: where the canonical face `face` points
    /// after the placement rotation.
    pub fn mapping(&self, face: Face) -> (r: Face)
        ensures
            r == spec_face_mapping(self.x, self.y, face),
    {
        face_mapping(&self.x, &self.y, face)
    }

    /// The inverse face remap table: the canonical face that ends up
    /// pointing at the world face `face`.
    pub fn inv_mapping(&self, face: Face) -> (r: Face)
        ensures
            r == spec_face_inv_mapping(self.x, self.y, face),
    {
        face_inv_mapping(&self.x, &self.y, face)
    }

    /// The extra texture rotation of `original_face` under uv-lock.
    pub fn rotation(&self, original_face: Face) -> (r: Rotate90)
        ensures
            r == spec_uv_lock_rotation(*self, original_face),
    {
        if !self.uvlock {
            Rotate90::R0
        } else {
            match original_face {
                Face::Up => self.y.inverse(),
                Face::Down => self.y,
                Face::East => self.x.inverse(),
                Face::West => self.x,
                Face::South => Rotate90::R0,
                Face::North => Rotate90::R0,
            }
        }
    }

    /// The change-of-basis matrix of the placement: the columns are the
    /// unit vectors of the inverse-mapped east, up and south faces. An
    /// element's own rotation matrix is composed with it by the renderer.
    pub fn mapping_transform(&self) -> (r: Mat3i)
        ensures
            r.cx == spec_face_inv_mapping(self.x, self.y, Face::East).spec_unit(),
            r.cy == spec_face_inv_mapping(self.x, self.y, Face::Up).spec_unit(),
            r.cz == spec_face_inv_mapping(self.x, self.y, Face::South).spec_unit(),
    {
        Mat3i {
            cx: self.inv_mapping(Face::East).get_unit(),
            cy: self.inv_mapping(Face::Up).get_unit(),
            cz: self.inv_mapping(Face::South).get_unit(),
        }
    }
}

/// One face quad handed to a renderer: corner positions and UVs in winding
/// order bottom-left, bottom-right, top-right, top-left, with the data the
/// renderer needs to finish the transform.
#[derive(Clone, Copy, Debug)]
pub struct Mesh {
    /// The bottom-left corner.
    pub v0: Vec3i,
    /// The bottom-right corner.
    pub v1: Vec3i,
    /// The top-right corner.
    pub v2: Vec3i,
    /// The top-left corner.
    pub v3: Vec3i,
    /// The UV corner at `v0`.
    pub t0: Vec2i,
    /// The UV corner at `v1`.
    pub t1: Vec2i,
    /// The UV corner at `v2`.
    pub t2: Vec2i,
    /// The UV corner at `v3`.
    pub t3: Vec2i,
    /// The texture handle of the face.
    pub texture: CombinedTexture,
    /// The RGBA tint color.
    pub color: [u8; 4],
    /// The block light value.
    pub light: u8,
    /// The origin of the element's own rotation.
    pub origin: Vec3i,
    /// The axis of the element's own rotation.
    pub axis: Axis,
    /// The angle of the element's own rotation, in tenths of a degree.
    pub angle: i32,
    /// The placement's change-of-basis matrix.
    pub basis: Mat3i,
}

/// A condition atom split into its property name and value.
#[derive(Debug, PartialEq, Eq, PartialOrd, Ord)]
pub struct KVPair {
    /// The property name.
    pub key: String,
    /// The property value.
    pub val: String,
}

/// The value stored under the key `k` in the texture table, first entry
/// winning.
pub open spec fn tex_lookup(t: Seq<(String, String)>, k: Seq<char>) -> Option<Seq<char>>
    decreases t.len(),
{
    if t.len() == 0 {
        Option::None
    } else if t[0].0@ == k {
        Option::Some(t[0].1@)
    } else {
        tex_lookup(t.drop_first(), k)
    }
}

proof fn lemma_tex_lookup_skip(t: Seq<(String, String)>, k: Seq<char>, i: int)
    requires
        0 <= i <= t.len(),
        forall|j: int| 0 <= j < i ==> (#[trigger] t[j]).0@ != k,
    ensures
        tex_lookup(t, k) == tex_lookup(t.skip(i), k),
    decreases i,
{
    if i > 0 {
        assert(t[0].0@ != k);
        lemma_tex_lookup_skip(t.drop_first(), k, i - 1);
        assert(t.drop_first().skip(i - 1) =~= t.skip(i));
    } else {
        assert(t.skip(0) =~= t);
    }
}

/// First-match lookup in a texture table.
fn tex_table_get<'a>(t: &'a Vec<(String, String)>, k: &String) -> (r: Option<&'a String>)
    ensures
        match r {
            Some(v) => tex_lookup(t@, k@) == Option::Some(v@),
            None => tex_lookup(t@, k@) is None,
        },
{
    let mut i: usize = 0;
    while i < t.len()
        invariant
            i <= t@.len(),
            forall|j: int| 0 <= j < i ==> (#[trigger] t@[j]).0@ != k@,
        decreases t@.len() - i,
    {
        if t[i].0 == *k {
            proof {
                lemma_tex_lookup_skip(t@, k@, i as int);
                assert(t@.skip(i as int)[0] == t@[i as int]);
                assert(t@.skip(i as int).len() > 0);
            }
            return Some(&t[i].1);
        }
        i += 1;
    }
    proof {
        lemma_tex_lookup_skip(t@, k@, t@.len() as int);
        assert(t@.skip(t@.len() as int).len() == 0);
    }
    None
}

/// Where a texture reference ends up after at most `fuel` indirection
/// steps: a name not starting with `#` is literal; a `#`-reference is
/// looked up in the table and chased further; `None` when the chain
/// dead-ends or never reaches a literal name.
pub open spec fn chase_texture(t: Seq<(String, String)>, name: Seq<char>, fuel: nat) -> Option<
    Seq<char>,
>
    decreases fuel,
{
    if name.len() == 0 || name[0] != '#' {
        Option::Some(name)
    } else if fuel == 0 {
        Option::None
    } else {
        match tex_lookup(t, name.subrange(1, name.len() as int)) {
            Option::None => Option::None,
            Option::Some(v) => chase_texture(t, v, (fuel - 1) as nat),
        }
    }
}

/// Follows `#`-references through the texture table until a literal
/// texture name is reached; fails with `UnresolvedTexture` when the chain
/// dead-ends or runs deeper than the table could justify.
pub fn resolve_texture_name(table: &Vec<(String, String)>, name: &String) -> (r: Result<
    String,
    BuildError,
>)
    ensures
        match r {
            Ok(s) => chase_texture(table@, name@, 64) == Option::Some(s@),
            Err(e) => {
                &&& chase_texture(table@, name@, 64) is None
                &&& e matches BuildError::UnresolvedTexture(_)
            },
        },
{
    let mut cur: String = name.clone();
    let mut fuel: usize = 64;
    loop
        invariant
            fuel <= 64,
            chase_texture(table@, name@, 64) == chase_texture(table@, cur@, fuel as nat),
        decreases fuel,
    {
        let n = cur.as_str().unicode_len();
        if n == 0 {
            return Ok(cur);
        }
        let c0 = cur.as_str().get_char(0);
        if c0 != '#' {
            return Ok(cur);
        }
        if fuel == 0 {
            return Err(BuildError::UnresolvedTexture(name.clone()));
        }
        let key = cur.as_str().substring_char(1, n).to_owned();
        match tex_table_get(table, &key) {
            Some(v) => {
                cur = v.clone();
                fuel = fuel - 1;
            },
            None => {
                return Err(BuildError::UnresolvedTexture(name.clone()));
            },
        }
    }
}

/// Whether a resolved face carries the data of a raw face: the UV rectangle
/// as declared or defaulted to the full 0..16 square, and the cull face,
/// rotation and tint index as declared or defaulted.
pub open spec fn ft_matches(ft: FaceTexture, raw: FaceTextureRaw) -> bool {
    &&& ft.uv == match raw.uv {
        Option::Some(u) => u,
        Option::None => Rect2i {
            from: Vec2i { x: 0, y: 0 },
            to: Vec2i { x: 16, y: 16 },
        },
    }
    &&& ft.cullface == raw.cullface
    &&& ft.rotation == match raw.rotation {
        Option::Some(r) => r,
        Option::None => Rotate90::R0,
    }
    &&& ft.tintindex == raw.tintindex
}

impl FaceTexture {
    /// Resolves a raw face: the UV rectangle is defaulted to the full
    /// square when absent, and the texture reference is chased through the
    /// table and turned into a handle — the literal name handed to the
    /// texture capability is exactly the `chase_texture` result; the
    /// handle it returns is the capability's to choose.
    pub fn from_raw<TG: TextureGen>(
        raw: &FaceTextureRaw,
        table: &Vec<(String, String)>,
        tex_gen: &mut TG,
    ) -> (r: Result<FaceTexture, BuildError>)
        ensures
            match r {
                Ok(ft) => {
                    &&& chase_texture(table@, raw.texture@, 64) is Some
                    &&& ft_matches(ft, *raw)
                },
                Err(e) => {
                    &&& chase_texture(table@, raw.texture@, 64) is None
                    &&& e matches BuildError::UnresolvedTexture(_)
                },
            },
    {
        let resolved = match resolve_texture_name(table, &raw.texture) {
            Ok(s) => s,
            Err(e) => {
                return Err(e);
            },
        };
        let texture = tex_gen.get(resolved.as_str());
        Ok(
            FaceTexture {
                uv: match raw.uv {
                    Option::Some(u) => u,
                    Option::None => Rect2i {
                        from: Vec2i { x: 0, y: 0 },
                        to: Vec2i { x: 16, y: 16 },
                    },
                },
                cullface: raw.cullface,
                rotation: match raw.rotation {
                    Option::Some(r) => r,
                    Option::None => Rotate90::R0,
                },
                texture,
                tintindex: raw.tintindex,
            },
        )
    }
}

/// The raw face stored for the face `f`, the last declaration winning.
pub open spec fn face_entry(s: Seq<(Face, FaceTextureRaw)>, f: Face) -> Option<FaceTextureRaw>
    decreases s.len(),
{
    if s.len() == 0 {
        Option::None
    } else if s.last().0 == f {
        Option::Some(s.last().1)
    } else {
        face_entry(s.drop_last(), f)
    }
}

/// The canonical face at a face-order index.
pub open spec fn spec_face_of_index(i: int) -> Face {
    if i == 0 {
        Face::West
    } else if i == 1 {
        Face::Down
    } else if i == 2 {
        Face::North
    } else if i == 3 {
        Face::South
    } else if i == 4 {
        Face::Up
    } else {
        Face::East
    }
}

/// Whether a resolved element carries the data of a raw element: geometry
/// and shading unchanged, the rotation as declared or defaulted, and for
/// every canonical face either no texture or one matching the last raw
/// declaration of that face.
pub open spec fn element_matches(el: Element, raw: ElementRaw) -> bool {
    &&& el.cubic.from == raw.from
    &&& el.cubic.to == raw.to
    &&& el.shade == raw.shade
    &&& el.rotation == match raw.rotation {
        Option::Some(r) => ElementRotation {
            origin: r.origin,
            axis: r.axis,
            angle: r.angle,
            rescale: r.rescale,
        },
        Option::None => ElementRotation {
            origin: Vec3i { x: 8, y: 8, z: 8 },
            axis: Axis::Y,
            angle: 0,
            rescale: false,
        },
    }
    &&& el.faces@.len() == 6
    &&& (forall|fi: int|
        0 <= fi < 6 ==> match face_entry(raw.faces@, spec_face_of_index(fi)) {
            Option::None => (#[trigger] el.faces@[fi]) is None,
            Option::Some(ftr) => match el.faces@[fi] {
                Option::Some(ft) => ft_matches(ft, ftr),
                Option::None => false,
            },
        })
}

impl Element {
    /// Resolves a raw element: the cuboid and shading are taken over
    /// unchanged, an absent rotation defaults to none about the center,
    /// and each declared face is resolved through the texture table, the
    /// last declaration of a face winning. Succeeds exactly when every
    /// declared face texture reference resolves.
    pub fn from_raw<TG: TextureGen>(
        raw: &ElementRaw,
        table: &Vec<(String, String)>,
        tex_gen: &mut TG,
    ) -> (r: Result<Element, BuildError>)
        ensures
            match r {
                Ok(el) => {
                    &&& el.wf()
                    &&& element_matches(el, *raw)
                    &&& (forall|i: int|
                        0 <= i < raw.faces@.len() ==> chase_texture(
                            table@,
                            (#[trigger] raw.faces@[i]).1.texture@,
                            64,
                        ) is Some)
                },
                Err(e) => {
                    &&& e matches BuildError::UnresolvedTexture(_)
                    &&& exists|i: int|
                        0 <= i < raw.faces@.len() && chase_texture(
                            table@,
                            (#[trigger] raw.faces@[i]).1.texture@,
                            64,
                        ) is None
                },
            },
    {
        let mut faces: Vec<Option<FaceTexture>> = Vec::new();
        faces.push(None);
        faces.push(None);
        faces.push(None);
        faces.push(None);
        faces.push(None);
        faces.push(None);
        proof {
            assert forall|fi: int| 0 <= fi < 6 implies match face_entry(
                raw.faces@.take(0),
                spec_face_of_index(fi),
            ) {
                Option::None => (#[trigger] faces@[fi]) is None,
                Option::Some(ftr) => match faces@[fi] {
                    Option::Some(ft) => ft_matches(ft, ftr),
                    Option::None => false,
                },
            } by {
                assert(raw.faces@.take(0).len() == 0);
            }
        }
        let mut i: usize = 0;
        while i < raw.faces.len()
            invariant
                i <= raw.faces@.len(),
                faces@.len() == 6,
                forall|j: int|
                    0 <= j < i ==> chase_texture(
                        table@,
                        (#[trigger] raw.faces@[j]).1.texture@,
                        64,
                    ) is Some,
                forall|fi: int|
                    0 <= fi < 6 ==> match face_entry(
                        raw.faces@.take(i as int),
                        spec_face_of_index(fi),
                    ) {
                        Option::None => (#[trigger] faces@[fi]) is None,
                        Option::Some(ftr) => match faces@[fi] {
                            Option::Some(ft) => ft_matches(ft, ftr),
                            Option::None => false,
                        },
                    },
            decreases raw.faces@.len() - i,
        {
            let f = raw.faces[i].0;
            let ft = match FaceTexture::from_raw(&raw.faces[i].1, table, tex_gen) {
                Ok(ft) => ft,
                Err(e) => {
                    return Err(e);
                },
            };
            let fi = f.index();
            faces.set(fi, Some(ft));
            proof {
                let taken = raw.faces@.take(i as int + 1);
                assert(taken.last() == raw.faces@[i as int]);
                assert(taken.drop_last() =~= raw.faces@.take(i as int));
                assert forall|fj: int| 0 <= fj < 6 implies match face_entry(
                    taken,
                    spec_face_of_index(fj),
                ) {
                    Option::None => (#[trigger] faces@[fj]) is None,
                    Option::Some(ftr) => match faces@[fj] {
                        Option::Some(ft2) => ft_matches(ft2, ftr),
                        Option::None => false,
                    },
                } by {
                    if fj == f.spec_index() {
                        assert(spec_face_of_index(fj) == f);
                        assert(face_entry(taken, f) == Option::Some(raw.faces@[i as int].1));
                    } else {
                        assert(spec_face_of_index(fj) != f);
                        assert(face_entry(taken, spec_face_of_index(fj)) == face_entry(
                            raw.faces@.take(i as int),
                            spec_face_of_index(fj),
                        ));
                    }
                }
            }
            i += 1;
        }
        proof {
            assert(raw.faces@.take(raw.faces@.len() as int) =~= raw.faces@);
        }
        let rotation = match raw.rotation {
            Option::Some(r) => ElementRotation {
                origin: r.origin,
                axis: r.axis,
                angle: r.angle,
                rescale: r.rescale,
            },
            Option::None => {
                let d = RotationRaw::default();
                ElementRotation { origin: d.origin, axis: d.axis, angle: d.angle, rescale: d.rescale }
            },
        };
        Ok(Element { cubic: Cubic { from: raw.from, to: raw.to }, rotation, faces, shade: raw.shade })
    }
}

/// Whether a resolved model carries the data of a raw model, element by
/// element.
pub open spec fn model_matches(m: Model, raw: ModelRaw) -> bool {
    &&& m.ambientocclusion == raw.ambientocclusion
    &&& m.elements@.len() == raw.elements@.len()
    &&& (forall|i: int|
        0 <= i < raw.elements@.len() ==> element_matches(
            #[trigger] m.elements@[i],
            raw.elements@[i],
        ))
}

impl Model {
    /// Resolves a raw model with its merged texture table: every element is
    /// taken over with only the declared defaults filled in, so a model
    /// without a parent round-trips its raw element data. Succeeds exactly
    /// when every face texture reference of every element resolves.
    pub fn from_raw<TG: TextureGen>(
        raw: &ModelRaw,
        table: &Vec<(String, String)>,
        tex_gen: &mut TG,
    ) -> (r: Result<Model, BuildError>)
        ensures
            match r {
                Ok(m) => {
                    &&& m.wf()
                    &&& model_matches(m, *raw)
                    &&& (forall|i: int, j: int|
                        0 <= i < raw.elements@.len() && 0 <= j
                            < raw.elements@[i].faces@.len() ==> chase_texture(
                            table@,
                            (#[trigger] raw.elements@[i].faces@[j]).1.texture@,
                            64,
                        ) is Some)
                },
                Err(e) => {
                    &&& e matches BuildError::UnresolvedTexture(_)
                    &&& exists|i: int, j: int|
                        0 <= i < raw.elements@.len() && 0 <= j
                            < raw.elements@[i].faces@.len() && chase_texture(
                            table@,
                            (#[trigger] raw.elements@[i].faces@[j]).1.texture@,
                            64,
                        ) is None
                },
            },
    {
        let mut elements: Vec<Element> = Vec::new();
        let mut i: usize = 0;
        while i < raw.elements.len()
            invariant
                i <= raw.elements@.len(),
                elements@.len() == i,
                forall|j: int|
                    0 <= j < i ==> (#[trigger] elements@[j]).wf() && element_matches(
                        elements@[j],
                        raw.elements@[j],
                    ),
                forall|k: int, j: int|
                    0 <= k < i && 0 <= j < raw.elements@[k].faces@.len() ==> chase_texture(
                        table@,
                        (#[trigger] raw.elements@[k].faces@[j]).1.texture@,
                        64,
                    ) is Some,
            decreases raw.elements@.len() - i,
        {
            let el = match Element::from_raw(&raw.elements[i], table, tex_gen) {
                Ok(el) => el,
                Err(e) => {
                    return Err(e);
                },
            };
            elements.push(el);
            i += 1;
        }
        Ok(Model { ambientocclusion: raw.ambientocclusion, elements })
    }
}

} // verus!
