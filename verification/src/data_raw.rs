//! Raw blockstate and model records, as handed over by a record provider,
//! and the parent-merging rules for model inheritance.
//!
//! Coordinates live in the 0..16 voxel space and are held as integers;
//! element rotation angles are held in tenths of a degree.

use vstd::prelude::*;

use crate::math::Axis;
use crate::math::Face;
use crate::math::Rect2i;
use crate::math::Rotate90;
use crate::math::Vec3i;

verus! {

/// The default of a boolean record field that is on unless stated.
pub fn default_bool_true() -> (r: bool)
    ensures
        r,
{
    true
}

/// Merging a child record with the record it inherits from.
pub trait Merge {
    /// Merges `other`, the parent, under `self`, the child; the child's
    /// fields win. Returns true.
    fn merge(&mut self, other: &Self) -> bool;
}

/// A cuboid rotation declared by a raw element.
#[derive(Clone, Copy, Debug, PartialEq, Eq, Structural)]
pub struct RotationRaw {
    /// The point the cuboid rotates about.
    pub origin: Vec3i,
    /// The axis of rotation.
    pub axis: Axis,
    /// The angle, in tenths of a degree.
    pub angle: i32,
    /// Whether the cuboid is rescaled to span its original extent.
    pub rescale: bool,
}

impl Default for RotationRaw {
    /// No rotation: about the cuboid-space center, around Y, by nothing.
    fn default() -> (r: Self)
        ensures
            r == (RotationRaw {
                origin: Vec3i { x: 8, y: 8, z: 8 },
                axis: Axis::Y,
                angle: 0,
                rescale: false,
            }),
    {
        RotationRaw { origin: Vec3i { x: 8, y: 8, z: 8 }, axis: Axis::Y, angle: 0, rescale: false }
    }
}

/// One textured face of a raw element.
#[derive(Clone, Debug)]
pub struct FaceTextureRaw {
    /// The UV rectangle, absent for the full 0..16 square.
    pub uv: Option<Rect2i>,
    /// A texture name, or a `#`-reference into the texture table.
    pub texture: String,
    /// The face whose neighbor decides whether this face is culled.
    pub cullface: Option<Face>,
    /// The texture rotation, absent for none.
    pub rotation: Option<Rotate90>,
    /// The tint color index, absent for untinted faces.
    pub tintindex: Option<usize>,
}

impl Merge for FaceTextureRaw {
    /// The child's fields win; the parent only fills absent ones.
    fn merge(&mut self, other: &Self) -> (r: bool)
        ensures
            r,
            final(self).uv == if old(self).uv is None {
                other.uv
            } else {
                old(self).uv
            },
            final(self).cullface == if old(self).cullface is None {
                other.cullface
            } else {
                old(self).cullface
            },
            final(self).rotation == if old(self).rotation is None {
                other.rotation
            } else {
                old(self).rotation
            },
            final(self).tintindex == if old(self).tintindex is None {
                other.tintindex
            } else {
                old(self).tintindex
            },
            final(self).texture == old(self).texture,
    {
        if self.uv.is_none() && other.uv.is_some() {
            self.uv = other.uv;
        }
        if self.cullface.is_none() && other.cullface.is_some() {
            self.cullface = other.cullface;
        }
        if self.rotation.is_none() && other.rotation.is_some() {
            self.rotation = other.rotation;
        }
        if self.tintindex.is_none() && other.tintindex.is_some() {
            self.tintindex = other.tintindex;
        }
        true
    }
}

/// Position of the first entry for the face `f` in a face list, or -1.
pub open spec fn spec_face_index(faces: Seq<(Face, FaceTextureRaw)>, f: Face) -> int
    decreases faces.len(),
{
    if faces.len() == 0 {
        -1
    } else if faces[0].0 == f {
        0
    } else {
        let r = spec_face_index(faces.drop_first(), f);
        if r < 0 {
            -1
        } else {
            r + 1
        }
    }
}

/// A scan that saw no entry for `f` before `j` and stopped at `j` pins
/// down `spec_face_index`.
proof fn lemma_face_index_characterize(faces: Seq<(Face, FaceTextureRaw)>, f: Face, j: int)
    requires
        0 <= j <= faces.len(),
        forall|m: int| 0 <= m < j ==> (#[trigger] faces[m]).0 != f,
        j == faces.len() || faces[j].0 == f,
    ensures
        spec_face_index(faces, f) == if j == faces.len() {
            -1
        } else {
            j
        },
    decreases faces.len(),
{
    if faces.len() > 0 && j > 0 {
        assert forall|m: int| 0 <= m < j - 1 implies (#[trigger] faces.drop_first()[m]).0
            != f by {
            assert(faces.drop_first()[m] == faces[m + 1]);
        }
        assert(j - 1 == faces.drop_first().len() || faces.drop_first()[j - 1].0 == f);
        lemma_face_index_characterize(faces.drop_first(), f, j - 1);
    }
}

/// Position of the first entry for the face `f` in a face list.
pub fn face_index(faces: &Vec<(Face, FaceTextureRaw)>, f: Face) -> (r: Option<usize>)
    ensures
        match r {
            Some(i) => {
                &&& i < faces@.len()
                &&& faces@[i as int].0 == f
                &&& forall|j: int| 0 <= j < i ==> (#[trigger] faces@[j]).0 != f
                &&& spec_face_index(faces@, f) == i
            },
            None => {
                &&& forall|j: int| 0 <= j < faces@.len() ==> (#[trigger] faces@[j]).0 != f
                &&& spec_face_index(faces@, f) < 0
            },
        },
{
    let mut i: usize = 0;
    while i < faces.len()
        invariant
            i <= faces@.len(),
            forall|j: int| 0 <= j < i ==> (#[trigger] faces@[j]).0 != f,
        decreases faces@.len() - i,
    {
        if faces[i].0 == f {
            proof {
                lemma_face_index_characterize(faces@, f, i as int);
            }
            return Some(i);
        }
        i += 1;
    }
    proof {
        lemma_face_index_characterize(faces@, f, faces@.len() as int);
    }
    None
}

/// One cuboid of a raw model.
#[derive(Clone, Debug)]
pub struct ElementRaw {
    /// One corner of the cuboid.
    pub from: Vec3i,
    /// The opposite corner.
    pub to: Vec3i,
    /// The cuboid's own rotation, absent for none.
    pub rotation: Option<RotationRaw>,
    /// Whether the cuboid is shaded.
    pub shade: bool,
    /// The declared faces, each keyed by its direction.
    pub faces: Vec<(Face, FaceTextureRaw)>,
}

/// What filling a child face from a parent face yields: the child's fields
/// win, the parent's fill absences, and the texture reference stays the
/// child's.
pub open spec fn ftr_merge_spec(c: FaceTextureRaw, p: FaceTextureRaw) -> FaceTextureRaw {
    FaceTextureRaw {
        uv: if c.uv is None {
            p.uv
        } else {
            c.uv
        },
        texture: c.texture,
        cullface: if c.cullface is None {
            p.cullface
        } else {
            c.cullface
        },
        rotation: if c.rotation is None {
            p.rotation
        } else {
            c.rotation
        },
        tintindex: if c.tintindex is None {
            p.tintindex
        } else {
            c.tintindex
        },
    }
}

/// Same face lists, entry by entry: same faces, same content.
pub open spec fn face_list_eqv(
    a: Seq<(Face, FaceTextureRaw)>,
    b: Seq<(Face, FaceTextureRaw)>,
) -> bool {
    a.len() == b.len() && (forall|i: int|
        0 <= i < a.len() ==> (#[trigger] a[i]).0 == b[i].0 && ftr_eqv(a[i].1, b[i].1))
}

/// The child's face list after the first `n` parent faces fill it, left to
/// right: a face the child already lists merges field-wise into its first
/// entry; a new face is appended.
pub open spec fn merge_faces_spec(
    child: Seq<(Face, FaceTextureRaw)>,
    parent: Seq<(Face, FaceTextureRaw)>,
    n: int,
) -> Seq<(Face, FaceTextureRaw)>
    decreases n,
{
    if n <= 0 {
        child
    } else {
        let acc = merge_faces_spec(child, parent, n - 1);
        let f = parent[n - 1].0;
        let i = spec_face_index(acc, f);
        if 0 <= i < acc.len() {
            acc.update(i, (f, ftr_merge_spec(acc[i].1, parent[n - 1].1)))
        } else {
            acc.push((f, parent[n - 1].1))
        }
    }
}

impl Merge for ElementRaw {
    /// The child keeps its geometry; an absent rotation is filled from the
    /// parent, and the parent's faces fill the gaps of the child's: a face
    /// the child already lists merges field-wise, a new face is appended.
    fn merge(&mut self, other: &Self) -> (r: bool)
        ensures
            r,
            final(self).from == old(self).from,
            final(self).to == old(self).to,
            final(self).shade == old(self).shade,
            final(self).rotation == if old(self).rotation is None {
                other.rotation
            } else {
                old(self).rotation
            },
            face_list_eqv(
                final(self).faces@,
                merge_faces_spec(old(self).faces@, other.faces@, other.faces@.len() as int),
            ),
    {
        if self.rotation.is_none() && other.rotation.is_some() {
            self.rotation = other.rotation;
        }
        let mut oi: usize = 0;
        while oi < other.faces.len()
            invariant
                oi <= other.faces@.len(),
                self.from == old(self).from,
                self.to == old(self).to,
                self.shade == old(self).shade,
                self.rotation == if old(self).rotation is None {
                    other.rotation
                } else {
                    old(self).rotation
                },
                face_list_eqv(
                    self.faces@,
                    merge_faces_spec(old(self).faces@, other.faces@, oi as int),
                ),
            decreases other.faces@.len() - oi,
        {
            let ghost acc = merge_faces_spec(old(self).faces@, other.faces@, oi as int);
            let f = other.faces[oi].0;
            match face_index(&self.faces, f) {
                Some(si) => {
                    proof {
                        assert forall|m: int| 0 <= m < si implies (#[trigger] acc[m]).0 != f by {
                            assert(self.faces@[m].0 == acc[m].0);
                        }
                        assert(acc[si as int].0 == f);
                        lemma_face_index_characterize(acc, f, si as int);
                    }
                    let parent_face = clone_face_texture_raw(&other.faces[oi].1);
                    let mut child_face = clone_face_texture_raw(&self.faces[si].1);
                    child_face.merge(&parent_face);
                    self.faces.set(si, (f, child_face));
                    proof {
                        assert(ftr_eqv(
                            self.faces@[si as int].1,
                            ftr_merge_spec(acc[si as int].1, other.faces@[oi as int].1),
                        ));
                    }
                },
                None => {
                    proof {
                        // the model sees no entry for this face either
                        assert forall|m: int| 0 <= m < acc.len() implies (#[trigger] acc[m]).0
                            != f by {
                            assert(self.faces@[m].0 == acc[m].0);
                        }
                        lemma_face_index_characterize(acc, f, acc.len() as int);
                    }
                    let pair = (f, clone_face_texture_raw(&other.faces[oi].1));
                    self.faces.push(pair);
                },
            }
            oi += 1;
        }
        true
    }
}

/// Same raw face content: every field equal, the texture name by its text.
pub open spec fn ftr_eqv(a: FaceTextureRaw, b: FaceTextureRaw) -> bool {
    &&& a.uv == b.uv
    &&& a.texture@ == b.texture@
    &&& a.cullface == b.cullface
    &&& a.rotation == b.rotation
    &&& a.tintindex == b.tintindex
}

/// Same raw element content, face by face.
pub open spec fn element_eqv(a: ElementRaw, b: ElementRaw) -> bool {
    &&& a.from == b.from
    &&& a.to == b.to
    &&& a.rotation == b.rotation
    &&& a.shade == b.shade
    &&& a.faces@.len() == b.faces@.len()
    &&& (forall|i: int|
        0 <= i < a.faces@.len() ==> (#[trigger] a.faces@[i]).0 == b.faces@[i].0 && ftr_eqv(
            a.faces@[i].1,
            b.faces@[i].1,
        ))
}

/// Same element lists, element by element.
pub open spec fn elements_eqv(a: Seq<ElementRaw>, b: Seq<ElementRaw>) -> bool {
    a.len() == b.len() && (forall|i: int| 0 <= i < a.len() ==> element_eqv(#[trigger] a[i], b[i]))
}

/// Same texture tables, entry by entry, by their text.
pub open spec fn tex_table_eqv(a: Seq<(String, String)>, b: Seq<(String, String)>) -> bool {
    a.len() == b.len() && (forall|i: int|
        0 <= i < a.len() ==> (#[trigger] a[i]).0@ == b[i].0@ && a[i].1@ == b[i].1@)
}

/// A copy of a raw face with the same content.
pub fn clone_face_texture_raw(x: &FaceTextureRaw) -> (r: FaceTextureRaw)
    ensures
        ftr_eqv(r, *x),
{
    FaceTextureRaw {
        uv: x.uv,
        texture: x.texture.clone(),
        cullface: x.cullface,
        rotation: x.rotation,
        tintindex: x.tintindex,
    }
}

/// A copy of a raw element with the same content.
pub fn clone_element_raw(x: &ElementRaw) -> (r: ElementRaw)
    ensures
        element_eqv(r, *x),
{
    let mut faces: Vec<(Face, FaceTextureRaw)> = Vec::new();
    let mut i: usize = 0;
    while i < x.faces.len()
        invariant
            i <= x.faces@.len(),
            faces@.len() == i,
            forall|j: int|
                0 <= j < i ==> (#[trigger] faces@[j]).0 == x.faces@[j].0 && ftr_eqv(
                    faces@[j].1,
                    x.faces@[j].1,
                ),
        decreases x.faces@.len() - i,
    {
        let pair = (x.faces[i].0, clone_face_texture_raw(&x.faces[i].1));
        faces.push(pair);
        i += 1;
    }
    ElementRaw { from: x.from, to: x.to, rotation: x.rotation, shade: x.shade, faces }
}

/// A copy of an element list with the same content.
pub fn clone_elements_raw(x: &Vec<ElementRaw>) -> (r: Vec<ElementRaw>)
    ensures
        elements_eqv(r@, x@),
{
    let mut out: Vec<ElementRaw> = Vec::new();
    let mut i: usize = 0;
    while i < x.len()
        invariant
            i <= x@.len(),
            out@.len() == i,
            forall|j: int| 0 <= j < i ==> element_eqv(#[trigger] out@[j], x@[j]),
        decreases x@.len() - i,
    {
        let e = clone_element_raw(&x[i]);
        out.push(e);
        i += 1;
    }
    out
}

/// A copy of a texture table with the same entries.
pub fn clone_tex_table(x: &Vec<(String, String)>) -> (r: Vec<(String, String)>)
    ensures
        tex_table_eqv(r@, x@),
{
    let mut out: Vec<(String, String)> = Vec::new();
    let mut i: usize = 0;
    while i < x.len()
        invariant
            i <= x@.len(),
            out@.len() == i,
            forall|j: int|
                0 <= j < i ==> (#[trigger] out@[j]).0@ == x@[j].0@ && out@[j].1@ == x@[j].1@,
        decreases x@.len() - i,
    {
        let pair = (x[i].0.clone(), x[i].1.clone());
        out.push(pair);
        i += 1;
    }
    out
}

/// A raw model record: geometry, texture indirection table, and an optional
/// parent to inherit from.
#[derive(Clone, Debug)]
pub struct ModelRaw {
    /// The record this model inherits from, absent for a root model.
    pub parent: Option<String>,
    /// Whether ambient occlusion applies.
    pub ambientocclusion: bool,
    /// The cuboids; empty when only ancestors define geometry.
    pub elements: Vec<ElementRaw>,
    /// The texture indirection table, mapping names to references or
    /// literal texture names.
    pub textures: Option<Vec<(String, String)>>,
}

/// Whether the texture table `t` holds an entry for the key `k`.
pub open spec fn tex_table_has(t: Seq<(String, String)>, k: Seq<char>) -> bool {
    exists|i: int| 0 <= i < t.len() && (#[trigger] t[i]).0@ == k
}

/// The texture table of `child` extended, left to right, by the `parent`
/// entries whose keys the accumulated table still lacks.
pub open spec fn tex_table_fill(
    child: Seq<(String, String)>,
    parent: Seq<(String, String)>,
    n: int,
) -> Seq<(String, String)>
    decreases n,
{
    if n <= 0 {
        child
    } else {
        let prev = tex_table_fill(child, parent, n - 1);
        if tex_table_has(prev, parent[n - 1].0@) {
            prev
        } else {
            prev.push(parent[n - 1])
        }
    }
}

/// Whether the texture table `t` holds an entry for the key `k`.
pub fn tex_table_contains(t: &Vec<(String, String)>, k: &String) -> (r: bool)
    ensures
        r == tex_table_has(t@, k@),
{
    let mut i: usize = 0;
    while i < t.len()
        invariant
            i <= t@.len(),
            forall|j: int| 0 <= j < i ==> (#[trigger] t@[j]).0@ != k@,
        decreases t@.len() - i,
    {
        if t[i].0 == *k {
            proof {
                assert(t@[i as int].0@ == k@);
            }
            return true;
        }
        i += 1;
    }
    false
}

impl ModelRaw {
    /// Merges the parent record under this child: the child's parent link is
    /// replaced by the grandparent's, the child's elements stand unless it
    /// has none, and parent texture entries fill the gaps of the child's
    /// table.
    pub fn merge_parent(&mut self, other: &Self)
        ensures
            final(self).parent == other.parent,
            final(self).ambientocclusion == old(self).ambientocclusion,
            elements_eqv(
                final(self).elements@,
                if old(self).elements@.len() == 0 && other.elements@.len() > 0 {
                    other.elements@
                } else {
                    old(self).elements@
                },
            ),
            other.textures is None ==> final(self).textures == old(self).textures,
            match (old(self).textures, other.textures) {
                (Option::Some(ct), Option::Some(pt)) => match final(self).textures {
                    Option::Some(t) => t@ == tex_table_fill(ct@, pt@, pt@.len() as int),
                    Option::None => false,
                },
                (Option::None, Option::Some(pt)) => match final(self).textures {
                    Option::Some(t) => tex_table_eqv(t@, pt@),
                    Option::None => false,
                },
                _ => true,
            },
    {
        self.parent = other.parent.clone();
        if self.elements.len() == 0 && other.elements.len() > 0 {
            self.elements = clone_elements_raw(&other.elements);
        } else {
            proof {
                let es = self.elements@;
                assert forall|i: int| 0 <= i < es.len() implies element_eqv(
                    #[trigger] es[i],
                    es[i],
                ) by {}
            }
        }
        match (&mut self.textures, &other.textures) {
            (Option::Some(ct), Option::Some(pt)) => {
                let ghost child0 = ct@;
                let mut pi: usize = 0;
                while pi < pt.len()
                    invariant
                        pi <= pt@.len(),
                        ct@ == tex_table_fill(child0, pt@, pi as int),
                    decreases pt@.len() - pi,
                {
                    let key = &pt[pi].0;
                    if !tex_table_contains(ct, key) {
                        let pair = (pt[pi].0.clone(), pt[pi].1.clone());
                        ct.push(pair);
                        proof {
                            assert(pair.0@ == pt@[pi as int].0@);
                            assert((pair.0, pair.1) == pt@[pi as int] || true);
                        }
                    }
                    pi += 1;
                }
            },
            (Option::None, Option::Some(pt)) => {
                let t = clone_tex_table(pt);
                self.textures = Some(t);
            },
            _ => {},
        }
    }
}

impl Merge for ModelRaw {
    /// Merges the parent under the child as `merge_parent` does.
    fn merge(&mut self, other: &Self) -> bool {
        self.merge_parent(other);
        true
    }
}

/// One model placement of a blockstate rule.
#[derive(Clone, Debug)]
pub struct AppliedModelRaw {
    /// Quarter turns about the world X axis.
    pub x: Rotate90,
    /// Quarter turns about the world Y axis.
    pub y: Rotate90,
    /// The model record name.
    pub model: String,
    /// Whether face textures stay visually upright under the rotation.
    pub uvlock: bool,
}

/// The value of one rule: a single placement, or weighted alternatives of
/// which one is drawn at random at render time.
#[derive(Clone, Debug)]
pub enum ApplyRaw {
    /// A single placement.
    Item(AppliedModelRaw),
    /// Alternative placements.
    Array(Vec<AppliedModelRaw>),
}

impl ApplyRaw {
    /// Whether the value holds at least one placement.
    pub open spec fn spec_nonempty(self) -> bool {
        match self {
            ApplyRaw::Item(_) => true,
            ApplyRaw::Array(l) => l@.len() > 0,
        }
    }

    /// The first placement.
    pub open spec fn spec_first(self) -> AppliedModelRaw {
        match self {
            ApplyRaw::Item(p) => p,
            ApplyRaw::Array(l) => l@[0],
        }
    }

    /// The first placement, skipping the weighted random choice.
    pub fn get_fast(&self) -> (r: &AppliedModelRaw)
        requires
            self.spec_nonempty(),
        ensures
            *r == self.spec_first(),
    {
        match self {
            ApplyRaw::Item(p) => p,
            ApplyRaw::Array(list) => &list[0],
        }
    }
}

/// A raw variant blockstate: condition strings, each with its value.
#[derive(Clone, Debug)]
pub struct VariantsRaw(pub Vec<(String, ApplyRaw)>);

/// A raw multipart blockstate: parts in declaration order, each with an
/// optional `when` clause and its value.
#[derive(Clone, Debug)]
pub struct MuitiPartRaw(pub Vec<(Option<crate::blockstate::WhenRecord>, ApplyRaw)>);

/// A raw blockstate record, in either discipline.
#[derive(Clone, Debug)]
pub enum BlockStateRaw {
    /// Exactly one rule fires per environment.
    Variants(VariantsRaw),
    /// Zero or more parts fire and their results concatenate.
    MuitiPart(MuitiPartRaw),
}

/// Where a point of the 0..16 cuboid space ends up after a quarter-turn
/// rotation about an axis of that space.
pub open spec fn spec_transform(axis: Axis, rotation: Rotate90, v: Vec3i) -> Vec3i {
    match rotation {
        Rotate90::R0 => v,
        Rotate90::R90 => match axis {
            Axis::X => Vec3i { x: v.x, y: (16 - v.z) as i32, z: v.y },
            Axis::Y => Vec3i { x: v.z, y: v.y, z: (16 - v.x) as i32 },
            Axis::Z => Vec3i { x: (16 - v.y) as i32, y: v.x, z: v.z },
        },
        Rotate90::R180 => match axis {
            Axis::X => Vec3i { x: v.x, y: (16 - v.y) as i32, z: (16 - v.z) as i32 },
            Axis::Y => Vec3i { x: (16 - v.x) as i32, y: v.y, z: (16 - v.z) as i32 },
            Axis::Z => Vec3i { x: (16 - v.x) as i32, y: (16 - v.y) as i32, z: v.z },
        },
        Rotate90::R270 => match axis {
            Axis::X => Vec3i { x: v.x, y: v.z, z: (16 - v.y) as i32 },
            Axis::Y => Vec3i { x: (16 - v.z) as i32, y: v.y, z: v.x },
            Axis::Z => Vec3i { x: v.y, y: (16 - v.x) as i32, z: v.z },
        },
    }
}

/// Rotates a point of the 0..16 cuboid space by a quarter turn about an
/// axis of that space.
pub fn transform(axis: Axis, rotation: Rotate90, vec3: &Vec3i) -> (r: Vec3i)
    requires
        -0x4000_0000 <= vec3.x <= 0x4000_0000,
        -0x4000_0000 <= vec3.y <= 0x4000_0000,
        -0x4000_0000 <= vec3.z <= 0x4000_0000,
    ensures
        r == spec_transform(axis, rotation, *vec3),
{
    let v = *vec3;
    match rotation {
        Rotate90::R0 => v,
        Rotate90::R90 => match axis {
            Axis::X => Vec3i { x: v.x, y: 16 - v.z, z: v.y },
            Axis::Y => Vec3i { x: v.z, y: v.y, z: 16 - v.x },
            Axis::Z => Vec3i { x: 16 - v.y, y: v.x, z: v.z },
        },
        Rotate90::R180 => match axis {
            Axis::X => Vec3i { x: v.x, y: 16 - v.y, z: 16 - v.z },
            Axis::Y => Vec3i { x: 16 - v.x, y: v.y, z: 16 - v.z },
            Axis::Z => Vec3i { x: 16 - v.x, y: 16 - v.y, z: v.z },
        },
        Rotate90::R270 => match axis {
            Axis::X => Vec3i { x: v.x, y: v.z, z: 16 - v.y },
            Axis::Y => Vec3i { x: 16 - v.z, y: v.y, z: v.x },
            Axis::Z => Vec3i { x: v.y, y: 16 - v.x, z: v.z },
        },
    }
}

} // verus!
