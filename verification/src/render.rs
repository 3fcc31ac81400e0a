//! The face culler and emitter: walks the oriented models of a block,
//! culls faces hidden behind solid neighbors, and hands per-face quads to a
//! renderer capability.

use vstd::prelude::*;

use crate::math::Face;
use crate::math::spec_face_inv_mapping;
use crate::math::spec_face_mapping;
use crate::math::Vec2i;
use crate::math::Vec3i;
use crate::model::Element;
use crate::model::Mat3i;
use crate::model::Mesh;
use crate::model::Model;
use crate::model::spec_face_corners;
use crate::model::spec_uv_corners;
use crate::model::spec_uv_lock_rotation;
use crate::model::TransformedModel;

verus! {

/// What a world cell holds.
pub enum Block<L, S> {
    /// Nothing to draw.
    Air,
    /// A liquid block.
    Liquid(L),
    /// A solid block.
    Solid(S),
}

/// A block position: the vertical coordinate is a world layer.
#[derive(Clone, Copy, Debug, PartialEq, Eq, Structural)]
pub struct MCBlockLoc {
    /// East-west position.
    pub x: i32,
    /// The layer, bounded by the world height.
    pub y: u8,
    /// North-south position.
    pub z: i32,
}

impl MCBlockLoc {
    /// The neighboring position one step toward `face`, or `None` at the
    /// world edge.
    pub open spec fn spec_near(self, face: Face) -> Option<MCBlockLoc> {
        match face {
            Face::West => if self.x == i32::MIN {
                Option::None
            } else {
                Option::Some(MCBlockLoc { x: (self.x - 1) as i32, y: self.y, z: self.z })
            },
            Face::Down => if self.y == 0 {
                Option::None
            } else {
                Option::Some(MCBlockLoc { x: self.x, y: (self.y - 1) as u8, z: self.z })
            },
            Face::North => if self.z == i32::MIN {
                Option::None
            } else {
                Option::Some(MCBlockLoc { x: self.x, y: self.y, z: (self.z - 1) as i32 })
            },
            Face::South => if self.z == i32::MAX {
                Option::None
            } else {
                Option::Some(MCBlockLoc { x: self.x, y: self.y, z: (self.z + 1) as i32 })
            },
            Face::Up => if self.y == u8::MAX {
                Option::None
            } else {
                Option::Some(MCBlockLoc { x: self.x, y: (self.y + 1) as u8, z: self.z })
            },
            Face::East => if self.x == i32::MAX {
                Option::None
            } else {
                Option::Some(MCBlockLoc { x: (self.x + 1) as i32, y: self.y, z: self.z })
            },
        }
    }

    /// A position from its coordinates.
    pub fn new(x: i32, y: u8, z: i32) -> (r: Self)
        ensures
            r == (MCBlockLoc { x, y, z }),
    {
        MCBlockLoc { x, y, z }
    }

    /// The neighboring position one step toward `face`, or `None` at the
    /// world edge.
    pub fn near(&self, face: &Face) -> (r: Option<Self>)
        ensures
            r == self.spec_near(*face),
    {
        match face {
            Face::West => {
                if self.x == i32::MIN {
                    None
                } else {
                    Some(MCBlockLoc { x: self.x - 1, y: self.y, z: self.z })
                }
            },
            Face::Down => {
                if self.y == u8::MIN {
                    None
                } else {
                    Some(MCBlockLoc { x: self.x, y: self.y - 1, z: self.z })
                }
            },
            Face::North => {
                if self.z == i32::MIN {
                    None
                } else {
                    Some(MCBlockLoc { x: self.x, y: self.y, z: self.z - 1 })
                }
            },
            Face::South => {
                if self.z == i32::MAX {
                    None
                } else {
                    Some(MCBlockLoc { x: self.x, y: self.y, z: self.z + 1 })
                }
            },
            Face::Up => {
                if self.y == u8::MAX {
                    None
                } else {
                    Some(MCBlockLoc { x: self.x, y: self.y + 1, z: self.z })
                }
            },
            Face::East => {
                if self.x == i32::MAX {
                    None
                } else {
                    Some(MCBlockLoc { x: self.x + 1, y: self.y, z: self.z })
                }
            },
        }
    }
}

/// A drawable block: its oriented models, split into solid and water
/// groups, with light and inline tint colors.
pub trait RenderableBlock {
    /// Whether the cell is empty.
    fn is_air(&self) -> bool;

    /// Whether the cell is a water source block.
    fn is_water(&self) -> bool;

    /// Whether the cell is a solid block standing in water.
    fn is_water_logged(&self) -> bool;

    /// The oriented models of the solid part.
    fn get_models(&self) -> &Vec<TransformedModel>;

    /// The oriented models of the water part.
    fn get_water_models(&self) -> &Vec<TransformedModel>;

    /// The RGBA tint color for a tint index.
    fn get_inline_color(&self, tintindex: usize) -> [u8; 4];

    /// The block light value.
    fn get_light(&self) -> u8;
}

/// The world capability the emitter queries.
pub trait World {
    /// The drawable block type this world hands out.
    type Block: RenderableBlock;

    /// The block at a position.
    fn get(&self, loc: &MCBlockLoc) -> Self::Block;

    /// Whether the position holds air; faces hidden behind non-air
    /// neighbors are culled.
    fn is_air(&self, loc: &MCBlockLoc) -> bool;
}

/// The renderer capability the emitter feeds.
pub trait BlockRenderer {
    /// The renderer's error type.
    type E;

    /// Switches the draw-order bucket; smaller draws first. Returns the
    /// previous bucket.
    fn state(&mut self, prior: i32) -> i32;

    /// Draws one face quad.
    fn draw(&mut self, loc: &MCBlockLoc, mesh: &Mesh) -> Result<(), Self::E>;
}

/// Whether a face whose neighbor answered `neighbor_air` is culled:
/// exactly when a neighbor exists in the cull direction and is not air. A
/// face without a cull direction, or one whose neighbor lies past the
/// world edge or is air, stays visible.
pub fn cull_decision(neighbor_air: Option<bool>) -> (r: bool)
    ensures
        r == (neighbor_air == Some(false)),
{
    match neighbor_air {
        Some(false) => true,
        _ => false,
    }
}

/// The quad that the face of interest `face` yields for one element under
/// a placement: the corners of the model face that points at `face`, its
/// UVs under the declared rotation composed with the uv-lock rotation, the
/// element's own rotation data and the placement's change of basis —
/// or nothing, when that model face carries no texture.
pub open spec fn spec_face_quad(
    element: Element,
    tmodel: TransformedModel,
    face: Face,
    color: [u8; 4],
    light: u8,
) -> Option<Mesh> {
    let mface = spec_face_mapping(tmodel.x, tmodel.y, face);
    match element.faces@[mface.spec_index()] {
        Option::None => Option::None,
        Option::Some(ft) => {
            let corners = spec_face_corners(element.cubic, mface);
            let uvs = spec_uv_corners(
                ft.uv,
                ft.rotation.spec_compose(spec_uv_lock_rotation(tmodel, mface)),
            );
            Option::Some(
                Mesh {
                    v0: corners.0,
                    v1: corners.1,
                    v2: corners.2,
                    v3: corners.3,
                    t0: uvs.0,
                    t1: uvs.1,
                    t2: uvs.2,
                    t3: uvs.3,
                    texture: ft.texture,
                    color,
                    light,
                    origin: element.rotation.origin,
                    axis: element.rotation.axis,
                    angle: element.rotation.angle,
                    basis: Mat3i {
                        cx: spec_face_inv_mapping(tmodel.x, tmodel.y, Face::East).spec_unit(),
                        cy: spec_face_inv_mapping(tmodel.x, tmodel.y, Face::Up).spec_unit(),
                        cz: spec_face_inv_mapping(tmodel.x, tmodel.y, Face::South).spec_unit(),
                    },
                },
            )
        },
    }
}

/// Builds the quad of one element face under a placement, exactly as
/// `spec_face_quad` lays it out.
pub fn face_quad(
    element: &Element,
    tmodel: &TransformedModel,
    face: Face,
    color: [u8; 4],
    light: u8,
) -> (r: Option<Mesh>)
    requires
        element.wf(),
    ensures
        r == spec_face_quad(*element, *tmodel, face, color, light),
{
    let mface = tmodel.mapping(face);
    match &element.faces[mface.index()] {
        Some(face_tex) => {
            let mut bl = Vec3i { x: 0, y: 0, z: 0 };
            let mut br = Vec3i { x: 0, y: 0, z: 0 };
            let mut tr = Vec3i { x: 0, y: 0, z: 0 };
            let mut tl = Vec3i { x: 0, y: 0, z: 0 };
            element.cubic.get_face_vert(mface, &mut bl, &mut br, &mut tr, &mut tl);
            let mut t_bl = Vec2i { x: 0, y: 0 };
            let mut t_br = Vec2i { x: 0, y: 0 };
            let mut t_tr = Vec2i { x: 0, y: 0 };
            let mut t_tl = Vec2i { x: 0, y: 0 };
            let uv_rot = tmodel.rotation(mface);
            face_tex.get_face_vert(&uv_rot, &mut t_bl, &mut t_br, &mut t_tr, &mut t_tl);
            Some(
                Mesh {
                    v0: bl,
                    v1: br,
                    v2: tr,
                    v3: tl,
                    t0: t_bl,
                    t1: t_br,
                    t2: t_tr,
                    t3: t_tl,
                    texture: face_tex.texture,
                    color,
                    light,
                    origin: element.rotation.origin,
                    axis: element.rotation.axis,
                    angle: element.rotation.angle,
                    basis: tmodel.mapping_transform(),
                },
            )
        },
        None => None,
    }
}

/// The quads one element emits for the faces of interest, given the
/// world's neighbor answers and the tint colors, one entry per face of
/// interest: for each face, in order, the quad of the model face that
/// points at it — exactly when that model face carries a texture and the
/// cull test passes. A face is culled precisely when its neighbor answer
/// says a neighbor exists and is not air.
pub open spec fn spec_element_quads(
    element: Element,
    tmodel: TransformedModel,
    faces: Seq<Face>,
    neighbor_air: Seq<Option<bool>>,
    colors: Seq<[u8; 4]>,
    light: u8,
    n: int,
) -> Seq<Mesh>
    decreases n,
{
    if n <= 0 {
        Seq::empty()
    } else {
        let prev = spec_element_quads(element, tmodel, faces, neighbor_air, colors, light, n - 1);
        if neighbor_air[n - 1] == Some(false) {
            prev
        } else {
            match spec_face_quad(element, tmodel, faces[n - 1], colors[n - 1], light) {
                Option::Some(mesh) => prev.push(mesh),
                Option::None => prev,
            }
        }
    }
}

/// Selects and builds the quads one element emits for the faces of
/// interest: a face reaches the result exactly when its cull test passes
/// (`cull_decision` of its neighbor answer) and the model face that points
/// at it carries a texture; the quads come in face order with the content
/// `spec_face_quad` fixes.
pub fn element_quads(
    element: &Element,
    tmodel: &TransformedModel,
    faces: &Vec<Face>,
    neighbor_air: &Vec<Option<bool>>,
    colors: &Vec<[u8; 4]>,
    light: u8,
) -> (r: Vec<Mesh>)
    requires
        element.wf(),
        neighbor_air@.len() == faces@.len(),
        colors@.len() == faces@.len(),
    ensures
        r@ == spec_element_quads(
            *element,
            *tmodel,
            faces@,
            neighbor_air@,
            colors@,
            light,
            faces@.len() as int,
        ),
{
    let mut out: Vec<Mesh> = Vec::new();
    let mut k: usize = 0;
    while k < faces.len()
        invariant
            element.wf(),
            k <= faces@.len(),
            neighbor_air@.len() == faces@.len(),
            colors@.len() == faces@.len(),
            out@ == spec_element_quads(
                *element,
                *tmodel,
                faces@,
                neighbor_air@,
                colors@,
                light,
                k as int,
            ),
        decreases faces@.len() - k,
    {
        if !cull_decision(neighbor_air[k]) {
            match face_quad(element, tmodel, faces[k], colors[k], light) {
                Some(mesh) => {
                    out.push(mesh);
                },
                None => {},
            }
        }
        k += 1;
    }
    out
}

/// Emits the visible faces of one oriented model of the block at `loc`:
/// gathers the world's neighbor answer and the block's tint for each face
/// of interest, selects and builds the quads through `element_quads`, and
/// hands each one to the renderer, stopping at its first error. Its
/// observable effects pass through the contract-free renderer and world
/// capabilities, so no postcondition can name them; what is selected and
/// emitted is fixed by `element_quads`' contract.
fn draw_model<W: World, R: BlockRenderer>(
    faces: &Vec<Face>,
    loc: &MCBlockLoc,
    tmodel: &TransformedModel,
    block: &W::Block,
    renderer: &mut R,
    world: &W,
    models: &Vec<Model>,
) -> (r: Result<(), R::E>)
    requires
        forall|i: int| 0 <= i < models@.len() ==> (#[trigger] models@[i]).wf(),
{
    if tmodel.model as usize >= models.len() {
        // a handle outside the arena draws nothing
        return Ok(());
    }
    let model = &models[tmodel.model as usize];
    let mut ei: usize = 0;
    while ei < model.elements.len()
        invariant
            forall|i: int| 0 <= i < models@.len() ==> (#[trigger] models@[i]).wf(),
            (tmodel.model as int) < models@.len(),
            model == &models[tmodel.model as int],
            ei <= model.elements@.len(),
        decreases model.elements@.len() - ei,
    {
        let element = &model.elements[ei];
        proof {
            assert(model.elements@[ei as int].wf());
        }
        // gather the world's answer for each face of interest: whether a
        // neighbor exists in the declared cull direction and is air
        let mut neighbor_air: Vec<Option<bool>> = Vec::new();
        let mut colors: Vec<[u8; 4]> = Vec::new();
        let mut fi: usize = 0;
        while fi < faces.len()
            invariant
                element.wf(),
                fi <= faces@.len(),
                neighbor_air@.len() == fi,
                colors@.len() == fi,
            decreases faces@.len() - fi,
        {
            let face = faces[fi];
            let mface = tmodel.mapping(face);
            let answer: Option<bool>;
            let color: [u8; 4];
            match &element.faces[mface.index()] {
                Some(face_tex) => {
                    answer = match &face_tex.cullface {
                        Some(cf) => {
                            let cullface = tmodel.inv_mapping(*cf);
                            match loc.near(&cullface) {
                                Some(pos) => Some(world.is_air(&pos)),
                                None => None,
                            }
                        },
                        None => None,
                    };
                    color = match face_tex.tintindex {
                        Some(t) => block.get_inline_color(t),
                        None => [255u8, 255u8, 255u8, 255u8],
                    };
                },
                None => {
                    answer = None;
                    color = [255u8, 255u8, 255u8, 255u8];
                },
            }
            neighbor_air.push(answer);
            colors.push(color);
            fi += 1;
        }
        let light = block.get_light();
        // the selection and payload are fixed by element_quads' contract
        let quads = element_quads(element, tmodel, faces, &neighbor_air, &colors, light);
        let mut qi: usize = 0;
        while qi < quads.len()
            invariant
                qi <= quads@.len(),
            decreases quads@.len() - qi,
        {
            match renderer.draw(loc, &quads[qi]) {
                Ok(_) => {},
                Err(e) => {
                    return Err(e);
                },
            }
            qi += 1;
        }
        ei += 1;
    }
    Ok(())
}

/// Draws the block at `loc`: air draws nothing; water and water-logged
/// blocks emit their water models in the liquid draw-order bucket; every
/// block but water emits its solid models in the default bucket. For each
/// face of interest of each element, the canonical face is mapped through
/// the placement's forward table; a face whose declared cull-face, mapped
/// back to a world direction, points at a non-air neighbor is skipped; the
/// rest are handed to the renderer as quads with UVs, tint color and light.
/// The block, its models, the neighbor answers and the renderer are all
/// reached through the contract-free capability traits, so this function
/// states no postcondition; the per-face selection and quad content it
/// computes are fixed by `element_quads`, `cull_decision` and `face_quad`.
pub fn draw<W: World, R: BlockRenderer>(
    faces: &Vec<Face>,
    loc: &MCBlockLoc,
    renderer: &mut R,
    world: &W,
    models: &Vec<Model>,
) -> (r: Result<(), R::E>)
    requires
        forall|i: int| 0 <= i < models@.len() ==> (#[trigger] models@[i]).wf(),
{
    let block = world.get(loc);
    if block.is_air() {
        return Ok(());
    }
    if block.is_water() || block.is_water_logged() {
        let _prior = renderer.state(2);
        let water_models = block.get_water_models();
        let mut mi: usize = 0;
        let n = water_models.len();
        while mi < n
            invariant
                forall|i: int| 0 <= i < models@.len() ==> (#[trigger] models@[i]).wf(),
                n == water_models@.len(),
                mi <= n,
            decreases n - mi,
        {
            let tm = water_models[mi];
            match draw_model(faces, loc, &tm, &block, renderer, world, models) {
                Ok(_) => {},
                Err(e) => {
                    return Err(e);
                },
            }
            mi += 1;
        }
    }
    if !block.is_water() {
        let _prior = renderer.state(0);
        let solid_models = block.get_models();
        let mut mi: usize = 0;
        let n = solid_models.len();
        while mi < n
            invariant
                forall|i: int| 0 <= i < models@.len() ==> (#[trigger] models@[i]).wf(),
                n == solid_models@.len(),
                mi <= n,
            decreases n - mi,
        {
            let tm = solid_models[mi];
            match draw_model(faces, loc, &tm, &block, renderer, world, models) {
                Ok(_) => {},
                Err(e) => {
                    return Err(e);
                },
            }
            mi += 1;
        }
    }
    Ok(())
}

} // verus!
