//! The face culler and emitter: cull-face tests against neighbors, air and
//! water handling, and draw-order bucket switching.

use mc_render::math::Face;
use mc_render::math::Rotate90;
use mc_render::math::Vec3i;
use mc_render::model::CombinedTexture;
use mc_render::model::Cubic;
use mc_render::model::Element;
use mc_render::model::ElementRotation;
use mc_render::model::FaceTexture;
use mc_render::model::Mesh;
use mc_render::model::Model;
use mc_render::model::TransformedModel;
use mc_render::math::Axis;
use mc_render::math::Rect2i;
use mc_render::math::Vec2i;
use mc_render::render::cull_decision;
use mc_render::render::draw;
use mc_render::render::element_quads;
use mc_render::render::face_quad;
use mc_render::render::BlockRenderer;
use mc_render::render::MCBlockLoc;
use mc_render::render::RenderableBlock;
use mc_render::render::World;

/// A single-face cube model with a cull face declared.
fn model_with_cullface(cullface: Option<Face>) -> Model {
    let mut faces: Vec<Option<FaceTexture>> = vec![None, None, None, None, None, None];
    faces[Face::Down.index()] = Some(FaceTexture {
        uv: Rect2i { from: Vec2i { x: 0, y: 0 }, to: Vec2i { x: 16, y: 16 } },
        cullface,
        rotation: Rotate90::R0,
        texture: CombinedTexture(1),
        tintindex: None,
    });
    Model {
        ambientocclusion: true,
        elements: vec![
            Element {
                cubic: Cubic {
                    from: Vec3i { x: 0, y: 0, z: 0 },
                    to: Vec3i { x: 16, y: 16, z: 16 },
                },
                rotation: ElementRotation {
                    origin: Vec3i { x: 8, y: 8, z: 8 },
                    axis: Axis::Y,
                    angle: 0,
                    rescale: false,
                },
                faces,
                shade: true,
            },
        ],
    }
}

/// One block of a two-cell world.
struct TestBlock {
    air: bool,
    water: bool,
    waterlogged: bool,
    models: Vec<TransformedModel>,
    water_models: Vec<TransformedModel>,
}

impl RenderableBlock for TestBlock {
    fn is_air(&self) -> bool {
        self.air
    }

    fn is_water(&self) -> bool {
        self.water
    }

    fn is_water_logged(&self) -> bool {
        self.waterlogged
    }

    fn get_models(&self) -> &Vec<TransformedModel> {
        &self.models
    }

    fn get_water_models(&self) -> &Vec<TransformedModel> {
        &self.water_models
    }

    fn get_inline_color(&self, _tintindex: usize) -> [u8; 4] {
        [10, 20, 30, 255]
    }

    fn get_light(&self) -> u8 {
        15
    }
}

/// A world with one drawable block and a switch for its down-neighbor.
struct TestWorld {
    block_at: MCBlockLoc,
    neighbor_below_solid: bool,
}

impl World for TestWorld {
    type Block = TestBlock;

    fn get(&self, loc: &MCBlockLoc) -> TestBlock {
        if *loc == self.block_at {
            TestBlock {
                air: false,
                water: false,
                waterlogged: false,
                models: vec![TransformedModel::from_mxy(0, Rotate90::R0, Rotate90::R0, false)],
                water_models: Vec::new(),
            }
        } else {
            TestBlock {
                air: true,
                water: false,
                waterlogged: false,
                models: Vec::new(),
                water_models: Vec::new(),
            }
        }
    }

    fn is_air(&self, loc: &MCBlockLoc) -> bool {
        if self.neighbor_below_solid {
            !(loc.x == self.block_at.x && loc.z == self.block_at.z && loc.y + 1
                == self.block_at.y)
        } else {
            !(*loc == self.block_at)
        }
    }
}

/// A renderer that records every quad and bucket switch.
struct RecordingRenderer {
    meshes: Vec<Mesh>,
    states: Vec<i32>,
    prior: i32,
}

impl BlockRenderer for RecordingRenderer {
    type E = ();

    fn state(&mut self, prior: i32) -> i32 {
        let old = self.prior;
        self.prior = prior;
        self.states.push(prior);
        old
    }

    fn draw(&mut self, _loc: &MCBlockLoc, mesh: &Mesh) -> Result<(), ()> {
        self.meshes.push(*mesh);
        Ok(())
    }
}

#[test]
fn cull_face_skips_faces_behind_solid_neighbors() {
    let models = vec![model_with_cullface(Some(Face::Down))];
    let loc = MCBlockLoc::new(0, 5, 0);
    let faces = vec![Face::Down];

    // the block below, at one layer down, is solid: the face is culled
    let world = TestWorld { block_at: loc, neighbor_below_solid: true };
    let mut renderer = RecordingRenderer { meshes: Vec::new(), states: Vec::new(), prior: 0 };
    draw(&faces, &loc, &mut renderer, &world, &models).unwrap();
    assert_eq!(renderer.meshes.len(), 0);

    // the block below is air: the face is emitted
    let world = TestWorld { block_at: loc, neighbor_below_solid: false };
    let mut renderer = RecordingRenderer { meshes: Vec::new(), states: Vec::new(), prior: 0 };
    draw(&faces, &loc, &mut renderer, &world, &models).unwrap();
    assert_eq!(renderer.meshes.len(), 1);
    let mesh = &renderer.meshes[0];
    assert_eq!(mesh.texture, CombinedTexture(1));
    assert_eq!(mesh.light, 15);
    // untinted faces default to opaque white
    assert_eq!(mesh.color, [255, 255, 255, 255]);
    assert_eq!(mesh.v0, Vec3i { x: 0, y: 0, z: 0 });
    assert_eq!(mesh.v1, Vec3i { x: 16, y: 0, z: 0 });
}

#[test]
fn faces_without_cull_face_always_emit() {
    let models = vec![model_with_cullface(None)];
    let loc = MCBlockLoc::new(0, 5, 0);
    let faces = vec![Face::Down];
    let world = TestWorld { block_at: loc, neighbor_below_solid: true };
    let mut renderer = RecordingRenderer { meshes: Vec::new(), states: Vec::new(), prior: 0 };
    draw(&faces, &loc, &mut renderer, &world, &models).unwrap();
    assert_eq!(renderer.meshes.len(), 1);
}

#[test]
fn air_draws_nothing() {
    let models = vec![model_with_cullface(None)];
    let block_at = MCBlockLoc::new(0, 5, 0);
    let elsewhere = MCBlockLoc::new(7, 5, 7);
    let world = TestWorld { block_at, neighbor_below_solid: false };
    let mut renderer = RecordingRenderer { meshes: Vec::new(), states: Vec::new(), prior: 0 };
    draw(&vec![Face::Down], &elsewhere, &mut renderer, &world, &models).unwrap();
    assert_eq!(renderer.meshes.len(), 0);
    assert_eq!(renderer.states.len(), 0);
}

/// A world holding one fixed block.
struct OneBlockWorld {
    air: bool,
    water: bool,
    waterlogged: bool,
}

impl World for OneBlockWorld {
    type Block = TestBlock;

    fn get(&self, _loc: &MCBlockLoc) -> TestBlock {
        TestBlock {
            air: self.air,
            water: self.water,
            waterlogged: self.waterlogged,
            models: vec![TransformedModel::from_mxy(0, Rotate90::R0, Rotate90::R0, false)],
            water_models: vec![TransformedModel::from_mxy(0, Rotate90::R0, Rotate90::R0, false)],
        }
    }

    fn is_air(&self, _loc: &MCBlockLoc) -> bool {
        false
    }
}

#[test]
fn water_switches_to_the_liquid_bucket() {
    let models = vec![model_with_cullface(None)];
    let loc = MCBlockLoc::new(0, 5, 0);
    // a water source draws only its water models, in the liquid bucket
    let world = OneBlockWorld { air: false, water: true, waterlogged: false };
    let mut renderer = RecordingRenderer { meshes: Vec::new(), states: Vec::new(), prior: 0 };
    draw(&vec![Face::Down], &loc, &mut renderer, &world, &models).unwrap();
    assert_eq!(renderer.states, vec![2]);
    assert_eq!(renderer.meshes.len(), 1);
    // a water-logged block draws water models, then its solid ones
    let world = OneBlockWorld { air: false, water: false, waterlogged: true };
    let mut renderer = RecordingRenderer { meshes: Vec::new(), states: Vec::new(), prior: 0 };
    draw(&vec![Face::Down], &loc, &mut renderer, &world, &models).unwrap();
    assert_eq!(renderer.states, vec![2, 0]);
    assert_eq!(renderer.meshes.len(), 2);
    // an ordinary block draws in the default bucket
    let world = OneBlockWorld { air: false, water: false, waterlogged: false };
    let mut renderer = RecordingRenderer { meshes: Vec::new(), states: Vec::new(), prior: 0 };
    draw(&vec![Face::Down], &loc, &mut renderer, &world, &models).unwrap();
    assert_eq!(renderer.states, vec![0]);
    assert_eq!(renderer.meshes.len(), 1);
}

#[test]
fn near_steps_toward_a_face_and_stops_at_edges() {
    let loc = MCBlockLoc::new(0, 5, 0);
    assert_eq!(loc.near(&Face::Down), Some(MCBlockLoc::new(0, 4, 0)));
    assert_eq!(loc.near(&Face::Up), Some(MCBlockLoc::new(0, 6, 0)));
    assert_eq!(loc.near(&Face::West), Some(MCBlockLoc::new(-1, 5, 0)));
    assert_eq!(loc.near(&Face::East), Some(MCBlockLoc::new(1, 5, 0)));
    assert_eq!(loc.near(&Face::North), Some(MCBlockLoc::new(0, 5, -1)));
    assert_eq!(loc.near(&Face::South), Some(MCBlockLoc::new(0, 5, 1)));
    // the world edges have no neighbor
    assert_eq!(MCBlockLoc::new(0, 0, 0).near(&Face::Down), None);
    assert_eq!(MCBlockLoc::new(0, 255, 0).near(&Face::Up), None);
    assert_eq!(MCBlockLoc::new(i32::MIN, 5, 0).near(&Face::West), None);
    assert_eq!(MCBlockLoc::new(i32::MAX, 5, 0).near(&Face::East), None);
    assert_eq!(MCBlockLoc::new(0, 5, i32::MIN).near(&Face::North), None);
    assert_eq!(MCBlockLoc::new(0, 5, i32::MAX).near(&Face::South), None);
}

#[test]
fn rotated_placement_reads_the_remapped_face() {
    // the model's only texture sits on its down face; after a quarter turn
    // about X the model face pointing at world-north is the down face
    let models = vec![model_with_cullface(None)];
    let loc = MCBlockLoc::new(0, 5, 0);
    struct RotWorld;

    impl World for RotWorld {
        type Block = TestBlock;

        fn get(&self, _loc: &MCBlockLoc) -> TestBlock {
            TestBlock {
                air: false,
                water: false,
                waterlogged: false,
                models: vec![TransformedModel::from_mxy(0, Rotate90::R90, Rotate90::R0, false)],
                water_models: Vec::new(),
            }
        }

        fn is_air(&self, _loc: &MCBlockLoc) -> bool {
            true
        }
    }

    let mut renderer = RecordingRenderer { meshes: Vec::new(), states: Vec::new(), prior: 0 };
    // the up face maps to north, where the model has no texture
    draw(&vec![Face::Up], &loc, &mut renderer, &RotWorld, &models).unwrap();
    assert_eq!(renderer.meshes.len(), 0);
    // the north face maps to down, where the texture sits
    let mut renderer = RecordingRenderer { meshes: Vec::new(), states: Vec::new(), prior: 0 };
    draw(&vec![Face::North], &loc, &mut renderer, &RotWorld, &models).unwrap();
    assert_eq!(renderer.meshes.len(), 1);
}

#[test]
fn cull_decision_follows_the_neighbor_answer() {
    // culled exactly when a neighbor exists and is not air
    assert!(cull_decision(Some(false)));
    assert!(!cull_decision(Some(true)));
    assert!(!cull_decision(None));
}

#[test]
fn face_quads_carry_the_face_data() {
    let model = model_with_cullface(None);
    let element = &model.elements[0];
    let tm = TransformedModel::from_mxy(0, Rotate90::R0, Rotate90::R0, false);
    // the textured down face yields a quad with its corners and payload
    let mesh = face_quad(element, &tm, Face::Down, [1, 2, 3, 4], 9).unwrap();
    assert_eq!(mesh.texture, CombinedTexture(1));
    assert_eq!(mesh.color, [1, 2, 3, 4]);
    assert_eq!(mesh.light, 9);
    assert_eq!(mesh.v0, Vec3i { x: 0, y: 0, z: 0 });
    assert_eq!(mesh.v1, Vec3i { x: 16, y: 0, z: 0 });
    // an untextured face yields nothing
    assert!(face_quad(element, &tm, Face::Up, [0, 0, 0, 0], 0).is_none());
}

#[test]
fn element_quads_select_by_cull_answer() {
    let model = model_with_cullface(Some(Face::Down));
    let element = &model.elements[0];
    let tm = TransformedModel::from_mxy(0, Rotate90::R0, Rotate90::R0, false);
    let faces = vec![Face::Down, Face::Up];
    let white = [255u8, 255u8, 255u8, 255u8];
    let colors = vec![white, white];
    // the down face survives an air neighbor; the up face has no texture
    let quads = element_quads(element, &tm, &faces, &vec![Some(true), None], &colors, 3);
    assert_eq!(quads.len(), 1);
    assert_eq!(quads[0].texture, CombinedTexture(1));
    assert_eq!(quads[0].light, 3);
    // a solid neighbor culls the down face; nothing is left
    let quads = element_quads(element, &tm, &faces, &vec![Some(false), None], &colors, 3);
    assert_eq!(quads.len(), 0);
    // past the world edge nothing culls
    let quads = element_quads(element, &tm, &faces, &vec![None, None], &colors, 3);
    assert_eq!(quads.len(), 1);
}
