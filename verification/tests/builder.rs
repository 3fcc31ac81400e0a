//! Model resolution: inheritance merging, texture indirection, placement
//! deduplication, and whole-block builds through the provider capabilities.

use mc_render::blockstate::WhenRecord;
use mc_render::builder::BlockModelBuilder;
use mc_render::builder::ModelProvider;
use mc_render::data_raw::ApplyRaw;
use mc_render::data_raw::AppliedModelRaw;
use mc_render::data_raw::BlockStateRaw;
use mc_render::data_raw::ElementRaw;
use mc_render::data_raw::FaceTextureRaw;
use mc_render::data_raw::Merge;
use mc_render::data_raw::ModelRaw;
use mc_render::data_raw::MuitiPartRaw;
use mc_render::data_raw::VariantsRaw;
use mc_render::errors::BuildError;
use mc_render::math::Face;
use mc_render::math::Rect2i;
use mc_render::math::Rotate90;
use mc_render::math::Vec2i;
use mc_render::math::Vec3i;
use mc_render::model::CombinedTexture;
use mc_render::model::TextureGen;
use mc_render::util::Provider;

fn s(t: &str) -> String {
    t.to_string()
}

/// A provider backed by a list of named records.
struct MapProvider<T: Clone> {
    records: Vec<(String, T)>,
}

impl<T: Clone> Provider for MapProvider<T> {
    type Item = T;

    fn provide(&mut self, name: &str) -> Option<T> {
        for (k, v) in &self.records {
            if k == name {
                return Some(v.clone());
            }
        }
        None
    }
}

/// A texture generator that hands out handles in first-seen order and
/// remembers what it was asked for.
struct CountingTexGen {
    seen: Vec<String>,
}

impl TextureGen for CountingTexGen {
    fn get(&mut self, name: &str) -> CombinedTexture {
        for (i, k) in self.seen.iter().enumerate() {
            if k == name {
                return CombinedTexture(i as i32 + 1);
            }
        }
        self.seen.push(name.to_string());
        CombinedTexture(self.seen.len() as i32)
    }
}

fn face(texture: &str, cullface: Option<Face>) -> FaceTextureRaw {
    FaceTextureRaw { uv: None, texture: s(texture), cullface, rotation: None, tintindex: None }
}

fn cube_raw(texture: &str) -> ModelRaw {
    ModelRaw {
        parent: None,
        ambientocclusion: true,
        elements: vec![
            ElementRaw {
                from: Vec3i { x: 0, y: 0, z: 0 },
                to: Vec3i { x: 16, y: 16, z: 16 },
                rotation: None,
                shade: true,
                faces: vec![
                    (Face::Up, face(texture, None)),
                    (Face::Down, face(texture, Some(Face::Down))),
                ],
            },
        ],
        textures: None,
    }
}

#[test]
fn resolving_without_parent_round_trips_element_data() {
    let raw = ModelRaw {
        parent: None,
        ambientocclusion: false,
        elements: vec![
            ElementRaw {
                from: Vec3i { x: 1, y: 2, z: 3 },
                to: Vec3i { x: 4, y: 5, z: 6 },
                rotation: None,
                shade: false,
                faces: vec![
                    (
                        Face::North,
                        FaceTextureRaw {
                            uv: Some(Rect2i {
                                from: Vec2i { x: 2, y: 2 },
                                to: Vec2i { x: 14, y: 14 },
                            }),
                            texture: s("stone"),
                            cullface: Some(Face::North),
                            rotation: Some(Rotate90::R180),
                            tintindex: Some(3),
                        },
                    ),
                    (Face::Up, face("dirt", None)),
                ],
            },
        ],
        textures: None,
    };
    let mut builder = BlockModelBuilder::new();
    let mut mdl_pvd = MapProvider { records: vec![(s("m"), raw)] };
    let mut tex = CountingTexGen { seen: Vec::new() };
    let h = builder.resolve_model(&s("m"), &mut mdl_pvd, &mut tex).unwrap();
    let model = &builder.models[h as usize];
    assert!(!model.ambientocclusion);
    assert_eq!(model.elements.len(), 1);
    let el = &model.elements[0];
    // geometry comes through unchanged
    assert_eq!(el.cubic.from, Vec3i { x: 1, y: 2, z: 3 });
    assert_eq!(el.cubic.to, Vec3i { x: 4, y: 5, z: 6 });
    assert!(!el.shade);
    // an absent rotation defaults to none about the center
    assert_eq!(el.rotation.origin, Vec3i { x: 8, y: 8, z: 8 });
    assert_eq!(el.rotation.angle, 0);
    // the declared face keeps its values exactly
    let north = el.faces[Face::North.index()].as_ref().unwrap();
    assert_eq!(north.uv, Rect2i { from: Vec2i { x: 2, y: 2 }, to: Vec2i { x: 14, y: 14 } });
    assert_eq!(north.cullface, Some(Face::North));
    assert_eq!(north.rotation, Rotate90::R180);
    assert_eq!(north.tintindex, Some(3));
    // the missing UV defaults to the full square, other fields to nothing
    let up = el.faces[Face::Up.index()].as_ref().unwrap();
    assert_eq!(up.uv, Rect2i { from: Vec2i { x: 0, y: 0 }, to: Vec2i { x: 16, y: 16 } });
    assert_eq!(up.cullface, None);
    assert_eq!(up.rotation, Rotate90::R0);
    assert_eq!(up.tintindex, None);
    // undeclared faces stay empty
    assert!(el.faces[Face::West.index()].is_none());
}

#[test]
fn parent_chain_merges_under_the_child() {
    let child = ModelRaw {
        parent: Some(s("base")),
        ambientocclusion: true,
        elements: Vec::new(),
        textures: Some(vec![(s("top"), s("stone"))]),
    };
    let base = ModelRaw {
        parent: None,
        ambientocclusion: true,
        elements: vec![
            ElementRaw {
                from: Vec3i { x: 0, y: 0, z: 0 },
                to: Vec3i { x: 16, y: 16, z: 16 },
                rotation: None,
                shade: true,
                faces: vec![(Face::Up, face("#top", None))],
            },
        ],
        textures: Some(vec![(s("top"), s("fallback")), (s("side"), s("wood"))]),
    };
    let mut builder = BlockModelBuilder::new();
    let mut mdl_pvd = MapProvider { records: vec![(s("child"), child), (s("base"), base)] };
    let mut tex = CountingTexGen { seen: Vec::new() };
    let h = builder.resolve_model(&s("child"), &mut mdl_pvd, &mut tex).unwrap();
    let model = &builder.models[h as usize];
    // the parent's elements fill the child's empty list
    assert_eq!(model.elements.len(), 1);
    // the indirection #top resolves through the merged table, child first
    assert_eq!(tex.seen, vec![s("stone")]);
    // a second resolve is answered from the memo, not the provider
    let again = builder.resolve_model(&s("child"), &mut mdl_pvd, &mut tex).unwrap();
    assert_eq!(h, again);
    assert_eq!(builder.models.len(), 1);
}

#[test]
fn texture_chain_follows_and_dead_ends() {
    let raw = ModelRaw {
        parent: None,
        ambientocclusion: true,
        elements: vec![
            ElementRaw {
                from: Vec3i { x: 0, y: 0, z: 0 },
                to: Vec3i { x: 16, y: 16, z: 16 },
                rotation: None,
                shade: true,
                faces: vec![(Face::Up, face("#a", None))],
            },
        ],
        textures: Some(vec![(s("a"), s("#b")), (s("b"), s("grass"))]),
    };
    let mut builder = BlockModelBuilder::new();
    let mut mdl_pvd = MapProvider { records: vec![(s("m"), raw)] };
    let mut tex = CountingTexGen { seen: Vec::new() };
    builder.resolve_model(&s("m"), &mut mdl_pvd, &mut tex).unwrap();
    assert_eq!(tex.seen, vec![s("grass")]);

    // a cyclic chain never reaches a literal name
    let cyclic = ModelRaw {
        parent: None,
        ambientocclusion: true,
        elements: vec![
            ElementRaw {
                from: Vec3i { x: 0, y: 0, z: 0 },
                to: Vec3i { x: 16, y: 16, z: 16 },
                rotation: None,
                shade: true,
                faces: vec![(Face::Up, face("#a", None))],
            },
        ],
        textures: Some(vec![(s("a"), s("#b")), (s("b"), s("#a"))]),
    };
    let mut builder = BlockModelBuilder::new();
    let mut mdl_pvd = MapProvider { records: vec![(s("c"), cyclic)] };
    let mut tex = CountingTexGen { seen: Vec::new() };
    match builder.resolve_model(&s("c"), &mut mdl_pvd, &mut tex) {
        Err(BuildError::UnresolvedTexture(_)) => {},
        other => panic!("unexpected: {:?}", other),
    }
}

#[test]
fn missing_records_are_not_found() {
    let mut builder = BlockModelBuilder::new();
    let mut bs_pvd: MapProvider<BlockStateRaw> = MapProvider { records: Vec::new() };
    let mut mdl_pvd: MapProvider<ModelRaw> = MapProvider { records: Vec::new() };
    let mut tex = CountingTexGen { seen: Vec::new() };
    match builder.build("nothing", &mut bs_pvd, &mut mdl_pvd, &mut tex) {
        Err(BuildError::NotFound(name)) => assert_eq!(name, "nothing"),
        Err(other) => panic!("unexpected: {:?}", other),
        Ok(_) => panic!("unexpected success"),
    }
    match builder.resolve_model(&s("ghost"), &mut mdl_pvd, &mut tex) {
        Err(BuildError::NotFound(name)) => assert_eq!(name, "ghost"),
        other => panic!("unexpected: {:?}", other),
    }
}

#[test]
fn self_referential_parent_chains_give_up() {
    let mut looped = cube_raw("stone");
    looped.parent = Some(s("m"));
    let mut builder = BlockModelBuilder::new();
    let mut mdl_pvd = MapProvider { records: vec![(s("m"), looped)] };
    let mut tex = CountingTexGen { seen: Vec::new() };
    match builder.resolve_model(&s("m"), &mut mdl_pvd, &mut tex) {
        Err(BuildError::NotFound(_)) => {},
        other => panic!("unexpected: {:?}", other),
    }
}

#[test]
fn placements_deduplicate_by_model_and_orientation() {
    let apply = AppliedModelRaw {
        x: Rotate90::R90,
        y: Rotate90::R0,
        model: s("m"),
        uvlock: false,
    };
    let mut builder = BlockModelBuilder::new();
    let mut mdl_pvd = MapProvider { records: vec![(s("m"), cube_raw("stone"))] };
    let mut tex = CountingTexGen { seen: Vec::new() };
    let h1 = builder.transf_apply(&apply, &mut mdl_pvd, &mut tex).unwrap();
    let h2 = builder.transf_apply(&apply, &mut mdl_pvd, &mut tex).unwrap();
    assert_eq!(h1, h2);
    assert_eq!(builder.oriented.len(), 1);
    let other = AppliedModelRaw {
        x: Rotate90::R90,
        y: Rotate90::R0,
        model: s("m"),
        uvlock: true,
    };
    let h3 = builder.transf_apply(&other, &mut mdl_pvd, &mut tex).unwrap();
    assert_ne!(h1, h3);
    assert_eq!(builder.oriented.len(), 2);
    assert_eq!(builder.models.len(), 1);
}

#[test]
fn provider_builds_and_queries_blocks() {
    let bs = BlockStateRaw::Variants(
        VariantsRaw(
            vec![
                (
                    s("facing=north"),
                    ApplyRaw::Item(
                        AppliedModelRaw {
                            x: Rotate90::R0,
                            y: Rotate90::R0,
                            model: s("m"),
                            uvlock: false,
                        },
                    ),
                ),
                (
                    s("facing=south"),
                    ApplyRaw::Item(
                        AppliedModelRaw {
                            x: Rotate90::R0,
                            y: Rotate90::R180,
                            model: s("m"),
                            uvlock: false,
                        },
                    ),
                ),
            ],
        ),
    );
    let mut provider = ModelProvider::new();
    let mut bs_pvd = MapProvider { records: vec![(s("chest"), bs)] };
    let mut mdl_pvd = MapProvider { records: vec![(s("m"), cube_raw("oak"))] };
    let mut tex = CountingTexGen { seen: Vec::new() };
    provider.build(
        "minecraft",
        &vec![s("chest"), s("missing_block")],
        &mut bs_pvd,
        &mut mdl_pvd,
        &mut tex,
    );
    // the failing block was skipped, the other built
    let north = provider.get("minecraft:chest", &vec![s("facing=north")]);
    assert_eq!(north.len(), 1);
    let south = provider.get("minecraft:chest", &vec![s("facing=south")]);
    assert_eq!(south.len(), 1);
    assert_ne!(north[0], south[0]);
    let tm = provider.oriented(south[0]).unwrap();
    assert_eq!(tm.y, Rotate90::R180);
    assert!(provider.get("minecraft:missing_block", &Vec::new()).is_empty());
    assert_eq!(provider.models().len(), 1);
}

#[test]
fn multipart_build_goes_through_the_provider() {
    let bs = BlockStateRaw::MuitiPart(
        MuitiPartRaw(
            vec![
                (None, ApplyRaw::Item(AppliedModelRaw {
                    x: Rotate90::R0,
                    y: Rotate90::R0,
                    model: s("post"),
                    uvlock: false,
                })),
                (
                    Some(WhenRecord::And(vec![(s("north"), s("true"))])),
                    ApplyRaw::Item(AppliedModelRaw {
                        x: Rotate90::R0,
                        y: Rotate90::R0,
                        model: s("side"),
                        uvlock: false,
                    }),
                ),
            ],
        ),
    );
    let mut provider = ModelProvider::new();
    let mut bs_pvd = MapProvider { records: vec![(s("fence"), bs)] };
    let mut mdl_pvd = MapProvider {
        records: vec![(s("post"), cube_raw("oak")), (s("side"), cube_raw("oak"))],
    };
    let mut tex = CountingTexGen { seen: Vec::new() };
    provider.build("minecraft", &vec![s("fence")], &mut bs_pvd, &mut mdl_pvd, &mut tex);
    // the unconditional post always fires; the side joins it in order
    assert_eq!(provider.get("minecraft:fence", &Vec::new()).len(), 1);
    assert_eq!(provider.get("minecraft:fence", &vec![s("north=true")]).len(), 2);
}

#[test]
fn raw_merge_keeps_child_fields() {
    let mut child = cube_raw("stone");
    child.parent = Some(s("base"));
    child.textures = Some(vec![(s("top"), s("child_top"))]);
    let parent = ModelRaw {
        parent: None,
        ambientocclusion: false,
        elements: Vec::new(),
        textures: Some(vec![(s("top"), s("parent_top")), (s("side"), s("parent_side"))]),
    };
    assert!(child.merge(&parent));
    // the child's parent link is replaced by the grandparent's: none left
    assert_eq!(child.parent, None);
    // the child keeps its own elements and texture entries; gaps fill in
    assert_eq!(child.elements.len(), 1);
    let table = child.textures.unwrap();
    assert_eq!(table[0], (s("top"), s("child_top")));
    assert_eq!(table[1], (s("side"), s("parent_side")));
    assert_eq!(table.len(), 2);
}

#[test]
fn get_fast_takes_the_first_alternative() {
    let one = AppliedModelRaw { x: Rotate90::R0, y: Rotate90::R0, model: s("a"), uvlock: false };
    let two = AppliedModelRaw { x: Rotate90::R90, y: Rotate90::R0, model: s("b"), uvlock: true };
    let item = ApplyRaw::Item(one.clone());
    assert_eq!(item.get_fast().model, "a");
    let arr = ApplyRaw::Array(vec![two.clone(), one.clone()]);
    assert_eq!(arr.get_fast().model, "b");
}
