//! Face remapping, UV-lock rotation, corner generation and the integer
//! coordinate transforms.

use mc_render::math::Axis;
use mc_render::math::Face;
use mc_render::math::Rect2i;
use mc_render::math::Rotate90;
use mc_render::math::Vec2i;
use mc_render::math::Vec3i;
use mc_render::math::face_inv_mapping;
use mc_render::math::face_mapping;
use mc_render::math::transform_x;
use mc_render::math::transform_y;
use mc_render::data_raw::transform;
use mc_render::model::Cubic;
use mc_render::model::FaceTexture;
use mc_render::model::CombinedTexture;
use mc_render::model::TransformedModel;

const FACES: [Face; 6] = [Face::West, Face::Down, Face::North, Face::South, Face::Up, Face::East];
const ROTS: [Rotate90; 4] = [Rotate90::R0, Rotate90::R90, Rotate90::R180, Rotate90::R270];

#[test]
fn mapping_and_inv_mapping_are_mutual_inverses() {
    for x in ROTS {
        for y in ROTS {
            for f in FACES {
                let fwd = face_mapping(&x, &y, f);
                assert_eq!(face_inv_mapping(&x, &y, fwd), f);
                let back = face_inv_mapping(&x, &y, f);
                assert_eq!(face_mapping(&x, &y, back), f);
            }
        }
    }
}

#[test]
fn mapping_matches_the_quarter_turn_table() {
    // placement x=R90, y=R0: the up face ends up pointing north
    let tm = TransformedModel::from_mxy(0, Rotate90::R90, Rotate90::R0, false);
    assert_eq!(tm.mapping(Face::Up), Face::North);
    assert_eq!(tm.mapping(Face::Down), Face::South);
    assert_eq!(tm.mapping(Face::South), Face::Up);
    assert_eq!(tm.mapping(Face::North), Face::Down);
    assert_eq!(tm.mapping(Face::West), Face::West);
    assert_eq!(tm.mapping(Face::East), Face::East);
}

#[test]
fn y_mapping_turns_clockwise() {
    let tm = TransformedModel::from_mxy(0, Rotate90::R0, Rotate90::R90, false);
    assert_eq!(tm.mapping(Face::West), Face::South);
    assert_eq!(tm.mapping(Face::South), Face::East);
    assert_eq!(tm.mapping(Face::East), Face::North);
    assert_eq!(tm.mapping(Face::North), Face::West);
    assert_eq!(tm.mapping(Face::Up), Face::Up);
    assert_eq!(tm.mapping(Face::Down), Face::Down);
}

#[test]
fn uv_lock_rotation_per_face() {
    let tm = TransformedModel::from_mxy(0, Rotate90::R90, Rotate90::R270, true);
    assert_eq!(tm.rotation(Face::Up), Rotate90::R90);
    assert_eq!(tm.rotation(Face::Down), Rotate90::R270);
    assert_eq!(tm.rotation(Face::East), Rotate90::R270);
    assert_eq!(tm.rotation(Face::West), Rotate90::R90);
    assert_eq!(tm.rotation(Face::North), Rotate90::R0);
    assert_eq!(tm.rotation(Face::South), Rotate90::R0);
    // without uv-lock there is no extra rotation
    let plain = TransformedModel::from_mxy(0, Rotate90::R90, Rotate90::R270, false);
    for f in FACES {
        assert_eq!(plain.rotation(f), Rotate90::R0);
    }
}

#[test]
fn mapping_transform_columns_are_unit_vectors() {
    let id = TransformedModel::from_mxy(0, Rotate90::R0, Rotate90::R0, false);
    let m = id.mapping_transform();
    assert_eq!(m.cx, Vec3i { x: 1, y: 0, z: 0 });
    assert_eq!(m.cy, Vec3i { x: 0, y: 1, z: 0 });
    assert_eq!(m.cz, Vec3i { x: 0, y: 0, z: 1 });
    let turned = TransformedModel::from_mxy(0, Rotate90::R0, Rotate90::R90, false);
    let t = turned.mapping_transform();
    // east looked up backward through a clockwise quarter turn comes from south
    assert_eq!(t.cx, Vec3i { x: 0, y: 0, z: 1 });
    assert_eq!(t.cy, Vec3i { x: 0, y: 1, z: 0 });
    assert_eq!(t.cz, Vec3i { x: -1, y: 0, z: 0 });
}

#[test]
fn rotate_and_inverse_cancel() {
    for r in ROTS {
        let n = (r.index() + r.inverse().index()) % 4;
        assert_eq!(n, 0);
    }
    assert_eq!(Rotate90::R90.compose(&Rotate90::R180), Rotate90::R270);
    assert_eq!(Rotate90::R270.compose(&Rotate90::R180), Rotate90::R90);
    assert_eq!(Rotate90::default(), Rotate90::R0);
}

#[test]
fn face_index_and_opposite() {
    let order = [Face::West, Face::Down, Face::North, Face::South, Face::Up, Face::East];
    for (i, f) in order.iter().enumerate() {
        assert_eq!(f.index(), i);
        assert_eq!(f.opposite().opposite(), *f);
    }
    assert_eq!(Face::Up.opposite(), Face::Down);
    assert_eq!(Face::North.opposite(), Face::South);
    assert_eq!(Face::East.opposite(), Face::West);
}

#[test]
fn transform_rotates_cuboid_points() {
    let p = Vec3i { x: 1, y: 2, z: 3 };
    assert_eq!(transform(Axis::X, Rotate90::R0, &p), p);
    assert_eq!(transform(Axis::X, Rotate90::R90, &p), Vec3i { x: 1, y: 13, z: 2 });
    assert_eq!(transform(Axis::Y, Rotate90::R90, &p), Vec3i { x: 3, y: 2, z: 15 });
    assert_eq!(transform(Axis::Z, Rotate90::R90, &p), Vec3i { x: 14, y: 1, z: 3 });
    assert_eq!(transform(Axis::X, Rotate90::R180, &p), Vec3i { x: 1, y: 14, z: 13 });
    assert_eq!(transform(Axis::Y, Rotate90::R270, &p), Vec3i { x: 13, y: 2, z: 1 });
    // a full turn in two halves returns the point
    let h = transform(Axis::Z, Rotate90::R180, &p);
    assert_eq!(transform(Axis::Z, Rotate90::R180, &h), p);
}

#[test]
fn transform_x_permutes_the_face_array() {
    let ident = vec![Face::West, Face::Down, Face::North, Face::South, Face::Up, Face::East];
    let mut cube = ident.clone();
    transform_x(&Rotate90::R90, &mut cube);
    assert_eq!(cube, vec![Face::North, Face::Down, Face::East, Face::West, Face::Up, Face::South]);
    let mut cube = ident.clone();
    transform_x(&Rotate90::R180, &mut cube);
    assert_eq!(cube, vec![Face::East, Face::Down, Face::South, Face::North, Face::Up, Face::West]);
    let mut cube = ident.clone();
    transform_x(&Rotate90::R0, &mut cube);
    assert_eq!(cube, ident);
}

#[test]
fn transform_y_permutes_the_face_array() {
    let ident = vec![Face::West, Face::Down, Face::North, Face::South, Face::Up, Face::East];
    let mut cube = ident.clone();
    transform_y(&Rotate90::R90, &mut cube);
    assert_eq!(cube, vec![Face::West, Face::South, Face::Down, Face::Up, Face::North, Face::East]);
    let mut cube = ident.clone();
    transform_y(&Rotate90::R270, &mut cube);
    assert_eq!(cube, vec![Face::West, Face::North, Face::Up, Face::Down, Face::South, Face::East]);
}

#[test]
fn rectify_orders_the_corners() {
    let c = Cubic { from: Vec3i { x: 9, y: 1, z: 16 }, to: Vec3i { x: 2, y: 5, z: 0 } };
    let r = c.rectify();
    assert_eq!(r.from, Vec3i { x: 2, y: 1, z: 0 });
    assert_eq!(r.to, Vec3i { x: 9, y: 5, z: 16 });
}

#[test]
fn cube_corners_follow_the_winding_order() {
    let c = Cubic { from: Vec3i { x: 0, y: 0, z: 0 }, to: Vec3i { x: 16, y: 16, z: 16 } };
    let zero = Vec3i { x: 0, y: 0, z: 0 };
    let (mut bl, mut br, mut tr, mut tl) = (zero, zero, zero, zero);
    c.get_face_vert(Face::Up, &mut bl, &mut br, &mut tr, &mut tl);
    assert_eq!(bl, Vec3i { x: 0, y: 16, z: 16 });
    assert_eq!(br, Vec3i { x: 16, y: 16, z: 16 });
    assert_eq!(tr, Vec3i { x: 16, y: 16, z: 0 });
    assert_eq!(tl, Vec3i { x: 0, y: 16, z: 0 });
    c.get_face_vert(Face::North, &mut bl, &mut br, &mut tr, &mut tl);
    assert_eq!(bl, Vec3i { x: 16, y: 0, z: 0 });
    assert_eq!(br, Vec3i { x: 0, y: 0, z: 0 });
    assert_eq!(tr, Vec3i { x: 0, y: 16, z: 0 });
    assert_eq!(tl, Vec3i { x: 16, y: 16, z: 0 });
}

#[test]
fn uv_corners_rotate_with_the_total_rotation() {
    let ft = FaceTexture {
        uv: Rect2i { from: Vec2i { x: 0, y: 0 }, to: Vec2i { x: 16, y: 16 } },
        cullface: None,
        rotation: Rotate90::R90,
        texture: CombinedTexture(1),
        tintindex: None,
    };
    let zero = Vec2i { x: 0, y: 0 };
    let (mut bl, mut br, mut tr, mut tl) = (zero, zero, zero, zero);
    // declared quarter turn composed with another quarter turn: a half turn
    ft.get_face_vert(&Rotate90::R90, &mut bl, &mut br, &mut tr, &mut tl);
    assert_eq!(bl, Vec2i { x: 16, y: 16 });
    assert_eq!(br, Vec2i { x: 0, y: 16 });
    assert_eq!(tr, Vec2i { x: 0, y: 0 });
    assert_eq!(tl, Vec2i { x: 16, y: 0 });
    // with no extra rotation the declared quarter turn stands alone
    ft.get_face_vert(&Rotate90::R0, &mut bl, &mut br, &mut tr, &mut tl);
    assert_eq!(bl, Vec2i { x: 16, y: 0 });
    assert_eq!(br, Vec2i { x: 16, y: 16 });
    assert_eq!(tr, Vec2i { x: 0, y: 16 });
    assert_eq!(tl, Vec2i { x: 0, y: 0 });
}
