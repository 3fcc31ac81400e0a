//! Text helpers, the format-string scanner, identifier text, and the tile
//! data views.

use mc_render::loader::BlockProps;
use mc_render::loader::InnerColor;
use mc_render::loader::KeyLine;
use mc_render::loader::SplitIter;
use mc_render::loader::Tile;
use mc_render::loader::parse_file_name;
use mc_render::util::Scanner;
use mc_render::util::contains_char;
use mc_render::util::find_char_from;
use mc_render::util::parse_i32;
use mc_render::util::parse_usize;
use mc_render::util::split_char;
use mc_render::util::str_eq;
use mc_render::uuid::UuidStorage;
use mc_render::data_raw::default_bool_true;
use mc_render::errors::BuildError;

fn s(t: &str) -> String {
    t.to_string()
}

#[test]
fn split_keeps_empty_pieces() {
    assert_eq!(split_char("a,b,c", ','), vec![s("a"), s("b"), s("c")]);
    assert_eq!(split_char("", ','), vec![s("")]);
    assert_eq!(split_char(",", ','), vec![s(""), s("")]);
    assert_eq!(split_char("a,,c", ','), vec![s("a"), s(""), s("c")]);
    assert_eq!(split_char("abc", ','), vec![s("abc")]);
    assert_eq!(split_char("true|false", '|'), vec![s("true"), s("false")]);
}

#[test]
fn char_search_finds_the_first_occurrence() {
    assert_eq!(find_char_from("hello", 0, 'l'), Some(2));
    assert_eq!(find_char_from("hello", 3, 'l'), Some(3));
    assert_eq!(find_char_from("hello", 4, 'l'), None);
    assert!(contains_char("a=b", '='));
    assert!(!contains_char("ab", '='));
    assert!(str_eq("same", "same"));
    assert!(!str_eq("same", "same "));
}

#[test]
fn numbers_parse_with_bounds() {
    assert_eq!(parse_usize("0"), Some(0));
    assert_eq!(parse_usize("4096"), Some(4096));
    assert_eq!(parse_usize(""), None);
    assert_eq!(parse_usize("12a"), None);
    assert_eq!(parse_usize("99999999999999999999999"), None);
    assert_eq!(parse_i32("-128"), Some(-128));
    assert_eq!(parse_i32("2147483647"), Some(i32::MAX));
    assert_eq!(parse_i32("-2147483648"), Some(i32::MIN));
    assert_eq!(parse_i32("2147483648"), None);
    assert_eq!(parse_i32("-"), None);
    assert_eq!(parse_i32("1-2"), None);
}

#[test]
fn scanner_matches_format_patterns() {
    let sc = Scanner::new("assets/minecraft/blockstates/{}.json");
    assert_eq!(sc.argc(), 1);
    let mut caps: Vec<String> = Vec::new();
    let n = sc.scan("assets/minecraft/blockstates/oak_fence.json", &mut caps);
    assert_eq!(n, 1);
    assert_eq!(caps, vec![s("oak_fence")]);
    // a path under another directory does not match
    let n = sc.scan("assets/minecraft/models/block.json", &mut caps);
    assert_eq!(n, 0);
}

#[test]
fn scanner_captures_several_placeholders() {
    let sc = Scanner::new("{},{}");
    assert_eq!(sc.argc(), 2);
    let mut caps: Vec<String> = Vec::new();
    let n = sc.scan("12,-7", &mut caps);
    assert_eq!(n, 2);
    assert_eq!(caps, vec![s("12"), s("-7")]);
}

#[test]
fn scanner_with_a_bare_placeholder_captures_everything() {
    let sc = Scanner::new("{}");
    assert_eq!(sc.argc(), 1);
    let mut caps: Vec<String> = Vec::new();
    assert_eq!(sc.scan("anything at all", &mut caps), 1);
    assert_eq!(caps, vec![s("anything at all")]);
}

#[test]
fn machine_word_boundary_parses() {
    assert_eq!(parse_usize("18446744073709551615"), Some(usize::MAX));
    assert_eq!(parse_usize("18446744073709551616"), None);
}

#[test]
fn uuid_parses_plain_hex() {
    let u = UuidStorage::parse("00112233445566778899aabbccddeeff").unwrap();
    assert_eq!(
        u.0,
        [0x00, 0x11, 0x22, 0x33, 0x44, 0x55, 0x66, 0x77, 0x88, 0x99, 0xaa, 0xbb, 0xcc, 0xdd,
            0xee, 0xff],
    );
    assert_eq!(u.to_string(true, false), "00112233445566778899aabbccddeeff");
    assert_eq!(u.to_string(false, false), "00112233445566778899AABBCCDDEEFF");
}

#[test]
fn uuid_parses_hyphenated_hex() {
    let u = UuidStorage::parse("00112233-4455-6677-8899-aabbccddeeff").unwrap();
    assert_eq!(u.to_string(true, true), "00112233-4455-6677-8899-aabbccddeeff");
    // formatting and parsing round-trip, hyphenated or not
    let again = UuidStorage::parse(&u.to_string(true, true)).unwrap();
    assert_eq!(u, again);
    let plain = UuidStorage::parse(&u.to_string(false, false)).unwrap();
    assert_eq!(u, plain);
}

#[test]
fn uuid_rejects_ill_shaped_text() {
    assert!(UuidStorage::parse("").is_none());
    assert!(UuidStorage::parse("0011").is_none());
    assert!(UuidStorage::parse("0011223344556677 899aabbccddeeff").is_none());
    assert!(UuidStorage::parse("00112233-44556677-8899-aabbccddeeff").is_none());
    assert!(UuidStorage::parse("g0112233445566778899aabbccddeeff").is_none());
}

#[test]
fn file_names_carry_tile_positions() {
    assert_eq!(parse_file_name("3,-4.zip"), Some((3, -4)));
    assert_eq!(parse_file_name("0,0.zip"), Some((0, 0)));
    assert_eq!(parse_file_name("3,-4.png"), None);
    assert_eq!(parse_file_name("34.zip"), None);
    assert_eq!(parse_file_name("a,b.zip"), None);
    assert_eq!(parse_file_name(""), None);
    // extra comma-pieces beyond the position are ignored
    assert_eq!(parse_file_name("1,2,3.zip"), Some((1, 2)));
}

#[test]
fn key_lines_parse_name_and_state() {
    let kl = KeyLine::parse("12 Block{minecraft:oak_fence}[north=true,waterlogged=false]")
        .unwrap();
    assert_eq!(kl.id, 12);
    assert_eq!(kl.name, "minecraft:oak_fence");
    assert_eq!(kl.state, Some(s("north=true,waterlogged=false")));
    let plain = KeyLine::parse("3 Block{minecraft:air}").unwrap();
    assert_eq!(plain.id, 3);
    assert_eq!(plain.name, "minecraft:air");
    assert_eq!(plain.state, None);
    assert!(KeyLine::parse("nospace").is_err());
    assert!(KeyLine::parse("x Block{a}").is_err());
    assert!(KeyLine::parse("5 Rock{a}").is_err());
    assert!(KeyLine::parse("5 Block{a}[unclosed").is_err());
}

#[test]
fn block_props_read_names_and_state() {
    let air = BlockProps::new_from("minecraft:air", &Vec::new());
    assert!(air.air && !air.water && !air.waterlogged);
    let water = BlockProps::new_from("minecraft:water", &Vec::new());
    assert!(water.water && !water.air);
    assert!(matches!(water.biome_color, InnerColor::Water));
    let grass = BlockProps::new_from("minecraft:grass_block", &Vec::new());
    assert!(matches!(grass.biome_color, InnerColor::Grass));
    let logged = BlockProps::new_from(
        "minecraft:oak_fence",
        &vec![s("north=true"), s("waterlogged=true")],
    );
    assert!(logged.waterlogged && !logged.air && !logged.water);
    assert!(matches!(logged.biome_color, InnerColor::Untinted));
    let dry = BlockProps::new_from("minecraft:oak_fence", &vec![s("waterlogged=false")]);
    assert!(!dry.waterlogged);
    let word_only = BlockProps::new_from("minecraft:oak_fence", &vec![s("waterlogged")]);
    assert!(!word_only.waterlogged);
    let fresh = BlockProps::new();
    assert!(fresh.air);
}

#[test]
fn split_iter_walks_optional_state() {
    let mut it = SplitIter::new(Some("a=1,b=2"));
    assert_eq!(it.next(), Some(s("a=1")));
    assert_eq!(it.next(), Some(s("b=2")));
    assert_eq!(it.next(), None);
    let mut empty = SplitIter::new(None);
    assert_eq!(empty.next(), None);
}

#[test]
fn tiles_expose_layer_views() {
    let mut data = vec![0u8; 256 * 256 * 18];
    // column (2, 1): records sit at an eighteen-byte stride
    let base = 18 * (2 + 1 * 256);
    // shading layer: height, blockstate id, light
    data[base] = 64;
    data[base + 1] = 0x01;
    data[base + 2] = 0x02;
    data[base + 3] = 12;
    // biome byte
    data[base + 17] = 7;
    let props = BlockProps::new_from("minecraft:stone", &Vec::new());
    let tile = Tile::new((0, 0), data, vec![(vec![5u32], props)]).unwrap();
    let view = tile.view();
    let element = view.element(2, 1);
    let shading = element.shading();
    assert_eq!(shading.height(), 64);
    assert_eq!(shading.blockstate_id(), 0x0102);
    assert_eq!(shading.light(), 12);
    assert_eq!(element.biome(), 7);
    let (models, _props) = tile.get_model(1);
    assert_eq!(models, &vec![5u32]);
    // data of the wrong size is rejected
    assert!(Tile::new((0, 0), vec![0u8; 10], Vec::new()).is_none());
}

#[test]
fn build_errors_describe_themselves() {
    assert_eq!(
        BuildError::NotFound(s("oak")).describe(),
        "record not found: oak",
    );
    assert_eq!(
        BuildError::UnresolvedTexture(s("#top")).describe(),
        "texture reference never resolves: #top",
    );
    assert_eq!(BuildError::CapacityExceeded.describe(), "too many distinct condition atoms");
    assert_eq!(BuildError::DuplicateRule.describe(), "condition mask installed twice");
    assert_eq!(
        BuildError::MalformedCondition(s("broken")).describe(),
        "condition atom is not name=value: broken",
    );
}

#[test]
fn boolean_record_fields_default_on() {
    assert!(default_bool_true());
}
