//! Views over voxel-map tile data and the key lines that name each block,
//! as a world loader hands them to the engine.

use vstd::prelude::*;
use vstd::slice::slice_subrange;

use crate::util::all_digits;
use crate::util::dec_value;
use crate::util::first_idx_at;
use crate::util::find_char_from;
use crate::util::parse_i32;
use crate::util::parse_usize;
use crate::util::spec_signed_value;
use crate::util::spec_split;
use crate::util::split_char;
use crate::util::str_eq;

verus! {

/// One stored layer of a tile element: height, blockstate id and light.
pub struct LayerView<'a> {
    /// The layer's raw bytes.
    pub raw: &'a [u8],
}

impl<'a> LayerView<'a> {
    /// The height of the block in this layer.
    pub fn height(&self) -> (r: u8)
        requires
            self.raw@.len() >= 1,
        ensures
            r == self.raw@[0],
    {
        *vstd::slice::slice_index_get(self.raw, 0)
    }

    /// The blockstate key id, stored big-endian; zero means no block.
    pub fn blockstate_id(&self) -> (r: u16)
        requires
            self.raw@.len() >= 3,
        ensures
            r == (self.raw@[1] as u16) * 256 + self.raw@[2] as u16,
    {
        let hi = *vstd::slice::slice_index_get(self.raw, 1);
        let lo = *vstd::slice::slice_index_get(self.raw, 2);
        (hi as u16) * 256 + (lo as u16)
    }

    /// The light value of the layer.
    pub fn light(&self) -> (r: u8)
        requires
            self.raw@.len() >= 4,
        ensures
            r == self.raw@[3],
    {
        *vstd::slice::slice_index_get(self.raw, 3)
    }
}

/// One tile element: the stored layers of one column, plus its biome.
pub struct ElementView<'a> {
    /// The element's raw bytes.
    pub raw: &'a [u8],
}

impl<'a> ElementView<'a> {
    /// The shading layer.
    pub fn shading(&self) -> (r: LayerView<'a>)
        requires
            self.raw@.len() >= 18,
        ensures
            r.raw@ == self.raw@.subrange(0, 4),
    {
        LayerView { raw: slice_subrange(self.raw, 0, 4) }
    }

    /// The seafloor layer.
    pub fn seafloor(&self) -> (r: LayerView<'a>)
        requires
            self.raw@.len() >= 18,
        ensures
            r.raw@ == self.raw@.subrange(5, 8),
    {
        LayerView { raw: slice_subrange(self.raw, 5, 8) }
    }

    /// The ceiling layer.
    pub fn ceil(&self) -> (r: LayerView<'a>)
        requires
            self.raw@.len() >= 18,
        ensures
            r.raw@ == self.raw@.subrange(9, 12),
    {
        LayerView { raw: slice_subrange(self.raw, 9, 12) }
    }

    /// The vegetation layer.
    pub fn vegetation(&self) -> (r: LayerView<'a>)
        requires
            self.raw@.len() >= 18,
        ensures
            r.raw@ == self.raw@.subrange(13, 16),
    {
        LayerView { raw: slice_subrange(self.raw, 13, 16) }
    }

    /// The biome id of the column.
    pub fn biome(&self) -> (r: u8)
        requires
            self.raw@.len() >= 18,
        ensures
            r == self.raw@[17],
    {
        *vstd::slice::slice_index_get(self.raw, 17)
    }
}

/// A whole tile's raw data, addressed by column.
pub struct TileView<'a> {
    /// The tile's raw bytes.
    pub raw: &'a [u8],
}

impl<'a> TileView<'a> {
    /// The element of the column at `(x, z)`: the cell's own eighteen-byte
    /// record, at an eighteen-byte stride.
    pub fn element(&self, x: i32, z: i32) -> (r: ElementView<'a>)
        requires
            0 <= x < 256,
            0 <= z < 256,
            self.raw@.len() >= 256 * 256 * 18,
        ensures
            r.raw@ == self.raw@.subrange(18 * (x + z * 256), 18 * (x + z * 256) + 18),
    {
        let index = 18 * (x + z * 256) as usize;
        ElementView { raw: slice_subrange(self.raw, index, index + 18) }
    }
}

/// Which biome color table tints a block from within.
pub enum InnerColor {
    /// No inline tint.
    Untinted,
    /// The water color table.
    Water,
    /// The grass color table.
    Grass,
    /// The foliage color table.
    Foliage,
}

impl InnerColor {
    /// The tint source a block name selects.
    pub open spec fn spec_of_name(s: Seq<char>) -> InnerColor {
        if s == "minecraft:water"@ {
            InnerColor::Water
        } else if s == "minecraft:grass_block"@ {
            InnerColor::Grass
        } else {
            InnerColor::Untinted
        }
    }

    /// The tint source of a block, by its namespaced name.
    pub fn from_name(value: &str) -> (r: Self)
        ensures
            r == Self::spec_of_name(value@),
    {
        if str_eq(value, "minecraft:water") {
            InnerColor::Water
        } else if str_eq(value, "minecraft:grass_block") {
            InnerColor::Grass
        } else {
            InnerColor::Untinted
        }
    }
}

/// Whether one state atom switches a block to water-logged.
pub open spec fn spec_waterlogged_atom(s: Seq<char>) -> bool {
    let p = spec_split(s, '=');
    p.len() >= 2 && p[0] == "waterlogged"@ && p[1] == "true"@
}

/// The flags of one block kind, read from its key line.
pub struct BlockProps {
    /// Whether the block is air.
    pub air: bool,
    /// Whether the block is a water source.
    pub water: bool,
    /// Whether the block stands in water.
    pub waterlogged: bool,
    /// Which biome color table tints it.
    pub biome_color: InnerColor,
}

impl BlockProps {
    /// The properties of an empty cell.
    pub fn new() -> (r: Self)
        ensures
            r.air,
            !r.water,
            !r.waterlogged,
            r.biome_color == InnerColor::Untinted,
    {
        BlockProps { air: true, water: false, waterlogged: false, biome_color: InnerColor::Untinted }
    }

    /// The properties of the block `name` with the given state atoms:
    /// air and water by name, water-logged when an atom says so.
    pub fn new_from(name: &str, state: &Vec<String>) -> (r: Self)
        ensures
            r.air == (name@ == "minecraft:air"@),
            r.water == (name@ == "minecraft:water"@),
            r.waterlogged == (exists|i: int|
                0 <= i < state@.len() && spec_waterlogged_atom(#[trigger] state@[i]@)),
            r.biome_color == InnerColor::spec_of_name(name@),
    {
        let mut waterlogged = false;
        let mut i: usize = 0;
        while i < state.len()
            invariant
                i <= state@.len(),
                waterlogged == (exists|j: int|
                    0 <= j < i && spec_waterlogged_atom(#[trigger] state@[j]@)),
            decreases state@.len() - i,
        {
            let pieces = split_char(state[i].as_str(), '=');
            proof {
                assert(pieces.deep_view() == spec_split(state@[i as int]@, '='));
            }
            if pieces.len() >= 2 {
                if str_eq(pieces[0].as_str(), "waterlogged") && str_eq(
                    pieces[1].as_str(),
                    "true",
                ) {
                    proof {
                        assert(pieces.deep_view()[0] == pieces@[0]@);
                        assert(pieces.deep_view()[1] == pieces@[1]@);
                        assert(spec_waterlogged_atom(state@[i as int]@));
                    }
                    waterlogged = true;
                }
            }
            i += 1;
        }
        BlockProps {
            air: str_eq(name, "minecraft:air"),
            water: str_eq(name, "minecraft:water"),
            waterlogged,
            biome_color: InnerColor::from_name(name),
        }
    }
}

/// What one key line denotes: the key id, the block name, and its optional
/// state text, parsed from `id Block{name}[state]`.
pub open spec fn spec_parse_keyline(s: Seq<char>) -> Option<(int, Seq<char>, Option<Seq<char>>)> {
    let i = first_idx_at(s, ' ', 0);
    if !(0 <= i < s.len()) {
        Option::None
    } else {
        let idtxt = s.subrange(0, i);
        if !(idtxt.len() > 0 && all_digits(idtxt) && dec_value(idtxt) <= usize::MAX) {
            Option::None
        } else {
            let rest1 = s.subrange(i + 1, s.len() as int);
            let j = first_idx_at(rest1, '{', 0);
            if !(0 <= j < rest1.len()) {
                Option::None
            } else if rest1.subrange(0, j) != "Block"@ {
                Option::None
            } else {
                let rest2 = rest1.subrange(j + 1, rest1.len() as int);
                let k = first_idx_at(rest2, '}', 0);
                if !(0 <= k < rest2.len()) {
                    Option::None
                } else {
                    let name = rest2.subrange(0, k);
                    let rest3 = rest2.subrange(k + 1, rest2.len() as int);
                    if rest3.len() > 0 && rest3[0] == '[' {
                        let m = first_idx_at(rest3, ']', 1);
                        if !(0 <= m < rest3.len()) {
                            Option::None
                        } else {
                            Option::Some(
                                (dec_value(idtxt), name, Option::Some(rest3.subrange(1, m))),
                            )
                        }
                    } else {
                        Option::Some((dec_value(idtxt), name, Option::None))
                    }
                }
            }
        }
    }
}

/// One parsed key line: the id a tile layer stores, the block name, and
/// its optional comma-separated state text.
#[derive(Debug)]
pub struct KeyLine {
    /// The key id.
    pub id: usize,
    /// The namespaced block name.
    pub name: String,
    /// The state text between the brackets, if any.
    pub state: Option<String>,
}

impl KeyLine {
    /// Parses a key line of the shape `id Block{name}[state]`, the state
    /// part optional. An ill-shaped line yields the position where parsing
    /// stopped.
    pub fn parse(value: &str) -> (r: Result<KeyLine, usize>)
        ensures
            match r {
                Ok(kl) => spec_parse_keyline(value@) == Option::Some(
                    (
                        kl.id as int,
                        kl.name@,
                        match kl.state {
                            Option::Some(st) => Option::Some(st@),
                            Option::None => Option::None,
                        },
                    ),
                ),
                Err(_) => spec_parse_keyline(value@) is None,
            },
    {
        let n = value.unicode_len();
        let i = match find_char_from(value, 0, ' ') {
            Some(i) => i,
            None => {
                proof {
                    crate::util::lemma_first_idx_characterize(value@, ' ', 0, n as int);
                }
                return Err(0);
            },
        };
        proof {
            crate::util::lemma_first_idx_characterize(value@, ' ', 0, i as int);
        }
        let idtxt = value.substring_char(0, i);
        let id = match parse_usize(idtxt) {
            Some(v) => v,
            None => {
                return Err(0);
            },
        };
        let rest1 = value.substring_char(i + 1, n);
        let n1 = rest1.unicode_len();
        let j = match find_char_from(rest1, 0, '{') {
            Some(j) => j,
            None => {
                proof {
                    crate::util::lemma_first_idx_characterize(rest1@, '{', 0, n1 as int);
                }
                return Err(i + 1);
            },
        };
        proof {
            crate::util::lemma_first_idx_characterize(rest1@, '{', 0, j as int);
        }
        if !str_eq(rest1.substring_char(0, j), "Block") {
            proof {
                reveal_strlit("Block");
            }
            return Err(i + 1);
        }
        proof {
            reveal_strlit("Block");
        }
        let rest2 = rest1.substring_char(j + 1, n1);
        let n2 = rest2.unicode_len();
        let k = match find_char_from(rest2, 0, '}') {
            Some(k) => k,
            None => {
                proof {
                    crate::util::lemma_first_idx_characterize(rest2@, '}', 0, n2 as int);
                }
                return Err(i + 1 + j + 1);
            },
        };
        proof {
            crate::util::lemma_first_idx_characterize(rest2@, '}', 0, k as int);
        }
        let name = rest2.substring_char(0, k).to_owned();
        let rest3 = rest2.substring_char(k + 1, n2);
        let n3 = rest3.unicode_len();
        if n3 > 0 && rest3.get_char(0) == '[' {
            let m = match find_char_from(rest3, 1, ']') {
                Some(m) => m,
                None => {
                    proof {
                        crate::util::lemma_first_idx_characterize(rest3@, ']', 1, n3 as int);
                    }
                    return Err(i + 1 + j + 1 + k + 1);
                },
            };
            proof {
                crate::util::lemma_first_idx_characterize(rest3@, ']', 1, m as int);
            }
            let state = rest3.substring_char(1, m).to_owned();
            Ok(KeyLine { id, name, state: Some(state) })
        } else {
            Ok(KeyLine { id, name, state: None })
        }
    }
}

/// The comma-split pieces of an optional state text: none for an absent
/// text, else its pieces in order.
pub struct SplitIter {
    /// The pieces still to hand out, in order.
    pub pieces: Vec<String>,
    /// The next piece to hand out.
    pub index: usize,
}

impl SplitIter {
    /// Splits an optional state text on commas; an absent text has no
    /// pieces.
    pub fn new(value: Option<&str>) -> (r: SplitIter)
        ensures
            r.index == 0,
            match value {
                Option::Some(s) => r.pieces.deep_view() == spec_split(s@, ','),
                Option::None => r.pieces@.len() == 0,
            },
    {
        match value {
            Some(s) => SplitIter { pieces: split_char(s, ','), index: 0 },
            None => SplitIter { pieces: Vec::new(), index: 0 },
        }
    }

    /// The next piece, or `None` when all are handed out.
    pub fn next(&mut self) -> (r: Option<String>)
        ensures
            final(self).pieces@ == old(self).pieces@,
            match r {
                Option::Some(p) => {
                    &&& (old(self).index as int) < old(self).pieces@.len()
                    &&& p@ == old(self).pieces@[old(self).index as int]@
                    &&& final(self).index == old(self).index + 1
                },
                Option::None => {
                    &&& (old(self).index as int) >= old(self).pieces@.len()
                    &&& final(self).index == old(self).index
                },
            },
    {
        if self.index < self.pieces.len() {
            let p = self.pieces[self.index].clone();
            self.index = self.index + 1;
            Some(p)
        } else {
            None
        }
    }
}

/// One loaded tile: its position, raw column data, and the block key of
/// each id, already resolved to oriented placement handles.
pub struct Tile {
    /// The tile position.
    pub id: (i32, i32),
    /// The raw column data.
    pub data: Vec<u8>,
    /// The resolved key table: placement handles and properties per id.
    pub key: Vec<(Vec<u32>, BlockProps)>,
}

impl Tile {
    /// A tile from its parts; rejects data of the wrong size.
    pub fn new(id: (i32, i32), data: Vec<u8>, key: Vec<(Vec<u32>, BlockProps)>) -> (r: Option<
        Tile,
    >)
        ensures
            match r {
                Option::Some(t) => {
                    &&& data@.len() == 256 * 256 * 18
                    &&& t.id == id
                    &&& t.data@ == data@
                    &&& t.key@ == key@
                },
                Option::None => data@.len() != 256 * 256 * 18,
            },
    {
        if data.len() != 256 * 256 * 18 {
            return None;
        }
        Some(Tile { id, data, key })
    }

    /// A view over the tile's columns.
    pub fn view<'a>(&'a self) -> (r: TileView<'a>)
        ensures
            r.raw@ == self.data@,
    {
        TileView { raw: self.data.as_slice() }
    }

    /// The models and properties of a stored blockstate id; ids count from
    /// one.
    pub fn get_model<'a>(&'a self, id: u16) -> (r: &'a (Vec<u32>, BlockProps))
        requires
            1 <= id,
            id - 1 < self.key@.len(),
        ensures
            *r == self.key@[id - 1],
    {
        &self.key[(id - 1) as usize]
    }
}

/// What a tile cache file name denotes: the tile position `x,z` before the
/// archive suffix.
pub open spec fn spec_parse_file_name(s: Seq<char>) -> Option<(int, int)> {
    if s.len() < 4 || s.subrange(s.len() - 4, s.len() as int) != ".zip"@ {
        Option::None
    } else {
        let stem = s.subrange(0, s.len() - 4);
        let ps = spec_split(stem, ',');
        if ps.len() < 2 {
            Option::None
        } else {
            match (spec_signed_value(ps[0]), spec_signed_value(ps[1])) {
                (Option::Some(x), Option::Some(z)) => {
                    if i32::MIN <= x <= i32::MAX && i32::MIN <= z <= i32::MAX {
                        Option::Some((x, z))
                    } else {
                        Option::None
                    }
                },
                _ => Option::None,
            }
        }
    }
}

/// Parses a tile position from a cache file name of the shape `x,z.zip`.
pub fn parse_file_name(file_name: &str) -> (r: Option<(i32, i32)>)
    ensures
        match r {
            Option::Some((x, z)) => spec_parse_file_name(file_name@) == Option::Some(
                (x as int, z as int),
            ),
            Option::None => spec_parse_file_name(file_name@) is None,
        },
{
    let n = file_name.unicode_len();
    if n < 4 {
        return None;
    }
    let suffix = file_name.substring_char(n - 4, n);
    if !str_eq(suffix, ".zip") {
        proof {
            reveal_strlit(".zip");
        }
        return None;
    }
    proof {
        reveal_strlit(".zip");
    }
    let stem = file_name.substring_char(0, n - 4);
    let pieces = split_char(stem, ',');
    if pieces.len() < 2 {
        return None;
    }
    proof {
        assert(pieces.deep_view()[0] == pieces@[0]@);
        assert(pieces.deep_view()[1] == pieces@[1]@);
    }
    let x = match parse_i32(pieces[0].as_str()) {
        Some(x) => x,
        None => {
            return None;
        },
    };
    let z = match parse_i32(pieces[1].as_str()) {
        Some(z) => z,
        None => {
            return None;
        },
    };
    Some((x, z))
}

} // verus!
