//! Chunks in the layout used before 1.18: sections with optional packed block
//! states, a section tower addressed by height, and version-dependent biomes
//! and height maps.
use vstd::prelude::*;
use vstd::string::*;

use crate::bits::{
    bits_per_block, block_bits, versioned_field, PackedBits, HEIGHT_BITS, SECTION_CELLS,
};
use crate::types::{is_air_like, solid, Block, Heightmaps};

verus! {

/// Index of the cell at `(x, y, z)` within a section's 4096 cells.
pub open spec fn cell_index(x: int, y: int, z: int) -> int {
    (y * 16 + z) * 16 + x
}

/// The palette index held for a cell, if the palette is small enough to be indexed.
pub open spec fn palette_index(words: Seq<u64>, palette_len: nat, data_version: i32, cell: int) -> Option<usize> {
    if block_bits(palette_len) <= 16 {
        Some(versioned_field(words, block_bits(palette_len) as u64, cell, data_version) as usize)
    } else {
        None
    }
}

/// What a section holds, leaving out what it has cached.
pub struct SectionView {
    pub y: i8,
    pub states: Option<Seq<u64>>,
    pub palette: Seq<Block>,
}

/// The packed block states of a section, unpacked on first use.
pub struct Pre18Blockstates {
    packed: PackedBits,
    unpacked: Option<(u64, i32, Vec<u16>)>,
}

impl View for Pre18Blockstates {
    type V = Seq<u64>;

    closed spec fn view(&self) -> Seq<u64> {
        self.packed@
    }
}

impl Pre18Blockstates {
    /// The cached cells, when present, are those that the packed words hold.
    pub closed spec fn wf(&self) -> bool {
        match self.unpacked {
            Some((b, dv, cells)) => 1 <= b <= 16 && cells@.len() == SECTION_CELLS && forall|i: int|
                0 <= i < SECTION_CELLS ==> cells@[i] as u64 == #[trigger] versioned_field(self.packed@, b, i, dv),
            None => true,
        }
    }

    pub closed spec fn is_unpacked(&self) -> bool {
        self.unpacked is Some
    }

    /// The cells are already unpacked for a palette of `pal_len` entries under `data_version`.
    pub closed spec fn is_unpacked_for(&self, pal_len: nat, data_version: i32) -> bool {
        self.unpacked matches Some((b, dv, _)) && b == block_bits(pal_len) && dv == data_version
    }

    pub fn new(packed: PackedBits) -> (r: Pre18Blockstates)
        ensures
            r@ == packed@,
            r.wf(),
            !r.is_unpacked(),
    {
        Pre18Blockstates { packed, unpacked: None }
    }

    /// The palette index of the cell at `(x, sec_y, z)` for a palette of `pal_len` entries.
    /// The words are unpacked once and kept for later calls.
    pub fn state(&mut self, x: usize, sec_y: usize, z: usize, pal_len: usize, data_version: i32) -> (r: Option<usize>)
        requires
            old(self).wf(),
            x < 16,
            sec_y < 16,
            z < 16,
        ensures
            final(self).wf(),
            final(self)@ == old(self)@,
            r == palette_index(old(self)@, pal_len as nat, data_version, cell_index(x as int, sec_y as int, z as int)),
            r is Some ==> final(self).is_unpacked_for(pal_len as nat, data_version),
            old(self).is_unpacked_for(pal_len as nat, data_version) ==> *final(self) == *old(self),
    {
        let b = bits_per_block(pal_len);
        if b > 16 {
            return None;
        }
        let b = b as u64;
        let fresh = match &self.unpacked {
            Some(cached) => cached.0 != b || cached.1 != data_version,
            None => true,
        };
        if fresh {
            let cells = self.packed.unpack_blockstates(b, data_version);
            self.unpacked = Some((b, data_version, cells));
        }
        let i: usize = (sec_y * 16 + z) * 16 + x;
        match &self.unpacked {
            Some(cached) => Some(cached.2[i] as usize),
            None => None,
        }
    }
}

/// A vertical 16x16x16 section of a chunk.
pub struct Pre18Section {
    pub y: i8,
    pub block_states: Option<Pre18Blockstates>,
    pub palette: Vec<Block>,
}

impl View for Pre18Section {
    type V = SectionView;

    open spec fn view(&self) -> SectionView {
        SectionView {
            y: self.y,
            states: match self.block_states {
                Some(s) => Some(s@),
                None => None,
            },
            palette: self.palette@,
        }
    }
}

impl Pre18Section {
    pub open spec fn wf(&self) -> bool {
        match self.block_states {
            Some(s) => s.wf(),
            None => true,
        }
    }

    pub fn new(y: i8, block_states: Option<Pre18Blockstates>, palette: Vec<Block>) -> (r: Pre18Section)
        ensures
            r.y == y,
            r.block_states == block_states,
            r.palette@ == palette@,
    {
        Pre18Section { y, block_states, palette }
    }

    /// A section with neither palette nor block states marks the end of the list
    /// and is not part of the chunk.
    pub fn is_terminator(&self) -> (r: bool)
        ensures
            r == (self.palette@.len() == 0 && self.block_states is None),
    {
        self.palette.len() == 0 && self.block_states.is_none()
    }

    pub fn y(&self) -> (r: i8)
        ensures
            r == self.y,
    {
        self.y
    }
}

/// A section with neither palette nor block states: it marks the end of the list.
pub open spec fn is_terminator_view(v: SectionView) -> bool {
    v.palette.len() == 0 && v.states is None
}

/// The sections that are not terminators, in their order.
pub open spec fn kept_sections(s: Seq<SectionView>) -> Seq<SectionView>
    decreases s.len(),
{
    if s.len() == 0 {
        s
    } else if is_terminator_view(s.last()) {
        kept_sections(s.drop_last())
    } else {
        kept_sections(s.drop_last()).push(s.last())
    }
}

/// The sections of one chunk, addressable by world height.
pub struct SectionTower {
    sections: Vec<Pre18Section>,
    map: Vec<Option<usize>>,
    y_min: isize,
    y_max: isize,
}

impl View for SectionTower {
    type V = Seq<SectionView>;

    closed spec fn view(&self) -> Seq<SectionView> {
        self.sections@.map_values(|s: Pre18Section| s@)
    }
}

impl SectionTower {
    pub closed spec fn wf(&self) -> bool {
        &&& self.y_min % 16 == 0
        &&& self.y_max % 16 == 0
        &&& -2048 <= self.y_min <= self.y_max <= 2048
        &&& self.map@.len() == (self.y_max - self.y_min) / 16
        &&& forall|k: int| 0 <= k < self.map@.len() && #[trigger] self.map@[k] is Some ==> {
            &&& self.map@[k]->0 < self.sections@.len()
            &&& self.sections@[self.map@[k]->0 as int].y == self.y_min / 16 + k
        }
        &&& forall|i: int| 0 <= i < self.sections@.len() ==> {
            &&& self.y_min / 16 <= #[trigger] self.sections@[i].y < self.y_max / 16
            &&& self.map@[self.sections@[i].y - self.y_min / 16] is Some
            &&& self.sections@[i].wf()
        }
        &&& self.sections@.len() == 0 ==> self.y_min == self.y_max
    }

    /// Lowest world height covered.
    pub closed spec fn spec_y_min(&self) -> int {
        self.y_min as int
    }

    /// One past the highest world height covered.
    pub closed spec fn spec_y_max(&self) -> int {
        self.y_max as int
    }

    /// Position of the section that holds world height `y`.
    pub closed spec fn section_for(&self, y: int) -> Option<int> {
        if self.y_min <= y < self.y_max {
            match self.map@[(y - self.y_min) / 16] {
                Some(i) => Some(i as int),
                None => None,
            }
        } else {
            None
        }
    }

    /// The section found for a height is one at that height's section index, and
    /// none is found only where no section has that index.
    pub proof fn lemma_section_for(&self, y: int)
        requires
            self.wf(),
        ensures
            self.spec_y_min() % 16 == 0,
            self.spec_y_min() <= self.spec_y_max(),
            -2048 <= self.spec_y_min() && self.spec_y_max() <= 2048,
            self@.len() == 0 ==> self.spec_y_min() == self.spec_y_max(),
            forall|i: int| 0 <= i < self@.len() ==> self.spec_y_min() <= 16 * #[trigger] self@[i].y < self.spec_y_max(),
            self.section_for(y) matches Some(i) ==> 0 <= i < self@.len() && self@[i].y == y / 16,
            self.section_for(y) is None ==> forall|i: int| 0 <= i < self@.len() ==> #[trigger] self@[i].y != y / 16,
    {
        assert forall|i: int| 0 <= i < self@.len() implies self.spec_y_min() <= 16 * #[trigger] self@[i].y < self.spec_y_max() by {
            assert(self.y_min / 16 <= self.sections@[i].y < self.y_max / 16);
        }
        if self.y_min <= y < self.y_max {
            let k = (y - self.y_min) / 16;
            assert(0 <= k < self.map@.len());
            assert(k == y / 16 - self.y_min / 16);
            if self.map@[k] is None {
                assert forall|i: int| 0 <= i < self@.len() implies #[trigger] self@[i].y != y / 16 by {
                    assert(self.map@[self.sections@[i].y - self.y_min / 16] is Some);
                }
            }
        } else {
            assert forall|i: int| 0 <= i < self@.len() implies #[trigger] self@[i].y != y / 16 by {
                assert(self.y_min / 16 <= self.sections@[i].y < self.y_max / 16);
            }
        }
    }

    /// Collects the sections of a chunk, leaving out terminators.
    pub fn new(sections: Vec<Pre18Section>) -> (r: SectionTower)
        requires
            forall|i: int| 0 <= i < sections@.len() ==> #[trigger] sections@[i].wf(),
        ensures
            r.wf(),
            r@ == kept_sections(sections@.map_values(|s: Pre18Section| s@)),
            r@.len() == 0 ==> r.spec_y_min() == 0 && r.spec_y_max() == 0,
            r@.len() > 0 ==> exists|i: int| 0 <= i < r@.len() && r.spec_y_min() == 16 * r@[i].y,
            r@.len() > 0 ==> exists|i: int| 0 <= i < r@.len() && r.spec_y_max() == 16 * (r@[i].y + 1),
            forall|i: int| 0 <= i < r@.len() ==> r.spec_y_min() <= 16 * #[trigger] r@[i].y && 16 * (r@[i].y + 1) <= r.spec_y_max(),
            forall|i: int| 0 <= i < r@.len() ==> !is_terminator_view(#[trigger] r@[i]),
    {
        let ghost orig = sections@;
        let ghost n = sections@.len();
        let ghost mut c: int = 0;
        let ghost mut lo_i: int = 0;
        let ghost mut hi_i: int = 0;
        let mut kept: Vec<Pre18Section> = Vec::new();
        let mut lo: i8 = 127;
        let mut hi: i8 = -128;
        let mut sections = sections;
        while sections.len() > 0
            invariant
                0 <= c <= n,
                n == orig.len(),
                sections@ == orig.subrange(c, n as int),
                kept@.map_values(|s: Pre18Section| s@) == kept_sections(orig.subrange(0, c).map_values(|s: Pre18Section| s@)),
                kept@.len() > 0 ==> 0 <= lo_i < kept@.len() && kept@[lo_i].y == lo,
                kept@.len() > 0 ==> 0 <= hi_i < kept@.len() && kept@[hi_i].y == hi,
                forall|i: int| 0 <= i < sections@.len() ==> #[trigger] sections@[i].wf(),
                forall|i: int| 0 <= i < kept@.len() ==> #[trigger] kept@[i].wf(),
                forall|i: int| 0 <= i < kept@.len() ==> !(#[trigger] kept@[i]@.palette.len() == 0 && kept@[i]@.states is None),
                forall|i: int| 0 <= i < kept@.len() ==> lo <= #[trigger] kept@[i].y <= hi,
                kept@.len() == 0 ==> lo == 127 && hi == -128,
                kept@.len() > 0 ==> lo <= hi,
            decreases sections@.len(),
        {
            let ghost before = sections@;
            let s = sections.remove(0);
            assert(s.wf());
            assert(forall|i: int| 0 <= i < sections@.len() ==> #[trigger] sections@[i] == before[i + 1]);
            proof {
                let pre = orig.subrange(0, c + 1).map_values(|s: Pre18Section| s@);
                assert(pre.drop_last() =~= orig.subrange(0, c).map_values(|s: Pre18Section| s@));
                assert(s == orig[c]);
                assert(pre.last() == s@);
                assert(sections@ =~= orig.subrange(c + 1, n as int));
            }
            if !s.is_terminator() {
                let ghost k = kept@.len() as int;
                proof {
                    if k == 0 {
                        lo_i = 0;
                        hi_i = 0;
                    }
                }
                if s.y < lo {
                    lo = s.y;
                    proof {
                        lo_i = k;
                    }
                }
                if s.y > hi {
                    hi = s.y;
                    proof {
                        hi_i = k;
                    }
                }
                let ghost before_kept = kept@;
                kept.push(s);
                assert(kept@[lo_i] == if lo_i < k { before_kept[lo_i] } else { s });
                assert(kept@[hi_i] == if hi_i < k { before_kept[hi_i] } else { s });
                assert(kept@.map_values(|s: Pre18Section| s@) =~= before_kept.map_values(|s: Pre18Section| s@).push(s@));
            }
            proof {
                c = c + 1;
            }
        }
        assert(orig.subrange(0, c) =~= orig);
        if kept.len() == 0 {
            return SectionTower { sections: kept, map: Vec::new(), y_min: 0, y_max: 0 };
        }
        let count: usize = (hi as isize - lo as isize + 1) as usize;
        let mut map: Vec<Option<usize>> = Vec::new();
        while map.len() < count
            invariant
                map@.len() <= count,
                forall|k: int| 0 <= k < map@.len() ==> #[trigger] map@[k] is None,
            decreases count - map@.len(),
        {
            map.push(None);
        }
        let mut i: usize = 0;
        while i < kept.len()
            invariant
                lo <= hi,
                count == hi - lo + 1,
                map@.len() == count,
                i <= kept@.len(),
                forall|j: int| 0 <= j < kept@.len() ==> lo <= #[trigger] kept@[j].y <= hi,
                forall|k: int| 0 <= k < map@.len() && #[trigger] map@[k] is Some ==> {
                    &&& map@[k]->0 < kept@.len()
                    &&& kept@[map@[k]->0 as int].y == lo + k
                },
                forall|j: int| 0 <= j < i ==> #[trigger] map@[kept@[j].y - lo] is Some,
            decreases kept@.len() - i,
        {
            let k: usize = (kept[i].y as isize - lo as isize) as usize;
            map.set(k, Some(i));
            i = i + 1;
        }
        let r = SectionTower { sections: kept, map, y_min: lo as isize * 16, y_max: (hi as isize + 1) * 16 };
        assert(r.y_min / 16 == lo);
        assert(r.y_max / 16 == hi + 1);
        assert(r@[lo_i].y == lo);
        assert(r@[hi_i].y == hi);
        r
    }

    pub fn y_min(&self) -> (r: isize)
        ensures
            r == self.spec_y_min(),
    {
        self.y_min
    }

    pub fn y_max(&self) -> (r: isize)
        ensures
            r == self.spec_y_max(),
    {
        self.y_max
    }

    pub fn sections(&self) -> (r: &[Pre18Section])
        ensures
            r@.map_values(|s: Pre18Section| s@) == self@,
    {
        self.sections.as_slice()
    }

    /// Position of the section holding world height `y`, if there is one.
    pub fn get_section_for_y(&self, y: isize) -> (r: Option<usize>)
        requires
            self.wf(),
        ensures
            r == match self.section_for(y as int) {
                Some(i) => Some(i as usize),
                None => None::<usize>,
            },
    {
        if y < self.y_min || y >= self.y_max {
            return None;
        }
        let k: usize = ((y - self.y_min) / 16) as usize;
        self.map[k]
    }
}

/// How a chunk's surface heights are found.
#[derive(Clone, Copy, Debug, PartialEq, Eq, Structural)]
pub enum HeightMode {
    /// Use the height map that the game stored, when there is one.
    Trust,
    /// Scan every column from the top for its highest solid block.
    Calculate,
}

/// What a chunk holds.
pub struct Level {
    pub x_pos: i32,
    pub z_pos: i32,
    pub biomes: Option<Vec<i32>>,
    /// Absent when the chunk has not been generated properly yet.
    pub sections: Option<SectionTower>,
    pub heightmaps: Option<Heightmaps>,
    /// Typically anything but `full` means the chunk is not fully generated.
    pub status: String,
}

/// The block that fills a section stored without block states.
pub open spec fn is_air(b: Block) -> bool {
    b.name@ == "minecraft:air"@ && b.properties@.len() == 0
}


impl Level {
    pub open spec fn wf(&self) -> bool {
        self.sections matches Some(t) ==> t.wf()
    }

    pub fn new(
        x_pos: i32,
        z_pos: i32,
        biomes: Option<Vec<i32>>,
        sections: Option<SectionTower>,
        heightmaps: Option<Heightmaps>,
        status: String,
    ) -> (r: Level)
        ensures
            r == (Level { x_pos, z_pos, biomes, sections, heightmaps, status }),
    {
        Level { x_pos, z_pos, biomes, sections, heightmaps, status }
    }
}

/// A chunk in the layout used before 1.18. Its surface heights are worked out
/// on first use and kept; the chunk has a single owner.
pub struct JavaChunk {
    data_version: i32,
    level: Level,
    lazy_heightmap: Option<Vec<i16>>,
    air: Block,
}


impl SectionTower {
    /// The section at position `i` keeps its cells unpacked for its palette under `dv`.
    pub closed spec fn cells_cached(&self, i: int, dv: i32) -> bool {
        &&& 0 <= i < self.sections@.len()
        &&& self.sections@[i].block_states matches Some(bs)
        &&& bs.is_unpacked_for(self.sections@[i].palette@.len(), dv)
    }

    /// Both towers hold the same sections at the same places.
    pub closed spec fn same_shape(&self, o: &SectionTower) -> bool {
        self@ == o@ && self.map@ == o.map@ && self.y_min == o.y_min && self.y_max == o.y_max
    }
}

impl JavaChunk {
    pub fn new(data_version: i32, level: Level) -> (r: JavaChunk)
        requires
            level.wf(),
        ensures
            r.wf(),
            r.spec_data_version() == data_version,
            r.heights() is None,
            r.tower() == level.sections,
            r.spec_biomes() == level.biomes,
            r.spec_heightmaps() == level.heightmaps,
            r.spec_status() == level.status@,
    {
        let air = Block::new(String::from_str("minecraft:air"), Vec::new());
        JavaChunk { data_version, level, lazy_heightmap: None, air }
    }

    pub closed spec fn spec_data_version(&self) -> i32 {
        self.data_version
    }

    pub closed spec fn tower(&self) -> Option<SectionTower> {
        self.level.sections
    }

    pub closed spec fn spec_biomes(&self) -> Option<Vec<i32>> {
        self.level.biomes
    }

    pub closed spec fn spec_heightmaps(&self) -> Option<Heightmaps> {
        self.level.heightmaps
    }

    pub closed spec fn spec_status(&self) -> Seq<char> {
        self.level.status@
    }

    pub closed spec fn heights(&self) -> Option<Seq<i16>> {
        match self.lazy_heightmap {
            Some(h) => Some(h@),
            None => None,
        }
    }

    /// A lookup at height `y` reads the unpacked cells of a section.
    pub open spec fn reads_cells(&self, y: int) -> bool {
        match self.tower() {
            Some(t) => match t.section_for(y) {
                Some(i) => t@[i].states is Some && block_bits(t@[i].palette.len()) <= 16,
                None => false,
            },
            None => false,
        }
    }

    /// The section holding height `y` keeps its cells unpacked.
    pub open spec fn cells_cached_at(&self, y: int) -> bool {
        match self.tower() {
            Some(t) => match t.section_for(y) {
                Some(i) => t.cells_cached(i, self.spec_data_version()),
                None => false,
            },
            None => false,
        }
    }

    /// The block that fills a section stored without block states.
    pub closed spec fn air_block(&self) -> Block {
        self.air
    }

    /// A well-formed chunk holds an air block without properties and a
    /// well-formed tower.
    pub proof fn lemma_wf(&self)
        requires
            self.wf(),
        ensures
            is_air(self.air_block()),
            self.tower() matches Some(t) ==> t.wf(),
    {
    }

    pub closed spec fn wf(&self) -> bool {
        &&& is_air(self.air)
        &&& self.level.wf()
        &&& self.lazy_heightmap matches Some(h) ==> h@.len() == 256
    }

    /// Both chunks hold the same data; only what they have cached may differ.
    pub closed spec fn same_as(&self, o: &JavaChunk) -> bool {
        &&& self.data_version == o.data_version
        &&& self.level.x_pos == o.level.x_pos
        &&& self.level.z_pos == o.level.z_pos
        &&& self.level.biomes == o.level.biomes
        &&& self.level.heightmaps == o.level.heightmaps
        &&& self.level.status == o.level.status
        &&& self.air == o.air
        &&& match (self.level.sections, o.level.sections) {
            (Some(a), Some(b)) => a.same_shape(&b),
            (None, None) => true,
            _ => false,
        }
    }

    /// The heights spanned by the sections, lowest first, end excluded.
    pub open spec fn spec_y_range(&self) -> (int, int) {
        match self.tower() {
            Some(t) => (t.spec_y_min(), t.spec_y_max()),
            None => (0, 0),
        }
    }

    /// The block at `(x, y, z)`: air throughout a section stored without block
    /// states, else the palette entry that the cell's packed index names.
    pub open spec fn block_spec(&self, x: int, y: int, z: int) -> Option<Block> {
        match self.tower() {
            None => None,
            Some(t) => match t.section_for(y) {
                None => None,
                Some(i) => {
                    let s = t@[i];
                    match s.states {
                        None => Some(self.air_block()),
                        Some(words) => match palette_index(
                            words,
                            s.palette.len(),
                            self.spec_data_version(),
                            cell_index(x, y - 16 * s.y, z),
                        ) {
                            Some(p) => if p < s.palette.len() {
                                Some(s.palette[p as int])
                            } else {
                                None
                            },
                            None => None,
                        },
                    }
                },
            },
        }
    }

    /// The height map that the game stored, if any.
    pub open spec fn stored_heights(&self) -> Option<Seq<u64>> {
        match self.spec_heightmaps() {
            Some(hm) => match hm.motion_blocking {
                Some(p) => Some(p@),
                None => None,
            },
            None => None,
        }
    }

    /// `v` is one above the highest solid block of column `(x, z)`, or 0 when the
    /// column has none.
    pub open spec fn scanned_height(&self, x: int, z: int, v: int) -> bool {
        let (lo, hi) = self.spec_y_range();
        ||| exists|y: int|
            lo <= y < hi && solid(#[trigger] self.block_spec(x, y, z)) && v == y + 1 && forall|y2: int|
                y < y2 < hi ==> !solid(#[trigger] self.block_spec(x, y2, z))
        ||| v == 0 && forall|y: int| lo <= y < hi ==> !solid(#[trigger] self.block_spec(x, y, z))
    }

    /// The heights of all columns, `z * 16 + x`, found in the given mode.
    pub open spec fn heights_for(&self, mode: HeightMode, h: Seq<i16>) -> bool {
        &&& h.len() == 256
        &&& forall|x: int, z: int|
            0 <= x < 16 && 0 <= z < 16 ==> if mode == HeightMode::Trust && self.stored_heights() is Some {
                #[trigger] h[z * 16 + x] == versioned_field(self.stored_heights()->0, HEIGHT_BITS, z * 16 + x, self.spec_data_version())
                    + self.spec_y_range().0
            } else {
                self.scanned_height(x, z, h[z * 16 + x] as int)
            }
    }

    pub fn status(&self) -> (r: String)
        ensures
            r@ == self.spec_status(),
    {
        self.level.status.clone()
    }

    /// The half-open range of heights that the sections span; empty without sections.
    pub fn y_range(&self) -> (r: std::ops::Range<isize>)
        requires
            self.wf(),
        ensures
            r.start == self.spec_y_range().0,
            r.end == self.spec_y_range().1,
            r.start <= r.end,
            -2048 <= r.start && r.end <= 2048,
    {
        match &self.level.sections {
            Some(t) => {
                proof {
                    t.lemma_section_for(0);
                }
                std::ops::Range { start: t.y_min(), end: t.y_max() }
            },
            None => std::ops::Range { start: 0, end: 0 },
        }
    }

    /// The block at `(x, y, z)`, or `None` where the chunk holds no block there.
    pub fn block(&mut self, x: usize, y: isize, z: usize) -> (r: Option<&Block>)
        requires
            old(self).wf(),
            x < 16,
            z < 16,
        ensures
            final(self).wf(),
            final(self).same_as(old(self)),
            final(self).heights() == old(self).heights(),
            r matches Some(b) ==> old(self).block_spec(x as int, y as int, z as int) == Some(*b),
            r is None ==> old(self).block_spec(x as int, y as int, z as int) is None,
            old(self).reads_cells(y as int) ==> final(self).cells_cached_at(y as int),
    {
        let dv = self.data_version;
        match &mut self.level.sections {
            None => None,
            Some(t) => {
                proof {
                    t.lemma_section_for(y as int);
                }
                match t.get_section_for_y(y) {
                    None => None,
                    Some(i) => t.block_in(i, x, y, z, dv, &self.air),
                }
            },
        }
    }
}

impl JavaChunk {
    /// Queries leave a chunk holding the same data, and chunks that hold the same
    /// data agree on every block, biome, span and stored height: asking again
    /// gives the same answer.
    pub proof fn lemma_same_as_agrees(&self, o: &JavaChunk)
        requires
            self.same_as(o),
        ensures
            forall|x: int, y: int, z: int| #[trigger] self.block_spec(x, y, z) == o.block_spec(x, y, z),
            forall|x: int, y: int, z: int| #[trigger] self.biome_spec(x, y, z) == o.biome_spec(x, y, z),
            self.spec_y_range() == o.spec_y_range(),
            self.stored_heights() == o.stored_heights(),
            self.spec_data_version() == o.spec_data_version(),
            self.spec_biomes() == o.spec_biomes(),
            self.spec_heightmaps() == o.spec_heightmaps(),
            self.spec_status() == o.spec_status(),
            self.air_block() == o.air_block(),
            o.same_as(self),
    {
    }

    /// The biome code of the chunk that covers `(x, y, z)`.
    /// A cube layout with no sections has no span to place `y` in, so it gives no biome.
    pub open spec fn biome_spec(&self, x: int, y: int, z: int) -> Option<i32> {
        match self.spec_biomes() {
            None => None,
            Some(v) => if v@.len() == 256 {
                Some(v@[z * 16 + x])
            } else {
                let (lo, hi) = self.spec_y_range();
                if lo < hi {
                    let ys = if y < lo {
                        0
                    } else if y >= hi {
                        hi - 1 - lo
                    } else {
                        y - lo
                    };
                    let i = (z / 4) * 4 + x / 4 + (ys / 4) * 16;
                    if i < v@.len() {
                        Some(v@[i])
                    } else {
                        None
                    }
                } else {
                    None
                }
            },
        }
    }

    /// The biome code at `(x, y, z)`. A 256-entry biome array holds one code per
    /// column; any other holds one per 4x4x4 cube, with `y` clamped into the span
    /// of the sections. Mapping the code to a biome is the caller's part.
    pub fn biome(&self, x: usize, y: isize, z: usize) -> (r: Option<i32>)
        requires
            self.wf(),
            x < 16,
            z < 16,
        ensures
            r == self.biome_spec(x as int, y as int, z as int),
    {
        let biomes = match &self.level.biomes {
            Some(b) => b,
            None => return None,
        };
        if biomes.len() == 256 {
            return Some(biomes[z * 16 + x]);
        }
        let range = self.y_range();
        if range.start >= range.end {
            return None;
        }
        let ys: usize = if y < range.start {
            0
        } else if y >= range.end {
            (range.end - 1 - range.start) as usize
        } else {
            (y - range.start) as usize
        };
        let i: usize = (z / 4) * 4 + x / 4 + (ys / 4) * 16;
        if i < biomes.len() {
            Some(biomes[i])
        } else {
            None
        }
    }

    /// Works out the surface height of every column and keeps it. In trust mode the
    /// stored height map is used where the chunk has one.
    pub fn recalculate_heightmap(&mut self, mode: HeightMode)
        requires
            old(self).wf(),
        ensures
            final(self).wf(),
            final(self).same_as(old(self)),
            final(self).heights() matches Some(h) && old(self).heights_for(mode, h),
    {
        let range = self.y_range();
        if mode == HeightMode::Trust {
            let expanded = match &self.level.heightmaps {
                Some(hm) => match &hm.motion_blocking {
                    Some(p) => Some(p.expand_heightmap(range.start, self.data_version)),
                    None => None,
                },
                None => None,
            };
            match expanded {
                Some(map) => {
                    self.lazy_heightmap = Some(map);
                    return;
                },
                None => {},
            }
        }
        let ghost orig = *self;
        let mut map: Vec<i16> = Vec::new();
        let mut c: usize = 0;
        while c < 256
            invariant
                self.wf(),
                self.same_as(&orig),
                orig.wf(),
                range.start == orig.spec_y_range().0,
                range.end == orig.spec_y_range().1,
                -2048 <= range.start <= range.end <= 2048,
                c <= 256,
                map@.len() == c,
                mode == HeightMode::Trust ==> orig.stored_heights() is None,
                forall|k: int| 0 <= k < c ==> orig.scanned_height(k % 16, k / 16, #[trigger] map@[k] as int),
            decreases 256 - c,
        {
            let x: usize = c % 16;
            let z: usize = c / 16;
            let mut y: isize = range.end;
            let mut h: i16 = 0;
            let mut found = false;
            while !found && y > range.start
                invariant
                    self.wf(),
                    self.same_as(&orig),
                    x < 16,
                    z < 16,
                    range.start == orig.spec_y_range().0,
                    range.end == orig.spec_y_range().1,
                    -2048 <= range.start <= range.end <= 2048,
                    range.start <= y <= range.end,
                    !found ==> h == 0 && forall|y2: int| y <= y2 < range.end ==> !solid(#[trigger] orig.block_spec(x as int, y2, z as int)),
                    found ==> range.start < y && h == y && solid(orig.block_spec(x as int, y - 1, z as int))
                        && forall|y2: int| y - 1 < y2 < range.end ==> !solid(#[trigger] orig.block_spec(x as int, y2, z as int)),
                decreases y - range.start, if found { 0int } else { 1int },
            {
                proof {
                    self.lemma_same_as_agrees(&orig);
                }
                let hit = match self.block(x, y - 1, z) {
                    Some(b) => !is_air_like(b.name()),
                    None => false,
                };
                if hit {
                    h = y as i16;
                    found = true;
                } else {
                    y = y - 1;
                }
            }
            proof {
                if found {
                    assert(orig.scanned_height(x as int, z as int, h as int));
                } else {
                    assert(orig.scanned_height(x as int, z as int, 0));
                }
                assert(c as int % 16 == x && c as int / 16 == z);
            }
            map.push(h);
            c = c + 1;
        }
        proof {
            assert forall|x: int, z: int| 0 <= x < 16 && 0 <= z < 16 implies orig.scanned_height(x, z, #[trigger] map@[z * 16 + x] as int) by {
                let k = z * 16 + x;
                assert(k % 16 == x && k / 16 == z);
                assert(orig.scanned_height(k % 16, k / 16, map@[k] as int));
            }
        }
        self.lazy_heightmap = Some(map);
    }

    /// The surface height of column `(x, z)`. The heights of all columns are worked
    /// out on the first call, in the mode that call names, and kept for later calls.
    pub fn surface_height(&mut self, x: usize, z: usize, mode: HeightMode) -> (r: isize)
        requires
            old(self).wf(),
            x < 16,
            z < 16,
        ensures
            final(self).wf(),
            final(self).same_as(old(self)),
            final(self).heights() matches Some(h) && r == h[z * 16 + x],
            old(self).heights() is Some ==> final(self).heights() == old(self).heights(),
            old(self).heights() is None ==> old(self).heights_for(mode, final(self).heights()->0),
    {
        if self.lazy_heightmap.is_none() {
            self.recalculate_heightmap(mode);
        }
        match &self.lazy_heightmap {
            Some(h) => h[z * 16 + x] as isize,
            None => 0,
        }
    }
}

impl SectionTower {
    /// The block at `(x, y, z)` in the section at position `i`, which holds height `y`.
    fn block_in<'a>(&'a mut self, i: usize, x: usize, y: isize, z: usize, dv: i32, air: &'a Block) -> (r: Option<&'a Block>)
        requires
            old(self).wf(),
            i < old(self)@.len(),
            old(self)@[i as int].y == y / 16,
            x < 16,
            z < 16,
        ensures
            final(self).wf(),
            final(self).same_shape(old(self)),
            ({
                let s = old(self)@[i as int];
                match s.states {
                    None => r == Some(air),
                    Some(words) => match palette_index(words, s.palette.len(), dv, cell_index(x as int, y - 16 * s.y, z as int)) {
                        Some(p) => if p < s.palette.len() {
                            r matches Some(b) && *b == s.palette[p as int]
                        } else {
                            r is None
                        },
                        None => r is None,
                    },
                }
            }),
            old(self)@[i as int].states is Some && block_bits(old(self)@[i as int].palette.len()) <= 16
                ==> final(self).cells_cached(i as int, dv),
    {
        let sec_y: usize = (y - self.sections[i].y as isize * 16) as usize;
        match self.cell_state(i, x, sec_y, z, dv) {
            None => Some(air),
            Some(None) => None,
            Some(Some(p)) => {
                if p < self.sections[i].palette.len() {
                    Some(&self.sections[i].palette[p])
                } else {
                    None
                }
            },
        }
    }

    /// The palette index of a cell of the section at position `i`; `None` where the
    /// section has no block states.
    fn cell_state(&mut self, i: usize, x: usize, sec_y: usize, z: usize, dv: i32) -> (r: Option<Option<usize>>)
        requires
            old(self).wf(),
            i < old(self)@.len(),
            x < 16,
            sec_y < 16,
            z < 16,
        ensures
            final(self).wf(),
            final(self).same_shape(old(self)),
            r == match old(self)@[i as int].states {
                None => None,
                Some(words) => Some(
                    palette_index(words, old(self)@[i as int].palette.len(), dv, cell_index(x as int, sec_y as int, z as int)),
                ),
            },
            old(self)@[i as int].states is Some && block_bits(old(self)@[i as int].palette.len()) <= 16
                ==> final(self).cells_cached(i as int, dv),
    {
        let pal_len = self.sections[i].palette.len();
        let sec = &mut self.sections[i];
        let r = match &mut sec.block_states {
            None => None,
            Some(bs) => Some(bs.state(x, sec_y, z, pal_len, dv)),
        };
        assert(self@ =~= old(self)@);
        r
    }
}

} // verus!
