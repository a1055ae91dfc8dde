//! Block descriptors, and the chunk layout of the format before height maps were
//! expanded against a minimum section.
use vstd::prelude::*;
use vstd::string::*;

use crate::bits::{bits_per_block, block_bits, versioned_field, PackedBits, HEIGHT_BITS, SECTION_CELLS};
use crate::borrow::{be_u32, read_be_i32};
use vstd::slice::slice_subrange;
use std::collections::HashMap;

verus! {

broadcast use vstd::std_specs::hash::group_hash_axioms;

/// `a` comes before `b` in the order of their code points, a prefix first.
pub open spec fn chars_lt(a: Seq<char>, b: Seq<char>) -> bool
    decreases a.len(),
{
    if a.len() == 0 {
        b.len() > 0
    } else if b.len() == 0 {
        false
    } else if a[0] != b[0] {
        (a[0] as u32) < (b[0] as u32)
    } else {
        chars_lt(a.drop_first(), b.drop_first())
    }
}

/// Property pairs ordered by name, then by value.
pub open spec fn pair_le(p: (String, String), q: (String, String)) -> bool {
    chars_lt(p.0@, q.0@) || (p.0@ == q.0@ && !chars_lt(q.1@, p.1@))
}

pub open spec fn sorted_pairs(s: Seq<(String, String)>) -> bool {
    forall|i: int, j: int| 0 <= i < j < s.len() ==> pair_le(#[trigger] s[i], #[trigger] s[j])
}

/// The property that descriptors leave out of their canonical encoding.
pub open spec fn waterlogged() -> Seq<char> {
    "waterlogged"@
}

/// The properties that the canonical encoding keeps, in their order.
pub open spec fn kept(s: Seq<(String, String)>) -> Seq<(String, String)>
    decreases s.len(),
{
    if s.len() == 0 {
        Seq::empty()
    } else if s.last().0@ == waterlogged() {
        kept(s.drop_last())
    } else {
        kept(s.drop_last()).push(s.last())
    }
}

pub open spec fn prop_text(p: (String, String)) -> Seq<char> {
    p.0@ + seq!['='] + p.1@
}

/// `name=value` for each pair, separated by commas.
pub open spec fn joined(s: Seq<(String, String)>) -> Seq<char>
    decreases s.len(),
{
    if s.len() == 0 {
        Seq::empty()
    } else if s.len() == 1 {
        prop_text(s[0])
    } else {
        joined(s.drop_last()) + seq![','] + prop_text(s.last())
    }
}

/// Relies on `slice::sort`: the same pairs, in ascending order of the tuple's `Ord`,
/// which compares the names and then the values as strings, byte by byte.
#[verifier::external_body]
fn sort_pairs(v: &mut Vec<(String, String)>)
    ensures
        final(v)@.to_multiset() == old(v)@.to_multiset(),
        sorted_pairs(final(v)@),
{
    v.sort();
}

/// Whether two strings hold the same characters.
pub fn str_eq(a: &str, b: &str) -> (r: bool)
    ensures
        r == (a@ == b@),
{
    let n = a.unicode_len();
    if n != b.unicode_len() {
        return false;
    }
    let mut i: usize = 0;
    while i < n
        invariant
            n == a@.len(),
            n == b@.len(),
            i <= n,
            a@.subrange(0, i as int) == b@.subrange(0, i as int),
        decreases n - i,
    {
        if a.get_char(i) != b.get_char(i) {
            return false;
        }
        assert(a@.subrange(0, i + 1) =~= a@.subrange(0, i as int).push(a@[i as int]));
        assert(b@.subrange(0, i + 1) =~= b@.subrange(0, i as int).push(b@[i as int]));
        i = i + 1;
    }
    assert(a@ =~= a@.subrange(0, n as int));
    assert(b@ =~= b@.subrange(0, n as int));
    true
}

/// Blocks that a surface scan passes through.
pub open spec fn air_like(name: Seq<char>) -> bool {
    name == "minecraft:air"@ || name == "minecraft:cave_air"@
}

/// A block that stops a surface scan.
pub open spec fn solid(b: Option<Block>) -> bool {
    b matches Some(bl) && !air_like(bl.name@)
}

pub fn is_air_like(name: &str) -> (r: bool)
    ensures
        r == air_like(name@),
{
    str_eq(name, "minecraft:air") || str_eq(name, "minecraft:cave_air")
}

/// No two pairs share a name.
pub open spec fn distinct_names(s: Seq<(String, String)>) -> bool {
    forall|i: int, j: int| 0 <= i < j < s.len() ==> #[trigger] s[i].0@ != #[trigger] s[j].0@
}

/// A block: a namespaced name and its properties, as name and value pairs.
pub struct Block {
    pub name: String,
    pub properties: Vec<(String, String)>,
}

impl Block {
    /// Each property name occurs once, as in a map.
    pub open spec fn wf(&self) -> bool {
        distinct_names(self.properties@)
    }

    pub fn new(name: String, properties: Vec<(String, String)>) -> (r: Block)
        requires
            distinct_names(properties@),
        ensures
            r.name@ == name@,
            r.properties@ == properties@,
            r.wf(),
    {
        Block { name, properties }
    }

    pub fn name(&self) -> (r: &str)
        ensures
            r@ == self.name@,
    {
        self.name.as_str()
    }

    /// `name|prop1=val1,prop2=val2`, the properties in lexicographic order and
    /// `waterlogged` left out.
    pub fn encoded_description(&self) -> (r: String)
        ensures
            exists|ps: Seq<(String, String)>|
                sorted_pairs(ps) && ps.to_multiset() == kept(self.properties@).to_multiset() && r@
                    == self.name@ + seq!['|'] + joined(ps),
    {
        let w = "waterlogged";
        let mut props: Vec<(String, String)> = Vec::new();
        let mut i: usize = 0;
        while i < self.properties.len()
            invariant
                i <= self.properties@.len(),
                w@ == waterlogged(),
                props@ == kept(self.properties@.subrange(0, i as int)),
            decreases self.properties@.len() - i,
        {
            let ghost before = self.properties@.subrange(0, i as int);
            assert(self.properties@.subrange(0, i + 1).drop_last() =~= before);
            let p = &self.properties[i];
            if !str_eq(p.0.as_str(), w) {
                props.push((p.0.clone(), p.1.clone()));
            }
            i = i + 1;
        }
        assert(self.properties@.subrange(0, i as int) =~= self.properties@);
        sort_pairs(&mut props);
        let mut id = self.name.clone();
        id.append("|");
        let ghost head = id@;
        assert(head == self.name@ + seq!['|']) by {
            reveal_strlit("|");
        }
        let mut j: usize = 0;
        while j < props.len()
            invariant
                j <= props@.len(),
                id@ == head + joined(props@.subrange(0, j as int)),
            decreases props@.len() - j,
        {
            let ghost prefix = props@.subrange(0, j as int);
            assert(props@.subrange(0, j + 1).drop_last() =~= prefix);
            if j > 0 {
                id.append(",");
                proof {
                    reveal_strlit(",");
                }
            }
            id.append(props[j].0.as_str());
            id.append("=");
            proof {
                reveal_strlit("=");
            }
            id.append(props[j].1.as_str());
            assert(id@ =~= head + joined(props@.subrange(0, j + 1)));
            j = j + 1;
        }
        assert(props@.subrange(0, j as int) =~= props@);
        id
    }
}

/// The height maps that the game keeps up to date, packed nine bits per column.
pub struct Heightmaps {
    pub motion_blocking: Option<PackedBits>,
    pub motion_blocking_no_leaves: Option<PackedBits>,
    pub ocean_floor: Option<PackedBits>,
    pub world_surface: Option<PackedBits>,
}

impl Heightmaps {
    pub fn new(
        motion_blocking: Option<PackedBits>,
        motion_blocking_no_leaves: Option<PackedBits>,
        ocean_floor: Option<PackedBits>,
        world_surface: Option<PackedBits>,
    ) -> (r: Heightmaps)
        ensures
            r.motion_blocking == motion_blocking,
            r.motion_blocking_no_leaves == motion_blocking_no_leaves,
            r.ocean_floor == ocean_floor,
            r.world_surface == world_surface,
    {
        Heightmaps {
            motion_blocking,
            motion_blocking_no_leaves,
            ocean_floor,
            world_surface,
        }
    }
}

/// A vertical 16x16x16 section of a chunk.
pub struct Section {
    pub y: i8,
    pub block_states: Option<PackedBits>,
    pub palette: Vec<Block>,
}

impl Section {
    pub fn new(y: i8, block_states: Option<PackedBits>, palette: Vec<Block>) -> (r: Section)
        ensures
            r == (Section { y, block_states, palette }),
    {
        Section { y, block_states, palette }
    }
}

/// What a chunk holds.
pub struct Level {
    pub x_pos: i32,
    pub z_pos: i32,
    /// Biome codes as big-endian 32-bit integers.
    pub biomes: Option<Vec<u8>>,
    pub heightmaps: Option<Heightmaps>,
    /// Older chunks store one height per column here.
    pub old_heightmap: Option<Vec<i32>>,
    /// Absent when the chunk has not been generated properly yet.
    pub sections: Option<Vec<Section>>,
    /// Typically anything but `full` means the chunk is not fully generated.
    pub status: String,
}

/// The last of `secs` whose index is `key`.
pub open spec fn last_with_y(secs: Seq<Section>, key: i8) -> Option<int>
    decreases secs.len(),
{
    if secs.len() == 0 {
        None
    } else if secs.last().y == key {
        Some(secs.len() - 1)
    } else {
        last_with_y(secs.drop_last(), key)
    }
}

proof fn lemma_last_with_y_bounds(secs: Seq<Section>, key: i8)
    ensures
        last_with_y(secs, key) matches Some(i) ==> 0 <= i < secs.len() && secs[i].y == key,
    decreases secs.len(),
{
    if secs.len() > 0 && secs.last().y != key {
        lemma_last_with_y_bounds(secs.drop_last(), key);
    }
}

/// `m` maps each section index to the position of the last section with it.
pub open spec fn indexes_sections(m: Map<i8, usize>, secs: Seq<Section>) -> bool {
    forall|k: i8|
        #[trigger] m.contains_key(k) == (last_with_y(secs, k) is Some) && (m.contains_key(k) ==> m[k]
            == last_with_y(secs, k)->0 as usize)
}

/// A chunk. Its section index, unpacked block states and unpacked height map are
/// worked out on first use and kept; the chunk has a single owner.
pub struct Chunk {
    data_version: i32,
    level: Level,
    sec_map: HashMap<i8, usize>,
    sec_map_ready: bool,
    unpacked_states: Vec<Option<Vec<u16>>>,
    unpacked_motion_blocking: Option<Vec<u16>>,
    air: Block,
}

impl Chunk {
    pub fn new(data_version: i32, level: Level) -> (r: Chunk)
        ensures
            r.wf(),
            r.spec_data_version() == data_version,
            r.spec_level() == level,
    {
        let n: usize = match &level.sections {
            Some(s) => s.len(),
            None => 0,
        };
        let mut unpacked_states: Vec<Option<Vec<u16>>> = Vec::new();
        while unpacked_states.len() < n
            invariant
                unpacked_states@.len() <= n,
                forall|i: int| 0 <= i < unpacked_states@.len() ==> #[trigger] unpacked_states@[i] is None,
            decreases n - unpacked_states@.len(),
        {
            unpacked_states.push(None);
        }
        let air = Block::new(String::from_str("minecraft:air"), Vec::new());
        Chunk { data_version, level, sec_map: HashMap::new(), sec_map_ready: false, unpacked_states, unpacked_motion_blocking: None, air }
    }

    pub closed spec fn spec_data_version(&self) -> i32 {
        self.data_version
    }

    pub closed spec fn spec_level(&self) -> Level {
        self.level
    }

    pub open spec fn secs(&self) -> Seq<Section> {
        match self.spec_level().sections {
            Some(s) => s@,
            None => Seq::empty(),
        }
    }

    pub closed spec fn wf(&self) -> bool {
        &&& self.air.name@ == "minecraft:air"@ && self.air.properties@.len() == 0
        &&& self.unpacked_states@.len() == self.secs().len()
        &&& forall|i: int| 0 <= i < self.secs().len() && (#[trigger] self.unpacked_states@[i]) is Some ==> {
            let s = self.secs()[i];
            &&& s.block_states is Some
            &&& block_bits(s.palette@.len()) <= 16
            &&& self.unpacked_states@[i]->0@.len() == SECTION_CELLS
            &&& forall|c: int| 0 <= c < SECTION_CELLS ==> (#[trigger] self.unpacked_states@[i]->0@[c]) as u64
                == versioned_field(s.block_states->0@, block_bits(s.palette@.len()) as u64, c, self.data_version)
        }
        &&& self.sec_map_ready ==> indexes_sections(self.sec_map@, self.secs())
        &&& self.unpacked_motion_blocking matches Some(h) ==> h@.len() == 256
    }

    /// The block that fills a section stored without block states.
    pub closed spec fn air_block(&self) -> Block {
        self.air
    }

    /// A well-formed chunk holds an air block without properties.
    pub proof fn lemma_wf(&self)
        requires
            self.wf(),
        ensures
            self.air_block().name@ == "minecraft:air"@,
            self.air_block().properties@.len() == 0,
    {
    }

    /// The cells of the section at position `i` are kept unpacked.
    pub closed spec fn cells_cached(&self, i: int) -> bool {
        0 <= i < self.unpacked_states@.len() && self.unpacked_states@[i] is Some
    }

    /// Both chunks hold the same data; only what they have cached may differ.
    pub closed spec fn same_as(&self, o: &Chunk) -> bool {
        self.data_version == o.data_version && self.level == o.level && self.air == o.air
    }

    /// The section holding height `y`: the last one whose index is `y / 16`. Heights
    /// whose index does not fit a section index find none.
    pub open spec fn section_for(&self, y: int) -> Option<int> {
        if self.secs().len() == 0 || y / 16 > 127 {
            None
        } else {
            last_with_y(self.secs(), (y / 16) as i8)
        }
    }

    /// The block at `(x, y, z)`: air throughout a section stored without block
    /// states, else the palette entry that the cell's packed index names.
    pub open spec fn block_spec(&self, x: int, y: int, z: int) -> Option<Block> {
        match self.section_for(y) {
            None => None,
            Some(i) => {
                let s = self.secs()[i];
                if s.y < 0 || 16 * s.y > y || y - 16 * s.y >= 16 {
                    None
                } else {
                    match s.block_states {
                        None => Some(self.air_block()),
                        Some(p) => if block_bits(s.palette@.len()) <= 16 {
                            let idx = versioned_field(
                                p@,
                                block_bits(s.palette@.len()) as u64,
                                (((y - 16 * s.y) * 16 + z) * 16 + x),
                                self.spec_data_version(),
                            );
                            if idx < s.palette@.len() {
                                Some(s.palette@[idx as int])
                            } else {
                                None
                            }
                        } else {
                            None
                        },
                    }
                }
            },
        }
    }

    /// Records, for each section index, the position of the last section with it.
    fn calculate_sec_map(&mut self)
        requires
            old(self).wf(),
        ensures
            final(self).wf(),
            final(self).same_as(old(self)),
            final(self).sec_map_ready,
            final(self).unpacked_motion_blocking == old(self).unpacked_motion_blocking,
    {
        let mut map: HashMap<i8, usize> = HashMap::new();
        let n: usize = match &self.level.sections {
            Some(s) => s.len(),
            None => 0,
        };
        assert(self.secs().take(0) =~= Seq::<Section>::empty());
        let mut i: usize = 0;
        while i < n
            invariant
                self.wf(),
                n == self.secs().len(),
                i <= n,
                indexes_sections(map@, self.secs().take(i as int)),
            decreases n - i,
        {
            let y = match &self.level.sections {
                Some(s) => s[i].y,
                None => 0,
            };
            map.insert(y, i);
            proof {
                let t = self.secs().take(i + 1);
                assert(t.drop_last() =~= self.secs().take(i as int));
                assert forall|k: i8| #[trigger] map@.contains_key(k) == (last_with_y(t, k) is Some) && (map@.contains_key(k)
                    ==> map@[k] == last_with_y(t, k)->0 as usize) by {
                    if k != y {
                        assert(last_with_y(t, k) == last_with_y(self.secs().take(i as int), k));
                    }
                }
            }
            i = i + 1;
        }
        assert(self.secs().take(n as int) =~= self.secs());
        self.sec_map = map;
        self.sec_map_ready = true;
    }

    /// Position of the section holding height `y`, if there is one.
    fn get_section_for_y(&mut self, y: usize) -> (r: Option<usize>)
        requires
            old(self).wf(),
        ensures
            final(self).wf(),
            final(self).same_as(old(self)),
            final(self).unpacked_motion_blocking == old(self).unpacked_motion_blocking,
            r == match old(self).section_for(y as int) {
                Some(i) => Some(i as usize),
                None => None::<usize>,
            },
    {
        let n: usize = match &self.level.sections {
            Some(s) => s.len(),
            None => 0,
        };
        if n == 0 {
            return None;
        }
        if !self.sec_map_ready {
            self.calculate_sec_map();
        }
        if y / 16 > 127 {
            return None;
        }
        let key = (y / 16) as i8;
        match self.sec_map.get(&key) {
            Some(i) => Some(*i),
            None => None,
        }
    }

    /// The block at `(x, y, z)`, or `None` where the chunk holds no block there.
    pub fn block(&mut self, x: usize, y: usize, z: usize) -> (r: Option<&Block>)
        requires
            old(self).wf(),
            x < 16,
            z < 16,
        ensures
            final(self).wf(),
            final(self).same_as(old(self)),
            final(self).cached_heights() == old(self).cached_heights(),
            r matches Some(b) ==> old(self).block_spec(x as int, y as int, z as int) == Some(*b),
            r is None ==> old(self).block_spec(x as int, y as int, z as int) is None,
            old(self).reads_cells(y as int) ==> final(self).cells_cached(old(self).section_for(y as int)->0),
    {
        let found = self.get_section_for_y(y);
        assert(found == match old(self).section_for(y as int) {
            Some(j) => Some(j as usize),
            None => None::<usize>,
        });
        let i = match found {
            Some(i) => i,
            None => return None,
        };
        assert(old(self).section_for(y as int) is Some);
        let sections = match &self.level.sections {
            Some(s) => s,
            None => return None,
        };
        proof {
            let key = ((y as int) / 16) as i8;
            lemma_last_with_y_bounds(old(self).secs(), key);
            assert(self.secs() == old(self).secs());
            assert(old(self).secs().len() > 0);
            assert(old(self).section_for(y as int) == last_with_y(old(self).secs(), key));
            let j = old(self).section_for(y as int)->0;
            assert(old(self).secs() == sections@);
            assert(sections@.len() == sections.len());
            assert(0 <= j < old(self).secs().len());
            assert(j as usize == i);
            assert(old(self).section_for(y as int) == Some(i as int));
        }
        let sec_y_signed = sections[i].y;
        assert(sections@[i as int] == old(self).secs()[i as int]);
        if sec_y_signed < 0 || (sec_y_signed as usize) * 16 > y || y - (sec_y_signed as usize) * 16 >= 16 {
            return None;
        }
        let sec_y = y - (sec_y_signed as usize) * 16;
        let pal_len = sections[i].palette.len();
        let bits = bits_per_block(pal_len);
        if sections[i].block_states.is_none() {
            return Some(&self.air);
        }
        if bits > 16 {
            return None;
        }
        if self.unpacked_states[i].is_none() {
            let cells = match &sections[i].block_states {
                Some(p) => p.unpack_blockstates(bits as u64, self.data_version),
                None => Vec::new(),
            };
            self.unpacked_states.set(i, Some(cells));
        }
        let c: usize = (sec_y * 16 + z) * 16 + x;
        let idx = match &self.unpacked_states[i] {
            Some(cells) => cells[c] as usize,
            None => return None,
        };
        match &self.level.sections {
            Some(s) => if idx < s[i].palette.len() {
                Some(&s[i].palette[idx])
            } else {
                None
            },
            None => None,
        }
    }

    /// Queries leave a chunk holding the same data, and chunks that hold the same
    /// data agree on every block and biome: asking again gives the same answer.
    pub proof fn lemma_same_as_agrees(&self, o: &Chunk)
        requires
            self.same_as(o),
        ensures
            forall|x: int, y: int, z: int| #[trigger] self.block_spec(x, y, z) == o.block_spec(x, y, z),
            forall|x: int, y: int, z: int| #[trigger] self.biome_spec(x, y, z) == o.biome_spec(x, y, z),
            self.spec_level() == o.spec_level(),
            self.spec_data_version() == o.spec_data_version(),
            self.air_block() == o.air_block(),
            o.same_as(self),
    {
    }

    pub closed spec fn cached_heights(&self) -> Option<Seq<u16>> {
        match self.unpacked_motion_blocking {
            Some(h) => Some(h@),
            None => None,
        }
    }

    /// The height of column `(x, z)` that the chunk records: the kept height map,
    /// else the stored height map unpacked, else the per-column heights of older
    /// chunks.
    pub open spec fn height_spec(&self, x: int, z: int) -> Option<usize> {
        match self.spec_level().heightmaps {
            Some(hm) => match self.cached_heights() {
                Some(h) => Some(h[z * 16 + x] as usize),
                None => match hm.motion_blocking {
                    Some(p) => Some(versioned_field(p@, HEIGHT_BITS, z * 16 + x, self.spec_data_version()) as usize),
                    None => None,
                },
            },
            None => match self.spec_level().old_heightmap {
                Some(v) => if z * 16 + x < v@.len() {
                    Some(v@[z * 16 + x] as usize)
                } else {
                    None
                },
                None => None,
            },
        }
    }

    pub fn height_of(&mut self, x: usize, z: usize) -> (r: Option<usize>)
        requires
            old(self).wf(),
            x < 16,
            z < 16,
        ensures
            final(self).wf(),
            final(self).same_as(old(self)),
            r == old(self).height_spec(x as int, z as int),
            old(self).cached_heights() is Some ==> final(self).cached_heights() == old(self).cached_heights(),
            forall|a: int, c: int| 0 <= a < 16 && 0 <= c < 16 ==> #[trigger] final(self).height_spec(a, c) == old(self).height_spec(a, c),
            old(self).stores_heights() ==> final(self).cached_heights() is Some,
    {
        let i = z * 16 + x;
        match &self.level.heightmaps {
            Some(hm) => {
                if self.unpacked_motion_blocking.is_none() {
                    match &hm.motion_blocking {
                        Some(p) => {
                            let cells = p.unpack(HEIGHT_BITS, 256, self.data_version);
                            self.unpacked_motion_blocking = Some(cells);
                        },
                        None => return None,
                    }
                }
                match &self.unpacked_motion_blocking {
                    Some(h) => Some(h[i] as usize),
                    None => None,
                }
            },
            None => match &self.level.old_heightmap {
                Some(v) => if i < v.len() {
                    Some(v[i] as usize)
                } else {
                    None
                },
                None => None,
            },
        }
    }

    /// The chunk has a packed height map to unpack.
    pub open spec fn stores_heights(&self) -> bool {
        match self.spec_level().heightmaps {
            Some(hm) => hm.motion_blocking is Some,
            None => false,
        }
    }

    /// A lookup at height `y` reads the unpacked cells of a section.
    pub open spec fn reads_cells(&self, y: int) -> bool {
        match self.section_for(y) {
            Some(i) => {
                let s = self.secs()[i];
                &&& !(s.y < 0 || 16 * s.y > y || y - 16 * s.y >= 16)
                &&& s.block_states is Some
                &&& block_bits(s.palette@.len()) <= 16
            },
            None => false,
        }
    }

    /// The biome code of the chunk at `(x, y, z)`, `y` clamped into 0..256.
    pub open spec fn biome_spec(&self, x: int, y: int, z: int) -> Option<i32> {
        match self.spec_level().biomes {
            Some(b) => if b@.len() == 4096 {
                let ys = if y > 255 {
                    255
                } else {
                    y
                };
                let i = 4 * ((z / 4) * 4 + x / 4 + (ys / 4) * 16);
                Some(be_u32(b@.subrange(i, i + 4)) as i32)
            } else if b@.len() == 1024 {
                let i = 4 * (z * 16 + x);
                Some(be_u32(b@.subrange(i, i + 4)) as i32)
            } else {
                None
            },
            None => None,
        }
    }

    /// The biome code at `(x, y, z)`: 4096 bytes hold one code per 4x4x4 cube,
    /// `y` clamped into the span 0..256; 1024 bytes hold one per column. Mapping
    /// the code to a biome is the caller's part.
    pub fn biome_of(&self, x: usize, y: usize, z: usize) -> (r: Option<i32>)
        requires
            x < 16,
            z < 16,
        ensures
            r == self.biome_spec(x as int, y as int, z as int),
    {
        let biomes = match &self.level.biomes {
            Some(b) => b,
            None => return None,
        };
        let i: usize = if biomes.len() == 4096 {
            let ys: usize = if y > 255 {
                255
            } else {
                y
            };
            4 * ((z / 4) * 4 + x / 4 + (ys / 4) * 16)
        } else if biomes.len() == 1024 {
            4 * (z * 16 + x)
        } else {
            return None;
        };
        let bytes = slice_subrange(biomes.as_slice(), i, i + 4);
        assert(bytes@.subrange(0, 4) =~= biomes@.subrange(i as int, i + 4));
        Some(read_be_i32(bytes))
    }

    /// `v` is one above the highest solid block of column `(x, z)` between heights
    /// 0 and 255, or 0 when it has none there.
    pub open spec fn scanned_height(&self, x: int, z: int, v: int) -> bool {
        ||| exists|y: int|
            0 <= y < 256 && solid(#[trigger] self.block_spec(x, y, z)) && v == y + 1 && forall|y2: int|
                y < y2 < 256 ==> !solid(#[trigger] self.block_spec(x, y2, z))
        ||| v == 0 && forall|y: int| 0 <= y < 256 ==> !solid(#[trigger] self.block_spec(x, y, z))
    }

    /// Scans every column from the top for its highest solid block and keeps the
    /// result as the height map, when the chunk has height maps.
    pub fn recalculate_heightmap(&mut self)
        requires
            old(self).wf(),
        ensures
            final(self).wf(),
            final(self).same_as(old(self)),
            old(self).spec_level().heightmaps is None ==> final(self).cached_heights() == old(self).cached_heights(),
            old(self).spec_level().heightmaps is Some ==> (final(self).cached_heights() matches Some(h) && h.len() == 256
                && forall|x: int, z: int| 0 <= x < 16 && 0 <= z < 16 ==> old(self).scanned_height(x, z, #[trigger] h[z * 16 + x] as int)),
    {
        let ghost orig = *self;
        let mut map: Vec<u16> = Vec::new();
        let mut c: usize = 0;
        while c < 256
            invariant
                self.wf(),
                self.same_as(&orig),
                self.cached_heights() == orig.cached_heights(),
                c <= 256,
                map@.len() == c,
                forall|k: int| 0 <= k < c ==> orig.scanned_height(k % 16, k / 16, #[trigger] map@[k] as int),
            decreases 256 - c,
        {
            let x: usize = c % 16;
            let z: usize = c / 16;
            let mut y: usize = 256;
            let mut h: u16 = 0;
            let mut found = false;
            while !found && y > 0
                invariant
                    self.wf(),
                    self.same_as(&orig),
                    self.cached_heights() == orig.cached_heights(),
                    x < 16,
                    z < 16,
                    0 <= y <= 256,
                    !found ==> h == 0 && forall|y2: int| y <= y2 < 256 ==> !solid(#[trigger] orig.block_spec(x as int, y2, z as int)),
                    found ==> 0 < y && h == y && solid(orig.block_spec(x as int, y - 1, z as int))
                        && forall|y2: int| y - 1 < y2 < 256 ==> !solid(#[trigger] orig.block_spec(x as int, y2, z as int)),
                decreases y, if found { 0int } else { 1int },
            {
                assert(forall|a: int, b: int, d: int| #[trigger] self.block_spec(a, b, d) == orig.block_spec(a, b, d));
                let hit = match self.block(x, y - 1, z) {
                    Some(b) => !is_air_like(b.name()),
                    None => false,
                };
                if hit {
                    h = y as u16;
                    found = true;
                } else {
                    y = y - 1;
                }
            }
            proof {
                if found {
                    assert(orig.scanned_height(x as int, z as int, h as int));
                } else {
                    assert(orig.scanned_height(x as int, z as int, 0));
                }
                assert(c as int % 16 == x && c as int / 16 == z);
            }
            map.push(h);
            c = c + 1;
        }
        proof {
            assert forall|x: int, z: int| 0 <= x < 16 && 0 <= z < 16 implies orig.scanned_height(x, z, #[trigger] map@[z * 16 + x] as int) by {
                let k = z * 16 + x;
                assert(k % 16 == x && k / 16 == z);
                assert(orig.scanned_height(k % 16, k / 16, map@[k] as int));
            }
        }
        if self.level.heightmaps.is_some() {
            self.unpacked_motion_blocking = Some(map);
        }
    }
}

} // verus!
