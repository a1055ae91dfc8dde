use fastanvil_core::bits::{bits_per_block, PackedBits};
use fastanvil_core::pre18::{
    HeightMode, JavaChunk, Level, Pre18Blockstates, Pre18Section, SectionTower,
};
use fastanvil_core::types::{Block, Chunk, Heightmaps, Section};

fn block(name: &str) -> Block {
    Block::new(name.to_string(), Vec::new())
}

fn air_section(y: i8) -> Pre18Section {
    Pre18Section::new(y, None, vec![block("minecraft:air")])
}

/// One section at index 0: stone everywhere but the column (0, 0), which is air.
fn stone_section() -> Pre18Section {
    let palette = vec![block("minecraft:air"), block("minecraft:stone")];
    let b = bits_per_block(palette.len()) as u64;
    let mut cells = vec![1u16; 4096];
    for y in 0..16 {
        cells[y * 256] = 0;
    }
    let packed = PackedBits::pack_padded(&cells, b);
    Pre18Section::new(0, Some(Pre18Blockstates::new(packed)), palette)
}

fn java_chunk(sections: Vec<Pre18Section>, biomes: Option<Vec<i32>>, heightmaps: Option<Heightmaps>) -> JavaChunk {
    let tower = SectionTower::new(sections);
    let level = Level::new(3, -7, biomes, Some(tower), heightmaps, "full".to_string());
    JavaChunk::new(2730, level)
}

#[test]
fn tower_resolves_heights_to_sections() {
    let tower = SectionTower::new(vec![air_section(-4), air_section(0), air_section(3)]);
    assert_eq!(tower.y_min(), -64);
    assert_eq!(tower.y_max(), 64);
    for y in -64..-48 {
        assert_eq!(tower.get_section_for_y(y), Some(0));
    }
    for y in 0..16 {
        assert_eq!(tower.get_section_for_y(y), Some(1));
    }
    for y in 48..64 {
        assert_eq!(tower.get_section_for_y(y), Some(2));
    }
    for y in [-65, -48, -1, 16, 47, 64, 100] {
        assert_eq!(tower.get_section_for_y(y), None, "y = {}", y);
    }
}

#[test]
fn tower_skips_terminators() {
    let terminator = Pre18Section::new(5, None, Vec::new());
    assert!(terminator.is_terminator());
    assert!(!air_section(1).is_terminator());
    let tower = SectionTower::new(vec![air_section(1), terminator]);
    assert_eq!(tower.sections().len(), 1);
    assert_eq!(tower.y_min(), 16);
    assert_eq!(tower.y_max(), 32);
    assert_eq!(tower.get_section_for_y(80), None);
}

#[test]
fn synthetic_chunk_end_to_end() {
    let mut chunk = java_chunk(vec![stone_section()], None, None);
    let top = chunk.y_range().end;
    assert_eq!(chunk.y_range(), 0..16);
    assert_eq!(chunk.block(0, top - 1, 0).map(|b| b.name.clone()), Some("minecraft:air".to_string()));
    let h = chunk.surface_height(0, 0, HeightMode::Calculate);
    assert!(h < top);
    assert_eq!(h, 0);
    for y in 0..16 {
        let b = chunk.block(1, y, 1).unwrap();
        assert_eq!(b.name, "minecraft:stone");
        assert_eq!(b.encoded_description(), "minecraft:stone|");
    }
    assert_eq!(chunk.surface_height(1, 1, HeightMode::Calculate), 16);
    assert!(chunk.block(1, 16, 1).is_none());
    assert!(chunk.block(1, -1, 1).is_none());
}

#[test]
fn repeated_queries_agree() {
    let mut chunk = java_chunk(vec![stone_section()], Some(vec![7; 1024]), None);
    let first = chunk.block(5, 9, 2).map(|b| b.name.clone());
    let second = chunk.block(5, 9, 2).map(|b| b.name.clone());
    assert_eq!(first, second);
    assert_eq!(chunk.biome(3, 4, 5), chunk.biome(3, 4, 5));
    let h1 = chunk.surface_height(4, 4, HeightMode::Calculate);
    let h2 = chunk.surface_height(4, 4, HeightMode::Trust);
    assert_eq!(h1, h2);
    assert_eq!(h1, 16);
}

#[test]
fn section_without_states_is_air() {
    let mut chunk = java_chunk(vec![air_section(2)], None, None);
    let b = chunk.block(3, 40, 3).unwrap();
    assert_eq!(b.name, "minecraft:air");
    assert!(b.properties.is_empty());
    assert!(chunk.block(3, 20, 3).is_none());
    assert_eq!(chunk.surface_height(3, 3, HeightMode::Calculate), 0);
}

#[test]
fn trusted_heights_use_the_stored_map() {
    let heights: Vec<u16> = (0..256).map(|i| (i % 50) as u16).collect();
    let packed = PackedBits::pack_padded(&heights, 9);
    let hm = Heightmaps::new(Some(packed), None, None, None);
    let mut chunk = java_chunk(vec![air_section(-4), stone_section()], None, Some(hm));
    // the stored value counts up from the lowest section, at -64
    assert_eq!(chunk.surface_height(3, 1, HeightMode::Trust), (19 % 50) as isize - 64);
}

#[test]
fn calculated_heights_ignore_the_stored_map() {
    let heights: Vec<u16> = vec![5; 256];
    let packed = PackedBits::pack_padded(&heights, 9);
    let hm = Heightmaps::new(Some(packed), None, None, None);
    let mut chunk = java_chunk(vec![stone_section()], None, Some(hm));
    assert_eq!(chunk.surface_height(2, 2, HeightMode::Calculate), 16);
}

#[test]
fn column_biomes_and_cube_biomes() {
    let per_column: Vec<i32> = (0..256).collect();
    let chunk = java_chunk(vec![stone_section()], Some(per_column), None);
    assert_eq!(chunk.biome(3, 100, 2), Some(35));

    let cubes: Vec<i32> = (0..1024).collect();
    let chunk = java_chunk(vec![stone_section()], Some(cubes), None);
    // x 5, z 9: (9/4)*4 + 5/4 = 9; y 7 in the span 0..16: (7/4)*16 = 16
    assert_eq!(chunk.biome(5, 7, 9), Some(25));
    // y above the span is clamped to 15
    assert_eq!(chunk.biome(5, 300, 9), Some(9 + 3 * 16));
    // y below the span is clamped to 0
    assert_eq!(chunk.biome(5, -300, 9), Some(9));
    assert_eq!(chunk.status(), "full");
}

#[test]
fn door_description_drops_waterlogged() {
    let door = Block::new(
        "minecraft:door".to_string(),
        vec![
            ("waterlogged".to_string(), "true".to_string()),
            ("facing".to_string(), "north".to_string()),
        ],
    );
    assert_eq!(door.encoded_description(), "minecraft:door|facing=north");
}

#[test]
fn description_orders_properties() {
    let stairs = Block::new(
        "minecraft:oak_stairs".to_string(),
        vec![
            ("shape".to_string(), "straight".to_string()),
            ("half".to_string(), "bottom".to_string()),
            ("facing".to_string(), "east".to_string()),
        ],
    );
    assert_eq!(
        stairs.encoded_description(),
        "minecraft:oak_stairs|facing=east,half=bottom,shape=straight"
    );
    assert_eq!(stairs.name(), "minecraft:oak_stairs");
}

fn old_chunk(sections: Vec<Section>, biomes: Option<Vec<u8>>, heightmaps: Option<Heightmaps>, old_heightmap: Option<Vec<i32>>) -> Chunk {
    let level = fastanvil_core::types::Level {
        x_pos: 0,
        z_pos: 0,
        biomes,
        heightmaps,
        old_heightmap,
        sections: Some(sections),
        status: "full".to_string(),
    };
    Chunk::new(2730, level)
}

fn old_stone_section(y: i8) -> Section {
    let palette = vec![block("minecraft:air"), block("minecraft:stone")];
    let mut cells = vec![1u16; 4096];
    for yy in 0..16 {
        cells[yy * 256] = 0;
    }
    Section::new(y, Some(PackedBits::pack_padded(&cells, 4)), palette)
}

#[test]
fn old_layout_blocks() {
    let mut chunk = old_chunk(vec![old_stone_section(1)], None, None, None);
    assert_eq!(chunk.block(0, 20, 0).unwrap().name, "minecraft:air");
    assert_eq!(chunk.block(1, 20, 1).unwrap().name, "minecraft:stone");
    assert_eq!(chunk.block(1, 20, 1).unwrap().name, "minecraft:stone");
    assert!(chunk.block(1, 5, 1).is_none());
    assert!(chunk.block(1, 40, 1).is_none());
}

#[test]
fn old_layout_heights() {
    let mut chunk = old_chunk(vec![old_stone_section(0)], None, None, Some((0..256).collect()));
    assert_eq!(chunk.height_of(2, 1), Some(18));

    let packed = PackedBits::pack_padded(&vec![77u16; 256], 9);
    let hm = Heightmaps::new(Some(packed), None, None, None);
    let mut chunk = old_chunk(vec![old_stone_section(0)], None, Some(hm), None);
    assert_eq!(chunk.height_of(4, 4), Some(77));
    chunk.recalculate_heightmap();
    assert_eq!(chunk.height_of(4, 4), Some(16));
    assert_eq!(chunk.height_of(0, 0), Some(0));
}

#[test]
fn old_layout_biomes() {
    let mut bytes = vec![0u8; 1024];
    bytes[4 * 35 + 3] = 6;
    let chunk = old_chunk(vec![], Some(bytes), None, None);
    assert_eq!(chunk.biome_of(3, 0, 2), Some(6));
    assert_eq!(chunk.biome_of(4, 0, 2), Some(0));

    let mut bytes = vec![0u8; 4096];
    bytes[4 * 9] = 0xff;
    bytes[4 * 9 + 1] = 0xff;
    bytes[4 * 9 + 2] = 0xff;
    bytes[4 * 9 + 3] = 0xff;
    let chunk = old_chunk(vec![], Some(bytes), None, None);
    assert_eq!(chunk.biome_of(5, 0, 9), Some(-1));

    let chunk = old_chunk(vec![], Some(vec![0u8; 12]), None, None);
    assert_eq!(chunk.biome_of(0, 0, 0), None);
}

#[test]
fn tower_span_and_lookups_in_a_chunk() {
    let named = |y: i8, name: &str| {
        let packed = PackedBits::pack_padded(&vec![0u16; 4096], 4);
        Pre18Section::new(y, Some(Pre18Blockstates::new(packed)), vec![block(name)])
    };
    let mut chunk = java_chunk(vec![named(-4, "s-4"), named(0, "s0"), named(3, "s3")], None, None);
    assert_eq!(chunk.y_range(), -64..64);
    assert_eq!(chunk.block(2, -60, 2).unwrap().name, "s-4");
    assert_eq!(chunk.block(2, 5, 2).unwrap().name, "s0");
    assert_eq!(chunk.block(2, 63, 2).unwrap().name, "s3");
    for y in [-65, -48, -1, 16, 47, 64] {
        assert!(chunk.block(2, y, 2).is_none(), "y = {}", y);
    }
}

#[test]
fn cube_biomes_without_sections_give_none() {
    let level = Level::new(0, 0, Some(vec![4; 1024]), None, None, "empty".to_string());
    let chunk = JavaChunk::new(2730, level);
    assert_eq!(chunk.y_range(), 0..0);
    assert_eq!(chunk.biome(1, 0, 1), None);
    let level = Level::new(0, 0, Some(vec![4; 256]), None, None, "empty".to_string());
    let chunk = JavaChunk::new(2730, level);
    assert_eq!(chunk.biome(1, 0, 1), Some(4));
}

#[test]
fn old_layout_heights_reach_the_bottom() {
    let palette = vec![block("minecraft:air"), block("minecraft:stone")];
    let mut cells = vec![0u16; 4096];
    cells[16 + 1] = 1;
    let section = Section::new(0, Some(PackedBits::pack_padded(&cells, 4)), palette);
    let hm = Heightmaps::new(None, None, None, None);
    let mut chunk = old_chunk(vec![section], None, Some(hm), None);
    chunk.recalculate_heightmap();
    assert_eq!(chunk.height_of(1, 1), Some(1));
    assert_eq!(chunk.height_of(2, 2), Some(0));
}

#[test]
fn old_layout_high_heights_miss() {
    let mut chunk = old_chunk(vec![old_stone_section(-4), old_stone_section(0)], None, None, None);
    assert!(chunk.block(1, 4040, 1).is_none());
    assert_eq!(chunk.block(1, 3, 1).unwrap().name, "minecraft:stone");
}

#[test]
fn old_layout_cube_biomes_use_height() {
    let mut bytes = vec![0u8; 4096];
    // x 5, z 9, y 20: 9 + (20 / 4) * 16 = 89
    bytes[4 * 89 + 3] = 11;
    // y above the span is clamped to 255: 9 + 63 * 16 = 1017
    bytes[4 * 1017 + 3] = 12;
    let chunk = old_chunk(vec![], Some(bytes), None, None);
    assert_eq!(chunk.biome_of(5, 20, 9), Some(11));
    assert_eq!(chunk.biome_of(5, 0, 9), Some(0));
    assert_eq!(chunk.biome_of(5, 9000, 9), Some(12));
}
