use fastanvil_core::bits::{bits_per_block, PackedBits};

fn pattern(n: usize, len: usize) -> Vec<u16> {
    (0..n).map(|i| ((i * 7 + i / 3) % len) as u16).collect()
}

/// Lays fields end to end, letting a field run on into the next word.
fn pack_compact(values: &[u16], b: usize) -> Vec<u64> {
    let total = values.len() * b;
    let mut words = vec![0u64; (total + 63) / 64];
    for (i, v) in values.iter().enumerate() {
        let p = i * b;
        let (j, off) = (p / 64, p % 64);
        words[j] |= (*v as u64) << off;
        if off + b > 64 {
            words[j + 1] |= (*v as u64) >> (64 - off);
        }
    }
    words
}

#[test]
fn bits_per_block_has_a_floor_of_four() {
    assert_eq!(bits_per_block(0), 4);
    assert_eq!(bits_per_block(1), 4);
    assert_eq!(bits_per_block(2), 4);
    assert_eq!(bits_per_block(16), 4);
    assert_eq!(bits_per_block(17), 5);
    assert_eq!(bits_per_block(256), 8);
    assert_eq!(bits_per_block(257), 9);
}

#[test]
fn padded_round_trip_for_several_palette_sizes() {
    for len in [1usize, 2, 16, 17, 256] {
        let b = bits_per_block(len) as u64;
        let values = pattern(4096, len);
        let packed = PackedBits::pack_padded(&values, b);
        assert_eq!(packed.words.len(), (4096 + (64 / b as usize) - 1) / (64 / b as usize));
        let back = packed.unpack_blockstates(b, 2730);
        assert_eq!(back, values, "palette length {}", len);
    }
}

#[test]
fn compact_round_trip_for_several_palette_sizes() {
    for len in [1usize, 2, 16, 17, 256] {
        let b = bits_per_block(len);
        let values = pattern(4096, len);
        let packed = PackedBits::pack_compact(&values, b as u64);
        assert_eq!(packed.words, pack_compact(&values, b));
        let back = packed.unpack_blockstates(b as u64, 2000);
        assert_eq!(back, values, "palette length {}", len);
    }
}

#[test]
fn padded_words_leave_the_top_bits_unused() {
    // five bits per field: twelve fields to a word, four bits left over
    let values: Vec<u16> = (0..13).map(|i| i as u16 + 1).collect();
    let packed = PackedBits::pack_padded(&values, 5);
    assert_eq!(packed.words.len(), 2);
    assert_eq!(packed.words[1], 13);
    assert_eq!(packed.words[0] & 0x1f, 1);
    assert_eq!(packed.words[0] >> 60, 0);
}

#[test]
fn compact_fields_straddle_words() {
    // the thirteenth five-bit field starts at bit 60 and runs into the next word
    let mut values = vec![0u16; 14];
    values[12] = 0b10111;
    let words = pack_compact(&values, 5);
    let packed = PackedBits::new(words);
    let back = packed.unpack(5, 14, 1976);
    assert_eq!(back[12], 0b10111);
    let padded = packed.unpack(5, 14, 2730);
    assert_ne!(padded[12], 0b10111);
}

#[test]
fn missing_words_read_as_zero() {
    let packed = PackedBits::new(vec![u64::MAX]);
    let back = packed.unpack(4, 20, 2730);
    assert_eq!(&back[..16], &[15u16; 16][..]);
    assert_eq!(&back[16..], &[0u16; 4][..]);
}

#[test]
fn heightmap_is_counted_from_the_bottom() {
    let heights: Vec<u16> = (0..256).map(|i| (i * 2) as u16).collect();
    let packed = PackedBits::pack_padded(&heights, 9);
    let expanded = packed.expand_heightmap(-64, 2730);
    assert_eq!(expanded.len(), 256);
    assert_eq!(expanded[0], -64);
    assert_eq!(expanded[255], 510 - 64);
    let compact = PackedBits::new(pack_compact(&heights, 9));
    let old = compact.expand_heightmap(0, 2000);
    assert_eq!(old[100], 200);
}
