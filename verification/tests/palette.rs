use arnis::block::{Block, AIR, DIRT, STONE};
use arnis::chunk::ChunkToModify;
use arnis::palette::{bits_for, build_palette, encode_section, pack_indices, to_signed};
use arnis::region::RegionToModify;
use arnis::section::SectionToModify;
use arnis::sign::{quote_line, sign_entity};
use arnis::nbt::NbtValue;
use arnis::world::WorldToModify;

fn unpack(data: &[i64], bits: usize, i: usize) -> usize {
    let per = 64 / bits;
    (((data[i / per] as u64) >> ((i % per) * bits)) & ((1u64 << bits) - 1)) as usize
}

#[test]
fn section_index_formula() {
    assert_eq!(SectionToModify::index(0, 0, 0), 0);
    assert_eq!(SectionToModify::index(1, 0, 0), 1);
    assert_eq!(SectionToModify::index(0, 0, 1), 16);
    assert_eq!(SectionToModify::index(0, 1, 0), 256);
    assert_eq!(SectionToModify::index(15, 15, 15), 4095);
    assert_eq!(SectionToModify::index(5, 16, 5), 85);
    assert_eq!(SectionToModify::index(3, 7, 9), 7 * 256 + 9 * 16 + 3);
}

#[test]
fn section_index_is_a_bijection() {
    let mut seen = vec![false; 4096];
    for x in 0u8..16 {
        for y in 0u8..16 {
            for z in 0u8..16 {
                let i = SectionToModify::index(x, y, z);
                assert!(!seen[i]);
                seen[i] = true;
            }
        }
    }
    assert!(seen.iter().all(|s| *s));
}

#[test]
fn section_starts_as_air() {
    let s = SectionToModify::new();
    for x in 0u8..16 {
        assert_eq!(s.get_block(x, x, x), None);
    }
    let d = SectionToModify::default();
    assert_eq!(d.get_block(0, 0, 0), None);
}

#[test]
fn section_set_overwrites() {
    let mut s = SectionToModify::new();
    s.set_block(1, 2, 3, STONE);
    assert_eq!(s.get_block(1, 2, 3), Some(STONE));
    s.set_block(1, 2, 3, DIRT);
    assert_eq!(s.get_block(1, 2, 3), Some(DIRT));
    s.set_block(1, 2, 3, AIR);
    assert_eq!(s.get_block(1, 2, 3), None);
    assert_eq!(s.get_block(3, 2, 1), None);
}

#[test]
fn bits_for_palette_sizes() {
    assert_eq!(bits_for(0), 4);
    assert_eq!(bits_for(1), 4);
    assert_eq!(bits_for(16), 4);
    assert_eq!(bits_for(17), 5);
    assert_eq!(bits_for(32), 5);
    assert_eq!(bits_for(33), 6);
    assert_eq!(bits_for(64), 6);
    assert_eq!(bits_for(65), 7);
    assert_eq!(bits_for(128), 7);
    assert_eq!(bits_for(129), 8);
    assert_eq!(bits_for(256), 8);
}

#[test]
fn to_signed_keeps_the_bits() {
    assert_eq!(to_signed(0), 0);
    assert_eq!(to_signed(5), 5);
    assert_eq!(to_signed(0x7fff_ffff_ffff_ffff), i64::MAX);
    assert_eq!(to_signed(0x8000_0000_0000_0000), i64::MIN);
    assert_eq!(to_signed(u64::MAX), -1);
}

#[test]
fn palette_is_sorted_and_deduplicated() {
    let blocks = vec![DIRT, STONE, DIRT, Block::Sand, STONE, DIRT];
    let (palette, lookup) = build_palette(&blocks);
    assert_eq!(palette, vec![STONE, DIRT, Block::Sand]);
    assert_eq!(lookup.len(), 20);
    assert_eq!(lookup[STONE.id() as usize], 0);
    assert_eq!(lookup[DIRT.id() as usize], 1);
    assert_eq!(lookup[Block::Sand.id() as usize], 2);
}

#[test]
fn pack_flushes_before_an_index_would_straddle() {
    let mut blocks = Vec::new();
    for i in 0..13 {
        blocks.push(Block::from_id((i % 3) as u8 + 1).unwrap());
    }
    let mut lookup = vec![0u8; 20];
    lookup[1] = 1;
    lookup[2] = 2;
    lookup[3] = 3;
    let data = pack_indices(&blocks, &lookup, 5);
    assert_eq!(data.len(), 2);
    let mut first: u64 = 0;
    for i in 0..12 {
        first |= ((i % 3) as u64 + 1) << (5 * i);
    }
    assert_eq!(data[0] as u64, first);
    assert_eq!(data[0] as u64 >> 60, 0);
    assert_eq!(data[1], 1);
}

#[test]
fn pack_of_nothing_is_empty() {
    let lookup = vec![0u8; 20];
    assert!(pack_indices(&Vec::new(), &lookup, 4).is_empty());
}

#[test]
fn pack_fills_the_sign_bit_at_four_bits() {
    let blocks: Vec<Block> = (0..16).map(|_| STONE).collect();
    let mut lookup = vec![0u8; 20];
    lookup[1] = 15;
    let data = pack_indices(&blocks, &lookup, 4);
    assert_eq!(data, vec![-1i64]);
}

#[test]
fn single_block_section_uses_four_bits() {
    let s = SectionToModify::new();
    let section = s.to_section(-4);
    assert_eq!(section.y, -4);
    assert_eq!(section.palette.len(), 1);
    assert_eq!(section.palette[0].name, "minecraft:air");
    assert_eq!(section.palette[0].properties, None);
    assert_eq!(section.data.len(), 256);
    assert!(section.data.iter().all(|w| *w == 0));
}

#[test]
fn seventeen_kinds_use_five_bits_and_round_trip() {
    let mut s = SectionToModify::new();
    let mut expected = vec![AIR; 4096];
    for i in 0..4096usize {
        let b = Block::from_id((i * 7 % 17) as u8).unwrap();
        let (x, y, z) = ((i % 16) as u8, (i / 256) as u8, ((i / 16) % 16) as u8);
        s.set_block(x, y, z, b);
        expected[i] = b;
    }
    let section = s.to_section(3);
    assert_eq!(section.palette.len(), 17);
    assert_eq!(section.data.len(), 342);
    for i in 0..4096usize {
        let index = unpack(&section.data, 5, i);
        assert_eq!(section.palette[index].name, expected[i].name());
    }
    for w in section.data.iter() {
        assert_eq!((*w as u64) >> 60, 0);
    }
}

#[test]
fn palette_entries_carry_properties() {
    let mut s = SectionToModify::new();
    s.set_block(0, 0, 0, Block::OakLeaves);
    let section = s.to_section(0);
    assert_eq!(section.palette.len(), 2);
    assert_eq!(section.palette[1].name, "minecraft:oak_leaves");
    assert_eq!(
        section.palette[1].properties,
        Some(vec![("persistent".to_string(), "true".to_string())])
    );
    assert_eq!(unpack(&section.data, 4, 0), 1);
    assert_eq!(unpack(&section.data, 4, 1), 0);
}

#[test]
fn encode_section_of_a_short_grid() {
    let blocks = vec![STONE, AIR, STONE];
    let section = encode_section(&blocks, 1);
    assert_eq!(section.palette.len(), 2);
    assert_eq!(section.data, vec![0x101]);
}

#[test]
fn chunk_materialises_sections_on_write_only() {
    let mut c = ChunkToModify::new();
    assert_eq!(c.get_block(1, 100, 1), None);
    assert!(c.sections().is_empty());
    c.set_block(1, 100, 1, STONE);
    c.set_block(1, -17, 1, DIRT);
    assert_eq!(c.get_block(1, 100, 1), Some(STONE));
    assert_eq!(c.get_block(1, -17, 1), Some(DIRT));
    assert_eq!(c.get_block(1, 101, 1), None);
    let mut ys: Vec<i8> = c.sections().iter().map(|s| s.y).collect();
    ys.sort();
    assert_eq!(ys, vec![-2, 6]);
}

#[test]
fn chunk_heights_at_the_limits() {
    let mut c = ChunkToModify::new();
    c.set_block(0, -2048, 0, STONE);
    c.set_block(0, 2047, 0, DIRT);
    assert_eq!(c.get_block(0, -2048, 0), Some(STONE));
    assert_eq!(c.get_block(0, 2047, 0), Some(DIRT));
    let mut ys: Vec<i8> = c.sections().iter().map(|s| s.y).collect();
    ys.sort();
    assert_eq!(ys, vec![-128, 127]);
}

#[test]
fn chunk_block_entities_grow() {
    let mut c = ChunkToModify::new();
    c.add_block_entity(NbtValue::Int(1));
    c.add_block_entity(NbtValue::Int(2));
    let other = c.other_fields();
    assert_eq!(other.len(), 1);
    assert_eq!(other[0].0, "block_entities");
    match &other[0].1 {
        NbtValue::List(l) => {
            assert_eq!(l.len(), 2);
            assert!(matches!(l[0], NbtValue::Int(1)));
            assert!(matches!(l[1], NbtValue::Int(2)));
        }
        _ => panic!("not a list"),
    }
}

#[test]
fn region_take_and_put() {
    let mut r = RegionToModify::new();
    assert!(r.get_chunk(3, 4).is_none());
    let mut c = r.get_or_create_chunk(3, 4);
    assert!(r.get_chunk(3, 4).is_none());
    c.set_block(0, 0, 0, STONE);
    r.put_chunk(3, 4, c);
    assert_eq!(r.get_chunk(3, 4).unwrap().get_block(0, 0, 0), Some(STONE));
    assert!(r.get_chunk(4, 3).is_none());
    assert!(r.get_chunk(-1, 0).is_none());
    assert!(r.get_chunk(32, 0).is_none());
    let again = r.get_or_create_chunk(3, 4);
    assert_eq!(again.get_block(0, 0, 0), Some(STONE));
}

#[test]
fn world_decomposes_coordinates() {
    let mut w = WorldToModify::new();
    w.set_block(-1, 64, -1, STONE);
    w.set_block(512, 0, 1023, DIRT);
    w.set_block(i32::MAX, 5, i32::MIN, STONE);
    assert_eq!(w.get_block(-1, 64, -1), Some(STONE));
    assert_eq!(w.get_block(512, 0, 1023), Some(DIRT));
    assert_eq!(w.get_block(i32::MAX, 5, i32::MIN), Some(STONE));
    assert_eq!(w.get_block(0, 64, 0), None);
    let mut coords = w.region_coords();
    coords.sort();
    assert_eq!(coords, vec![(-1, -1), (1, 1), (4194303, -4194304)]);
    let region = w.get_region(-1, -1).unwrap();
    assert_eq!(region.get_chunk(31, 31).unwrap().get_block(15, 64, 15), Some(STONE));
    let region = w.get_region(1, 1).unwrap();
    assert_eq!(region.get_chunk(0, 31).unwrap().get_block(0, 0, 15), Some(DIRT));
    assert!(w.get_region(0, 0).is_none());
    assert!(w.get_region(i32::MAX, 0).is_none());
}

#[test]
fn coordinates_recompose() {
    for x in [i32::MIN, -513, -512, -17, -16, -1, 0, 1, 15, 16, 511, 512, 1000, i32::MAX] {
        let (r, c, l) = ((x >> 4) >> 5, (x >> 4) & 31, x & 15);
        assert_eq!(r * 512 + c * 16 + l, x);
        let mut w = WorldToModify::new();
        w.set_block(x, 0, 0, STONE);
        assert_eq!(w.region_coords(), vec![(r, 0)]);
        let region = w.get_region(r, 0).unwrap();
        assert_eq!(region.get_chunk(c, 0).unwrap().get_block(l as u8, 0, 0), Some(STONE));
    }
}

#[test]
fn world_take_and_put_region() {
    let mut w = WorldToModify::new();
    let mut r = w.get_or_create_region(2, -3);
    let mut c = r.get_or_create_chunk(0, 0);
    c.set_block(0, 0, 0, STONE);
    r.put_chunk(0, 0, c);
    w.put_region(2, -3, r);
    assert_eq!(w.get_block(1024, 0, -1536), Some(STONE));
    assert_eq!(w.region_coords(), vec![(2, -3)]);
}

#[test]
fn world_block_entity_materialises_the_chunk() {
    let mut w = WorldToModify::new();
    w.add_block_entity(17, 33, NbtValue::Byte(7));
    let region = w.get_region(0, 0).unwrap();
    let chunk = region.get_chunk(1, 2).unwrap();
    assert_eq!(chunk.other_fields().len(), 1);
    assert_eq!(w.get_block(17, 0, 33), None);
}

#[test]
fn sign_lines_are_quoted() {
    match quote_line("hello") {
        NbtValue::String(s) => assert_eq!(s, "\"hello\""),
        _ => panic!("not a string"),
    }
    match quote_line("") {
        NbtValue::String(s) => assert_eq!(s, "\"\""),
        _ => panic!("not a string"),
    }
    match sign_entity("a", "b", "c", "d", 1, 2, 3) {
        NbtValue::Compound(f) => assert_eq!(f.len(), 7),
        _ => panic!("not a compound"),
    }
}
