use arnis::block::{Block, AIR, DIRT, SIGN, STONE};
use arnis::document::{has_name, merge_fields, patch_chunk, ChunkDoc};
use arnis::editor::{list_contains, WorldEditor};
use arnis::nbt::NbtValue;

fn text(v: &NbtValue) -> String {
    match v {
        NbtValue::String(s) => s.clone(),
        _ => panic!("not a string"),
    }
}

#[test]
fn empty_save_touches_no_region() {
    let editor = WorldEditor::new("out", 1000, 1000, false);
    assert!(editor.save().is_empty());
    assert!(editor.world().region_coords().is_empty());
}

#[test]
fn new_editor_keeps_its_settings() {
    let editor = WorldEditor::new("some/dir", 12, 34, true);
    assert_eq!(editor.region_dir(), "some/dir");
    assert!(editor.debug());
    assert_eq!(editor.world().get_block(0, 0, 0), None);
}

#[test]
fn max_coords_report_x_twice() {
    let editor = WorldEditor::new("out", 120, 75, false);
    assert_eq!(editor.get_max_coords(), (120, 120));
}

#[test]
fn write_then_read() {
    let mut editor = WorldEditor::new("out", 1000, 1000, false);
    editor.set_block(STONE, 5, 64, 5, None, None);
    assert_eq!(editor.world().get_block(5, 64, 5), Some(STONE));
    assert_eq!(editor.world().get_block(5, 65, 5), None);
    assert_eq!(editor.world().get_block(6, 64, 5), None);
    assert_eq!(editor.world().get_block(5, 64, 4), None);
}

#[test]
fn write_at_the_bounds_is_kept() {
    let mut editor = WorldEditor::new("out", 10, 20, false);
    editor.set_block(STONE, 10, 0, 20, None, None);
    editor.set_block(STONE, 0, -64, 0, None, None);
    assert_eq!(editor.world().get_block(10, 0, 20), Some(STONE));
    assert_eq!(editor.world().get_block(0, -64, 0), Some(STONE));
}

#[test]
fn write_outside_bounds_materialises_nothing() {
    let mut editor = WorldEditor::new("out", 10, 20, false);
    editor.set_block(STONE, 11, 64, 5, None, None);
    editor.set_block(STONE, 5, 64, 21, None, None);
    editor.set_block(STONE, -1, 64, 5, None, None);
    editor.set_block(STONE, 5, 64, -1, None, None);
    editor.set_block(STONE, 11, 1_000_000, 5, None, None);
    assert!(editor.world().region_coords().is_empty());
    assert!(editor.world().get_region(0, 0).is_none());
    assert_eq!(editor.world().get_block(11, 64, 5), None);
}

#[test]
fn negative_coords_are_rejected() {
    let mut editor = WorldEditor::new("out", 1000, 1000, false);
    editor.set_block(STONE, -1, 64, -1, None, None);
    assert!(editor.world().region_coords().is_empty());
    assert!(editor.save().is_empty());
}

#[test]
fn overwrite_policy_sequence() {
    let mut editor = WorldEditor::new("out", 1000, 1000, false);
    editor.set_block(STONE, 0, 64, 0, None, None);
    editor.set_block(DIRT, 0, 64, 0, None, None);
    assert_eq!(editor.world().get_block(0, 64, 0), Some(STONE));
    editor.set_block(DIRT, 0, 64, 0, Some(&[STONE]), None);
    assert_eq!(editor.world().get_block(0, 64, 0), Some(DIRT));
}

#[test]
fn whitelist_without_the_existing_block_leaves_it() {
    let mut editor = WorldEditor::new("out", 1000, 1000, false);
    editor.set_block(STONE, 3, 10, 3, None, None);
    editor.set_block(DIRT, 3, 10, 3, Some(&[DIRT, SIGN]), None);
    assert_eq!(editor.world().get_block(3, 10, 3), Some(STONE));
}

#[test]
fn blacklist_with_the_existing_block_leaves_it() {
    let mut editor = WorldEditor::new("out", 1000, 1000, false);
    editor.set_block(STONE, 3, 10, 3, None, None);
    editor.set_block(DIRT, 3, 10, 3, None, Some(&[STONE]));
    assert_eq!(editor.world().get_block(3, 10, 3), Some(STONE));
}

#[test]
fn blacklist_without_the_existing_block_installs() {
    let mut editor = WorldEditor::new("out", 1000, 1000, false);
    editor.set_block(STONE, 3, 10, 3, None, None);
    editor.set_block(DIRT, 3, 10, 3, None, Some(&[SIGN]));
    assert_eq!(editor.world().get_block(3, 10, 3), Some(DIRT));
}

#[test]
fn whitelist_takes_precedence_over_blacklist() {
    let mut editor = WorldEditor::new("out", 1000, 1000, false);
    editor.set_block(STONE, 3, 10, 3, None, None);
    editor.set_block(DIRT, 3, 10, 3, Some(&[STONE]), Some(&[STONE]));
    assert_eq!(editor.world().get_block(3, 10, 3), Some(DIRT));
    editor.set_block(STONE, 3, 10, 3, Some(&[STONE]), Some(&[SIGN]));
    assert_eq!(editor.world().get_block(3, 10, 3), Some(DIRT));
}

#[test]
fn writing_air_shows_nothing() {
    let mut editor = WorldEditor::new("out", 1000, 1000, false);
    editor.set_block(AIR, 1, 1, 1, None, None);
    assert_eq!(editor.world().get_block(1, 1, 1), None);
    assert_eq!(editor.world().region_coords(), vec![(0, 0)]);
    editor.set_block(STONE, 1, 1, 1, None, None);
    assert_eq!(editor.world().get_block(1, 1, 1), Some(STONE));
}

#[test]
fn list_contains_compares_kinds() {
    assert!(list_contains(&[STONE, DIRT], DIRT));
    assert!(!list_contains(&[STONE, DIRT], SIGN));
    assert!(!list_contains(&[], AIR));
}

#[test]
fn check_for_block_matches_either_list() {
    let mut editor = WorldEditor::new("out", 1000, 1000, false);
    editor.set_block(STONE, 2, 2, 2, None, None);
    assert!(editor.check_for_block(2, 2, 2, Some(&[STONE]), None));
    assert!(editor.check_for_block(2, 2, 2, None, Some(&[STONE])));
    assert!(editor.check_for_block(2, 2, 2, Some(&[DIRT]), Some(&[STONE])));
    assert!(!editor.check_for_block(2, 2, 2, Some(&[DIRT]), Some(&[SIGN])));
    assert!(!editor.check_for_block(2, 2, 2, None, None));
    assert!(!editor.check_for_block(3, 2, 2, Some(&[STONE]), None));
    assert!(!editor.check_for_block(-5, 2, 2, Some(&[AIR]), None));
}

#[test]
fn cuboid_fill_writes_27_cells() {
    let mut editor = WorldEditor::new("out", 1000, 1000, false);
    editor.fill_blocks(STONE, 0, 60, 0, 2, 62, 2, None, None);
    let mut count = 0;
    for x in -1..4 {
        for y in 59..64 {
            for z in -1..4 {
                if editor.world().get_block(x, y, z) == Some(STONE) {
                    count += 1;
                    assert!((0..=2).contains(&x) && (60..=62).contains(&y) && (0..=2).contains(&z));
                }
            }
        }
    }
    assert_eq!(count, 27);
}

#[test]
fn cuboid_fill_takes_corners_in_any_order() {
    let mut editor = WorldEditor::new("out", 1000, 1000, false);
    editor.fill_blocks(DIRT, 4, 9, 7, 3, 8, 6, None, None);
    for x in 3..=4 {
        for y in 8..=9 {
            for z in 6..=7 {
                assert_eq!(editor.world().get_block(x, y, z), Some(DIRT));
            }
        }
    }
    assert_eq!(editor.world().get_block(5, 8, 6), None);
    assert_eq!(editor.world().get_block(2, 8, 6), None);
}

#[test]
fn cuboid_fill_is_cut_at_the_bounds() {
    let mut editor = WorldEditor::new("out", 1, 1, false);
    editor.fill_blocks(STONE, -1, 60, -1, 2, 60, 2, None, None);
    let mut count = 0;
    for x in -1..=2 {
        for z in -1..=2 {
            if editor.world().get_block(x, 60, z) == Some(STONE) {
                count += 1;
            }
        }
    }
    assert_eq!(count, 4);
    assert_eq!(editor.world().get_block(2, 60, 2), None);
}

#[test]
fn cuboid_fill_respects_the_policy() {
    let mut editor = WorldEditor::new("out", 1000, 1000, false);
    editor.set_block(STONE, 1, 5, 1, None, None);
    editor.set_block(SIGN, 2, 5, 1, None, None);
    editor.fill_blocks(DIRT, 0, 5, 0, 3, 5, 3, Some(&[STONE]), None);
    assert_eq!(editor.world().get_block(1, 5, 1), Some(DIRT));
    assert_eq!(editor.world().get_block(2, 5, 1), Some(SIGN));
    assert_eq!(editor.world().get_block(0, 5, 0), Some(DIRT));
}

#[test]
fn sign_entity_and_block() {
    let mut editor = WorldEditor::new("out", 1000, 1000, false);
    editor.set_sign("a".to_string(), "b".to_string(), "c".to_string(), "d".to_string(), 10, 70, 10, 0);
    assert_eq!(editor.world().get_block(10, 70, 10), Some(SIGN));
    let region = editor.world().get_region(0, 0).unwrap();
    let chunk = region.get_chunk(0, 0).unwrap();
    let other = chunk.other_fields();
    assert_eq!(other.len(), 1);
    assert_eq!(other[0].0, "block_entities");
    let list = match &other[0].1 {
        NbtValue::List(l) => l,
        _ => panic!("not a list"),
    };
    assert_eq!(list.len(), 1);
    let fields = match &list[0] {
        NbtValue::Compound(f) => f,
        _ => panic!("not a compound"),
    };
    let names: Vec<&str> = fields.iter().map(|f| f.0.as_str()).collect();
    assert_eq!(names, vec!["front_text", "id", "is_waxed", "keepPacked", "x", "y", "z"]);
    assert_eq!(text(&fields[1].1), "minecraft:sign");
    assert!(matches!(fields[2].1, NbtValue::Byte(0)));
    assert!(matches!(fields[3].1, NbtValue::Byte(0)));
    assert!(matches!(fields[4].1, NbtValue::Int(10)));
    assert!(matches!(fields[5].1, NbtValue::Int(70)));
    assert!(matches!(fields[6].1, NbtValue::Int(10)));
    let front = match &fields[0].1 {
        NbtValue::Compound(f) => f,
        _ => panic!("not a compound"),
    };
    assert_eq!(front[0].0, "messages");
    let messages = match &front[0].1 {
        NbtValue::List(m) => m,
        _ => panic!("not a list"),
    };
    let lines: Vec<String> = messages.iter().map(text).collect();
    assert_eq!(lines, vec!["\"a\"", "\"b\"", "\"c\"", "\"d\""]);
    assert_eq!(front[1].0, "color");
    assert_eq!(text(&front[1].1), "black");
    assert_eq!(front[2].0, "has_glowing_text");
    assert!(matches!(front[2].1, NbtValue::Byte(0)));
}

#[test]
fn second_sign_in_a_chunk_joins_the_list() {
    let mut editor = WorldEditor::new("out", 1000, 1000, false);
    editor.set_sign("a".to_string(), "".to_string(), "".to_string(), "".to_string(), 1, 70, 1, 0);
    editor.set_sign("b".to_string(), "".to_string(), "".to_string(), "".to_string(), 2, 70, 2, 4);
    let region = editor.world().get_region(0, 0).unwrap();
    let chunk = region.get_chunk(0, 0).unwrap();
    let other = chunk.other_fields();
    assert_eq!(other.len(), 1);
    match &other[0].1 {
        NbtValue::List(l) => assert_eq!(l.len(), 2),
        _ => panic!("not a list"),
    }
}

#[test]
fn sign_outside_bounds_keeps_its_entity_only() {
    let mut editor = WorldEditor::new("out", 5, 5, false);
    editor.set_sign("a".to_string(), "b".to_string(), "c".to_string(), "d".to_string(), 40, 70, 40, 0);
    assert_eq!(editor.world().get_block(40, 70, 40), None);
    let region = editor.world().get_region(0, 0).unwrap();
    let chunk = region.get_chunk(2, 2).unwrap();
    assert_eq!(chunk.other_fields().len(), 1);
    assert!(chunk.sections().is_empty());
}

#[test]
fn single_block_save() {
    let mut editor = WorldEditor::new("out", 1000, 1000, false);
    editor.set_block(STONE, 5, 64, 5, None, None);
    let patches = editor.save();
    assert_eq!(patches.len(), 1);
    let region = &patches[0];
    assert_eq!((region.region_x, region.region_z), (0, 0));
    assert_eq!(region.chunks.len(), 1024);
    let first = &region.chunks[0];
    assert_eq!((first.x_pos, first.z_pos, first.is_light_on), (0, 0, 0));
    let overlay = first.overlay.as_ref().unwrap();
    assert!(overlay.other.is_empty());
    assert_eq!(overlay.sections.len(), 1);
    let section = &overlay.sections[0];
    assert_eq!(section.y, 4);
    assert_eq!(section.palette.len(), 2);
    assert_eq!(section.palette[0].name, "minecraft:air");
    assert_eq!(section.palette[1].name, "minecraft:stone");
    assert_eq!(section.data.len(), 256);
    let mut stone = 0;
    for i in 0..4096usize {
        let index = ((section.data[i / 16] as u64) >> ((i % 16) * 4)) & 15;
        if index == 1 {
            stone += 1;
            assert_eq!(i, 5 * 16 + 5);
        } else {
            assert_eq!(index, 0);
        }
    }
    assert_eq!(stone, 1);
    for (slot, patch) in region.chunks.iter().enumerate().skip(1) {
        assert!(patch.overlay.is_none());
        assert_eq!(patch.x_pos, (slot / 32) as i32);
        assert_eq!(patch.z_pos, (slot % 32) as i32);
        assert_eq!(patch.is_light_on, 0);
    }
}

#[test]
fn save_stamps_absolute_chunk_positions() {
    let mut editor = WorldEditor::new("out", 100_000, 100_000, false);
    editor.set_block(STONE, 1000, 0, 2000, None, None);
    let patches = editor.save();
    assert_eq!(patches.len(), 1);
    let region = &patches[0];
    assert_eq!((region.region_x, region.region_z), (1, 3));
    let slot = (62 % 32) * 32 + (125 % 32);
    let patch = &region.chunks[slot];
    assert_eq!((patch.x_pos, patch.z_pos), (62, 125));
    assert!(patch.overlay.is_some());
    assert_eq!(region.chunks[0].x_pos, 32);
    assert_eq!(region.chunks[0].z_pos, 96);
    assert_eq!(region.chunks[1023].x_pos, 63);
    assert_eq!(region.chunks[1023].z_pos, 127);
}

#[test]
fn save_twice_gives_the_same_patches() {
    let mut editor = WorldEditor::new("out", 1000, 1000, false);
    editor.set_block(STONE, 5, 64, 5, None, None);
    editor.set_block(DIRT, 700, -3, 20, None, None);
    let a = editor.save();
    let b = editor.save();
    assert_eq!(a.len(), 2);
    assert_eq!(b.len(), 2);
    for ra in a.iter() {
        let rb = b
            .iter()
            .find(|r| r.region_x == ra.region_x && r.region_z == ra.region_z)
            .unwrap();
        for (pa, pb) in ra.chunks.iter().zip(rb.chunks.iter()) {
            assert_eq!((pa.x_pos, pa.z_pos, pa.is_light_on), (pb.x_pos, pb.z_pos, pb.is_light_on));
            match (&pa.overlay, &pb.overlay) {
                (None, None) => {}
                (Some(oa), Some(ob)) => {
                    assert_eq!(oa.sections.len(), ob.sections.len());
                    for sa in oa.sections.iter() {
                        let sb = ob.sections.iter().find(|s| s.y == sa.y).unwrap();
                        assert_eq!(sa.data, sb.data);
                    }
                }
                _ => panic!("overlays differ"),
            }
        }
    }
}

#[test]
fn block_kinds_round_trip_through_ids() {
    for id in 0u8..20 {
        let b = Block::from_id(id).unwrap();
        assert_eq!(b.id(), id);
    }
    assert_eq!(Block::from_id(20), None);
    assert_eq!(AIR.id(), 0);
    assert!(STONE < DIRT);
    assert_eq!(SIGN.name(), "minecraft:oak_sign");
    assert_eq!(STONE.properties(), None);
    assert_eq!(
        Block::OakLeaves.properties(),
        Some(vec![("persistent".to_string(), "true".to_string())])
    );
}

#[test]
fn has_name_finds_a_field() {
    let fields = vec![("a".to_string(), 1), ("b".to_string(), 2)];
    assert!(has_name(&fields, &"b".to_string()));
    assert!(!has_name(&fields, &"c".to_string()));
    let none: Vec<(String, i32)> = Vec::new();
    assert!(!has_name(&none, &"a".to_string()));
}

#[test]
fn merge_overwrites_and_passes_through() {
    let base = vec![
        ("Status".to_string(), 1),
        ("block_entities".to_string(), 2),
        ("Heightmaps".to_string(), 3),
    ];
    let over = vec![("block_entities".to_string(), 20), ("extra".to_string(), 30)];
    let mut merged = merge_fields(base, over);
    merged.sort();
    assert_eq!(
        merged,
        vec![
            ("Heightmaps".to_string(), 3),
            ("Status".to_string(), 1),
            ("block_entities".to_string(), 20),
            ("extra".to_string(), 30),
        ]
    );
}

#[test]
fn merge_with_nothing_keeps_everything() {
    let base = vec![("a".to_string(), 1), ("b".to_string(), 2)];
    let mut merged = merge_fields(base.clone(), Vec::new());
    merged.sort();
    assert_eq!(merged, base);
    let mut merged = merge_fields(Vec::new(), base.clone());
    merged.sort();
    assert_eq!(merged, base);
}

#[test]
fn patch_of_an_untouched_chunk_only_stamps() {
    let mut editor = WorldEditor::new("out", 100_000, 100_000, false);
    editor.set_block(STONE, 1000, 0, 2000, None, None);
    let patches = editor.save();
    let patch = &patches[0].chunks[0];
    let doc = ChunkDoc {
        sections: vec!["template section"],
        x_pos: 0,
        z_pos: 0,
        is_light_on: 1,
        other: vec![("Status".to_string(), 7)],
    };
    let patched = patch_chunk(doc, patch, None, Vec::new());
    assert_eq!(patched.sections, vec!["template section"]);
    assert_eq!((patched.x_pos, patched.z_pos, patched.is_light_on), (32, 96, 0));
    assert_eq!(patched.other, vec![("Status".to_string(), 7)]);
}

#[test]
fn patch_of_a_written_chunk_replaces_sections_and_fields() {
    let mut editor = WorldEditor::new("out", 1000, 1000, false);
    editor.set_sign("a".to_string(), "b".to_string(), "c".to_string(), "d".to_string(), 10, 70, 10, 0);
    let patches = editor.save();
    let patch = &patches[0].chunks[0];
    let overlay = patch.overlay.as_ref().unwrap();
    let doc = ChunkDoc {
        sections: vec![-1i8],
        x_pos: 5,
        z_pos: 5,
        is_light_on: 1,
        other: vec![("block_entities".to_string(), 0usize), ("Status".to_string(), 7)],
    };
    let sections: Vec<i8> = overlay.sections.iter().map(|s| s.y).collect();
    let fields: Vec<(String, usize)> =
        overlay.other.iter().map(|(name, _)| (name.clone(), 99usize)).collect();
    let mut patched = patch_chunk(doc, patch, Some(sections), fields);
    patched.other.sort();
    assert_eq!(patched.sections, vec![4]);
    assert_eq!((patched.x_pos, patched.z_pos, patched.is_light_on), (0, 0, 0));
    assert_eq!(
        patched.other,
        vec![("Status".to_string(), 7), ("block_entities".to_string(), 99)]
    );
}
