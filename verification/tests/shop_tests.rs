use std::collections::HashSet;

use rose_data_core::shop::{
    collect_npcs, count_tab_refs, decimal_string, decode_item_no, encode_item_no, load_item_table,
    ItemCategory, ItemDb, Npc,
};
use rose_data_core::zones::{group_npcs_by_zone, parse_ifo_mob_lump, zone_row, MobLumpError, Zone};

fn row(cells: &[&str]) -> Vec<String> {
    cells.iter().map(|c| c.to_string()).collect()
}

fn npc_row(id: &str, name: &str, tabs: [&str; 4], kind: &str) -> Vec<String> {
    let mut cells = vec![String::new(); 29];
    cells[0] = id.to_string();
    cells[1] = name.to_string();
    for (k, t) in tabs.iter().enumerate() {
        cells[22 + k] = t.to_string();
    }
    cells[28] = kind.to_string();
    cells
}

#[test]
fn item_numbers_split_into_category_and_id() {
    assert_eq!(decode_item_no(12041), Some((ItemCategory::Natural, 41)));
    assert_eq!(decode_item_no(8001), Some((ItemCategory::Weapon, 1)));
    assert_eq!(decode_item_no(1000), None);
    assert_eq!(decode_item_no(0), None);
    assert_eq!(decode_item_no(15001), None);
    assert_eq!(encode_item_no(ItemCategory::Natural, 41), 12041);
    assert_eq!(encode_item_no(ItemCategory::Vehicle, 999), 14999);
}

#[test]
fn item_number_round_trip_for_every_category() {
    for cat in ItemCategory::all() {
        for id in [1, 17, 999] {
            assert_eq!(decode_item_no(encode_item_no(cat, id)), Some((cat, id)));
        }
    }
    assert_eq!(ItemCategory::all().len(), 14);
    assert_eq!(ItemCategory::from_code(ItemCategory::Gem.code()), Some(ItemCategory::Gem));
    assert_eq!(ItemCategory::from_code(0), None);
}

#[test]
fn category_names() {
    assert_eq!(ItemCategory::Natural.display(), "Material");
    assert_eq!(ItemCategory::Vehicle.display(), "Vehicle Part");
    assert!(!ItemCategory::Face.stb_name().is_empty());
}

#[test]
fn decimal_string_matches_to_string() {
    for v in [0, 7, 10, 12041, -5, -1000, i32::MAX, i32::MIN] {
        assert_eq!(decimal_string(v), v.to_string());
    }
}

#[test]
fn npc_shop_flag() {
    let with_shop = Npc { id: 1, name: "a".to_string(), shop_tab_rows: [0, 0, 3, 0] };
    let without = Npc { id: 2, name: "b".to_string(), shop_tab_rows: [0, -1, 0, 0] };
    assert!(with_shop.has_shop());
    assert!(!without.has_shop());
}

#[test]
fn npcs_come_from_rows_of_kind_999() {
    let rows = vec![
        npc_row("", "", ["", "", "", ""], ""),
        npc_row("1001", "Judith", ["5", "6", "", "x"], "999"),
        npc_row("1002", "Guard", ["7", "", "", ""], "1"),
        npc_row("oops", "", ["", "", "", "9"], "999"),
    ];
    let npcs = collect_npcs(&rows);
    assert_eq!(npcs.len(), 2);
    assert_eq!(npcs[0].id, 1001);
    assert_eq!(npcs[0].name, "Judith");
    assert_eq!(npcs[0].shop_tab_rows, [5, 6, 0, 0]);
    assert_eq!(npcs[1].id, 3);
    assert_eq!(npcs[1].name, "NPC 3");
    assert_eq!(npcs[1].shop_tab_rows, [0, 0, 0, 9]);
}

#[test]
fn tab_references_are_counted_per_row() {
    let npcs = vec![
        Npc { id: 1, name: "a".to_string(), shop_tab_rows: [5, 6, 0, 5] },
        Npc { id: 2, name: "b".to_string(), shop_tab_rows: [6, 0, -2, 0] },
    ];
    let counts = count_tab_refs(&npcs);
    assert_eq!(counts.len(), 2);
    assert_eq!(counts.get(&5), Some(&2));
    assert_eq!(counts.get(&6), Some(&2));
    assert_eq!(counts.get(&0), None);
}

#[test]
fn item_table_skips_blank_rows() {
    let rows = vec![
        row(&["", ""]),
        row(&["1", "Sword", "", "", "", "", "", "", "", "", "12"]),
        row(&["", "", "", "", "", "", "", "", "", "", "4"]),
        row(&["7"]),
    ];
    let items = load_item_table(ItemCategory::Weapon, &rows);
    assert_eq!(items.len(), 2);
    assert_eq!(items[0].id, 1);
    assert_eq!(items[0].name, "Sword");
    assert_eq!(items[0].icon_no, 12);
    assert_eq!(items[0].category, ItemCategory::Weapon);
    assert_eq!(items[1].id, 2);
    assert_eq!(items[1].name, "");
    assert_eq!(items[1].icon_no, 4);
}

#[test]
fn item_db_finds_first_item_with_id() {
    let weapons = load_item_table(
        ItemCategory::Weapon,
        &vec![row(&["1", "Sword"]), row(&["2", "Axe"]), row(&["1", "Dagger"])],
    );
    let gems = load_item_table(ItemCategory::Gem, &vec![row(&["3", "Ruby"])]);
    let db = ItemDb { by_category: vec![(ItemCategory::Weapon, weapons), (ItemCategory::Gem, gems)] };
    assert_eq!(db.lookup(ItemCategory::Weapon, 1).map(|i| i.name.clone()), Some("Sword".to_string()));
    assert_eq!(db.lookup(ItemCategory::Gem, 3).map(|i| i.name.clone()), Some("Ruby".to_string()));
    assert!(db.lookup(ItemCategory::Gem, 1).is_none());
    assert!(db.lookup(ItemCategory::Cap, 1).is_none());
    let names: Vec<String> = db.all().iter().map(|i| i.name.clone()).collect();
    assert_eq!(names, vec!["Sword", "Axe", "Dagger", "Ruby"]);
}

fn push_i32(out: &mut Vec<u8>, v: i32) {
    out.extend_from_slice(&v.to_le_bytes());
}

fn push_pascal(out: &mut Vec<u8>, s: &str) {
    out.push(s.len() as u8);
    out.extend_from_slice(s.as_bytes());
}

fn push_mob(out: &mut Vec<u8>, id: i32) {
    push_pascal(out, "obj");
    out.extend_from_slice(&[1, 0, 2, 0]);
    push_i32(out, 7);
    push_i32(out, id);
    push_i32(out, 0);
    push_i32(out, 0);
    out.extend_from_slice(&[0u8; 40]);
    push_i32(out, 3);
    push_pascal(out, "ai.aip");
}

#[test]
fn mob_lump_lists_object_ids() {
    let mut bytes = Vec::new();
    push_i32(&mut bytes, 2);
    push_i32(&mut bytes, 1);
    push_i32(&mut bytes, 0);
    push_i32(&mut bytes, 2);
    push_i32(&mut bytes, 20);
    push_i32(&mut bytes, 2);
    push_mob(&mut bytes, 1001);
    push_mob(&mut bytes, 1002);
    assert_eq!(parse_ifo_mob_lump(&bytes), Ok(vec![1001, 1002]));

    let cut = &bytes[..bytes.len() - 3];
    assert_eq!(parse_ifo_mob_lump(cut), Err(MobLumpError::Truncated));
    assert_eq!(parse_ifo_mob_lump(&[]), Err(MobLumpError::Truncated));
}

#[test]
fn mob_lump_without_mob_directory_is_empty() {
    let mut bytes = Vec::new();
    push_i32(&mut bytes, 1);
    push_i32(&mut bytes, 1);
    push_i32(&mut bytes, 12);
    assert_eq!(parse_ifo_mob_lump(&bytes), Ok(vec![]));
}

#[test]
fn zone_rows_need_name_and_path() {
    assert_eq!(
        zone_row(&row(&["5", "Canyon City", "3DDATA/MAPS/JUNON/JPT01.ZON"]), 9),
        Some((5, "Canyon City".to_string(), "3DDATA/MAPS/JUNON/JPT01.ZON".to_string()))
    );
    assert_eq!(zone_row(&row(&["x", "Field", "f.zon"]), 9), Some((9, "Field".to_string(), "f.zon".to_string())));
    assert_eq!(zone_row(&row(&["5", "", "f.zon"]), 9), None);
    assert_eq!(zone_row(&row(&["5", "Field"]), 9), None);
}

#[test]
fn shopkeepers_group_by_zone() {
    let zones = vec![
        Zone { id: 2, name: "Two".to_string(), spawn_ids: HashSet::from([11, 10, 50]) },
        Zone { id: 1, name: "One".to_string(), spawn_ids: HashSet::from([12]) },
        Zone { id: 3, name: "Three".to_string(), spawn_ids: HashSet::from([60]) },
    ];
    let groups = group_npcs_by_zone(&zones, &vec![11, 12, 99, 10, 99]);
    assert_eq!(
        groups,
        vec![(None, vec![99]), (Some(1), vec![12]), (Some(2), vec![10, 11])]
    );
    assert_eq!(group_npcs_by_zone(&zones, &vec![]), vec![]);
}
