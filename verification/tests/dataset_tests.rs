use rose_data_core::dataset::{add_to_first_empty, clear_tab_slot, first_valid_tab, DataSet, TabEditError};
use rose_data_core::shop::{ItemDb, Npc};

fn npc_row(id: &str, name: &str, tabs: [&str; 4]) -> Vec<String> {
    let mut cells = vec![String::new(); 29];
    cells[0] = id.to_string();
    cells[1] = name.to_string();
    for (k, t) in tabs.iter().enumerate() {
        cells[22 + k] = t.to_string();
    }
    cells[28] = "999".to_string();
    cells
}

fn sell_row(name: &str, items: &[&str]) -> Vec<String> {
    let mut cells = vec![String::new(), name.to_string(), String::new()];
    for it in items {
        cells.push(it.to_string());
    }
    cells
}

/// Two NPCs share sell row 1; the second also has row 2 to itself.
fn sample() -> DataSet {
    let npc_rows = vec![
        vec![String::new(); 29],
        npc_row("1", "Judith", ["1", "", "", ""]),
        npc_row("2", "Raffle", ["1", "2", "", ""]),
    ];
    let sell_rows = vec![
        vec![String::new()],
        sell_row("Weapons", &["8001", "8002"]),
        sell_row("Potions", &["10001"]),
    ];
    DataSet::from_tables(npc_rows, sell_rows, ItemDb { by_category: vec![] }, vec![])
}

#[test]
fn tabs_load_from_sell_rows() {
    let mut data = sample();
    assert_eq!(data.npcs.len(), 2);
    assert_eq!(data.ref_count(1), 2);
    assert_eq!(data.ref_count(2), 1);
    assert_eq!(data.ref_count(3), 0);
    let i = data.get_or_load_tab(1).unwrap();
    let tab = &data.shop_tabs[i];
    assert_eq!(tab.name, "Weapons");
    assert_eq!(tab.items.len(), 48);
    assert_eq!(&tab.items[0..3], &[8001, 8002, 0]);
    assert!(!tab.dirty);
    assert_eq!(data.get_or_load_tab(1), Some(i));
    assert_eq!(data.shop_tabs.len(), 1);
    assert_eq!(data.get_or_load_tab(0), None);
    assert_eq!(data.get_or_load_tab(3), None);
}

#[test]
fn editing_a_shared_tab_copies_it() {
    let mut data = sample();
    let row = data.begin_tab_edit(0, 0).unwrap();
    assert_eq!(row, 3);
    assert_eq!(data.sell_rows.len(), 4);
    assert_eq!(data.sell_rows[3], data.sell_rows[1]);
    assert_eq!(data.npcs[0].shop_tab_rows[0], 3);
    assert_eq!(data.npcs[1].shop_tab_rows[0], 1);
    assert_eq!(data.ref_count(1), 1);
    assert_eq!(data.ref_count(3), 1);
    assert!(data.any_npc_dirty);
    let i = data.get_or_load_tab(3).unwrap();
    assert_eq!(data.shop_tabs[i].items[1], 8002);
}

#[test]
fn editing_an_unshared_tab_edits_in_place() {
    let mut data = sample();
    assert_eq!(data.begin_tab_edit(1, 1), Ok(2));
    assert_eq!(data.sell_rows.len(), 3);
    assert!(!data.any_npc_dirty);
    assert_eq!(data.begin_tab_edit(1, 2), Err(TabEditError::NoShopTab(2)));
    assert_eq!(data.begin_tab_edit(5, 0), Err(TabEditError::InvalidNpc));
}

#[test]
fn loaded_tab_follows_its_copy() {
    let mut data = sample();
    let i = data.get_or_load_tab(1).unwrap();
    data.shop_tabs[i].items[0] = 9999;
    let row = data.begin_tab_edit(1, 0).unwrap();
    assert_eq!(row, 3);
    let j = data.get_or_load_tab(3).unwrap();
    assert_eq!(data.shop_tabs[j].items[0], 9999);
    assert!(data.shop_tabs[j].dirty);
    assert_eq!(data.shop_tabs.len(), 1);
}

#[test]
fn edits_are_written_into_the_tables() {
    let mut data = sample();
    let row = data.begin_tab_edit(0, 0).unwrap();
    let i = data.get_or_load_tab(row).unwrap();
    data.shop_tabs[i].items[1] = 12041;
    data.shop_tabs[i].dirty = true;
    data.apply_edits();
    assert_eq!(data.sell_rows[3].len(), 51);
    assert_eq!(data.sell_rows[3][3], "8001");
    assert_eq!(data.sell_rows[3][4], "12041");
    assert_eq!(data.sell_rows[3][5], "0");
    assert_eq!(data.sell_rows[1][4], "8002");
    assert_eq!(data.npc_rows[1][22], "3");
    assert_eq!(data.npc_rows[2][22], "1");
    assert_eq!(data.npc_rows[2][23], "2");
    data.mark_saved();
    assert!(!data.any_npc_dirty);
    assert!(!data.shop_tabs[i].dirty);
}

#[test]
fn first_valid_tab_picks_first_named_slot() {
    let npc = Npc { id: 1, name: "a".to_string(), shop_tab_rows: [0, -1, 7, 3] };
    assert_eq!(first_valid_tab(&npc), 2);
    let none = Npc { id: 1, name: "a".to_string(), shop_tab_rows: [0, 0, 0, 0] };
    assert_eq!(first_valid_tab(&none), 0);
}

#[test]
fn tab_slot_mutations() {
    let mut items = vec![5, 0, 7, 0];
    assert_eq!(add_to_first_empty(&mut items, 9), Some(1));
    assert_eq!(items, vec![5, 9, 7, 0]);
    clear_tab_slot(&mut items, 0);
    assert_eq!(items, vec![0, 9, 7, 0]);
    clear_tab_slot(&mut items, 10);
    assert_eq!(items, vec![0, 9, 7, 0]);
    let mut full = vec![1, 2];
    assert_eq!(add_to_first_empty(&mut full, 3), None);
    assert_eq!(full, vec![1, 2]);
}
