use rose_data_core::stb::{StbFile, StbReadOptions};

fn make_test_stb() -> StbFile {
    let bytes: &[u8] = &[
        b'S', b'T', b'B', b'1', 0x27, 0x00, 0x00, 0x00, 0x03, 0x00, 0x00, 0x00, 0x04, 0x00, 0x00,
        0x00, 0x10, 0x00, 0x00, 0x00, 0x20, 0x00, 0x20, 0x00, 0x20, 0x00, 0x20, 0x00, 0x00, 0x00,
        0x01, 0x00, b'R', 0x02, 0x00, b'C', b'1', 0x02, 0x00, b'C', b'2', 0x02, 0x00, b'C', b'3',
        0x01, 0x00, b'#', 0x02, 0x00, b'R', b'1', 0x02, 0x00, b'R', b'2', 0x02, 0x00, b'A', b'1',
        0x02, 0x00, b'B', b'1', 0x00, 0x00, 0x02, 0x00, b'A', b'2', 0x00, 0x00, 0x02, 0x00, b'C',
        b'2',
    ];
    StbFile::read(bytes, &StbReadOptions { with_keys: true, is_wide: false }).unwrap()
}

#[test]
fn stb_round_trip_preserves_logical_content() {
    let stb = make_test_stb();
    let written = stb.write().unwrap();

    let reread =
        StbFile::read(written.as_slice(), &StbReadOptions { with_keys: true, is_wide: false })
            .unwrap();

    assert_eq!(reread.version(), 1);
    assert_eq!(reread.rows(), 2);
    assert_eq!(reread.columns(), 3);
    assert_eq!(reread.get_row_name(0), "R1");
    assert_eq!(reread.get_row_name(1), "R2");
    assert_eq!(reread.get(0, 0), "A1");
    assert_eq!(reread.get(0, 1), "B1");
    assert_eq!(reread.get(0, 2), "");
    assert_eq!(reread.get(1, 0), "A2");
    assert_eq!(reread.get(1, 1), "");
    assert_eq!(reread.get(1, 2), "C2");
    assert_eq!(reread.lookup_row_name("R2"), Some(1));
}

#[test]
fn stb_supports_row_and_cell_mutation() {
    let mut stb = make_test_stb();
    stb.set(0, 2, "NEW".to_string()).unwrap();
    stb.push_row(
        "SHOP_CLONE_3".to_string(),
        vec!["10".to_string(), "tab_key".to_string(), "2001".to_string()],
    )
    .unwrap();

    assert_eq!(stb.get(0, 2), "NEW");
    assert_eq!(stb.rows(), 3);
    assert_eq!(stb.get_row_name(2), "SHOP_CLONE_3");
    assert_eq!(stb.get(2, 1), "tab_key");
}

#[test]
fn stb_reads_header_fields_and_names() {
    let stb = make_test_stb();
    assert_eq!(stb.row_height(), 16);
    assert_eq!(stb.row_name_header(), "#");
    assert_eq!(stb.column_name(0), Some("R"));
    assert_eq!(stb.column_name(3), Some("C3"));
    assert_eq!(stb.column_name(4), None);
    assert_eq!(stb.try_get(5, 0), None);
    assert_eq!(stb.try_get_row_name(7), None);
    assert_eq!(stb.lookup_row_name("R1"), Some(0));
    assert_eq!(stb.lookup_row_name("missing"), None);
}

#[test]
fn stb_integer_cells_parse_or_fall_back() {
    let mut stb = make_test_stb();
    stb.set(0, 0, "-42".to_string()).unwrap();
    assert_eq!(stb.try_get_int(0, 0), Some(-42));
    assert_eq!(stb.get_int(0, 0), -42);
    assert_eq!(stb.try_get_int(0, 1), None);
    assert_eq!(stb.get_int(0, 1), 0);
    assert_eq!(stb.get_int(9, 9), 0);
}

#[test]
fn stb_rejects_bad_magic_and_truncated_data() {
    let opts = StbReadOptions { with_keys: false, is_wide: false };
    assert!(StbFile::read(b"XYZ1", &opts).is_err());
    assert!(StbFile::read(b"STB1\x27\x00", &opts).is_err());
}

#[test]
fn stb_set_row_name_updates_lookup() {
    let mut stb = make_test_stb();
    stb.set_row_name(1, "RENAMED".to_string()).unwrap();
    assert_eq!(stb.get_row_name(1), "RENAMED");
    assert_eq!(stb.lookup_row_name("RENAMED"), Some(1));
    assert_eq!(stb.lookup_row_name("R2"), None);
}

#[test]
fn stb_cells_are_read_at_a_later_data_position() {
    // One row, one data column; the cell position skips two padding bytes.
    let bytes: &[u8] = &[
        b'S', b'T', b'B', b'0', 0x25, 0x00, 0x00, 0x00, 0x02, 0x00, 0x00, 0x00, 0x02, 0x00, 0x00,
        0x00, 0x08, 0x00, 0x00, 0x00, 0x00, 0x00, 0x00, 0x00, 0x01, 0x00, b'K', 0x01, 0x00, b'V',
        0x00, 0x00, 0x01, 0x00, b'N', 0xee, 0xee, 0x01, 0x00, b'X',
    ];
    let stb = StbFile::read(bytes, &StbReadOptions { with_keys: false, is_wide: false }).unwrap();
    assert_eq!(stb.version(), 0);
    assert_eq!(stb.rows(), 1);
    assert_eq!(stb.columns(), 1);
    assert_eq!(stb.get_row_name(0), "N");
    assert_eq!(stb.get(0, 0), "X");
}
