use rose_data_core::vfs::{
    build_index_bytes, build_storage_bytes, decode_vfs_string, format_vfs_path, parse_vfs_index,
    plan_rewrite, write_vfs_string, FileEntry, StorageIndex, VfsIndexError, VfsRewriteError,
};

fn put_u32(out: &mut Vec<u8>, v: u32) {
    out.extend_from_slice(&v.to_le_bytes());
}

fn put_entry(out: &mut Vec<u8>, path: &str, offset: u32, size: u32, crc: u32) {
    write_vfs_string(out, path);
    put_u32(out, offset);
    put_u32(out, size);
    put_u32(out, size);
    out.push(0);
    out.push(0);
    out.push(0);
    put_u32(out, 1);
    put_u32(out, crc);
}

/// An index like the game's: the root storage and one storage `DATA.VFS`
/// holding two files of five bytes.
fn sample_index() -> Vec<u8> {
    let mut out = Vec::new();
    put_u32(&mut out, 1);
    put_u32(&mut out, 1);
    put_u32(&mut out, 2);
    write_vfs_string(&mut out, "ROOT.VFS");
    let root_slot = out.len();
    put_u32(&mut out, 0);
    write_vfs_string(&mut out, "DATA.VFS");
    let storage_slot = out.len();
    put_u32(&mut out, 0);
    let root_offset = out.len() as u32;
    put_u32(&mut out, 0);
    put_u32(&mut out, 0);
    put_u32(&mut out, 0);
    out[root_slot..root_slot + 4].copy_from_slice(&root_offset.to_le_bytes());
    let storage_offset = out.len() as u32;
    out[storage_slot..storage_slot + 4].copy_from_slice(&storage_offset.to_le_bytes());
    put_u32(&mut out, 2);
    put_u32(&mut out, 0);
    put_u32(&mut out, 0);
    put_entry(&mut out, "3DDATA/STB/LIST_NPC.STB", 0, 5, 11);
    put_entry(&mut out, "3DDATA/STB/LIST_SELL.STB", 5, 5, 22);
    out
}

#[test]
fn decode_and_encode_vfs_string_round_trip() {
    let mut out = Vec::new();
    write_vfs_string(&mut out, "3DDATA/STB/LIST_NPC.STB");
    let len = u16::from_le_bytes([out[0], out[1]]) as usize;
    let value = decode_vfs_string(&out[2..2 + len]);
    assert_eq!(value, "3DDATA/STB/LIST_NPC.STB");
}

#[test]
fn vfs_string_has_length_and_trailing_nul() {
    let mut out = Vec::new();
    write_vfs_string(&mut out, "AB");
    assert_eq!(out, vec![3, 0, b'A', b'B', 0]);
    assert_eq!(decode_vfs_string(b"AB"), "AB");
    assert_eq!(decode_vfs_string(b"AB\0\0"), "AB\0");
}

#[test]
fn vfs_paths_are_written_with_backslashes() {
    assert_eq!(format_vfs_path("3DDATA/STB/LIST_NPC.STB"), "3DDATA\\STB\\LIST_NPC.STB");
    assert_eq!(format_vfs_path("PLAIN"), "PLAIN");
}

#[test]
fn index_lists_storages_without_root() {
    let index = parse_vfs_index(&sample_index()).unwrap();
    assert_eq!(index.base_version, 1);
    assert_eq!(index.current_version, 1);
    assert_eq!(index.storages.len(), 1);
    let storage = &index.storages[0];
    assert_eq!(storage.filename, "DATA.VFS");
    assert_eq!(storage.entries.len(), 2);
    assert_eq!(storage.entries[1].path, "3DDATA/STB/LIST_SELL.STB");
    assert_eq!(storage.entries[1].offset, 5);
    assert_eq!(storage.entries[1].size, 5);
    assert_eq!(storage.entries[1].crc, 22);
}

#[test]
fn truncated_index_is_rejected() {
    let bytes = sample_index();
    assert_eq!(parse_vfs_index(&bytes[..bytes.len() - 1]), Err(VfsIndexError::UnexpectedEnd));
    assert_eq!(parse_vfs_index(&bytes[..8]), Err(VfsIndexError::UnexpectedEnd));
}

#[test]
fn files_are_located_in_the_first_storage_that_holds_them() {
    let index = parse_vfs_index(&sample_index()).unwrap();
    assert_eq!(index.locate(&"3DDATA/STB/LIST_SELL.STB".to_string()), Some((0, 1)));
    assert_eq!(index.locate(&"MISSING".to_string()), None);
}

#[test]
fn storage_rebuild_places_replacements_and_keeps_other_bytes() {
    let index = parse_vfs_index(&sample_index()).unwrap();
    let replacements = vec![("3DDATA/STB/LIST_NPC.STB".to_string(), b"HELLO!".to_vec())];
    let (bytes, entries) =
        build_storage_bytes(&index.storages[0].entries, b"HELLOWORLD", &replacements).unwrap();
    assert_eq!(bytes, b"HELLO!WORLD".to_vec());
    assert_eq!((entries[0].offset, entries[0].size, entries[0].block_size), (0, 6, 6));
    assert_eq!((entries[1].offset, entries[1].size, entries[1].block_size), (6, 5, 5));
}

#[test]
fn storage_rebuild_reports_entries_outside_the_file() {
    let index = parse_vfs_index(&sample_index()).unwrap();
    assert_eq!(
        build_storage_bytes(&index.storages[0].entries, b"HELLO", &vec![]),
        Err(VfsRewriteError::InvalidEntryBounds("3DDATA/STB/LIST_SELL.STB".to_string()))
    );
}

#[test]
fn rewrite_plan_updates_storage_and_index() {
    let index = parse_vfs_index(&sample_index()).unwrap();
    let data: Vec<&[u8]> = vec![b"HELLOWORLD"];
    let replacements = vec![("3DDATA/STB/LIST_SELL.STB".to_string(), b"STORE!".to_vec())];
    let plan = plan_rewrite(&index, &data, &replacements).unwrap().unwrap();
    assert_eq!(plan.storage_files, vec![(0, b"HELLOSTORE!".to_vec())]);
    let reread = parse_vfs_index(&plan.index_bytes).unwrap();
    assert_eq!(reread.storages.len(), 1);
    assert_eq!(reread.storages[0].filename, "DATA.VFS");
    let sell = &reread.storages[0].entries[1];
    assert_eq!(sell.path, "3DDATA\\STB\\LIST_SELL.STB");
    assert_eq!((sell.offset, sell.size, sell.crc), (5, 6, 22));
}

#[test]
fn rewrite_plan_refuses_missing_files_and_skips_empty_requests() {
    let index = parse_vfs_index(&sample_index()).unwrap();
    let data: Vec<&[u8]> = vec![b"HELLOWORLD"];
    assert!(plan_rewrite(&index, &data, &vec![]).unwrap().is_none());
    let missing = vec![("NOPE".to_string(), b"X".to_vec())];
    assert!(matches!(
        plan_rewrite(&index, &data, &missing),
        Err(VfsRewriteError::MissingFile(p)) if p == "NOPE"
    ));
}

#[test]
fn written_index_reads_back() {
    let storages = vec![StorageIndex {
        filename: "DATA.VFS".to_string(),
        entries: vec![FileEntry {
            path: "A/B.STB".to_string(),
            offset: 3,
            size: 4,
            block_size: 4,
            is_deleted: 0,
            is_compressed: 1,
            is_encrypted: 0,
            version: 7,
            crc: 9,
        }],
    }];
    let bytes = build_index_bytes(2, 3, &storages);
    let index = parse_vfs_index(&bytes).unwrap();
    assert_eq!((index.base_version, index.current_version), (2, 3));
    assert_eq!(index.storages[0].entries[0].path, "A\\B.STB");
    assert_eq!(index.storages[0].entries[0].is_compressed, 1);
    assert_eq!(index.storages[0].entries[0].version, 7);
}
