use rose_data_core::ifo::{IfoError, IfoFile, IfoReadOptions, BLOCK_MONSTER_SPAWN, BLOCK_NPC};

fn put_u16(out: &mut Vec<u8>, v: u16) {
    out.extend_from_slice(&v.to_le_bytes());
}

fn put_u32(out: &mut Vec<u8>, v: u32) {
    out.extend_from_slice(&v.to_le_bytes());
}

fn put_f32(out: &mut Vec<u8>, v: f32) {
    put_u32(out, v.to_bits());
}

fn put_str(out: &mut Vec<u8>, s: &str) {
    out.push(s.len() as u8);
    out.extend_from_slice(s.as_bytes());
}

fn put_sample_object(out: &mut Vec<u8>) {
    put_str(out, "spawn_obj");
    put_u16(out, 1);
    put_u16(out, 2);
    put_u32(out, 999);
    put_u32(out, 777);
    put_u32(out, 3);
    put_u32(out, 4);
    for v in [0.0f32, 0.0, 0.0, 1.0] {
        put_f32(out, v);
    }
    for v in [10.0f32, 20.0, 30.0] {
        put_f32(out, v);
    }
    for v in [1.0f32, 1.0, 1.0] {
        put_f32(out, v);
    }
}

fn sample_ifo_bytes() -> Vec<u8> {
    let mut out = Vec::new();
    put_u32(&mut out, 2);
    put_u32(&mut out, BLOCK_NPC);
    put_u32(&mut out, 20);
    put_u32(&mut out, BLOCK_MONSTER_SPAWN);
    put_u32(&mut out, 24);
    put_u32(&mut out, 0);

    put_u32(&mut out, 1);
    put_sample_object(&mut out);
    put_str(&mut out, "spawn_a");
    put_u32(&mut out, 1);
    put_str(&mut out, "jelly");
    put_u32(&mut out, 101);
    put_u32(&mut out, 2);
    put_u32(&mut out, 1);
    put_str(&mut out, "king");
    put_u32(&mut out, 102);
    put_u32(&mut out, 1);
    put_u32(&mut out, 30);
    put_u32(&mut out, 9);
    put_u32(&mut out, 12);
    put_u32(&mut out, 100);
    out
}

#[test]
fn ifo_monster_spawns_round_trip_preserves_names_and_values() {
    let ifo = IfoFile::read(&sample_ifo_bytes(), &IfoReadOptions::default()).unwrap();

    let written = ifo.write();
    let reread = IfoFile::read(&written, &IfoReadOptions::default()).unwrap();

    let spawn = &reread.monster_spawns[0];
    assert_eq!(spawn.name, "spawn_a");
    assert_eq!(spawn.basic_spawns[0].name, "jelly");
    assert_eq!(spawn.basic_spawns[0].id, 101);
    assert_eq!(spawn.basic_spawns[0].count, 2);
    assert_eq!(spawn.tactic_spawns[0].name, "king");
    assert_eq!(spawn.interval, 30);
    assert_eq!(spawn.limit_count, 9);
    assert_eq!(spawn.range, 12);
    assert_eq!(spawn.tactic_points, 100);
}

#[test]
fn ifo_monster_spawn_edits_persist_after_write() {
    let mut ifo = IfoFile::read(&sample_ifo_bytes(), &IfoReadOptions::default()).unwrap();
    ifo.monster_spawns[0].range = 44;
    ifo.monster_spawns[0].basic_spawns[0].id = 202;
    ifo.monster_spawns[0].basic_spawns[0].count = 5;

    let written = ifo.write();
    let reread = IfoFile::read(&written, &IfoReadOptions::default()).unwrap();

    assert_eq!(reread.monster_spawns[0].range, 44);
    assert_eq!(reread.monster_spawns[0].basic_spawns[0].id, 202);
    assert_eq!(reread.monster_spawns[0].basic_spawns[0].count, 5);
}

#[test]
fn ifo_sample_reads_object_fields() {
    let ifo = IfoFile::read(&sample_ifo_bytes(), &IfoReadOptions::default()).unwrap();
    assert_eq!(ifo.npcs.len(), 0);
    assert_eq!(ifo.monster_spawns.len(), 1);
    let object = &ifo.monster_spawns[0].object;
    assert_eq!(object.object_name, "spawn_obj");
    assert_eq!(object.warp_id, 1);
    assert_eq!(object.event_id, 2);
    assert_eq!(object.object_type, 999);
    assert_eq!(object.object_id, 777);
    assert_eq!(object.minimap_position.x, 3);
    assert_eq!(object.minimap_position.y, 4);
    assert_eq!(f32::from_bits(object.position.y), 20.0);
    assert_eq!(f32::from_bits(object.rotation.w), 1.0);
    assert!(ifo.has_monster_spawn_block());
}

#[test]
fn ifo_write_reproduces_unedited_file() {
    let bytes = sample_ifo_bytes();
    let ifo = IfoFile::read(&bytes, &IfoReadOptions::default()).unwrap();
    assert_eq!(ifo.write(), bytes);
}

#[test]
fn ifo_skip_monster_spawns_leaves_list_empty() {
    let mut options = IfoReadOptions::default();
    options.skip_monster_spawns = true;
    let ifo = IfoFile::read(&sample_ifo_bytes(), &options).unwrap();
    assert!(ifo.monster_spawns.is_empty());
}

#[test]
fn ifo_truncated_data_is_unexpected_end() {
    let bytes = sample_ifo_bytes();
    let cut = &bytes[..bytes.len() - 2];
    assert!(matches!(
        IfoFile::read(cut, &IfoReadOptions::default()),
        Err(IfoError::UnexpectedEnd)
    ));
    assert!(matches!(
        IfoFile::read(&[1, 0], &IfoReadOptions::default()),
        Err(IfoError::UnexpectedEnd)
    ));
}

#[test]
fn ifo_unknown_block_type_is_rejected() {
    let mut out = Vec::new();
    put_u32(&mut out, 1);
    put_u32(&mut out, 77);
    put_u32(&mut out, 12);
    assert!(matches!(
        IfoFile::read(&out, &IfoReadOptions::default()),
        Err(IfoError::InvalidBlockType(77))
    ));
}

#[test]
fn ifo_empty_header_reads_empty_file() {
    let mut out = Vec::new();
    put_u32(&mut out, 0);
    let ifo = IfoFile::read(&out, &IfoReadOptions::default()).unwrap();
    assert!(ifo.monster_spawns.is_empty());
    assert!(!ifo.has_monster_spawn_block());
}

#[test]
fn try_read_reports_blocks_past_the_end() {
    // one header: a monster spawn block said to start far past the data
    let bytes = [1u8, 0, 0, 0, 8, 0, 0, 0, 0xff, 0, 0, 0];
    assert!(IfoFile::try_read(&bytes, &IfoReadOptions::default()).is_none());
    let good = sample_ifo_bytes();
    let a = IfoFile::try_read(&good, &IfoReadOptions::default()).unwrap().unwrap();
    let b = IfoFile::read(&good, &IfoReadOptions::default()).unwrap();
    assert_eq!(a.monster_spawns.len(), b.monster_spawns.len());
    assert!(matches!(IfoFile::try_read(&[1, 0], &IfoReadOptions::default()), Some(Err(_))));
}
