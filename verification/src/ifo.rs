//! IFO zone files: the blocks of objects, NPCs, monster spawn points, sounds,
//! effects, water planes and warps that one map tile places, read from and
//! written back to their binary layout.
//!
//! Positions, rotations, scales and water values are `f32` in the file; they
//! are carried here as the raw bits of each float, so that what is read is
//! written back bit for bit.
use vstd::prelude::*;
use vstd::utf8::encode_utf8;

use crate::bytes::{le_u16, le_u32, push_u16_le, push_u32_le, read_u16_le, read_u32_le, u16_le_bytes, u32_le_bytes};
use crate::spawn::Duration;
use crate::stb::{
    decode_cut, decode_text, encode_text, lemma_plain_bytes, lemma_subrange_split, low32, plain_text,
    stands_at, until_nul,
};
use crate::bytes::{lemma_le_u16_at, lemma_le_u32_at};
use crate::text::encode_euc_kr;

verus! {

// ---------------------------------------------------------------- layout

/// The little-endian `u32` at `pos`.
pub open spec fn word(b: Seq<u8>, pos: int) -> u32 {
    le_u32(b, pos) as u32
}

/// The `u32` at `pos` and the position after it.
pub open spec fn u32_at(b: Seq<u8>, pos: int) -> Option<(u32, int)> {
    if 0 <= pos && pos + 4 <= b.len() {
        Some((word(b, pos), pos + 4))
    } else {
        None
    }
}

/// The string with a one-byte length at `pos`: its text (cut at the first
/// NUL byte, as EUC-KR) and the position after it.
pub open spec fn str8_at(b: Seq<u8>, pos: int) -> Option<(Seq<char>, int)> {
    if 0 <= pos && pos + 1 <= b.len() && pos + 1 + b[pos] <= b.len() {
        let end = pos + 1 + b[pos];
        Some((decode_text(until_nul(b.subrange(pos + 1, end)), false), end))
    } else {
        None
    }
}

/// `n` items one after another from `pos`, each read by `item`: the items and
/// the position after the last one.
pub open spec fn list_at<M>(
    b: Seq<u8>,
    pos: int,
    n: nat,
    item: spec_fn(Seq<u8>, int) -> Option<(M, int)>,
) -> Option<(Seq<M>, int)>
    decreases n,
{
    if n == 0 {
        Some((Seq::<M>::empty(), pos))
    } else {
        match list_at(b, pos, (n - 1) as nat, item) {
            Some((v, p)) => match item(b, p) {
                Some((m, q)) => Some((v.push(m), q)),
                None => None,
            },
            None => None,
        }
    }
}

/// A `u32` count at `pos`, then that many items.
pub open spec fn counted_at<M>(
    b: Seq<u8>,
    pos: int,
    item: spec_fn(Seq<u8>, int) -> Option<(M, int)>,
) -> Option<(Seq<M>, int)> {
    match u32_at(b, pos) {
        Some((n, p)) => list_at(b, p, n as nat, item),
        None => None,
    }
}

pub(crate) proof fn lemma_list_step<M>(
    b: Seq<u8>,
    pos: int,
    i: nat,
    item: spec_fn(Seq<u8>, int) -> Option<(M, int)>,
    v: Seq<M>,
    p: int,
    m: M,
    q: int,
)
    requires
        list_at(b, pos, i, item) == Some((v, p)),
        item(b, p) == Some((m, q)),
    ensures
        list_at(b, pos, i + 1, item) == Some((v.push(m), q)),
{
    assert(((i + 1) as nat - 1) as nat == i);
}

pub(crate) proof fn lemma_list_stop<M>(
    b: Seq<u8>,
    pos: int,
    i: nat,
    n: nat,
    item: spec_fn(Seq<u8>, int) -> Option<(M, int)>,
)
    requires
        i <= n,
        list_at(b, pos, i, item) is None,
    ensures
        list_at(b, pos, n, item) is None,
    decreases n - i,
{
    if i < n {
        assert(list_at(b, pos, (i + 1) as nat, item) is None) by {
            assert(((i + 1) as nat - 1) as nat == i);
        }
        lemma_list_stop(b, pos, (i + 1) as nat, n, item);
    }
}

/// Reads the `u32` at `pos`.
fn read_u32(b: &[u8], pos: usize) -> (r: Option<(u32, usize)>)
    ensures
        match u32_at(b@, pos as int) {
            None => r is None,
            Some((x, next)) => r matches Some((y, q)) && y == x && q == next,
        },
{
    if pos > b.len() || b.len() - pos < 4 {
        return None;
    }
    Some((read_u32_le(b, pos), pos + 4))
}

/// Reads the string with a one-byte length at `pos`.
fn read_str8(b: &[u8], pos: usize) -> (r: Option<(String, usize)>)
    ensures
        match str8_at(b@, pos as int) {
            None => r is None,
            Some((s, next)) => r matches Some((t, p)) && t@ == s && p == next,
        },
{
    if pos >= b.len() {
        return None;
    }
    let len = b[pos] as usize;
    if b.len() - pos - 1 < len {
        return None;
    }
    let s = decode_cut(b, pos + 1, len, false);
    Some((s, pos + 1 + len))
}

// ---------------------------------------------------------------- objects

/// A point on the minimap.
#[derive(Debug, Clone, Copy, PartialEq, Eq, Structural)]
pub struct Vec2U32 {
    pub x: u32,
    pub y: u32,
}

/// Three `f32` values (x, y, z) as their raw bits.
#[derive(Debug, Clone, Copy, PartialEq, Eq, Structural)]
pub struct Vec3Bits {
    pub x: u32,
    pub y: u32,
    pub z: u32,
}

/// A quaternion (x, y, z, w) of `f32` values as their raw bits.
#[derive(Debug, Clone, Copy, PartialEq, Eq, Structural)]
pub struct Quat4Bits {
    pub x: u32,
    pub y: u32,
    pub z: u32,
    pub w: u32,
}

/// The three raw `f32` words at `pos`.
pub open spec fn vec3_at(b: Seq<u8>, pos: int) -> Vec3Bits {
    Vec3Bits { x: word(b, pos), y: word(b, pos + 4), z: word(b, pos + 8) }
}

/// What every placed thing has: a name, its place on the minimap, its kind
/// and id, warp and event numbers, and its position, rotation (x, y, z, w)
/// and scale as raw `f32` bits.
#[derive(Debug)]
pub struct IfoObject {
    pub object_name: String,
    pub minimap_position: Vec2U32,
    pub object_type: u32,
    pub object_id: u32,
    pub warp_id: u16,
    pub event_id: u16,
    pub position: Vec3Bits,
    pub rotation: Quat4Bits,
    pub scale: Vec3Bits,
}

/// An object as a value.
pub struct ObjectModel {
    pub object_name: Seq<char>,
    pub minimap_position: Vec2U32,
    pub object_type: u32,
    pub object_id: u32,
    pub warp_id: u16,
    pub event_id: u16,
    pub position: Vec3Bits,
    pub rotation: Quat4Bits,
    pub scale: Vec3Bits,
}

impl View for IfoObject {
    type V = ObjectModel;

    open spec fn view(&self) -> ObjectModel {
        ObjectModel {
            object_name: self.object_name@,
            minimap_position: self.minimap_position,
            object_type: self.object_type,
            object_id: self.object_id,
            warp_id: self.warp_id,
            event_id: self.event_id,
            position: self.position,
            rotation: self.rotation,
            scale: self.scale,
        }
    }
}

/// The object at `pos`: its name, then 60 bytes of fields (warp and event as
/// `u16`, then type, id, minimap x and y, rotation, position and scale as
/// `u32`), and the position after it.
pub open spec fn object_at(b: Seq<u8>, pos: int) -> Option<(ObjectModel, int)> {
    match str8_at(b, pos) {
        Some((name, p)) => if p + 60 <= b.len() {
            Some(
                (
                    ObjectModel {
                        object_name: name,
                        warp_id: le_u16(b, p) as u16,
                        event_id: le_u16(b, p + 2) as u16,
                        object_type: word(b, p + 4),
                        object_id: word(b, p + 8),
                        minimap_position: Vec2U32 { x: word(b, p + 12), y: word(b, p + 16) },
                        rotation: Quat4Bits {
                            x: word(b, p + 20),
                            y: word(b, p + 24),
                            z: word(b, p + 28),
                            w: word(b, p + 32),
                        },
                        position: vec3_at(b, p + 36),
                        scale: vec3_at(b, p + 48),
                    },
                    p + 60,
                ),
            )
        } else {
            None
        },
        None => None,
    }
}

pub open spec fn object_item() -> spec_fn(Seq<u8>, int) -> Option<(ObjectModel, int)> {
    |b: Seq<u8>, pos: int| object_at(b, pos)
}

pub open spec fn object_views(v: Seq<IfoObject>) -> Seq<ObjectModel> {
    Seq::new(v.len(), |i: int| v[i]@)
}

/// Reads three raw `f32` words at `pos`.
fn read_vec3(b: &[u8], pos: usize) -> (r: Vec3Bits)
    requires
        pos + 12 <= b@.len(),
    ensures
        r == vec3_at(b@, pos as int),
{
    let n = b.len();
    assert(pos + 12 <= n);
    Vec3Bits { x: read_u32_le(b, pos), y: read_u32_le(b, pos + 4), z: read_u32_le(b, pos + 8) }
}

/// Reads the object at `pos`.
fn read_object(b: &[u8], pos: usize) -> (r: Option<(IfoObject, usize)>)
    ensures
        match object_at(b@, pos as int) {
            None => r is None,
            Some((m, next)) => r matches Some((o, p)) && o@ == m && p == next,
        },
{
    let (object_name, p) = match read_str8(b, pos) {
        Some(x) => x,
        None => {
            return None;
        },
    };
    if b.len() - p < 60 {
        return None;
    }
    let o = IfoObject {
        object_name,
        warp_id: read_u16_le(b, p),
        event_id: read_u16_le(b, p + 2),
        object_type: read_u32_le(b, p + 4),
        object_id: read_u32_le(b, p + 8),
        minimap_position: Vec2U32 { x: read_u32_le(b, p + 12), y: read_u32_le(b, p + 16) },
        rotation: Quat4Bits {
            x: read_u32_le(b, p + 20),
            y: read_u32_le(b, p + 24),
            z: read_u32_le(b, p + 28),
            w: read_u32_le(b, p + 32),
        },
        position: read_vec3(b, p + 36),
        scale: read_vec3(b, p + 48),
    };
    Some((o, p + 60))
}

/// Reads `n` objects from `pos`.
fn read_objects(b: &[u8], pos: usize, n: u32) -> (r: Option<(Vec<IfoObject>, usize)>)
    ensures
        match list_at(b@, pos as int, n as nat, object_item()) {
            None => r is None,
            Some((ms, next)) => r matches Some((v, p)) && object_views(v@) == ms && p == next,
        },
{
    let mut out: Vec<IfoObject> = Vec::new();
    let mut p = pos;
    let mut i: u32 = 0;
    while i < n
        invariant
            i <= n,
            list_at(b@, pos as int, i as nat, object_item()) == Some(
                (object_views(out@), p as int),
            ),
        decreases n - i,
    {
        match read_object(b, p) {
            Some((o, q)) => {
                proof {
                    lemma_list_step(
                        b@,
                        pos as int,
                        i as nat,
                        object_item(),
                        object_views(out@),
                        p as int,
                        o@,
                        q as int,
                    );
                }
                let ghost before = out@;
                out.push(o);
                assert(object_views(out@) =~= object_views(before).push(o@));
                p = q;
            },
            None => {
                proof {
                    assert(list_at(b@, pos as int, (i + 1) as nat, object_item()) is None) by {
                        assert(((i + 1) as nat - 1) as nat == i as nat);
                    }
                    lemma_list_stop(b@, pos as int, (i + 1) as nat, n as nat, object_item());
                }
                return None;
            },
        }
        i = i + 1;
    }
    Some((out, p))
}


// ---------------------------------------------------------------- monster spawns

/// One kind of monster a spawn point places, and how many.
pub struct IfoMonsterSpawn {
    pub name: String,
    pub id: u32,
    pub count: u32,
}

/// A monster entry as a value.
pub struct MonsterModel {
    pub name: Seq<char>,
    pub id: u32,
    pub count: u32,
}

impl View for IfoMonsterSpawn {
    type V = MonsterModel;

    open spec fn view(&self) -> MonsterModel {
        MonsterModel { name: self.name@, id: self.id, count: self.count }
    }
}

/// The monster entry at `pos`: name, id and count.
pub open spec fn monster_at(b: Seq<u8>, pos: int) -> Option<(MonsterModel, int)> {
    match str8_at(b, pos) {
        Some((name, p)) => if p + 8 <= b.len() {
            Some((MonsterModel { name, id: word(b, p), count: word(b, p + 4) }, p + 8))
        } else {
            None
        },
        None => None,
    }
}

pub open spec fn monster_item() -> spec_fn(Seq<u8>, int) -> Option<(MonsterModel, int)> {
    |b: Seq<u8>, pos: int| monster_at(b, pos)
}

pub open spec fn monster_views(v: Seq<IfoMonsterSpawn>) -> Seq<MonsterModel> {
    Seq::new(v.len(), |i: int| v[i]@)
}

fn read_monster(b: &[u8], pos: usize) -> (r: Option<(IfoMonsterSpawn, usize)>)
    ensures
        match monster_at(b@, pos as int) {
            None => r is None,
            Some((m, next)) => r matches Some((o, p)) && o@ == m && p == next,
        },
{
    let (name, p) = match read_str8(b, pos) {
        Some(x) => x,
        None => {
            return None;
        },
    };
    if b.len() - p < 8 {
        return None;
    }
    Some((IfoMonsterSpawn { name, id: read_u32_le(b, p), count: read_u32_le(b, p + 4) }, p + 8))
}

/// Reads `n` monster entries from `pos`.
fn read_monsters(b: &[u8], pos: usize, n: u32) -> (r: Option<(Vec<IfoMonsterSpawn>, usize)>)
    ensures
        match list_at(b@, pos as int, n as nat, monster_item()) {
            None => r is None,
            Some((ms, next)) => r matches Some((v, p)) && monster_views(v@) == ms && p == next,
        },
{
    let mut out: Vec<IfoMonsterSpawn> = Vec::new();
    let mut p = pos;
    let mut i: u32 = 0;
    while i < n
        invariant
            i <= n,
            list_at(b@, pos as int, i as nat, monster_item()) == Some((monster_views(out@), p as int)),
        decreases n - i,
    {
        match read_monster(b, p) {
            Some((o, q)) => {
                proof {
                    lemma_list_step(
                        b@,
                        pos as int,
                        i as nat,
                        monster_item(),
                        monster_views(out@),
                        p as int,
                        o@,
                        q as int,
                    );
                }
                let ghost before = out@;
                out.push(o);
                assert(monster_views(out@) =~= monster_views(before).push(o@));
                p = q;
            },
            None => {
                proof {
                    assert(list_at(b@, pos as int, (i + 1) as nat, monster_item()) is None) by {
                        assert(((i + 1) as nat - 1) as nat == i as nat);
                    }
                    lemma_list_stop(b@, pos as int, (i + 1) as nat, n as nat, monster_item());
                }
                return None;
            },
        }
        i = i + 1;
    }
    Some((out, p))
}

/// A monster spawn point: where it stands, its name, the monsters it places
/// normally and when its tactic points run up, and its timing and limits.
pub struct IfoMonsterSpawnPoint {
    pub object: IfoObject,
    pub name: String,
    pub basic_spawns: Vec<IfoMonsterSpawn>,
    pub tactic_spawns: Vec<IfoMonsterSpawn>,
    pub interval: u32,
    pub limit_count: u32,
    pub range: u32,
    pub tactic_points: u32,
}

/// A spawn point as a value.
pub struct SpawnPointModel {
    pub object: ObjectModel,
    pub name: Seq<char>,
    pub basic_spawns: Seq<MonsterModel>,
    pub tactic_spawns: Seq<MonsterModel>,
    pub interval: u32,
    pub limit_count: u32,
    pub range: u32,
    pub tactic_points: u32,
}

impl View for IfoMonsterSpawnPoint {
    type V = SpawnPointModel;

    open spec fn view(&self) -> SpawnPointModel {
        SpawnPointModel {
            object: self.object@,
            name: self.name@,
            basic_spawns: monster_views(self.basic_spawns@),
            tactic_spawns: monster_views(self.tactic_spawns@),
            interval: self.interval,
            limit_count: self.limit_count,
            range: self.range,
            tactic_points: self.tactic_points,
        }
    }
}

/// The spawn point at `pos`: object, name, counted basic and tactic monster
/// lists, then interval, limit count, range and tactic points.
pub open spec fn spawn_point_at(b: Seq<u8>, pos: int) -> Option<(SpawnPointModel, int)> {
    match object_at(b, pos) {
        Some((object, p1)) => match str8_at(b, p1) {
            Some((name, p2)) => match counted_at(b, p2, monster_item()) {
                Some((basic_spawns, p3)) => match counted_at(b, p3, monster_item()) {
                    Some((tactic_spawns, p4)) => if p4 + 16 <= b.len() {
                        Some(
                            (
                                SpawnPointModel {
                                    object,
                                    name,
                                    basic_spawns,
                                    tactic_spawns,
                                    interval: word(b, p4),
                                    limit_count: word(b, p4 + 4),
                                    range: word(b, p4 + 8),
                                    tactic_points: word(b, p4 + 12),
                                },
                                p4 + 16,
                            ),
                        )
                    } else {
                        None
                    },
                    None => None,
                },
                None => None,
            },
            None => None,
        },
        None => None,
    }
}

pub open spec fn spawn_point_item() -> spec_fn(Seq<u8>, int) -> Option<(SpawnPointModel, int)> {
    |b: Seq<u8>, pos: int| spawn_point_at(b, pos)
}

pub open spec fn spawn_point_views(v: Seq<IfoMonsterSpawnPoint>) -> Seq<SpawnPointModel> {
    Seq::new(v.len(), |i: int| v[i]@)
}

/// Reads a `u32` count and that many monster entries.
fn read_counted_monsters(b: &[u8], pos: usize) -> (r: Option<(Vec<IfoMonsterSpawn>, usize)>)
    ensures
        match counted_at(b@, pos as int, monster_item()) {
            None => r is None,
            Some((ms, next)) => r matches Some((v, p)) && monster_views(v@) == ms && p == next,
        },
{
    let (n, p) = match read_u32(b, pos) {
        Some(x) => x,
        None => {
            return None;
        },
    };
    read_monsters(b, p, n)
}

fn read_spawn_point(b: &[u8], pos: usize) -> (r: Option<(IfoMonsterSpawnPoint, usize)>)
    ensures
        match spawn_point_at(b@, pos as int) {
            None => r is None,
            Some((m, next)) => r matches Some((o, p)) && o@ == m && p == next,
        },
{
    let (object, p1) = match read_object(b, pos) {
        Some(x) => x,
        None => {
            return None;
        },
    };
    let (name, p2) = match read_str8(b, p1) {
        Some(x) => x,
        None => {
            return None;
        },
    };
    let (basic_spawns, p3) = match read_counted_monsters(b, p2) {
        Some(x) => x,
        None => {
            return None;
        },
    };
    let (tactic_spawns, p4) = match read_counted_monsters(b, p3) {
        Some(x) => x,
        None => {
            return None;
        },
    };
    if b.len() - p4 < 16 {
        return None;
    }
    let point = IfoMonsterSpawnPoint {
        object,
        name,
        basic_spawns,
        tactic_spawns,
        interval: read_u32_le(b, p4),
        limit_count: read_u32_le(b, p4 + 4),
        range: read_u32_le(b, p4 + 8),
        tactic_points: read_u32_le(b, p4 + 12),
    };
    Some((point, p4 + 16))
}

/// Reads `n` spawn points from `pos`.
fn read_spawn_points(b: &[u8], pos: usize, n: u32) -> (r: Option<(Vec<IfoMonsterSpawnPoint>, usize)>)
    ensures
        match list_at(b@, pos as int, n as nat, spawn_point_item()) {
            None => r is None,
            Some((ms, next)) => r matches Some((v, p)) && spawn_point_views(v@) == ms && p == next,
        },
{
    let mut out: Vec<IfoMonsterSpawnPoint> = Vec::new();
    let mut p = pos;
    let mut i: u32 = 0;
    while i < n
        invariant
            i <= n,
            list_at(b@, pos as int, i as nat, spawn_point_item()) == Some((spawn_point_views(out@), p as int)),
        decreases n - i,
    {
        match read_spawn_point(b, p) {
            Some((o, q)) => {
                proof {
                    lemma_list_step(
                        b@,
                        pos as int,
                        i as nat,
                        spawn_point_item(),
                        spawn_point_views(out@),
                        p as int,
                        o@,
                        q as int,
                    );
                }
                let ghost before = out@;
                out.push(o);
                assert(spawn_point_views(out@) =~= spawn_point_views(before).push(o@));
                p = q;
            },
            None => {
                proof {
                    assert(list_at(b@, pos as int, (i + 1) as nat, spawn_point_item()) is None) by {
                        assert(((i + 1) as nat - 1) as nat == i as nat);
                    }
                    lemma_list_stop(b@, pos as int, (i + 1) as nat, n as nat, spawn_point_item());
                }
                return None;
            },
        }
        i = i + 1;
    }
    Some((out, p))
}

// ---------------------------------------------------------------- other placed things

/// An NPC: where it stands, its AI number and its quest file.
pub struct IfoNpc {
    pub object: IfoObject,
    pub ai_id: u32,
    pub quest_file_name: String,
}

/// An NPC as a value.
pub struct NpcModel {
    pub object: ObjectModel,
    pub ai_id: u32,
    pub quest_file_name: Seq<char>,
}

impl View for IfoNpc {
    type V = NpcModel;

    open spec fn view(&self) -> NpcModel {
        NpcModel { object: self.object@, ai_id: self.ai_id, quest_file_name: self.quest_file_name@ }
    }
}

/// The NPC at `pos`: object, AI number, quest file name.
pub open spec fn npc_at(b: Seq<u8>, pos: int) -> Option<(NpcModel, int)> {
    match object_at(b, pos) {
        Some((object, p1)) => match u32_at(b, p1) {
            Some((ai_id, p2)) => match str8_at(b, p2) {
                Some((quest_file_name, p3)) => Some((NpcModel { object, ai_id, quest_file_name }, p3)),
                None => None,
            },
            None => None,
        },
        None => None,
    }
}

pub open spec fn npc_item() -> spec_fn(Seq<u8>, int) -> Option<(NpcModel, int)> {
    |b: Seq<u8>, pos: int| npc_at(b, pos)
}

pub open spec fn npc_views(v: Seq<IfoNpc>) -> Seq<NpcModel> {
    Seq::new(v.len(), |i: int| v[i]@)
}

fn read_npc(b: &[u8], pos: usize) -> (r: Option<(IfoNpc, usize)>)
    ensures
        match npc_at(b@, pos as int) {
            None => r is None,
            Some((m, next)) => r matches Some((o, p)) && o@ == m && p == next,
        },
{
    let (object, p1) = match read_object(b, pos) {
        Some(x) => x,
        None => {
            return None;
        },
    };
    let (ai_id, p2) = match read_u32(b, p1) {
        Some(x) => x,
        None => {
            return None;
        },
    };
    let (quest_file_name, p3) = match read_str8(b, p2) {
        Some(x) => x,
        None => {
            return None;
        },
    };
    Some((IfoNpc { object, ai_id, quest_file_name }, p3))
}

/// Reads `n` NPCs from `pos`.
fn read_npcs(b: &[u8], pos: usize, n: u32) -> (r: Option<(Vec<IfoNpc>, usize)>)
    ensures
        match list_at(b@, pos as int, n as nat, npc_item()) {
            None => r is None,
            Some((ms, next)) => r matches Some((v, p)) && npc_views(v@) == ms && p == next,
        },
{
    let mut out: Vec<IfoNpc> = Vec::new();
    let mut p = pos;
    let mut i: u32 = 0;
    while i < n
        invariant
            i <= n,
            list_at(b@, pos as int, i as nat, npc_item()) == Some((npc_views(out@), p as int)),
        decreases n - i,
    {
        match read_npc(b, p) {
            Some((o, q)) => {
                proof {
                    lemma_list_step(
                        b@,
                        pos as int,
                        i as nat,
                        npc_item(),
                        npc_views(out@),
                        p as int,
                        o@,
                        q as int,
                    );
                }
                let ghost before = out@;
                out.push(o);
                assert(npc_views(out@) =~= npc_views(before).push(o@));
                p = q;
            },
            None => {
                proof {
                    assert(list_at(b@, pos as int, (i + 1) as nat, npc_item()) is None) by {
                        assert(((i + 1) as nat - 1) as nat == i as nat);
                    }
                    lemma_list_stop(b@, pos as int, (i + 1) as nat, n as nat, npc_item());
                }
                return None;
            },
        }
        i = i + 1;
    }
    Some((out, p))
}

/// An event object: where it stands, the quest trigger it fires and the
/// script function it calls.
pub struct IfoEventObject {
    pub object: IfoObject,
    pub quest_trigger_name: String,
    pub script_function_name: String,
}

/// An event object as a value.
pub struct EventModel {
    pub object: ObjectModel,
    pub quest_trigger_name: Seq<char>,
    pub script_function_name: Seq<char>,
}

impl View for IfoEventObject {
    type V = EventModel;

    open spec fn view(&self) -> EventModel {
        EventModel {
            object: self.object@,
            quest_trigger_name: self.quest_trigger_name@,
            script_function_name: self.script_function_name@,
        }
    }
}

/// The event object at `pos`: object, trigger name, function name.
pub open spec fn event_at(b: Seq<u8>, pos: int) -> Option<(EventModel, int)> {
    match object_at(b, pos) {
        Some((object, p1)) => match str8_at(b, p1) {
            Some((quest_trigger_name, p2)) => match str8_at(b, p2) {
                Some((script_function_name, p3)) => Some(
                    (EventModel { object, quest_trigger_name, script_function_name }, p3),
                ),
                None => None,
            },
            None => None,
        },
        None => None,
    }
}

pub open spec fn event_item() -> spec_fn(Seq<u8>, int) -> Option<(EventModel, int)> {
    |b: Seq<u8>, pos: int| event_at(b, pos)
}

pub open spec fn event_views(v: Seq<IfoEventObject>) -> Seq<EventModel> {
    Seq::new(v.len(), |i: int| v[i]@)
}

fn read_event(b: &[u8], pos: usize) -> (r: Option<(IfoEventObject, usize)>)
    ensures
        match event_at(b@, pos as int) {
            None => r is None,
            Some((m, next)) => r matches Some((o, p)) && o@ == m && p == next,
        },
{
    let (object, p1) = match read_object(b, pos) {
        Some(x) => x,
        None => {
            return None;
        },
    };
    let (quest_trigger_name, p2) = match read_str8(b, p1) {
        Some(x) => x,
        None => {
            return None;
        },
    };
    let (script_function_name, p3) = match read_str8(b, p2) {
        Some(x) => x,
        None => {
            return None;
        },
    };
    Some((IfoEventObject { object, quest_trigger_name, script_function_name }, p3))
}

/// Reads `n` event objects from `pos`.
fn read_events(b: &[u8], pos: usize, n: u32) -> (r: Option<(Vec<IfoEventObject>, usize)>)
    ensures
        match list_at(b@, pos as int, n as nat, event_item()) {
            None => r is None,
            Some((ms, next)) => r matches Some((v, p)) && event_views(v@) == ms && p == next,
        },
{
    let mut out: Vec<IfoEventObject> = Vec::new();
    let mut p = pos;
    let mut i: u32 = 0;
    while i < n
        invariant
            i <= n,
            list_at(b@, pos as int, i as nat, event_item()) == Some((event_views(out@), p as int)),
        decreases n - i,
    {
        match read_event(b, p) {
            Some((o, q)) => {
                proof {
                    lemma_list_step(
                        b@,
                        pos as int,
                        i as nat,
                        event_item(),
                        event_views(out@),
                        p as int,
                        o@,
                        q as int,
                    );
                }
                let ghost before = out@;
                out.push(o);
                assert(event_views(out@) =~= event_views(before).push(o@));
                p = q;
            },
            None => {
                proof {
                    assert(list_at(b@, pos as int, (i + 1) as nat, event_item()) is None) by {
                        assert(((i + 1) as nat - 1) as nat == i as nat);
                    }
                    lemma_list_stop(b@, pos as int, (i + 1) as nat, n as nat, event_item());
                }
                return None;
            },
        }
        i = i + 1;
    }
    Some((out, p))
}

/// An effect object: where it stands and the effect file it plays.
pub struct IfoEffectObject {
    pub object: IfoObject,
    pub effect_path: String,
}

/// An effect object as a value.
pub struct EffectModel {
    pub object: ObjectModel,
    pub effect_path: Seq<char>,
}

impl View for IfoEffectObject {
    type V = EffectModel;

    open spec fn view(&self) -> EffectModel {
        EffectModel { object: self.object@, effect_path: self.effect_path@ }
    }
}

/// The effect object at `pos`: object, effect path.
pub open spec fn effect_at(b: Seq<u8>, pos: int) -> Option<(EffectModel, int)> {
    match object_at(b, pos) {
        Some((object, p1)) => match str8_at(b, p1) {
            Some((effect_path, p2)) => Some((EffectModel { object, effect_path }, p2)),
            None => None,
        },
        None => None,
    }
}

pub open spec fn effect_item() -> spec_fn(Seq<u8>, int) -> Option<(EffectModel, int)> {
    |b: Seq<u8>, pos: int| effect_at(b, pos)
}

pub open spec fn effect_views(v: Seq<IfoEffectObject>) -> Seq<EffectModel> {
    Seq::new(v.len(), |i: int| v[i]@)
}

fn read_effect(b: &[u8], pos: usize) -> (r: Option<(IfoEffectObject, usize)>)
    ensures
        match effect_at(b@, pos as int) {
            None => r is None,
            Some((m, next)) => r matches Some((o, p)) && o@ == m && p == next,
        },
{
    let (object, p1) = match read_object(b, pos) {
        Some(x) => x,
        None => {
            return None;
        },
    };
    let (effect_path, p2) = match read_str8(b, p1) {
        Some(x) => x,
        None => {
            return None;
        },
    };
    Some((IfoEffectObject { object, effect_path }, p2))
}

/// Reads `n` effect objects from `pos`.
fn read_effects(b: &[u8], pos: usize, n: u32) -> (r: Option<(Vec<IfoEffectObject>, usize)>)
    ensures
        match list_at(b@, pos as int, n as nat, effect_item()) {
            None => r is None,
            Some((ms, next)) => r matches Some((v, p)) && effect_views(v@) == ms && p == next,
        },
{
    let mut out: Vec<IfoEffectObject> = Vec::new();
    let mut p = pos;
    let mut i: u32 = 0;
    while i < n
        invariant
            i <= n,
            list_at(b@, pos as int, i as nat, effect_item()) == Some((effect_views(out@), p as int)),
        decreases n - i,
    {
        match read_effect(b, p) {
            Some((o, q)) => {
                proof {
                    lemma_list_step(
                        b@,
                        pos as int,
                        i as nat,
                        effect_item(),
                        effect_views(out@),
                        p as int,
                        o@,
                        q as int,
                    );
                }
                let ghost before = out@;
                out.push(o);
                assert(effect_views(out@) =~= effect_views(before).push(o@));
                p = q;
            },
            None => {
                proof {
                    assert(list_at(b@, pos as int, (i + 1) as nat, effect_item()) is None) by {
                        assert(((i + 1) as nat - 1) as nat == i as nat);
                    }
                    lemma_list_stop(b@, pos as int, (i + 1) as nat, n as nat, effect_item());
                }
                return None;
            },
        }
        i = i + 1;
    }
    Some((out, p))
}

/// A sound object: where it stands, the sound it plays, how far it is heard
/// and how often it repeats.
pub struct IfoSoundObject {
    pub object: IfoObject,
    pub sound_path: String,
    pub range: u32,
    pub interval: Duration,
}

/// A sound object as a value, its interval in nanoseconds.
pub struct SoundModel {
    pub object: ObjectModel,
    pub sound_path: Seq<char>,
    pub range: u32,
    pub interval_nanos: nat,
}

impl View for IfoSoundObject {
    type V = SoundModel;

    open spec fn view(&self) -> SoundModel {
        SoundModel {
            object: self.object@,
            sound_path: self.sound_path@,
            range: self.range,
            interval_nanos: self.interval.spec_nanos(),
        }
    }
}

/// The sound object at `pos`: object, sound path, range, interval in seconds.
pub open spec fn sound_at(b: Seq<u8>, pos: int) -> Option<(SoundModel, int)> {
    match object_at(b, pos) {
        Some((object, p1)) => match str8_at(b, p1) {
            Some((sound_path, p2)) => if p2 + 8 <= b.len() {
                Some(
                    (
                        SoundModel {
                            object,
                            sound_path,
                            range: word(b, p2),
                            interval_nanos: word(b, p2 + 4) as nat * 1_000_000_000,
                        },
                        p2 + 8,
                    ),
                )
            } else {
                None
            },
            None => None,
        },
        None => None,
    }
}

pub open spec fn sound_item() -> spec_fn(Seq<u8>, int) -> Option<(SoundModel, int)> {
    |b: Seq<u8>, pos: int| sound_at(b, pos)
}

pub open spec fn sound_views(v: Seq<IfoSoundObject>) -> Seq<SoundModel> {
    Seq::new(v.len(), |i: int| v[i]@)
}

fn read_sound(b: &[u8], pos: usize) -> (r: Option<(IfoSoundObject, usize)>)
    ensures
        match sound_at(b@, pos as int) {
            None => r is None,
            Some((m, next)) => r matches Some((o, p)) && o@ == m && p == next,
        },
{
    let (object, p1) = match read_object(b, pos) {
        Some(x) => x,
        None => {
            return None;
        },
    };
    let (sound_path, p2) = match read_str8(b, p1) {
        Some(x) => x,
        None => {
            return None;
        },
    };
    if b.len() - p2 < 8 {
        return None;
    }
    let range = read_u32_le(b, p2);
    let secs = read_u32_le(b, p2 + 4) as u64;
    let interval = Duration::from_secs(secs);
    Some((IfoSoundObject { object, sound_path, range, interval }, p2 + 8))
}

/// Reads `n` sound objects from `pos`.
fn read_sounds(b: &[u8], pos: usize, n: u32) -> (r: Option<(Vec<IfoSoundObject>, usize)>)
    ensures
        match list_at(b@, pos as int, n as nat, sound_item()) {
            None => r is None,
            Some((ms, next)) => r matches Some((v, p)) && sound_views(v@) == ms && p == next,
        },
{
    let mut out: Vec<IfoSoundObject> = Vec::new();
    let mut p = pos;
    let mut i: u32 = 0;
    while i < n
        invariant
            i <= n,
            list_at(b@, pos as int, i as nat, sound_item()) == Some((sound_views(out@), p as int)),
        decreases n - i,
    {
        match read_sound(b, p) {
            Some((o, q)) => {
                proof {
                    lemma_list_step(
                        b@,
                        pos as int,
                        i as nat,
                        sound_item(),
                        sound_views(out@),
                        p as int,
                        o@,
                        q as int,
                    );
                }
                let ghost before = out@;
                out.push(o);
                assert(sound_views(out@) =~= sound_views(before).push(o@));
                p = q;
            },
            None => {
                proof {
                    assert(list_at(b@, pos as int, (i + 1) as nat, sound_item()) is None) by {
                        assert(((i + 1) as nat - 1) as nat == i as nat);
                    }
                    lemma_list_stop(b@, pos as int, (i + 1) as nat, n as nat, sound_item());
                }
                return None;
            },
        }
        i = i + 1;
    }
    Some((out, p))
}

/// A water plane: two corners, each three raw `f32` words.
pub open spec fn plane_at(b: Seq<u8>, pos: int) -> Option<((Vec3Bits, Vec3Bits), int)> {
    if 0 <= pos && pos + 24 <= b.len() {
        Some(((vec3_at(b, pos), vec3_at(b, pos + 12)), pos + 24))
    } else {
        None
    }
}

pub open spec fn plane_item() -> spec_fn(Seq<u8>, int) -> Option<((Vec3Bits, Vec3Bits), int)> {
    |b: Seq<u8>, pos: int| plane_at(b, pos)
}

/// Reads `n` water planes from `pos`.
fn read_planes(b: &[u8], pos: usize, n: u32) -> (r: Option<(Vec<(Vec3Bits, Vec3Bits)>, usize)>)
    ensures
        match list_at(b@, pos as int, n as nat, plane_item()) {
            None => r is None,
            Some((ms, next)) => r matches Some((v, p)) && v@ == ms && p == next,
        },
{
    let mut out: Vec<(Vec3Bits, Vec3Bits)> = Vec::new();
    let mut p = pos;
    let mut i: u32 = 0;
    while i < n
        invariant
            i <= n,
            list_at(b@, pos as int, i as nat, plane_item()) == Some((out@, p as int)),
        decreases n - i,
    {
        if p > b.len() || b.len() - p < 24 {
            proof {
                assert(list_at(b@, pos as int, (i + 1) as nat, plane_item()) is None) by {
                    assert(((i + 1) as nat - 1) as nat == i as nat);
                }
                lemma_list_stop(b@, pos as int, (i + 1) as nat, n as nat, plane_item());
            }
            return None;
        }
        let plane = (read_vec3(b, p), read_vec3(b, p + 12));
        proof {
            lemma_list_step(b@, pos as int, i as nat, plane_item(), out@, p as int, plane, p + 24);
        }
        out.push(plane);
        p = p + 24;
        i = i + 1;
    }
    Some((out, p))
}


// ---------------------------------------------------------------- blocks

/// Block kinds of an IFO file, by their number in the block header.
pub const BLOCK_DEPRECATED_MAP_INFO: u32 = 0;
pub const BLOCK_DECO_OBJECT: u32 = 1;
pub const BLOCK_NPC: u32 = 2;
pub const BLOCK_CNST_OBJECT: u32 = 3;
pub const BLOCK_SOUND_OBJECT: u32 = 4;
pub const BLOCK_EFFECT_OBJECT: u32 = 5;
pub const BLOCK_ANIMATED_OBJECT: u32 = 6;
pub const BLOCK_DEPRECATED_WATER: u32 = 7;
pub const BLOCK_MONSTER_SPAWN: u32 = 8;
pub const BLOCK_WATER_PLANES: u32 = 9;
pub const BLOCK_WARP: u32 = 10;
pub const BLOCK_COLLISION_OBJECT: u32 = 11;
pub const BLOCK_EVENT_OBJECT: u32 = 12;

/// Which kinds of block a read leaves out.
#[derive(Clone, Copy)]
pub struct IfoReadOptions {
    pub skip_monster_spawns: bool,
    pub skip_npcs: bool,
    pub skip_animated_objects: bool,
    pub skip_collision_objects: bool,
    pub skip_event_objects: bool,
    pub skip_cnst_objects: bool,
    pub skip_deco_objects: bool,
    pub skip_effect_objects: bool,
    pub skip_sound_objects: bool,
    pub skip_water_planes: bool,
    pub skip_warp_objects: bool,
}

impl Default for IfoReadOptions {
    /// Reads every kind of block.
    fn default() -> (r: IfoReadOptions)
        ensures
            r == no_skips(),
    {
        IfoReadOptions {
            skip_monster_spawns: false,
            skip_npcs: false,
            skip_animated_objects: false,
            skip_collision_objects: false,
            skip_event_objects: false,
            skip_cnst_objects: false,
            skip_deco_objects: false,
            skip_effect_objects: false,
            skip_sound_objects: false,
            skip_water_planes: false,
            skip_warp_objects: false,
        }
    }
}

/// Options that skip nothing.
pub open spec fn no_skips() -> IfoReadOptions {
    IfoReadOptions {
        skip_monster_spawns: false,
        skip_npcs: false,
        skip_animated_objects: false,
        skip_collision_objects: false,
        skip_event_objects: false,
        skip_cnst_objects: false,
        skip_deco_objects: false,
        skip_effect_objects: false,
        skip_sound_objects: false,
        skip_water_planes: false,
        skip_warp_objects: false,
    }
}

/// Why a file could not be read.
#[derive(Debug, Clone, Copy, PartialEq, Eq, Structural)]
pub enum IfoError {
    /// The data ends inside a header, a count or an item.
    UnexpectedEnd,
    /// A block header names a kind of block that does not exist.
    InvalidBlockType(u32),
}

/// A block as it stands in the file: its kind and its bytes, from its offset
/// to the next larger block offset (or the end of the file).
struct IfoRawBlock {
    block_type: u32,
    data: Vec<u8>,
}

/// A zone tile's placed things.
pub struct IfoFile {
    pub monster_spawns: Vec<IfoMonsterSpawnPoint>,
    pub npcs: Vec<IfoNpc>,
    pub event_objects: Vec<IfoEventObject>,
    pub animated_objects: Vec<IfoObject>,
    pub collision_objects: Vec<IfoObject>,
    pub deco_objects: Vec<IfoObject>,
    pub cnst_objects: Vec<IfoObject>,
    pub effect_objects: Vec<IfoEffectObject>,
    pub sound_objects: Vec<IfoSoundObject>,
    /// The water size as raw `f32` bits.
    pub water_size: u32,
    pub water_planes: Vec<(Vec3Bits, Vec3Bits)>,
    pub warps: Vec<IfoObject>,
    raw_blocks: Vec<IfoRawBlock>,
}

/// A file's contents as values; `raw_blocks` lists each block's kind and bytes
/// in header order.
#[verifier::ext_equal]
pub struct IfoModel {
    pub monster_spawns: Seq<SpawnPointModel>,
    pub npcs: Seq<NpcModel>,
    pub event_objects: Seq<EventModel>,
    pub animated_objects: Seq<ObjectModel>,
    pub collision_objects: Seq<ObjectModel>,
    pub deco_objects: Seq<ObjectModel>,
    pub cnst_objects: Seq<ObjectModel>,
    pub effect_objects: Seq<EffectModel>,
    pub sound_objects: Seq<SoundModel>,
    pub water_size: u32,
    pub water_planes: Seq<(Vec3Bits, Vec3Bits)>,
    pub warps: Seq<ObjectModel>,
    pub raw_blocks: Seq<(u32, Seq<u8>)>,
}

spec fn raw_views(v: Seq<IfoRawBlock>) -> Seq<(u32, Seq<u8>)> {
    Seq::new(v.len(), |i: int| (v[i].block_type, v[i].data@))
}

impl View for IfoFile {
    type V = IfoModel;

    closed spec fn view(&self) -> IfoModel {
        IfoModel {
            monster_spawns: spawn_point_views(self.monster_spawns@),
            npcs: npc_views(self.npcs@),
            event_objects: event_views(self.event_objects@),
            animated_objects: object_views(self.animated_objects@),
            collision_objects: object_views(self.collision_objects@),
            deco_objects: object_views(self.deco_objects@),
            cnst_objects: object_views(self.cnst_objects@),
            effect_objects: effect_views(self.effect_objects@),
            sound_objects: sound_views(self.sound_objects@),
            water_size: self.water_size,
            water_planes: self.water_planes@,
            warps: object_views(self.warps@),
            raw_blocks: raw_views(self.raw_blocks@),
        }
    }
}

/// A file with nothing in it.
pub open spec fn empty_model() -> IfoModel {
    IfoModel {
        monster_spawns: Seq::empty(),
        npcs: Seq::empty(),
        event_objects: Seq::empty(),
        animated_objects: Seq::empty(),
        collision_objects: Seq::empty(),
        deco_objects: Seq::empty(),
        cnst_objects: Seq::empty(),
        effect_objects: Seq::empty(),
        sound_objects: Seq::empty(),
        water_size: 0,
        water_planes: Seq::empty(),
        warps: Seq::empty(),
        raw_blocks: Seq::empty(),
    }
}

/// How reading a file ends: with its contents, with an error, or (on a block
/// whose offset or end lies past the data) not at all.
pub enum IfoOutcome {
    Read(IfoModel),
    Failed(IfoError),
    Stuck,
}

/// A block header entry: kind and offset.
pub open spec fn header_at(b: Seq<u8>, pos: int) -> Option<((u32, u32), int)> {
    if 0 <= pos && pos + 8 <= b.len() {
        Some(((word(b, pos), word(b, pos + 4)), pos + 8))
    } else {
        None
    }
}

pub open spec fn header_item() -> spec_fn(Seq<u8>, int) -> Option<((u32, u32), int)> {
    |b: Seq<u8>, pos: int| header_at(b, pos)
}

/// The block headers: a `u32` count at the start, then that many entries.
pub open spec fn headers_at(b: Seq<u8>) -> Option<Seq<(u32, u32)>> {
    match counted_at(b, 0, header_item()) {
        Some((hs, _)) => Some(hs),
        None => None,
    }
}

/// The smallest offset above `o` among the first `k` headers.
pub open spec fn next_offset(hs: Seq<(u32, u32)>, o: u32, k: nat) -> Option<u32>
    decreases k,
{
    if k == 0 {
        None
    } else {
        let prev = next_offset(hs, o, (k - 1) as nat);
        let x = hs[k - 1].1;
        if x > o {
            match prev {
                Some(m) => Some(if x < m { x } else { m }),
                None => Some(x),
            }
        } else {
            prev
        }
    }
}

/// The file length as a `u32` (reduced to 32 bits).
pub open spec fn file_len32(b: Seq<u8>) -> u32 {
    (b.len() % 0x1_0000_0000) as u32
}

/// Where block `i` ends: at the next larger block offset, else at the end of
/// the file.
pub open spec fn block_end(b: Seq<u8>, hs: Seq<(u32, u32)>, i: int) -> u32 {
    match next_offset(hs, hs[i].1, hs.len()) {
        Some(e) => e,
        None => file_len32(b),
    }
}

/// What a block of kind `t` at `off` adds to `m`.
pub open spec fn block_content(b: Seq<u8>, t: u32, off: int, m: IfoModel, o: IfoReadOptions) -> IfoOutcome {
    if t == BLOCK_ANIMATED_OBJECT {
        if o.skip_animated_objects {
            IfoOutcome::Read(m)
        } else {
            match counted_at(b, off, object_item()) {
                Some((v, _)) => IfoOutcome::Read(IfoModel { animated_objects: m.animated_objects + v, ..m }),
                None => IfoOutcome::Failed(IfoError::UnexpectedEnd),
            }
        }
    } else if t == BLOCK_COLLISION_OBJECT {
        if o.skip_collision_objects {
            IfoOutcome::Read(m)
        } else {
            match counted_at(b, off, object_item()) {
                Some((v, _)) => IfoOutcome::Read(IfoModel { collision_objects: m.collision_objects + v, ..m }),
                None => IfoOutcome::Failed(IfoError::UnexpectedEnd),
            }
        }
    } else if t == BLOCK_CNST_OBJECT {
        if o.skip_cnst_objects {
            IfoOutcome::Read(m)
        } else {
            match counted_at(b, off, object_item()) {
                Some((v, _)) => IfoOutcome::Read(IfoModel { cnst_objects: m.cnst_objects + v, ..m }),
                None => IfoOutcome::Failed(IfoError::UnexpectedEnd),
            }
        }
    } else if t == BLOCK_DECO_OBJECT {
        if o.skip_deco_objects {
            IfoOutcome::Read(m)
        } else {
            match counted_at(b, off, object_item()) {
                Some((v, _)) => IfoOutcome::Read(IfoModel { deco_objects: m.deco_objects + v, ..m }),
                None => IfoOutcome::Failed(IfoError::UnexpectedEnd),
            }
        }
    } else if t == BLOCK_WARP {
        if o.skip_warp_objects {
            IfoOutcome::Read(m)
        } else {
            match counted_at(b, off, object_item()) {
                Some((v, _)) => IfoOutcome::Read(IfoModel { warps: m.warps + v, ..m }),
                None => IfoOutcome::Failed(IfoError::UnexpectedEnd),
            }
        }
    } else if t == BLOCK_EVENT_OBJECT {
        if o.skip_event_objects {
            IfoOutcome::Read(m)
        } else {
            match counted_at(b, off, event_item()) {
                Some((v, _)) => IfoOutcome::Read(IfoModel { event_objects: m.event_objects + v, ..m }),
                None => IfoOutcome::Failed(IfoError::UnexpectedEnd),
            }
        }
    } else if t == BLOCK_NPC {
        if o.skip_npcs {
            IfoOutcome::Read(m)
        } else {
            match counted_at(b, off, npc_item()) {
                Some((v, _)) => IfoOutcome::Read(IfoModel { npcs: m.npcs + v, ..m }),
                None => IfoOutcome::Failed(IfoError::UnexpectedEnd),
            }
        }
    } else if t == BLOCK_MONSTER_SPAWN {
        if o.skip_monster_spawns {
            IfoOutcome::Read(m)
        } else {
            match counted_at(b, off, spawn_point_item()) {
                Some((v, _)) => IfoOutcome::Read(IfoModel { monster_spawns: m.monster_spawns + v, ..m }),
                None => IfoOutcome::Failed(IfoError::UnexpectedEnd),
            }
        }
    } else if t == BLOCK_WATER_PLANES {
        if o.skip_water_planes {
            IfoOutcome::Read(m)
        } else {
            match u32_at(b, off) {
                Some((size, p)) => match counted_at(b, p, plane_item()) {
                    Some((v, _)) => IfoOutcome::Read(
                        IfoModel { water_size: size, water_planes: m.water_planes + v, ..m },
                    ),
                    None => IfoOutcome::Failed(IfoError::UnexpectedEnd),
                },
                None => IfoOutcome::Failed(IfoError::UnexpectedEnd),
            }
        }
    } else if t == BLOCK_EFFECT_OBJECT {
        if o.skip_effect_objects {
            IfoOutcome::Read(m)
        } else {
            match counted_at(b, off, effect_item()) {
                Some((v, _)) => IfoOutcome::Read(IfoModel { effect_objects: m.effect_objects + v, ..m }),
                None => IfoOutcome::Failed(IfoError::UnexpectedEnd),
            }
        }
    } else if t == BLOCK_SOUND_OBJECT {
        if o.skip_sound_objects {
            IfoOutcome::Read(m)
        } else {
            match counted_at(b, off, sound_item()) {
                Some((v, _)) => IfoOutcome::Read(IfoModel { sound_objects: m.sound_objects + v, ..m }),
                None => IfoOutcome::Failed(IfoError::UnexpectedEnd),
            }
        }
    } else if t == BLOCK_DEPRECATED_MAP_INFO || t == BLOCK_DEPRECATED_WATER {
        IfoOutcome::Read(m)
    } else {
        IfoOutcome::Failed(IfoError::InvalidBlockType(t))
    }
}

/// Reading block `i`: its bytes are recorded, then its contents added.
pub open spec fn block_step(b: Seq<u8>, hs: Seq<(u32, u32)>, i: int, m: IfoModel, o: IfoReadOptions) -> IfoOutcome {
    let t = hs[i].0;
    let off = hs[i].1;
    let end = block_end(b, hs, i);
    if off > end || end > b.len() {
        IfoOutcome::Stuck
    } else {
        block_content(
            b,
            t,
            off as int,
            IfoModel { raw_blocks: m.raw_blocks.push((t, b.subrange(off as int, end as int))), ..m },
            o,
        )
    }
}

/// Reading the first `k` blocks in header order.
pub open spec fn ifo_blocks(b: Seq<u8>, hs: Seq<(u32, u32)>, k: nat, o: IfoReadOptions) -> IfoOutcome
    decreases k,
{
    if k == 0 {
        IfoOutcome::Read(empty_model())
    } else {
        match ifo_blocks(b, hs, (k - 1) as nat, o) {
            IfoOutcome::Read(m) => block_step(b, hs, k - 1, m, o),
            other => other,
        }
    }
}

/// Reading a whole file: the block headers, then each block in header order.
pub open spec fn ifo_parse(b: Seq<u8>, o: IfoReadOptions) -> IfoOutcome {
    match headers_at(b) {
        None => IfoOutcome::Failed(IfoError::UnexpectedEnd),
        Some(hs) => ifo_blocks(b, hs, hs.len(), o),
    }
}


/// Reads the block headers.
fn read_headers(b: &[u8]) -> (r: Option<Vec<(u32, u32)>>)
    ensures
        match headers_at(b@) {
            None => r is None,
            Some(hs) => r matches Some(v) && v@ == hs,
        },
{
    let (n, pos) = match read_u32(b, 0) {
        Some(x) => x,
        None => {
            return None;
        },
    };
    let mut out: Vec<(u32, u32)> = Vec::new();
    let mut p = pos;
    let mut i: u32 = 0;
    while i < n
        invariant
            i <= n,
            pos == 4,
            u32_at(b@, 0) == Some((n, 4int)),
            list_at(b@, 4, i as nat, header_item()) == Some((out@, p as int)),
        decreases n - i,
    {
        if p > b.len() || b.len() - p < 8 {
            proof {
                assert(list_at(b@, 4, (i + 1) as nat, header_item()) is None) by {
                    assert(((i + 1) as nat - 1) as nat == i as nat);
                }
                lemma_list_stop(b@, 4, (i + 1) as nat, n as nat, header_item());
            }
            return None;
        }
        let h = (read_u32_le(b, p), read_u32_le(b, p + 4));
        proof {
            lemma_list_step(b@, 4, i as nat, header_item(), out@, p as int, h, p + 8);
        }
        out.push(h);
        p = p + 8;
        i = i + 1;
    }
    Some(out)
}

/// Where block `i` ends.
fn find_block_end(b: &[u8], hs: &Vec<(u32, u32)>, i: usize) -> (r: u32)
    requires
        i < hs@.len(),
    ensures
        r == block_end(b@, hs@, i as int),
{
    let o = hs[i].1;
    let mut best: Option<u32> = None;
    let mut j: usize = 0;
    while j < hs.len()
        invariant
            j <= hs@.len(),
            o == hs@[i as int].1,
            best == next_offset(hs@, o, j as nat),
        decreases hs@.len() - j,
    {
        let x = hs[j].1;
        if x > o {
            best = match best {
                Some(m) => Some(if x < m { x } else { m }),
                None => Some(x),
            };
        }
        j = j + 1;
    }
    match best {
        Some(e) => e,
        None => {
            let len = b.len() as u64;
            (len % 0x1_0000_0000) as u32
        },
    }
}

/// Adds what a block of kind `t` at `off` holds to `f`.
fn read_block_content(b: &[u8], t: u32, off: usize, f: &mut IfoFile, o: &IfoReadOptions) -> (r: Result<(), IfoError>)
    ensures
        match block_content(b@, t, off as int, old(f)@, *o) {
            IfoOutcome::Read(m) => r is Ok && final(f)@ == m,
            IfoOutcome::Failed(e) => r == Err::<(), IfoError>(e),
            IfoOutcome::Stuck => false,
        },
{
    if t == BLOCK_ANIMATED_OBJECT {
        if !o.skip_animated_objects {
            let (n, p) = match read_u32(b, off) {
                Some(x) => x,
                None => {
                    return Err(IfoError::UnexpectedEnd);
                },
            };
            let (mut v, _) = match read_objects(b, p, n) {
                Some(x) => x,
                None => {
                    return Err(IfoError::UnexpectedEnd);
                },
            };
            let ghost a0 = f.animated_objects@;
            let ghost v0 = v@;
            f.animated_objects.append(&mut v);
            assert(object_views(f.animated_objects@) =~= object_views(a0) + object_views(v0));
        }
        Ok(())
    } else if t == BLOCK_COLLISION_OBJECT {
        if !o.skip_collision_objects {
            let (n, p) = match read_u32(b, off) {
                Some(x) => x,
                None => {
                    return Err(IfoError::UnexpectedEnd);
                },
            };
            let (mut v, _) = match read_objects(b, p, n) {
                Some(x) => x,
                None => {
                    return Err(IfoError::UnexpectedEnd);
                },
            };
            let ghost a0 = f.collision_objects@;
            let ghost v0 = v@;
            f.collision_objects.append(&mut v);
            assert(object_views(f.collision_objects@) =~= object_views(a0) + object_views(v0));
        }
        Ok(())
    } else if t == BLOCK_CNST_OBJECT {
        if !o.skip_cnst_objects {
            let (n, p) = match read_u32(b, off) {
                Some(x) => x,
                None => {
                    return Err(IfoError::UnexpectedEnd);
                },
            };
            let (mut v, _) = match read_objects(b, p, n) {
                Some(x) => x,
                None => {
                    return Err(IfoError::UnexpectedEnd);
                },
            };
            let ghost a0 = f.cnst_objects@;
            let ghost v0 = v@;
            f.cnst_objects.append(&mut v);
            assert(object_views(f.cnst_objects@) =~= object_views(a0) + object_views(v0));
        }
        Ok(())
    } else if t == BLOCK_DECO_OBJECT {
        if !o.skip_deco_objects {
            let (n, p) = match read_u32(b, off) {
                Some(x) => x,
                None => {
                    return Err(IfoError::UnexpectedEnd);
                },
            };
            let (mut v, _) = match read_objects(b, p, n) {
                Some(x) => x,
                None => {
                    return Err(IfoError::UnexpectedEnd);
                },
            };
            let ghost a0 = f.deco_objects@;
            let ghost v0 = v@;
            f.deco_objects.append(&mut v);
            assert(object_views(f.deco_objects@) =~= object_views(a0) + object_views(v0));
        }
        Ok(())
    } else if t == BLOCK_WARP {
        if !o.skip_warp_objects {
            let (n, p) = match read_u32(b, off) {
                Some(x) => x,
                None => {
                    return Err(IfoError::UnexpectedEnd);
                },
            };
            let (mut v, _) = match read_objects(b, p, n) {
                Some(x) => x,
                None => {
                    return Err(IfoError::UnexpectedEnd);
                },
            };
            let ghost a0 = f.warps@;
            let ghost v0 = v@;
            f.warps.append(&mut v);
            assert(object_views(f.warps@) =~= object_views(a0) + object_views(v0));
        }
        Ok(())
    } else if t == BLOCK_EVENT_OBJECT {
        if !o.skip_event_objects {
            let (n, p) = match read_u32(b, off) {
                Some(x) => x,
                None => {
                    return Err(IfoError::UnexpectedEnd);
                },
            };
            let (mut v, _) = match read_events(b, p, n) {
                Some(x) => x,
                None => {
                    return Err(IfoError::UnexpectedEnd);
                },
            };
            let ghost a0 = f.event_objects@;
            let ghost v0 = v@;
            f.event_objects.append(&mut v);
            assert(event_views(f.event_objects@) =~= event_views(a0) + event_views(v0));
        }
        Ok(())
    } else if t == BLOCK_NPC {
        if !o.skip_npcs {
            let (n, p) = match read_u32(b, off) {
                Some(x) => x,
                None => {
                    return Err(IfoError::UnexpectedEnd);
                },
            };
            let (mut v, _) = match read_npcs(b, p, n) {
                Some(x) => x,
                None => {
                    return Err(IfoError::UnexpectedEnd);
                },
            };
            let ghost a0 = f.npcs@;
            let ghost v0 = v@;
            f.npcs.append(&mut v);
            assert(npc_views(f.npcs@) =~= npc_views(a0) + npc_views(v0));
        }
        Ok(())
    } else if t == BLOCK_MONSTER_SPAWN {
        if !o.skip_monster_spawns {
            let (n, p) = match read_u32(b, off) {
                Some(x) => x,
                None => {
                    return Err(IfoError::UnexpectedEnd);
                },
            };
            let (mut v, _) = match read_spawn_points(b, p, n) {
                Some(x) => x,
                None => {
                    return Err(IfoError::UnexpectedEnd);
                },
            };
            let ghost a0 = f.monster_spawns@;
            let ghost v0 = v@;
            f.monster_spawns.append(&mut v);
            assert(spawn_point_views(f.monster_spawns@) =~= spawn_point_views(a0) + spawn_point_views(v0));
        }
        Ok(())
    } else if t == BLOCK_WATER_PLANES {
        if !o.skip_water_planes {
            let (size, p0) = match read_u32(b, off) {
                Some(x) => x,
                None => {
                    return Err(IfoError::UnexpectedEnd);
                },
            };
            let (n, p) = match read_u32(b, p0) {
                Some(x) => x,
                None => {
                    return Err(IfoError::UnexpectedEnd);
                },
            };
            let (mut v, _) = match read_planes(b, p, n) {
                Some(x) => x,
                None => {
                    return Err(IfoError::UnexpectedEnd);
                },
            };
            f.water_size = size;
            f.water_planes.append(&mut v);
        }
        Ok(())
    } else if t == BLOCK_EFFECT_OBJECT {
        if !o.skip_effect_objects {
            let (n, p) = match read_u32(b, off) {
                Some(x) => x,
                None => {
                    return Err(IfoError::UnexpectedEnd);
                },
            };
            let (mut v, _) = match read_effects(b, p, n) {
                Some(x) => x,
                None => {
                    return Err(IfoError::UnexpectedEnd);
                },
            };
            let ghost a0 = f.effect_objects@;
            let ghost v0 = v@;
            f.effect_objects.append(&mut v);
            assert(effect_views(f.effect_objects@) =~= effect_views(a0) + effect_views(v0));
        }
        Ok(())
    } else if t == BLOCK_SOUND_OBJECT {
        if !o.skip_sound_objects {
            let (n, p) = match read_u32(b, off) {
                Some(x) => x,
                None => {
                    return Err(IfoError::UnexpectedEnd);
                },
            };
            let (mut v, _) = match read_sounds(b, p, n) {
                Some(x) => x,
                None => {
                    return Err(IfoError::UnexpectedEnd);
                },
            };
            let ghost a0 = f.sound_objects@;
            let ghost v0 = v@;
            f.sound_objects.append(&mut v);
            assert(sound_views(f.sound_objects@) =~= sound_views(a0) + sound_views(v0));
        }
        Ok(())
    } else if t == BLOCK_DEPRECATED_MAP_INFO || t == BLOCK_DEPRECATED_WATER {
        Ok(())
    } else {
        Err(IfoError::InvalidBlockType(t))
    }
}

proof fn lemma_blocks_settle(b: Seq<u8>, hs: Seq<(u32, u32)>, k: nat, n: nat, o: IfoReadOptions)
    requires
        k <= n,
        !(ifo_blocks(b, hs, k, o) is Read),
    ensures
        ifo_blocks(b, hs, n, o) == ifo_blocks(b, hs, k, o),
    decreases n - k,
{
    if k < n {
        assert(ifo_blocks(b, hs, (k + 1) as nat, o) == ifo_blocks(b, hs, k, o)) by {
            assert(((k + 1) as nat - 1) as nat == k);
        }
        lemma_blocks_settle(b, hs, (k + 1) as nat, n, o);
    }
}

impl IfoFile {
    /// Reads a file: the block headers, then each block in header order,
    /// leaving out the kinds that `options` skips.
    pub fn read(data: &[u8], options: &IfoReadOptions) -> (r: Result<IfoFile, IfoError>)
        requires
            !(ifo_parse(data@, *options) is Stuck),
        ensures
            match ifo_parse(data@, *options) {
                IfoOutcome::Read(m) => r matches Ok(f) && f@ == m,
                IfoOutcome::Failed(e) => r == Err::<IfoFile, IfoError>(e),
                IfoOutcome::Stuck => false,
            },
    {
        match IfoFile::try_read(data, options) {
            Some(r) => r,
            None => Err(IfoError::UnexpectedEnd),
        }
    }

    /// Reads a file as `read` does, without asking anything of it: `None`
    /// when a block's offset or end lies past the data (where `read` cannot
    /// be called).
    pub fn try_read(data: &[u8], options: &IfoReadOptions) -> (r: Option<Result<IfoFile, IfoError>>)
        ensures
            match ifo_parse(data@, *options) {
                IfoOutcome::Read(m) => r matches Some(Ok(f)) && f@ == m,
                IfoOutcome::Failed(e) => r == Some(Err::<IfoFile, IfoError>(e)),
                IfoOutcome::Stuck => r is None,
            },
    {
        let hs = match read_headers(data) {
            Some(h) => h,
            None => {
                return Some(Err(IfoError::UnexpectedEnd));
            },
        };
        let mut f = IfoFile {
            monster_spawns: Vec::new(),
            npcs: Vec::new(),
            event_objects: Vec::new(),
            animated_objects: Vec::new(),
            collision_objects: Vec::new(),
            deco_objects: Vec::new(),
            cnst_objects: Vec::new(),
            effect_objects: Vec::new(),
            sound_objects: Vec::new(),
            water_size: 0,
            water_planes: Vec::new(),
            warps: Vec::new(),
            raw_blocks: Vec::new(),
        };
        assert(f@ =~= empty_model());
        let mut i: usize = 0;
        while i < hs.len()
            invariant
                i <= hs@.len(),
                headers_at(data@) == Some(hs@),
                ifo_blocks(data@, hs@, i as nat, *options) == IfoOutcome::Read(f@),
            decreases hs@.len() - i,
        {
            let t = hs[i].0;
            let off = hs[i].1;
            let end = find_block_end(data, &hs, i);
            proof {
                assert(ifo_blocks(data@, hs@, (i + 1) as nat, *options) == block_step(
                    data@,
                    hs@,
                    i as int,
                    f@,
                    *options,
                )) by {
                    assert(((i + 1) as nat - 1) as nat == i as nat);
                }
            }
            if off > end || end as usize > data.len() {
                proof {
                    lemma_blocks_settle(data@, hs@, (i + 1) as nat, hs@.len(), *options);
                }
                return None;
            }
            let slice = &data[off as usize..end as usize];
            assert(slice@ == data@.subrange(off as int, end as int));
            let mut raw: Vec<u8> = Vec::new();
            raw.extend_from_slice(slice);
            assert(raw@ =~= slice@);
            let ghost r0 = f.raw_blocks@;
            f.raw_blocks.push(IfoRawBlock { block_type: t, data: raw });
            assert(raw_views(f.raw_blocks@) =~= raw_views(r0).push(
                (t, data@.subrange(off as int, end as int)),
            ));
            match read_block_content(data, t, off as usize, &mut f, options) {
                Ok(()) => {},
                Err(e) => {
                    proof {
                        lemma_blocks_settle(data@, hs@, (i + 1) as nat, hs@.len(), *options);
                    }
                    return Some(Err(e));
                },
            }
            i = i + 1;
        }
        Some(Ok(f))
    }

    /// Whether one of the file's blocks holds monster spawn points.
    pub fn has_monster_spawn_block(&self) -> (r: bool)
        ensures
            r == exists|i: int|
                0 <= i < self@.raw_blocks.len() && #[trigger] self@.raw_blocks[i].0
                    == BLOCK_MONSTER_SPAWN,
    {
        let mut i: usize = 0;
        while i < self.raw_blocks.len()
            invariant
                i <= self.raw_blocks@.len(),
                forall|j: int| 0 <= j < i ==> #[trigger] self@.raw_blocks[j].0 != BLOCK_MONSTER_SPAWN,
            decreases self.raw_blocks@.len() - i,
        {
            if self.raw_blocks[i].block_type == BLOCK_MONSTER_SPAWN {
                assert(self@.raw_blocks[i as int].0 == BLOCK_MONSTER_SPAWN);
                return true;
            }
            i = i + 1;
        }
        false
    }
}


// ---------------------------------------------------------------- writing

/// The bytes of items one after another, each written by `f`.
pub open spec fn concat_map<M>(v: Seq<M>, f: spec_fn(M) -> Seq<u8>) -> Seq<u8>
    decreases v.len(),
{
    if v.len() == 0 {
        Seq::<u8>::empty()
    } else {
        concat_map(v.drop_last(), f) + f(v.last())
    }
}

proof fn lemma_concat_take<M>(v: Seq<M>, i: int, f: spec_fn(M) -> Seq<u8>)
    requires
        0 <= i < v.len(),
    ensures
        concat_map(v.take(i + 1), f) == concat_map(v.take(i), f) + f(v[i]),
{
    let t = v.take(i + 1);
    assert(t.drop_last() =~= v.take(i));
    assert(t.last() == v[i]);
}

/// A string can be handed to the encoder: its UTF-8 form is at most 256 MiB.
pub open spec fn text_fits(s: Seq<char>) -> bool {
    vstd::utf8::encode_utf8(s).len() <= 0x1000_0000
}

/// The bytes written for a string with a one-byte length: the encoded length
/// reduced to 8 bits, then the EUC-KR bytes.
pub open spec fn enc_str8(s: Seq<char>) -> Seq<u8> {
    seq![(encode_text(s).len() % 256) as u8] + encode_text(s)
}

/// The 60 bytes of an object after its name.
pub open spec fn object_fixed_bytes(o: ObjectModel) -> Seq<u8> {
    u16_le_bytes(o.warp_id) + u16_le_bytes(o.event_id) + u32_le_bytes(o.object_type) + u32_le_bytes(
        o.object_id,
    ) + u32_le_bytes(o.minimap_position.x) + u32_le_bytes(o.minimap_position.y) + u32_le_bytes(
        o.rotation.x,
    ) + u32_le_bytes(o.rotation.y) + u32_le_bytes(o.rotation.z) + u32_le_bytes(o.rotation.w)
        + u32_le_bytes(o.position.x) + u32_le_bytes(o.position.y) + u32_le_bytes(o.position.z)
        + u32_le_bytes(o.scale.x) + u32_le_bytes(o.scale.y) + u32_le_bytes(o.scale.z)
}

/// The bytes written for an object, in the order [`object_at`] reads them.
pub open spec fn object_bytes(o: ObjectModel) -> Seq<u8> {
    enc_str8(o.object_name) + object_fixed_bytes(o)
}

pub open spec fn monster_bytes(m: MonsterModel) -> Seq<u8> {
    enc_str8(m.name) + u32_le_bytes(m.id) + u32_le_bytes(m.count)
}

pub open spec fn monster_enc() -> spec_fn(MonsterModel) -> Seq<u8> {
    |m: MonsterModel| monster_bytes(m)
}

/// A `u32` count (reduced to 32 bits) and the monster entries.
pub open spec fn monsters_bytes(v: Seq<MonsterModel>) -> Seq<u8> {
    u32_le_bytes(low32(v.len())) + concat_map(v, monster_enc())
}

/// The bytes written for a spawn point, in the order [`spawn_point_at`] reads them.
pub open spec fn spawn_point_bytes(s: SpawnPointModel) -> Seq<u8> {
    object_bytes(s.object) + enc_str8(s.name) + monsters_bytes(s.basic_spawns) + monsters_bytes(
        s.tactic_spawns,
    ) + u32_le_bytes(s.interval) + u32_le_bytes(s.limit_count) + u32_le_bytes(s.range)
        + u32_le_bytes(s.tactic_points)
}

pub open spec fn spawn_point_enc() -> spec_fn(SpawnPointModel) -> Seq<u8> {
    |s: SpawnPointModel| spawn_point_bytes(s)
}

/// The monster spawn block: a `u32` count and the spawn points.
pub open spec fn spawn_block_bytes(v: Seq<SpawnPointModel>) -> Seq<u8> {
    u32_le_bytes(low32(v.len())) + concat_map(v, spawn_point_enc())
}

/// Every text of the monster entries can be encoded.
pub open spec fn monsters_text_fit(v: Seq<MonsterModel>) -> bool {
    forall|i: int| 0 <= i < v.len() ==> text_fits(#[trigger] v[i].name)
}

/// Every text of the spawn points can be encoded.
pub open spec fn spawns_text_fit(v: Seq<SpawnPointModel>) -> bool {
    forall|i: int|
        0 <= i < v.len() ==> {
            &&& text_fits(#[trigger] v[i].object.object_name)
            &&& text_fits(v[i].name)
            &&& monsters_text_fit(v[i].basic_spawns)
            &&& monsters_text_fit(v[i].tactic_spawns)
        }
}

fn write_str8(out: &mut Vec<u8>, s: &String)
    requires
        text_fits(s@),
    ensures
        final(out)@ == old(out)@ + enc_str8(s@),
{
    let e = encode_euc_kr(s.as_str());
    assert(e@ == encode_text(s@));
    let ghost before = out@;
    out.push((e.len() % 256) as u8);
    out.extend_from_slice(e.as_slice());
    assert(final(out)@ =~= before + enc_str8(s@));
}

fn write_object(out: &mut Vec<u8>, o: &IfoObject)
    requires
        text_fits(o.object_name@),
    ensures
        final(out)@ == old(out)@ + object_bytes(o@),
{
    let ghost before = out@;
    write_str8(out, &o.object_name);
    push_u16_le(out, o.warp_id);
    push_u16_le(out, o.event_id);
    push_u32_le(out, o.object_type);
    push_u32_le(out, o.object_id);
    push_u32_le(out, o.minimap_position.x);
    push_u32_le(out, o.minimap_position.y);
    push_u32_le(out, o.rotation.x);
    push_u32_le(out, o.rotation.y);
    push_u32_le(out, o.rotation.z);
    push_u32_le(out, o.rotation.w);
    push_u32_le(out, o.position.x);
    push_u32_le(out, o.position.y);
    push_u32_le(out, o.position.z);
    push_u32_le(out, o.scale.x);
    push_u32_le(out, o.scale.y);
    push_u32_le(out, o.scale.z);
    assert(final(out)@ =~= before + object_bytes(o@));
}

/// `n` reduced to 32 bits.
fn low32_of(n: usize) -> (r: u32)
    ensures
        r == low32(n as nat),
{
    ((n as u64) % 0x1_0000_0000) as u32
}

fn write_monsters(out: &mut Vec<u8>, v: &Vec<IfoMonsterSpawn>)
    requires
        monsters_text_fit(monster_views(v@)),
    ensures
        final(out)@ == old(out)@ + monsters_bytes(monster_views(v@)),
{
    let ghost start = out@;
    push_u32_le(out, low32_of(v.len()));
    let ghost head = out@;
    let mut i: usize = 0;
    while i < v.len()
        invariant
            i <= v@.len(),
            monsters_text_fit(monster_views(v@)),
            head == start + u32_le_bytes(low32(v@.len())),
            out@ == head + concat_map(monster_views(v@).take(i as int), monster_enc()),
        decreases v@.len() - i,
    {
        let ghost before = out@;
        let m = &v[i];
        assert(text_fits(monster_views(v@)[i as int].name));
        write_str8(out, &m.name);
        push_u32_le(out, m.id);
        push_u32_le(out, m.count);
        proof {
            assert(monster_views(v@)[i as int] == m@);
            lemma_concat_take(monster_views(v@), i as int, monster_enc());
            assert(out@ =~= head + concat_map(monster_views(v@).take(i + 1), monster_enc()));
        }
        i = i + 1;
    }
    assert(monster_views(v@).take(v@.len() as int) =~= monster_views(v@));
}

fn write_spawn_point(out: &mut Vec<u8>, s: &IfoMonsterSpawnPoint)
    requires
        text_fits(s.object.object_name@),
        text_fits(s.name@),
        monsters_text_fit(monster_views(s.basic_spawns@)),
        monsters_text_fit(monster_views(s.tactic_spawns@)),
    ensures
        final(out)@ == old(out)@ + spawn_point_bytes(s@),
{
    let ghost before = out@;
    write_object(out, &s.object);
    write_str8(out, &s.name);
    write_monsters(out, &s.basic_spawns);
    write_monsters(out, &s.tactic_spawns);
    push_u32_le(out, s.interval);
    push_u32_le(out, s.limit_count);
    push_u32_le(out, s.range);
    push_u32_le(out, s.tactic_points);
    assert(final(out)@ =~= before + spawn_point_bytes(s@));
}

/// The bytes of a monster spawn block for `v`.
fn write_spawn_block(v: &Vec<IfoMonsterSpawnPoint>) -> (out: Vec<u8>)
    requires
        spawns_text_fit(spawn_point_views(v@)),
    ensures
        out@ == spawn_block_bytes(spawn_point_views(v@)),
{
    let mut out: Vec<u8> = Vec::new();
    push_u32_le(&mut out, low32_of(v.len()));
    let ghost head = out@;
    let mut i: usize = 0;
    while i < v.len()
        invariant
            i <= v@.len(),
            spawns_text_fit(spawn_point_views(v@)),
            head == Seq::<u8>::empty() + u32_le_bytes(low32(v@.len())),
            out@ == head + concat_map(spawn_point_views(v@).take(i as int), spawn_point_enc()),
        decreases v@.len() - i,
    {
        let ghost before = out@;
        let s = &v[i];
        let ghost sv = spawn_point_views(v@);
        assert(sv[i as int] == s@);
        assert(text_fits(sv[i as int].object.object_name));
        write_spawn_point(&mut out, s);
        proof {
            lemma_concat_take(sv, i as int, spawn_point_enc());
            assert(out@ =~= head + concat_map(sv.take(i + 1), spawn_point_enc()));
        }
        i = i + 1;
    }
    assert(spawn_point_views(v@).take(v@.len() as int) =~= spawn_point_views(v@));
    assert(out@ =~= spawn_block_bytes(spawn_point_views(v@)));
    out
}

/// A monster spawn block has to be added: there are spawn points but no
/// block to write them into.
pub open spec fn needs_spawn_block(m: IfoModel) -> bool {
    m.monster_spawns.len() > 0 && !(exists|i: int|
        0 <= i < m.raw_blocks.len() && #[trigger] m.raw_blocks[i].0 == BLOCK_MONSTER_SPAWN)
}

/// The blocks written, in order: each recorded block with its bytes (a
/// monster spawn block rewritten from the spawn points), then a new monster
/// spawn block where one is needed.
pub open spec fn block_bodies(m: IfoModel) -> Seq<(u32, Seq<u8>)> {
    let written = Seq::new(
        m.raw_blocks.len(),
        |i: int|
            (
                m.raw_blocks[i].0,
                if m.raw_blocks[i].0 == BLOCK_MONSTER_SPAWN {
                    spawn_block_bytes(m.monster_spawns)
                } else {
                    m.raw_blocks[i].1
                },
            ),
    );
    if needs_spawn_block(m) {
        written.push((BLOCK_MONSTER_SPAWN, spawn_block_bytes(m.monster_spawns)))
    } else {
        written
    }
}

/// The bytes of the first `k` blocks, one after another.
pub open spec fn bodies_bytes(bs: Seq<(u32, Seq<u8>)>, k: nat) -> Seq<u8>
    decreases k,
{
    if k == 0 {
        Seq::<u8>::empty()
    } else {
        bodies_bytes(bs, (k - 1) as nat) + bs[k - 1].1
    }
}

/// The header entries of the first `k` blocks: kind, then offset (the blocks
/// start at `base`), reduced to 32 bits.
pub open spec fn headers_bytes(bs: Seq<(u32, Seq<u8>)>, base: nat, k: nat) -> Seq<u8>
    decreases k,
{
    if k == 0 {
        Seq::<u8>::empty()
    } else {
        headers_bytes(bs, base, (k - 1) as nat) + u32_le_bytes(bs[k - 1].0) + u32_le_bytes(
            low32(base + bodies_bytes(bs, (k - 1) as nat).len()),
        )
    }
}

/// The bytes written for a file: the block count, the header entries, then
/// the blocks.
pub open spec fn ifo_bytes(m: IfoModel) -> Seq<u8> {
    let bs = block_bodies(m);
    u32_le_bytes(low32(bs.len())) + headers_bytes(bs, 4 + 8 * bs.len(), bs.len()) + bodies_bytes(
        bs,
        bs.len(),
    )
}

/// `(base + len)` reduced to 32 bits.
fn low32_sum(base: u128, len: usize) -> (r: u32)
    requires
        base < 0x1_0000_0000_0000_0000_0000,
    ensures
        r == low32((base + len) as nat),
{
    let x: u128 = base + len as u128;
    (x % 0x1_0000_0000) as u32
}

impl IfoFile {
    /// Writes the file: every block it was read with, in the same order, the
    /// monster spawn block rewritten from `monster_spawns`, and a monster
    /// spawn block added at the end where there are spawn points but none was
    /// read.
    #[verifier::rlimit(40)]
    pub fn write(&self) -> (out: Vec<u8>)
        requires
            spawns_text_fit(self@.monster_spawns),
        ensures
            out@ == ifo_bytes(self@),
    {
        let needs = self.monster_spawns.len() > 0 && !self.has_monster_spawn_block();
        let spawn_block = write_spawn_block(&self.monster_spawns);
        let ghost m = self@;
        let ghost bs = block_bodies(m);
        let n = self.raw_blocks.len();
        let count: u128 = if needs {
            n as u128 + 1
        } else {
            n as u128
        };
        assert(bs.len() == count);
        let base: u128 = 4 + 8 * count;
        let mut out: Vec<u8> = Vec::new();
        push_u32_le(&mut out, (count % 0x1_0000_0000) as u32);
        let ghost head = out@;
        let mut body: Vec<u8> = Vec::new();
        let mut i: usize = 0;
        while i < n
            invariant
                i <= n,
                n == self.raw_blocks@.len(),
                m == self@,
                bs == block_bodies(m),
                bs.len() == count,
                base == 4 + 8 * count,
                count <= n + 1,
                spawn_block@ == spawn_block_bytes(m.monster_spawns),
                head == Seq::<u8>::empty() + u32_le_bytes(low32(count as nat)),
                out@ == head + headers_bytes(bs, base as nat, i as nat),
                body@ == bodies_bytes(bs, i as nat),
            decreases n - i,
        {
            let t = self.raw_blocks[i].block_type;
            let ghost h0 = out@;
            let ghost b0 = body@;
            push_u32_le(&mut out, t);
            push_u32_le(&mut out, low32_sum(base, body.len()));
            if t == BLOCK_MONSTER_SPAWN {
                body.extend_from_slice(spawn_block.as_slice());
            } else {
                body.extend_from_slice(self.raw_blocks[i].data.as_slice());
            }
            proof {
                assert(bs[i as int].0 == t);
                assert(((i + 1) as nat - 1) as nat == i as nat);
                assert(body@ =~= b0 + bs[i as int].1);
                assert(out@ =~= head + headers_bytes(bs, base as nat, (i + 1) as nat));
            }
            i = i + 1;
        }
        if needs {
            let ghost h0 = out@;
            let ghost b0 = body@;
            proof {
                assert(needs_spawn_block(m)) by {
                    assert(!(exists|j: int|
                        0 <= j < m.raw_blocks.len() && #[trigger] m.raw_blocks[j].0
                            == BLOCK_MONSTER_SPAWN));
                }
            }
            push_u32_le(&mut out, BLOCK_MONSTER_SPAWN);
            push_u32_le(&mut out, low32_sum(base, body.len()));
            body.extend_from_slice(spawn_block.as_slice());
            proof {
                assert(((n + 1) as nat - 1) as nat == n as nat);
                assert(body@ =~= b0 + bs[n as int].1);
                assert(out@ =~= head + headers_bytes(bs, base as nat, (n + 1) as nat));
            }
        }
        out.append(&mut body);
        assert(out@ =~= ifo_bytes(m));
        out
    }
}


// ---------------------------------------------------------------- what a read depends on

/// `c` holds at `q` the bytes that `b` holds from `p` up to `e`.
pub open spec fn same_span(b: Seq<u8>, p: int, e: int, c: Seq<u8>, q: int) -> bool {
    &&& 0 <= p <= e <= b.len()
    &&& 0 <= q
    &&& q + (e - p) <= c.len()
    &&& c.subrange(q, q + (e - p)) == b.subrange(p, e)
}

/// A reader never moves backwards.
pub open spec fn forward<M>(f: spec_fn(Seq<u8>, int) -> Option<(M, int)>) -> bool {
    forall|b: Seq<u8>, p: int| #![trigger f(b, p)] f(b, p) matches Some((_m, e)) ==> p <= e
}

/// What a reader gives depends only on the bytes it reads: the same bytes
/// elsewhere read the same.
pub open spec fn local<M>(f: spec_fn(Seq<u8>, int) -> Option<(M, int)>) -> bool {
    forall|b: Seq<u8>, p: int, c: Seq<u8>, q: int|
        #![trigger f(b, p), f(c, q)]
        f(b, p) matches Some((m, e)) ==> (same_span(b, p, e, c, q) ==> f(c, q) == Some(
            (m, q + (e - p)),
        ))
}

proof fn lemma_span_bytes(b: Seq<u8>, p: int, e: int, c: Seq<u8>, q: int)
    requires
        same_span(b, p, e, c, q),
    ensures
        forall|j: int| q <= j < q + (e - p) ==> #[trigger] c[j] == b[j - q + p],
{
    assert forall|j: int| q <= j < q + (e - p) implies #[trigger] c[j] == b[j - q + p] by {
        assert(c[j] == c.subrange(q, q + (e - p))[j - q]);
        assert(b[j - q + p] == b.subrange(p, e)[j - q]);
    }
}

proof fn lemma_span_split(b: Seq<u8>, p: int, p1: int, e: int, c: Seq<u8>, q: int)
    requires
        same_span(b, p, e, c, q),
        p <= p1 <= e,
    ensures
        same_span(b, p, p1, c, q),
        same_span(b, p1, e, c, q + (p1 - p)),
{
    lemma_span_bytes(b, p, e, c, q);
    assert(c.subrange(q, q + (p1 - p)) =~= b.subrange(p, p1));
    assert(c.subrange(q + (p1 - p), q + (p1 - p) + (e - p1)) =~= b.subrange(p1, e));
}

proof fn lemma_u32_local(b: Seq<u8>, p: int, c: Seq<u8>, q: int)
    requires
        u32_at(b, p) is Some,
        same_span(b, p, p + 4, c, q),
    ensures
        u32_at(c, q) == Some((word(b, p), q + 4)),
{
    lemma_span_bytes(b, p, p + 4, c, q);
    assert(c[q] == b[p]);
    assert(c[q + 1] == b[p + 1]);
    assert(c[q + 2] == b[p + 2]);
    assert(c[q + 3] == b[p + 3]);
}

proof fn lemma_str8_local(b: Seq<u8>, p: int, c: Seq<u8>, q: int)
    requires
        str8_at(b, p) matches Some((_s, e)) && same_span(b, p, e, c, q),
    ensures
        str8_at(c, q) == Some((str8_at(b, p).unwrap().0, q + (str8_at(b, p).unwrap().1 - p))),
{
    let e = str8_at(b, p).unwrap().1;
    lemma_span_bytes(b, p, e, c, q);
    assert(c[q] == b[p]);
    assert(c.subrange(q + 1, q + 1 + c[q]) =~= b.subrange(p + 1, p + 1 + b[p]));
}

proof fn lemma_word_eq(b: Seq<u8>, p: int, c: Seq<u8>, q: int, k: int, len: int)
    requires
        forall|j: int| 0 <= j < len ==> #[trigger] c[q + j] == b[p + j],
        0 <= k,
        k + 4 <= len,
    ensures
        word(c, q + k) == word(b, p + k),
{
    assert(c[q + k] == b[p + k]);
    assert(c[q + (k + 1)] == b[p + (k + 1)]);
    assert(c[q + (k + 2)] == b[p + (k + 2)]);
    assert(c[q + (k + 3)] == b[p + (k + 3)]);
}

#[verifier::rlimit(60)]
proof fn lemma_object_local(b: Seq<u8>, p: int, c: Seq<u8>, q: int)
    requires
        object_at(b, p) matches Some((_m, e)) && same_span(b, p, e, c, q),
    ensures
        object_at(c, q) == Some((object_at(b, p).unwrap().0, q + (object_at(b, p).unwrap().1 - p))),
{
    let e = object_at(b, p).unwrap().1;
    let p1 = str8_at(b, p).unwrap().1;
    lemma_span_split(b, p, p1, e, c, q);
    lemma_str8_local(b, p, c, q);
    let q1 = q + (p1 - p);
    lemma_span_bytes(b, p1, e, c, q1);
    assert(forall|k: int| 0 <= k < 60 ==> #[trigger] c[q1 + k] == b[p1 + k]) by {
        assert forall|k: int| 0 <= k < 60 implies #[trigger] c[q1 + k] == b[p1 + k] by {
            assert(c[q1 + k] == b[(q1 + k) - q1 + p1]);
        }
    }
    assert(le_u16(c, q1) == le_u16(b, p1)) by {
        assert(c[q1 + 0] == b[p1 + 0]);
        assert(c[q1 + 1] == b[p1 + 1]);
    }
    assert(le_u16(c, q1 + 2) == le_u16(b, p1 + 2)) by {
        assert(c[q1 + 2] == b[p1 + 2]);
        assert(c[q1 + 3] == b[p1 + 3]);
    }
    lemma_word_eq(b, p1, c, q1, 4, 60);
    lemma_word_eq(b, p1, c, q1, 8, 60);
    lemma_word_eq(b, p1, c, q1, 12, 60);
    lemma_word_eq(b, p1, c, q1, 16, 60);
    lemma_word_eq(b, p1, c, q1, 20, 60);
    lemma_word_eq(b, p1, c, q1, 24, 60);
    lemma_word_eq(b, p1, c, q1, 28, 60);
    lemma_word_eq(b, p1, c, q1, 32, 60);
    lemma_word_eq(b, p1, c, q1, 36, 60);
    lemma_word_eq(b, p1, c, q1, 40, 60);
    lemma_word_eq(b, p1, c, q1, 44, 60);
    lemma_word_eq(b, p1, c, q1, 48, 60);
    lemma_word_eq(b, p1, c, q1, 52, 60);
    lemma_word_eq(b, p1, c, q1, 56, 60);
}


proof fn lemma_list_forward<M>(b: Seq<u8>, p: int, n: nat, f: spec_fn(Seq<u8>, int) -> Option<(M, int)>)
    requires
        forward(f),
        list_at(b, p, n, f) is Some,
    ensures
        p <= list_at(b, p, n, f).unwrap().1,
    decreases n,
{
    if n > 0 {
        lemma_list_forward(b, p, (n - 1) as nat, f);
        let p1 = list_at(b, p, (n - 1) as nat, f).unwrap().1;
        assert(f(b, p1) is Some);
    }
}

proof fn lemma_list_local<M>(
    b: Seq<u8>,
    p: int,
    n: nat,
    f: spec_fn(Seq<u8>, int) -> Option<(M, int)>,
    c: Seq<u8>,
    q: int,
)
    requires
        forward(f),
        local(f),
        list_at(b, p, n, f) matches Some((_v, e)) && same_span(b, p, e, c, q),
    ensures
        list_at(c, q, n, f) == Some(
            (list_at(b, p, n, f).unwrap().0, q + (list_at(b, p, n, f).unwrap().1 - p)),
        ),
    decreases n,
{
    if n > 0 {
        let e = list_at(b, p, n, f).unwrap().1;
        lemma_list_forward(b, p, (n - 1) as nat, f);
        let p1 = list_at(b, p, (n - 1) as nat, f).unwrap().1;
        assert(f(b, p1) is Some);
        assert(p1 <= e);
        lemma_span_split(b, p, p1, e, c, q);
        lemma_list_local(b, p, (n - 1) as nat, f, c, q);
        let q1 = q + (p1 - p);
        assert(f(c, q1) == Some((f(b, p1).unwrap().0, q1 + (e - p1))));
    }
}

proof fn lemma_counted_local<M>(
    b: Seq<u8>,
    p: int,
    f: spec_fn(Seq<u8>, int) -> Option<(M, int)>,
    c: Seq<u8>,
    q: int,
)
    requires
        forward(f),
        local(f),
        counted_at(b, p, f) matches Some((_v, e)) && same_span(b, p, e, c, q),
    ensures
        counted_at(c, q, f) == Some(
            (counted_at(b, p, f).unwrap().0, q + (counted_at(b, p, f).unwrap().1 - p)),
        ),
{
    let e = counted_at(b, p, f).unwrap().1;
    let n = word(b, p);
    lemma_list_forward(b, p + 4, n as nat, f);
    lemma_span_split(b, p, p + 4, e, c, q);
    lemma_u32_local(b, p, c, q);
    lemma_list_local(b, p + 4, n as nat, f, c, q + 4);
}

proof fn lemma_object_item() 
    ensures
        forward(object_item()),
        local(object_item()),
{
    assert forall|b: Seq<u8>, p: int, c: Seq<u8>, q: int|
        #![trigger object_item()(b, p), object_item()(c, q)]
        object_item()(b, p) matches Some((m, e)) ==> (same_span(b, p, e, c, q) ==> object_item()(c, q)
            == Some((m, q + (e - p)))) by {
        if object_at(b, p) is Some && same_span(b, p, object_at(b, p).unwrap().1, c, q) {
            lemma_object_local(b, p, c, q);
        }
    }
}


proof fn lemma_npc_local(b: Seq<u8>, p: int, c: Seq<u8>, q: int)
    requires
        npc_at(b, p) matches Some((_m, e)) && same_span(b, p, e, c, q),
    ensures
        npc_at(c, q) == Some((npc_at(b, p).unwrap().0, q + (npc_at(b, p).unwrap().1 - p))),
{
    let e = npc_at(b, p).unwrap().1;
    let p1 = object_at(b, p).unwrap().1;
    let p2 = p1 + 4;
    lemma_span_split(b, p, p1, e, c, q);
    lemma_object_local(b, p, c, q);
    let q1 = q + (p1 - p);
    lemma_span_split(b, p1, p2, e, c, q1);
    lemma_u32_local(b, p1, c, q1);
    lemma_str8_local(b, p2, c, q1 + 4);
}

proof fn lemma_event_local(b: Seq<u8>, p: int, c: Seq<u8>, q: int)
    requires
        event_at(b, p) matches Some((_m, e)) && same_span(b, p, e, c, q),
    ensures
        event_at(c, q) == Some((event_at(b, p).unwrap().0, q + (event_at(b, p).unwrap().1 - p))),
{
    let e = event_at(b, p).unwrap().1;
    let p1 = object_at(b, p).unwrap().1;
    let p2 = str8_at(b, p1).unwrap().1;
    lemma_span_split(b, p, p1, e, c, q);
    lemma_object_local(b, p, c, q);
    let q1 = q + (p1 - p);
    lemma_span_split(b, p1, p2, e, c, q1);
    lemma_str8_local(b, p1, c, q1);
    lemma_str8_local(b, p2, c, q1 + (p2 - p1));
}

proof fn lemma_effect_local(b: Seq<u8>, p: int, c: Seq<u8>, q: int)
    requires
        effect_at(b, p) matches Some((_m, e)) && same_span(b, p, e, c, q),
    ensures
        effect_at(c, q) == Some((effect_at(b, p).unwrap().0, q + (effect_at(b, p).unwrap().1 - p))),
{
    let e = effect_at(b, p).unwrap().1;
    let p1 = object_at(b, p).unwrap().1;
    lemma_span_split(b, p, p1, e, c, q);
    lemma_object_local(b, p, c, q);
    lemma_str8_local(b, p1, c, q + (p1 - p));
}

proof fn lemma_sound_local(b: Seq<u8>, p: int, c: Seq<u8>, q: int)
    requires
        sound_at(b, p) matches Some((_m, e)) && same_span(b, p, e, c, q),
    ensures
        sound_at(c, q) == Some((sound_at(b, p).unwrap().0, q + (sound_at(b, p).unwrap().1 - p))),
{
    let e = sound_at(b, p).unwrap().1;
    let p1 = object_at(b, p).unwrap().1;
    let p2 = str8_at(b, p1).unwrap().1;
    lemma_span_split(b, p, p1, e, c, q);
    lemma_object_local(b, p, c, q);
    let q1 = q + (p1 - p);
    lemma_span_split(b, p1, p2, e, c, q1);
    lemma_str8_local(b, p1, c, q1);
    let q2 = q1 + (p2 - p1);
    lemma_span_split(b, p2, p2 + 4, e, c, q2);
    lemma_u32_local(b, p2, c, q2);
    lemma_u32_local(b, p2 + 4, c, q2 + 4);
}

proof fn lemma_plane_local(b: Seq<u8>, p: int, c: Seq<u8>, q: int)
    requires
        plane_at(b, p) matches Some((_m, e)) && same_span(b, p, e, c, q),
    ensures
        plane_at(c, q) == Some((plane_at(b, p).unwrap().0, q + (plane_at(b, p).unwrap().1 - p))),
{
    lemma_span_bytes(b, p, p + 24, c, q);
    assert forall|k: int| 0 <= k < 24 implies #[trigger] c[q + k] == b[p + k] by {
        assert(c[q + k] == b[(q + k) - q + p]);
    }
    lemma_word_eq(b, p, c, q, 0, 24);
    lemma_word_eq(b, p, c, q, 4, 24);
    lemma_word_eq(b, p, c, q, 8, 24);
    lemma_word_eq(b, p, c, q, 12, 24);
    lemma_word_eq(b, p, c, q, 16, 24);
    lemma_word_eq(b, p, c, q, 20, 24);
}

proof fn lemma_npc_item()
    ensures
        forward(npc_item()),
        local(npc_item()),
{
    assert forall|b: Seq<u8>, p: int, c: Seq<u8>, q: int|
        #![trigger npc_item()(b, p), npc_item()(c, q)]
        npc_item()(b, p) matches Some((m, e)) ==> (same_span(b, p, e, c, q) ==> npc_item()(c, q)
            == Some((m, q + (e - p)))) by {
        if npc_at(b, p) is Some && same_span(b, p, npc_at(b, p).unwrap().1, c, q) {
            lemma_npc_local(b, p, c, q);
        }
    }
}

proof fn lemma_event_item()
    ensures
        forward(event_item()),
        local(event_item()),
{
    assert forall|b: Seq<u8>, p: int, c: Seq<u8>, q: int|
        #![trigger event_item()(b, p), event_item()(c, q)]
        event_item()(b, p) matches Some((m, e)) ==> (same_span(b, p, e, c, q) ==> event_item()(c, q)
            == Some((m, q + (e - p)))) by {
        if event_at(b, p) is Some && same_span(b, p, event_at(b, p).unwrap().1, c, q) {
            lemma_event_local(b, p, c, q);
        }
    }
}

proof fn lemma_effect_item()
    ensures
        forward(effect_item()),
        local(effect_item()),
{
    assert forall|b: Seq<u8>, p: int, c: Seq<u8>, q: int|
        #![trigger effect_item()(b, p), effect_item()(c, q)]
        effect_item()(b, p) matches Some((m, e)) ==> (same_span(b, p, e, c, q) ==> effect_item()(c, q)
            == Some((m, q + (e - p)))) by {
        if effect_at(b, p) is Some && same_span(b, p, effect_at(b, p).unwrap().1, c, q) {
            lemma_effect_local(b, p, c, q);
        }
    }
}

proof fn lemma_sound_item()
    ensures
        forward(sound_item()),
        local(sound_item()),
{
    assert forall|b: Seq<u8>, p: int, c: Seq<u8>, q: int|
        #![trigger sound_item()(b, p), sound_item()(c, q)]
        sound_item()(b, p) matches Some((m, e)) ==> (same_span(b, p, e, c, q) ==> sound_item()(c, q)
            == Some((m, q + (e - p)))) by {
        if sound_at(b, p) is Some && same_span(b, p, sound_at(b, p).unwrap().1, c, q) {
            lemma_sound_local(b, p, c, q);
        }
    }
}

proof fn lemma_plane_item()
    ensures
        forward(plane_item()),
        local(plane_item()),
{
    assert forall|b: Seq<u8>, p: int, c: Seq<u8>, q: int|
        #![trigger plane_item()(b, p), plane_item()(c, q)]
        plane_item()(b, p) matches Some((m, e)) ==> (same_span(b, p, e, c, q) ==> plane_item()(c, q)
            == Some((m, q + (e - p)))) by {
        if plane_at(b, p) is Some && same_span(b, p, plane_at(b, p).unwrap().1, c, q) {
            lemma_plane_local(b, p, c, q);
        }
    }
}


// ---------------------------------------------------------------- reading back what was written

/// Text that reads back as itself from a one-byte-length string: ASCII
/// without NUL characters, at most 255 characters.
pub open spec fn plain8(s: Seq<char>) -> bool {
    plain_text(s) && s.len() <= 255
}

/// `g` writes `x` in a way that `f` reads back wherever it stands.
pub open spec fn reads_back<M>(
    f: spec_fn(Seq<u8>, int) -> Option<(M, int)>,
    g: spec_fn(M) -> Seq<u8>,
    x: M,
) -> bool {
    forall|b: Seq<u8>, p: int|
        #![trigger f(b, p)]
        stands_at(b, p, g(x)) ==> f(b, p) == Some((x, p + g(x).len()))
}

proof fn lemma_peel_u32(b: Seq<u8>, p: int, x: Seq<u8>, w: u32)
    requires
        stands_at(b, p, x + u32_le_bytes(w)),
    ensures
        stands_at(b, p, x),
        le_u32(b, p + x.len()) == w,
{
    lemma_subrange_split(b, p, x, u32_le_bytes(w));
    lemma_le_u32_at(b, p + x.len(), w);
}

proof fn lemma_peel_u16(b: Seq<u8>, p: int, x: Seq<u8>, w: u16)
    requires
        stands_at(b, p, x + u16_le_bytes(w)),
    ensures
        stands_at(b, p, x),
        le_u16(b, p + x.len()) == w,
{
    lemma_subrange_split(b, p, x, u16_le_bytes(w));
    lemma_le_u16_at(b, p + x.len(), w);
}

proof fn lemma_str8_written(s: Seq<char>, b: Seq<u8>, pos: int)
    requires
        plain8(s),
        stands_at(b, pos, enc_str8(s)),
    ensures
        str8_at(b, pos) == Some((s, pos + enc_str8(s).len())),
        enc_str8(s).len() == s.len() + 1,
{
    lemma_plain_bytes(s);
    let e = encode_utf8(s);
    lemma_subrange_split(b, pos, seq![(e.len() % 256) as u8], e);
    assert(b[pos] == b.subrange(pos, pos + 1)[0]);
    assert(b[pos] == e.len());
}

proof fn lemma_object_written(o: ObjectModel, b: Seq<u8>, pos: int)
    requires
        plain8(o.object_name),
        stands_at(b, pos, object_bytes(o)),
    ensures
        object_at(b, pos) == Some((o, pos + object_bytes(o).len())),
{
    let name = enc_str8(o.object_name);
    lemma_subrange_split(b, pos, name, object_fixed_bytes(o));
    lemma_str8_written(o.object_name, b, pos);
    let p1 = pos + name.len();
    let x0 = u16_le_bytes(o.warp_id);
    let x1 = x0 + u16_le_bytes(o.event_id);
    let x2 = x1 + u32_le_bytes(o.object_type);
    let x3 = x2 + u32_le_bytes(o.object_id);
    let x4 = x3 + u32_le_bytes(o.minimap_position.x);
    let x5 = x4 + u32_le_bytes(o.minimap_position.y);
    let x6 = x5 + u32_le_bytes(o.rotation.x);
    let x7 = x6 + u32_le_bytes(o.rotation.y);
    let x8 = x7 + u32_le_bytes(o.rotation.z);
    let x9 = x8 + u32_le_bytes(o.rotation.w);
    let x10 = x9 + u32_le_bytes(o.position.x);
    let x11 = x10 + u32_le_bytes(o.position.y);
    let x12 = x11 + u32_le_bytes(o.position.z);
    let x13 = x12 + u32_le_bytes(o.scale.x);
    let x14 = x13 + u32_le_bytes(o.scale.y);
    assert(object_fixed_bytes(o) == x14 + u32_le_bytes(o.scale.z));
    lemma_peel_u32(b, p1, x14, o.scale.z);
    lemma_peel_u32(b, p1, x13, o.scale.y);
    lemma_peel_u32(b, p1, x12, o.scale.x);
    lemma_peel_u32(b, p1, x11, o.position.z);
    lemma_peel_u32(b, p1, x10, o.position.y);
    lemma_peel_u32(b, p1, x9, o.position.x);
    lemma_peel_u32(b, p1, x8, o.rotation.w);
    lemma_peel_u32(b, p1, x7, o.rotation.z);
    lemma_peel_u32(b, p1, x6, o.rotation.y);
    lemma_peel_u32(b, p1, x5, o.rotation.x);
    lemma_peel_u32(b, p1, x4, o.minimap_position.y);
    lemma_peel_u32(b, p1, x3, o.minimap_position.x);
    lemma_peel_u32(b, p1, x2, o.object_id);
    lemma_peel_u32(b, p1, x1, o.object_type);
    lemma_peel_u16(b, p1, x0, o.event_id);
    lemma_le_u16_at(b, p1, o.warp_id);
    assert(b.subrange(p1, p1 + 2) == x0);
}

proof fn lemma_list_written<M>(
    f: spec_fn(Seq<u8>, int) -> Option<(M, int)>,
    g: spec_fn(M) -> Seq<u8>,
    v: Seq<M>,
    b: Seq<u8>,
    p: int,
)
    requires
        forall|i: int| 0 <= i < v.len() ==> reads_back(f, g, #[trigger] v[i]),
        stands_at(b, p, concat_map(v, g)),
    ensures
        list_at(b, p, v.len(), f) == Some((v, p + concat_map(v, g).len())),
    decreases v.len(),
{
    if v.len() > 0 {
        let init = v.drop_last();
        lemma_subrange_split(b, p, concat_map(init, g), g(v.last()));
        assert forall|i: int| 0 <= i < init.len() implies reads_back(f, g, #[trigger] init[i]) by {
            assert(init[i] == v[i]);
        }
        lemma_list_written(f, g, init, b, p);
        let p1 = p + concat_map(init, g).len();
        assert(reads_back(f, g, v[v.len() - 1]));
        assert(f(b, p1) == Some((v.last(), p1 + g(v.last()).len())));
        assert(init.push(v.last()) =~= v);
        assert(((v.len() as nat) - 1) as nat == init.len());
    }
}

proof fn lemma_monster_written(m: MonsterModel, b: Seq<u8>, pos: int)
    requires
        plain8(m.name),
        stands_at(b, pos, monster_bytes(m)),
    ensures
        monster_at(b, pos) == Some((m, pos + monster_bytes(m).len())),
{
    let x0 = enc_str8(m.name);
    let x1 = x0 + u32_le_bytes(m.id);
    lemma_peel_u32(b, pos, x1, m.count);
    lemma_peel_u32(b, pos, x0, m.id);
    lemma_str8_written(m.name, b, pos);
}

/// Every monster entry's name reads back.
pub open spec fn monsters_plain(v: Seq<MonsterModel>) -> bool {
    forall|i: int| 0 <= i < v.len() ==> plain8(#[trigger] v[i].name)
}

proof fn lemma_monsters_written(v: Seq<MonsterModel>, b: Seq<u8>, pos: int)
    requires
        monsters_plain(v),
        v.len() < 0x1_0000_0000,
        stands_at(b, pos, monsters_bytes(v)),
    ensures
        counted_at(b, pos, monster_item()) == Some((v, pos + monsters_bytes(v).len())),
{
    let cnt = u32_le_bytes(low32(v.len()));
    lemma_subrange_split(b, pos, cnt, concat_map(v, monster_enc()));
    lemma_le_u32_at(b, pos, low32(v.len()));
    vstd::arithmetic::div_mod::lemma_small_mod(v.len(), 0x1_0000_0000);
    assert forall|i: int| 0 <= i < v.len() implies reads_back(monster_item(), monster_enc(), #[trigger] v[i]) by {
        assert forall|bb: Seq<u8>, p: int|
            #![trigger monster_item()(bb, p)]
            stands_at(bb, p, monster_enc()(v[i])) implies monster_item()(bb, p) == Some(
                (v[i], p + monster_enc()(v[i]).len()),
            ) by {
            lemma_monster_written(v[i], bb, p);
        }
    }
    lemma_list_written(monster_item(), monster_enc(), v, b, pos + 4);
}

/// Every text of a spawn point reads back, and its monster lists have `u32` lengths.
pub open spec fn spawn_plain(s: SpawnPointModel) -> bool {
    &&& plain8(s.object.object_name)
    &&& plain8(s.name)
    &&& monsters_plain(s.basic_spawns)
    &&& monsters_plain(s.tactic_spawns)
    &&& s.basic_spawns.len() < 0x1_0000_0000
    &&& s.tactic_spawns.len() < 0x1_0000_0000
}

#[verifier::rlimit(60)]
proof fn lemma_spawn_point_written(s: SpawnPointModel, b: Seq<u8>, pos: int)
    requires
        spawn_plain(s),
        stands_at(b, pos, spawn_point_bytes(s)),
    ensures
        spawn_point_at(b, pos) == Some((s, pos + spawn_point_bytes(s).len())),
{
    let x0 = object_bytes(s.object);
    let x1 = x0 + enc_str8(s.name);
    let x2 = x1 + monsters_bytes(s.basic_spawns);
    let x3 = x2 + monsters_bytes(s.tactic_spawns);
    let x4 = x3 + u32_le_bytes(s.interval);
    let x5 = x4 + u32_le_bytes(s.limit_count);
    let x6 = x5 + u32_le_bytes(s.range);
    lemma_peel_u32(b, pos, x6, s.tactic_points);
    lemma_peel_u32(b, pos, x5, s.range);
    lemma_peel_u32(b, pos, x4, s.limit_count);
    lemma_peel_u32(b, pos, x3, s.interval);
    lemma_subrange_split(b, pos, x2, monsters_bytes(s.tactic_spawns));
    lemma_subrange_split(b, pos, x1, monsters_bytes(s.basic_spawns));
    lemma_subrange_split(b, pos, x0, enc_str8(s.name));
    lemma_object_written(s.object, b, pos);
    lemma_str8_written(s.name, b, pos + x0.len());
    lemma_monsters_written(s.basic_spawns, b, pos + x1.len());
    lemma_monsters_written(s.tactic_spawns, b, pos + x2.len());
    let p4 = pos + x3.len();
    assert(spawn_point_bytes(s) == x6 + u32_le_bytes(s.tactic_points));
    assert(x6.len() == x3.len() + 12);
    assert(word(b, p4) == s.interval);
    assert(word(b, p4 + 4) == s.limit_count);
    assert(word(b, p4 + 8) == s.range);
    assert(word(b, p4 + 12) == s.tactic_points);
}

/// Every spawn point reads back, and there are fewer than 2^32 of them.
pub open spec fn spawns_plain(v: Seq<SpawnPointModel>) -> bool {
    &&& forall|i: int| 0 <= i < v.len() ==> spawn_plain(#[trigger] v[i])
    &&& v.len() < 0x1_0000_0000
}

/// Reading a monster spawn block gives back the spawn points written into it.
proof fn lemma_spawn_block_written(v: Seq<SpawnPointModel>, b: Seq<u8>, pos: int)
    requires
        spawns_plain(v),
        stands_at(b, pos, spawn_block_bytes(v)),
    ensures
        counted_at(b, pos, spawn_point_item()) == Some((v, pos + spawn_block_bytes(v).len())),
{
    let cnt = u32_le_bytes(low32(v.len()));
    lemma_subrange_split(b, pos, cnt, concat_map(v, spawn_point_enc()));
    lemma_le_u32_at(b, pos, low32(v.len()));
    vstd::arithmetic::div_mod::lemma_small_mod(v.len(), 0x1_0000_0000);
    assert forall|i: int| 0 <= i < v.len() implies reads_back(spawn_point_item(), spawn_point_enc(), #[trigger] v[i]) by {
        assert forall|bb: Seq<u8>, p: int|
            #![trigger spawn_point_item()(bb, p)]
            stands_at(bb, p, spawn_point_enc()(v[i])) implies spawn_point_item()(bb, p) == Some(
                (v[i], p + spawn_point_enc()(v[i]).len()),
            ) by {
            lemma_spawn_point_written(v[i], bb, p);
        }
    }
    lemma_list_written(spawn_point_item(), spawn_point_enc(), v, b, pos + 4);
}


// ---------------------------------------------------------------- a written file read back

/// The header entries that a written file holds: each block's kind and where
/// its bytes start (blocks start at `base`).
pub open spec fn written_headers(bs: Seq<(u32, Seq<u8>)>, base: nat) -> Seq<(u32, u32)> {
    Seq::new(bs.len(), |i: int| (bs[i].0, low32(base + bodies_bytes(bs, i as nat).len())))
}

proof fn lemma_headers_len(bs: Seq<(u32, Seq<u8>)>, base: nat, k: nat)
    ensures
        headers_bytes(bs, base, k).len() == 8 * k,
    decreases k,
{
    if k > 0 {
        lemma_headers_len(bs, base, (k - 1) as nat);
    }
}

proof fn lemma_headers_read(b: Seq<u8>, bs: Seq<(u32, Seq<u8>)>, base: nat, k: nat)
    requires
        k <= bs.len(),
        stands_at(b, 4, headers_bytes(bs, base, k)),
    ensures
        list_at(b, 4, k, header_item()) == Some((written_headers(bs, base).take(k as int), (4 + 8 * k) as int)),
    decreases k,
{
    lemma_headers_len(bs, base, k);
    if k > 0 {
        let j = (k - 1) as nat;
        let x = headers_bytes(bs, base, j);
        let off = low32(base + bodies_bytes(bs, j).len());
        lemma_peel_u32(b, 4, x + u32_le_bytes(bs[j as int].0), off);
        lemma_peel_u32(b, 4, x, bs[j as int].0);
        lemma_headers_len(bs, base, j);
        lemma_headers_read(b, bs, base, j);
        let wh = written_headers(bs, base);
        assert(header_at(b, (4 + 8 * j) as int) == Some(((bs[j as int].0, off), (4 + 8 * k) as int)));
        assert(wh.take(k as int) =~= wh.take(j as int).push((bs[j as int].0, off)));
    }
}

proof fn lemma_bodies_stand(b: Seq<u8>, bs: Seq<(u32, Seq<u8>)>, base: int, k: nat)
    requires
        k <= bs.len(),
        stands_at(b, base, bodies_bytes(bs, k)),
    ensures
        forall|i: int|
            0 <= i < k ==> stands_at(b, base + bodies_bytes(bs, i as nat).len(), #[trigger] bs[i].1),
    decreases k,
{
    if k > 0 {
        let j = (k - 1) as nat;
        lemma_subrange_split(b, base, bodies_bytes(bs, j), bs[j as int].1);
        lemma_bodies_stand(b, bs, base, j);
    }
}

proof fn lemma_next_offset_bound(hs: Seq<(u32, u32)>, o: u32, k: nat, bound: int)
    requires
        k <= hs.len(),
        forall|j: int| 0 <= j < hs.len() ==> #[trigger] hs[j].1 <= bound,
    ensures
        next_offset(hs, o, k) matches Some(x) ==> o < x <= bound,
    decreases k,
{
    if k > 0 {
        lemma_next_offset_bound(hs, o, (k - 1) as nat, bound);
        assert(hs[k - 1].1 <= bound);
    }
}

proof fn lemma_content_keeps_raw(b: Seq<u8>, t: u32, off: int, m: IfoModel, o: IfoReadOptions)
    ensures
        block_content(b, t, off, m, o) matches IfoOutcome::Read(m2) ==> m2.raw_blocks == m.raw_blocks,
{
}

proof fn lemma_blocks_raw(b: Seq<u8>, hs: Seq<(u32, u32)>, k: nat, o: IfoReadOptions)
    requires
        k <= hs.len(),
        ifo_blocks(b, hs, k, o) is Read,
    ensures
        ifo_blocks(b, hs, k, o)->Read_0.raw_blocks.len() == k,
        forall|i: int|
            0 <= i < k ==> #[trigger] ifo_blocks(b, hs, k, o)->Read_0.raw_blocks[i] == (
                hs[i].0,
                b.subrange(hs[i].1 as int, block_end(b, hs, i) as int),
            ),
    decreases k,
{
    if k > 0 {
        let j = (k - 1) as nat;
        assert(ifo_blocks(b, hs, j, o) is Read);
        lemma_blocks_raw(b, hs, j, o);
        let mj = ifo_blocks(b, hs, j, o)->Read_0;
        let t = hs[j as int].0;
        let off = hs[j as int].1;
        let end = block_end(b, hs, j as int);
        let m1 = IfoModel { raw_blocks: mj.raw_blocks.push((t, b.subrange(off as int, end as int))), ..mj };
        lemma_content_keeps_raw(b, t, off as int, m1, o);
    }
}


/// `m` with its monster spawn points replaced by `ms`.
pub open spec fn with_spawns(m: IfoModel, ms: Seq<SpawnPointModel>) -> IfoModel {
    IfoModel { monster_spawns: ms, ..m }
}

/// `a` holds what `b` holds, but for its monster spawn points (which are
/// `ms`) and the recorded bytes of its blocks.
pub open spec fn same_except_spawns(a: IfoModel, b: IfoModel, ms: Seq<SpawnPointModel>) -> bool {
    &&& a.monster_spawns == ms
    &&& a.npcs == b.npcs
    &&& a.event_objects == b.event_objects
    &&& a.animated_objects == b.animated_objects
    &&& a.collision_objects == b.collision_objects
    &&& a.deco_objects == b.deco_objects
    &&& a.cnst_objects == b.cnst_objects
    &&& a.effect_objects == b.effect_objects
    &&& a.sound_objects == b.sound_objects
    &&& a.water_size == b.water_size
    &&& a.water_planes == b.water_planes
    &&& a.warps == b.warps
}

/// What a block of kind `t` at `off` holds ends by `end`, its next block.
pub open spec fn block_fits(b: Seq<u8>, t: u32, off: int, end: int) -> bool {
    if t == BLOCK_ANIMATED_OBJECT || t == BLOCK_COLLISION_OBJECT || t == BLOCK_CNST_OBJECT || t
        == BLOCK_DECO_OBJECT || t == BLOCK_WARP {
        counted_at(b, off, object_item()) matches Some((_v, e)) && e <= end
    } else if t == BLOCK_EVENT_OBJECT {
        counted_at(b, off, event_item()) matches Some((_v, e)) && e <= end
    } else if t == BLOCK_NPC {
        counted_at(b, off, npc_item()) matches Some((_v, e)) && e <= end
    } else if t == BLOCK_EFFECT_OBJECT {
        counted_at(b, off, effect_item()) matches Some((_v, e)) && e <= end
    } else if t == BLOCK_SOUND_OBJECT {
        counted_at(b, off, sound_item()) matches Some((_v, e)) && e <= end
    } else if t == BLOCK_WATER_PLANES {
        counted_at(b, off + 4, plane_item()) matches Some((_v, e)) && e <= end
    } else {
        true
    }
}

/// Every block's contents lie within its own bytes.
pub open spec fn blocks_fit(b: Seq<u8>, hs: Seq<(u32, u32)>) -> bool {
    forall|i: int|
        0 <= i < hs.len() ==> block_fits(b, #[trigger] hs[i].0, hs[i].1 as int, block_end(b, hs, i) as int)
}

/// At most one block holds monster spawn points.
pub open spec fn one_spawn_block(hs: Seq<(u32, u32)>) -> bool {
    forall|i: int, j: int|
        0 <= i < hs.len() && 0 <= j < hs.len() && #[trigger] hs[i].0 == BLOCK_MONSTER_SPAWN
            && #[trigger] hs[j].0 == BLOCK_MONSTER_SPAWN ==> i == j
}

/// One of the first `k` blocks holds monster spawn points.
pub open spec fn spawn_block_before(hs: Seq<(u32, u32)>, k: int) -> bool {
    exists|i: int| 0 <= i < k && #[trigger] hs[i].0 == BLOCK_MONSTER_SPAWN
}

proof fn lemma_span_of_stand(b: Seq<u8>, p: int, e: int, end: int, c: Seq<u8>, q: int)
    requires
        0 <= p <= e <= end <= b.len(),
        stands_at(c, q, b.subrange(p, end)),
    ensures
        same_span(b, p, e, c, q),
{
    let x = b.subrange(p, end);
    assert(c.subrange(q, q + (e - p)) =~= b.subrange(p, e)) by {
        assert forall|k: int| 0 <= k < e - p implies c.subrange(q, q + (e - p))[k] == b.subrange(p, e)[k] by {
            assert(c.subrange(q, q + x.len())[k] == x[k]);
        }
    }
}

proof fn lemma_counted_moves<M>(
    f: spec_fn(Seq<u8>, int) -> Option<(M, int)>,
    b: Seq<u8>,
    off: int,
    end: int,
    c: Seq<u8>,
    q: int,
)
    requires
        forward(f),
        local(f),
        0 <= off <= end <= b.len(),
        counted_at(b, off, f) matches Some((_v, e)) && e <= end,
        stands_at(c, q, b.subrange(off, end)),
    ensures
        counted_at(c, q, f) matches Some((v, _e)) && v == counted_at(b, off, f).unwrap().0,
{
    let e = counted_at(b, off, f).unwrap().1;
    lemma_list_forward(b, off + 4, word(b, off) as nat, f);
    lemma_span_of_stand(b, off, e, end, c, q);
    lemma_counted_local(b, off, f, c, q);
}

/// One block read from the written file adds what it added when read from
/// the original file (its spawn points aside).
#[verifier::rlimit(80)]
proof fn lemma_block_moves(
    b: Seq<u8>,
    t: u32,
    off: int,
    end: int,
    mj: IfoModel,
    c: Seq<u8>,
    q: int,
    nj: IfoModel,
    sp: Seq<SpawnPointModel>,
    ms: Seq<SpawnPointModel>,
)
    requires
        0 <= off <= end <= b.len(),
        block_content(b, t, off, mj, no_skips()) is Read,
        block_fits(b, t, off, end),
        spawns_plain(ms),
        same_except_spawns(nj, mj, sp),
        t == BLOCK_MONSTER_SPAWN ==> sp == Seq::<SpawnPointModel>::empty(),
        t == BLOCK_MONSTER_SPAWN ==> stands_at(c, q, spawn_block_bytes(ms)),
        t != BLOCK_MONSTER_SPAWN ==> stands_at(c, q, b.subrange(off, end)),
    ensures
        block_content(c, t, q, nj, no_skips()) matches IfoOutcome::Read(nk) && same_except_spawns(
            nk,
            block_content(b, t, off, mj, no_skips())->Read_0,
            if t == BLOCK_MONSTER_SPAWN {
                ms
            } else {
                sp
            },
        ),
{
    lemma_object_item();
    lemma_event_item();
    lemma_npc_item();
    lemma_effect_item();
    lemma_sound_item();
    lemma_plane_item();
    if t == BLOCK_ANIMATED_OBJECT || t == BLOCK_COLLISION_OBJECT || t == BLOCK_CNST_OBJECT || t
        == BLOCK_DECO_OBJECT || t == BLOCK_WARP {
        lemma_counted_moves(object_item(), b, off, end, c, q);
    } else if t == BLOCK_EVENT_OBJECT {
        lemma_counted_moves(event_item(), b, off, end, c, q);
    } else if t == BLOCK_NPC {
        lemma_counted_moves(npc_item(), b, off, end, c, q);
    } else if t == BLOCK_EFFECT_OBJECT {
        lemma_counted_moves(effect_item(), b, off, end, c, q);
    } else if t == BLOCK_SOUND_OBJECT {
        lemma_counted_moves(sound_item(), b, off, end, c, q);
    } else if t == BLOCK_WATER_PLANES {
        let e = counted_at(b, off + 4, plane_item()).unwrap().1;
        lemma_list_forward(b, off + 8, word(b, off + 4) as nat, plane_item());
        lemma_span_of_stand(b, off, e, end, c, q);
        lemma_span_split(b, off, off + 4, e, c, q);
        lemma_u32_local(b, off, c, q);
        lemma_counted_local(b, off + 4, plane_item(), c, q + 4);
    } else if t == BLOCK_MONSTER_SPAWN {
        lemma_spawn_block_written(ms, c, q);
        assert(Seq::<SpawnPointModel>::empty() + ms =~= ms);
    }
}


proof fn lemma_written_blocks(
    b: Seq<u8>,
    hs: Seq<(u32, u32)>,
    ms: Seq<SpawnPointModel>,
    c: Seq<u8>,
    wh: Seq<(u32, u32)>,
    k: nat,
)
    requires
        k <= hs.len(),
        ifo_blocks(b, hs, hs.len(), no_skips()) is Read,
        blocks_fit(b, hs),
        one_spawn_block(hs),
        spawns_plain(ms),
        hs.len() <= wh.len(),
        forall|i: int| 0 <= i < hs.len() ==> #[trigger] wh[i].0 == hs[i].0,
        forall|i: int|
            0 <= i < hs.len() && #[trigger] hs[i].0 == BLOCK_MONSTER_SPAWN ==> stands_at(
                c,
                wh[i].1 as int,
                spawn_block_bytes(ms),
            ),
        forall|i: int|
            0 <= i < hs.len() && #[trigger] hs[i].0 != BLOCK_MONSTER_SPAWN ==> stands_at(
                c,
                wh[i].1 as int,
                b.subrange(hs[i].1 as int, block_end(b, hs, i) as int),
            ),
        forall|i: int| 0 <= i < wh.len() ==> #[trigger] wh[i].1 <= block_end(c, wh, i) <= c.len(),
    ensures
        ifo_blocks(c, wh, k, no_skips()) matches IfoOutcome::Read(nk) && same_except_spawns(
            nk,
            ifo_blocks(b, hs, k, no_skips())->Read_0,
            if spawn_block_before(hs, k as int) {
                ms
            } else {
                Seq::<SpawnPointModel>::empty()
            },
        ),
    decreases k,
{
    let o = no_skips();
    if k == 0 {
        assert(!spawn_block_before(hs, 0));
    } else {
        let j = (k - 1) as nat;
        if !(ifo_blocks(b, hs, k, o) is Read) {
            lemma_blocks_settle(b, hs, k, hs.len(), o);
        }
        if !(ifo_blocks(b, hs, j, o) is Read) {
            lemma_blocks_settle(b, hs, j, hs.len(), o);
        }
        lemma_written_blocks(b, hs, ms, c, wh, j);
        let mj = ifo_blocks(b, hs, j, o)->Read_0;
        let nj = ifo_blocks(c, wh, j, o)->Read_0;
        let sp = if spawn_block_before(hs, j as int) {
            ms
        } else {
            Seq::<SpawnPointModel>::empty()
        };
        let t = hs[j as int].0;
        let off = hs[j as int].1 as int;
        let end = block_end(b, hs, j as int) as int;
        assert(ifo_blocks(b, hs, k, o) == block_step(b, hs, j as int, mj, o)) by {
            assert((k - 1) as nat == j);
        }
        assert(ifo_blocks(c, wh, k, o) == block_step(c, wh, j as int, nj, o)) by {
            assert((k - 1) as nat == j);
        }
        let mj1 = IfoModel { raw_blocks: mj.raw_blocks.push((t, b.subrange(off, end))), ..mj };
        let q = wh[j as int].1 as int;
        let qe = block_end(c, wh, j as int) as int;
        let nj1 = IfoModel { raw_blocks: nj.raw_blocks.push((t, c.subrange(q, qe))), ..nj };
        assert(wh[j as int].0 == t);
        if t == BLOCK_MONSTER_SPAWN {
            if spawn_block_before(hs, j as int) {
                let i = choose|i: int| 0 <= i < j && #[trigger] hs[i].0 == BLOCK_MONSTER_SPAWN;
                assert(hs[i].0 == BLOCK_MONSTER_SPAWN && hs[j as int].0 == BLOCK_MONSTER_SPAWN);
            }
            assert(spawn_block_before(hs, k as int)) by {
                assert(hs[j as int].0 == BLOCK_MONSTER_SPAWN);
            }
        } else {
            assert(spawn_block_before(hs, k as int) == spawn_block_before(hs, j as int)) by {
                if spawn_block_before(hs, k as int) {
                    let i = choose|i: int| 0 <= i < k && #[trigger] hs[i].0 == BLOCK_MONSTER_SPAWN;
                    assert(i != j);
                }
            }
        }
        assert(block_fits(b, hs[j as int].0, hs[j as int].1 as int, block_end(b, hs, j as int) as int));
        lemma_block_moves(b, t, off, end, mj1, c, q, nj1, sp, ms);
    }
}


/// The layout of a written file: its headers read back, each block's bytes
/// stand at the offset its header gives, and no block lies past the end.
proof fn lemma_written_layout(mm: IfoModel)
    requires
        ifo_bytes(mm).len() < 0x1_0000_0000,
    ensures
        headers_at(ifo_bytes(mm)) == Some(
            written_headers(block_bodies(mm), 4 + 8 * block_bodies(mm).len()),
        ),
        forall|i: int|
            #![trigger written_headers(block_bodies(mm), 4 + 8 * block_bodies(mm).len())[i]]
            0 <= i < block_bodies(mm).len() ==> {
                let wh = written_headers(block_bodies(mm), 4 + 8 * block_bodies(mm).len());
                &&& wh[i].0 == block_bodies(mm)[i].0
                &&& stands_at(ifo_bytes(mm), wh[i].1 as int, block_bodies(mm)[i].1)
                &&& wh[i].1 <= block_end(ifo_bytes(mm), wh, i) <= ifo_bytes(mm).len()
            },
{
    let bs = block_bodies(mm);
    let n2 = bs.len();
    let base = 4 + 8 * n2;
    let c = ifo_bytes(mm);
    let len = c.len();
    lemma_headers_len(bs, base, n2);
    let a = u32_le_bytes(low32(n2));
    let h = headers_bytes(bs, base, n2);
    let d = bodies_bytes(bs, n2);
    assert(c == a + h + d);
    assert(stands_at(c, 0, c)) by {
        assert(c.subrange(0, c.len() as int) =~= c);
    }
    lemma_subrange_split(c, 0, a + h, d);
    lemma_subrange_split(c, 0, a, h);
    assert(n2 < 0x1_0000_0000);
    vstd::arithmetic::div_mod::lemma_small_mod(n2, 0x1_0000_0000);
    lemma_le_u32_at(c, 0, low32(n2));
    lemma_headers_read(c, bs, base, n2);
    let wh = written_headers(bs, base);
    assert(wh.take(n2 as int) =~= wh);
    assert(headers_at(c) == Some(wh));
    lemma_bodies_stand(c, bs, base as int, n2);
    assert forall|i: int| 0 <= i < n2 implies #[trigger] wh[i].1 == base + bodies_bytes(bs, i as nat).len()
        && stands_at(c, wh[i].1 as int, bs[i].1) by {
        assert(stands_at(c, (base + bodies_bytes(bs, i as nat).len()) as int, bs[i].1));
        vstd::arithmetic::div_mod::lemma_small_mod(
            (base + bodies_bytes(bs, i as nat).len()) as nat,
            0x1_0000_0000,
        );
    }
    vstd::arithmetic::div_mod::lemma_small_mod(len, 0x1_0000_0000);
    assert forall|i: int| 0 <= i < wh.len() implies #[trigger] wh[i].1 <= block_end(c, wh, i) <= c.len() by {
        lemma_next_offset_bound(wh, wh[i].1, wh.len(), len as int);
    }
}

/// A file's contents as read.
pub open spec fn read_model(b: Seq<u8>) -> IfoModel {
    ifo_parse(b, no_skips())->Read_0
}

/// Writing a file read from `b`, with its monster spawn points replaced by
/// `ms`, and reading the bytes back gives the same contents with `ms` as its
/// spawn points. This holds when at most one block holds spawn points, every
/// other block's contents lie within its own bytes, every text of `ms` is
/// ASCII without NUL characters and at most 255 characters, there are fewer
/// than 2^32 spawn points and monster entries per list, and the written file
/// is shorter than 4 GiB.
#[verifier::rlimit(40)]
pub proof fn lemma_ifo_write_read(b: Seq<u8>, ms: Seq<SpawnPointModel>)
    requires
        ifo_parse(b, no_skips()) is Read,
        headers_at(b) matches Some(hs) && blocks_fit(b, hs) && one_spawn_block(hs),
        spawns_plain(ms),
        ifo_bytes(with_spawns(read_model(b), ms)).len() < 0x1_0000_0000,
    ensures
        ifo_parse(ifo_bytes(with_spawns(read_model(b), ms)), no_skips()) matches IfoOutcome::Read(r)
            && same_except_spawns(r, read_model(b), ms),
{
    let o = no_skips();
    let hs = headers_at(b).unwrap();
    let n = hs.len();
    let m = read_model(b);
    let mm = with_spawns(m, ms);
    let bs = block_bodies(mm);
    let n2 = bs.len();
    let c = ifo_bytes(mm);
    lemma_blocks_raw(b, hs, n, o);
    lemma_written_layout(mm);
    let wh = written_headers(bs, 4 + 8 * n2);
    assert forall|i: int| 0 <= i < n implies #[trigger] wh[i].0 == hs[i].0 && bs[i] == (
        hs[i].0,
        if hs[i].0 == BLOCK_MONSTER_SPAWN {
            spawn_block_bytes(ms)
        } else {
            b.subrange(hs[i].1 as int, block_end(b, hs, i) as int)
        },
    ) by {
        assert(m.raw_blocks[i] == (hs[i].0, b.subrange(hs[i].1 as int, block_end(b, hs, i) as int)));
        assert(wh[i].0 == bs[i].0);
    }
    assert forall|i: int|
        0 <= i < n && #[trigger] hs[i].0 == BLOCK_MONSTER_SPAWN implies stands_at(
            c,
            wh[i].1 as int,
            spawn_block_bytes(ms),
        ) by {
        assert(wh[i].0 == hs[i].0);
    }
    assert forall|i: int|
        0 <= i < n && #[trigger] hs[i].0 != BLOCK_MONSTER_SPAWN implies stands_at(
            c,
            wh[i].1 as int,
            b.subrange(hs[i].1 as int, block_end(b, hs, i) as int),
        ) by {
        assert(wh[i].0 == hs[i].0);
    }
    lemma_written_blocks(b, hs, ms, c, wh, n);
    assert(ifo_blocks(b, hs, n, o)->Read_0 == m);
    let nk = ifo_blocks(c, wh, n, o)->Read_0;
    let has_block = spawn_block_before(hs, n as int);
    assert(has_block == exists|i: int|
        0 <= i < mm.raw_blocks.len() && #[trigger] mm.raw_blocks[i].0 == BLOCK_MONSTER_SPAWN) by {
        if has_block {
            let i = choose|i: int| 0 <= i < n && #[trigger] hs[i].0 == BLOCK_MONSTER_SPAWN;
            assert(mm.raw_blocks[i].0 == hs[i].0);
        }
        if exists|i: int|
            0 <= i < mm.raw_blocks.len() && #[trigger] mm.raw_blocks[i].0 == BLOCK_MONSTER_SPAWN {
            let i = choose|i: int|
                0 <= i < mm.raw_blocks.len() && #[trigger] mm.raw_blocks[i].0 == BLOCK_MONSTER_SPAWN;
            assert(hs[i].0 == mm.raw_blocks[i].0);
        }
    }
    if needs_spawn_block(mm) {
        assert(n2 == n + 1);
        assert(!has_block);
        assert(bs[n as int] == (BLOCK_MONSTER_SPAWN, spawn_block_bytes(ms)));
        assert(ifo_blocks(c, wh, n2, o) == block_step(c, wh, n as int, nk, o)) by {
            assert((n2 - 1) as nat == n);
        }
        let q = wh[n as int].1 as int;
        assert(wh[n as int].0 == bs[n as int].0);
        lemma_spawn_block_written(ms, c, q);
        assert(Seq::<SpawnPointModel>::empty() + ms =~= ms);
    } else {
        assert(n2 == n);
        if !has_block {
            assert(ms.len() == 0);
            assert(ms =~= Seq::<SpawnPointModel>::empty());
        }
    }
}

/// A spawn point record ends with four little-endian `u32`s in the order
/// interval, limit count, range, tactic points: what is read from the last
/// sixteen bytes of a record, and what is written there.
pub proof fn lemma_spawn_point_tail(b: Seq<u8>, pos: int, s: SpawnPointModel)
    ensures
        spawn_point_at(b, pos) matches Some((m, end)) ==> 16 <= end <= b.len() && m.interval
            == le_u32(b, end - 16) && m.limit_count == le_u32(b, end - 12) && m.range == le_u32(
            b,
            end - 8,
        ) && m.tactic_points == le_u32(b, end - 4),
        ({
            let w = spawn_point_bytes(s);
            let n = w.len() as int;
            &&& n >= 16
            &&& le_u32(w, n - 16) == s.interval
            &&& le_u32(w, n - 12) == s.limit_count
            &&& le_u32(w, n - 8) == s.range
            &&& le_u32(w, n - 4) == s.tactic_points
        }),
{
    let head = object_bytes(s.object) + enc_str8(s.name) + monsters_bytes(s.basic_spawns)
        + monsters_bytes(s.tactic_spawns);
    let w = spawn_point_bytes(s);
    let k = head.len() as int;
    assert(w == head + u32_le_bytes(s.interval) + u32_le_bytes(s.limit_count) + u32_le_bytes(s.range)
        + u32_le_bytes(s.tactic_points));
    assert(w.subrange(k, k + 4) =~= u32_le_bytes(s.interval));
    assert(w.subrange(k + 4, k + 8) =~= u32_le_bytes(s.limit_count));
    assert(w.subrange(k + 8, k + 12) =~= u32_le_bytes(s.range));
    assert(w.subrange(k + 12, k + 16) =~= u32_le_bytes(s.tactic_points));
    lemma_le_u32_at(w, k, s.interval);
    lemma_le_u32_at(w, k + 4, s.limit_count);
    lemma_le_u32_at(w, k + 8, s.range);
    lemma_le_u32_at(w, k + 12, s.tactic_points);
    if let Some((m, end)) = spawn_point_at(b, pos) {
        let (object, p1) = object_at(b, pos).unwrap();
        let (name, p2) = str8_at(b, p1).unwrap();
        let (basic, p3) = counted_at(b, p2, monster_item()).unwrap();
        let (tactic, p4) = counted_at(b, p3, monster_item()).unwrap();
        assert(end == p4 + 16);
    }
}

} // verus!
