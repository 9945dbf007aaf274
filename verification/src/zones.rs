//! Zones of the shop editor: which NPCs and monsters a zone's map tiles
//! spawn, read from the mob lump of each tile's IFO file, and the grouping
//! of shopkeepers by the zones they stand in.
use vstd::prelude::*;
use std::collections::HashSet;

use crate::bytes::{le_i32, read_i32_le};
use crate::ifo::{lemma_list_step, lemma_list_stop, list_at};
use crate::text::parse_i32;
use crate::shop::{cell_int_or, decimal_of};

verus! {

/// The lump of an IFO file that holds NPC and monster spawns.
pub const LUMP_TERRAIN_MOB: i32 = 2;

/// Why a tile's mob lump could not be read.
#[derive(Debug, Clone, Copy, PartialEq, Eq, Structural)]
pub enum MobLumpError {
    /// The data ends inside the lump directory, a count, an entry or a
    /// string.
    Truncated,
}

/// The little-endian `i32` at `pos` and the position after it.
pub open spec fn i32_at(b: Seq<u8>, pos: int) -> Option<(i32, int)> {
    if 0 <= pos && pos + 4 <= b.len() {
        Some((le_i32(b, pos) as i32, pos + 4))
    } else {
        None
    }
}

/// Where the string with a one-byte length at `pos` ends.
pub open spec fn pascal_end(b: Seq<u8>, pos: int) -> Option<int> {
    if 0 <= pos && pos < b.len() && pos + 1 + b[pos] <= b.len() {
        Some(pos + 1 + b[pos])
    } else {
        None
    }
}

/// A spawn entry of the mob lump at `pos`: its object name, warp and event
/// ids (`i16`), object type, object id, minimap x and y (`i32`), 40 bytes of
/// rotation, position and scale, the AI number (`i32`) and the AI file name;
/// gives the object id and the position after the entry.
pub open spec fn mob_object_at(b: Seq<u8>, pos: int) -> Option<(i32, int)> {
    match pascal_end(b, pos) {
        Some(p) => if p + 64 <= b.len() {
            match pascal_end(b, p + 64) {
                Some(q) => Some((le_i32(b, p + 8) as i32, q)),
                None => None,
            }
        } else {
            None
        },
        None => None,
    }
}

pub open spec fn mob_item() -> spec_fn(Seq<u8>, int) -> Option<(i32, int)> {
    |b: Seq<u8>, pos: int| mob_object_at(b, pos)
}

/// A lump directory entry: lump type and offset.
pub open spec fn dir_entry_at(b: Seq<u8>, pos: int) -> Option<((i32, i32), int)> {
    if 0 <= pos && pos + 8 <= b.len() {
        Some(((le_i32(b, pos) as i32, le_i32(b, pos + 4) as i32), pos + 8))
    } else {
        None
    }
}

pub open spec fn dir_item() -> spec_fn(Seq<u8>, int) -> Option<((i32, i32), int)> {
    |b: Seq<u8>, pos: int| dir_entry_at(b, pos)
}

/// A signed count as a number of iterations (none when not positive).
pub open spec fn times(n: i32) -> nat {
    if n > 0 {
        n as nat
    } else {
        0
    }
}

/// The object ids of the mob lump at offset `off`: a count, then entries.
pub open spec fn lump_ids_at(b: Seq<u8>, off: int) -> Option<Seq<i32>> {
    match i32_at(b, off) {
        Some((c, p)) => match list_at(b, p, times(c), mob_item()) {
            Some((ids, _)) => Some(ids),
            None => None,
        },
        None => None,
    }
}

/// The object ids of the mob lumps among the first `k` directory entries.
pub open spec fn mob_ids_upto(b: Seq<u8>, dir: Seq<(i32, i32)>, k: nat) -> Option<Seq<i32>>
    decreases k,
{
    if k == 0 {
        Some(Seq::<i32>::empty())
    } else {
        match mob_ids_upto(b, dir, (k - 1) as nat) {
            Some(v) => if dir[k - 1].0 == LUMP_TERRAIN_MOB {
                match lump_ids_at(b, dir[k - 1].1 as u64 as int) {
                    Some(w) => Some(v + w),
                    None => None,
                }
            } else {
                Some(v)
            },
            None => None,
        }
    }
}

/// The object ids of every spawn of a tile: the lump directory (a count,
/// then type and offset pairs), then each mob lump in directory order.
pub open spec fn mob_ids(b: Seq<u8>) -> Option<Seq<i32>> {
    match i32_at(b, 0) {
        Some((n, _)) => match list_at(b, 4, times(n), dir_item()) {
            Some((dir, _)) => mob_ids_upto(b, dir, dir.len()),
            None => None,
        },
        None => None,
    }
}

/// Skips the string with a one-byte length at `pos`.
fn skip_pascal_string(b: &[u8], pos: usize) -> (r: Option<usize>)
    ensures
        match pascal_end(b@, pos as int) {
            Some(e) => r matches Some(x) && x == e,
            None => r is None,
        },
{
    if pos >= b.len() {
        return None;
    }
    let len = b[pos] as usize;
    if b.len() - pos - 1 < len {
        return None;
    }
    Some(pos + 1 + len)
}

/// Skips `n` bytes at `pos`.
fn skip_bytes(b: &[u8], pos: usize, n: usize) -> (r: Option<usize>)
    ensures
        match r {
            Some(e) => e == pos + n && pos + n <= b@.len(),
            None => pos + n > b@.len(),
        },
{
    if pos > b.len() || b.len() - pos < n {
        return None;
    }
    Some(pos + n)
}

/// Reads one spawn entry of a mob lump and gives its object id.
fn read_mob_object(b: &[u8], pos: usize) -> (r: Option<(i32, usize)>)
    ensures
        match mob_object_at(b@, pos as int) {
            Some((id, e)) => r matches Some((x, q)) && x == id && q == e,
            None => r is None,
        },
{
    let p = match skip_pascal_string(b, pos) {
        Some(p) => p,
        None => {
            return None;
        },
    };
    let q = match skip_bytes(b, p, 64) {
        Some(q) => q,
        None => {
            return None;
        },
    };
    let obj_id = read_i32_le(b, p + 8);
    match skip_pascal_string(b, q) {
        Some(e) => Some((obj_id, e)),
        None => None,
    }
}

/// Reads `n` spawn entries from `pos`.
fn read_mob_objects(b: &[u8], pos: usize, n: i32) -> (r: Option<Vec<i32>>)
    ensures
        match list_at(b@, pos as int, times(n), mob_item()) {
            Some((ids, _)) => r matches Some(v) && v@ == ids,
            None => r is None,
        },
{
    let mut out: Vec<i32> = Vec::new();
    let mut p = pos;
    let mut i: i32 = 0;
    while i < n
        invariant
            0 <= i,
            n > 0 ==> i <= n,
            n <= 0 ==> i == 0,
            list_at(b@, pos as int, i as nat, mob_item()) == Some((out@, p as int)),
        decreases n - i,
    {
        match read_mob_object(b, p) {
            Some((id, q)) => {
                proof {
                    lemma_list_step(b@, pos as int, i as nat, mob_item(), out@, p as int, id, q as int);
                }
                out.push(id);
                p = q;
            },
            None => {
                proof {
                    assert(list_at(b@, pos as int, (i + 1) as nat, mob_item()) is None) by {
                        assert(((i + 1) as nat - 1) as nat == i as nat);
                    }
                    lemma_list_stop(b@, pos as int, (i + 1) as nat, times(n), mob_item());
                }
                return None;
            },
        }
        i = i + 1;
    }
    assert(i as nat == times(n));
    Some(out)
}

/// Reads the object ids of every spawn of a tile's IFO data.
pub fn parse_ifo_mob_lump(bytes: &[u8]) -> (r: Result<Vec<i32>, MobLumpError>)
    ensures
        match mob_ids(bytes@) {
            Some(ids) => r matches Ok(v) && v@ == ids,
            None => r == Err::<Vec<i32>, MobLumpError>(MobLumpError::Truncated),
        },
{
    if bytes.len() < 4 {
        return Err(MobLumpError::Truncated);
    }
    let lump_count = read_i32_le(bytes, 0);
    let mut dir: Vec<(i32, i32)> = Vec::new();
    let mut p: usize = 4;
    let mut i: i32 = 0;
    while i < lump_count
        invariant
            0 <= i,
            lump_count > 0 ==> i <= lump_count,
            lump_count <= 0 ==> i == 0,
            lump_count == le_i32(bytes@, 0) as i32,
            bytes@.len() >= 4,
            list_at(bytes@, 4, i as nat, dir_item()) == Some((dir@, p as int)),
        decreases lump_count - i,
    {
        if p > bytes.len() || bytes.len() - p < 8 {
            proof {
                assert(list_at(bytes@, 4, (i + 1) as nat, dir_item()) is None) by {
                    assert(((i + 1) as nat - 1) as nat == i as nat);
                }
                lemma_list_stop(bytes@, 4, (i + 1) as nat, times(lump_count), dir_item());
            }
            return Err(MobLumpError::Truncated);
        }
        let entry = (read_i32_le(bytes, p), read_i32_le(bytes, p + 4));
        proof {
            lemma_list_step(bytes@, 4, i as nat, dir_item(), dir@, p as int, entry, p + 8);
        }
        dir.push(entry);
        p = p + 8;
        i = i + 1;
    }
    assert(i as nat == times(lump_count));
    assert(i32_at(bytes@, 0) == Some((lump_count, 4int)));
    assert(mob_ids(bytes@) == mob_ids_upto(bytes@, dir@, dir@.len()));
    let mut out: Vec<i32> = Vec::new();
    let mut k: usize = 0;
    while k < dir.len()
        invariant
            k <= dir@.len(),
            mob_ids(bytes@) == mob_ids_upto(bytes@, dir@, dir@.len()),
            mob_ids_upto(bytes@, dir@, k as nat) == Some(out@),
        decreases dir@.len() - k,
    {
        let (ty, off) = dir[k];
        if ty == LUMP_TERRAIN_MOB {
            let pos = off as u64;
            if pos > bytes.len() as u64 || (bytes.len() as u64) - pos < 4 {
                proof {
                    assert(mob_ids_upto(bytes@, dir@, (k + 1) as nat) is None) by {
                        assert(((k + 1) as nat - 1) as nat == k as nat);
                    }
                    lemma_mob_ids_stop(bytes@, dir@, (k + 1) as nat, dir@.len());
                }
                return Err(MobLumpError::Truncated);
            }
            let pos = pos as usize;
            let cnt = read_i32_le(bytes, pos);
            match read_mob_objects(bytes, pos + 4, cnt) {
                Some(mut ids) => {
                    let ghost before = out@;
                    let ghost w = ids@;
                    out.append(&mut ids);
                    proof {
                        assert(((k + 1) as nat - 1) as nat == k as nat);
                        assert(out@ == before + w);
                    }
                },
                None => {
                    proof {
                        assert(mob_ids_upto(bytes@, dir@, (k + 1) as nat) is None) by {
                            assert(((k + 1) as nat - 1) as nat == k as nat);
                        }
                        lemma_mob_ids_stop(bytes@, dir@, (k + 1) as nat, dir@.len());
                    }
                    return Err(MobLumpError::Truncated);
                },
            }
        } else {
            proof {
                assert(((k + 1) as nat - 1) as nat == k as nat);
            }
        }
        k = k + 1;
    }
    Ok(out)
}

proof fn lemma_mob_ids_stop(b: Seq<u8>, dir: Seq<(i32, i32)>, k: nat, n: nat)
    requires
        k <= n,
        mob_ids_upto(b, dir, k) is None,
    ensures
        mob_ids_upto(b, dir, n) is None,
    decreases n - k,
{
    if k < n {
        assert(mob_ids_upto(b, dir, (k + 1) as nat) is None) by {
            assert(((k + 1) as nat - 1) as nat == k);
        }
        lemma_mob_ids_stop(b, dir, (k + 1) as nat, n);
    }
}


// ---------------------------------------------------------------- zones and their shopkeepers

broadcast use vstd::std_specs::hash::group_hash_axioms;

/// A zone of the zone table and the object ids that its map tiles spawn.
#[derive(Debug)]
pub struct Zone {
    pub id: i32,
    pub name: String,
    /// Every NPC or monster object id spawned inside the zone's tiles.
    pub spawn_ids: HashSet<i32>,
}

/// The text of cell `c`, or empty.
pub open spec fn cell_text(row: Seq<String>, c: int) -> Seq<char> {
    if 0 <= c < row.len() {
        row[c]@
    } else {
        Seq::<char>::empty()
    }
}

/// What row `i` of the zone table names: its id (the row name when it
/// parses, else `i`), its name and its `.ZON` path; rows without a name or a
/// path name no zone.
pub open spec fn spec_zone_row(row: Seq<String>, i: int) -> Option<(i32, Seq<char>, Seq<char>)> {
    if cell_text(row, 1).len() == 0 || cell_text(row, 2).len() == 0 {
        None
    } else {
        Some((cell_int_or(row, 0, i as i32), cell_text(row, 1), cell_text(row, 2)))
    }
}

/// The id, name and `.ZON` path that row `i` of the zone table names.
pub fn zone_row(row: &Vec<String>, i: usize) -> (r: Option<(i32, String, String)>)
    ensures
        match spec_zone_row(row@, i as int) {
            None => r is None,
            Some((id, name, zon)) => r matches Some((a, b, c)) && a == id && b@ == name && c@ == zon,
        },
{
    let name = if row.len() > 1 {
        row[1].clone()
    } else {
        String::new()
    };
    let zon = if row.len() > 2 {
        row[2].clone()
    } else {
        String::new()
    };
    if name.as_str().is_empty() || zon.as_str().is_empty() {
        return None;
    }
    let fallback = i as i32;
    assert(fallback == (i as int) as i32);
    let id = match if row.len() > 0 { parse_i32(row[0].as_str()) } else { None } {
        Some(v) => v,
        None => fallback,
    };
    Some((id, name, zon))
}

/// The numbers are strictly increasing.
pub open spec fn sorted_strict(v: Seq<i32>) -> bool {
    forall|i: int, j: int| 0 <= i < j < v.len() ==> v[i] < v[j]
}

/// Puts `x` in its place in a strictly increasing list, unless it is there.
fn insert_sorted(v: &mut Vec<i32>, x: i32)
    requires
        sorted_strict(old(v)@),
    ensures
        sorted_strict(final(v)@),
        final(v)@.to_set() == old(v)@.to_set().insert(x),
{
    let mut i: usize = 0;
    while i < v.len() && v[i] < x
        invariant
            i <= v@.len(),
            forall|k: int| 0 <= k < i ==> v@[k] < x,
        decreases v@.len() - i,
    {
        i = i + 1;
    }
    if i < v.len() && v[i] == x {
        assert(old(v)@.to_set().insert(x) =~= old(v)@.to_set()) by {
            assert(old(v)@[i as int] == x);
        }
        return;
    }
    let ghost o = v@;
    v.insert(i, x);
    proof {
        let n = v@;
        assert(n =~= o.subrange(0, i as int).push(x) + o.subrange(i as int, o.len() as int));
        assert forall|a: int, b: int| 0 <= a < b < n.len() implies n[a] < n[b] by {
            if b < i {
            } else if b == i {
            } else if a < i {
                assert(n[b] == o[b - 1]);
                assert(o[b - 1] >= x);
            } else if a == i {
                assert(n[b] == o[b - 1]);
                assert(o[i as int] > x);
                if b - 1 > i {
                    assert(o[i as int] < o[b - 1]);
                }
            } else {
                assert(n[a] == o[a - 1] && n[b] == o[b - 1]);
            }
        }
        assert forall|y: i32| n.to_set().contains(y) == o.to_set().insert(x).contains(y) by {
            if n.contains(y) {
                let k = choose|k: int| 0 <= k < n.len() && n[k] == y;
                if k < i {
                    assert(o[k] == y);
                } else if k > i {
                    assert(o[k - 1] == y);
                }
            }
            if o.contains(y) {
                let k = choose|k: int| 0 <= k < o.len() && o[k] == y;
                if k < i {
                    assert(n[k] == y);
                } else {
                    assert(n[k + 1] == y);
                }
            }
            if y == x {
                assert(n[i as int] == x);
            }
        }
        assert(n.to_set() =~= o.to_set().insert(x));
    }
}


/// `a` comes before `b`: no zone before any zone, zones by id.
pub open spec fn key_lt(a: Option<i32>, b: Option<i32>) -> bool {
    match (a, b) {
        (None, Some(_)) => true,
        (Some(x), Some(y)) => x < y,
        _ => false,
    }
}

fn key_less(a: Option<i32>, b: Option<i32>) -> (r: bool)
    ensures
        r == key_lt(a, b),
{
    match (a, b) {
        (None, Some(_)) => true,
        (Some(x), Some(y)) => x < y,
        _ => false,
    }
}

/// The groups stand in key order, each key once, each list strictly
/// increasing, and they are the map `m`: each key with the set of its list.
pub open spec fn represents(out: Seq<(Option<i32>, Vec<i32>)>, m: Map<Option<i32>, Set<i32>>) -> bool {
    &&& forall|i: int, j: int| 0 <= i < j < out.len() ==> key_lt(#[trigger] out[i].0, #[trigger] out[j].0)
    &&& forall|i: int|
        0 <= i < out.len() ==> m.contains_key(#[trigger] out[i].0) && m[out[i].0] == out[i].1@.to_set()
            && sorted_strict(out[i].1@)
    &&& forall|k: Option<i32>| #[trigger] m.contains_key(k) ==> exists|i: int| 0 <= i < out.len() && out[i].0 == k
}

/// Sets the group of `key` to `bucket`, keeping key order.
fn put_group(out: &mut Vec<(Option<i32>, Vec<i32>)>, key: Option<i32>, bucket: Vec<i32>, Ghost(m): Ghost<Map<Option<i32>, Set<i32>>>)
    requires
        represents(old(out)@, m),
        sorted_strict(bucket@),
    ensures
        represents(final(out)@, m.insert(key, bucket@.to_set())),
{
    let ghost bset = bucket@.to_set();
    let mut i: usize = 0;
    while i < out.len() && key_less(out[i].0, key)
        invariant
            i <= out@.len(),
            forall|k: int| 0 <= k < i ==> key_lt(#[trigger] out@[k].0, key),
        decreases out@.len() - i,
    {
        i = i + 1;
    }
    let ghost o = out@;
    let ghost m2 = m.insert(key, bset);
    if i < out.len() && out[i].0 == key {
        out.set(i, (key, bucket));
        proof {
            let n = out@;
            assert forall|a: int, b: int| 0 <= a < b < n.len() implies key_lt(#[trigger] n[a].0, #[trigger] n[b].0) by {
                assert(n[a].0 == o[a].0 && n[b].0 == o[b].0);
                assert(key_lt(o[a].0, o[b].0));
            }
            assert forall|a: int| 0 <= a < n.len() implies m2.contains_key(#[trigger] n[a].0) && m2[n[a].0]
                == n[a].1@.to_set() && sorted_strict(n[a].1@) by {
                if a != i {
                    assert(n[a] == o[a]);
                    assert(o[a].0 != key) by {
                        if a < i {
                            assert(key_lt(o[a].0, o[i as int].0));
                        } else {
                            assert(key_lt(o[i as int].0, o[a].0));
                        }
                    }
                }
            }
            assert forall|k: Option<i32>| #[trigger] m2.contains_key(k) implies exists|a: int| 0 <= a < n.len() && n[a].0 == k by {
                if k == key {
                    assert(n[i as int].0 == k);
                } else {
                    assert(m.contains_key(k));
                    let a = choose|a: int| 0 <= a < o.len() && o[a].0 == k;
                    assert(n[a].0 == k);
                }
            }
        }
    } else {
        out.insert(i, (key, bucket));
        proof {
            let n = out@;
            assert(n.len() == o.len() + 1);
            assert forall|a: int| 0 <= a < n.len() implies #[trigger] n[a] == if a < i {
                o[a]
            } else if a == i {
                (key, bucket)
            } else {
                o[a - 1]
            } by {}
            assert forall|a: int| 0 <= a < o.len() implies o[a].0 != key by {
                if a < i {
                    assert(key_lt(o[a].0, key));
                } else {
                    assert(!key_lt(o[i as int].0, key));
                    if a > i {
                        assert(key_lt(o[i as int].0, o[a].0));
                    }
                }
            }
            assert forall|a: int, b: int| 0 <= a < b < n.len() implies key_lt(#[trigger] n[a].0, #[trigger] n[b].0) by {
                if b < i {
                    assert(key_lt(o[a].0, o[b].0));
                } else if b == i {
                    assert(key_lt(o[a].0, key));
                } else if a < i {
                    assert(key_lt(o[a].0, o[b - 1].0));
                } else if a == i {
                    assert(!key_lt(o[i as int].0, key));
                    assert(o[i as int].0 != key);
                    if b - 1 > i {
                        assert(key_lt(o[i as int].0, o[b - 1].0));
                    }
                } else {
                    assert(key_lt(o[a - 1].0, o[b - 1].0));
                }
            }
            assert forall|a: int| 0 <= a < n.len() implies m2.contains_key(#[trigger] n[a].0) && m2[n[a].0]
                == n[a].1@.to_set() && sorted_strict(n[a].1@) by {
                if a < i {
                    assert(o[a].0 != key);
                } else if a > i {
                    assert(o[a - 1].0 != key);
                }
            }
            assert forall|k: Option<i32>| #[trigger] m2.contains_key(k) implies exists|a: int| 0 <= a < n.len() && n[a].0 == k by {
                if k == key {
                    assert(n[i as int].0 == k);
                } else {
                    assert(m.contains_key(k));
                    let a = choose|a: int| 0 <= a < o.len() && o[a].0 == k;
                    if a < i {
                        assert(n[a].0 == k);
                    } else {
                        assert(n[a + 1].0 == k);
                    }
                }
            }
        }
    }
}


/// Each zone's id and spawned ids.
pub open spec fn zone_view(zones: Seq<Zone>) -> Seq<(i32, Set<i32>)> {
    Seq::new(zones.len(), |i: int| (zones[i].id, zones[i].spawn_ids@))
}

/// The groups of the first `k` zones: each zone whose spawns include
/// shopkeepers gets those shopkeepers (a later zone with the same id
/// replaces an earlier one).
pub open spec fn groups_upto(zs: Seq<(i32, Set<i32>)>, shop: Set<i32>, k: nat) -> Map<Option<i32>, Set<i32>>
    decreases k,
{
    if k == 0 {
        Map::<Option<i32>, Set<i32>>::empty()
    } else {
        let prev = groups_upto(zs, shop, (k - 1) as nat);
        let b = zs[k - 1].1.intersect(shop);
        if b == Set::<i32>::empty() {
            prev
        } else {
            prev.insert(Some(zs[k - 1].0), b)
        }
    }
}

/// The shopkeepers that the first `k` zones spawn.
pub open spec fn placed_upto(zs: Seq<(i32, Set<i32>)>, shop: Set<i32>, k: nat) -> Set<i32>
    decreases k,
{
    if k == 0 {
        Set::<i32>::empty()
    } else {
        placed_upto(zs, shop, (k - 1) as nat).union(zs[k - 1].1.intersect(shop))
    }
}

/// Shopkeepers by zone, and those that no zone spawns under no zone.
pub open spec fn spec_group_npcs(zs: Seq<(i32, Set<i32>)>, shop: Set<i32>) -> Map<Option<i32>, Set<i32>> {
    let m = groups_upto(zs, shop, zs.len());
    let left = shop.difference(placed_upto(zs, shop, zs.len()));
    if left == Set::<i32>::empty() {
        m
    } else {
        m.insert(None, left)
    }
}

proof fn lemma_take_to_set(s: Seq<i32>, j: int)
    requires
        0 <= j < s.len(),
    ensures
        s.take(j + 1).to_set() == s.take(j).to_set().insert(s[j]),
{
    let a = s.take(j + 1);
    let b = s.take(j);
    assert forall|y: i32| a.to_set().contains(y) == b.to_set().insert(s[j]).contains(y) by {
        if a.contains(y) {
            let k = choose|k: int| 0 <= k < a.len() && a[k] == y;
            if k < j {
                assert(b[k] == y);
            }
        }
        if b.contains(y) {
            let k = choose|k: int| 0 <= k < b.len() && b[k] == y;
            assert(a[k] == y);
        }
        if y == s[j] {
            assert(a[j] == y);
        }
    }
    assert(a.to_set() =~= b.to_set().insert(s[j]));
}

proof fn lemma_empty_iff(v: Seq<i32>)
    ensures
        (v.len() == 0) == (v.to_set() == Set::<i32>::empty()),
{
    if v.len() == 0 {
        assert(v.to_set() =~= Set::<i32>::empty());
    } else {
        assert(v.to_set().contains(v[0]));
    }
}

/// The sorted shopkeepers among `ids` that `spawns` holds.
fn zone_bucket(spawns: &HashSet<i32>, ids: &Vec<i32>) -> (b: Vec<i32>)
    ensures
        sorted_strict(b@),
        b@.to_set() == spawns@.intersect(ids@.to_set()),
{
    let mut b: Vec<i32> = Vec::new();
    let mut j: usize = 0;
    while j < ids.len()
        invariant
            j <= ids@.len(),
            sorted_strict(b@),
            b@.to_set() == spawns@.intersect(ids@.take(j as int).to_set()),
        decreases ids@.len() - j,
    {
        let id = ids[j];
        proof {
            lemma_take_to_set(ids@, j as int);
        }
        if spawns.contains(&id) {
            insert_sorted(&mut b, id);
            assert(b@.to_set() =~= spawns@.intersect(ids@.take(j + 1).to_set()));
        } else {
            assert(b@.to_set() =~= spawns@.intersect(ids@.take(j + 1).to_set()));
        }
        j = j + 1;
    }
    assert(ids@.take(ids@.len() as int) =~= ids@);
    b
}

/// Groups shopkeepers by the zones that spawn them, zones in id order with
/// their shopkeepers in increasing order, and those that no zone spawns
/// under `None` (first); zones without shopkeepers are left out.
pub fn group_npcs_by_zone(zones: &Vec<Zone>, shopkeeper_ids: &Vec<i32>) -> (r: Vec<(Option<i32>, Vec<i32>)>)
    ensures
        represents(r@, spec_group_npcs(zone_view(zones@), shopkeeper_ids@.to_set())),
{
    let ghost zs = zone_view(zones@);
    let ghost shop = shopkeeper_ids@.to_set();
    let mut out: Vec<(Option<i32>, Vec<i32>)> = Vec::new();
    let mut placed: HashSet<i32> = HashSet::new();
    let mut k: usize = 0;
    while k < zones.len()
        invariant
            k <= zones@.len(),
            zs == zone_view(zones@),
            shop == shopkeeper_ids@.to_set(),
            represents(out@, groups_upto(zs, shop, k as nat)),
            placed@ == placed_upto(zs, shop, k as nat),
        decreases zones@.len() - k,
    {
        let z = &zones[k];
        let bucket = zone_bucket(&z.spawn_ids, shopkeeper_ids);
        assert(zs[k as int].1.intersect(shop) == bucket@.to_set());
        proof {
            lemma_empty_iff(bucket@);
            assert(((k + 1) as nat - 1) as nat == k as nat);
        }
        if bucket.len() > 0 {
            let mut j: usize = 0;
            let ghost p0 = placed@;
            while j < bucket.len()
                invariant
                    j <= bucket@.len(),
                    placed@ == p0.union(bucket@.take(j as int).to_set()),
                decreases bucket@.len() - j,
            {
                proof {
                    lemma_take_to_set(bucket@, j as int);
                }
                placed.insert(bucket[j]);
                assert(placed@ =~= p0.union(bucket@.take(j + 1).to_set()));
                j = j + 1;
            }
            assert(bucket@.take(bucket@.len() as int) =~= bucket@);
            put_group(&mut out, Some(z.id), bucket, Ghost(groups_upto(zs, shop, k as nat)));
        } else {
            assert(placed@ =~= placed_upto(zs, shop, (k + 1) as nat));
        }
        k = k + 1;
    }
    let mut leftover: Vec<i32> = Vec::new();
    let mut j: usize = 0;
    while j < shopkeeper_ids.len()
        invariant
            j <= shopkeeper_ids@.len(),
            sorted_strict(leftover@),
            leftover@.to_set() == shopkeeper_ids@.take(j as int).to_set().difference(placed@),
        decreases shopkeeper_ids@.len() - j,
    {
        let id = shopkeeper_ids[j];
        proof {
            lemma_take_to_set(shopkeeper_ids@, j as int);
        }
        if !placed.contains(&id) {
            insert_sorted(&mut leftover, id);
        }
        assert(leftover@.to_set() =~= shopkeeper_ids@.take(j + 1).to_set().difference(placed@));
        j = j + 1;
    }
    assert(shopkeeper_ids@.take(shopkeeper_ids@.len() as int) =~= shopkeeper_ids@);
    proof {
        lemma_empty_iff(leftover@);
    }
    if leftover.len() > 0 {
        put_group(&mut out, None, leftover, Ghost(groups_upto(zs, shop, zs.len())));
    }
    out
}

} // verus!
