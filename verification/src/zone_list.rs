//! The server's zones: whether monsters spawn and PvP is on in each, the
//! event objects placed in them, and where each NPC is.
use vstd::prelude::*;
use std::collections::HashMap;

use crate::entity::Entity;
use crate::spawn::{NpcId, ZoneId};

verus! {

broadcast use vstd::std_specs::hash::group_hash_axioms;

/// An event object by its event id and the map chunk it stands in.
#[derive(Debug, Clone, Copy, PartialEq, Eq, Structural)]
pub struct EventObjectKey {
    pub event_id: u16,
    pub map_chunk_x: i32,
    pub map_chunk_y: i32,
}

/// What the server keeps of one zone.
pub struct ZoneData {
    pub monster_spawns_enabled: bool,
    pub pvp_enabled: bool,
    /// Each key at most once.
    pub event_objects: Vec<(EventObjectKey, Entity)>,
}

/// The event object under `key` among `v`, the last one recorded.
pub open spec fn event_lookup(v: Seq<(EventObjectKey, Entity)>, key: EventObjectKey) -> Option<Entity>
    decreases v.len(),
{
    if v.len() == 0 {
        None
    } else if v.last().0 == key {
        Some(v.last().1)
    } else {
        event_lookup(v.drop_last(), key)
    }
}

/// The zones by id, and the NPCs by id.
pub struct ZoneList {
    zones: HashMap<u16, ZoneData>,
    npcs: HashMap<u16, Entity>,
}

impl ZoneList {
    /// Zone `z` is known.
    pub closed spec fn has_zone(&self, z: u16) -> bool {
        self.zones@.contains_key(z)
    }

    /// Monsters spawn in zone `z` (false for an unknown zone).
    pub closed spec fn spec_spawns_enabled(&self, z: u16) -> bool {
        self.zones@.contains_key(z) && self.zones@[z].monster_spawns_enabled
    }

    /// PvP is on in zone `z` (false for an unknown zone).
    pub closed spec fn spec_pvp_enabled(&self, z: u16) -> bool {
        self.zones@.contains_key(z) && self.zones@[z].pvp_enabled
    }

    /// The event object of zone `z` under `key`.
    pub closed spec fn spec_event(&self, z: u16, key: EventObjectKey) -> Option<Entity> {
        if self.zones@.contains_key(z) {
            event_lookup(self.zones@[z].event_objects@, key)
        } else {
            None
        }
    }

    /// Where NPC `n` is.
    pub closed spec fn spec_npc(&self, n: u16) -> Option<Entity> {
        if self.npcs@.contains_key(n) {
            Some(self.npcs@[n])
        } else {
            None
        }
    }

    pub fn new() -> (r: ZoneList)
        ensures
            forall|z: u16| !(#[trigger] r.has_zone(z)),
            forall|n: u16| #[trigger] r.spec_npc(n) is None,
    {
        ZoneList { zones: HashMap::new(), npcs: HashMap::new() }
    }

    /// Adds (or resets) zone `zone_id`: monsters spawn, PvP as given, no
    /// event objects.
    pub fn add_zone(&mut self, zone_id: ZoneId, pvp_enabled: bool)
        ensures
            final(self).has_zone(zone_id.spec_get()),
            final(self).spec_spawns_enabled(zone_id.spec_get()),
            final(self).spec_pvp_enabled(zone_id.spec_get()) == pvp_enabled,
            forall|k: EventObjectKey| #[trigger] final(self).spec_event(zone_id.spec_get(), k) is None,
            forall|z: u16|
                z != zone_id.spec_get() ==> (#[trigger] final(self).has_zone(z) == old(self).has_zone(z)
                    && final(self).spec_spawns_enabled(z) == old(self).spec_spawns_enabled(z)
                    && final(self).spec_pvp_enabled(z) == old(self).spec_pvp_enabled(z)
                    && forall|k: EventObjectKey| #[trigger] final(self).spec_event(z, k) == old(self).spec_event(z, k)),
            forall|n: u16| #[trigger] final(self).spec_npc(n) == old(self).spec_npc(n),
    {
        self.zones.insert(
            zone_id.get(),
            ZoneData { monster_spawns_enabled: true, pvp_enabled, event_objects: Vec::new() },
        );
    }

    /// Whether monsters spawn in `zone_id`.
    pub fn get_monster_spawns_enabled(&self, zone_id: ZoneId) -> (r: bool)
        ensures
            r == self.spec_spawns_enabled(zone_id.spec_get()),
    {
        match self.zones.get(&zone_id.get()) {
            Some(zone) => zone.monster_spawns_enabled,
            None => false,
        }
    }

    /// Turns monster spawning of a known zone on or off; says whether the
    /// zone is known.
    pub fn set_monster_spawns_enabled(&mut self, zone_id: ZoneId, enabled: bool) -> (r: bool)
        ensures
            r == old(self).has_zone(zone_id.spec_get()),
            r ==> final(self).spec_spawns_enabled(zone_id.spec_get()) == enabled,
            final(self).spec_pvp_enabled(zone_id.spec_get()) == old(self).spec_pvp_enabled(zone_id.spec_get()),
            forall|z: u16| #[trigger] final(self).has_zone(z) == old(self).has_zone(z),
            forall|z: u16| z != zone_id.spec_get() ==> #[trigger] final(self).spec_spawns_enabled(z) == old(self).spec_spawns_enabled(z),
            forall|z: u16| z != zone_id.spec_get() ==> #[trigger] final(self).spec_pvp_enabled(z) == old(self).spec_pvp_enabled(z),
            forall|z: u16, k: EventObjectKey| #[trigger] final(self).spec_event(z, k) == old(self).spec_event(z, k),
            forall|n: u16| #[trigger] final(self).spec_npc(n) == old(self).spec_npc(n),
    {
        let id = zone_id.get();
        match self.zones.remove(&id) {
            Some(zone) => {
                self.zones.insert(
                    id,
                    ZoneData { monster_spawns_enabled: enabled, pvp_enabled: zone.pvp_enabled, event_objects: zone.event_objects },
                );
                assert(self.zones@ == old(self).zones@.insert(id, self.zones@[id]));
                true
            },
            None => false,
        }
    }

    /// Whether PvP is on in `zone_id`.
    pub fn get_pvp_enabled(&self, zone_id: ZoneId) -> (r: bool)
        ensures
            r == self.spec_pvp_enabled(zone_id.spec_get()),
    {
        match self.zones.get(&zone_id.get()) {
            Some(zone) => zone.pvp_enabled,
            None => false,
        }
    }

    /// Turns PvP of a known zone on or off; says whether the zone is known.
    pub fn set_pvp_enabled(&mut self, zone_id: ZoneId, enabled: bool) -> (r: bool)
        ensures
            r == old(self).has_zone(zone_id.spec_get()),
            r ==> final(self).spec_pvp_enabled(zone_id.spec_get()) == enabled,
            final(self).spec_spawns_enabled(zone_id.spec_get()) == old(self).spec_spawns_enabled(zone_id.spec_get()),
            forall|z: u16| #[trigger] final(self).has_zone(z) == old(self).has_zone(z),
            forall|z: u16| z != zone_id.spec_get() ==> #[trigger] final(self).spec_spawns_enabled(z) == old(self).spec_spawns_enabled(z),
            forall|z: u16| z != zone_id.spec_get() ==> #[trigger] final(self).spec_pvp_enabled(z) == old(self).spec_pvp_enabled(z),
            forall|z: u16, k: EventObjectKey| #[trigger] final(self).spec_event(z, k) == old(self).spec_event(z, k),
            forall|n: u16| #[trigger] final(self).spec_npc(n) == old(self).spec_npc(n),
    {
        let id = zone_id.get();
        match self.zones.remove(&id) {
            Some(zone) => {
                self.zones.insert(
                    id,
                    ZoneData { monster_spawns_enabled: zone.monster_spawns_enabled, pvp_enabled: enabled, event_objects: zone.event_objects },
                );
                true
            },
            None => false,
        }
    }

    /// Records an event object of a known zone (replacing one under the same
    /// key); does nothing for an unknown zone.
    pub fn add_event_object(&mut self, zone_id: ZoneId, event_id: u16, map_chunk_x: i32, map_chunk_y: i32, entity: Entity)
        ensures
            forall|z: u16| #[trigger] final(self).has_zone(z) == old(self).has_zone(z),
            forall|z: u16| #[trigger] final(self).spec_spawns_enabled(z) == old(self).spec_spawns_enabled(z),
            forall|z: u16| #[trigger] final(self).spec_pvp_enabled(z) == old(self).spec_pvp_enabled(z),
            forall|z: u16, k: EventObjectKey|
                #[trigger] final(self).spec_event(z, k) == if old(self).has_zone(z) && z == zone_id.spec_get() && k == (EventObjectKey {
                    event_id,
                    map_chunk_x,
                    map_chunk_y,
                }) {
                    Some(entity)
                } else {
                    old(self).spec_event(z, k)
                },
            forall|n: u16| #[trigger] final(self).spec_npc(n) == old(self).spec_npc(n),
    {
        let id = zone_id.get();
        let key = EventObjectKey { event_id, map_chunk_x, map_chunk_y };
        match self.zones.remove(&id) {
            Some(zone) => {
                let mut events = zone.event_objects;
                let ghost before = events@;
                events.push((key, entity));
                assert(events@.drop_last() =~= before);
                self.zones.insert(
                    id,
                    ZoneData { monster_spawns_enabled: zone.monster_spawns_enabled, pvp_enabled: zone.pvp_enabled, event_objects: events },
                );
            },
            None => {},
        }
    }

    /// The event object of `zone_id` under the event id and map chunk.
    pub fn find_event_object(&self, zone_id: ZoneId, event_id: u16, map_chunk_x: i32, map_chunk_y: i32) -> (r: Option<Entity>)
        ensures
            r == self.spec_event(zone_id.spec_get(), EventObjectKey { event_id, map_chunk_x, map_chunk_y }),
    {
        let key = EventObjectKey { event_id, map_chunk_x, map_chunk_y };
        match self.zones.get(&zone_id.get()) {
            Some(zone) => {
                let v = &zone.event_objects;
                let mut i: usize = v.len();
                assert(v@.take(i as int) =~= v@);
                assert(self.spec_event(zone_id.spec_get(), key) == event_lookup(v@, key));
                while i > 0
                    invariant
                        i <= v@.len(),
                        self.spec_event(zone_id.spec_get(), key) == event_lookup(v@, key),
                        key == (EventObjectKey { event_id, map_chunk_x, map_chunk_y }),
                        event_lookup(v@, key) == event_lookup(v@.take(i as int), key),
                    decreases i,
                {
                    assert(v@.take(i as int).drop_last() =~= v@.take(i - 1));
                    if v[i - 1].0 == key {
                        assert(v@.take(i as int).last() == v@[i - 1]);
                        assert(event_lookup(v@.take(i as int), key) == Some(v@[i - 1].1));
                        let found = v[i - 1].1;
                        return Some(found);
                    }
                    i = i - 1;
                }
                assert(v@.take(0) =~= Seq::<(EventObjectKey, Entity)>::empty());
                None
            },
            None => None,
        }
    }

    /// Records where NPC `npc_id` is.
    pub fn add_npc(&mut self, npc_id: NpcId, entity: Entity)
        ensures
            final(self).spec_npc(npc_id.spec_get()) == Some(entity),
            forall|n: u16| n != npc_id.spec_get() ==> #[trigger] final(self).spec_npc(n) == old(self).spec_npc(n),
            forall|z: u16| #[trigger] final(self).has_zone(z) == old(self).has_zone(z),
            forall|z: u16| #[trigger] final(self).spec_pvp_enabled(z) == old(self).spec_pvp_enabled(z),
            forall|z: u16| #[trigger] final(self).spec_spawns_enabled(z) == old(self).spec_spawns_enabled(z),
    {
        self.npcs.insert(npc_id.get(), entity);
    }

    /// Where NPC `npc_id` is.
    pub fn find_npc(&self, npc_id: NpcId) -> (r: Option<Entity>)
        ensures
            r == self.spec_npc(npc_id.spec_get()),
    {
        match self.npcs.get(&npc_id.get()) {
            Some(e) => Some(*e),
            None => None,
        }
    }
}

} // verus!
