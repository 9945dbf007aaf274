//! Live reloads of a zone block's spawn points: the queue of reload jobs,
//! and which spawn points a queued job still blocks.
use vstd::prelude::*;
use std::collections::VecDeque;

use crate::entity::Entity;
use crate::spawn::{ZoneId, ZoneMonsterSpawnPoint};

verus! {

/// A reload of one zone block's spawn points: the new spawn data, the spawn
/// points it replaces, and the monsters still to be removed first.
pub struct LiveSpawnReloadJob {
    pub zone_id: ZoneId,
    pub block_x: u32,
    pub block_y: u32,
    pub reloaded_spawns: Vec<ZoneMonsterSpawnPoint>,
    /// The spawn points being replaced, each once.
    pub old_spawn_entities: Vec<Entity>,
    pub pending_monsters: VecDeque<Entity>,
}

impl LiveSpawnReloadJob {
    pub fn new(
        zone_id: ZoneId,
        block_x: u32,
        block_y: u32,
        reloaded_spawns: Vec<ZoneMonsterSpawnPoint>,
        old_spawn_entities: Vec<Entity>,
        pending_monsters: VecDeque<Entity>,
    ) -> (r: LiveSpawnReloadJob)
        ensures
            r.zone_id == zone_id,
            r.block_x == block_x,
            r.block_y == block_y,
            r.reloaded_spawns@ == reloaded_spawns@,
            r.old_spawn_entities@ == old_spawn_entities@,
            r.pending_monsters@ == pending_monsters@,
    {
        LiveSpawnReloadJob { zone_id, block_x, block_y, reloaded_spawns, old_spawn_entities, pending_monsters }
    }
}

/// Reload jobs, first come first served.
pub struct LiveSpawnReloadQueue {
    jobs: Vec<LiveSpawnReloadJob>,
}

impl LiveSpawnReloadQueue {
    /// The jobs in order.
    pub closed spec fn spec_jobs(&self) -> Seq<LiveSpawnReloadJob> {
        self.jobs@
    }

    pub fn new() -> (r: LiveSpawnReloadQueue)
        ensures
            r.spec_jobs().len() == 0,
    {
        LiveSpawnReloadQueue { jobs: Vec::new() }
    }

    /// Queues `job` last.
    pub fn push(&mut self, job: LiveSpawnReloadJob)
        ensures
            final(self).spec_jobs() == old(self).spec_jobs().push(job),
    {
        self.jobs.push(job);
    }

    /// The job first in line, to work on.
    pub fn front_mut(&mut self) -> (r: Option<&mut LiveSpawnReloadJob>)
        ensures
            old(self).spec_jobs().len() == 0 ==> r is None && final(self).spec_jobs() == old(self).spec_jobs(),
            old(self).spec_jobs().len() > 0 ==> (r matches Some(j) && *j == old(self).spec_jobs()[0]
                && final(self).spec_jobs() == old(self).spec_jobs().update(0, *final(j))),
    {
        if self.jobs.len() == 0 {
            None
        } else {
            Some(&mut self.jobs[0])
        }
    }

    /// Takes the job first in line.
    pub fn pop_front(&mut self) -> (r: Option<LiveSpawnReloadJob>)
        ensures
            old(self).spec_jobs().len() == 0 ==> r is None && final(self).spec_jobs() == old(self).spec_jobs(),
            old(self).spec_jobs().len() > 0 ==> r == Some(old(self).spec_jobs()[0])
                && final(self).spec_jobs() == old(self).spec_jobs().drop_first(),
    {
        if self.jobs.len() == 0 {
            None
        } else {
            let j = self.jobs.remove(0);
            assert(self.jobs@ =~= old(self).spec_jobs().drop_first());
            Some(j)
        }
    }

    /// A queued job replaces the spawn point `entity`, which must not spawn
    /// meanwhile.
    pub fn is_spawn_point_blocked(&self, entity: Entity) -> (r: bool)
        ensures
            r == exists|i: int|
                0 <= i < self.spec_jobs().len() && #[trigger] self.spec_jobs()[i].old_spawn_entities@.contains(entity),
    {
        let mut i: usize = 0;
        while i < self.jobs.len()
            invariant
                i <= self.jobs@.len(),
                forall|k: int| 0 <= k < i ==> !(#[trigger] self.jobs@[k].old_spawn_entities@.contains(entity)),
            decreases self.jobs@.len() - i,
        {
            let olds = &self.jobs[i].old_spawn_entities;
            let mut j: usize = 0;
            assert(olds@ == self.jobs@[i as int].old_spawn_entities@);
            while j < olds.len()
                invariant
                    j <= olds@.len(),
                    i < self.jobs@.len(),
                    olds@ == self.jobs@[i as int].old_spawn_entities@,
                    forall|k: int| 0 <= k < j ==> olds@[k] != entity,
                decreases olds@.len() - j,
            {
                if olds[j] == entity {
                    assert(olds@.contains(entity)) by {
                        assert(olds@[j as int] == entity);
                    }
                    assert(self.spec_jobs()[i as int].old_spawn_entities@.contains(entity));
                    return true;
                }
                j = j + 1;
            }
            assert(!olds@.contains(entity));
            i = i + 1;
        }
        false
    }
}

} // verus!
