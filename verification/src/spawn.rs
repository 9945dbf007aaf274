//! Monster spawn points: when they are checked, what they spawn, and how a
//! live reload of their data staggers them.
use vstd::prelude::*;

verus! {

/// A span of time: whole seconds and the nanoseconds beyond them.
#[derive(Debug, Clone, Copy, PartialEq, Eq, PartialOrd, Ord, Structural)]
pub struct Duration {
    secs: u64,
    nanos: u32,
}

/// Nanoseconds in a second.
pub const NANOS_PER_SEC: u32 = 1_000_000_000;

/// The longest span a `Duration` holds, in nanoseconds.
pub open spec fn max_span() -> nat {
    (u64::MAX as nat) * 1_000_000_000 + 999_999_999
}

impl Duration {
    #[verifier::type_invariant]
    spec fn below_a_second(self) -> bool {
        self.nanos < NANOS_PER_SEC
    }

    /// The span in nanoseconds.
    pub closed spec fn spec_nanos(self) -> nat {
        (self.secs as nat) * 1_000_000_000 + self.nanos as nat
    }

    pub fn zero() -> (r: Duration)
        ensures
            r.spec_nanos() == 0,
    {
        Duration { secs: 0, nanos: 0 }
    }

    /// `secs` seconds.
    pub fn from_secs(secs: u64) -> (r: Duration)
        ensures
            r.spec_nanos() == secs * 1_000_000_000,
    {
        Duration { secs, nanos: 0 }
    }

    /// `nanos` nanoseconds.
    pub fn from_nanos(nanos: u64) -> (r: Duration)
        ensures
            r.spec_nanos() == nanos,
    {
        let secs = nanos / 1_000_000_000;
        let rest = (nanos % 1_000_000_000) as u32;
        Duration { secs, nanos: rest }
    }

    /// The span in nanoseconds.
    pub fn as_nanos(&self) -> (r: u128)
        ensures
            r == self.spec_nanos(),
    {
        self.secs as u128 * 1_000_000_000 + self.nanos as u128
    }

    /// The sum, or the longest span when it does not fit.
    pub fn saturating_add(self, other: Duration) -> (r: Duration)
        ensures
            r.spec_nanos() == (if self.spec_nanos() + other.spec_nanos() > max_span() {
                max_span()
            } else {
                self.spec_nanos() + other.spec_nanos()
            }),
    {
        proof {
            use_type_invariant(&self);
            use_type_invariant(&other);
        }
        let mut nanos = self.nanos + other.nanos;
        let mut carry: u64 = 0;
        if nanos >= NANOS_PER_SEC {
            nanos = nanos - NANOS_PER_SEC;
            carry = 1;
        }
        match self.secs.checked_add(other.secs) {
            Some(s) => match s.checked_add(carry) {
                Some(secs) => Duration { secs, nanos },
                None => Duration { secs: u64::MAX, nanos: NANOS_PER_SEC - 1 },
            },
            None => Duration { secs: u64::MAX, nanos: NANOS_PER_SEC - 1 },
        }
    }

    /// The difference, or zero when `other` is longer.
    pub fn saturating_sub(self, other: Duration) -> (r: Duration)
        ensures
            r.spec_nanos() == (if self.spec_nanos() >= other.spec_nanos() {
                (self.spec_nanos() - other.spec_nanos()) as nat
            } else {
                0
            }),
    {
        proof {
            use_type_invariant(&self);
            use_type_invariant(&other);
        }
        if self.secs < other.secs || (self.secs == other.secs && self.nanos < other.nanos) {
            return Duration { secs: 0, nanos: 0 };
        }
        if self.nanos >= other.nanos {
            Duration { secs: self.secs - other.secs, nanos: self.nanos - other.nanos }
        } else {
            Duration { secs: self.secs - other.secs - 1, nanos: self.nanos + NANOS_PER_SEC - other.nanos }
        }
    }

    /// The shorter of the two.
    pub fn min(self, other: Duration) -> (r: Duration)
        ensures
            r == (if self.spec_nanos() <= other.spec_nanos() {
                self
            } else {
                other
            }),
    {
        if self.as_nanos() <= other.as_nanos() {
            self
        } else {
            other
        }
    }
}

/// An NPC or monster kind, never zero.
#[derive(Debug, Clone, Copy, PartialEq, Eq, Structural)]
pub struct NpcId {
    id: u16,
}

impl NpcId {
    pub closed spec fn spec_get(self) -> u16 {
        self.id
    }

    pub fn new(id: u16) -> (r: Option<NpcId>)
        ensures
            id == 0 ==> r is None,
            id != 0 ==> (r matches Some(n) && n.spec_get() == id),
    {
        if id == 0 {
            None
        } else {
            Some(NpcId { id })
        }
    }

    pub fn get(&self) -> (r: u16)
        ensures
            r == self.spec_get(),
    {
        self.id
    }
}

/// A zone, never zero.
#[derive(Debug, Clone, Copy, PartialEq, Eq, Structural)]
pub struct ZoneId {
    id: u16,
}

impl ZoneId {
    pub closed spec fn spec_get(self) -> u16 {
        self.id
    }

    pub fn new(id: u16) -> (r: Option<ZoneId>)
        ensures
            id == 0 ==> r is None,
            id != 0 ==> (r matches Some(n) && n.spec_get() == id),
    {
        if id == 0 {
            None
        } else {
            Some(ZoneId { id })
        }
    }

    pub fn get(&self) -> (r: u16)
        ensures
            r == self.spec_get(),
    {
        self.id
    }
}

/// The spawn data of a spawn point as the zone files give it.
#[derive(Debug, Clone)]
pub struct ZoneMonsterSpawnPoint {
    pub basic_spawns: Vec<(NpcId, usize)>,
    pub tactic_spawns: Vec<(NpcId, usize)>,
    /// Seconds between spawn checks.
    pub interval: u32,
    pub limit_count: u32,
    pub range: u32,
    pub tactic_points: u32,
}

/// A spawn point in play: its data and its running state.
pub struct MonsterSpawnPoint {
    pub basic_spawns: Vec<(NpcId, usize)>,
    pub tactic_spawns: Vec<(NpcId, usize)>,
    pub interval: Duration,
    pub limit_count: u32,
    pub range: u32,
    pub tactic_points: u32,
    pub time_since_last_check: Duration,
    pub current_tactics_value: u32,
    pub num_alive_monsters: u32,
}

/// Seconds as a span.
pub open spec fn secs(s: u32) -> nat {
    (s * 1_000_000_000) as nat
}

impl MonsterSpawnPoint {
    fn interval_from_seconds(interval_seconds: u32) -> (r: Duration)
        ensures
            r.spec_nanos() == secs(interval_seconds),
    {
        Duration::from_secs(interval_seconds as u64)
    }

    /// A new spawn point, due for its first check at once.
    pub fn from(spawn_point: &ZoneMonsterSpawnPoint) -> (r: MonsterSpawnPoint)
        ensures
            r.basic_spawns@ == spawn_point.basic_spawns@,
            r.tactic_spawns@ == spawn_point.tactic_spawns@,
            r.interval.spec_nanos() == secs(spawn_point.interval),
            r.limit_count == spawn_point.limit_count,
            r.range == spawn_point.range,
            r.tactic_points == spawn_point.tactic_points,
            r.time_since_last_check == r.interval,
            r.current_tactics_value == 1,
            r.num_alive_monsters == 0,
    {
        let interval = Self::interval_from_seconds(spawn_point.interval);
        MonsterSpawnPoint {
            basic_spawns: clone_spawns(&spawn_point.basic_spawns),
            tactic_spawns: clone_spawns(&spawn_point.tactic_spawns),
            interval,
            limit_count: spawn_point.limit_count,
            range: spawn_point.range,
            tactic_points: spawn_point.tactic_points,
            time_since_last_check: interval,
            current_tactics_value: 1,
            num_alive_monsters: 0,
        }
    }

    /// Lets `delta` pass; a check is due once a whole interval has passed since
    /// the last one, and then the interval is taken off the time passed.
    pub fn advance_spawn_check(&mut self, delta: Duration) -> (r: bool)
        ensures
            ({
                let sum = old(self).time_since_last_check.spec_nanos() + delta.spec_nanos();
                let t = if sum > max_span() {
                    max_span()
                } else {
                    sum
                };
                &&& r == (t >= old(self).interval.spec_nanos())
                &&& final(self).time_since_last_check.spec_nanos() == if r {
                    (t - old(self).interval.spec_nanos()) as nat
                } else {
                    t
                }
            }),
            final(self).interval == old(self).interval,
            final(self).basic_spawns@ == old(self).basic_spawns@,
            final(self).tactic_spawns@ == old(self).tactic_spawns@,
            final(self).limit_count == old(self).limit_count,
            final(self).range == old(self).range,
            final(self).tactic_points == old(self).tactic_points,
            final(self).current_tactics_value == old(self).current_tactics_value,
            final(self).num_alive_monsters == old(self).num_alive_monsters,
    {
        self.time_since_last_check = self.time_since_last_check.saturating_add(delta);
        if self.time_since_last_check.as_nanos() < self.interval.as_nanos() {
            return false;
        }
        self.time_since_last_check = self.time_since_last_check.saturating_sub(self.interval);
        true
    }

    /// Takes new spawn data; monsters alive and the tactics value stay, and the
    /// time since the last check is cut to the new interval.
    pub fn apply_spawn_data(&mut self, spawn_point: &ZoneMonsterSpawnPoint)
        ensures
            final(self).basic_spawns@ == spawn_point.basic_spawns@,
            final(self).tactic_spawns@ == spawn_point.tactic_spawns@,
            final(self).interval.spec_nanos() == secs(spawn_point.interval),
            final(self).limit_count == spawn_point.limit_count,
            final(self).range == spawn_point.range,
            final(self).tactic_points == spawn_point.tactic_points,
            final(self).time_since_last_check.spec_nanos() == (if old(
                self,
            ).time_since_last_check.spec_nanos() <= secs(spawn_point.interval) {
                old(self).time_since_last_check.spec_nanos()
            } else {
                secs(spawn_point.interval)
            }),
            final(self).current_tactics_value == old(self).current_tactics_value,
            final(self).num_alive_monsters == old(self).num_alive_monsters,
    {
        self.basic_spawns = clone_spawns(&spawn_point.basic_spawns);
        self.tactic_spawns = clone_spawns(&spawn_point.tactic_spawns);
        self.interval = Self::interval_from_seconds(spawn_point.interval);
        self.limit_count = spawn_point.limit_count;
        self.range = spawn_point.range;
        self.tactic_points = spawn_point.tactic_points;
        self.time_since_last_check = self.time_since_last_check.min(self.interval);
    }

    /// Starts the spawn point over after a reload: nothing alive, tactics back
    /// to 1, and due for a check at once.
    pub fn reset_for_live_reload(&mut self)
        ensures
            final(self).num_alive_monsters == 0,
            final(self).current_tactics_value == 1,
            final(self).time_since_last_check == old(self).interval,
            final(self).interval == old(self).interval,
            final(self).basic_spawns@ == old(self).basic_spawns@,
            final(self).tactic_spawns@ == old(self).tactic_spawns@,
            final(self).limit_count == old(self).limit_count,
            final(self).range == old(self).range,
            final(self).tactic_points == old(self).tactic_points,
    {
        self.num_alive_monsters = 0;
        self.current_tactics_value = 1;
        self.time_since_last_check = self.interval;
    }

    /// Starts the spawn point over after a reload, due for a check once
    /// `delay` has passed.
    pub fn reset_for_live_reload_with_delay(&mut self, delay: Duration)
        ensures
            final(self).num_alive_monsters == 0,
            final(self).current_tactics_value == 1,
            final(self).time_since_last_check.spec_nanos() == (if old(self).interval.spec_nanos()
                >= delay.spec_nanos() {
                (old(self).interval.spec_nanos() - delay.spec_nanos()) as nat
            } else {
                0
            }),
            final(self).interval == old(self).interval,
            final(self).basic_spawns@ == old(self).basic_spawns@,
            final(self).tactic_spawns@ == old(self).tactic_spawns@,
            final(self).limit_count == old(self).limit_count,
            final(self).range == old(self).range,
            final(self).tactic_points == old(self).tactic_points,
    {
        self.num_alive_monsters = 0;
        self.current_tactics_value = 1;
        self.time_since_last_check = self.interval.saturating_sub(delay);
    }
}

fn clone_spawns(v: &Vec<(NpcId, usize)>) -> (r: Vec<(NpcId, usize)>)
    ensures
        r@ == v@,
{
    let mut out: Vec<(NpcId, usize)> = Vec::new();
    let mut i: usize = 0;
    while i < v.len()
        invariant
            i <= v@.len(),
            out@ == v@.take(i as int),
        decreases v@.len() - i,
    {
        out.push(v[i]);
        i = i + 1;
        assert(out@ =~= v@.take(i as int));
    }
    assert(v@.take(v@.len() as int) =~= v@);
    out
}

/// The spawn pressure of a spawn point below its limit:
/// `(2 * limit - alive) * tactics * 50 / (limit * tactic_points)`.
pub open spec fn regen_value(limit: int, alive: int, tactics: int, tactic_points: int) -> int {
    ((limit * 2 - alive) * tactics * 50) / (limit * tactic_points)
}

/// Entry `i` of `v` with its count moved by `delta` (down no further than 0).
pub open spec fn entry(v: Seq<(NpcId, usize)>, i: int, delta: int) -> Seq<(NpcId, usize)> {
    if i < v.len() {
        seq![
            (v[i].0, if v[i].1 + delta < 0 {
                0usize
            } else {
                (v[i].1 + delta) as usize
            }),
        ]
    } else {
        Seq::<(NpcId, usize)>::empty()
    }
}

/// What a spawn check below the limit spawns, by spawn pressure: from the
/// basic spawns `b` and the tactic spawns `t`, each entry with its count
/// adjusted as the spawn table says.
pub open spec fn spawn_plan(b: Seq<(NpcId, usize)>, t: Seq<(NpcId, usize)>, r: int) -> Seq<(NpcId, usize)> {
    if r <= 10 {
        entry(b, 0, 0)
    } else if r <= 15 {
        entry(b, 0, -2) + entry(b, 1, 0)
    } else if r <= 25 {
        entry(b, 2, 0)
    } else if r <= 30 {
        entry(b, 0, -1) + entry(b, 2, 0)
    } else if r <= 40 {
        entry(b, 3, 0)
    } else if r <= 50 {
        entry(b, 1, 0) + entry(b, 2, -1)
    } else if r <= 65 {
        entry(b, 2, 0) + entry(b, 3, -2)
    } else if r <= 73 {
        entry(b, 3, 0) + entry(b, 4, 0)
    } else if r <= 85 {
        entry(b, 0, 0) + entry(b, 4, -2) + entry(t, 0, -1)
    } else if r <= 92 {
        entry(b, 1, 0) + entry(t, 0, 0) + entry(t, 1, 0)
    } else {
        entry(b, 4, 0) + entry(t, 0, 1) + entry(t, 1, 0)
    }
}

/// The tactics value after a spawn check below the limit, before the cap of 500.
pub open spec fn tactics_after(tactics: int, r: int) -> int {
    if r <= 10 || (16 <= r <= 25) || (31 <= r <= 50) {
        tactics + 12
    } else if r <= 15 || (26 <= r <= 30) || (66 <= r <= 85) {
        tactics + 15
    } else if r <= 65 {
        tactics + 20
    } else if r <= 92 {
        1
    } else {
        7
    }
}

/// The spawn check can run without overflow or division by zero.
pub open spec fn spawn_check_defined(sp: &MonsterSpawnPoint) -> bool {
    let l = sp.limit_count as int;
    let a = sp.num_alive_monsters as int;
    let tv = sp.current_tactics_value as int;
    let tp = sp.tactic_points as int;
    a < l ==> {
        &&& l * 2 <= u32::MAX
        &&& (l * 2 - a) * tv <= u32::MAX
        &&& (l * 2 - a) * tv * 50 <= u32::MAX
        &&& l * tp <= u32::MAX
        &&& tp > 0
        &&& tv + 20 <= u32::MAX
        &&& (regen_value(l, a, tv, tp) > 92 && sp.tactic_spawns@.len() > 0)
            ==> sp.tactic_spawns@[0].1 < usize::MAX
    }
}

fn push_entry(queue: &mut Vec<(NpcId, usize)>, v: &Vec<(NpcId, usize)>, i: usize, delta: i8)
    requires
        -2 <= delta <= 1,
        delta == 1 && i < v@.len() ==> v@[i as int].1 < usize::MAX,
    ensures
        final(queue)@ == old(queue)@ + entry(v@, i as int, delta as int),
{
    if i < v.len() {
        let (id, count) = v[i];
        let n = if delta >= 0 {
            count + delta as usize
        } else {
            count.saturating_sub((0 - delta) as usize)
        };
        queue.push((id, n));
    }
    assert(final(queue)@ =~= old(queue)@ + entry(v@, i as int, delta as int));
}

/// Runs a spawn check: at or above the limit nothing spawns and the tactics
/// value drops by one (not below 0); below it, the spawn pressure picks what
/// to spawn and how the tactics value moves, capped at 500.
pub fn build_spawn_queue(spawn_point: &mut MonsterSpawnPoint) -> (r: Vec<(NpcId, usize)>)
    requires
        spawn_check_defined(old(spawn_point)),
    ensures
        ({
            let o = old(spawn_point);
            let l = o.limit_count as int;
            let a = o.num_alive_monsters as int;
            let tv = o.current_tactics_value as int;
            let rv = regen_value(l, a, tv, o.tactic_points as int);
            &&& a >= l ==> r@.len() == 0 && final(spawn_point).current_tactics_value == (if tv > 0 {
                tv - 1
            } else {
                0
            })
            &&& a < l ==> r@ == spawn_plan(o.basic_spawns@, o.tactic_spawns@, rv)
                && final(spawn_point).current_tactics_value == (if tactics_after(tv, rv) > 500 {
                500
            } else {
                tactics_after(tv, rv)
            })
        }),
        final(spawn_point).basic_spawns@ == old(spawn_point).basic_spawns@,
        final(spawn_point).tactic_spawns@ == old(spawn_point).tactic_spawns@,
        final(spawn_point).interval == old(spawn_point).interval,
        final(spawn_point).limit_count == old(spawn_point).limit_count,
        final(spawn_point).range == old(spawn_point).range,
        final(spawn_point).tactic_points == old(spawn_point).tactic_points,
        final(spawn_point).time_since_last_check == old(spawn_point).time_since_last_check,
        final(spawn_point).num_alive_monsters == old(spawn_point).num_alive_monsters,
{
    let live_count = spawn_point.num_alive_monsters;
    if live_count >= spawn_point.limit_count {
        spawn_point.current_tactics_value = spawn_point.current_tactics_value.saturating_sub(1);
        return Vec::new();
    }
    let limit = spawn_point.limit_count;
    let tactics = spawn_point.current_tactics_value;
    let points = spawn_point.tactic_points;
    assert(limit * points > 0) by (nonlinear_arith)
        requires
            limit >= 1,
            points >= 1,
    ;
    let regen_value = ((limit * 2 - live_count) * tactics * 50) / (limit * points);
    let b = &spawn_point.basic_spawns;
    let t = &spawn_point.tactic_spawns;
    let mut queue: Vec<(NpcId, usize)> = Vec::new();
    let new_tactics: u32;
    if regen_value <= 10 {
        new_tactics = tactics + 12;
        push_entry(&mut queue, b, 0, 0);
    } else if regen_value <= 15 {
        new_tactics = tactics + 15;
        push_entry(&mut queue, b, 0, -2);
        push_entry(&mut queue, b, 1, 0);
    } else if regen_value <= 25 {
        new_tactics = tactics + 12;
        push_entry(&mut queue, b, 2, 0);
    } else if regen_value <= 30 {
        new_tactics = tactics + 15;
        push_entry(&mut queue, b, 0, -1);
        push_entry(&mut queue, b, 2, 0);
    } else if regen_value <= 40 {
        new_tactics = tactics + 12;
        push_entry(&mut queue, b, 3, 0);
    } else if regen_value <= 50 {
        new_tactics = tactics + 12;
        push_entry(&mut queue, b, 1, 0);
        push_entry(&mut queue, b, 2, -1);
    } else if regen_value <= 65 {
        new_tactics = tactics + 20;
        push_entry(&mut queue, b, 2, 0);
        push_entry(&mut queue, b, 3, -2);
    } else if regen_value <= 73 {
        new_tactics = tactics + 15;
        push_entry(&mut queue, b, 3, 0);
        push_entry(&mut queue, b, 4, 0);
    } else if regen_value <= 85 {
        new_tactics = tactics + 15;
        push_entry(&mut queue, b, 0, 0);
        push_entry(&mut queue, b, 4, -2);
        push_entry(&mut queue, t, 0, -1);
    } else if regen_value <= 92 {
        new_tactics = 1;
        push_entry(&mut queue, b, 1, 0);
        push_entry(&mut queue, t, 0, 0);
        push_entry(&mut queue, t, 1, 0);
    } else {
        new_tactics = 7;
        push_entry(&mut queue, b, 4, 0);
        push_entry(&mut queue, t, 0, 1);
        push_entry(&mut queue, t, 1, 0);
    }
    spawn_point.current_tactics_value = if new_tactics > 500 {
        500
    } else {
        new_tactics
    };
    assert(queue@ =~= spawn_plan(b@, t@, regen_value as int));
    queue
}

/// Where a spawn point came from: its zone, map block and index in the block.
#[derive(Debug, Clone, Copy, PartialEq, Eq, Structural)]
pub struct MonsterSpawnSource {
    pub zone_id: ZoneId,
    pub block_x: u32,
    pub block_y: u32,
    pub spawn_index: usize,
}

impl MonsterSpawnSource {
    pub fn new(zone_id: ZoneId, block_x: u32, block_y: u32, spawn_index: usize) -> (r: MonsterSpawnSource)
        ensures
            r == (MonsterSpawnSource { zone_id, block_x, block_y, spawn_index }),
    {
        MonsterSpawnSource { zone_id, block_x, block_y, spawn_index }
    }
}

/// How long reloaded spawns are staggered over.
pub const LIVE_SPAWN_RELOAD_STAGGER_SECS: u64 = 2;

/// Despawns a live reload performs per tick.
pub const LIVE_SPAWN_RELOAD_DESPAWNS_PER_TICK: usize = 16;

/// The delay of spawn `index` of `count` reloaded spawns, in nanoseconds: none
/// for a single spawn, otherwise its share `index / count` of the two-second
/// window, rounded down to the nanosecond.
pub open spec fn spec_reload_delay(index: int, count: int) -> int {
    if count <= 1 {
        0
    } else {
        (2_000_000_000 * index) / count
    }
}

/// How long spawn `spawn_index` of `spawn_count` reloaded spawns waits before
/// its first check, so that reloaded spawns do not all fire at once.
pub fn live_reload_spawn_delay(spawn_index: usize, spawn_count: usize) -> (r: Duration)
    requires
        spec_reload_delay(spawn_index as int, spawn_count as int) <= u64::MAX,
    ensures
        r.spec_nanos() == spec_reload_delay(spawn_index as int, spawn_count as int),
{
    if spawn_count <= 1 {
        return Duration::zero();
    }
    let n = (2_000_000_000u128 * spawn_index as u128) / spawn_count as u128;
    Duration::from_nanos(n as u64)
}

/// Reloaded spawns are staggered inside the window: every spawn before the
/// last of them becomes due strictly less than two seconds in, and later
/// spawns never wait less than earlier ones.
pub proof fn lemma_reload_delays_staggered(i: int, j: int, count: int)
    requires
        0 <= i <= j < count,
    ensures
        0 <= spec_reload_delay(i, count) < 2_000_000_000,
        spec_reload_delay(i, count) <= spec_reload_delay(j, count),
{
    if count > 1 {
        assert(0 <= (2_000_000_000 * i) / count < 2_000_000_000) by (nonlinear_arith)
            requires
                0 <= i < count,
        ;
        assert((2_000_000_000 * i) / count <= (2_000_000_000 * j) / count) by (nonlinear_arith)
            requires
                0 <= i <= j,
                count > 1,
        ;
    }
}

/// Entry `i` of `v` as a spawn check queues it: its NPC with its count moved
/// by `d` (not below zero), or nothing when there is no such entry.
pub open spec fn queued(v: Seq<(NpcId, usize)>, i: int, d: int) -> Seq<(NpcId, usize)> {
    if 0 <= i < v.len() {
        seq![(v[i].0, (if v[i].1 + d < 0 { 0 } else { v[i].1 + d }) as usize)]
    } else {
        seq![]
    }
}

/// The spawn table: by spawn pressure `r`, which basic (`b`) and tactic
/// (`t`) spawn entries a check below the limit queues, in order, and with
/// which change of count.
pub proof fn lemma_spawn_table(b: Seq<(NpcId, usize)>, t: Seq<(NpcId, usize)>, r: int)
    ensures
        r <= 10 ==> spawn_plan(b, t, r) == queued(b, 0, 0),
        11 <= r <= 15 ==> spawn_plan(b, t, r) == queued(b, 0, -2) + queued(b, 1, 0),
        16 <= r <= 25 ==> spawn_plan(b, t, r) == queued(b, 2, 0),
        26 <= r <= 30 ==> spawn_plan(b, t, r) == queued(b, 0, -1) + queued(b, 2, 0),
        31 <= r <= 40 ==> spawn_plan(b, t, r) == queued(b, 3, 0),
        41 <= r <= 50 ==> spawn_plan(b, t, r) == queued(b, 1, 0) + queued(b, 2, -1),
        51 <= r <= 65 ==> spawn_plan(b, t, r) == queued(b, 2, 0) + queued(b, 3, -2),
        66 <= r <= 73 ==> spawn_plan(b, t, r) == queued(b, 3, 0) + queued(b, 4, 0),
        74 <= r <= 85 ==> spawn_plan(b, t, r) == queued(b, 0, 0) + queued(b, 4, -2) + queued(t, 0, -1),
        86 <= r <= 92 ==> spawn_plan(b, t, r) == queued(b, 1, 0) + queued(t, 0, 0) + queued(t, 1, 0),
        r > 92 ==> spawn_plan(b, t, r) == queued(b, 4, 0) + queued(t, 0, 1) + queued(t, 1, 0),
        r <= 10 || 16 <= r <= 25 || 31 <= r <= 50 ==> tactics_after(0, r) == 12,
        11 <= r <= 15 || 26 <= r <= 30 || 66 <= r <= 85 ==> tactics_after(0, r) == 15,
        51 <= r <= 65 ==> tactics_after(0, r) == 20,
        86 <= r <= 92 ==> tactics_after(0, r) == 1,
        r > 92 ==> tactics_after(0, r) == 7,
        forall|tv: int| r <= 85 ==> #[trigger] tactics_after(tv, r) == tv + tactics_after(0, r),
        forall|tv: int| r > 85 ==> #[trigger] tactics_after(tv, r) == tactics_after(0, r),
{
    assert forall|v: Seq<(NpcId, usize)>, i: int, d: int| 0 <= i implies #[trigger] entry(v, i, d)
        =~= queued(v, i, d) by {}
}

/// The spawn pressure is (2 * limit - alive) * tactics * 50 divided by
/// limit * tactic points, rounded down; with nothing alive and tactics equal
/// to tactic points it is 100.
pub proof fn lemma_regen_value(l: int, a: int, tv: int, tp: int)
    requires
        l > 0,
        tp > 0,
        0 <= a < l,
        tv >= 0,
    ensures
        regen_value(l, a, tv, tp) * (l * tp) <= (2 * l - a) * tv * 50 < (regen_value(l, a, tv, tp) + 1)
            * (l * tp),
        regen_value(l, 0, tp, tp) == 100,
{
    let n = (2 * l - a) * tv * 50;
    let d = l * tp;
    assert(d > 0) by (nonlinear_arith)
        requires
            l > 0,
            tp > 0,
            d == l * tp,
    ;
    assert(n >= 0) by (nonlinear_arith)
        requires
            0 <= a < l,
            tv >= 0,
            n == (2 * l - a) * tv * 50,
    ;
    assert((n / d) * d <= n < (n / d + 1) * d) by (nonlinear_arith)
        requires
            d > 0,
            n >= 0,
    ;
    assert(regen_value(l, a, tv, tp) == n / d);
    assert((2 * l - 0) * tp * 50 == 100 * (l * tp)) by (nonlinear_arith);
    assert((100 * (l * tp)) / (l * tp) == 100) by (nonlinear_arith)
        requires
            l * tp > 0,
    ;
}

} // verus!
