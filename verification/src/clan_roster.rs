//! A clan's members and what clan events do to them: inviting, joining,
//! kicking, promoting and demoting, leaving, disbanding and disconnecting;
//! and the clan's level, money, points and skills.
use vstd::prelude::*;

use crate::clan::{
    get_demoted_position, get_promoted_position, spec_can_change_rank, spec_clan_max_members,
    spec_position_of_rank, spec_rank, clan_max_members, ClanLevel, ClanMemberPosition, ClanPoints,
};
use crate::command::SkillId;
use crate::entity::Entity;

verus! {

/// A clan member: one playing now, known by entity (and by the name of its
/// character), or one who is not, known by name with the level and job they
/// last had.
#[derive(Debug)]
pub enum ClanMember {
    Online { entity: Entity, name: String, position: ClanMemberPosition, contribution: ClanPoints },
    Offline {
        name: String,
        position: ClanMemberPosition,
        contribution: ClanPoints,
        level: u32,
        job: u16,
    },
}

/// The member's character name.
pub open spec fn member_name(m: ClanMember) -> Seq<char> {
    match m {
        ClanMember::Online { name, .. } => name@,
        ClanMember::Offline { name, .. } => name@,
    }
}

/// The member's position in the clan.
pub open spec fn member_position(m: ClanMember) -> ClanMemberPosition {
    match m {
        ClanMember::Online { position, .. } => position,
        ClanMember::Offline { position, .. } => position,
    }
}

/// The entity of a member who is playing.
pub open spec fn member_entity(m: ClanMember) -> Option<Entity> {
    match m {
        ClanMember::Online { entity, .. } => Some(entity),
        ClanMember::Offline { .. } => None,
    }
}

/// The member playing as `e`.
pub open spec fn is_online_as(m: ClanMember, e: Entity) -> bool {
    member_entity(m) == Some(e)
}

/// The first member playing as `e`, by index.
pub open spec fn online_index(ms: Seq<ClanMember>, e: Entity) -> Option<int> {
    if exists|i: int| 0 <= i < ms.len() && #[trigger] is_online_as(ms[i], e) {
        Some(
            choose|i: int|
                0 <= i < ms.len() && #[trigger] is_online_as(ms[i], e) && forall|j: int|
                    0 <= j < i ==> !is_online_as(ms[j], e),
        )
    } else {
        None
    }
}

/// The first member named `name`, by index.
pub open spec fn named_index(ms: Seq<ClanMember>, name: Seq<char>) -> Option<int> {
    if exists|i: int| 0 <= i < ms.len() && #[trigger] member_name(ms[i]) == name {
        Some(
            choose|i: int|
                0 <= i < ms.len() && #[trigger] member_name(ms[i]) == name && forall|j: int|
                    0 <= j < i ==> member_name(ms[j]) != name,
        )
    } else {
        None
    }
}

/// The position of the member playing as `e`, if one is.
pub open spec fn online_position(ms: Seq<ClanMember>, e: Entity) -> Option<ClanMemberPosition> {
    match online_index(ms, e) {
        Some(i) => Some(member_position(ms[i])),
        None => None,
    }
}

/// The member playing as `e` is the master or a deputy.
pub open spec fn may_manage(ms: Seq<ClanMember>, e: Entity) -> bool {
    online_position(ms, e) matches Some(p) && (p is Master || p is DeputyMaster)
}

/// The member playing as `e` is the master.
pub open spec fn is_master(ms: Seq<ClanMember>, e: Entity) -> bool {
    online_position(ms, e) == Some(ClanMemberPosition::Master)
}

/// How many members are masters.
pub open spec fn master_count(ms: Seq<ClanMember>) -> nat
    decreases ms.len(),
{
    if ms.len() == 0 {
        0
    } else {
        master_count(ms.drop_last()) + if member_position(ms.last()) is Master {
            1nat
        } else {
            0nat
        }
    }
}

proof fn lemma_online_index(ms: Seq<ClanMember>, e: Entity, i: int)
    requires
        0 <= i < ms.len(),
        is_online_as(ms[i], e),
        forall|j: int| 0 <= j < i ==> !is_online_as(ms[j], e),
    ensures
        online_index(ms, e) == Some(i),
{
    let k = choose|k: int|
        0 <= k < ms.len() && #[trigger] is_online_as(ms[k], e) && forall|j: int|
            0 <= j < k ==> !is_online_as(ms[j], e);
    assert(0 <= k < ms.len() && is_online_as(ms[k], e) && forall|j: int|
        0 <= j < k ==> !is_online_as(ms[j], e));
    if k < i {
    } else if k > i {
        assert(!is_online_as(ms[i], e));
    }
}

proof fn lemma_named_index(ms: Seq<ClanMember>, name: Seq<char>, i: int)
    requires
        0 <= i < ms.len(),
        member_name(ms[i]) == name,
        forall|j: int| 0 <= j < i ==> member_name(ms[j]) != name,
    ensures
        named_index(ms, name) == Some(i),
{
    let k = choose|k: int|
        0 <= k < ms.len() && #[trigger] member_name(ms[k]) == name && forall|j: int|
            0 <= j < k ==> member_name(ms[j]) != name;
    assert(0 <= k < ms.len() && member_name(ms[k]) == name && forall|j: int|
        0 <= j < k ==> member_name(ms[j]) != name);
    if k < i {
    } else if k > i {
        assert(member_name(ms[i]) != name);
    }
}

fn member_entity_of(m: &ClanMember) -> (r: Option<Entity>)
    ensures
        r == member_entity(*m),
{
    match m {
        ClanMember::Online { entity, .. } => Some(*entity),
        ClanMember::Offline { .. } => None,
    }
}

fn member_position_of(m: &ClanMember) -> (r: ClanMemberPosition)
    ensures
        r == member_position(*m),
{
    match m {
        ClanMember::Online { position, .. } => *position,
        ClanMember::Offline { position, .. } => *position,
    }
}

fn member_has_name(m: &ClanMember, name: &String) -> (r: bool)
    ensures
        r == (member_name(*m) == name@),
{
    match m {
        ClanMember::Online { name: n, .. } => *n == *name,
        ClanMember::Offline { name: n, .. } => *n == *name,
    }
}

/// The index of the first member playing as `entity`.
pub fn find_online_member(members: &Vec<ClanMember>, entity: Entity) -> (r: Option<usize>)
    ensures
        r is None <==> online_index(members@, entity) is None,
        r matches Some(i) ==> online_index(members@, entity) == Some(i as int) && i < members@.len(),
{
    let mut i: usize = 0;
    while i < members.len()
        invariant
            i <= members@.len(),
            forall|j: int| 0 <= j < i ==> !#[trigger] is_online_as(members@[j], entity),
        decreases members@.len() - i,
    {
        if member_entity_of(&members[i]) == Some(entity) {
            proof {
                lemma_online_index(members@, entity, i as int);
            }
            return Some(i);
        }
        i = i + 1;
    }
    None
}

fn find_named_member(members: &Vec<ClanMember>, name: &String) -> (r: Option<usize>)
    ensures
        r is None <==> named_index(members@, name@) is None,
        r matches Some(i) ==> named_index(members@, name@) == Some(i as int) && i < members@.len(),
{
    let mut i: usize = 0;
    while i < members.len()
        invariant
            i <= members@.len(),
            forall|j: int| 0 <= j < i ==> member_name(#[trigger] members@[j]) != name@,
        decreases members@.len() - i,
    {
        if member_has_name(&members[i], name) {
            proof {
                lemma_named_index(members@, name@, i as int);
            }
            return Some(i);
        }
        i = i + 1;
    }
    None
}

/// The position of the member playing as `entity`, if one is.
pub fn online_member_position(members: &Vec<ClanMember>, entity: Entity) -> (r: Option<
    ClanMemberPosition,
>)
    ensures
        r == online_position(members@, entity),
{
    match find_online_member(members, entity) {
        Some(i) => {
            Some(member_position_of(&members[i]))
        },
        None => None,
    }
}

/// What an inviter is told of an invitation.
#[derive(Debug, Clone, Copy, PartialEq, Eq, Structural)]
pub enum ClanInviteResponse {
    /// Only the master and deputies may invite.
    NoPermission,
    /// The clan holds as many members as its level allows.
    Full,
    /// The invited player is in a clan already.
    TargetHasClan,
    /// No player of that name is playing.
    TargetNotFound,
    /// The invited player declined.
    Rejected,
}

/// The answer to an invitation, checked in this order: the inviter is the
/// master or a deputy; the clan has room; a player of that name is playing
/// (`target` is whether they are in a clan, `None` when no one is found) and
/// is in no clan. `Ok` sends the invitation.
pub open spec fn spec_clan_invite(
    ms: Seq<ClanMember>,
    level: ClanLevel,
    inviter: Entity,
    target: Option<bool>,
) -> Result<(), ClanInviteResponse> {
    if !may_manage(ms, inviter) {
        Err(ClanInviteResponse::NoPermission)
    } else if ms.len() >= spec_clan_max_members(level.spec_get()) {
        Err(ClanInviteResponse::Full)
    } else {
        match target {
            None => Err(ClanInviteResponse::TargetNotFound),
            Some(true) => Err(ClanInviteResponse::TargetHasClan),
            Some(false) => Ok(()),
        }
    }
}

/// Decides an invitation into the clan whose members are `members`.
pub fn decide_clan_invite(
    members: &Vec<ClanMember>,
    level: ClanLevel,
    inviter: Entity,
    target: Option<bool>,
) -> (r: Result<(), ClanInviteResponse>)
    ensures
        r == spec_clan_invite(members@, level, inviter, target),
{
    let allowed = match online_member_position(members, inviter) {
        Some(ClanMemberPosition::Master) | Some(ClanMemberPosition::DeputyMaster) => true,
        _ => false,
    };
    if !allowed {
        return Err(ClanInviteResponse::NoPermission);
    }
    if members.len() >= clan_max_members(level) {
        return Err(ClanInviteResponse::Full);
    }
    match target {
        None => Err(ClanInviteResponse::TargetNotFound),
        Some(true) => Err(ClanInviteResponse::TargetHasClan),
        Some(false) => Ok(()),
    }
}

/// The member a player becomes on joining: a junior with no contribution.
pub open spec fn new_member(entity: Entity, name: String) -> ClanMember {
    ClanMember::Online {
        entity,
        name,
        position: ClanMemberPosition::Junior,
        contribution: ClanPoints(0),
    }
}

/// An invited player accepts: refused when they are in a clan already or
/// the clan is full; else they join at the end as a junior.
pub fn accept_clan_invite(
    members: &mut Vec<ClanMember>,
    level: ClanLevel,
    invited: Entity,
    invited_name: String,
    invited_has_clan: bool,
) -> (r: Result<(), ClanInviteResponse>)
    ensures
        invited_has_clan ==> r == Err::<(), ClanInviteResponse>(ClanInviteResponse::TargetHasClan)
            && final(members)@ == old(members)@,
        !invited_has_clan && old(members)@.len() >= spec_clan_max_members(level.spec_get()) ==> r
            == Err::<(), ClanInviteResponse>(ClanInviteResponse::Full) && final(members)@ == old(
            members,
        )@,
        !invited_has_clan && old(members)@.len() < spec_clan_max_members(level.spec_get()) ==> r
            == Ok::<(), ClanInviteResponse>(()) && final(members)@ == old(members)@.push(
            new_member(invited, invited_name),
        ),
{
    if invited_has_clan {
        return Err(ClanInviteResponse::TargetHasClan);
    }
    if members.len() >= clan_max_members(level) {
        return Err(ClanInviteResponse::Full);
    }
    members.push(
        ClanMember::Online {
            entity: invited,
            name: invited_name,
            position: ClanMemberPosition::Junior,
            contribution: ClanPoints(0),
        },
    );
    Ok(())
}

/// The clan level after adding `delta` to it, unless the sum leaves the
/// `u32` range or is zero.
pub fn add_clan_level(level: ClanLevel, delta: i32) -> (r: Option<ClanLevel>)
    ensures
        (0 < level.spec_get() + delta <= u32::MAX) ==> (r matches Some(l) && l.spec_get()
            == level.spec_get() + delta),
        !(0 < level.spec_get() + delta <= u32::MAX) ==> r is None,
{
    let sum: i64 = level.get() as i64 + delta as i64;
    if sum <= 0 || sum > 0xffff_ffff {
        return None;
    }
    ClanLevel::new(sum as u32)
}

/// The clan's money after adding `delta`, unless that leaves the `i64` range.
pub fn add_clan_money(money: i64, delta: i64) -> (r: Option<i64>)
    ensures
        (i64::MIN <= money + delta <= i64::MAX) ==> r == Some((money + delta) as i64),
        !(i64::MIN <= money + delta <= i64::MAX) ==> r is None,
{
    money.checked_add(delta)
}

/// The clan's points after adding `delta`, unless that goes below zero or
/// past the `u64` range.
pub fn add_clan_points(points: ClanPoints, delta: i64) -> (r: Option<ClanPoints>)
    ensures
        (0 <= points.0 + delta <= u64::MAX) ==> r == Some(ClanPoints((points.0 + delta) as u64)),
        !(0 <= points.0 + delta <= u64::MAX) ==> r is None,
{
    if delta >= 0 {
        match points.0.checked_add(delta as u64) {
            Some(p) => Some(ClanPoints(p)),
            None => None,
        }
    } else {
        let taken: u64 = (-(delta as i128)) as u64;
        match points.0.checked_sub(taken) {
            Some(p) => Some(ClanPoints(p)),
            None => None,
        }
    }
}

/// Gives the clan a skill it lacks; `false` (and no change) when it has it.
pub fn add_clan_skill(skills: &mut Vec<SkillId>, skill: SkillId) -> (r: bool)
    ensures
        r == !old(skills)@.contains(skill),
        r ==> final(skills)@ == old(skills)@.push(skill),
        !r ==> final(skills)@ == old(skills)@,
{
    let mut i: usize = 0;
    while i < skills.len()
        invariant
            i <= skills@.len(),
            forall|j: int| 0 <= j < i ==> skills@[j] != skill,
        decreases skills@.len() - i,
    {
        if skills[i] == skill {
            return false;
        }
        i = i + 1;
    }
    skills.push(skill);
    true
}

/// Takes a skill from the clan; `false` (and no change) when it lacks it.
pub fn remove_clan_skill(skills: &mut Vec<SkillId>, skill: SkillId) -> (r: bool)
    ensures
        r == old(skills)@.contains(skill),
        final(skills)@ == old(skills)@.filter(|s: SkillId| s != skill),
{
    let ghost start = skills@;
    let mut kept: Vec<SkillId> = Vec::new();
    let mut found = false;
    let mut i: usize = 0;
    while i < skills.len()
        invariant
            skills@ == start,
            i <= start.len(),
            kept@ == start.take(i as int).filter(|s: SkillId| s != skill),
            found == start.take(i as int).contains(skill),
        decreases start.len() - i,
    {
        let s = skills[i];
        proof {
            reveal(Seq::filter);
            assert(start.take(i as int + 1).drop_last() =~= start.take(i as int));
        }
        let ghost prev = start.take(i as int);
        let ghost next = start.take(i as int + 1);
        proof {
            assert(next =~= prev.push(s));
        }
        if s == skill {
            found = true;
            assert(next[i as int] == skill);
        } else {
            kept.push(s);
            proof {
                if prev.contains(skill) {
                    let k = choose|k: int| 0 <= k < prev.len() && prev[k] == skill;
                    assert(next[k] == skill);
                } else {
                    assert forall|j: int| 0 <= j < next.len() implies #[trigger] next[j] != skill by {
                        if j < i {
                            assert(next[j] == prev[j]);
                        }
                    }
                }
            }
        }
        i = i + 1;
    }
    assert(start.take(start.len() as int) =~= start);
    *skills = kept;
    found
}

/// Who leaves the clan: every member of a name, or every member playing as
/// an entity.
pub enum Leaving {
    Named(Seq<char>),
    PlayingAs(Entity),
}

/// The member is one of those leaving.
pub open spec fn leaves(m: ClanMember, w: Leaving) -> bool {
    match w {
        Leaving::Named(n) => member_name(m) == n,
        Leaving::PlayingAs(e) => is_online_as(m, e),
    }
}

/// The members that stay, in their order.
pub open spec fn remaining(ms: Seq<ClanMember>, w: Leaving) -> Seq<ClanMember>
    decreases ms.len(),
{
    if ms.len() == 0 {
        ms
    } else if leaves(ms.last(), w) {
        remaining(ms.drop_last(), w)
    } else {
        remaining(ms.drop_last(), w).push(ms.last())
    }
}

/// The entity of the last member leaving who is playing, if any is.
pub open spec fn last_leaving_online(ms: Seq<ClanMember>, w: Leaving) -> Option<Entity>
    decreases ms.len(),
{
    if ms.len() == 0 {
        None
    } else if leaves(ms.last(), w) && member_entity(ms.last()) is Some {
        member_entity(ms.last())
    } else {
        last_leaving_online(ms.drop_last(), w)
    }
}

enum Removal {
    Named(String),
    PlayingAs(Entity),
}

spec fn removal_view(r: Removal) -> Leaving {
    match r {
        Removal::Named(n) => Leaving::Named(n@),
        Removal::PlayingAs(e) => Leaving::PlayingAs(e),
    }
}

fn removal_matches(m: &ClanMember, r: &Removal) -> (b: bool)
    ensures
        b == leaves(*m, removal_view(*r)),
{
    match r {
        Removal::Named(n) => member_has_name(m, n),
        Removal::PlayingAs(e) => member_entity_of(m) == Some(*e),
    }
}

proof fn lemma_remaining_masters(ms: Seq<ClanMember>, w: Leaving)
    ensures
        master_count(remaining(ms, w)) <= master_count(ms),
    decreases ms.len(),
{
    if ms.len() > 0 {
        lemma_remaining_masters(ms.drop_last(), w);
        if !leaves(ms.last(), w) {
            let r = remaining(ms.drop_last(), w).push(ms.last());
            assert(r.drop_last() =~= remaining(ms.drop_last(), w));
        }
    }
}

/// Removes the members leaving, keeping the order of the others; gives the
/// entity of the last one removed who was playing.
fn remove_leaving(members: &mut Vec<ClanMember>, removal: &Removal) -> (r: Option<Entity>)
    ensures
        final(members)@ == remaining(old(members)@, removal_view(*removal)),
        r == last_leaving_online(old(members)@, removal_view(*removal)),
{
    let ghost start = members@;
    let ghost w = removal_view(*removal);
    let mut last: Option<Entity> = None;
    let mut i: usize = 0;
    let ghost mut j: int = 0;
    assert(start.take(0) =~= Seq::<ClanMember>::empty());
    assert(members@ =~= remaining(start.take(0), w) + start.skip(0));
    while i < members.len()
        invariant
            w == removal_view(*removal),
            0 <= j <= start.len(),
            members@ =~= remaining(start.take(j), w) + start.skip(j),
            i == remaining(start.take(j), w).len(),
            last == last_leaving_online(start.take(j), w),
        decreases start.len() - j,
    {
        let ghost kept = remaining(start.take(j), w);
        assert(members@[i as int] == start[j]);
        assert(start.take(j + 1).drop_last() =~= start.take(j));
        assert(start.take(j + 1).last() == start[j]);
        if removal_matches(&members[i], removal) {
            let removed = members.remove(i);
            if let ClanMember::Online { entity, .. } = removed {
                last = Some(entity);
            }
            assert(members@ =~= kept + start.skip(j + 1));
        } else {
            assert(remaining(start.take(j + 1), w) =~= kept.push(start[j]));
            assert(members@ =~= kept.push(start[j]) + start.skip(j + 1));
            i = i + 1;
        }
        proof {
            j = j + 1;
        }
    }
    assert(j == start.len());
    assert(start.take(j) =~= start);
    last
}

/// A kick goes ahead when the kicker is the master or a deputy and the first
/// member of that name is not the master.
pub open spec fn kick_allowed(ms: Seq<ClanMember>, kicker: Entity, name: Seq<char>) -> bool {
    &&& may_manage(ms, kicker)
    &&& !(named_index(ms, name) matches Some(i) && member_position(ms[i]) is Master)
}

/// Kicks the members named `name`: when allowed, all of them leave and the
/// entity of the last one playing is given (to tell them); `None` and no
/// change otherwise.
pub fn kick_clan_member(members: &mut Vec<ClanMember>, kicker: Entity, name: &String) -> (r: Option<
    Option<Entity>,
>)
    ensures
        !kick_allowed(old(members)@, kicker, name@) ==> r is None && final(members)@ == old(
            members,
        )@,
        kick_allowed(old(members)@, kicker, name@) ==> r == Some(
            last_leaving_online(old(members)@, Leaving::Named(name@)),
        ) && final(members)@ == remaining(old(members)@, Leaving::Named(name@)),
        master_count(final(members)@) <= master_count(old(members)@),
{
    let allowed = match online_member_position(members, kicker) {
        Some(ClanMemberPosition::Master) | Some(ClanMemberPosition::DeputyMaster) => true,
        _ => false,
    };
    if !allowed {
        return None;
    }
    if let Some(i) = find_named_member(members, name) {
        if let ClanMemberPosition::Master = member_position_of(&members[i]) {
            return None;
        }
    }
    let removal = Removal::Named(name.clone());
    let kicked = remove_leaving(members, &removal);
    proof {
        lemma_remaining_masters(old(members)@, Leaving::Named(name@));
    }
    Some(kicked)
}

/// Leaving is refused to the master while others remain.
pub open spec fn leave_allowed(ms: Seq<ClanMember>, leaver: Entity) -> bool {
    !(is_master(ms, leaver) && ms.len() > 1)
}

/// The member playing as `leaver` leaves: refused (`None`, no change) to the
/// master while others remain; else every member playing as `leaver` is
/// removed, and the answer says whether the clan is now empty (and so gone).
pub fn leave_clan(members: &mut Vec<ClanMember>, leaver: Entity) -> (r: Option<bool>)
    ensures
        !leave_allowed(old(members)@, leaver) ==> r is None && final(members)@ == old(members)@,
        leave_allowed(old(members)@, leaver) ==> final(members)@ == remaining(
            old(members)@,
            Leaving::PlayingAs(leaver),
        ) && r == Some(final(members)@.len() == 0),
        master_count(final(members)@) <= master_count(old(members)@),
{
    let master = match online_member_position(members, leaver) {
        Some(ClanMemberPosition::Master) => true,
        _ => false,
    };
    if master && members.len() > 1 {
        return None;
    }
    let removal = Removal::PlayingAs(leaver);
    let _ = remove_leaving(members, &removal);
    proof {
        lemma_remaining_masters(old(members)@, Leaving::PlayingAs(leaver));
    }
    Some(members.len() == 0)
}

/// The entities of the members playing, in order.
pub open spec fn online_entities(ms: Seq<ClanMember>) -> Seq<Entity>
    decreases ms.len(),
{
    if ms.len() == 0 {
        Seq::empty()
    } else {
        match member_entity(ms.last()) {
            Some(e) => online_entities(ms.drop_last()).push(e),
            None => online_entities(ms.drop_last()),
        }
    }
}

fn collect_online_entities(members: &Vec<ClanMember>) -> (r: Vec<Entity>)
    ensures
        r@ == online_entities(members@),
{
    let mut online: Vec<Entity> = Vec::new();
    let mut i: usize = 0;
    while i < members.len()
        invariant
            i <= members@.len(),
            online@ == online_entities(members@.take(i as int)),
        decreases members@.len() - i,
    {
        assert(members@.take(i + 1).drop_last() =~= members@.take(i as int));
        if let Some(e) = member_entity_of(&members[i]) {
            online.push(e);
        }
        i = i + 1;
    }
    assert(members@.take(members@.len() as int) =~= members@);
    online
}

/// The master disbands the clan: every member leaves, and the entities of
/// those playing are given (to tell them). `None` and no change for anyone
/// but the master.
pub fn disband_clan(members: &mut Vec<ClanMember>, entity: Entity) -> (r: Option<Vec<Entity>>)
    ensures
        !is_master(old(members)@, entity) ==> r is None && final(members)@ == old(members)@,
        is_master(old(members)@, entity) ==> (r matches Some(v) && v@ == online_entities(
            old(members)@,
        )) && final(members)@.len() == 0,
{
    let master = match online_member_position(members, entity) {
        Some(ClanMemberPosition::Master) => true,
        _ => false,
    };
    if !master {
        return None;
    }
    let online = collect_online_entities(members);
    members.clear();
    Some(online)
}

/// The member with its position set to `p`.
pub open spec fn with_position(m: ClanMember, p: ClanMemberPosition) -> ClanMember {
    match m {
        ClanMember::Online { entity, name, contribution, .. } => ClanMember::Online {
            entity,
            name,
            position: p,
            contribution,
        },
        ClanMember::Offline { name, contribution, level, job, .. } => ClanMember::Offline {
            name,
            position: p,
            contribution,
            level,
            job,
        },
    }
}

fn set_position(m: ClanMember, p: ClanMemberPosition) -> (r: ClanMember)
    ensures
        r == with_position(m, p),
{
    match m {
        ClanMember::Online { entity, name, contribution, .. } => ClanMember::Online {
            entity,
            name,
            position: p,
            contribution,
        },
        ClanMember::Offline { name, contribution, level, job, .. } => ClanMember::Offline {
            name,
            position: p,
            contribution,
            level,
            job,
        },
    }
}

/// The position a promotion (or demotion) by `changer` moves `target` to:
/// one rank up, staying below the changer, or one rank down, not below
/// penalty; only a master or deputy may change a lower member.
pub open spec fn next_position(
    changer: ClanMemberPosition,
    target: ClanMemberPosition,
    promote: bool,
) -> Option<ClanMemberPosition> {
    if !spec_can_change_rank(changer, target) {
        None
    } else if promote {
        if spec_rank(target) + 1 < spec_rank(changer) {
            spec_position_of_rank((spec_rank(target) + 1) as u8)
        } else {
            None
        }
    } else if spec_rank(target) > 0 {
        spec_position_of_rank((spec_rank(target) - 1) as u8)
    } else {
        None
    }
}

/// What changing the first member named `name` does: `None` when the changer
/// is not playing in the clan, no member has the name, or the change is not
/// allowed; else the index changed and the new position.
pub open spec fn position_change(
    ms: Seq<ClanMember>,
    changer: Entity,
    name: Seq<char>,
    promote: bool,
) -> Option<(int, ClanMemberPosition)> {
    match online_position(ms, changer) {
        None => None,
        Some(c) => match named_index(ms, name) {
            None => None,
            Some(i) => match next_position(c, member_position(ms[i]), promote) {
                None => None,
                Some(p) => Some((i, p)),
            },
        },
    }
}

proof fn lemma_update_masters(ms: Seq<ClanMember>, i: int, m: ClanMember)
    requires
        0 <= i < ms.len(),
        (member_position(ms[i]) is Master) == (member_position(m) is Master),
    ensures
        master_count(ms.update(i, m)) == master_count(ms),
    decreases ms.len(),
{
    if i < ms.len() - 1 {
        lemma_update_masters(ms.drop_last(), i, m);
        assert(ms.update(i, m).drop_last() =~= ms.drop_last().update(i, m));
    } else {
        assert(ms.update(i, m).drop_last() =~= ms.drop_last());
    }
}

proof fn lemma_next_position_not_master(c: ClanMemberPosition, t: ClanMemberPosition, promote: bool)
    requires
        next_position(c, t, promote) is Some,
    ensures
        !(t is Master),
        !(next_position(c, t, promote).unwrap() is Master),
{
}

fn find_position_change(
    members: &Vec<ClanMember>,
    changer: Entity,
    name: &String,
    promote: bool,
) -> (r: Option<(usize, ClanMemberPosition)>)
    ensures
        r is None <==> position_change(members@, changer, name@, promote) is None,
        r matches Some((i, p)) ==> position_change(members@, changer, name@, promote) == Some(
            (i as int, p),
        ) && i < members@.len(),
        r matches Some((i, p)) ==> !(member_position(members@[i as int]) is Master) && !(p is Master),
{
    let changer_position = match online_member_position(members, changer) {
        None => {
            return None;
        },
        Some(c) => c,
    };
    let i = match find_named_member(members, name) {
        None => {
            return None;
        },
        Some(i) => i,
    };
    let current = member_position_of(&members[i]);
    let next = if promote {
        get_promoted_position(changer_position, current)
    } else {
        get_demoted_position(changer_position, current)
    };
    match next {
        None => None,
        Some(p) => {
            assert(next_position(changer_position, current, promote) == Some(p));
            proof {
                lemma_next_position_not_master(changer_position, current, promote);
            }
            Some((i, p))
        },
    }
}

#[verifier::spinoff_prover]
#[verifier::rlimit(40)]
fn change_position(
    members: &mut Vec<ClanMember>,
    changer: Entity,
    name: &String,
    promote: bool,
) -> (r: Option<(ClanMemberPosition, Option<Entity>)>)
    ensures
        match position_change(old(members)@, changer, name@, promote) {
            None => r is None && final(members)@ == old(members)@,
            Some((i, p)) => r == Some((p, member_entity(old(members)@[i]))) && final(members)@
                == old(members)@.update(i, with_position(old(members)@[i], p)),
        },
        master_count(final(members)@) == master_count(old(members)@),
{
    let (i, p) = match find_position_change(members, changer, name, promote) {
        None => {
            return None;
        },
        Some(x) => x,
    };
    let ghost om = members@;
    let entity = member_entity_of(&members[i]);
    let m = members.remove(i);
    let updated = set_position(m, p);
    members.insert(i, updated);
    proof {
        assert(members@ =~= om.update(i as int, with_position(om[i as int], p)));
        lemma_update_masters(om, i as int, with_position(om[i as int], p));
    }
    Some((p, entity))
}

/// Promotes the first member named `name` one rank, as `changer` may;
/// gives the new position and the member's entity if they are playing.
pub fn promote_clan_member(members: &mut Vec<ClanMember>, changer: Entity, name: &String) -> (r: Option<
    (ClanMemberPosition, Option<Entity>),
>)
    ensures
        match position_change(old(members)@, changer, name@, true) {
            None => r is None && final(members)@ == old(members)@,
            Some((i, p)) => r == Some((p, member_entity(old(members)@[i]))) && final(members)@
                == old(members)@.update(i, with_position(old(members)@[i], p)),
        },
        master_count(final(members)@) == master_count(old(members)@),
{
    change_position(members, changer, name, true)
}

/// Demotes the first member named `name` one rank, as `changer` may;
/// gives the new position and the member's entity if they are playing.
pub fn demote_clan_member(members: &mut Vec<ClanMember>, changer: Entity, name: &String) -> (r: Option<
    (ClanMemberPosition, Option<Entity>),
>)
    ensures
        match position_change(old(members)@, changer, name@, false) {
            None => r is None && final(members)@ == old(members)@,
            Some((i, p)) => r == Some((p, member_entity(old(members)@[i]))) && final(members)@
                == old(members)@.update(i, with_position(old(members)@[i], p)),
        },
        master_count(final(members)@) == master_count(old(members)@),
{
    change_position(members, changer, name, false)
}

/// The member playing as `entity` disconnects: the first such member is kept
/// as offline under `name` with the level and job given, keeping position
/// and contribution. `false` and no change when no member plays as `entity`.
pub fn member_disconnect(
    members: &mut Vec<ClanMember>,
    entity: Entity,
    name: String,
    level: u32,
    job: u16,
) -> (r: bool)
    ensures
        match online_index(old(members)@, entity) {
            None => !r && final(members)@ == old(members)@,
            Some(i) => r && final(members)@ == old(members)@.update(
                i,
                ClanMember::Offline {
                    name,
                    position: member_position(old(members)@[i]),
                    contribution: match old(members)@[i] {
                        ClanMember::Online { contribution, .. } => contribution,
                        ClanMember::Offline { contribution, .. } => contribution,
                    },
                    level,
                    job,
                },
            ),
        },
        master_count(final(members)@) == master_count(old(members)@),
{
    let i = match find_online_member(members, entity) {
        None => {
            return false;
        },
        Some(i) => i,
    };
    let m = members.remove(i);
    let (position, contribution) = match m {
        ClanMember::Online { position, contribution, .. } => (position, contribution),
        ClanMember::Offline { position, contribution, .. } => (position, contribution),
    };
    members.insert(i, ClanMember::Offline { name, position, contribution, level, job });
    proof {
        let ghost om = old(members)@;
        let ghost nm = ClanMember::Offline { name, position, contribution, level, job };
        assert(members@ =~= om.update(i as int, nm));
        lemma_update_masters(om, i as int, nm);
    }
    true
}

/// Joining adds one junior at the end, so the clan never grows past what its
/// level allows and never gains a master.
pub proof fn lemma_joining_keeps_clan_bounds(ms: Seq<ClanMember>, level: ClanLevel, e: Entity, name: String)
    requires
        ms.len() < spec_clan_max_members(level.spec_get()),
    ensures
        ms.push(new_member(e, name)).len() <= spec_clan_max_members(level.spec_get()),
        master_count(ms.push(new_member(e, name))) == master_count(ms),
{
    assert(ms.push(new_member(e, name)).drop_last() =~= ms);
}

/// Within a clan whose member names are all different, a kick never
/// removes the master: every member who stays keeps their place in order,
/// and the master stays whenever there is one.
pub proof fn lemma_kick_keeps_master(ms: Seq<ClanMember>, kicker: Entity, name: Seq<char>, k: int)
    requires
        forall|a: int, b: int|
            0 <= a < b < ms.len() ==> member_name(#[trigger] ms[a]) != member_name(#[trigger] ms[b]),
        kick_allowed(ms, kicker, name),
        0 <= k < ms.len(),
        member_position(ms[k]) is Master,
    ensures
        remaining(ms, Leaving::Named(name)).contains(ms[k]),
{
    if member_name(ms[k]) == name {
        assert forall|j: int| 0 <= j < k implies member_name(ms[j]) != name by {
        }
        lemma_named_index(ms, name, k);
    }
    lemma_remaining_contains(ms, Leaving::Named(name), k);
}

proof fn lemma_remaining_contains(ms: Seq<ClanMember>, w: Leaving, k: int)
    requires
        0 <= k < ms.len(),
        !leaves(ms[k], w),
    ensures
        remaining(ms, w).contains(ms[k]),
    decreases ms.len(),
{
    if k == ms.len() - 1 {
        let r = remaining(ms.drop_last(), w).push(ms.last());
        assert(r[r.len() - 1] == ms[k]);
    } else {
        lemma_remaining_contains(ms.drop_last(), w, k);
        let r0 = remaining(ms.drop_last(), w);
        let i = choose|i: int| 0 <= i < r0.len() && r0[i] == ms[k];
        if !leaves(ms.last(), w) {
            assert(r0.push(ms.last())[i] == ms[k]);
        }
    }
}

/// A line of the member list sent to clients.
#[derive(Debug)]
pub struct ClanMemberInfo {
    pub name: String,
    pub position: ClanMemberPosition,
    pub contribution: ClanPoints,
    /// The channel of a member who is playing: always channel 1.
    pub channel_id: Option<usize>,
    pub level: u32,
    pub job: u16,
}

/// The level and job of the player playing as `e`, by the first entry of
/// `details` for it.
pub open spec fn detail_of(details: Seq<(Entity, u32, u16)>, e: Entity) -> Option<(u32, u16)>
    decreases details.len(),
{
    if details.len() == 0 {
        None
    } else if details[0].0 == e {
        Some((details[0].1, details[0].2))
    } else {
        detail_of(details.drop_first(), e)
    }
}

/// The list line of one member: an offline member as stored; a member
/// playing with their current level and job, and no line when `details`
/// knows nothing of them.
pub open spec fn member_info(m: ClanMember, details: Seq<(Entity, u32, u16)>) -> Option<
    ClanMemberInfo,
> {
    match m {
        ClanMember::Online { entity, name, position, contribution } => match detail_of(
            details,
            entity,
        ) {
            Some((level, job)) => Some(
                ClanMemberInfo { name, position, contribution, channel_id: Some(1), level, job },
            ),
            None => None,
        },
        ClanMember::Offline { name, position, contribution, level, job } => Some(
            ClanMemberInfo { name, position, contribution, channel_id: None, level, job },
        ),
    }
}

/// The member list: one line per member, in order, as `member_info` gives.
pub open spec fn member_list(ms: Seq<ClanMember>, details: Seq<(Entity, u32, u16)>) -> Seq<
    ClanMemberInfo,
>
    decreases ms.len(),
{
    if ms.len() == 0 {
        Seq::empty()
    } else {
        match member_info(ms.last(), details) {
            Some(info) => member_list(ms.drop_last(), details).push(info),
            None => member_list(ms.drop_last(), details),
        }
    }
}

fn find_detail(details: &Vec<(Entity, u32, u16)>, e: Entity) -> (r: Option<(u32, u16)>)
    ensures
        r == detail_of(details@, e),
{
    let mut i: usize = 0;
    assert(details@.skip(0) =~= details@);
    while i < details.len()
        invariant
            i <= details@.len(),
            detail_of(details@, e) == detail_of(details@.skip(i as int), e),
        decreases details@.len() - i,
    {
        let (entity, level, job) = details[i];
        assert(details@.skip(i as int)[0] == details@[i as int]);
        assert(details@.skip(i as int).drop_first() =~= details@.skip(i + 1));
        if entity == e {
            return Some((level, job));
        }
        i = i + 1;
    }
    None
}

/// Builds the member list of a clan; `details` gives the level and job of
/// the players who are playing.
pub fn build_clan_member_list(members: &Vec<ClanMember>, details: &Vec<(Entity, u32, u16)>) -> (r: Vec<
    ClanMemberInfo,
>)
    ensures
        r@ == member_list(members@, details@),
{
    let mut out: Vec<ClanMemberInfo> = Vec::new();
    let mut i: usize = 0;
    while i < members.len()
        invariant
            i <= members@.len(),
            out@ == member_list(members@.take(i as int), details@),
        decreases members@.len() - i,
    {
        assert(members@.take(i + 1).drop_last() =~= members@.take(i as int));
        assert(members@.take(i + 1).last() == members@[i as int]);
        match &members[i] {
            ClanMember::Online { entity, name, position, contribution } => {
                if let Some((level, job)) = find_detail(details, *entity) {
                    out.push(
                        ClanMemberInfo {
                            name: name.clone(),
                            position: *position,
                            contribution: *contribution,
                            channel_id: Some(1),
                            level,
                            job,
                        },
                    );
                }
            },
            ClanMember::Offline { name, position, contribution, level, job } => {
                out.push(
                    ClanMemberInfo {
                        name: name.clone(),
                        position: *position,
                        contribution: *contribution,
                        channel_id: None,
                        level: *level,
                        job: *job,
                    },
                );
            },
        }
        i = i + 1;
    }
    assert(members@.take(members@.len() as int) =~= members@);
    out
}

} // verus!
