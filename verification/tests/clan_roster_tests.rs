use rose_data_core::clan::{ClanLevel, ClanMemberPosition, ClanPoints};
use rose_data_core::clan_roster::{
    accept_clan_invite, add_clan_level, build_clan_member_list, add_clan_money, add_clan_points, add_clan_skill,
    decide_clan_invite, demote_clan_member, disband_clan, find_online_member, kick_clan_member,
    leave_clan, member_disconnect, online_member_position, promote_clan_member,
    remove_clan_skill, ClanInviteResponse, ClanMember,
};
use rose_data_core::command::SkillId;
use rose_data_core::entity::Entity;

fn e(i: u32) -> Entity {
    Entity::from_raw(i)
}

fn online(i: u32, name: &str, position: ClanMemberPosition) -> ClanMember {
    ClanMember::Online {
        entity: e(i),
        name: name.to_string(),
        position,
        contribution: ClanPoints(0),
    }
}

fn offline(name: &str, position: ClanMemberPosition) -> ClanMember {
    ClanMember::Offline {
        name: name.to_string(),
        position,
        contribution: ClanPoints(5),
        level: 40,
        job: 111,
    }
}

fn clan() -> Vec<ClanMember> {
    vec![
        online(1, "Boss", ClanMemberPosition::Master),
        online(2, "Right", ClanMemberPosition::DeputyMaster),
        offline("Away", ClanMemberPosition::Senior),
        online(4, "Fresh", ClanMemberPosition::Junior),
    ]
}

fn names(members: &[ClanMember]) -> Vec<String> {
    members
        .iter()
        .map(|m| match m {
            ClanMember::Online { name, .. } => name.clone(),
            ClanMember::Offline { name, .. } => name.clone(),
        })
        .collect()
}

fn position_of(members: &[ClanMember], name: &str) -> Option<ClanMemberPosition> {
    members.iter().find_map(|m| match m {
        ClanMember::Online { name: n, position, .. } if n == name => Some(*position),
        ClanMember::Offline { name: n, position, .. } if n == name => Some(*position),
        _ => None,
    })
}

#[test]
fn online_members_are_found_by_entity() {
    let members = clan();
    assert_eq!(find_online_member(&members, e(4)), Some(3));
    assert_eq!(find_online_member(&members, e(3)), None);
    assert_eq!(online_member_position(&members, e(2)), Some(ClanMemberPosition::DeputyMaster));
}

#[test]
fn invitations_need_rank_room_and_a_free_target() {
    let members = clan();
    let level = ClanLevel::new(1).unwrap();
    assert_eq!(decide_clan_invite(&members, level, e(2), Some(false)), Ok(()));
    assert_eq!(
        decide_clan_invite(&members, level, e(4), Some(false)),
        Err(ClanInviteResponse::NoPermission)
    );
    assert_eq!(
        decide_clan_invite(&members, level, e(9), Some(false)),
        Err(ClanInviteResponse::NoPermission)
    );
    assert_eq!(
        decide_clan_invite(&members, level, e(1), None),
        Err(ClanInviteResponse::TargetNotFound)
    );
    assert_eq!(
        decide_clan_invite(&members, level, e(1), Some(true)),
        Err(ClanInviteResponse::TargetHasClan)
    );
    let mut full = clan();
    for i in 0..11 {
        full.push(online(100 + i, &format!("m{}", i), ClanMemberPosition::Junior));
    }
    assert_eq!(full.len(), 15);
    assert_eq!(decide_clan_invite(&full, level, e(1), Some(false)), Err(ClanInviteResponse::Full));
    let bigger = ClanLevel::new(2).unwrap();
    assert_eq!(decide_clan_invite(&full, bigger, e(1), Some(false)), Ok(()));
}

#[test]
fn accepting_adds_a_junior_at_the_end() {
    let level = ClanLevel::new(1).unwrap();
    let mut members = clan();
    assert_eq!(
        accept_clan_invite(&mut members, level, e(7), "New".to_string(), true),
        Err(ClanInviteResponse::TargetHasClan)
    );
    assert_eq!(members.len(), 4);
    assert_eq!(accept_clan_invite(&mut members, level, e(7), "New".to_string(), false), Ok(()));
    assert_eq!(members.len(), 5);
    assert_eq!(online_member_position(&members, e(7)), Some(ClanMemberPosition::Junior));
    assert_eq!(names(&members)[4], "New");
}

#[test]
fn kicks_remove_every_member_of_the_name_but_never_the_master() {
    let mut members = clan();
    // a junior may not kick
    assert_eq!(kick_clan_member(&mut members, e(4), &"Away".to_string()), None);
    assert_eq!(members.len(), 4);
    // nobody kicks the master
    assert_eq!(kick_clan_member(&mut members, e(2), &"Boss".to_string()), None);
    assert_eq!(members.len(), 4);
    // an offline member leaves with no one to tell
    assert_eq!(kick_clan_member(&mut members, e(2), &"Away".to_string()), Some(None));
    assert_eq!(names(&members), vec!["Boss", "Right", "Fresh"]);
    // an online member is told
    assert_eq!(kick_clan_member(&mut members, e(1), &"Fresh".to_string()), Some(Some(e(4))));
    assert_eq!(names(&members), vec!["Boss", "Right"]);
    // a name nobody has changes nothing
    assert_eq!(kick_clan_member(&mut members, e(1), &"Ghost".to_string()), Some(None));
    assert_eq!(members.len(), 2);
}

#[test]
fn promotions_and_demotions_move_one_rank() {
    let mut members = clan();
    assert_eq!(
        promote_clan_member(&mut members, e(1), &"Away".to_string()),
        Some((ClanMemberPosition::Veteran, None))
    );
    assert_eq!(position_of(&members, "Away"), Some(ClanMemberPosition::Veteran));
    // an online member is named with their entity
    let mut members2 = clan();
    assert_eq!(
        promote_clan_member(&mut members2, e(1), &"Fresh".to_string()),
        Some((ClanMemberPosition::Senior, Some(e(4))))
    );
    // a deputy cannot promote anyone up to their own rank
    let mut ranks = vec![
        online(1, "Boss", ClanMemberPosition::Master),
        online(2, "Right", ClanMemberPosition::DeputyMaster),
        offline("Near", ClanMemberPosition::Commander),
    ];
    assert_eq!(promote_clan_member(&mut ranks, e(2), &"Near".to_string()), None);
    // the master can: a deputy stays below the master
    assert_eq!(
        promote_clan_member(&mut ranks, e(1), &"Near".to_string()),
        Some((ClanMemberPosition::DeputyMaster, None))
    );
    // and no one is promoted to master
    assert_eq!(promote_clan_member(&mut ranks, e(1), &"Near".to_string()), None);
    assert_eq!(
        demote_clan_member(&mut members, e(2), &"Away".to_string()),
        Some((ClanMemberPosition::Senior, None))
    );
    // nobody changes the master, and a junior changes no one
    assert_eq!(demote_clan_member(&mut members, e(2), &"Boss".to_string()), None);
    assert_eq!(promote_clan_member(&mut members, e(4), &"Away".to_string()), None);
    // penalty is the lowest rank
    let mut low = vec![
        online(1, "Boss", ClanMemberPosition::Master),
        offline("Late", ClanMemberPosition::Penalty),
    ];
    assert_eq!(demote_clan_member(&mut low, e(1), &"Late".to_string()), None);
    assert_eq!(position_of(&low, "Late"), Some(ClanMemberPosition::Penalty));
}

#[test]
fn the_master_leaves_last() {
    let mut members = clan();
    assert_eq!(leave_clan(&mut members, e(1)), None);
    assert_eq!(members.len(), 4);
    assert_eq!(leave_clan(&mut members, e(4)), Some(false));
    assert_eq!(names(&members), vec!["Boss", "Right", "Away"]);
    let mut alone = vec![online(1, "Boss", ClanMemberPosition::Master)];
    assert_eq!(leave_clan(&mut alone, e(1)), Some(true));
    assert!(alone.is_empty());
}

#[test]
fn only_the_master_disbands() {
    let mut members = clan();
    assert!(disband_clan(&mut members, e(2)).is_none());
    assert_eq!(members.len(), 4);
    assert_eq!(disband_clan(&mut members, e(1)), Some(vec![e(1), e(2), e(4)]));
    assert!(members.is_empty());
}

#[test]
fn disconnecting_keeps_rank_and_contribution() {
    let mut members = clan();
    assert!(member_disconnect(&mut members, e(2), "Right".to_string(), 55, 121));
    match &members[1] {
        ClanMember::Offline { name, position, level, job, .. } => {
            assert_eq!(name, "Right");
            assert_eq!(*position, ClanMemberPosition::DeputyMaster);
            assert_eq!((*level, *job), (55, 121));
        }
        _ => panic!("member should be offline"),
    }
    assert!(!member_disconnect(&mut members, e(2), "Right".to_string(), 55, 121));
}

#[test]
fn clan_counters_refuse_to_overflow() {
    let level = ClanLevel::new(3).unwrap();
    assert_eq!(add_clan_level(level, 2).map(|l| l.get()), Some(5));
    assert_eq!(add_clan_level(level, -3), None);
    assert_eq!(add_clan_level(level, -2).map(|l| l.get()), Some(1));
    assert_eq!(add_clan_money(10, -30), Some(-20));
    assert_eq!(add_clan_money(i64::MAX, 1), None);
    assert_eq!(add_clan_points(ClanPoints(10), -10), Some(ClanPoints(0)));
    assert_eq!(add_clan_points(ClanPoints(10), -11), None);
    assert_eq!(add_clan_points(ClanPoints(u64::MAX - 1), 1), Some(ClanPoints(u64::MAX)));
    assert_eq!(add_clan_points(ClanPoints(u64::MAX), 1), None);
    assert_eq!(add_clan_points(ClanPoints(5), i64::MIN), None);
}

#[test]
fn clan_skills_are_kept_once() {
    let a = SkillId::new(3).unwrap();
    let b = SkillId::new(8).unwrap();
    let mut skills = vec![a];
    assert!(!add_clan_skill(&mut skills, a));
    assert!(add_clan_skill(&mut skills, b));
    assert_eq!(skills, vec![a, b]);
    assert!(remove_clan_skill(&mut skills, a));
    assert_eq!(skills, vec![b]);
    assert!(!remove_clan_skill(&mut skills, a));
    assert_eq!(skills, vec![b]);
}

#[test]
fn member_list_shows_playing_members_with_their_details() {
    let members = clan();
    let details = vec![(e(4), 12, 111), (e(1), 80, 221), (e(4), 99, 0)];
    let list = build_clan_member_list(&members, &details);
    // "Right" is playing but unknown to the details: left out
    assert_eq!(list.len(), 3);
    assert_eq!(list[0].name, "Boss");
    assert_eq!((list[0].level, list[0].job, list[0].channel_id), (80, 221, Some(1)));
    assert_eq!(list[1].name, "Away");
    assert_eq!((list[1].level, list[1].job, list[1].channel_id), (40, 111, None));
    assert_eq!(list[1].contribution, ClanPoints(5));
    assert_eq!(list[2].name, "Fresh");
    assert_eq!((list[2].level, list[2].job), (12, 111));
    assert_eq!(list[2].position, ClanMemberPosition::Junior);
}
