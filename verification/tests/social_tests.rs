use rose_data_core::entity::{ClientEntityId, Entity};
use rose_data_core::social::{
    accept_friend_request, may_friend_chat, add_friend_once, build_friend_infos, contains_friend, decide_friend_add, friend_status_from_online,
    remove_friend, CharacterUniqueId, Friend, FriendAddDecision, FriendList, FriendStatus, OnlineFriend,
    OnlineFriends,
};

fn friend(id: u32, name: &str) -> Friend {
    Friend { character_id: CharacterUniqueId(id), name: name.to_string() }
}

#[test]
fn online_friends_are_found_by_id_and_by_name_in_any_case() {
    let mut online = OnlineFriends::new();
    online.insert(CharacterUniqueId(7), "Alice", Entity::from_raw(70), None);
    assert_eq!(
        online.get_by_id(CharacterUniqueId(7)),
        Some(OnlineFriend { entity: Entity::from_raw(70), client_entity_id: None })
    );
    assert_eq!(online.get_by_name("alice").map(|f| f.entity), Some(Entity::from_raw(70)));
    assert_eq!(online.get_by_name("ALICE").map(|f| f.entity), Some(Entity::from_raw(70)));
    assert!(online.get_by_name("bob").is_none());
    assert!(online.get_by_id(CharacterUniqueId(8)).is_none());
}

#[test]
fn client_entity_id_updates_only_online_characters() {
    let mut online = OnlineFriends::new();
    online.insert(CharacterUniqueId(7), "Alice", Entity::from_raw(70), None);
    online.update_client_entity_id(CharacterUniqueId(7), ClientEntityId(5));
    online.update_client_entity_id(CharacterUniqueId(9), ClientEntityId(6));
    assert_eq!(online.get_by_id(CharacterUniqueId(7)).unwrap().client_entity_id, Some(ClientEntityId(5)));
    assert!(online.get_by_id(CharacterUniqueId(9)).is_none());
}

#[test]
fn removed_friends_are_offline() {
    let mut online = OnlineFriends::new();
    online.insert(CharacterUniqueId(7), "Alice", Entity::from_raw(70), None);
    online.insert(CharacterUniqueId(8), "Bob", Entity::from_raw(80), Some(ClientEntityId(1)));
    online.remove(CharacterUniqueId(7), "ALICE");
    assert!(online.get_by_id(CharacterUniqueId(7)).is_none());
    assert!(online.get_by_name("alice").is_none());
    assert_eq!(online.get_by_name("bob").map(|f| f.entity), Some(Entity::from_raw(80)));
    assert_eq!(friend_status_from_online(&online, CharacterUniqueId(7)), FriendStatus::Offline);
    assert_eq!(friend_status_from_online(&online, CharacterUniqueId(8)), FriendStatus::Online);
}

#[test]
fn reinserting_a_name_points_it_at_the_new_character() {
    let mut online = OnlineFriends::new();
    online.insert(CharacterUniqueId(7), "Alice", Entity::from_raw(70), None);
    online.insert(CharacterUniqueId(9), "alice", Entity::from_raw(90), None);
    assert_eq!(online.get_by_name("Alice").map(|f| f.entity), Some(Entity::from_raw(90)));
    assert!(online.get_by_id(CharacterUniqueId(7)).is_some());
}

#[test]
fn friend_infos_keep_order_and_show_status() {
    let mut online = OnlineFriends::new();
    online.insert(CharacterUniqueId(2), "Bob", Entity::from_raw(20), None);
    let friends = vec![friend(1, "Ann"), friend(2, "Bob")];
    let infos = build_friend_infos(&online, &friends);
    assert_eq!(infos.len(), 2);
    assert_eq!(infos[0].character_id, CharacterUniqueId(1));
    assert_eq!(infos[0].name, "Ann");
    assert_eq!(infos[0].status, FriendStatus::Offline);
    assert_eq!(infos[1].name, "Bob");
    assert_eq!(infos[1].status, FriendStatus::Online);
}

#[test]
fn friend_list_membership() {
    let mut list = FriendList::default();
    assert!(!contains_friend(&list.friends, CharacterUniqueId(3)));
    list.friends.push(friend(3, "Cid"));
    assert!(contains_friend(&list.friends, CharacterUniqueId(3)));
    assert!(!contains_friend(&list.friends, CharacterUniqueId(4)));
}

#[test]
fn accepted_friend_is_added_once() {
    let mut list = vec![friend(1, "Ann")];
    add_friend_once(&mut list, CharacterUniqueId(2), "Bob".to_string());
    add_friend_once(&mut list, CharacterUniqueId(2), "Bob".to_string());
    assert_eq!(list, vec![friend(1, "Ann"), friend(2, "Bob")]);
}

#[test]
fn removing_a_friend_gives_it_back() {
    let mut list = vec![friend(1, "Ann"), friend(2, "Bob")];
    assert_eq!(remove_friend(&mut list, CharacterUniqueId(1)), Some(friend(1, "Ann")));
    assert_eq!(list, vec![friend(2, "Bob")]);
    assert_eq!(remove_friend(&mut list, CharacterUniqueId(7)), None);
    assert_eq!(list.len(), 1);
}

#[test]
fn friend_requests_by_name() {
    let mut online = OnlineFriends::new();
    online.insert(CharacterUniqueId(9), "Zed", Entity::from_raw(90), None);
    online.insert(CharacterUniqueId(1), "Me", Entity::from_raw(10), None);
    let friends = vec![friend(3, "Cid")];
    let me = Entity::from_raw(10);
    let id = CharacterUniqueId(1);
    assert_eq!(decide_friend_add("Me", id, me, &friends, "zed", &online), FriendAddDecision::Request(Entity::from_raw(90)));
    assert_eq!(decide_friend_add("Me", id, me, &friends, "", &online), FriendAddDecision::Ignore);
    assert_eq!(decide_friend_add("Me", id, me, &friends, "ME", &online), FriendAddDecision::Ignore);
    assert_eq!(decide_friend_add("Me", id, me, &friends, "cid", &online), FriendAddDecision::Ignore);
    assert_eq!(decide_friend_add("Me", id, me, &friends, "Nobody", &online), FriendAddDecision::TargetNotFound);
}

#[test]
fn accepted_requests_make_friends_both_ways() {
    let mut responder = vec![friend(3, "Carol")];
    let mut requester = vec![friend(1, "Bob")];
    accept_friend_request(
        &mut responder,
        &mut requester,
        CharacterUniqueId(1),
        "Bob".to_string(),
        CharacterUniqueId(2),
        "Dan".to_string(),
    );
    assert_eq!(responder, vec![friend(3, "Carol"), friend(2, "Dan")]);
    // the requester listed the responder already: no second entry
    assert_eq!(requester, vec![friend(1, "Bob")]);
}

#[test]
fn friend_chat_needs_both_lists_and_text() {
    let sender = vec![friend(2, "Dan")];
    let back = vec![friend(1, "Bob")];
    let not_back = vec![friend(5, "Eve")];
    let me = CharacterUniqueId(1);
    let them = CharacterUniqueId(2);
    assert!(may_friend_chat("hi", &sender, me, them, Some(&back)));
    assert!(!may_friend_chat("", &sender, me, them, Some(&back)));
    assert!(!may_friend_chat("hi", &sender, me, them, None));
    assert!(!may_friend_chat("hi", &sender, me, them, Some(&not_back)));
    assert!(!may_friend_chat("hi", &sender, me, CharacterUniqueId(9), Some(&back)));
}
