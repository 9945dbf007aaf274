//! Friends and parties: the friend lists characters keep, which friends are
//! online, and the choices a party makes.
use vstd::prelude::*;
use vstd::string::*;
use std::collections::HashMap;

use crate::entity::{ClientEntityId, Entity};

verus! {

broadcast use vstd::std_specs::hash::group_hash_axioms;

/// The id of a character, unique over the whole game.
#[derive(Debug, Clone, Copy, PartialEq, Eq, Hash, Structural)]
pub struct CharacterUniqueId(pub u32);

/// A character on a friend list.
#[derive(Debug, Clone, PartialEq, Eq)]
pub struct Friend {
    pub character_id: CharacterUniqueId,
    pub name: String,
}

/// What a friend's entry shows.
#[derive(Debug, Clone, Copy, PartialEq, Eq, Structural)]
pub enum FriendStatus {
    Online,
    Offline,
    Refused,
    Deleted,
}

/// A friend as a client is told of it.
#[derive(Debug, Clone, PartialEq, Eq)]
pub struct FriendInfo {
    pub character_id: CharacterUniqueId,
    pub name: String,
    pub status: FriendStatus,
}

/// Why a party invitation was turned down.
#[derive(Debug, Clone, Copy, PartialEq, Eq, Structural)]
pub enum PartyRejectInviteReason {
    Busy,
    Reject,
}

/// How a party shares experience.
#[derive(Debug, Clone, Copy, PartialEq, Eq, Structural)]
pub enum PartyXpSharing {
    EqualShare,
    DistributedByLevel,
}

/// How a party shares dropped items.
#[derive(Debug, Clone, Copy, PartialEq, Eq, Structural)]
pub enum PartyItemSharing {
    EqualLootDistribution,
    AcquisitionOrder,
}

/// A character's friends.
#[derive(Debug, Clone)]
pub struct FriendList {
    pub friends: Vec<Friend>,
}

impl Default for FriendList {
    fn default() -> (r: FriendList)
        ensures
            r.friends@.len() == 0,
    {
        FriendList { friends: Vec::new() }
    }
}

/// Whether a friend list holds the character `character_id`.
pub fn contains_friend(friends: &Vec<Friend>, character_id: CharacterUniqueId) -> (r: bool)
    ensures
        r == exists|i: int| 0 <= i < friends@.len() && #[trigger] friends@[i].character_id == character_id,
{
    let mut i: usize = 0;
    while i < friends.len()
        invariant
            i <= friends@.len(),
            forall|j: int| 0 <= j < i ==> #[trigger] friends@[j].character_id != character_id,
        decreases friends@.len() - i,
    {
        if friends[i].character_id == character_id {
            return true;
        }
        i = i + 1;
    }
    false
}

/// An online character that friends can reach.
#[derive(Debug, Clone, Copy, PartialEq, Eq, Structural)]
pub struct OnlineFriend {
    pub entity: Entity,
    pub client_entity_id: Option<ClientEntityId>,
}

/// A character as its lower-case ASCII name: `A` to `Z` become `a` to `z`.
pub open spec fn lower_char(c: char) -> char {
    if 'A' <= c <= 'Z' {
        ((c as u32) + 32) as char
    } else {
        c
    }
}

/// A name with ASCII letters in lower case.
pub open spec fn ascii_lower(s: Seq<char>) -> Seq<char> {
    Seq::new(s.len(), |i: int| lower_char(s[i]))
}

/// The character named `key` (in lower case) among the names.
pub open spec fn name_lookup(names: Seq<(String, CharacterUniqueId)>, key: Seq<char>) -> Option<CharacterUniqueId>
    decreases names.len(),
{
    if names.len() == 0 {
        None
    } else if ascii_lower(names.last().0@) == key {
        Some(names.last().1)
    } else {
        name_lookup(names.drop_last(), key)
    }
}

/// The online characters, by id and by name (names compared without regard
/// to ASCII case).
pub struct OnlineFriends {
    by_id: HashMap<u32, OnlineFriend>,
    by_name: Vec<(String, CharacterUniqueId)>,
}

fn lower_code(c: char) -> (r: u32)
    ensures
        r == lower_char(c) as u32,
{
    if 'A' <= c && c <= 'Z' {
        (c as u32) + 32
    } else {
        c as u32
    }
}

/// `a` and `b` are the same name without regard to ASCII case.
pub(crate) fn same_name(a: &str, b: &str) -> (r: bool)
    ensures
        r == (ascii_lower(a@) == ascii_lower(b@)),
{
    let n = a.unicode_len();
    if n != b.unicode_len() {
        assert(ascii_lower(a@).len() != ascii_lower(b@).len());
        return false;
    }
    let mut i: usize = 0;
    while i < n
        invariant
            i <= n,
            n == a@.len(),
            n == b@.len(),
            forall|j: int| 0 <= j < i ==> lower_char(#[trigger] a@[j]) == lower_char(b@[j]),
        decreases n - i,
    {
        if lower_code(a.get_char(i)) != lower_code(b.get_char(i)) {
            assert(ascii_lower(a@)[i as int] != ascii_lower(b@)[i as int]);
            return false;
        }
        i = i + 1;
    }
    assert(ascii_lower(a@) =~= ascii_lower(b@)) by {
        assert forall|j: int| 0 <= j < n implies ascii_lower(a@)[j] == ascii_lower(b@)[j] by {
            assert(lower_char(a@[j]) == lower_char(b@[j]));
        }
    }
    true
}

impl OnlineFriends {
    /// Online characters by id.
    pub closed spec fn ids(&self) -> Map<u32, OnlineFriend> {
        self.by_id@
    }

    /// The character online under `key` (a lower-case name).
    pub closed spec fn named(&self, key: Seq<char>) -> Option<CharacterUniqueId> {
        name_lookup(self.by_name@, key)
    }

    pub fn new() -> (r: OnlineFriends)
        ensures
            r.ids() == Map::<u32, OnlineFriend>::empty(),
            forall|k: Seq<char>| r.named(k) is None,
    {
        OnlineFriends { by_id: HashMap::new(), by_name: Vec::new() }
    }

    /// Records `character_id` as online under `name`.
    pub fn insert(
        &mut self,
        character_id: CharacterUniqueId,
        name: &str,
        entity: Entity,
        client_entity_id: Option<ClientEntityId>,
    )
        ensures
            final(self).ids() == old(self).ids().insert(character_id.0, OnlineFriend { entity, client_entity_id }),
            forall|k: Seq<char>|
                #[trigger] final(self).named(k) == if k == ascii_lower(name@) {
                    Some(character_id)
                } else {
                    old(self).named(k)
                },
    {
        self.by_id.insert(character_id.0, OnlineFriend { entity, client_entity_id });
        self.remove_name(name);
        let ghost before = self.by_name@;
        self.by_name.push((String::from_str(name), character_id));
        proof {
            assert forall|k: Seq<char>| #[trigger] name_lookup(self.by_name@, k) == if k == ascii_lower(name@) {
                Some(character_id)
            } else {
                name_lookup(before, k)
            } by {
                assert(self.by_name@.drop_last() =~= before);
            }
        }
    }

    /// Forgets the name `name` (without regard to ASCII case).
    fn remove_name(&mut self, name: &str)
        ensures
            final(self).by_id@ == old(self).by_id@,
            forall|k: Seq<char>|
                #[trigger] name_lookup(final(self).by_name@, k) == if k == ascii_lower(name@) {
                    None
                } else {
                    name_lookup(old(self).by_name@, k)
                },
    {
        let ghost old_names = self.by_name@;
        let mut kept: Vec<(String, CharacterUniqueId)> = Vec::new();
        let mut i: usize = 0;
        while i < self.by_name.len()
            invariant
                i <= self.by_name@.len(),
                self.by_name@ == old_names,
                forall|k: Seq<char>|
                    #[trigger] name_lookup(kept@, k) == if k == ascii_lower(name@) {
                        None
                    } else {
                        name_lookup(old_names.take(i as int), k)
                    },
            decreases self.by_name@.len() - i,
        {
            let ghost before = kept@;
            let ghost t = old_names.take(i + 1);
            assert(t.drop_last() =~= old_names.take(i as int));
            let same = same_name(self.by_name[i].0.as_str(), name);
            if !same {
                let entry = (self.by_name[i].0.clone(), self.by_name[i].1);
                kept.push(entry);
                assert(kept@.drop_last() =~= before);
                assert(kept@.last().0@ == old_names[i as int].0@);
                assert(kept@.last().1 == old_names[i as int].1);
            }
            proof {
                assert forall|k: Seq<char>|
                    #[trigger] name_lookup(kept@, k) == if k == ascii_lower(name@) {
                        None
                    } else {
                        name_lookup(t, k)
                    } by {
                    assert(t.last() == old_names[i as int]);
                    if !same {
                        assert(name_lookup(kept@, k) == if ascii_lower(old_names[i as int].0@) == k {
                            Some(old_names[i as int].1)
                        } else {
                            name_lookup(before, k)
                        });
                    }
                }
            }
            i = i + 1;
        }
        assert(old_names.take(old_names.len() as int) =~= old_names);
        self.by_name = kept;
    }

    /// Gives `character_id`, if online, a new client entity id.
    pub fn update_client_entity_id(&mut self, character_id: CharacterUniqueId, client_entity_id: ClientEntityId)
        ensures
            old(self).ids().contains_key(character_id.0) ==> final(self).ids() == old(self).ids().insert(
                character_id.0,
                OnlineFriend {
                    entity: old(self).ids()[character_id.0].entity,
                    client_entity_id: Some(client_entity_id),
                },
            ),
            !old(self).ids().contains_key(character_id.0) ==> final(self).ids() == old(self).ids(),
            forall|k: Seq<char>| #[trigger] final(self).named(k) == old(self).named(k),
    {
        let found = match self.by_id.get(&character_id.0) {
            Some(entry) => Some(*entry),
            None => None,
        };
        if let Some(entry) = found {
            self.by_id.insert(
                character_id.0,
                OnlineFriend { entity: entry.entity, client_entity_id: Some(client_entity_id) },
            );
        }
    }

    /// Forgets that `character_id` is online under `name`.
    pub fn remove(&mut self, character_id: CharacterUniqueId, name: &str)
        ensures
            final(self).ids() == old(self).ids().remove(character_id.0),
            forall|k: Seq<char>|
                #[trigger] final(self).named(k) == if k == ascii_lower(name@) {
                    None
                } else {
                    old(self).named(k)
                },
    {
        self.by_id.remove(&character_id.0);
        self.remove_name(name);
    }

    /// The online character with id `character_id`.
    pub fn get_by_id(&self, character_id: CharacterUniqueId) -> (r: Option<OnlineFriend>)
        ensures
            r == if self.ids().contains_key(character_id.0) {
                Some(self.ids()[character_id.0])
            } else {
                None
            },
    {
        match self.by_id.get(&character_id.0) {
            Some(entry) => Some(*entry),
            None => None,
        }
    }

    /// The online character named `name` (without regard to ASCII case).
    pub fn get_by_name(&self, name: &str) -> (r: Option<OnlineFriend>)
        ensures
            r == match self.named(ascii_lower(name@)) {
                Some(id) => if self.ids().contains_key(id.0) {
                    Some(self.ids()[id.0])
                } else {
                    None
                },
                None => None,
            },
    {
        let mut i: usize = self.by_name.len();
        assert(self.by_name@.take(i as int) =~= self.by_name@);
        while i > 0
            invariant
                i <= self.by_name@.len(),
                name_lookup(self.by_name@, ascii_lower(name@)) == name_lookup(
                    self.by_name@.take(i as int),
                    ascii_lower(name@),
                ),
            decreases i,
        {
            let ghost t = self.by_name@.take(i as int);
            assert(t.drop_last() =~= self.by_name@.take(i - 1));
            if same_name(self.by_name[i - 1].0.as_str(), name) {
                return self.get_by_id(self.by_name[i - 1].1);
            }
            i = i - 1;
        }
        assert(self.by_name@.take(0) =~= Seq::<(String, CharacterUniqueId)>::empty());
        None
    }
}

/// A friend is online when the online characters hold its id.
pub fn friend_status_from_online(online_friends: &OnlineFriends, character_id: CharacterUniqueId) -> (r: FriendStatus)
    ensures
        r == if online_friends.ids().contains_key(character_id.0) {
            FriendStatus::Online
        } else {
            FriendStatus::Offline
        },
{
    if online_friends.get_by_id(character_id).is_some() {
        FriendStatus::Online
    } else {
        FriendStatus::Offline
    }
}

/// `info` shows `friend` with its status among the online characters.
pub open spec fn shows_friend(info: FriendInfo, friend: Friend, online: &OnlineFriends) -> bool {
    &&& info.character_id == friend.character_id
    &&& info.name@ == friend.name@
    &&& info.status == if online.ids().contains_key(friend.character_id.0) {
        FriendStatus::Online
    } else {
        FriendStatus::Offline
    }
}

/// The friend list as sent to a client: each friend with its status.
pub fn build_friend_infos(online_friends: &OnlineFriends, friends: &Vec<Friend>) -> (r: Vec<FriendInfo>)
    ensures
        r@.len() == friends@.len(),
        forall|i: int| 0 <= i < r@.len() ==> shows_friend(#[trigger] r@[i], friends@[i], online_friends),
{
    let mut out: Vec<FriendInfo> = Vec::new();
    let mut i: usize = 0;
    while i < friends.len()
        invariant
            i <= friends@.len(),
            out@.len() == i,
            forall|j: int| 0 <= j < i ==> shows_friend(#[trigger] out@[j], friends@[j], online_friends),
        decreases friends@.len() - i,
    {
        let f = &friends[i];
        let name = f.name.clone();
        let status = friend_status_from_online(online_friends, f.character_id);
        let info = FriendInfo { character_id: f.character_id, name, status };
        assert(shows_friend(info, friends@[i as int], online_friends));
        let ghost before = out@;
        out.push(info);
        assert forall|j: int| 0 <= j < i + 1 implies shows_friend(#[trigger] out@[j], friends@[j], online_friends) by {
            if j < i {
                assert(out@[j] == before[j]);
            }
        }
        i = i + 1;
    }
    out
}

/// Adds a friend unless the list already holds that character.
pub fn add_friend_once(friends: &mut Vec<Friend>, character_id: CharacterUniqueId, name: String)
    ensures
        (exists|i: int| 0 <= i < old(friends)@.len() && #[trigger] old(friends)@[i].character_id
            == character_id) ==> final(friends)@ == old(friends)@,
        !(exists|i: int| 0 <= i < old(friends)@.len() && #[trigger] old(friends)@[i].character_id
            == character_id) ==> final(friends)@ == old(friends)@.push(Friend { character_id, name }),
{
    if !contains_friend(friends, character_id) {
        friends.push(Friend { character_id, name });
    }
}

/// Adding a friend keeps a list without repeated characters so.
pub proof fn lemma_add_friend_keeps_unique(friends: Seq<Friend>, character_id: CharacterUniqueId, name: String)
    requires
        forall|i: int, j: int|
            0 <= i < j < friends.len() ==> #[trigger] friends[i].character_id != #[trigger] friends[j].character_id,
    ensures
        ({
            let after = if exists|i: int| 0 <= i < friends.len() && #[trigger] friends[i].character_id == character_id {
                friends
            } else {
                friends.push(Friend { character_id, name })
            };
            forall|i: int, j: int|
                0 <= i < j < after.len() ==> #[trigger] after[i].character_id != #[trigger] after[j].character_id
        }),
{
    if !(exists|i: int| 0 <= i < friends.len() && #[trigger] friends[i].character_id == character_id) {
        let after = friends.push(Friend { character_id, name });
        assert forall|i: int, j: int|
            0 <= i < j < after.len() implies #[trigger] after[i].character_id != #[trigger] after[j].character_id by {
            if j == friends.len() {
                assert(after[i] == friends[i]);
            } else {
                assert(after[i] == friends[i]);
                assert(after[j] == friends[j]);
            }
        }
    }
}

/// Removes the first friend with id `character_id` and gives it back.
pub fn remove_friend(friends: &mut Vec<Friend>, character_id: CharacterUniqueId) -> (r: Option<Friend>)
    ensures
        match r {
            None => final(friends)@ == old(friends)@ && forall|i: int|
                0 <= i < old(friends)@.len() ==> #[trigger] old(friends)@[i].character_id != character_id,
            Some(f) => exists|k: int|
                0 <= k < old(friends)@.len() && old(friends)@[k] == f && f.character_id == character_id
                    && final(friends)@ == old(friends)@.remove(k) && forall|i: int|
                    0 <= i < k ==> #[trigger] old(friends)@[i].character_id != character_id,
        },
{
    let mut i: usize = 0;
    while i < friends.len()
        invariant
            i <= friends@.len(),
            friends@ == old(friends)@,
            forall|j: int| 0 <= j < i ==> #[trigger] friends@[j].character_id != character_id,
        decreases friends@.len() - i,
    {
        if friends[i].character_id == character_id {
            let f = friends.remove(i);
            return Some(f);
        }
        i = i + 1;
    }
    None
}

/// The list holds the character `character_id`.
pub open spec fn lists_friend(friends: Seq<Friend>, character_id: CharacterUniqueId) -> bool {
    exists|i: int| 0 <= i < friends.len() && #[trigger] friends[i].character_id == character_id
}

/// The list after adding a friend unless it holds that character already.
pub open spec fn with_friend(friends: Seq<Friend>, character_id: CharacterUniqueId, name: String) -> Seq<
    Friend,
> {
    if lists_friend(friends, character_id) {
        friends
    } else {
        friends.push(Friend { character_id, name })
    }
}

/// An accepted friend request: each of the two characters is added to the
/// other's list, unless already there.
pub fn accept_friend_request(
    responder_friends: &mut Vec<Friend>,
    requester_friends: &mut Vec<Friend>,
    responder_id: CharacterUniqueId,
    responder_name: String,
    requester_id: CharacterUniqueId,
    requester_name: String,
)
    ensures
        final(responder_friends)@ == with_friend(old(responder_friends)@, requester_id, requester_name),
        final(requester_friends)@ == with_friend(old(requester_friends)@, responder_id, responder_name),
{
    add_friend_once(responder_friends, requester_id, requester_name);
    add_friend_once(requester_friends, responder_id, responder_name);
}

/// After a request is accepted the two are each other's friends.
pub proof fn lemma_accepted_friends_are_mutual(
    responder_friends: Seq<Friend>,
    requester_friends: Seq<Friend>,
    responder_id: CharacterUniqueId,
    responder_name: String,
    requester_id: CharacterUniqueId,
    requester_name: String,
)
    ensures
        lists_friend(with_friend(responder_friends, requester_id, requester_name), requester_id),
        lists_friend(with_friend(requester_friends, responder_id, responder_name), responder_id),
{
    if !lists_friend(responder_friends, requester_id) {
        let after = responder_friends.push(Friend { character_id: requester_id, name: requester_name });
        assert(after[responder_friends.len() as int].character_id == requester_id);
    }
    if !lists_friend(requester_friends, responder_id) {
        let after = requester_friends.push(Friend { character_id: responder_id, name: responder_name });
        assert(after[requester_friends.len() as int].character_id == responder_id);
    }
}

/// A friend chat message is passed on only when it is not empty, the sender
/// lists the friend, the friend is online and lists the sender back
/// (`friend_list` is the online friend's list, `None` when they are not online).
pub fn may_friend_chat(
    text: &str,
    sender_friends: &Vec<Friend>,
    sender_id: CharacterUniqueId,
    friend_id: CharacterUniqueId,
    friend_list: Option<&Vec<Friend>>,
) -> (r: bool)
    ensures
        r == (text@.len() > 0 && lists_friend(sender_friends@, friend_id) && match friend_list {
            Some(l) => lists_friend(l@, sender_id),
            None => false,
        }),
{
    if text.unicode_len() == 0 {
        return false;
    }
    if !contains_friend(sender_friends, friend_id) {
        return false;
    }
    match friend_list {
        None => false,
        Some(l) => contains_friend(l, sender_id),
    }
}

/// What a friend request by name leads to.
#[derive(Debug, Clone, Copy, PartialEq, Eq, Structural)]
pub enum FriendAddDecision {
    /// Nothing is sent.
    Ignore,
    /// No one of that name is online.
    TargetNotFound,
    /// The request goes to this character.
    Request(Entity),
}

/// The answer to a friend request, checked in this order: an empty name, the
/// sender's own name, a sender listed among its own friends, or a name
/// already on the list is ignored; a name no one online has is reported; the
/// sender's own character is ignored; else the named character is asked.
pub open spec fn spec_friend_add(
    sender_name: Seq<char>,
    sender_id: CharacterUniqueId,
    sender_entity: Entity,
    friends: Seq<Friend>,
    target_name: Seq<char>,
    online: Option<OnlineFriend>,
) -> FriendAddDecision {
    if target_name.len() == 0 {
        FriendAddDecision::Ignore
    } else if ascii_lower(sender_name) == ascii_lower(target_name) || (exists|i: int|
        0 <= i < friends.len() && #[trigger] friends[i].character_id == sender_id) {
        FriendAddDecision::Ignore
    } else if exists|i: int| 0 <= i < friends.len() && ascii_lower(#[trigger] friends[i].name@) == ascii_lower(target_name) {
        FriendAddDecision::Ignore
    } else {
        match online {
            None => FriendAddDecision::TargetNotFound,
            Some(t) => if t.entity == sender_entity {
                FriendAddDecision::Ignore
            } else {
                FriendAddDecision::Request(t.entity)
            },
        }
    }
}

/// Answers a request to befriend `target_name` (already trimmed).
pub fn decide_friend_add(
    sender_name: &str,
    sender_id: CharacterUniqueId,
    sender_entity: Entity,
    friends: &Vec<Friend>,
    target_name: &str,
    online_friends: &OnlineFriends,
) -> (r: FriendAddDecision)
    ensures
        r == spec_friend_add(
            sender_name@,
            sender_id,
            sender_entity,
            friends@,
            target_name@,
            match online_friends.named(ascii_lower(target_name@)) {
                Some(id) => if online_friends.ids().contains_key(id.0) {
                    Some(online_friends.ids()[id.0])
                } else {
                    None
                },
                None => None,
            },
        ),
{
    if target_name.unicode_len() == 0 {
        return FriendAddDecision::Ignore;
    }
    if same_name(sender_name, target_name) || contains_friend(friends, sender_id) {
        return FriendAddDecision::Ignore;
    }
    let mut i: usize = 0;
    while i < friends.len()
        invariant
            i <= friends@.len(),
            forall|j: int| 0 <= j < i ==> ascii_lower(#[trigger] friends@[j].name@) != ascii_lower(target_name@),
        decreases friends@.len() - i,
    {
        if same_name(friends[i].name.as_str(), target_name) {
            return FriendAddDecision::Ignore;
        }
        i = i + 1;
    }
    match online_friends.get_by_name(target_name) {
        None => FriendAddDecision::TargetNotFound,
        Some(t) => if t.entity == sender_entity {
            FriendAddDecision::Ignore
        } else {
            FriendAddDecision::Request(t.entity)
        },
    }
}

} // verus!
