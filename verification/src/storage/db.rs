//! The stored records of users, chat rooms, messages and synchronised
//! directories, and what the server does with them.

use vstd::prelude::*;
use crate::json::{
    json_is_valid, json_number, json_number_text, json_u64_member, number_object, parses_as_json,
    plain_text, u64_member,
};
use crate::text::{chars_eq, chars_of};

verus! {

/// Why a storage request was refused.
#[derive(Debug)]
pub enum StorageError {
    AlreadyExist(String),
    LoginFailed,
    HasNoRooms,
    HasNoMessages,
    HasNoSavedDirectory,
}

/// A registered user.
#[derive(Debug)]
pub struct UserLogin {
    pub uuid: u64,
    pub firstname: String,
    pub lastname: String,
    pub username: String,
    pub password: String,
}

/// The first user, from position `i` on, called `name`.
pub open spec fn first_named_from(users: Seq<UserLogin>, name: Seq<char>, i: int) -> Option<int>
    decreases users.len() - i,
{
    if i < 0 || i >= users.len() {
        None
    } else if users[i].username@ == name {
        Some(i)
    } else {
        first_named_from(users, name, i + 1)
    }
}

/// The first user called `name`.
pub open spec fn first_named(users: Seq<UserLogin>, name: Seq<char>) -> Option<int> {
    first_named_from(users, name, 0)
}

/// Some user is called `name`.
pub open spec fn name_taken(users: Seq<UserLogin>, name: Seq<char>) -> bool {
    exists|i: int| 0 <= i < users.len() && (#[trigger] users[i]).username@ == name
}

/// What registering asks of the users list: refused with the name when
/// the name is taken; otherwise the new user joins at the end with its
/// position as its uuid.
pub open spec fn register_outcome(
    users: Seq<UserLogin>,
    firstname: String,
    lastname: String,
    username: String,
    password: String,
) -> (Seq<UserLogin>, Result<u64, StorageError>) {
    if name_taken(users, username@) {
        (users, Err(StorageError::AlreadyExist(username)))
    } else {
        (
            users.push(
                UserLogin { uuid: users.len() as u64, firstname, lastname, username, password },
            ),
            Ok(users.len() as u64),
        )
    }
}

/// What logging in as `name` with `password` gives: the uuid of the first
/// user with that name when the password is that user's, else a refusal;
/// a refusal too when the users could not be read.
pub open spec fn login_outcome(
    users: Option<Seq<UserLogin>>,
    name: Seq<char>,
    password: Seq<char>,
) -> Result<u64, StorageError> {
    match users {
        None => Err(StorageError::LoginFailed),
        Some(us) => match first_named(us, name) {
            Some(i) => if us[i].password@ == password {
                Ok(us[i].uuid)
            } else {
                Err(StorageError::LoginFailed)
            },
            None => Err(StorageError::LoginFailed),
        },
    }
}

/// Every user's uuid is its position in the list.
pub open spec fn uuids_are_positions(users: Seq<UserLogin>) -> bool {
    forall|i: int| 0 <= i < users.len() ==> (#[trigger] users[i]).uuid == i
}

fn same_text(a: &String, b: &str) -> (r: bool)
    ensures
        r == (a@ == b@),
{
    let x = chars_of(a.as_str());
    let y = chars_of(b);
    chars_eq(&x, &y)
}

impl UserLogin {
    /// Registers a user in `users` (the stored list; empty when the store
    /// is empty). Refuses a taken username; otherwise adds the user at the
    /// end, with its position as its uuid, and gives that uuid.
    pub fn create_user(
        users: &mut Vec<UserLogin>,
        firstname: String,
        lastname: String,
        username: String,
        password: String,
    ) -> (r: Result<u64, StorageError>)
        ensures
            (final(users)@, r) == register_outcome(old(users)@, firstname, lastname, username, password),
    {
        let mut i: usize = 0;
        while i < users.len()
            invariant
                i <= users@.len(),
                users@ == old(users)@,
                forall|j: int| 0 <= j < i ==> (#[trigger] users@[j]).username@ != username@,
            decreases users.len() - i,
        {
            if same_text(&users[i].username, username.as_str()) {
                assert(name_taken(users@, username@));
                return Err(StorageError::AlreadyExist(username.clone()));
            }
            i = i + 1;
        }
        let last: usize = users.len();
        let new_user = UserLogin { uuid: last as u64, firstname, lastname, username, password };
        users.push(new_user);
        Ok(last as u64)
    }

    /// The usernames of the stored users, in order (none when the store
    /// could not be read).
    pub fn retrieve_all_users(stored: Option<Vec<UserLogin>>) -> (r: Vec<String>)
        ensures
            match stored {
                None => r@.len() == 0,
                Some(users) => r@ == users@.map_values(|u: UserLogin| u.username),
            },
    {
        match stored {
            Some(users) => {
                let mut usernames: Vec<String> = Vec::new();
                let mut i: usize = 0;
                while i < users.len()
                    invariant
                        i <= users@.len(),
                        usernames@ == users@.take(i as int).map_values(|u: UserLogin| u.username),
                    decreases users.len() - i,
                {
                    usernames.push(users[i].username.clone());
                    i = i + 1;
                    assert(usernames@ =~= users@.take(i as int).map_values(|u: UserLogin| u.username));
                }
                assert(users@.take(users@.len() as int) =~= users@);
                usernames
            },
            None => Vec::new(),
        }
    }

    /// Logs in as `username`: the first user with that name gives its uuid
    /// when `password` is its password. Refused otherwise, and when the
    /// store could not be read.
    pub fn login_user(stored: &Option<Vec<UserLogin>>, username: &str, password: &str) -> (r: Result<
        u64,
        StorageError,
    >)
        ensures
            r == login_outcome(
                match stored {
                    Some(v) => Some(v@),
                    None => None,
                },
                username@,
                password@,
            ),
    {
        match stored {
            Some(users) => {
                let mut i: usize = 0;
                while i < users.len()
                    invariant
                        i <= users@.len(),
                        *stored == Some(*users),
                        first_named(users@, username@) == first_named_from(users@, username@, i as int),
                    decreases users.len() - i,
                {
                    if same_text(&users[i].username, username) {
                        if same_text(&users[i].password, password) {
                            return Ok(users[i].uuid);
                        } else {
                            return Err(StorageError::LoginFailed);
                        }
                    }
                    i = i + 1;
                }
                Err(StorageError::LoginFailed)
            },
            None => Err(StorageError::LoginFailed),
        }
    }
}


proof fn lemma_first_named_is_new(users: Seq<UserLogin>, x: UserLogin, i: int)
    requires
        0 <= i <= users.len(),
        !name_taken(users, x.username@),
    ensures
        first_named_from(users.push(x), x.username@, i) == Some(users.len() as int),
    decreases users.len() - i,
{
    let nu = users.push(x);
    if i < users.len() {
        assert(nu[i] == users[i]);
        assert(users[i].username@ != x.username@);
        lemma_first_named_is_new(users, x, i + 1);
    } else {
        assert(nu[i] == x);
    }
}

/// Registering a free username and then logging in with it and its
/// password gives the uuid that registering gave; any other password is
/// refused. A taken username is refused with that name and the users stay
/// as they were.
pub proof fn law_register_then_login(
    users: Seq<UserLogin>,
    firstname: String,
    lastname: String,
    username: String,
    password: String,
    other_password: Seq<char>,
)
    ensures
        ({
            let (after, res) = register_outcome(users, firstname, lastname, username, password);
            &&& name_taken(users, username@) ==> after == users && res == Err::<u64, StorageError>(
                StorageError::AlreadyExist(username),
            )
            &&& !name_taken(users, username@) ==> {
                &&& res is Ok
                &&& login_outcome(Some(after), username@, password@) == res
                &&& other_password != password@ ==> login_outcome(
                    Some(after),
                    username@,
                    other_password,
                ) == Err::<u64, StorageError>(StorageError::LoginFailed)
            }
        }),
{
    if !name_taken(users, username@) {
        let x = UserLogin { uuid: users.len() as u64, firstname, lastname, username, password };
        lemma_first_named_is_new(users, x, 0);
        assert(users.push(x)[users.len() as int] == x);
    }
}

/// Registering keeps every uuid equal to its user's position.
pub proof fn law_register_keeps_uuids(
    users: Seq<UserLogin>,
    firstname: String,
    lastname: String,
    username: String,
    password: String,
)
    requires
        uuids_are_positions(users),
        users.len() < u64::MAX,
    ensures
        uuids_are_positions(register_outcome(users, firstname, lastname, username, password).0),
{
    let after = register_outcome(users, firstname, lastname, username, password).0;
    assert forall|i: int| 0 <= i < after.len() implies (#[trigger] after[i]).uuid == i by {
        if i < users.len() {
            assert(after[i] == users[i]);
        }
    }
}


// ----------------------------------------------------------------------
// Chat rooms
// ----------------------------------------------------------------------

/// A chat room that a user belongs to: its name and its number.
#[derive(Debug)]
pub struct UserChatRoom {
    pub chat_room_name: String,
    pub chat_room_index: u64,
}

/// `name` is one of `others`.
pub open spec fn is_listed(others: Seq<Seq<char>>, name: Seq<char>) -> bool {
    exists|j: int| 0 <= j < others.len() && others[j] == name
}

/// The texts of a list of names.
pub open spec fn name_texts(others: Seq<&str>) -> Seq<Seq<char>> {
    others.map_values(|s: &str| s@)
}

/// The members of a new room: its creator, then, in the order of the
/// users, the uuid of every user whose name is among `others`.
pub open spec fn room_members(users: Seq<UserLogin>, my_uuid: u64, others: Seq<Seq<char>>) -> Seq<u64>
    decreases users.len(),
{
    if users.len() == 0 {
        seq![my_uuid]
    } else {
        let prev = room_members(users.drop_last(), my_uuid, others);
        if is_listed(others, users.last().username@) {
            prev.push(users.last().uuid)
        } else {
            prev
        }
    }
}

/// A user's rooms after joining `chat` (the stored rooms, or none when
/// they could not be read, followed by `chat`).
pub open spec fn joined_rooms(stored: Option<Seq<UserChatRoom>>, chat: UserChatRoom) -> Seq<UserChatRoom> {
    match stored {
        Some(v) => v.push(chat),
        None => seq![chat],
    }
}

/// The name and number of each room.
pub open spec fn room_pairs(rooms: Seq<UserChatRoom>) -> Seq<(String, u64)> {
    rooms.map_values(|c: UserChatRoom| (c.chat_room_name, c.chat_room_index))
}

/// The number of a new room and the counter stored after it, from the
/// stored counter (none when it could not be read): a stored counter is
/// raised by one, which is both the number and what is stored; without
/// one the room gets number 0 and 1 is stored.
pub open spec fn next_room(counter: Option<u64>) -> (u64, u64) {
    match counter {
        Some(v) => ((v + 1) as u64, (v + 1) as u64),
        None => (0, 1),
    }
}

fn is_listed_exec(others: &Vec<&str>, name: &String) -> (r: bool)
    ensures
        r == is_listed(name_texts(others@), name@),
{
    let mut j: usize = 0;
    while j < others.len()
        invariant
            j <= others@.len(),
            forall|k: int| 0 <= k < j ==> name_texts(others@)[k] != name@,
        decreases others.len() - j,
    {
        if same_text(name, others[j]) {
            assert(name_texts(others@)[j as int] == name@);
            return true;
        }
        j = j + 1;
    }
    false
}

impl UserChatRoom {
    /// The members and the record of a new room `chat_name` numbered
    /// `chat_room_index`, created by `my_uuid` with the users named in
    /// `other_usernames`.
    pub fn add_new_chat(
        chat_name: &str,
        my_uuid: u64,
        other_usernames: Vec<&str>,
        users: &Vec<UserLogin>,
        chat_room_index: u64,
    ) -> (r: (Vec<u64>, UserChatRoom))
        ensures
            r.0@ == room_members(users@, my_uuid, name_texts(other_usernames@)),
            r.1.chat_room_name@ == chat_name@,
            r.1.chat_room_index == chat_room_index,
    {
        let ghost others = name_texts(other_usernames@);
        let mut uuids: Vec<u64> = Vec::new();
        uuids.push(my_uuid);
        let mut i: usize = 0;
        assert(users@.take(0) =~= Seq::<UserLogin>::empty());
        while i < users.len()
            invariant
                i <= users@.len(),
                others == name_texts(other_usernames@),
                uuids@ == room_members(users@.take(i as int), my_uuid, others),
            decreases users.len() - i,
        {
            assert(users@.take(i + 1).drop_last() =~= users@.take(i as int));
            if is_listed_exec(&other_usernames, &users[i].username) {
                uuids.push(users[i].uuid);
            }
            i = i + 1;
        }
        assert(users@.take(users@.len() as int) =~= users@);
        let new_chat = UserChatRoom { chat_room_name: chat_name.to_owned(), chat_room_index };
        (uuids, new_chat)
    }

    /// A user's rooms after joining `chat`.
    pub fn with_new_chat(stored: Option<Vec<UserChatRoom>>, chat: UserChatRoom) -> (r: Vec<UserChatRoom>)
        ensures
            r@ == joined_rooms(
                match stored {
                    Some(v) => Some(v@),
                    None => None,
                },
                chat,
            ),
    {
        match stored {
            Some(mut v) => {
                v.push(chat);
                v
            },
            None => {
                let mut v = Vec::new();
                v.push(chat);
                v
            },
        }
    }

    /// The name and number of each of a user's rooms; refused when the
    /// user's rooms could not be read.
    pub fn retrieve_chat_rooms(stored: Option<Vec<UserChatRoom>>) -> (r: Result<Vec<(String, u64)>, StorageError>)
        ensures
            match stored {
                None => r matches Err(StorageError::HasNoRooms),
                Some(v) => r is Ok && (r->Ok_0)@ == room_pairs(v@),
            },
    {
        match stored {
            Some(v) => {
                let mut data: Vec<(String, u64)> = Vec::new();
                let mut i: usize = 0;
                while i < v.len()
                    invariant
                        i <= v@.len(),
                        data@ == room_pairs(v@.take(i as int)),
                    decreases v.len() - i,
                {
                    data.push((v[i].chat_room_name.clone(), v[i].chat_room_index));
                    i = i + 1;
                    assert(data@ =~= room_pairs(v@.take(i as int)));
                }
                assert(v@.take(v@.len() as int) =~= v@);
                Ok(data)
            },
            None => Err(StorageError::HasNoRooms),
        }
    }
}

/// Why the stored room counter cannot be used.
#[derive(Debug, Clone, Copy, PartialEq, Eq, Structural)]
pub enum CounterError {
    /// The counter file holds JSON without a `value` member that is a
    /// number fitting a `u64`.
    NoValue,
    /// The stored counter is `u64::MAX`: no further room number fits.
    Exhausted,
}

/// The text of the counter file that stores `n`: `{"value":n}`.
pub open spec fn counter_text_of(n: u64) -> Seq<char> {
    number_object("value"@, n)
}

/// The stored counter that the text of the counter file gives: none (a
/// fresh counter) when the text is not JSON, the `value` member when it is
/// a number that fits a `u64`, and an error otherwise.
pub open spec fn stored_counter(text: Seq<char>) -> Result<Option<u64>, CounterError> {
    if !parses_as_json(text) {
        Ok(None)
    } else {
        match json_u64_member(text, "value"@) {
            Some(v) => Ok(Some(v)),
            None => Err(CounterError::NoValue),
        }
    }
}

/// Reads the stored room counter from the text of the counter file; the
/// text that `counter_text(n)` writes reads back as `n`.
pub fn counter_from_text(text: &str) -> (r: Result<Option<u64>, CounterError>)
    ensures
        r == stored_counter(text@),
        forall|n: u64| text@ == #[trigger] counter_text_of(n) ==> r == Ok::<Option<u64>, CounterError>(Some(n)),
{
    proof {
        reveal_strlit("value");
        assert(plain_text("value"@));
    }
    if !json_is_valid(text) {
        return Ok(None);
    }
    match u64_member(text, "value") {
        Some(v) => Ok(Some(v)),
        None => Err(CounterError::NoValue),
    }
}

/// The text of the counter file that stores the counter `n`: the JSON
/// object `{"value":n}`.
pub fn counter_text(n: u64) -> (r: String)
    ensures
        r@ == json_number_text("value"@, n),
        r@ == counter_text_of(n),
{
    proof {
        reveal_strlit("value");
        assert(plain_text("value"@));
    }
    json_number("value", n)
}

/// What taking a room number does with the text of the counter file: the
/// number of the new room and the text to store after it; refused when the
/// text holds no usable counter or the counter is exhausted.
pub open spec fn room_from_text(text: Seq<char>) -> Result<(u64, Seq<char>), CounterError> {
    match stored_counter(text) {
        Ok(counter) => if counter == Some(u64::MAX) {
            Err(CounterError::Exhausted)
        } else {
            Ok((next_room(counter).0, counter_text_of(next_room(counter).1)))
        },
        Err(e) => Err(e),
    }
}

/// Takes the number of a new room from the text of the counter file, and
/// gives the text to store after it. A file that is not JSON gives room 0
/// and stores 1; a file that a previous call wrote, storing `v`, gives room
/// `v + 1` and stores `v + 1`. So successive calls, each reading what the
/// one before stored, give 0, 2, 3, 4, ...: every number larger than the
/// one before.
pub fn take_room_number(text: &str) -> (r: Result<(u64, String), CounterError>)
    ensures
        match r {
            Ok((k, t)) => room_from_text(text@) == Ok::<(u64, Seq<char>), CounterError>((k, t@)),
            Err(e) => room_from_text(text@) == Err::<(u64, Seq<char>), CounterError>(e),
        },
        !parses_as_json(text@) ==> (r matches Ok((k, t)) && k == 0 && t@ == counter_text_of(1)),
        forall|v: u64|
            #![trigger counter_text_of(v)]
            text@ == counter_text_of(v) && v < u64::MAX ==> (r matches Ok((k, t)) && k == v + 1
                && t@ == counter_text_of((v + 1) as u64)),
{
    match counter_from_text(text) {
        Ok(counter) => {
            if counter == Some(u64::MAX) {
                return Err(CounterError::Exhausted);
            }
            let (index, stored) = create_chat_room(counter);
            Ok((index, counter_text(stored)))
        },
        Err(e) => Err(e),
    }
}


/// The number of a new room and the counter to store after it.
pub fn create_chat_room(counter: Option<u64>) -> (r: (u64, u64))
    requires
        counter is Some ==> counter->0 < u64::MAX,
    ensures
        r == next_room(counter),
{
    match counter {
        Some(v) => {
            let index = v + 1;
            (index, index)
        },
        None => (0, 1),
    }
}

/// Joining a room and then listing the rooms gives the rooms listed before
/// (none when they could not be read) followed by the new room.
pub proof fn law_join_then_list(stored: Option<Seq<UserChatRoom>>, chat: UserChatRoom)
    ensures
        room_pairs(joined_rooms(stored, chat)) == room_pairs(
            match stored {
                Some(v) => v,
                None => Seq::<UserChatRoom>::empty(),
            },
        ).push((chat.chat_room_name, chat.chat_room_index)),
{
    let before = match stored {
        Some(v) => v,
        None => Seq::<UserChatRoom>::empty(),
    };
    assert(joined_rooms(stored, chat) =~= before.push(chat));
    assert(room_pairs(before.push(chat)) =~= room_pairs(before).push(
        (chat.chat_room_name, chat.chat_room_index),
    ));
}

/// The rooms a user lists: what was stored, or none when it could not be
/// read.
pub open spec fn listed_rooms(stored: Option<Seq<UserChatRoom>>) -> Seq<UserChatRoom> {
    match stored {
        Some(v) => v,
        None => Seq::<UserChatRoom>::empty(),
    }
}

/// The stored rooms of every user after `chat` is added to the rooms of
/// each of `members` in turn (a member listed twice gets it twice), where
/// `stored(u)` is what user `u`'s rooms were before.
pub open spec fn rooms_after_joins(
    stored: spec_fn(u64) -> Option<Seq<UserChatRoom>>,
    members: Seq<u64>,
    chat: UserChatRoom,
) -> spec_fn(u64) -> Option<Seq<UserChatRoom>>
    decreases members.len(),
{
    if members.len() == 0 {
        stored
    } else {
        let prev = rooms_after_joins(stored, members.drop_last(), chat);
        let m = members.last();
        |u: u64| if u == m { Some(joined_rooms(prev(u), chat)) } else { prev(u) }
    }
}

/// How many times `u` occurs in `s`.
pub open spec fn times_in(s: Seq<u64>, u: u64) -> nat
    decreases s.len(),
{
    if s.len() == 0 {
        0
    } else {
        times_in(s.drop_last(), u) + if s.last() == u { 1nat } else { 0nat }
    }
}

proof fn lemma_joins_append(
    stored: spec_fn(u64) -> Option<Seq<UserChatRoom>>,
    members: Seq<u64>,
    chat: UserChatRoom,
    u: u64,
)
    ensures
        room_pairs(listed_rooms(rooms_after_joins(stored, members, chat)(u))) == room_pairs(
            listed_rooms(stored(u)),
        ) + Seq::new(times_in(members, u), |i: int| (chat.chat_room_name, chat.chat_room_index)),
        times_in(members, u) > 0 ==> rooms_after_joins(stored, members, chat)(u) is Some,
        times_in(members, u) == 0 ==> rooms_after_joins(stored, members, chat)(u) == stored(u),
    decreases members.len(),
{
    let pair = (chat.chat_room_name, chat.chat_room_index);
    if members.len() == 0 {
        assert(room_pairs(listed_rooms(stored(u))) + Seq::new(0, |i: int| pair) =~= room_pairs(
            listed_rooms(stored(u)),
        ));
    } else {
        lemma_joins_append(stored, members.drop_last(), chat, u);
        let prev = rooms_after_joins(stored, members.drop_last(), chat);
        let k = times_in(members.drop_last(), u);
        if members.last() == u {
            law_join_then_list(prev(u), chat);
            assert(listed_rooms(Some(joined_rooms(prev(u), chat))) == joined_rooms(prev(u), chat));
            assert(room_pairs(listed_rooms(stored(u))) + Seq::new(k + 1, |i: int| pair) =~= (
            room_pairs(listed_rooms(stored(u))) + Seq::new(k, |i: int| pair)).push(pair));
        }
    }
}

proof fn lemma_times_in_push(s: Seq<u64>, x: u64, u: u64)
    ensures
        times_in(s.push(x), u) == times_in(s, u) + if x == u { 1nat } else { 0nat },
{
    assert(s.push(x).drop_last() =~= s);
}

/// The uuid of each listed user is among the members of a new room, and
/// so is its creator.
proof fn lemma_members_include(users: Seq<UserLogin>, my_uuid: u64, others: Seq<Seq<char>>)
    ensures
        times_in(room_members(users, my_uuid, others), my_uuid) >= 1,
        forall|i: int|
            0 <= i < users.len() && is_listed(others, #[trigger] users[i].username@) ==> times_in(
                room_members(users, my_uuid, others),
                users[i].uuid,
            ) >= 1,
    decreases users.len(),
{
    if users.len() == 0 {
        lemma_times_in_push(Seq::<u64>::empty(), my_uuid, my_uuid);
        assert(Seq::<u64>::empty().push(my_uuid) =~= seq![my_uuid]);
    } else {
        let prev_users = users.drop_last();
        lemma_members_include(prev_users, my_uuid, others);
        let prev = room_members(prev_users, my_uuid, others);
        let last = users.last();
        assert forall|v: u64| times_in(room_members(users, my_uuid, others), v) >= times_in(prev, v) by {
            lemma_times_in_push(prev, last.uuid, v);
        }
        assert(times_in(room_members(users, my_uuid, others), my_uuid) >= times_in(prev, my_uuid));
        assert forall|i: int|
            0 <= i < users.len() && is_listed(others, #[trigger] users[i].username@) implies times_in(
            room_members(users, my_uuid, others),
            users[i].uuid,
        ) >= 1 by {
            if i < users.len() - 1 {
                assert(users[i] == prev_users[i]);
                assert(times_in(room_members(users, my_uuid, others), users[i].uuid) >= times_in(prev, users[i].uuid));
            } else {
                lemma_times_in_push(prev, last.uuid, last.uuid);
            }
        }
    }
}

/// Creating a room adds it to the rooms listed by each of its members, once
/// for each time the member is among the members; the rooms of everyone
/// else stay as they were. The creator is a member, and so is every user
/// whose name is among `others`. (`stored(u)` is what user `u`'s rooms were
/// before, none when they could not be read; listing none gives no rooms.)
pub proof fn law_new_room_reaches_its_members(
    users: Seq<UserLogin>,
    my_uuid: u64,
    others: Seq<Seq<char>>,
    stored: spec_fn(u64) -> Option<Seq<UserChatRoom>>,
    chat: UserChatRoom,
    u: u64,
)
    ensures
        ({
            let members = room_members(users, my_uuid, others);
            let after = rooms_after_joins(stored, members, chat);
            &&& room_pairs(listed_rooms(after(u))) == room_pairs(listed_rooms(stored(u))) + Seq::new(
                times_in(members, u),
                |i: int| (chat.chat_room_name, chat.chat_room_index),
            )
            &&& times_in(members, u) > 0 ==> after(u) is Some
            &&& times_in(members, u) == 0 ==> after(u) == stored(u)
            &&& times_in(members, my_uuid) >= 1
            &&& forall|i: int|
                0 <= i < users.len() && is_listed(others, #[trigger] users[i].username@)
                    ==> times_in(members, users[i].uuid) >= 1
        }),
{
    lemma_joins_append(stored, room_members(users, my_uuid, others), chat, u);
    lemma_members_include(users, my_uuid, others);
}

/// Registering refuses a username exactly when a stored user has that very
/// username: with no such user, the new user is added at the end with its
/// position as uuid, and that uuid is given; otherwise the users stay and
/// the name is given back in the refusal.
pub proof fn law_register_refuses_only_taken_names(
    users: Seq<UserLogin>,
    firstname: String,
    lastname: String,
    username: String,
    password: String,
)
    ensures
        (forall|i: int| 0 <= i < users.len() ==> (#[trigger] users[i]).username@ != username@)
            ==> register_outcome(users, firstname, lastname, username, password) == (
            users.push(
                UserLogin { uuid: users.len() as u64, firstname, lastname, username, password },
            ),
            Ok::<u64, StorageError>(users.len() as u64),
        ),
        (exists|i: int| 0 <= i < users.len() && (#[trigger] users[i]).username@ == username@)
            ==> register_outcome(users, firstname, lastname, username, password) == (
            users,
            Err::<u64, StorageError>(StorageError::AlreadyExist(username)),
        ),
{
}

/// `u` is the uuid of a user whose username is exactly one of `others`.
pub open spec fn named_user_uuid(users: Seq<UserLogin>, others: Seq<Seq<char>>, u: u64) -> bool {
    exists|i: int, j: int|
        0 <= i < users.len() && 0 <= j < others.len() && #[trigger] users[i].uuid == u
            && #[trigger] others[j] == users[i].username@
}

/// The members of a new room are its creator, first, and then exactly the
/// users whose username is one of the requested names: every later member
/// is the uuid of such a user, and every such user is a member.
pub proof fn law_members_are_the_named_users(
    users: Seq<UserLogin>,
    my_uuid: u64,
    others: Seq<Seq<char>>,
)
    ensures
        room_members(users, my_uuid, others).len() >= 1,
        room_members(users, my_uuid, others)[0] == my_uuid,
        forall|k: int|
            1 <= k < room_members(users, my_uuid, others).len() ==> named_user_uuid(
                users,
                others,
                #[trigger] room_members(users, my_uuid, others)[k],
            ),
        forall|i: int, j: int|
            0 <= i < users.len() && 0 <= j < others.len() && #[trigger] others[j]
                == #[trigger] users[i].username@ ==> room_members(users, my_uuid, others).contains(
                users[i].uuid,
            ),
    decreases users.len(),
{
    let m = room_members(users, my_uuid, others);
    if users.len() == 0 {
        assert(m == seq![my_uuid]);
        assert(m.len() == 1);
    } else {
        let pu = users.drop_last();
        law_members_are_the_named_users(pu, my_uuid, others);
        assert(m.len() >= 1 && m[0] == my_uuid) by {
            if is_listed(others, users.last().username@) {
                assert(m == room_members(pu, my_uuid, others).push(users.last().uuid));
            }
        }
        let pm = room_members(pu, my_uuid, others);
        let last = users.last();
        assert forall|k: int| 1 <= k < m.len() implies named_user_uuid(users, others, #[trigger] m[k]) by {
            if k < pm.len() {
                assert(m[k] == pm[k]);
                assert(named_user_uuid(pu, others, pm[k]));
                let (i, j) = choose|i: int, j: int|
                    0 <= i < pu.len() && 0 <= j < others.len() && #[trigger] pu[i].uuid == pm[k]
                        && #[trigger] others[j] == pu[i].username@;
                assert(users[i] == pu[i]);
                assert(users[i].uuid == m[k]);
                assert(others[j] == users[i].username@);
            } else {
                if !is_listed(others, last.username@) {
                    assert(m == pm);
                }
                assert(is_listed(others, last.username@));
                assert(m == pm.push(last.uuid));
                let j = choose|j: int| 0 <= j < others.len() && others[j] == last.username@;
                assert(users[users.len() - 1] == last);
                assert(users[users.len() - 1].uuid == m[k]);
                assert(others[j] == users[users.len() - 1].username@);
            }
        }
        assert forall|i: int, j: int|
            0 <= i < users.len() && 0 <= j < others.len() && #[trigger] others[j]
                == #[trigger] users[i].username@ implies m.contains(users[i].uuid) by {
            if i < users.len() - 1 {
                assert(users[i] == pu[i]);
                assert(others[j] == pu[i].username@);
                let x = choose|x: int| 0 <= x < pm.len() && pm[x] == pu[i].uuid;
                assert(m[x] == pm[x]);
            } else {
                assert(is_listed(others, last.username@));
                assert(m[m.len() - 1] == last.uuid);
            }
        }
    }
}

/// The latest messages of a room from position `latest` on are exactly the
/// stored messages from that position, in order, with the number of all
/// stored messages; there are some exactly when `latest` is before the
/// end, and none when the messages could not be read.
pub proof fn law_latest_messages_are_the_tail(v: Seq<Message>, latest: int)
    requires
        0 <= latest <= v.len(),
    ensures
        latest_messages(Some(v), latest) is Some <==> latest < v.len(),
        match latest_messages(Some(v), latest) {
            Some((tail, n)) => {
                &&& n == v.len()
                &&& tail.len() == n - latest
                &&& forall|i: int| 0 <= i < tail.len() ==> tail[i] == v[latest + i]
            },
            None => true,
        },
        latest_messages(None, latest) is None,
{
}

/// Room numbers handed out one after another, with the counter kept in
/// between, grow: a room never gets the number of an earlier room.
pub proof fn law_room_numbers_grow(counter: Option<u64>)
    requires
        counter is Some ==> counter->0 < u64::MAX - 1,
    ensures
        next_room(Some(next_room(counter).1)).0 > next_room(counter).0,
        next_room(counter).0 <= next_room(counter).1,
{
}

// ----------------------------------------------------------------------
// Messages
// ----------------------------------------------------------------------

/// A message of a chat room and who sent it.
#[derive(Debug)]
pub struct Message {
    pub username: String,
    pub message: String,
}

/// The stored messages of a room, as a sequence when they could be read.
pub open spec fn stored_view(stored: Option<Vec<Message>>) -> Option<Seq<Message>> {
    match stored {
        Some(v) => Some(v@),
        None => None,
    }
}

/// A room's messages after `m` is sent (the stored ones, or none when they
/// could not be read, followed by `m`).
pub open spec fn added_messages(stored: Option<Seq<Message>>, m: Message) -> Seq<Message> {
    match stored {
        Some(v) => v.push(m),
        None => seq![m],
    }
}

/// What reading a room's messages from position `latest` gives: the
/// messages from there on and how many there are in all, when there is at
/// least one such message; nothing when there is none or the messages could
/// not be read.
pub open spec fn latest_messages(stored: Option<Seq<Message>>, latest: int) -> Option<(Seq<Message>, int)> {
    match stored {
        Some(v) => {
            let tail = v.subrange(latest, v.len() as int);
            if tail.len() > 0 {
                Some((tail, v.len() as int))
            } else {
                None
            }
        },
        None => None,
    }
}

impl Message {
    /// A room's messages after `username` sends `message`.
    pub fn add(stored: Option<Vec<Message>>, username: String, message: String) -> (r: Vec<Message>)
        ensures
            r@ == added_messages(stored_view(stored), Message { username, message }),
    {
        match stored {
            Some(mut msgs) => {
                let msg = Message { username, message };
                msgs.push(msg);
                msgs
            },
            None => {
                let mut msgs = Vec::new();
                msgs.push(Message { username, message });
                msgs
            },
        }
    }

    /// The messages of a room from position `latest_message_index` on, and
    /// how many messages the room has; refused when there are none from
    /// there or the messages could not be read.
    pub fn retrieve_latest(stored: Option<Vec<Message>>, latest_message_index: u64) -> (r: Result<
        (Vec<Message>, usize),
        StorageError,
    >)
        requires
            stored is Some ==> latest_message_index <= stored->0@.len(),
        ensures
            match latest_messages(stored_view(stored), latest_message_index as int) {
                Some((tail, n)) => r is Ok && (r->Ok_0).0@ == tail && (r->Ok_0).1 == n,
                None => r matches Err(StorageError::HasNoMessages),
            },
    {
        match stored {
            Some(mut msgs) => {
                let n: usize = msgs.len();
                let b = msgs.split_off(latest_message_index as usize);
                if b.len() > 0 {
                    Ok((b, n))
                } else {
                    Err(StorageError::HasNoMessages)
                }
            },
            None => Err(StorageError::HasNoMessages),
        }
    }
}

/// Reading a room from the number of messages it had before a message was
/// sent gives back exactly that message, and the new count.
pub proof fn law_send_then_read(stored: Option<Seq<Message>>, m: Message)
    ensures
        latest_messages(
            Some(added_messages(stored, m)),
            match stored {
                Some(v) => v.len() as int,
                None => 0,
            },
        ) == Some((
            seq![m],
            match stored {
                Some(v) => v.len() as int + 1,
                None => 1,
            },
        )),
{
    match stored {
        Some(v) => {
            assert(v.push(m).subrange(v.len() as int, v.len() as int + 1) =~= seq![m]);
        },
        None => {
            assert(seq![m].subrange(0, 1) =~= seq![m]);
        },
    }
}


// ----------------------------------------------------------------------
// Synchronised directories
// ----------------------------------------------------------------------

/// When a file was last changed.
#[derive(Debug, Clone, Copy, PartialEq, Eq, Structural)]
pub struct Date {
    pub year: u16,
    pub month: u8,
    pub day: u8,
    pub hour: u8,
    pub minute: u8,
    pub second: u8,
}

impl Date {
    /// Whether the two dates differ in any field.
    pub fn diff(&self, date: &Date) -> (r: bool)
        ensures
            r == (*self != *date),
    {
        let year_diff = self.year != date.year;
        let month_diff = self.month != date.month;
        let day_diff = self.day != date.day;
        let hour_diff = self.hour != date.hour;
        let minute_diff = self.minute != date.minute;
        let second_diff = self.second != date.second;
        if year_diff || month_diff || day_diff || hour_diff || minute_diff || second_diff {
            return true;
        }
        false
    }
}

/// A file of a synchronised directory: its name, size and last change.
#[derive(Debug)]
pub struct FileData {
    pub name: String,
    pub size: u64,
    pub last_modified: Date,
}

impl FileData {
    /// A copy of the file record.
    pub fn duplicate(&self) -> (r: Self)
        ensures
            r == *self,
    {
        FileData { name: self.name.clone(), size: self.size, last_modified: self.last_modified }
    }
}

/// A copy of a list of file records.
pub fn copy_files(files: &Vec<FileData>) -> (r: Vec<FileData>)
    ensures
        r@ == files@,
{
    let mut r: Vec<FileData> = Vec::new();
    let mut i: usize = 0;
    while i < files.len()
        invariant
            i <= files@.len(),
            r@ == files@.take(i as int),
        decreases files.len() - i,
    {
        r.push(files[i].duplicate());
        i = i + 1;
        assert(r@ =~= files@.take(i as int));
    }
    assert(files@.take(files@.len() as int) =~= files@);
    r
}

/// A synchronised directory: its name and path, its files and, when it
/// has a list of them, its subdirectories.
#[derive(Debug)]
pub struct Directory {
    pub name: String,
    pub path: String,
    pub files: Vec<FileData>,
    pub directories: Option<Vec<Directory>>,
}

/// A list of file records as a sequence, when there is one.
pub open spec fn opt_files(o: Option<Vec<FileData>>) -> Option<Seq<FileData>> {
    match o {
        Some(v) => Some(v@),
        None => None,
    }
}

/// `None` for an empty list of files, else the list.
pub open spec fn nonempty(s: Seq<FileData>) -> Option<Seq<FileData>> {
    if s.len() == 0 {
        None
    } else {
        Some(s)
    }
}

/// The first file, from position `i` on, called `name`.
pub open spec fn first_file_named_from(files: Seq<FileData>, name: Seq<char>, i: int) -> Option<int>
    decreases files.len() - i,
{
    if i < 0 || i >= files.len() {
        None
    } else if files[i].name@ == name {
        Some(i)
    } else {
        first_file_named_from(files, name, i + 1)
    }
}

/// The first file called `name`.
pub open spec fn first_file_named(files: Seq<FileData>, name: Seq<char>) -> Option<int> {
    first_file_named_from(files, name, 0)
}

/// The sent files that have no saved file of their name, in order.
pub open spec fn new_files(saved: Seq<FileData>, sent: Seq<FileData>) -> Seq<FileData>
    decreases sent.len(),
{
    if sent.len() == 0 {
        Seq::empty()
    } else {
        let p = new_files(saved, sent.drop_last());
        if first_file_named(saved, sent.last().name@) is None {
            p.push(sent.last())
        } else {
            p
        }
    }
}

/// For each sent file in order that has a saved file of its name, that
/// saved file (the first of the name) when its change date differs.
pub open spec fn changed_files(saved: Seq<FileData>, sent: Seq<FileData>) -> Seq<FileData>
    decreases sent.len(),
{
    if sent.len() == 0 {
        Seq::empty()
    } else {
        let p = changed_files(saved, sent.drop_last());
        match first_file_named(saved, sent.last().name@) {
            Some(j) => if saved[j].last_modified != sent.last().last_modified {
                p.push(saved[j])
            } else {
                p
            },
            None => p,
        }
    }
}

/// Saved file `j` is the first saved file of the name of some sent file.
pub open spec fn claimed(saved: Seq<FileData>, sent: Seq<FileData>, j: int) -> bool {
    exists|i: int| 0 <= i < sent.len() && first_file_named(saved, (#[trigger] sent[i]).name@) == Some(j)
}

/// The unclaimed saved files among the first `n`, in order.
pub open spec fn missing_upto(saved: Seq<FileData>, sent: Seq<FileData>, n: int) -> Seq<FileData>
    decreases n,
{
    if n <= 0 {
        Seq::empty()
    } else {
        let p = missing_upto(saved, sent, n - 1);
        if claimed(saved, sent, n - 1) {
            p
        } else {
            p.push(saved[n - 1])
        }
    }
}

/// The saved files that no sent file claims, in order.
pub open spec fn missing_files(saved: Seq<FileData>, sent: Seq<FileData>) -> Seq<FileData> {
    missing_upto(saved, sent, saved.len() as int)
}

/// What changed in the files of one directory: its path (none when nothing
/// changed), then the new, the missing and the changed files (each none
/// when empty).
pub open spec fn files_diff(saved: Directory, sent: Directory) -> (
    Option<String>,
    Option<Seq<FileData>>,
    Option<Seq<FileData>>,
    Option<Seq<FileData>>,
) {
    let n = nonempty(new_files(saved.files@, sent.files@));
    let m = nonempty(missing_files(saved.files@, sent.files@));
    let c = nonempty(changed_files(saved.files@, sent.files@));
    let path = if c is None && n is None && m is None {
        None
    } else {
        Some(saved.path)
    };
    (path, n, m, c)
}


/// The names of a directory and of all directories below it, the directory
/// first, then each subdirectory's tree in order.
pub open spec fn dir_names(d: Directory) -> Seq<String>
    decreases d,
{
    match d.directories {
        Some(v) => seq![d.name] + list_names(v@),
        None => seq![d.name],
    }
}

/// The names of the trees of a list of directories, in order.
pub open spec fn list_names(ds: Seq<Directory>) -> Seq<String>
    decreases ds,
{
    if ds.len() == 0 {
        Seq::empty()
    } else {
        list_names(ds.drop_last()) + dir_names(ds.last())
    }
}

/// The files of a directory's own level: none when it has no files.
pub open spec fn own_files(d: Directory) -> Option<Seq<FileData>> {
    if d.files@.len() > 0 {
        Some(d.files@)
    } else {
        None
    }
}

/// The files of each directory of a tree, in the order of `dir_names`.
pub open spec fn dir_files(d: Directory) -> Seq<Option<Seq<FileData>>>
    decreases d,
{
    match d.directories {
        Some(v) => seq![own_files(d)] + list_files(v@),
        None => seq![own_files(d)],
    }
}

/// The files of the trees of a list of directories, in order.
pub open spec fn list_files(ds: Seq<Directory>) -> Seq<Option<Seq<FileData>>>
    decreases ds,
{
    if ds.len() == 0 {
        Seq::empty()
    } else {
        list_files(ds.drop_last()) + dir_files(ds.last())
    }
}

/// A list of optional file lists as sequences.
pub open spec fn opt_files_seq(v: Seq<Option<Vec<FileData>>>) -> Seq<Option<Seq<FileData>>> {
    v.map_values(|o: Option<Vec<FileData>>| opt_files(o))
}

/// A tree has as many file entries as names.
pub proof fn lemma_tree_lengths(d: Directory)
    ensures
        dir_names(d).len() == dir_files(d).len(),
    decreases d,
{
    match d.directories {
        Some(v) => {
            lemma_list_lengths(v@);
        },
        None => {},
    }
}

/// A list of trees has as many file entries as names.
pub proof fn lemma_list_lengths(ds: Seq<Directory>)
    ensures
        list_names(ds).len() == list_files(ds).len(),
    decreases ds,
{
    if ds.len() > 0 {
        lemma_list_lengths(ds.drop_last());
        lemma_tree_lengths(ds.last());
    }
}


/// One line of a directory comparison: the path or name of a directory,
/// then its new, missing and changed files (each none when there are none).
pub type DirDiff = (String, Option<Vec<FileData>>, Option<Vec<FileData>>, Option<Vec<FileData>>);

/// A line of a directory comparison with its file lists as sequences.
pub type DirDiffView = (String, Option<Seq<FileData>>, Option<Seq<FileData>>, Option<Seq<FileData>>);

/// A line of a comparison as plain values.
pub open spec fn entry_view(e: DirDiff) -> DirDiffView {
    (e.0, opt_files(e.1), opt_files(e.2), opt_files(e.3))
}

/// The lines of a comparison as plain values.
pub open spec fn entries_view(v: Seq<DirDiff>) -> Seq<DirDiffView> {
    v.map_values(|e: DirDiff| entry_view(e))
}

/// The lines for a whole tree that only one side has: each directory of
/// the tree with its files as new files (`as_new`) or as missing files.
pub open spec fn tree_entries(d: Directory, as_new: bool) -> Seq<DirDiffView> {
    let names = dir_names(d);
    let files = dir_files(d);
    Seq::new(
        names.len(),
        |i: int|
            if as_new {
                (names[i], files[i], None::<Seq<FileData>>, None::<Seq<FileData>>)
            } else {
                (names[i], None::<Seq<FileData>>, files[i], None::<Seq<FileData>>)
            },
    )
}

/// The lines for a list of trees that only one side has, in order.
pub open spec fn trees_entries(ds: Seq<Directory>, as_new: bool) -> Seq<DirDiffView>
    decreases ds.len(),
{
    if ds.len() == 0 {
        Seq::empty()
    } else {
        trees_entries(ds.drop_last(), as_new) + tree_entries(ds.last(), as_new)
    }
}

/// Some directory of `ds` is called `name`.
pub open spec fn name_in(ds: Seq<Directory>, name: Seq<char>) -> bool {
    exists|k: int| 0 <= k < ds.len() && (#[trigger] ds[k]).name@ == name
}

/// The directories of `ds` whose names no directory of `others` has, in
/// order.
pub open spec fn unmatched(ds: Seq<Directory>, others: Seq<Directory>) -> Seq<Directory>
    decreases ds.len(),
{
    if ds.len() == 0 {
        Seq::empty()
    } else {
        let p = unmatched(ds.drop_last(), others);
        if name_in(others, ds.last().name@) {
            p
        } else {
            p.push(ds.last())
        }
    }
}

/// The comparison of a saved directory tree with the sent one: the line
/// for its own files when they changed; then, when only the sent side
/// lists subdirectories, all their trees as new; when only the saved side
/// does, all its trees as missing; when both do, the comparison of every
/// saved subdirectory with every sent subdirectory of the same name (saved
/// order, then sent order), then the sent trees with no saved namesake as
/// new, then the saved trees with no sent namesake as missing.
pub open spec fn dir_diff(saved: Directory, sent: Directory) -> Seq<DirDiffView>
    decreases saved, 0int,
{
    let fd = files_diff(saved, sent);
    let head = match fd.0 {
        Some(p) => seq![(p, fd.1, fd.2, fd.3)],
        None => Seq::empty(),
    };
    match saved.directories {
        None => match sent.directories {
            None => head,
            Some(t) => head + trees_entries(t@, true),
        },
        Some(sv) => match sent.directories {
            None => head + trees_entries(sv@, false),
            Some(t) => head + pairs_diff(sv@, t@) + trees_entries(unmatched(t@, sv@), true)
                + trees_entries(unmatched(sv@, t@), false),
        },
    }
}

/// The comparisons of each saved directory of `sv` with its sent
/// namesakes in `tv`.
pub open spec fn pairs_diff(sv: Seq<Directory>, tv: Seq<Directory>) -> Seq<DirDiffView>
    decreases sv, sv.len() as int,
{
    if sv.len() == 0 {
        Seq::empty()
    } else {
        pairs_diff(sv.drop_last(), tv) + row_diff(sv.last(), tv)
    }
}

/// The comparisons of the saved directory `s` with each of its sent
/// namesakes in `tv`, in order.
pub open spec fn row_diff(s: Directory, tv: Seq<Directory>) -> Seq<DirDiffView>
    decreases s, tv.len() as int,
{
    if tv.len() == 0 {
        Seq::empty()
    } else {
        row_diff(s, tv.drop_last()) + if s.name@ == tv.last().name@ {
            dir_diff(s, tv.last())
        } else {
            Seq::empty()
        }
    }
}


/// A copy of an optional list of file records.
fn copy_opt_files(o: &Option<Vec<FileData>>) -> (r: Option<Vec<FileData>>)
    ensures
        opt_files(r) == opt_files(*o),
{
    match o {
        Some(v) => Some(copy_files(v)),
        None => None,
    }
}

proof fn lemma_entries_push(v: Seq<DirDiff>, e: DirDiff)
    ensures
        entries_view(v.push(e)) == entries_view(v).push(entry_view(e)),
{
    assert(entries_view(v.push(e)) =~= entries_view(v).push(entry_view(e)));
}

proof fn lemma_entries_add(a: Seq<DirDiff>, b: Seq<DirDiff>)
    ensures
        entries_view(a + b) == entries_view(a) + entries_view(b),
{
    assert(entries_view(a + b) =~= entries_view(a) + entries_view(b));
}

/// Adds the lines for a tree that only one side has.
fn push_tree_entries(ret: &mut Vec<DirDiff>, d: &Directory, as_new: bool)
    ensures
        entries_view(final(ret)@) == entries_view(old(ret)@) + tree_entries(*d, as_new),
{
    let x = d.get_files_in_dir();
    proof {
        lemma_tree_lengths(*d);
    }
    let names = x.0;
    let files = x.1;
    let ghost base = entries_view(ret@);
    let ghost te = tree_entries(*d, as_new);
    let mut index: usize = 0;
    while index < names.len()
        invariant
            index <= names@.len(),
            names@ == dir_names(*d),
            opt_files_seq(files@) == dir_files(*d),
            names@.len() == files@.len(),
            te == tree_entries(*d, as_new),
            entries_view(ret@) == base + te.take(index as int),
        decreases names.len() - index,
    {
        assert(opt_files_seq(files@)[index as int] == opt_files(files@[index as int]));
        let f = copy_opt_files(&files[index]);
        let e: DirDiff = if as_new {
            (names[index].clone(), f, None, None)
        } else {
            (names[index].clone(), None, f, None)
        };
        let ghost prev = ret@;
        ret.push(e);
        proof {
            lemma_entries_push(prev, e);
            assert(te.take(index + 1) =~= te.take(index as int).push(te[index as int]));
        }
        index = index + 1;
    }
    assert(te.take(names@.len() as int) =~= te);
}

fn vec_or_none(v: Vec<FileData>) -> (r: Option<Vec<FileData>>)
    ensures
        opt_files(r) == nonempty(v@),
{
    if v.len() == 0 {
        None
    } else {
        Some(v)
    }
}

impl Directory {
    /// The names of the given files, when there are files.
    pub fn get_file_names(files: Option<Vec<FileData>>) -> (r: Option<Vec<String>>)
        ensures
            match files {
                Some(fs) => r is Some && (r->0)@ == fs@.map_values(|f: FileData| f.name),
                None => r is None,
            },
    {
        match files {
            Some(fs) => {
                let mut names: Vec<String> = Vec::new();
                let mut i: usize = 0;
                while i < fs.len()
                    invariant
                        i <= fs@.len(),
                        names@ == fs@.take(i as int).map_values(|f: FileData| f.name),
                    decreases fs.len() - i,
                {
                    names.push(fs[i].name.clone());
                    i = i + 1;
                    assert(names@ =~= fs@.take(i as int).map_values(|f: FileData| f.name));
                }
                assert(fs@.take(fs@.len() as int) =~= fs@);
                Some(names)
            },
            None => None,
        }
    }

    /// The names of this directory and all below it, with the files of
    /// each (none where a directory has no files).
    pub fn get_files_in_dir(&self) -> (r: (Vec<String>, Vec<Option<Vec<FileData>>>))
        ensures
            r.0@ == dir_names(*self),
            opt_files_seq(r.1@) == dir_files(*self),
        decreases self,
    {
        let mut name: Vec<String> = Vec::new();
        let mut files: Vec<Option<Vec<FileData>>> = Vec::new();
        name.push(self.name.clone());
        if self.files.len() > 0 {
            files.push(Some(copy_files(&self.files)));
        } else {
            files.push(None);
        }
        assert(opt_files_seq(files@) =~= seq![own_files(*self)]);
        match &self.directories {
            Some(dirs) => {
                let mut i: usize = 0;
                while i < dirs.len()
                    invariant
                        i <= dirs@.len(),
                        self.directories == Some(*dirs),
                        name@ == seq![self.name] + list_names(dirs@.take(i as int)),
                        opt_files_seq(files@) == seq![own_files(*self)] + list_files(dirs@.take(i as int)),
                    decreases dirs.len() - i,
                {
                    assert(dirs@.take(i + 1).drop_last() =~= dirs@.take(i as int));
                    assert(dirs@.take(i + 1).last() == dirs@[i as int]);
                    proof {
                        let ghost v = self.directories->0;
                        assert(decreases_to!(*self => self.directories));
                        assert(decreases_to!(self.directories => v));
                        assert(decreases_to!(v => v@));
                        assert(decreases_to!(v@ => v@[i as int]));
                        assert(decreases_to!(*self => dirs@[i as int]));
                    }
                    let d = dirs[i].get_files_in_dir();
                    let mut dn = d.0;
                    let mut df = d.1;
                    let ghost fprev = files@;
                    name.append(&mut dn);
                    files.append(&mut df);
                    assert(opt_files_seq(files@) =~= opt_files_seq(fprev) + opt_files_seq(d.1@));
                    i = i + 1;
                    assert(name@ =~= seq![self.name] + list_names(dirs@.take(i as int)));
                    assert(opt_files_seq(files@) =~= seq![own_files(*self)] + list_files(dirs@.take(i as int)));
                }
                assert(dirs@.take(dirs@.len() as int) =~= dirs@);
            },
            None => {},
        }
        (name, files)
    }

    /// Compares a saved directory tree with the sent one.
    pub fn difference_directory(saved_directory: &Directory, sent_directory: &Directory) -> (r: Vec<
        DirDiff,
    >)
        ensures
            entries_view(r@) == dir_diff(*saved_directory, *sent_directory),
        decreases saved_directory,
    {
        let mut ret: Vec<DirDiff> = Vec::new();
        let files = Self::difference_files(saved_directory, sent_directory);
        let (p, n, m, c) = files;
        match p {
            Some(path) => {
                ret.push((path, n, m, c));
            },
            None => {},
        }
        let ghost fd = files_diff(*saved_directory, *sent_directory);
        let ghost head = match fd.0 {
            Some(q) => seq![(q, fd.1, fd.2, fd.3)],
            None => Seq::<DirDiffView>::empty(),
        };
        assert(entries_view(ret@) =~= head);
        match &saved_directory.directories {
            None => match &sent_directory.directories {
                None => {
                    return ret;
                },
                Some(sd) => {
                    let mut e: usize = 0;
                    while e < sd.len()
                        invariant
                            e <= sd@.len(),
                            entries_view(ret@) == head + trees_entries(sd@.take(e as int), true),
                        decreases sd.len() - e,
                    {
                        assert(sd@.take(e + 1).drop_last() =~= sd@.take(e as int));
                        push_tree_entries(&mut ret, &sd[e], true);
                        e = e + 1;
                    }
                    assert(sd@.take(sd@.len() as int) =~= sd@);
                },
            },
            Some(vd) => match &sent_directory.directories {
                None => {
                    let mut e: usize = 0;
                    while e < vd.len()
                        invariant
                            e <= vd@.len(),
                            entries_view(ret@) == head + trees_entries(vd@.take(e as int), false),
                        decreases vd.len() - e,
                    {
                        assert(vd@.take(e + 1).drop_last() =~= vd@.take(e as int));
                        push_tree_entries(&mut ret, &vd[e], false);
                        e = e + 1;
                    }
                    assert(vd@.take(vd@.len() as int) =~= vd@);
                },
                Some(sd) => {
                    let mut sent_matched: Vec<bool> = Vec::new();
                    let mut t: usize = 0;
                    while t < sd.len()
                        invariant
                            t <= sd@.len(),
                            sent_matched@.len() == t,
                            forall|q: int| 0 <= q < t ==> !sent_matched@[q],
                        decreases sd.len() - t,
                    {
                        sent_matched.push(false);
                        t = t + 1;
                    }
                    let mut saved_matched: Vec<bool> = Vec::new();
                    let mut si: usize = 0;
                    while si < vd.len()
                        invariant
                            si <= vd@.len(),
                            saved_directory.directories == Some(*vd),
                            sent_matched@.len() == sd@.len(),
                            saved_matched@.len() == si,
                            forall|k: int| 0 <= k < si ==> (#[trigger] saved_matched@[k] <==> name_in(sd@, vd@[k].name@)),
                            forall|q: int| 0 <= q < sd@.len() ==> (#[trigger] sent_matched@[q] <==> exists|k: int|
                                0 <= k < si && (#[trigger] vd@[k]).name@ == sd@[q].name@),
                            entries_view(ret@) == head + pairs_diff(vd@.take(si as int), sd@),
                        decreases vd.len() - si,
                    {
                        let mut row_hit = false;
                        let mut ti: usize = 0;
                        let ghost base = entries_view(ret@);
                        while ti < sd.len()
                            invariant
                                si < vd@.len(),
                                ti <= sd@.len(),
                                saved_directory.directories == Some(*vd),
                                sent_matched@.len() == sd@.len(),
                                row_hit <==> exists|q: int| 0 <= q < ti && (#[trigger] sd@[q]).name@ == vd@[si as int].name@,
                                forall|q: int| 0 <= q < sd@.len() ==> (#[trigger] sent_matched@[q] <==> (exists|k: int|
                                    0 <= k < si && (#[trigger] vd@[k]).name@ == sd@[q].name@) || (q < ti && vd@[si as int].name@ == sd@[q].name@)),
                                entries_view(ret@) == base + row_diff(vd@[si as int], sd@.take(ti as int)),
                            decreases sd.len() - ti,
                        {
                            assert(sd@.take(ti + 1).drop_last() =~= sd@.take(ti as int));
                            assert(sd@.take(ti + 1).last() == sd@[ti as int]);
                            if vd[si].name == sd[ti].name {
                                row_hit = true;
                                sent_matched.set(ti, true);
                                proof {
                                    let ghost v = saved_directory.directories->0;
                                    assert(decreases_to!(*saved_directory => saved_directory.directories));
                                    assert(decreases_to!(saved_directory.directories => v));
                                    assert(decreases_to!(v => v@));
                                    assert(decreases_to!(v@ => v@[si as int]));
                                }
                                let mut d = Self::difference_directory(&vd[si], &sd[ti]);
                                let ghost prev = ret@;
                                let ghost dv = d@;
                                ret.append(&mut d);
                                proof {
                                    lemma_entries_add(prev, dv);
                                }
                            }
                            ti = ti + 1;
                        }
                        assert(sd@.take(sd@.len() as int) =~= sd@);
                        assert(vd@.take(si + 1).drop_last() =~= vd@.take(si as int));
                        assert(vd@.take(si + 1).last() == vd@[si as int]);
                        saved_matched.push(row_hit);
                        si = si + 1;
                    }
                    assert(vd@.take(vd@.len() as int) =~= vd@);
                    let ghost mid = entries_view(ret@);
                    let mut e: usize = 0;
                    while e < sd.len()
                        invariant
                            e <= sd@.len(),
                            sent_matched@.len() == sd@.len(),
                            forall|q: int| 0 <= q < sd@.len() ==> (#[trigger] sent_matched@[q] <==> name_in(vd@, sd@[q].name@)),
                            entries_view(ret@) == mid + trees_entries(unmatched(sd@.take(e as int), vd@), true),
                        decreases sd.len() - e,
                    {
                        assert(sd@.take(e + 1).drop_last() =~= sd@.take(e as int));
                        assert(sd@.take(e + 1).last() == sd@[e as int]);
                        if !sent_matched[e] {
                            push_tree_entries(&mut ret, &sd[e], true);
                            let ghost u = unmatched(sd@.take(e as int), vd@);
                            assert(u.push(sd@[e as int]).drop_last() =~= u);
                        }
                        e = e + 1;
                    }
                    assert(sd@.take(sd@.len() as int) =~= sd@);
                    let ghost mid2 = entries_view(ret@);
                    let mut e: usize = 0;
                    while e < vd.len()
                        invariant
                            e <= vd@.len(),
                            saved_matched@.len() == vd@.len(),
                            forall|k: int| 0 <= k < vd@.len() ==> (#[trigger] saved_matched@[k] <==> name_in(sd@, vd@[k].name@)),
                            entries_view(ret@) == mid2 + trees_entries(unmatched(vd@.take(e as int), sd@), false),
                        decreases vd.len() - e,
                    {
                        assert(vd@.take(e + 1).drop_last() =~= vd@.take(e as int));
                        assert(vd@.take(e + 1).last() == vd@[e as int]);
                        if !saved_matched[e] {
                            push_tree_entries(&mut ret, &vd[e], false);
                            let ghost u = unmatched(vd@.take(e as int), sd@);
                            assert(u.push(vd@[e as int]).drop_last() =~= u);
                        }
                        e = e + 1;
                    }
                    assert(vd@.take(vd@.len() as int) =~= vd@);
                },
            },
        }
        ret
    }

    /// Compares the saved directory tree of a user with the one the user
    /// sent.
    pub fn update_directory(saved: &Directory, sent: &Directory) -> (r: Vec<DirDiff>)
        ensures
            entries_view(r@) == dir_diff(*saved, *sent),
    {
        Self::difference_directory(saved, sent)
    }

    /// What changed between the saved and the sent files of a directory.
    pub fn difference_files(saved_directory: &Directory, sent_directory: &Directory) -> (r: (
        Option<String>,
        Option<Vec<FileData>>,
        Option<Vec<FileData>>,
        Option<Vec<FileData>>,
    ))
        ensures
            (r.0, opt_files(r.1), opt_files(r.2), opt_files(r.3)) == files_diff(
                *saved_directory,
                *sent_directory,
            ),
    {
        let saved = &saved_directory.files;
        let sent = &sent_directory.files;
        let mut claimed_flags: Vec<bool> = Vec::new();
        let mut j: usize = 0;
        while j < saved.len()
            invariant
                j <= saved@.len(),
                claimed_flags@.len() == j,
                forall|k: int| 0 <= k < j ==> !claimed_flags@[k],
            decreases saved.len() - j,
        {
            claimed_flags.push(false);
            j = j + 1;
        }
        let mut fresh: Vec<FileData> = Vec::new();
        let mut changed: Vec<FileData> = Vec::new();
        let mut i: usize = 0;
        while i < sent.len()
            invariant
                i <= sent@.len(),
                claimed_flags@.len() == saved@.len(),
                forall|k: int|
                    0 <= k < saved@.len() ==> (#[trigger] claimed_flags@[k] <==> exists|q: int|
                        0 <= q < i && first_file_named(saved@, (#[trigger] sent@[q]).name@) == Some(k)),
                fresh@ == new_files(saved@, sent@.take(i as int)),
                changed@ == changed_files(saved@, sent@.take(i as int)),
            decreases sent.len() - i,
        {
            let ghost before = sent@.take(i as int);
            assert(sent@.take(i + 1).drop_last() =~= before);
            assert(sent@.take(i + 1).last() == sent@[i as int]);
            let mut k: usize = 0;
            let mut found: Option<usize> = None;
            while k < saved.len()
                invariant
                    k <= saved@.len(),
                    i < sent@.len(),
                    found is None ==> first_file_named(saved@, sent@[i as int].name@)
                        == first_file_named_from(saved@, sent@[i as int].name@, k as int),
                    found is Some ==> first_file_named(saved@, sent@[i as int].name@) == Some(
                        found->0 as int,
                    ) && found->0 < saved@.len(),
                decreases saved.len() - k,
            {
                if found.is_none() && sent[i].name == saved[k].name {
                    found = Some(k);
                }
                k = k + 1;
            }
            match found {
                Some(m) => {
                    if saved[m].last_modified.diff(&sent[i].last_modified) {
                        changed.push(saved[m].duplicate());
                    }
                    claimed_flags.set(m, true);
                },
                None => {
                    fresh.push(sent[i].duplicate());
                },
            }
            assert forall|q: int| 0 <= q < saved@.len() implies (#[trigger] claimed_flags@[q] <==> exists|p: int|
                0 <= p < i + 1 && first_file_named(saved@, (#[trigger] sent@[p]).name@) == Some(q)) by {
                if claimed_flags@[q] && !(exists|p: int| 0 <= p < i && first_file_named(saved@, (#[trigger] sent@[p]).name@) == Some(q)) {
                    assert(first_file_named(saved@, sent@[i as int].name@) == Some(q));
                }
            }
            i = i + 1;
        }
        assert(sent@.take(sent@.len() as int) =~= sent@);
        let mut missing: Vec<FileData> = Vec::new();
        let mut j: usize = 0;
        while j < saved.len()
            invariant
                j <= saved@.len(),
                claimed_flags@.len() == saved@.len(),
                forall|k: int| 0 <= k < saved@.len() ==> (#[trigger] claimed_flags@[k] <==> claimed(saved@, sent@, k)),
                missing@ == missing_upto(saved@, sent@, j as int),
            decreases saved.len() - j,
        {
            if !claimed_flags[j] {
                missing.push(saved[j].duplicate());
            }
            j = j + 1;
        }
        let new_files_opt = vec_or_none(fresh);
        let missing_opt = vec_or_none(missing);
        let changed_opt = vec_or_none(changed);
        let path = if changed_opt.is_none() && new_files_opt.is_none() && missing_opt.is_none() {
            None
        } else {
            Some(saved_directory.path.clone())
        };
        (path, new_files_opt, missing_opt, changed_opt)
    }
}



// ----------------------------------------------------------------------
// Law: a directory compared with itself
// ----------------------------------------------------------------------

/// No two files of the list share a name.
pub open spec fn files_unique(fs: Seq<FileData>) -> bool {
    forall|i: int, j: int| 0 <= i < j < fs.len() ==> (#[trigger] fs[i]).name@ != (#[trigger] fs[j]).name@
}

/// No two directories of the list share a name.
pub open spec fn dirs_unique(ds: Seq<Directory>) -> bool {
    forall|i: int, j: int| 0 <= i < j < ds.len() ==> (#[trigger] ds[i]).name@ != (#[trigger] ds[j]).name@
}

/// Within every directory of the tree, file names differ and subdirectory
/// names differ.
pub open spec fn tree_unique(d: Directory) -> bool
    decreases d,
{
    files_unique(d.files@) && match d.directories {
        Some(v) => dirs_unique(v@) && list_unique(v@),
        None => true,
    }
}

/// Every tree of the list satisfies `tree_unique`.
pub open spec fn list_unique(ds: Seq<Directory>) -> bool
    decreases ds,
{
    if ds.len() == 0 {
        true
    } else {
        list_unique(ds.drop_last()) && tree_unique(ds.last())
    }
}

proof fn lemma_list_unique_at(ds: Seq<Directory>, i: int)
    requires
        list_unique(ds),
        0 <= i < ds.len(),
    ensures
        tree_unique(ds[i]),
    decreases ds.len(),
{
    if i < ds.len() - 1 {
        assert(ds.drop_last()[i] == ds[i]);
        lemma_list_unique_at(ds.drop_last(), i);
    }
}

proof fn lemma_first_file_is_self(s: Seq<FileData>, i: int, k: int)
    requires
        files_unique(s),
        0 <= k <= i < s.len(),
    ensures
        first_file_named_from(s, s[i].name@, k) == Some(i),
    decreases i - k,
{
    if k < i {
        assert(s[k].name@ != s[i].name@);
        lemma_first_file_is_self(s, i, k + 1);
    }
}

proof fn lemma_self_files(s: Seq<FileData>, n: int)
    requires
        files_unique(s),
        0 <= n <= s.len(),
    ensures
        new_files(s, s.take(n)) == Seq::<FileData>::empty(),
        changed_files(s, s.take(n)) == Seq::<FileData>::empty(),
    decreases n,
{
    if n > 0 {
        assert(s.take(n).drop_last() =~= s.take(n - 1));
        assert(s.take(n).last() == s[n - 1]);
        lemma_first_file_is_self(s, n - 1, 0);
        lemma_self_files(s, n - 1);
    }
}

proof fn lemma_self_missing(s: Seq<FileData>, n: int)
    requires
        files_unique(s),
        0 <= n <= s.len(),
    ensures
        missing_upto(s, s, n) == Seq::<FileData>::empty(),
    decreases n,
{
    if n > 0 {
        lemma_first_file_is_self(s, n - 1, 0);
        assert(claimed(s, s, n - 1));
        lemma_self_missing(s, n - 1);
    }
}

proof fn lemma_self_unmatched(v: Seq<Directory>, n: int)
    requires
        0 <= n <= v.len(),
    ensures
        unmatched(v.take(n), v) == Seq::<Directory>::empty(),
    decreases n,
{
    if n > 0 {
        assert(v.take(n).drop_last() =~= v.take(n - 1));
        assert(v.take(n).last() == v[n - 1]);
        assert(name_in(v, v[n - 1].name@));
        lemma_self_unmatched(v, n - 1);
    }
}

proof fn lemma_row_self(s: Directory, tv: Seq<Directory>, i: int, m: int)
    requires
        dirs_unique(tv),
        0 <= i < tv.len(),
        tv[i] == s,
        0 <= m <= tv.len(),
        dir_diff(s, s) == Seq::<DirDiffView>::empty(),
    ensures
        row_diff(s, tv.take(m)) == Seq::<DirDiffView>::empty(),
    decreases m,
{
    if m > 0 {
        assert(tv.take(m).drop_last() =~= tv.take(m - 1));
        assert(tv.take(m).last() == tv[m - 1]);
        if m - 1 != i {
            if m - 1 < i {
                assert(tv[m - 1].name@ != tv[i].name@);
            } else {
                assert(tv[i].name@ != tv[m - 1].name@);
            }
        }
        lemma_row_self(s, tv, i, m - 1);
    }
}

proof fn lemma_pairs_self(d: Directory, n: int)
    requires
        tree_unique(d),
        d.directories is Some,
        0 <= n <= d.directories->0@.len(),
    ensures
        pairs_diff(d.directories->0@.take(n), d.directories->0@) == Seq::<DirDiffView>::empty(),
    decreases d, 0int, n,
{
    let v = d.directories->0@;
    if n > 0 {
        assert(v.take(n).drop_last() =~= v.take(n - 1));
        assert(v.take(n).last() == v[n - 1]);
        lemma_pairs_self(d, n - 1);
        lemma_list_unique_at(v, n - 1);
        let w = d.directories->0;
        assert(decreases_to!(d => d.directories));
        assert(decreases_to!(d.directories => w));
        assert(decreases_to!(w => w@));
        assert(decreases_to!(w@ => w@[n - 1]));
        law_self_comparison_is_empty(v[n - 1]);
        lemma_row_self(v[n - 1], v, n - 1, v.len() as int);
        assert(v.take(v.len() as int) =~= v);
    }
}

/// `a` occurs in `b` as a run of consecutive lines.
pub open spec fn lines_within(a: Seq<DirDiffView>, b: Seq<DirDiffView>) -> bool {
    exists|k: int| 0 <= k && k + a.len() <= b.len() && #[trigger] b.subrange(k, k + a.len()) == a
}

proof fn lemma_within_self(a: Seq<DirDiffView>)
    ensures
        lines_within(a, a),
{
    assert(a.subrange(0int, 0int + a.len()) =~= a);
}

proof fn lemma_within_left(a: Seq<DirDiffView>, b: Seq<DirDiffView>, c: Seq<DirDiffView>)
    requires
        lines_within(a, b),
    ensures
        lines_within(a, b + c),
{
    let k = choose|k: int| 0 <= k && k + a.len() <= b.len() && #[trigger] b.subrange(k, k + a.len()) == a;
    assert((b + c).subrange(k, k + a.len()) =~= b.subrange(k, k + a.len()));
}

proof fn lemma_within_right(a: Seq<DirDiffView>, b: Seq<DirDiffView>, c: Seq<DirDiffView>)
    requires
        lines_within(a, c),
    ensures
        lines_within(a, b + c),
{
    let k = choose|k: int| 0 <= k && k + a.len() <= c.len() && #[trigger] c.subrange(k, k + a.len()) == a;
    assert((b + c).subrange(b.len() + k, b.len() + k + a.len()) =~= c.subrange(k, k + a.len()));
}

proof fn lemma_row_holds(s: Directory, tv: Seq<Directory>, j: int)
    requires
        0 <= j < tv.len(),
        s.name@ == tv[j].name@,
    ensures
        lines_within(dir_diff(s, tv[j]), row_diff(s, tv)),
    decreases tv.len(),
{
    let prev = tv.drop_last();
    if j == tv.len() - 1 {
        lemma_within_self(dir_diff(s, tv[j]));
        lemma_within_right(dir_diff(s, tv[j]), row_diff(s, prev), dir_diff(s, tv[j]));
    } else {
        assert(prev[j] == tv[j]);
        lemma_row_holds(s, prev, j);
        let extra = if s.name@ == tv.last().name@ {
            dir_diff(s, tv.last())
        } else {
            Seq::empty()
        };
        lemma_within_left(dir_diff(s, tv[j]), row_diff(s, prev), extra);
    }
}

proof fn lemma_pairs_hold(sv: Seq<Directory>, tv: Seq<Directory>, i: int, j: int)
    requires
        0 <= i < sv.len(),
        0 <= j < tv.len(),
        sv[i].name@ == tv[j].name@,
    ensures
        lines_within(dir_diff(sv[i], tv[j]), pairs_diff(sv, tv)),
    decreases sv.len(),
{
    let prev = sv.drop_last();
    if i == sv.len() - 1 {
        lemma_row_holds(sv[i], tv, j);
        lemma_within_right(dir_diff(sv[i], tv[j]), pairs_diff(prev, tv), row_diff(sv.last(), tv));
    } else {
        assert(prev[i] == sv[i]);
        lemma_pairs_hold(prev, tv, i, j);
        lemma_within_left(dir_diff(sv[i], tv[j]), pairs_diff(prev, tv), row_diff(sv.last(), tv));
    }
}

/// Comparing two trees compares every pair of subdirectories of the same
/// name: when the saved tree has a subdirectory `sv[i]` and the sent tree
/// one `tv[j]` with the same name, all the lines of their comparison occur,
/// in a row, among the lines of the trees' comparison; so a change inside a
/// common subdirectory (a file added, missing or modified there) is
/// reported.
pub proof fn law_common_subdirectories_are_compared(saved: Directory, sent: Directory, i: int, j: int)
    requires
        saved.directories is Some,
        sent.directories is Some,
        0 <= i < saved.directories->0@.len(),
        0 <= j < sent.directories->0@.len(),
        saved.directories->0@[i].name@ == sent.directories->0@[j].name@,
    ensures
        lines_within(
            dir_diff(saved.directories->0@[i], sent.directories->0@[j]),
            dir_diff(saved, sent),
        ),
{
    let sv = saved.directories->0@;
    let tv = sent.directories->0@;
    let a = dir_diff(sv[i], tv[j]);
    let fd = files_diff(saved, sent);
    let head = match fd.0 {
        Some(p) => seq![(p, fd.1, fd.2, fd.3)],
        None => Seq::empty(),
    };
    lemma_pairs_hold(sv, tv, i, j);
    lemma_within_right(a, head, pairs_diff(sv, tv));
    lemma_within_left(a, head + pairs_diff(sv, tv), trees_entries(unmatched(tv, sv), true));
    lemma_within_left(
        a,
        head + pairs_diff(sv, tv) + trees_entries(unmatched(tv, sv), true),
        trees_entries(unmatched(sv, tv), false),
    );
}

/// The first line of a comparison is the line of the directory's own files
/// when they changed: it names the saved path and lists the new, missing
/// and changed files.
pub proof fn law_changed_files_head_the_comparison(saved: Directory, sent: Directory)
    requires
        files_diff(saved, sent).0 is Some,
    ensures
        dir_diff(saved, sent).len() > 0,
        dir_diff(saved, sent)[0] == (
            saved.path,
            files_diff(saved, sent).1,
            files_diff(saved, sent).2,
            files_diff(saved, sent).3,
        ),
{
}

/// Comparing a directory tree with itself reports nothing, provided that
/// within each directory no two files and no two subdirectories share a
/// name.
pub proof fn law_self_comparison_is_empty(d: Directory)
    requires
        tree_unique(d),
    ensures
        dir_diff(d, d) == Seq::<DirDiffView>::empty(),
    decreases d, 1int, 0int,
{
    let s = d.files@;
    lemma_self_files(s, s.len() as int);
    lemma_self_missing(s, s.len() as int);
    assert(s.take(s.len() as int) =~= s);
    match d.directories {
        Some(w) => {
            let v = w@;
            lemma_pairs_self(d, v.len() as int);
            assert(v.take(v.len() as int) =~= v);
            lemma_self_unmatched(v, v.len() as int);
            assert(dir_diff(d, d) =~= Seq::<DirDiffView>::empty());
        },
        None => {},
    }
}

/// The names of the files of each list.
pub open spec fn names_of_lists(files: Seq<Vec<FileData>>) -> Seq<Seq<String>> {
    files.map_values(|fs: Vec<FileData>| fs@.map_values(|f: FileData| f.name))
}

/// The names of the files of each list.
pub fn get_names_of_files(files: &Vec<Vec<FileData>>) -> (r: Vec<Vec<String>>)
    ensures
        r@.len() == files@.len(),
        forall|i: int| 0 <= i < r@.len() ==> (#[trigger] r@[i])@ == names_of_lists(files@)[i],
{
    let mut r: Vec<Vec<String>> = Vec::new();
    let mut i: usize = 0;
    while i < files.len()
        invariant
            i <= files@.len(),
            r@.len() == i,
            forall|k: int| 0 <= k < i ==> (#[trigger] r@[k])@ == names_of_lists(files@)[k],
        decreases files.len() - i,
    {
        let fs = &files[i];
        let mut names: Vec<String> = Vec::new();
        let mut j: usize = 0;
        while j < fs.len()
            invariant
                j <= fs@.len(),
                names@ == fs@.take(j as int).map_values(|f: FileData| f.name),
            decreases fs.len() - j,
        {
            names.push(fs[j].name.clone());
            j = j + 1;
            assert(names@ =~= fs@.take(j as int).map_values(|f: FileData| f.name));
        }
        assert(fs@.take(fs@.len() as int) =~= fs@);
        r.push(names);
        i = i + 1;
    }
    r
}

/// The fields of a user as a client sends them to register.
#[derive(Debug)]
pub struct ResponseUser {
    pub firstname: String,
    pub lastname: String,
    pub username: String,
    pub password: String,
}

} // verus!
