//! The commands that a client sends in the JSON body of a POST or PUT
//! request, and the JSON replies that the server sends back.

use vstd::prelude::*;
use crate::http::{json_response, json_response_text, ok_code, ok_code_text, Request};
use crate::server::{file_name_for_request, served_file_name};
use crate::json::{
    json_list_member, json_member_text, json_messages, json_messages_text, json_names,
    json_names_text, json_object_text, json_pair, json_rooms, json_rooms_text,
    json_single_member, json_str_member, pair_object, plain_text, string_object, json_u64_member, list_member, member_text,
    message_pairs, opt_text, room_texts, str_member, u64_member,
};
use crate::storage::db::{Message, StorageError};
use crate::text::{chars_are, chars_of, contains, contains_str};

verus! {

/// A command of a request body, with the members it needs.
#[derive(Debug)]
pub enum Command {
    /// POST `login`.
    Login { username: String, password: String },
    /// POST `get-rooms`.
    GetRooms { uuid: u64 },
    /// POST `get-messages`.
    GetMessages { room_index: u64, message_index: u64 },
    /// PUT `register`.
    Register { firstname: String, lastname: String, username: String, password: String },
    /// PUT `create-room`.
    CreateRoom { my_uuid: u64, name: String, usernames: Vec<String> },
    /// PUT `add-message`.
    AddMessage { room_index: u64, username: String, message: String },
    /// PUT `file-sync`: the sent directory tree as JSON text.
    FileSync { uuid: u64, directory: String },
    /// A PUT request that names no known command: nothing is done.
    Other,
}

/// A command as plain values.
pub enum CommandView {
    Login { username: Seq<char>, password: Seq<char> },
    GetRooms { uuid: u64 },
    GetMessages { room_index: u64, message_index: u64 },
    Register { firstname: Seq<char>, lastname: Seq<char>, username: Seq<char>, password: Seq<char> },
    CreateRoom { my_uuid: u64, name: Seq<char>, usernames: Seq<Seq<char>> },
    AddMessage { room_index: u64, username: Seq<char>, message: Seq<char> },
    FileSync { uuid: u64, directory: Seq<char> },
    Other,
}

/// The texts of a list of strings.
pub open spec fn texts(v: Seq<String>) -> Seq<Seq<char>> {
    v.map_values(|s: String| s@)
}

/// A command as plain values.
pub open spec fn command_view(c: Command) -> CommandView {
    match c {
        Command::Login { username, password } => CommandView::Login {
            username: username@,
            password: password@,
        },
        Command::GetRooms { uuid } => CommandView::GetRooms { uuid },
        Command::GetMessages { room_index, message_index } => CommandView::GetMessages {
            room_index,
            message_index,
        },
        Command::Register { firstname, lastname, username, password } => CommandView::Register {
            firstname: firstname@,
            lastname: lastname@,
            username: username@,
            password: password@,
        },
        Command::CreateRoom { my_uuid, name, usernames } => CommandView::CreateRoom {
            my_uuid,
            name: name@,
            usernames: texts(usernames@),
        },
        Command::AddMessage { room_index, username, message } => CommandView::AddMessage {
            room_index,
            username: username@,
            message: message@,
        },
        Command::FileSync { uuid, directory } => CommandView::FileSync {
            uuid,
            directory: directory@,
        },
        Command::Other => CommandView::Other,
    }
}

/// The strings of a list, in order, leaving out what is not a string.
pub open spec fn strings_in(l: Seq<Option<Seq<char>>>) -> Seq<Seq<char>>
    decreases l.len(),
{
    if l.len() == 0 {
        Seq::empty()
    } else {
        let prev = strings_in(l.drop_last());
        match l.last() {
            Some(s) => prev.push(s),
            None => prev,
        }
    }
}

/// The POST command `req` of the body `body`: `login` with string
/// `username` and `password`, `get-rooms` with a number `uuid`,
/// `get-messages` with numbers `room_index` and `message_index`; none when
/// a member is missing or `req` names no POST command.
pub open spec fn post_command(req: Seq<char>, body: Seq<char>) -> Option<CommandView> {
    if req == "login"@ {
        match (json_str_member(body, "username"@), json_str_member(body, "password"@)) {
            (Some(u), Some(p)) => Some(CommandView::Login { username: u, password: p }),
            _ => None,
        }
    } else if req == "get-rooms"@ {
        match json_u64_member(body, "uuid"@) {
            Some(u) => Some(CommandView::GetRooms { uuid: u }),
            None => None,
        }
    } else if req == "get-messages"@ {
        match (json_u64_member(body, "room_index"@), json_u64_member(body, "message_index"@)) {
            (Some(r), Some(m)) => Some(CommandView::GetMessages { room_index: r, message_index: m }),
            _ => None,
        }
    } else {
        None
    }
}

/// The PUT command `req` of the body `body`: `register` with string
/// `firstname`, `lastname`, `username` and `password`; `create-room` with a
/// number `my_uuid`, a string `name` and an array `usernames` (its
/// strings); `add-message` with a number `room_index` and strings
/// `username` and `message`; `file-sync` with the text of `the-directory`
/// and a number `uuid`; none when a member is missing, and `Other` when
/// `req` names no PUT command.
pub open spec fn put_command(req: Seq<char>, body: Seq<char>) -> Option<CommandView> {
    if req == "register"@ {
        match (
            json_str_member(body, "firstname"@),
            json_str_member(body, "lastname"@),
            json_str_member(body, "username"@),
            json_str_member(body, "password"@),
        ) {
            (Some(f), Some(l), Some(u), Some(p)) => Some(
                CommandView::Register { firstname: f, lastname: l, username: u, password: p },
            ),
            _ => None,
        }
    } else if req == "create-room"@ {
        match (
            json_u64_member(body, "my_uuid"@),
            json_str_member(body, "name"@),
            json_list_member(body, "usernames"@),
        ) {
            (Some(m), Some(n), Some(l)) => Some(
                CommandView::CreateRoom { my_uuid: m, name: n, usernames: strings_in(l) },
            ),
            _ => None,
        }
    } else if req == "add-message"@ {
        match (
            json_u64_member(body, "room_index"@),
            json_str_member(body, "username"@),
            json_str_member(body, "message"@),
        ) {
            (Some(r), Some(u), Some(m)) => Some(
                CommandView::AddMessage { room_index: r, username: u, message: m },
            ),
            _ => None,
        }
    } else if req == "file-sync"@ {
        match (json_member_text(body, "the-directory"@), json_u64_member(body, "uuid"@)) {
            (Some(d), Some(u)) => Some(CommandView::FileSync { uuid: u, directory: d }),
            _ => None,
        }
    } else {
        Some(CommandView::Other)
    }
}

/// The command of a request with method `method` and body `body`: the
/// body's string member `request` names it, among the POST commands for a
/// POST and the PUT commands for a PUT. None when the body is not JSON,
/// has no string `request`, lacks a member the command needs, names no
/// POST command in a POST, or the method is neither POST nor PUT.
pub open spec fn command_of(method: Request, body: Seq<char>) -> Option<CommandView> {
    match method {
        Request::Post => match json_str_member(body, "request"@) {
            Some(req) => post_command(req, body),
            None => None,
        },
        Request::Put => match json_str_member(body, "request"@) {
            Some(req) => put_command(req, body),
            None => None,
        },
        _ => None,
    }
}

/// A command, when there is one, as plain values.
pub open spec fn opt_command_view(c: Option<Command>) -> Option<CommandView> {
    match c {
        Some(c) => Some(command_view(c)),
        None => None,
    }
}

fn strings_of(l: Vec<Option<String>>) -> (r: Vec<String>)
    ensures
        texts(r@) == strings_in(l@.map_values(|o: Option<String>| opt_text(o))),
{
    let ghost lv = l@.map_values(|o: Option<String>| opt_text(o));
    let mut out: Vec<String> = Vec::new();
    let mut rest = l;
    let n: usize = rest.len();
    let mut i: usize = 0;
    let ghost all = rest@;
    assert(lv.take(0) =~= Seq::<Option<Seq<char>>>::empty());
    assert(texts(out@) =~= Seq::<Seq<char>>::empty());
    while i < n
        invariant
            i <= n == all.len(),
            lv == all.map_values(|o: Option<String>| opt_text(o)),
            rest@ == all.subrange(i as int, n as int),
            texts(out@) == strings_in(lv.take(i as int)),
        decreases n - i,
    {
        let e = rest.remove(0);
        assert(e == all[i as int]);
        assert(rest@ =~= all.subrange(i + 1, n as int));
        assert(lv.take(i + 1).drop_last() =~= lv.take(i as int));
        assert(lv.take(i + 1).last() == opt_text(e));
        match e {
            Some(s) => {
                out.push(s);
                assert(texts(out@) =~= texts(out@.drop_last()).push(out@.last()@));
                assert(out@.drop_last() =~= out@.take(out@.len() - 1));
            },
            None => {},
        }
        i = i + 1;
    }
    assert(lv.take(n as int) =~= lv);
    out
}

fn post_command_of(req: &Vec<char>, body: &str) -> (r: Option<Command>)
    ensures
        opt_command_view(r) == post_command(req@, body@),
{
    if chars_are(req, "login") {
        match (str_member(body, "username"), str_member(body, "password")) {
            (Some(username), Some(password)) => Some(Command::Login { username, password }),
            _ => None,
        }
    } else if chars_are(req, "get-rooms") {
        match u64_member(body, "uuid") {
            Some(uuid) => Some(Command::GetRooms { uuid }),
            None => None,
        }
    } else if chars_are(req, "get-messages") {
        match (u64_member(body, "room_index"), u64_member(body, "message_index")) {
            (Some(room_index), Some(message_index)) => Some(
                Command::GetMessages { room_index, message_index },
            ),
            _ => None,
        }
    } else {
        None
    }
}

fn put_command_of(req: &Vec<char>, body: &str) -> (r: Option<Command>)
    ensures
        opt_command_view(r) == put_command(req@, body@),
{
    if chars_are(req, "register") {
        match (
            str_member(body, "firstname"),
            str_member(body, "lastname"),
            str_member(body, "username"),
            str_member(body, "password"),
        ) {
            (Some(firstname), Some(lastname), Some(username), Some(password)) => Some(
                Command::Register { firstname, lastname, username, password },
            ),
            _ => None,
        }
    } else if chars_are(req, "create-room") {
        match (u64_member(body, "my_uuid"), str_member(body, "name"), list_member(body, "usernames")) {
            (Some(my_uuid), Some(name), Some(l)) => {
                let usernames = strings_of(l);
                Some(Command::CreateRoom { my_uuid, name, usernames })
            },
            _ => None,
        }
    } else if chars_are(req, "add-message") {
        match (u64_member(body, "room_index"), str_member(body, "username"), str_member(body, "message")) {
            (Some(room_index), Some(username), Some(message)) => Some(
                Command::AddMessage { room_index, username, message },
            ),
            _ => None,
        }
    } else if chars_are(req, "file-sync") {
        match (member_text(body, "the-directory"), u64_member(body, "uuid")) {
            (Some(directory), Some(uuid)) => Some(Command::FileSync { uuid, directory }),
            _ => None,
        }
    } else {
        Some(Command::Other)
    }
}

/// Reads the command of a request with method `method` from its body.
pub fn read_command(method: Request, body: &str) -> (r: Option<Command>)
    ensures
        opt_command_view(r) == command_of(method, body@),
{
    match method {
        Request::Post => match str_member(body, "request") {
            Some(req) => post_command_of(&chars_of(req.as_str()), body),
            None => None,
        },
        Request::Put => match str_member(body, "request") {
            Some(req) => put_command_of(&chars_of(req.as_str()), body),
            None => None,
        },
        _ => None,
    }
}

// ----------------------------------------------------------------------
// Replies
// ----------------------------------------------------------------------

/// The reply to a `get_users.json` request: `{"usernames": [...]}`.
pub open spec fn users_reply_text(usernames: Seq<String>) -> Seq<char> {
    json_response_text(json_names_text("usernames"@, texts(usernames)))
}

/// The reply to a login: `{"request":"ok","uuid":uuid}`, or
/// `{"request":"failed"}`.
pub open spec fn login_reply_text(r: Result<u64, StorageError>) -> Seq<char> {
    json_response_text(
        match r {
            Ok(uuid) => pair_object("request"@, "ok"@, "uuid"@, uuid),
            Err(_) => string_object("request"@, "failed"@),
        },
    )
}

/// The reply to a registration: `{"request":"ok","uuid":uuid}`, or
/// `{"request":"username exist"}`.
pub open spec fn register_reply_text(r: Result<u64, StorageError>) -> Seq<char> {
    json_response_text(
        match r {
            Ok(uuid) => pair_object("request"@, "ok"@, "uuid"@, uuid),
            Err(_) => string_object("request"@, "username exist"@),
        },
    )
}

/// The reply to `get-rooms`: `{"chat_rooms": [[name, number]...],
/// "request": "ok"}`, or `{"request": "failed"}`.
pub open spec fn rooms_reply_text(r: Result<Vec<(String, u64)>, StorageError>) -> Seq<char> {
    json_response_text(
        match r {
            Ok(rooms) => json_rooms_text("request"@, "ok"@, "chat_rooms"@, room_texts(rooms@)),
            Err(_) => json_object_text("request"@, "failed"@),
        },
    )
}

/// The reply to `get-messages`: `{"messages": [{"username": ..., "message":
/// ...}...], "latest_index": count, "request": "ok"}`, or `{"request":
/// "failed"}`.
pub open spec fn messages_reply_text(r: Result<(Vec<Message>, usize), StorageError>) -> Seq<char> {
    json_response_text(
        match r {
            Ok((messages, count)) => json_messages_text(
                "request"@,
                "ok"@,
                "messages"@,
                "username"@,
                "message"@,
                message_pairs(messages@),
                "latest_index"@,
                count as u64,
            ),
            Err(_) => json_object_text("request"@, "failed"@),
        },
    )
}

/// The keys and values of the login and registration replies are plain
/// texts, and `request` comes before `uuid` in key order.
proof fn lemma_reply_texts_plain()
    ensures
        plain_text("request"@),
        plain_text("ok"@),
        plain_text("uuid"@),
        plain_text("failed"@),
        plain_text("username exist"@),
        "request"@.len() > 0 && "uuid"@.len() > 0 && "request"@[0] < "uuid"@[0],
{
    reveal_strlit("request");
    reveal_strlit("ok");
    reveal_strlit("uuid");
    reveal_strlit("failed");
    reveal_strlit("username exist");
}

/// The reply to a `get_users.json` request.
pub fn users_reply(usernames: &Vec<String>) -> (s: String)
    ensures
        s@ == users_reply_text(usernames@),
{
    json_response(json_names("usernames", usernames))
}

/// The reply to a login.
pub fn login_reply(r: &Result<u64, StorageError>) -> (s: String)
    ensures
        s@ == login_reply_text(*r),
{
    proof {
        lemma_reply_texts_plain();
    }
    match r {
        Ok(uuid) => json_response(json_pair("request", "ok", "uuid", *uuid)),
        Err(_) => json_response(json_single_member("request", "failed")),
    }
}

/// The reply to a registration.
pub fn register_reply(r: &Result<u64, StorageError>) -> (s: String)
    ensures
        s@ == register_reply_text(*r),
{
    proof {
        lemma_reply_texts_plain();
    }
    match r {
        Ok(uuid) => json_response(json_pair("request", "ok", "uuid", *uuid)),
        Err(_) => json_response(json_single_member("request", "username exist")),
    }
}

/// The reply to `get-rooms`.
pub fn rooms_reply(r: &Result<Vec<(String, u64)>, StorageError>) -> (s: String)
    ensures
        s@ == rooms_reply_text(*r),
{
    match r {
        Ok(rooms) => json_response(json_rooms("request", "ok", "chat_rooms", rooms)),
        Err(_) => json_response(json_single_member("request", "failed")),
    }
}

/// The reply to `get-messages`.
pub fn messages_reply(r: &Result<(Vec<Message>, usize), StorageError>) -> (s: String)
    ensures
        s@ == messages_reply_text(*r),
{
    match r {
        Ok((messages, count)) => json_response(
            json_messages(
                "request",
                "ok",
                "messages",
                "username",
                "message",
                messages,
                "latest_index",
                *count as u64,
            ),
        ),
        Err(_) => json_response(json_single_member("request", "failed")),
    }
}

// ----------------------------------------------------------------------
// Routing
// ----------------------------------------------------------------------

/// What the server does with a request.
#[derive(Debug)]
pub enum Route {
    /// A GET of the list of users.
    UserList,
    /// A GET of a file of the site, by its name.
    SiteFile(String),
    /// A command of a POST or PUT body.
    Run(Command),
    /// A POST or PUT whose body holds no command the server serves (the
    /// server stops on it).
    BadBody,
    /// A method the server does not serve.
    Unserved,
}

/// How a GET, POST or PUT request is handled: a GET whose path mentions
/// `get_users.json` lists the users and any other GET serves the file of
/// `served_file_name`; a POST or PUT runs the command of its body, and
/// fails without a body or a command; other methods are not served.
pub open spec fn route_is(r: Route, method: Request, path: Seq<char>, accepts_html: bool, body: Option<Seq<char>>) -> bool {
    match method {
        Request::Get => if contains(path, "get_users.json"@) {
            r is UserList
        } else {
            r matches Route::SiteFile(name) && name@ == served_file_name(path, accepts_html)
        },
        Request::Post | Request::Put => match body {
            Some(b) => match command_of(method, b) {
                Some(c) => r matches Route::Run(cmd) && command_view(cmd) == c,
                None => r is BadBody,
            },
            None => r is BadBody,
        },
        _ => r is Unserved,
    }
}

/// Decides how a request with method `method`, requested path `path` and
/// body `body` is handled.
pub fn route(method: Request, path: &str, accepts_html: bool, body: &Option<String>) -> (r: Route)
    ensures
        route_is(r, method, path@, accepts_html, opt_text(*body)),
{
    match method {
        Request::Get => {
            if contains_str(&chars_of(path), "get_users.json") {
                Route::UserList
            } else {
                Route::SiteFile(file_name_for_request(path, accepts_html))
            }
        },
        Request::Post | Request::Put => match body {
            Some(b) => match read_command(method, b.as_str()) {
                Some(c) => Route::Run(c),
                None => Route::BadBody,
            },
            None => Route::BadBody,
        },
        _ => Route::Unserved,
    }
}

/// What running a command gave, for the reply.
pub enum Outcome {
    /// The names of the users.
    Users(Vec<String>),
    /// The result of a login.
    Login(Result<u64, StorageError>),
    /// The result of a registration.
    Registered(Result<u64, StorageError>),
    /// The rooms of a user.
    Rooms(Result<Vec<(String, u64)>, StorageError>),
    /// The latest messages of a room.
    Messages(Result<(Vec<Message>, usize), StorageError>),
    /// A room was created or a message added.
    Done,
    /// A reply written already: a file of the site or a sync report.
    Text(String),
    /// Nothing was done.
    Nothing,
}

/// The reply to each outcome: the reply text of its kind, the
/// acknowledgement for `Done`, the text itself for `Text`, and none
/// for `Nothing`.
pub open spec fn reply_text_of(o: Outcome) -> Option<Seq<char>> {
    match o {
        Outcome::Users(u) => Some(users_reply_text(u@)),
        Outcome::Login(r) => Some(login_reply_text(r)),
        Outcome::Registered(r) => Some(register_reply_text(r)),
        Outcome::Rooms(r) => Some(rooms_reply_text(r)),
        Outcome::Messages(r) => Some(messages_reply_text(r)),
        Outcome::Done => Some(ok_code_text()),
        Outcome::Text(s) => Some(s@),
        Outcome::Nothing => None,
    }
}

/// The reply to what running a command gave.
pub fn reply_for(o: &Outcome) -> (r: Option<String>)
    ensures
        opt_text(r) == reply_text_of(*o),
{
    match o {
        Outcome::Users(u) => Some(users_reply(u)),
        Outcome::Login(r) => Some(login_reply(r)),
        Outcome::Registered(r) => Some(register_reply(r)),
        Outcome::Rooms(r) => Some(rooms_reply(r)),
        Outcome::Messages(r) => Some(messages_reply(r)),
        Outcome::Done => Some(ok_code()),
        Outcome::Text(s) => Some(s.clone()),
        Outcome::Nothing => None,
    }
}

} // verus!
