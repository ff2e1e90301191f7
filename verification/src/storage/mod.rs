//! The chat server's stored data: users, chat rooms and their messages, and
//! the synchronised directories of each user. Each operation takes what the
//! store held and gives what it is to hold and what the client is told.

use vstd::prelude::*;
use self::db::{
    added_messages, entry_view, latest_messages, login_outcome, register_outcome, room_members,
    name_texts, stored_view, DirDiff, DirDiffView, Directory, FileData, Message, StorageError, UserChatRoom,
    UserLogin,
};
use crate::text::append_chars;

pub mod db;
pub mod storage_save;

verus! {

/// Registers a user in `users` (the stored list; empty when the store is
/// empty).
pub fn register_new_user(
    users: &mut Vec<UserLogin>,
    firstname: &str,
    lastname: &str,
    username: &str,
    password: &str,
) -> (r: Result<u64, StorageError>)
    ensures
        exists|f: String, l: String, u: String, p: String|
            f@ == firstname@ && l@ == lastname@ && u@ == username@ && p@ == password@ && (
            final(users)@,
            r,
        ) == register_outcome(old(users)@, f, l, u, p),
{
    UserLogin::create_user(
        users,
        firstname.to_owned(),
        lastname.to_owned(),
        username.to_owned(),
        password.to_owned(),
    )
}

/// Logs in as `username` with `password` against the stored users (none
/// when they could not be read).
pub fn login_user(stored: &Option<Vec<UserLogin>>, username: &str, password: &str) -> (r: Result<
    u64,
    StorageError,
>)
    ensures
        r == login_outcome(
            match stored {
                Some(v) => Some(v@),
                None => None,
            },
            username@,
            password@,
        ),
{
    UserLogin::login_user(stored, username, password)
}

/// The usernames of the stored users (none when they could not be read).
pub fn retrive_all_usernames(stored: Option<Vec<UserLogin>>) -> (r: Vec<String>)
    ensures
        match stored {
            None => r@.len() == 0,
            Some(users) => r@ == users@.map_values(|u: UserLogin| u.username),
        },
{
    UserLogin::retrieve_all_users(stored)
}

/// A room's messages after `username` sends `message`.
pub fn send_message(stored: Option<Vec<Message>>, message: &str, username: String) -> (r: Vec<
    Message,
>)
    ensures
        exists|m: String|
            m@ == message@ && r@ == added_messages(
                stored_view(stored),
                Message { username, message: m },
            ),
{
    Message::add(stored, username, message.to_owned())
}

/// The members and the record of a new room `chat_name` numbered
/// `chat_room_index`, created by `my_uuid` with the users named in
/// `other_usernames`.
pub fn create_room(
    chat_name: &str,
    my_uuid: u64,
    other_usernames: Vec<&str>,
    users: &Vec<UserLogin>,
    chat_room_index: u64,
) -> (r: (Vec<u64>, UserChatRoom))
    ensures
        r.0@ == room_members(users@, my_uuid, name_texts(other_usernames@)),
        r.1.chat_room_name@ == chat_name@,
        r.1.chat_room_index == chat_room_index,
{
    UserChatRoom::add_new_chat(chat_name, my_uuid, other_usernames, users, chat_room_index)
}

/// The name and number of each of a user's rooms; refused when they could
/// not be read.
pub fn retrieve_all_rooms(stored: Option<Vec<UserChatRoom>>) -> (r: Result<
    Vec<(String, u64)>,
    StorageError,
>)
    ensures
        match stored {
            None => r matches Err(StorageError::HasNoRooms),
            Some(v) => r is Ok && (r->Ok_0)@ == db::room_pairs(v@),
        },
{
    UserChatRoom::retrieve_chat_rooms(stored)
}

/// The messages of a room from position `latest_message_index` on, and how
/// many it has.
pub fn retrieve_latest_messages(stored: Option<Vec<Message>>, latest_message_index: u64) -> (r: Result<
    (Vec<Message>, usize),
    StorageError,
>)
    requires
        stored is Some ==> latest_message_index <= stored->0@.len(),
    ensures
        match latest_messages(stored_view(stored), latest_message_index as int) {
            Some((tail, n)) => r is Ok && (r->Ok_0).0@ == tail && (r->Ok_0).1 == n,
            None => r matches Err(StorageError::HasNoMessages),
        },
{
    Message::retrieve_latest(stored, latest_message_index)
}

/// Nothing is recorded about a directory sync request.
pub fn directory_sync_info(uuid: u64, directory: &str) {
}

/// The names of a list of files, when there is one.
pub open spec fn opt_names(o: Option<Seq<FileData>>) -> Option<Seq<Seq<char>>> {
    match o {
        Some(fs) => Some(fs.map_values(|f: FileData| f.name@)),
        None => None,
    }
}

/// The names of a list of names, when there is one.
pub open spec fn opt_texts(o: Option<Vec<String>>) -> Option<Seq<Seq<char>>> {
    match o {
        Some(v) => Some(v@.map_values(|s: String| s@)),
        None => None,
    }
}

/// The pretty-printed JSON object, indented by `indent`, with the members
/// `path_key: path`, `added_key: added`, `removed_key: removed` and
/// `updated_key: updated` (each list a JSON array of strings, or `null`),
/// as `serde_json` writes it.
pub uninterp spec fn sync_entry_text(
    path_key: Seq<char>,
    path: Seq<char>,
    added_key: Seq<char>,
    added: Option<Seq<Seq<char>>>,
    removed_key: Seq<char>,
    removed: Option<Seq<Seq<char>>>,
    updated_key: Seq<char>,
    updated: Option<Seq<Seq<char>>>,
    indent: Seq<u8>,
) -> Seq<char>;

/// Writes, with `serde_json`, the object `{path_key: path, added_key:
/// added, removed_key: removed, updated_key: updated}` (each list a JSON
/// array of strings, or `null`) through `Serializer::with_formatter` and
/// `PrettyFormatter::with_indent(indent)`; the indent must be spaces, as
/// the formatter copies it into the text unchecked and the text is then
/// read as UTF-8. Claims: the text is
/// `sync_entry_text` of the arguments, and it is not empty (the writer
/// always writes the object's braces).
#[verifier::external_body]
fn sync_entry_json(
    path_key: &str,
    path: &String,
    added_key: &str,
    added: &Option<Vec<String>>,
    removed_key: &str,
    removed: &Option<Vec<String>>,
    updated_key: &str,
    updated: &Option<Vec<String>>,
    indent: &Vec<u8>,
) -> (r: String)
    requires
        forall|i: int| 0 <= i < indent@.len() ==> indent@[i] == 32u8,
    ensures
        r@ == sync_entry_text(
            path_key@,
            path@,
            added_key@,
            opt_texts(*added),
            removed_key@,
            opt_texts(*removed),
            updated_key@,
            opt_texts(*updated),
            indent@,
        ),
        r@.len() > 0,
{
    let mut map = serde_json::Map::new();
    map.insert(path_key.to_string(), serde_json::Value::String(path.clone()));
    map.insert(added_key.to_string(), serde_json::to_value(added).unwrap());
    map.insert(removed_key.to_string(), serde_json::to_value(removed).unwrap());
    map.insert(updated_key.to_string(), serde_json::to_value(updated).unwrap());
    let mut buf = Vec::new();
    let formatter = serde_json::ser::PrettyFormatter::with_indent(indent.as_slice());
    let mut ser = serde_json::Serializer::with_formatter(&mut buf, formatter);
    serde::Serialize::serialize(&serde_json::Value::Object(map), &mut ser).unwrap();
    String::from_utf8(buf).unwrap()
}

/// The indent of the sync report: four spaces.
pub open spec fn report_indent() -> Seq<u8> {
    seq![32u8, 32u8, 32u8, 32u8]
}

/// The text of one entry of the sync report.
pub open spec fn report_entry(e: DirDiffView) -> Seq<char> {
    sync_entry_text(
        "path"@,
        e.0@,
        "Added Files"@,
        opt_names(e.1),
        "Removed Files"@,
        opt_names(e.2),
        "Updated Files"@,
        opt_names(e.3),
        report_indent(),
    )
}

/// The report of a directory sync: for each changed directory, its JSON
/// object of path and file names, one after another.
pub open spec fn sync_report(entries: Seq<DirDiff>) -> Seq<char>
    decreases entries.len(),
{
    if entries.len() == 0 {
        Seq::empty()
    } else {
        sync_report(entries.drop_last()) + report_entry(entry_view(entries.last()))
    }
}

fn names_of(o: Option<Vec<FileData>>) -> (r: Option<Vec<String>>)
    ensures
        opt_texts(r) == opt_names(db::opt_files(o)),
{
    let ghost before = o;
    let r = Directory::get_file_names(o);
    proof {
        match before {
            Some(fs) => {
                assert((r->0)@.map_values(|s: String| s@) =~= fs@.map_values(|f: FileData| f.name@));
            },
            None => {},
        }
    }
    r
}

/// The report of a directory sync, from the comparison of the saved and
/// the sent directories; empty exactly when there is nothing to report.
pub fn update_directory_sync(dirs: Vec<DirDiff>) -> (r: String)
    ensures
        r@ == sync_report(dirs@),
        r@.len() == 0 <==> dirs@.len() == 0,
{
    let mut indent: Vec<u8> = Vec::new();
    indent.push(32u8);
    indent.push(32u8);
    indent.push(32u8);
    indent.push(32u8);
    assert(indent@ =~= report_indent());
    let ghost all = dirs@;
    let mut out = String::new();
    let mut rest = dirs;
    let mut k: usize = 0;
    let n: usize = rest.len();
    assert(all.take(0) =~= Seq::<DirDiff>::empty());
    while k < n
        invariant
            k <= n == all.len(),
            rest@ == all.subrange(k as int, n as int),
            out@ == sync_report(all.take(k as int)),
            out@.len() == 0 <==> k == 0,
            indent@ == report_indent(),
        decreases n - k,
    {
        let dir = rest.remove(0);
        assert(dir == all[k as int]);
        assert(rest@ =~= all.subrange(k + 1, n as int));
        let (dir_path, added, missing, updated) = dir;
        let added_files = names_of(added);
        let missing_files = names_of(missing);
        let updated_files = names_of(updated);
        let text = sync_entry_json(
            "path",
            &dir_path,
            "Added Files",
            &added_files,
            "Removed Files",
            &missing_files,
            "Updated Files",
            &updated_files,
            &indent,
        );
        let chars = crate::text::chars_of(text.as_str());
        append_chars(&mut out, &chars);
        assert(all.take(k + 1).drop_last() =~= all.take(k as int));
        assert(all.take(k + 1).last() == all[k as int]);
        k = k + 1;
    }
    assert(all.take(n as int) =~= all);
    out
}

} // verus!
