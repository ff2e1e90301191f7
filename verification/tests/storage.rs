use database::server_api::Event;
use database::storage::db::{
    create_chat_room, get_names_of_files, Date, Directory, FileData, Message, StorageError,
    UserChatRoom, UserLogin,
};
use database::storage::{
    create_room, directory_sync_info, login_user, register_new_user, retrieve_all_rooms,
    retrieve_latest_messages, retrive_all_usernames, send_message, update_directory_sync,
};

#[test]
fn events_round_trip() {
    for e in [Event::Add, Event::Remove, Event::Update] {
        assert_eq!(Event::to_enum(Event::to_u8(&e)), Some(e));
    }
    assert_eq!(Event::to_u8(&Event::Update), 2);
    assert_eq!(Event::to_enum(3), None);
    assert_eq!(Event::buffer_size(), 1);
}

fn two_users() -> Vec<UserLogin> {
    let mut users = Vec::new();
    assert_eq!(register_new_user(&mut users, "Ann", "Lee", "ann", "pw").unwrap(), 0);
    assert_eq!(register_new_user(&mut users, "Bob", "Ray", "bob", "secret").unwrap(), 1);
    users
}

#[test]
fn register_gives_positions_as_uuids() {
    let users = two_users();
    assert_eq!(users.len(), 2);
    assert_eq!(users[1].uuid, 1);
    assert_eq!(users[1].firstname, "Bob");
    assert_eq!(users[1].lastname, "Ray");
}

#[test]
fn register_refuses_a_taken_name() {
    let mut users = two_users();
    let r = register_new_user(&mut users, "Other", "Ann", "ann", "x");
    assert!(matches!(r, Err(StorageError::AlreadyExist(ref n)) if n == "ann"));
    assert_eq!(users.len(), 2);
}

#[test]
fn login_after_register() {
    let users = Some(two_users());
    assert_eq!(login_user(&users, "ann", "pw").unwrap(), 0);
    assert_eq!(login_user(&users, "bob", "secret").unwrap(), 1);
    assert!(matches!(login_user(&users, "ann", "secret"), Err(StorageError::LoginFailed)));
    assert!(matches!(login_user(&users, "zed", "pw"), Err(StorageError::LoginFailed)));
    assert!(matches!(login_user(&None, "ann", "pw"), Err(StorageError::LoginFailed)));
}

#[test]
fn usernames_in_order() {
    assert_eq!(retrive_all_usernames(Some(two_users())), vec!["ann", "bob"]);
    assert!(retrive_all_usernames(None).is_empty());
}

#[test]
fn rooms_have_their_creator_first() {
    let users = two_users();
    let (members, room) = create_room("friends", 7, vec!["bob", "zed", "ann"], &users, 3);
    assert_eq!(members, vec![7, 0, 1]);
    assert_eq!(room.chat_room_name, "friends");
    assert_eq!(room.chat_room_index, 3);
    let (members, _) = create_room("solo", 4, vec![], &users, 5);
    assert_eq!(members, vec![4]);
}

#[test]
fn joined_rooms_are_listed() {
    let room = UserChatRoom { chat_room_name: "friends".to_string(), chat_room_index: 3 };
    let rooms = UserChatRoom::with_new_chat(None, room);
    let more = UserChatRoom { chat_room_name: "work".to_string(), chat_room_index: 4 };
    let rooms = UserChatRoom::with_new_chat(Some(rooms), more);
    let listed = retrieve_all_rooms(Some(rooms)).unwrap();
    assert_eq!(listed, vec![("friends".to_string(), 3), ("work".to_string(), 4)]);
    assert!(matches!(retrieve_all_rooms(None), Err(StorageError::HasNoRooms)));
}

#[test]
fn room_numbers_from_the_counter() {
    assert_eq!(create_chat_room(None), (0, 1));
    assert_eq!(create_chat_room(Some(1)), (2, 2));
    assert_eq!(create_chat_room(Some(41)), (42, 42));
}

#[test]
fn send_then_read_messages() {
    let msgs = send_message(None, "hi", "ann".to_string());
    let msgs = send_message(Some(msgs), "hello", "bob".to_string());
    let (tail, n) = retrieve_latest_messages(Some(msgs), 1).unwrap();
    assert_eq!(n, 2);
    assert_eq!(tail.len(), 1);
    assert_eq!(tail[0].username, "bob");
    assert_eq!(tail[0].message, "hello");
}

#[test]
fn reading_past_the_last_message_is_refused() {
    let msgs = Message::add(None, "ann".to_string(), "hi".to_string());
    assert!(matches!(
        retrieve_latest_messages(Some(msgs), 1),
        Err(StorageError::HasNoMessages)
    ));
    assert!(matches!(retrieve_latest_messages(None, 0), Err(StorageError::HasNoMessages)));
    let msgs = Message::add(None, "ann".to_string(), "hi".to_string());
    let (all, n) = Message::retrieve_latest(Some(msgs), 0).unwrap();
    assert_eq!((all.len(), n), (1, 1));
}

fn date(minute: u8) -> Date {
    Date { year: 2024, month: 5, day: 1, hour: 12, minute, second: 0 }
}

fn file(name: &str, minute: u8) -> FileData {
    FileData { name: name.to_string(), size: 10, last_modified: date(minute) }
}

fn dir(name: &str, files: Vec<FileData>, directories: Option<Vec<Directory>>) -> Directory {
    Directory { name: name.to_string(), path: format!("/{}", name), files, directories }
}

#[test]
fn dates_differ_in_any_field() {
    assert!(!date(1).diff(&date(1)));
    assert!(date(1).diff(&date(2)));
    let mut d = date(1);
    d.year = 2023;
    assert!(d.diff(&date(1)));
}

#[test]
fn file_names_of_a_list() {
    let names = Directory::get_file_names(Some(vec![file("a", 0), file("b", 0)]));
    assert_eq!(names, Some(vec!["a".to_string(), "b".to_string()]));
    assert_eq!(Directory::get_file_names(None), None);
    let lists = get_names_of_files(&vec![vec![file("a", 0)], vec![], vec![file("b", 0), file("c", 0)]]);
    assert_eq!(lists, vec![vec!["a"], vec![], vec!["b", "c"]]);
}

fn names(v: &Option<Vec<FileData>>) -> Option<Vec<String>> {
    v.as_ref().map(|fs| fs.iter().map(|f| f.name.clone()).collect())
}

#[test]
fn difference_of_files() {
    let saved = dir("root", vec![file("a.txt", 1), file("b.txt", 1)], None);
    let sent = dir("root", vec![file("a.txt", 2), file("n.txt", 1)], None);
    let (path, new, missing, changed) = Directory::difference_files(&saved, &sent);
    assert_eq!(path, Some("/root".to_string()));
    assert_eq!(names(&new), Some(vec!["n.txt".to_string()]));
    assert_eq!(names(&missing), Some(vec!["b.txt".to_string()]));
    assert_eq!(names(&changed), Some(vec!["a.txt".to_string()]));
    assert_eq!(changed.unwrap()[0].last_modified, date(1));
}

#[test]
fn difference_of_equal_files_is_nothing() {
    let saved = dir("root", vec![file("a.txt", 1)], None);
    let sent = dir("root", vec![file("a.txt", 1)], None);
    let (path, new, missing, changed) = Directory::difference_files(&saved, &sent);
    assert_eq!(path, None);
    assert!(new.is_none() && missing.is_none() && changed.is_none());
}

#[test]
fn files_in_a_tree_in_order() {
    let tree = dir(
        "root",
        vec![file("a", 0)],
        Some(vec![dir("x", vec![], Some(vec![dir("y", vec![file("b", 0)], None)])), dir("z", vec![], None)]),
    );
    let (ns, fs) = tree.get_files_in_dir();
    assert_eq!(ns, vec!["root", "x", "y", "z"]);
    let fs: Vec<_> = fs.iter().map(names).collect();
    assert_eq!(
        fs,
        vec![Some(vec!["a".to_string()]), None, Some(vec!["b".to_string()]), None]
    );
}

fn sample_trees() -> (Directory, Directory) {
    let saved = dir(
        "root",
        vec![file("a.txt", 1), file("b.txt", 1)],
        Some(vec![
            dir("docs", vec![file("c.txt", 1)], None),
            dir("old", vec![], None),
        ]),
    );
    let sent = dir(
        "root",
        vec![file("a.txt", 2), file("n.txt", 1)],
        Some(vec![
            dir("docs", vec![file("c.txt", 1)], None),
            dir("new", vec![file("x.txt", 1)], None),
        ]),
    );
    (saved, sent)
}

#[test]
fn difference_of_trees() {
    let (saved, sent) = sample_trees();
    let d = Directory::update_directory(&saved, &sent);
    let view: Vec<_> =
        d.iter().map(|e| (e.0.clone(), names(&e.1), names(&e.2), names(&e.3))).collect();
    assert_eq!(
        view,
        vec![
            (
                "/root".to_string(),
                Some(vec!["n.txt".to_string()]),
                Some(vec!["b.txt".to_string()]),
                Some(vec!["a.txt".to_string()])
            ),
            ("new".to_string(), Some(vec!["x.txt".to_string()]), None, None),
            ("old".to_string(), None, None, None),
        ]
    );
}

#[test]
fn difference_when_one_side_lists_no_subdirectories() {
    let saved = dir("root", vec![], None);
    let sent = dir("root", vec![], Some(vec![dir("new", vec![file("x", 0)], None)]));
    let d = Directory::difference_directory(&saved, &sent);
    assert_eq!(d.len(), 1);
    assert_eq!(d[0].0, "new");
    assert_eq!(names(&d[0].1), Some(vec!["x".to_string()]));
    let d = Directory::difference_directory(&sent, &saved);
    assert_eq!(d.len(), 1);
    assert_eq!(names(&d[0].2), Some(vec!["x".to_string()]));
    assert!(d[0].1.is_none());
}

#[test]
fn a_tree_compared_with_itself_reports_nothing() {
    let (saved, _) = sample_trees();
    assert!(Directory::difference_directory(&saved, &saved).is_empty());
}

#[test]
fn sync_report_in_pretty_json() {
    let (saved, sent) = sample_trees();
    let d = Directory::update_directory(&saved, &sent);
    let report = update_directory_sync(d);
    let expected = [
        "{\n    \"Added Files\": [\n        \"n.txt\"\n    ],\n    \"Removed Files\": [\n        \"b.txt\"\n    ],\n    \"Updated Files\": [\n        \"a.txt\"\n    ],\n    \"path\": \"/root\"\n}",
        "{\n    \"Added Files\": [\n        \"x.txt\"\n    ],\n    \"Removed Files\": null,\n    \"Updated Files\": null,\n    \"path\": \"new\"\n}",
        "{\n    \"Added Files\": null,\n    \"Removed Files\": null,\n    \"Updated Files\": null,\n    \"path\": \"old\"\n}",
    ]
    .join("");
    assert_eq!(report, expected);
    assert_eq!(update_directory_sync(vec![]), "");
    directory_sync_info(1, "{}");
}

#[test]
fn a_new_room_is_listed_by_each_member() {
    let users = two_users();
    let (members, room) = create_room("club", 0, vec!["ann", "bob"], &users, 6);
    assert_eq!(members, vec![0, 0, 1]);
    let mut stored: Vec<Option<Vec<UserChatRoom>>> = vec![
        Some(vec![UserChatRoom { chat_room_name: "old".to_string(), chat_room_index: 1 }]),
        None,
    ];
    for m in members {
        let copy = UserChatRoom {
            chat_room_name: room.chat_room_name.clone(),
            chat_room_index: room.chat_room_index,
        };
        let before = stored[m as usize].take();
        stored[m as usize] = Some(UserChatRoom::with_new_chat(before, copy));
    }
    assert_eq!(
        retrieve_all_rooms(stored[0].take()).unwrap(),
        vec![("old".to_string(), 1), ("club".to_string(), 6), ("club".to_string(), 6)]
    );
    assert_eq!(retrieve_all_rooms(stored[1].take()).unwrap(), vec![("club".to_string(), 6)]);
}
