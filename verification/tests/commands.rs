use database::commands::{
    login_reply, messages_reply, read_command, register_reply, reply_for, rooms_reply, route,
    users_reply, Command, Outcome, Route,
};
use database::http::Request;
use database::storage::db::{
    counter_from_text, counter_text, take_room_number, CounterError, Message, StorageError,
};

fn reply(json: &str) -> String {
    format!(
        "HTTP/1.1 200 OK\r\nContent-Type: application/json\r\nContent-Length: {}\r\n\r\n{}",
        json.len(),
        json
    )
}

#[test]
fn login_command_is_read() {
    let c = read_command(Request::Post, "{\"request\":\"login\",\"username\":\"ann\",\"password\":\"pw\"}");
    match c {
        Some(Command::Login { username, password }) => {
            assert_eq!(username, "ann");
            assert_eq!(password, "pw");
        }
        other => panic!("unexpected {:?}", other),
    }
}

#[test]
fn numeric_post_commands_are_read() {
    match read_command(Request::Post, "{\"request\":\"get-rooms\",\"uuid\":7}") {
        Some(Command::GetRooms { uuid }) => assert_eq!(uuid, 7),
        other => panic!("unexpected {:?}", other),
    }
    match read_command(
        Request::Post,
        "{\"request\":\"get-messages\",\"room_index\":3,\"message_index\":1}",
    ) {
        Some(Command::GetMessages { room_index, message_index }) => {
            assert_eq!((room_index, message_index), (3, 1))
        }
        other => panic!("unexpected {:?}", other),
    }
}

#[test]
fn post_commands_without_their_members_are_refused() {
    assert!(read_command(Request::Post, "{\"request\":\"login\",\"username\":\"ann\"}").is_none());
    assert!(read_command(Request::Post, "{\"request\":\"get-rooms\",\"uuid\":-1}").is_none());
    assert!(read_command(Request::Post, "{\"request\":\"dance\"}").is_none());
    assert!(read_command(Request::Post, "not json").is_none());
    assert!(read_command(Request::Post, "{\"uuid\":1}").is_none());
    assert!(read_command(Request::Get, "{\"request\":\"login\",\"username\":\"a\",\"password\":\"b\"}").is_none());
}

#[test]
fn put_commands_are_read() {
    match read_command(
        Request::Put,
        "{\"request\":\"register\",\"firstname\":\"A\",\"lastname\":\"B\",\"username\":\"ab\",\"password\":\"p\"}",
    ) {
        Some(Command::Register { firstname, lastname, username, password }) => {
            assert_eq!((firstname.as_str(), lastname.as_str()), ("A", "B"));
            assert_eq!((username.as_str(), password.as_str()), ("ab", "p"));
        }
        other => panic!("unexpected {:?}", other),
    }
    match read_command(
        Request::Put,
        "{\"request\":\"create-room\",\"my_uuid\":2,\"name\":\"r\",\"usernames\":[\"x\",3,\"y\"]}",
    ) {
        Some(Command::CreateRoom { my_uuid, name, usernames }) => {
            assert_eq!(my_uuid, 2);
            assert_eq!(name, "r");
            assert_eq!(usernames, vec!["x".to_string(), "y".to_string()]);
        }
        other => panic!("unexpected {:?}", other),
    }
    match read_command(
        Request::Put,
        "{\"request\":\"add-message\",\"room_index\":4,\"username\":\"u\",\"message\":\"hi\"}",
    ) {
        Some(Command::AddMessage { room_index, username, message }) => {
            assert_eq!((room_index, username.as_str(), message.as_str()), (4, "u", "hi"))
        }
        other => panic!("unexpected {:?}", other),
    }
    match read_command(
        Request::Put,
        "{\"request\":\"file-sync\",\"uuid\":9,\"the-directory\":{\"name\":\"d\"}}",
    ) {
        Some(Command::FileSync { uuid, directory }) => {
            assert_eq!(uuid, 9);
            assert_eq!(directory, "{\"name\":\"d\"}");
        }
        other => panic!("unexpected {:?}", other),
    }
    match read_command(Request::Put, "{\"request\":\"file-sync\",\"uuid\":9}") {
        Some(Command::FileSync { directory, .. }) => assert_eq!(directory, "null"),
        other => panic!("unexpected {:?}", other),
    }
}

#[test]
fn unknown_put_commands_are_other() {
    assert!(matches!(read_command(Request::Put, "{\"request\":\"dance\"}"), Some(Command::Other)));
    assert!(read_command(Request::Put, "{\"request\":\"add-message\",\"room_index\":4}").is_none());
    assert!(read_command(Request::Put, "[1,2]").is_none());
}

#[test]
fn login_and_register_replies() {
    assert_eq!(login_reply(&Ok(5)), reply("{\"request\":\"ok\",\"uuid\":5}"));
    assert_eq!(login_reply(&Err(StorageError::LoginFailed)), reply("{\"request\":\"failed\"}"));
    assert_eq!(register_reply(&Ok(0)), reply("{\"request\":\"ok\",\"uuid\":0}"));
    assert_eq!(
        register_reply(&Err(StorageError::AlreadyExist("ab".to_string()))),
        reply("{\"request\":\"username exist\"}")
    );
}

#[test]
fn rooms_and_users_replies() {
    let rooms = vec![("a\"b".to_string(), 1), ("c".to_string(), 2)];
    assert_eq!(
        rooms_reply(&Ok(rooms)),
        reply("{\"chat_rooms\":[[\"a\\\"b\",1],[\"c\",2]],\"request\":\"ok\"}")
    );
    assert_eq!(rooms_reply(&Err(StorageError::HasNoRooms)), reply("{\"request\":\"failed\"}"));
    assert_eq!(
        users_reply(&vec!["ann".to_string(), "bo".to_string()]),
        reply("{\"usernames\":[\"ann\",\"bo\"]}")
    );
    assert_eq!(users_reply(&vec![]), reply("{\"usernames\":[]}"));
}

#[test]
fn messages_reply_lists_sender_and_text() {
    let messages = vec![Message { username: "bo".to_string(), message: "hi".to_string() }];
    assert_eq!(
        messages_reply(&Ok((messages, 3))),
        reply(
            "{\"latest_index\":3,\"messages\":[{\"message\":\"hi\",\"username\":\"bo\"}],\"request\":\"ok\"}"
        )
    );
    assert_eq!(
        messages_reply(&Err(StorageError::HasNoMessages)),
        reply("{\"request\":\"failed\"}")
    );
}

#[test]
fn room_counter_text() {
    assert_eq!(counter_from_text(""), Ok(None));
    assert_eq!(counter_from_text("{\"value\":4}"), Ok(Some(4)));
    assert_eq!(counter_from_text("{\"value\":\"4\"}"), Err(CounterError::NoValue));
    assert_eq!(counter_from_text("{}"), Err(CounterError::NoValue));
    assert_eq!(counter_text(5), "{\"value\":5}");
    assert_eq!(counter_from_text(&counter_text(5)), Ok(Some(5)));
}

#[test]
fn requests_are_routed() {
    assert!(matches!(route(Request::Get, "api/get_users.json", true, &None), Route::UserList));
    match route(Request::Get, "chat", true, &None) {
        Route::SiteFile(name) => assert_eq!(name, "chat.html"),
        other => panic!("unexpected {:?}", other),
    }
    match route(Request::Get, "", false, &None) {
        Route::SiteFile(name) => assert_eq!(name, "index.html"),
        other => panic!("unexpected {:?}", other),
    }
    let body = Some("{\"request\":\"get-rooms\",\"uuid\":2}".to_string());
    assert!(matches!(route(Request::Post, "", false, &body), Route::Run(Command::GetRooms { uuid: 2 })));
    assert!(matches!(route(Request::Post, "", false, &None), Route::BadBody));
    assert!(matches!(route(Request::Put, "", false, &Some("{}".to_string())), Route::BadBody));
    assert!(matches!(route(Request::Delete, "", false, &body), Route::Unserved));
}

#[test]
fn replies_follow_the_outcome() {
    assert_eq!(reply_for(&Outcome::Login(Ok(1))), Some(reply("{\"request\":\"ok\",\"uuid\":1}")));
    assert_eq!(
        reply_for(&Outcome::Done),
        Some("HTTP/1.1 200 OK\nContent-Length: 16\n\n{\"request\":\"ok\"}".to_string())
    );
    assert_eq!(reply_for(&Outcome::Text("abc".to_string())), Some("abc".to_string()));
    assert_eq!(reply_for(&Outcome::Nothing), None);
    assert_eq!(
        reply_for(&Outcome::Users(vec!["a".to_string()])),
        Some(reply("{\"usernames\":[\"a\"]}"))
    );
}

#[test]
fn room_numbers_count_up_through_the_counter_file() {
    let (k0, t0) = take_room_number("").unwrap();
    assert_eq!((k0, t0.as_str()), (0, "{\"value\":1}"));
    let (k1, t1) = take_room_number(&t0).unwrap();
    assert_eq!((k1, t1.as_str()), (2, "{\"value\":2}"));
    let (k2, _) = take_room_number(&t1).unwrap();
    assert_eq!(k2, 3);
    assert_eq!(take_room_number("{\"value\":18446744073709551615}").unwrap_err(), CounterError::Exhausted);
    assert_eq!(take_room_number("{\"v\":1}").unwrap_err(), CounterError::NoValue);
}
