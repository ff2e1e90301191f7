use database::http::{Accept, ConnectionType, Request};
use database::server::{
    content_type_for, file_name_for_request, file_response, request_readable, tokenize_response,
    RequestError,
};

fn lines(text: &str) -> Vec<String> {
    text.split("\n").map(|l| l.to_string()).collect()
}

#[test]
fn tokenize_reads_a_get_request() {
    let ls = lines(
        "GET /chat HTTP/1.1\r\nHost: 127.0.0.1:7878\r\nAccept: text/html,*/*;q=0.8\r\nConnection: keep-alive\r\n\r\n",
    );
    assert!(request_readable(&ls));
    let r = tokenize_response(ls).unwrap();
    assert_eq!(r.requested_file_path, "chat");
    assert_eq!(r.request, Request::Get);
    assert_eq!(r.host_ip.text(), "127.0.0.1:7878");
    assert!(r.accept_ext.html);
    assert!(!r.accept_ext.xml);
    assert_eq!(r.connection_type, ConnectionType::KeepAlive);
    assert_eq!(r.body, Some(String::new()));
    assert!(r.fetch_type.is_none());
    assert!(r.fetch_mode.is_none());
    assert!(r.fetch_site.is_none());
}

#[test]
fn tokenize_collects_the_body() {
    let ls = vec![
        "PUT /api HTTP/1.1".to_string(),
        "Host: 10.0.0.2:80".to_string(),
        "".to_string(),
        "{\"request\":".to_string(),
        "\"register\"}".to_string(),
    ];
    assert!(request_readable(&ls));
    let r = tokenize_response(ls).unwrap();
    assert_eq!(r.request, Request::Put);
    assert_eq!(r.requested_file_path, "api");
    assert_eq!(r.body, Some("{\"request\":\"register\"}".to_string()));
    assert_eq!(r.connection_type, ConnectionType::Error);
    assert_eq!(r.accept_ext, Accept::default());
}

#[test]
fn tokenize_without_headers_uses_defaults() {
    let ls = vec!["GET / HTTP/1.1".to_string()];
    let r = tokenize_response(ls).unwrap();
    assert_eq!(r.requested_file_path, "");
    assert_eq!(r.host_ip.text(), "0.0.0.0:0");
    assert_eq!(r.body, None);
}

#[test]
fn tokenize_ignores_lines_before_the_blank_line() {
    let ls = vec![
        "POST /x HTTP/1.1".to_string(),
        "X-Other: 1".to_string(),
        "".to_string(),
        "body".to_string(),
        "".to_string(),
        "more".to_string(),
    ];
    let r = tokenize_response(ls).unwrap();
    assert_eq!(r.body, Some("bodymore".to_string()));
}

#[test]
fn tokenize_refuses_an_empty_request() {
    assert!(matches!(tokenize_response(vec![]), Err(RequestError::EmptyRequest)));
    assert!(request_readable(&vec![]));
}

#[test]
fn request_readable_spots_what_cannot_be_read() {
    assert!(!request_readable(&vec!["FOO / HTTP/1.1".to_string()]));
    assert!(!request_readable(&vec!["GET /HTTP/1.1".to_string()]));
    assert!(!request_readable(&vec!["/ HTTP/1.1".to_string()]));
    assert!(!request_readable(&vec![
        "GET / HTTP/1.1".to_string(),
        "Host: 127.0.0.1".to_string()
    ]));
    assert!(!request_readable(&vec![
        "GET / HTTP/1.1".to_string(),
        "Connection: sometimes".to_string()
    ]));
    assert!(!request_readable(&vec!["GET / HTTP/1.1".to_string(), "Accept text".to_string()]));
}

#[test]
fn served_file_names() {
    assert_eq!(file_name_for_request("", true), "index.html");
    assert_eq!(file_name_for_request("", false), "index.html");
    assert_eq!(file_name_for_request("chat", true), "chat.html");
    assert_eq!(file_name_for_request("app.js", false), "app.js");
}

#[test]
fn content_types_go_by_the_first_dot() {
    assert_eq!(content_type_for("index.html"), "Content-Type: text/html");
    assert_eq!(content_type_for("app.js"), "Content-Type: application/javascript");
    assert_eq!(content_type_for("a.b.html"), "e");
    assert_eq!(content_type_for("README"), "e");
    assert_eq!(content_type_for("style.css"), "e");
}

#[test]
fn file_response_counts_bytes() {
    assert_eq!(
        file_response("Content-Type: text/html", &"<p>hé</p>".to_string()),
        "HTTP/1.1 200 OK\nContent-Type: text/html\nContent-Length: 10\n\n<p>hé</p>"
    );
}
