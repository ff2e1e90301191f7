use database::http::{
    json_response, ok_code, Accept, ConnectionType, FetchType, IpAdress, Request,
};

#[test]
fn request_names_each_method() {
    assert_eq!(Request::new("GET"), Request::Get);
    assert_eq!(Request::new("HEAD"), Request::Head);
    assert_eq!(Request::new("POST"), Request::Post);
    assert_eq!(Request::new("PUT"), Request::Put);
    assert_eq!(Request::new("DELETE"), Request::Delete);
    assert_eq!(Request::new("CONNECT"), Request::Connect);
    assert_eq!(Request::new("OPTIONS"), Request::Options);
    assert_eq!(Request::new("TRACE"), Request::Trace);
    assert_eq!(Request::new("PATCH"), Request::Patch);
}

#[test]
fn method_for_refuses_unknown_names() {
    assert_eq!(Request::method_for(&"get".chars().collect()), None);
    assert_eq!(Request::method_for(&"PUT".chars().collect()), Some(Request::Put));
}

#[test]
fn ip_from_str_reads_address_and_port() {
    let ip = IpAdress::from_str("127.0.0.1", "7878");
    assert_eq!(ip.text(), "127.0.0.1:7878");
}

#[test]
fn ip_from_str_fills_missing_octets_with_zero() {
    let ip = IpAdress::from_str("10.2", "+80");
    assert_eq!(ip.text(), "10.2.0.0:80");
}

#[test]
fn ip_from_str_accepts_leading_zeros() {
    let ip = IpAdress::from_str("010.0.0.001", "0080");
    assert_eq!(ip.text(), "10.0.0.1:80");
}

#[test]
fn ip_default_is_all_zero() {
    assert_eq!(IpAdress::default().text(), "0.0.0.0:0");
}

#[test]
fn ip_text_checks() {
    assert!(database::http::ip_text_valid(&"1.2.3.4".chars().collect()));
    assert!(!database::http::ip_text_valid(&"1.2.3.4.5".chars().collect()));
    assert!(!database::http::ip_text_valid(&"1.256".chars().collect()));
    assert!(!database::http::ip_text_valid(&"1..2".chars().collect()));
    assert!(database::http::port_text_valid(&"65535".chars().collect()));
    assert!(!database::http::port_text_valid(&"65536".chars().collect()));
    assert!(!database::http::port_text_valid(&"+".chars().collect()));
}

#[test]
fn accept_reads_a_browser_header() {
    let a = Accept::new(
        " text/html,application/xhtml+xml,application/xml;q=0.9,image/avif,image/webp,*/*;q=0.8",
    );
    assert_eq!(
        a,
        Accept { html: true, xhtml: true, xml: true, avif_image: true, webp_image: true }
    );
}

#[test]
fn accept_ignores_other_types() {
    assert_eq!(Accept::new("image/png, text/plain"), Accept::default());
    assert_eq!(
        Accept::new("image/webp , text/html"),
        Accept { html: true, xhtml: false, xml: false, avif_image: false, webp_image: true }
    );
}

#[test]
fn connection_type_is_trimmed() {
    assert_eq!(ConnectionType::new(" keep-alive\r"), ConnectionType::KeepAlive);
    assert_eq!(ConnectionType::new("close"), ConnectionType::Close);
    assert_eq!(ConnectionType::new("\tupgrade "), ConnectionType::Upgrade);
    assert_eq!(ConnectionType::connection_for(&"open".chars().collect()), None);
}

#[test]
fn fetch_type_names() {
    assert_eq!(FetchType::new("font"), FetchType::Font);
    assert_eq!(FetchType::new("worker"), FetchType::Worker);
    assert_eq!(FetchType::new("empty"), FetchType::Empty);
}

#[test]
fn json_response_counts_bytes() {
    let r = json_response("{\"a\":\"é\"}".to_string());
    assert_eq!(
        r,
        "HTTP/1.1 200 OK\r\nContent-Type: application/json\r\nContent-Length: 10\r\n\r\n{\"a\":\"é\"}"
    );
}

#[test]
fn json_response_of_empty_body() {
    assert_eq!(
        json_response(String::new()),
        "HTTP/1.1 200 OK\r\nContent-Type: application/json\r\nContent-Length: 0\r\n\r\n"
    );
}

#[test]
fn ok_code_carries_ok_request() {
    assert_eq!(ok_code(), "HTTP/1.1 200 OK\nContent-Length: 16\n\n{\"request\":\"ok\"}");
}
