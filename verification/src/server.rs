//! Reading the head of an HTTP request into a [`Response`], and the texts
//! that the server sends back for a file request.

use vstd::prelude::*;
use crate::http::{
    accept_of, connection_of, ip_octets, ip_text_valid, method_of, port_text_valid, valid_ip_text,
    Accept,
    ConnectionType, IpAdress, Request, Response,
};
use crate::text::{
    append_chars, append_str, chars_are, byte_len, byte_len_of, chars_of, contains, contains_str, decimal,
    find, find_char, matches_at, find_chars, lemma_contains_char, lemma_find_from_found, parse_u16,
    push_decimal, slice_chars, string_of, trim_chars, trimmed,
};

verus! {

/// Why a request head could not be read.
#[derive(Debug, Clone, Copy, PartialEq, Eq, Structural)]
pub enum RequestError {
    /// The request has no lines at all.
    EmptyRequest,
}

/// The texts of the lines of a request.
pub open spec fn line_texts(lines: Seq<String>) -> Seq<Seq<char>> {
    lines.map_values(|l: String| l@)
}

/// Where the first `/` of the request line is.
pub open spec fn slash_at(rl: Seq<char>) -> int {
    find(rl, seq!['/'])->0
}

/// Where the first `HTTP/` of the request line is.
pub open spec fn version_at(rl: Seq<char>) -> int {
    find(rl, "HTTP/"@)->0
}

/// A one-byte (ASCII) character.
pub open spec fn is_ascii_char(c: char) -> bool {
    (c as u32) < 128
}

/// The request line can be cut into method and path: it has a `/` with an
/// ASCII character before it, then later an `HTTP/` with an ASCII character
/// before it, at least one character after the `/`, and its method part
/// names a method.
pub open spec fn request_line_ok(rl: Seq<char>) -> bool {
    &&& find(rl, seq!['/']) is Some
    &&& find(rl, "HTTP/"@) is Some
    &&& slash_at(rl) >= 1
    &&& is_ascii_char(rl[slash_at(rl) - 1])
    &&& slash_at(rl) + 2 <= version_at(rl)
    &&& is_ascii_char(rl[version_at(rl) - 1])
    &&& method_of(trimmed(rl.subrange(0, slash_at(rl) - 1))) is Some
}

/// The method text of the request line.
pub open spec fn method_part(rl: Seq<char>) -> Seq<char> {
    trimmed(rl.subrange(0, slash_at(rl) - 1))
}

/// The requested path of the request line.
pub open spec fn path_part(rl: Seq<char>) -> Seq<char> {
    trimmed(rl.subrange(slash_at(rl) + 1, version_at(rl) - 1))
}

/// Where the first `:` of a line is.
pub open spec fn colon_at(l: Seq<char>) -> int {
    find(l, seq![':'])->0
}

/// Where the second `:` of a `Host:` line is.
pub open spec fn second_colon_at(l: Seq<char>) -> int {
    colon_at(l) + 1 + find(l.subrange(colon_at(l) + 1, l.len() as int), seq![':'])->0
}

/// The text after the first `:` of a line.
pub open spec fn after_colon(l: Seq<char>) -> Seq<char> {
    l.subrange(colon_at(l) + 1, l.len() as int)
}

/// The address text of a `Host:` line.
pub open spec fn host_ip_text(l: Seq<char>) -> Seq<char> {
    trimmed(l.subrange(colon_at(l) + 1, second_colon_at(l)))
}

/// The port text of a `Host:` line.
pub open spec fn host_port_text(l: Seq<char>) -> Seq<char> {
    trimmed(l.subrange(second_colon_at(l) + 1, l.len() as int))
}

/// A line of the head can be read: a `Host:` line has a second `:` and a
/// well-formed address and port around it; an `Accept` line has a `:`; a
/// `Connection:` line names a known connection type.
pub open spec fn header_line_ok(l: Seq<char>) -> bool {
    if contains(l, "Host:"@) {
        &&& find(l, seq![':']) is Some
        &&& find(l.subrange(colon_at(l) + 1, l.len() as int), seq![':']) is Some
        &&& valid_ip_text(host_ip_text(l))
        &&& parse_u16(host_port_text(l)) is Some
    } else if contains(l, "Accept"@) {
        find(l, seq![':']) is Some
    } else if contains(l, "Connection:"@) {
        &&& find(l, seq![':']) is Some
        &&& connection_of(trimmed(after_colon(l))) is Some
    } else {
        true
    }
}

/// Every line of the request can be read as the server reads it.
pub open spec fn request_ok(ls: Seq<Seq<char>>) -> bool {
    ls.len() > 0 ==> {
        &&& request_line_ok(ls[0])
        &&& forall|i: int| 0 <= i < ls.len() ==> header_line_ok(#[trigger] ls[i])
    }
}

/// What the header lines seen so far say: the last `Host:` address and port
/// texts, the last `Accept` value, the last `Connection` value, and the
/// body (absent until an empty line is seen).
pub struct HeadScan {
    pub host: Option<(Seq<char>, Seq<char>)>,
    pub accept: Option<Seq<char>>,
    pub connection: Option<Seq<char>>,
    pub body: Option<Seq<char>>,
}

/// The effect of one line on what is known of the head.
pub open spec fn scan_line(st: HeadScan, l: Seq<char>) -> HeadScan {
    if contains(l, "Host:"@) {
        HeadScan { host: Some((host_ip_text(l), host_port_text(l))), ..st }
    } else if contains(l, "Accept"@) {
        HeadScan { accept: Some(after_colon(l)), ..st }
    } else if contains(l, "Connection:"@) {
        HeadScan { connection: Some(after_colon(l)), ..st }
    } else if trimmed(l).len() == 0 {
        HeadScan {
            body: Some(
                match st.body {
                    Some(b) => b,
                    None => Seq::<char>::empty(),
                },
            ),
            ..st
        }
    } else {
        match st.body {
            Some(b) => HeadScan { body: Some(b + l), ..st },
            None => st,
        }
    }
}

/// What all of `ls` says of the head, read in order.
pub open spec fn scan_lines(ls: Seq<Seq<char>>) -> HeadScan
    decreases ls.len(),
{
    if ls.len() == 0 {
        HeadScan { host: None, accept: None, connection: None, body: None }
    } else {
        scan_line(scan_lines(ls.drop_last()), ls.last())
    }
}

/// The request that the lines `ls` describe.
pub open spec fn describes(resp: Response, ls: Seq<Seq<char>>) -> bool {
    let rl = ls[0];
    let sc = scan_lines(ls);
    &&& resp.requested_file_path@ == path_part(rl)
    &&& method_of(method_part(rl)) == Some(resp.request)
    &&& match sc.host {
        Some((ip, port)) => {
            &&& resp.host_ip.octets() == ip_octets(ip)
            &&& parse_u16(port) == Some(resp.host_ip.port_number())
        },
        None => {
            &&& resp.host_ip.octets() == seq![0u8, 0u8, 0u8, 0u8]
            &&& resp.host_ip.port_number() == 0
        },
    }
    &&& resp.accept_ext == match sc.accept {
        Some(a) => accept_of(a),
        None => Accept { html: false, xhtml: false, xml: false, avif_image: false, webp_image: false },
    }
    &&& resp.connection_type == match sc.connection {
        Some(c) => connection_of(trimmed(c))->0,
        None => ConnectionType::Error,
    }
    &&& match sc.body {
        Some(b) => resp.body is Some && resp.body->0@ == b,
        None => resp.body is None,
    }
    &&& resp.fetch_type is None
    &&& resp.fetch_mode is None
    &&& resp.fetch_site is None
}

/// Whether a one-byte (ASCII) character.
fn ascii_char(c: char) -> (r: bool)
    ensures
        r == is_ascii_char(c),
{
    (c as u32) < 128
}

/// Whether the request line can be cut into method and path.
fn request_line_readable(rl: &Vec<char>) -> (r: bool)
    ensures
        r == request_line_ok(rl@),
{
    let version_pat = chars_of("HTTP/");
    let slash = find_char(rl, '/');
    let version = find_chars(rl, &version_pat, 0);
    match (slash, version) {
        (Some(k), Some(h)) => {
            proof {
                lemma_find_from_found(rl@, seq!['/'], 0);
                lemma_find_from_found(rl@, "HTTP/"@, 0);
                assert(matches_at(rl@, seq!['/'], k as int));
            }
            if k < 1 || !ascii_char(rl[k - 1]) || h < k || h - k < 2 || !ascii_char(rl[h - 1]) {
                return false;
            }
            let method_chars = trim_chars(&slice_chars(rl, 0, k - 1));
            Request::method_for(&method_chars).is_some()
        },
        _ => false,
    }
}

/// Whether a header line can be read.
fn header_line_readable(cs: &Vec<char>) -> (r: bool)
    ensures
        r == header_line_ok(cs@),
{
    if contains_str(cs, "Host:") {
        proof {
            reveal_strlit("Host:");
            lemma_contains_char(cs@, "Host:"@, 4, ':');
        }
        let c1 = find_char(cs, ':').unwrap();
        proof {
            lemma_find_from_found(cs@, seq![':'], 0);
            assert(matches_at(cs@, seq![':'], c1 as int));
        }
        let n: usize = cs.len();
        let rest = slice_chars(cs, c1 + 1, n);
        match find_char(&rest, ':') {
            Some(c2rel) => {
                proof {
                    lemma_find_from_found(rest@, seq![':'], 0);
                }
                assert(c2rel < rest@.len());
                let c2 = c1 + 1 + c2rel;
                let ip_chars = trim_chars(&slice_chars(cs, c1 + 1, c2));
                let port_chars = trim_chars(&slice_chars(cs, c2 + 1, n));
                ip_text_valid(&ip_chars) && port_text_valid(&port_chars)
            },
            None => false,
        }
    } else if contains_str(cs, "Accept") {
        find_char(cs, ':').is_some()
    } else if contains_str(cs, "Connection:") {
        proof {
            reveal_strlit("Connection:");
            lemma_contains_char(cs@, "Connection:"@, 10, ':');
        }
        let c = find_char(cs, ':').unwrap();
        proof {
            lemma_find_from_found(cs@, seq![':'], 0);
            assert(matches_at(cs@, seq![':'], c as int));
        }
        let n: usize = cs.len();
        let value = trim_chars(&slice_chars(cs, c + 1, n));
        ConnectionType::connection_for(&value).is_some()
    } else {
        true
    }
}

/// Whether the lines of a request can be read by `tokenize_response`.
pub fn request_readable(lines: &Vec<String>) -> (r: bool)
    ensures
        r == request_ok(line_texts(lines@)),
{
    let ghost ls = line_texts(lines@);
    if lines.len() == 0 {
        return true;
    }
    let rl = chars_of(lines[0].as_str());
    assert(ls[0] == lines@[0]@);
    if !request_line_readable(&rl) {
        return false;
    }
    let mut i: usize = 0;
    while i < lines.len()
        invariant
            i <= lines@.len(),
            ls == line_texts(lines@),
            forall|j: int| 0 <= j < i ==> header_line_ok(#[trigger] ls[j]),
        decreases lines.len() - i,
    {
        let cs = chars_of(lines[i].as_str());
        assert(ls[i as int] == lines@[i as int]@);
        if !header_line_readable(&cs) {
            return false;
        }
        i = i + 1;
    }
    true
}

/// Reads the lines of a request head (the request line first, then header
/// lines, then an empty line and the body).
pub fn tokenize_response(lines: Vec<String>) -> (r: Result<Response, RequestError>)
    requires
        request_ok(line_texts(lines@)),
    ensures
        lines@.len() == 0 ==> r == Err::<Response, RequestError>(RequestError::EmptyRequest),
        lines@.len() > 0 ==> r is Ok && describes(r->Ok_0, line_texts(lines@)),
{
    if lines.len() == 0 {
        return Err(RequestError::EmptyRequest);
    }
    let ghost ls = line_texts(lines@);
    assert(ls[0] == lines@[0]@);
    let rl = chars_of(lines[0].as_str());
    let slash = find_char(&rl, '/');
    let version_pat = chars_of("HTTP/");
    let version = find_chars(&rl, &version_pat, 0);
    let k: usize = slash.unwrap();
    let h: usize = version.unwrap();
    proof {
        lemma_find_from_found(rl@, seq!['/'], 0);
        lemma_find_from_found(rl@, "HTTP/"@, 0);
    }
    let method_chars = trim_chars(&slice_chars(&rl, 0, k - 1));
    let file_chars = trim_chars(&slice_chars(&rl, k + 1, h - 1));
    let method_text = string_of(&method_chars);
    let request = Request::new(method_text.as_str());

    let mut ip = IpAdress::default();
    let mut connection_type = ConnectionType::Error;
    let mut accept = Accept::default();
    let mut body = false;
    let mut body_txt = String::new();
    let mut i: usize = 0;
    while i < lines.len()
        invariant
            i <= lines@.len(),
            ls == line_texts(lines@),
            request_ok(ls),
            ls.len() > 0,
            ({
                let sc = scan_lines(ls.take(i as int));
                &&& match sc.host {
                    Some((a, p)) => {
                        &&& ip.octets() == ip_octets(a)
                        &&& parse_u16(p) == Some(ip.port_number())
                    },
                    None => {
                        &&& ip.octets() == seq![0u8, 0u8, 0u8, 0u8]
                        &&& ip.port_number() == 0
                    },
                }
                &&& accept == match sc.accept {
                    Some(a) => accept_of(a),
                    None => Accept {
                        html: false,
                        xhtml: false,
                        xml: false,
                        avif_image: false,
                        webp_image: false,
                    },
                }
                &&& connection_type == match sc.connection {
                    Some(c) => connection_of(trimmed(c))->0,
                    None => ConnectionType::Error,
                }
                &&& body == sc.body is Some
                &&& (body ==> body_txt@ == sc.body->0)
            }),
        decreases lines.len() - i,
    {
        let ghost l = ls[i as int];
        assert(l == lines@[i as int]@);
        assert(header_line_ok(ls[i as int]));
        assert(ls.take(i + 1).drop_last() =~= ls.take(i as int));
        assert(ls.take(i + 1).last() == l);
        let cs = chars_of(lines[i].as_str());
        if contains_str(&cs, "Host:") {
            let c1 = find_char(&cs, ':').unwrap();
            proof {
                lemma_find_from_found(cs@, seq![':'], 0);
                assert(find(cs@, seq![':']) == Some(c1 as int));
                assert(matches_at(cs@, seq![':'], c1 as int));
                assert(c1 + 1 <= cs@.len());
            }
            let n: usize = cs.len();
            assert(c1 + 1 <= n);
            let rest = slice_chars(&cs, c1 + 1, cs.len());
            let c2rel = find_char(&rest, ':').unwrap();
            proof {
                lemma_find_from_found(rest@, seq![':'], 0);
            }
            assert(c2rel < rest@.len());
            let c2 = c1 + 1 + c2rel;
            let ip_chars = trim_chars(&slice_chars(&cs, c1 + 1, c2));
            let port_chars = trim_chars(&slice_chars(&cs, c2 + 1, cs.len()));
            let ip_text = string_of(&ip_chars);
            let port_text = string_of(&port_chars);
            ip = IpAdress::from_str(ip_text.as_str(), port_text.as_str());
        } else if contains_str(&cs, "Accept") {
            let start = find_char(&cs, ':').unwrap();
            proof {
                lemma_find_from_found(cs@, seq![':'], 0);
            }
            let value = string_of(&slice_chars(&cs, start + 1, cs.len()));
            accept = Accept::new(value.as_str());
        } else if contains_str(&cs, "Connection:") {
            let start = find_char(&cs, ':').unwrap();
            proof {
                lemma_find_from_found(cs@, seq![':'], 0);
            }
            let value = string_of(&slice_chars(&cs, start + 1, cs.len()));
            connection_type = ConnectionType::new(value.as_str());
        } else if trim_chars(&cs).len() == 0 {
            if !body {
                body_txt = String::new();
            }
            body = true;
        } else if body {
            append_chars(&mut body_txt, &cs);
        }
        i = i + 1;
    }
    assert(ls.take(lines.len() as int) =~= ls);
    let b: Option<String> = if body { Some(body_txt) } else { None };
    Ok(Response {
        requested_file_path: string_of(&file_chars),
        request,
        host_ip: ip,
        accept_ext: accept,
        connection_type,
        fetch_type: None,
        fetch_mode: None,
        fetch_site: None,
        body: b,
    })
}

/// The file that a GET for `path` serves: `index.html` for the empty path,
/// the path with `.html` added when the client accepts HTML, else the path.
pub open spec fn served_file_name(path: Seq<char>, accepts_html: bool) -> Seq<char> {
    if path.len() == 0 {
        "index.html"@
    } else if accepts_html {
        path + ".html"@
    } else {
        path
    }
}

/// The file a GET request for `requested_file_path` serves.
pub fn file_name_for_request(requested_file_path: &str, accepts_html: bool) -> (r: String)
    ensures
        r@ == served_file_name(requested_file_path@, accepts_html),
{
    let path = chars_of(requested_file_path);
    if path.len() == 0 {
        let mut s = String::new();
        append_str(&mut s, "index.html");
        s
    } else if accepts_html {
        let mut s = string_of(&path);
        append_str(&mut s, ".html");
        s
    } else {
        string_of(&path)
    }
}

/// The `Content-Type` line sent with a file: it goes by what follows the
/// first `.` of the name (`html` or `js`); any other name gets `e`.
pub open spec fn content_type_line(filename: Seq<char>) -> Seq<char> {
    match find(filename, seq!['.']) {
        Some(i) => {
            let ext = filename.subrange(i + 1, filename.len() as int);
            if ext == "html"@ {
                "Content-Type: text/html"@
            } else if ext == "js"@ {
                "Content-Type: application/javascript"@
            } else {
                "e"@
            }
        },
        None => "e"@,
    }
}

/// The `Content-Type` line for a served file.
pub fn content_type_for(filename: &str) -> (r: String)
    ensures
        r@ == content_type_line(filename@),
{
    let name = chars_of(filename);
    let mut s = String::new();
    match find_char(&name, '.') {
        Some(i) => {
            proof {
                lemma_find_from_found(name@, seq!['.'], 0);
                assert(matches_at(name@, seq!['.'], i as int));
            }
            let n: usize = name.len();
            let ext = slice_chars(&name, i + 1, n);
            if chars_are(&ext, "html") {
                append_str(&mut s, "Content-Type: text/html");
            } else if chars_are(&ext, "js") {
                append_str(&mut s, "Content-Type: application/javascript");
            } else {
                append_str(&mut s, "e");
            }
        },
        None => {
            append_str(&mut s, "e");
        },
    }
    s
}

/// The response that carries a file: status line, content type, length,
/// an empty line and the contents, joined by newlines.
pub open spec fn file_response_text(content_type: Seq<char>, contents: Seq<char>) -> Seq<char> {
    "HTTP/1.1 200 OK"@ + "\n"@ + content_type + "\n"@ + "Content-Length: "@ + decimal(
        byte_len(contents),
    ) + "\n"@ + "\n"@ + contents
}

/// The response that carries the file `contents`.
pub fn file_response(content_type: &str, contents: &String) -> (r: String)
    requires
        byte_len(contents@) <= usize::MAX,
    ensures
        r@ == file_response_text(content_type@, contents@),
{
    let n = byte_len_of(contents);
    let mut s = String::new();
    append_str(&mut s, "HTTP/1.1 200 OK");
    append_str(&mut s, "\n");
    append_str(&mut s, content_type);
    append_str(&mut s, "\n");
    append_str(&mut s, "Content-Length: ");
    push_decimal(&mut s, n as u64);
    append_str(&mut s, "\n");
    append_str(&mut s, "\n");
    append_str(&mut s, contents.as_str());
    assert(s@ =~= file_response_text(content_type@, contents@));
    s
}

} // verus!
