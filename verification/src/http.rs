//! The pieces of an HTTP request that the server looks at, and the texts of
//! the JSON responses it sends.

use vstd::prelude::*;
use crate::json::{json_single_member, plain_text, string_object};
use crate::text::{
    append_str, byte_len, byte_len_of, chars_are, chars_of, decimal, lemma_decimal_reads_back,
    lemma_split_append, lemma_split_single, parse_unsigned, is_digit, parse_bounded, parse_u16, parse_u8,
    push_char, push_decimal, split_chars, split_on, trim_chars, trimmed,
};

verus! {

/// A request as the server understands it after reading its head.
pub struct Response {
    pub requested_file_path: String,
    pub request: Request,
    pub host_ip: IpAdress,
    pub accept_ext: Accept,
    pub connection_type: ConnectionType,
    pub body: Option<String>,
    pub fetch_type: Option<FetchType>,
    pub fetch_mode: Option<FetchMode>,
    pub fetch_site: Option<FetchSite>,
}

/// The request method.
#[derive(Debug, Clone, Copy, PartialEq, Eq, Structural)]
pub enum Request {
    Get,
    Head,
    Post,
    Put,
    Delete,
    Connect,
    Options,
    Trace,
    Patch,
}

/// The method that a method name stands for, if it is one of the nine.
pub open spec fn method_of(t: Seq<char>) -> Option<Request> {
    if t == "GET"@ {
        Some(Request::Get)
    } else if t == "HEAD"@ {
        Some(Request::Head)
    } else if t == "POST"@ {
        Some(Request::Post)
    } else if t == "PUT"@ {
        Some(Request::Put)
    } else if t == "DELETE"@ {
        Some(Request::Delete)
    } else if t == "CONNECT"@ {
        Some(Request::Connect)
    } else if t == "OPTIONS"@ {
        Some(Request::Options)
    } else if t == "TRACE"@ {
        Some(Request::Trace)
    } else if t == "PATCH"@ {
        Some(Request::Patch)
    } else {
        None
    }
}

impl Request {
    /// The method named by the characters `cs`, if it is one of the nine.
    pub fn method_for(cs: &Vec<char>) -> (r: Option<Self>)
        ensures
            r == method_of(cs@),
    {
        if chars_are(cs, "GET") {
            Some(Request::Get)
        } else if chars_are(cs, "HEAD") {
            Some(Request::Head)
        } else if chars_are(cs, "POST") {
            Some(Request::Post)
        } else if chars_are(cs, "PUT") {
            Some(Request::Put)
        } else if chars_are(cs, "DELETE") {
            Some(Request::Delete)
        } else if chars_are(cs, "CONNECT") {
            Some(Request::Connect)
        } else if chars_are(cs, "OPTIONS") {
            Some(Request::Options)
        } else if chars_are(cs, "TRACE") {
            Some(Request::Trace)
        } else if chars_are(cs, "PATCH") {
            Some(Request::Patch)
        } else {
            None
        }
    }

    /// The method named `txt` (which must be one of the nine method names).
    pub fn new(txt: &str) -> (r: Self)
        requires
            method_of(txt@) is Some,
        ensures
            method_of(txt@) == Some(r),
    {
        let cs = chars_of(txt);
        Self::method_for(&cs).unwrap()
    }
}

/// An IPv4 address with a port.
#[derive(Debug, Clone, Copy)]
pub struct IpAdress {
    ip_adress: [u8; 4],
    port: u16,
}

/// The address text `ip` is four or fewer dot-separated parts, each a `u8`.
pub open spec fn valid_ip_text(ip: Seq<char>) -> bool {
    let parts = split_on(ip, '.');
    &&& parts.len() <= 4
    &&& forall|k: int| 0 <= k < parts.len() ==> (#[trigger] parse_u8(parts[k])) is Some
}

/// The four octets that the address text `ip` gives: its parts in order,
/// and zero where it has fewer than four parts.
pub open spec fn ip_octets(ip: Seq<char>) -> Seq<u8> {
    let parts = split_on(ip, '.');
    Seq::new(4, |k: int| if k < parts.len() { parse_u8(parts[k])->0 } else { 0u8 })
}

/// The text `a.b.c.d:port` of an address.
pub open spec fn address_text(octets: Seq<u8>, port: u16) -> Seq<char> {
    decimal(octets[0] as nat) + seq!['.'] + decimal(octets[1] as nat) + seq!['.'] + decimal(
        octets[2] as nat,
    ) + seq!['.'] + decimal(octets[3] as nat) + seq![':'] + decimal(port as nat)
}


/// The dotted text of four octets.
pub open spec fn dotted(o: Seq<u8>) -> Seq<char> {
    decimal(o[0] as nat) + seq!['.'] + decimal(o[1] as nat) + seq!['.'] + decimal(o[2] as nat)
        + seq!['.'] + decimal(o[3] as nat)
}

proof fn lemma_decimal_no_dot(n: nat)
    ensures
        forall|i: int| 0 <= i < decimal(n).len() ==> decimal(n)[i] != '.',
        decimal(n).len() > 0,
        parse_unsigned(decimal(n)) == Some(n),
{
    lemma_decimal_reads_back(n);
    assert forall|i: int| 0 <= i < decimal(n).len() implies decimal(n)[i] != '.' by {
        assert(is_digit(decimal(n)[i]));
    }
}

/// The text of an address reads back as that address: its dotted part is
/// a valid address text whose octets are the address's, and its port part
/// reads back as the port.
pub proof fn law_address_text_reads_back(o: Seq<u8>, port: u16)
    requires
        o.len() == 4,
    ensures
        address_text(o, port) == dotted(o) + seq![':'] + decimal(port as nat),
        valid_ip_text(dotted(o)),
        ip_octets(dotted(o)) == o,
        parse_u16(decimal(port as nat)) == Some(port),
{
    lemma_decimal_no_dot(o[0] as nat);
    lemma_decimal_no_dot(o[1] as nat);
    lemma_decimal_no_dot(o[2] as nat);
    lemma_decimal_no_dot(o[3] as nat);
    lemma_decimal_no_dot(port as nat);
    let a = decimal(o[0] as nat);
    let b = decimal(o[1] as nat);
    let c = decimal(o[2] as nat);
    let d = decimal(o[3] as nat);
    lemma_split_single(a, '.');
    lemma_split_append(a, '.', b);
    assert(a + seq!['.'] + b =~= a.push('.') + b);
    lemma_split_append(a + seq!['.'] + b, '.', c);
    assert(a + seq!['.'] + b + seq!['.'] + c =~= (a + seq!['.'] + b).push('.') + c);
    lemma_split_append(a + seq!['.'] + b + seq!['.'] + c, '.', d);
    assert(dotted(o) =~= (a + seq!['.'] + b + seq!['.'] + c).push('.') + d);
    let parts = split_on(dotted(o), '.');
    assert(parts =~= seq![a, b, c, d]);
    assert(ip_octets(dotted(o)) =~= o);
    assert(address_text(o, port) =~= dotted(o) + seq![':'] + decimal(port as nat));
}

/// Whether `cs` is a valid address text.
pub fn ip_text_valid(cs: &Vec<char>) -> (r: bool)
    ensures
        r == valid_ip_text(cs@),
{
    let parts = split_chars(cs, '.');
    let ghost sp = split_on(cs@, '.');
    if parts.len() > 4 {
        return false;
    }
    let mut k: usize = 0;
    while k < parts.len()
        invariant
            k <= parts@.len() == sp.len() <= 4,
            sp == split_on(cs@, '.'),
            forall|j: int| 0 <= j < parts@.len() ==> (#[trigger] parts@[j])@ == sp[j],
            forall|j: int| 0 <= j < k ==> (#[trigger] parse_u8(sp[j])) is Some,
        decreases parts.len() - k,
    {
        if parse_bounded(&parts[k], 255).is_none() {
            assert(parse_u8(sp[k as int]) is None);
            return false;
        }
        k = k + 1;
    }
    true
}

/// Whether `cs` is a valid port text.
pub fn port_text_valid(cs: &Vec<char>) -> (r: bool)
    ensures
        r == (parse_u16(cs@) is Some),
{
    parse_bounded(cs, 65535).is_some()
}

impl IpAdress {
    /// The four octets of the address.
    pub closed spec fn octets(&self) -> Seq<u8> {
        self.ip_adress@
    }

    /// The port.
    pub closed spec fn port_number(&self) -> u16 {
        self.port
    }

    /// Reads an address from its dotted text and its port text; both must be
    /// well formed.
    pub fn from_str(ip_txt: &str, port_txt: &str) -> (r: Self)
        requires
            valid_ip_text(ip_txt@),
            parse_u16(port_txt@) is Some,
        ensures
            r.octets() == ip_octets(ip_txt@),
            Some(r.port_number()) == parse_u16(port_txt@),
    {
        let cs = chars_of(ip_txt);
        let parts = split_chars(&cs, '.');
        let ghost sp = split_on(ip_txt@, '.');
        let mut octets: Vec<u8> = Vec::new();
        let mut k: usize = 0;
        while k < parts.len()
            invariant
                k <= parts@.len() == sp.len() <= 4,
                forall|j: int| 0 <= j < parts@.len() ==> (#[trigger] parts@[j])@ == sp[j],
                forall|j: int| 0 <= j < sp.len() ==> (#[trigger] parse_u8(sp[j])) is Some,
                octets@.len() == k,
                forall|j: int| 0 <= j < k ==> octets@[j] == parse_u8(sp[j])->0,
            decreases parts.len() - k,
        {
            let v = parse_bounded(&parts[k], 255);
            assert(parse_u8(sp[k as int]) is Some);
            let o: u8 = v.unwrap() as u8;
            octets.push(o);
            k = k + 1;
        }
        while octets.len() < 4
            invariant
                parts@.len() == sp.len() <= 4,
                parts@.len() <= octets@.len() <= 4,
                forall|j: int| 0 <= j < sp.len() ==> octets@[j] == parse_u8(sp[j])->0,
                forall|j: int| sp.len() <= j < octets@.len() ==> octets@[j] == 0,
            decreases 4 - octets.len(),
        {
            octets.push(0);
        }
        let pcs = chars_of(port_txt);
        let port: u16 = parse_bounded(&pcs, 65535).unwrap() as u16;
        let ip_adress: [u8; 4] = [octets[0], octets[1], octets[2], octets[3]];
        let r = IpAdress { ip_adress, port };
        assert(r.ip_adress@ =~= ip_octets(ip_txt@));
        r
    }

    /// The address `0.0.0.0:0`.
    pub fn default() -> (r: Self)
        ensures
            r.octets() == seq![0u8, 0u8, 0u8, 0u8],
            r.port_number() == 0,
    {
        let r = IpAdress { ip_adress: [0, 0, 0, 0], port: 0 };
        assert(r.ip_adress@ =~= seq![0u8, 0u8, 0u8, 0u8]);
        r
    }

    /// The text `a.b.c.d:port` of the address.
    pub fn text(&self) -> (r: String)
        ensures
            r@ == address_text(self.octets(), self.port_number()),
    {
        let mut s = String::new();
        push_decimal(&mut s, self.ip_adress[0] as u64);
        push_char(&mut s, '.');
        push_decimal(&mut s, self.ip_adress[1] as u64);
        push_char(&mut s, '.');
        push_decimal(&mut s, self.ip_adress[2] as u64);
        push_char(&mut s, '.');
        push_decimal(&mut s, self.ip_adress[3] as u64);
        push_char(&mut s, ':');
        push_decimal(&mut s, self.port as u64);
        assert(s@ =~= address_text(self.octets(), self.port_number()));
        s
    }
}

/// The events a client posts.
#[derive(Debug, Clone, Copy, PartialEq, Eq, Structural)]
pub enum PostEvent {
    Login,
}

/// The events a client puts.
#[derive(Debug, Clone, Copy, PartialEq, Eq, Structural)]
pub enum PutEvent {
    Register,
}

/// The media types an `Accept` header lists that the server cares about.
#[derive(Debug, Clone, Copy, PartialEq, Eq, Structural)]
pub struct Accept {
    pub html: bool,
    pub xhtml: bool,
    pub xml: bool,
    pub avif_image: bool,
    pub webp_image: bool,
}

/// Some comma-separated item of `line`, trimmed, is `item`.
pub open spec fn lists(line: Seq<char>, item: Seq<char>) -> bool {
    let parts = split_on(line, ',');
    exists|k: int| 0 <= k < parts.len() && trimmed(#[trigger] parts[k]) == item
}

/// What the `Accept` header value `line` says.
pub open spec fn accept_of(line: Seq<char>) -> Accept {
    Accept {
        html: lists(line, "text/html"@),
        xhtml: lists(line, "application/xhtml+xml"@),
        xml: lists(line, "application/xml;q=0.9"@),
        avif_image: lists(line, "image/avif"@),
        webp_image: lists(line, "image/webp"@),
    }
}

impl Accept {
    /// Reads the value of an `Accept` header.
    pub fn new(line: &str) -> (r: Self)
        ensures
            r == accept_of(line@),
    {
        let cs = chars_of(line);
        let parts = split_chars(&cs, ',');
        let ghost sp = split_on(line@, ',');
        let mut html = false;
        let mut xhtml = false;
        let mut xml = false;
        let mut avif_image = false;
        let mut webp_image = false;
        let mut k: usize = 0;
        while k < parts.len()
            invariant
                k <= parts@.len() == sp.len(),
                forall|j: int| 0 <= j < parts@.len() ==> (#[trigger] parts@[j])@ == sp[j],
                html == (exists|j: int| 0 <= j < k && trimmed(#[trigger] sp[j]) == "text/html"@),
                xhtml == (exists|j: int|
                    0 <= j < k && trimmed(#[trigger] sp[j]) == "application/xhtml+xml"@),
                xml == (exists|j: int|
                    0 <= j < k && trimmed(#[trigger] sp[j]) == "application/xml;q=0.9"@),
                avif_image == (exists|j: int|
                    0 <= j < k && trimmed(#[trigger] sp[j]) == "image/avif"@),
                webp_image == (exists|j: int|
                    0 <= j < k && trimmed(#[trigger] sp[j]) == "image/webp"@),
            decreases parts.len() - k,
        {
            let e = trim_chars(&parts[k]);
            assert(e@ == trimmed(sp[k as int]));
            proof {
                reveal_strlit("text/html");
                reveal_strlit("application/xhtml+xml");
                reveal_strlit("application/xml;q=0.9");
                reveal_strlit("image/avif");
                reveal_strlit("image/webp");
                assert("text/html"@[0] != "application/xhtml+xml"@[0]);
                assert("text/html"@[0] != "application/xml;q=0.9"@[0]);
                assert("text/html"@[0] != "image/avif"@[0]);
                assert("text/html"@[0] != "image/webp"@[0]);
                assert("application/xhtml+xml"@[13] != "application/xml;q=0.9"@[13]);
                assert("application/xhtml+xml"@[0] != "image/avif"@[0]);
                assert("application/xhtml+xml"@[0] != "image/webp"@[0]);
                assert("application/xml;q=0.9"@[0] != "image/avif"@[0]);
                assert("application/xml;q=0.9"@[0] != "image/webp"@[0]);
                assert("image/avif"@[6] != "image/webp"@[6]);
            }
            if chars_are(&e, "text/html") {
                html = true;
            } else if chars_are(&e, "application/xhtml+xml") {
                xhtml = true;
            } else if chars_are(&e, "application/xml;q=0.9") {
                xml = true;
            } else if chars_are(&e, "image/avif") {
                avif_image = true;
            } else if chars_are(&e, "image/webp") {
                webp_image = true;
            }
            k = k + 1;
        }
        Accept { html, xhtml, xml, avif_image, webp_image }
    }

    /// An `Accept` that lists none of the types.
    pub fn default() -> (r: Self)
        ensures
            r == (Accept { html: false, xhtml: false, xml: false, avif_image: false, webp_image: false }),
    {
        Self { html: false, xhtml: false, xml: false, avif_image: false, webp_image: false }
    }
}

/// What the client asks of the connection.
#[derive(Debug, Clone, Copy, PartialEq, Eq, Structural)]
pub enum ConnectionType {
    Error,
    KeepAlive,
    Close,
    Upgrade,
}

/// The connection type that a trimmed `Connection` value names.
pub open spec fn connection_of(t: Seq<char>) -> Option<ConnectionType> {
    if t == "keep-alive"@ {
        Some(ConnectionType::KeepAlive)
    } else if t == "upgrade"@ {
        Some(ConnectionType::Upgrade)
    } else if t == "close"@ {
        Some(ConnectionType::Close)
    } else {
        None
    }
}

impl ConnectionType {
    /// The connection type that the characters `t` name, if any.
    pub fn connection_for(t: &Vec<char>) -> (r: Option<Self>)
        ensures
            r == connection_of(t@),
    {
        if chars_are(t, "keep-alive") {
            Some(ConnectionType::KeepAlive)
        } else if chars_are(t, "upgrade") {
            Some(ConnectionType::Upgrade)
        } else if chars_are(t, "close") {
            Some(ConnectionType::Close)
        } else {
            None
        }
    }

    /// Reads the value of a `Connection` header (which, trimmed, must be
    /// `keep-alive`, `upgrade` or `close`).
    pub fn new(line: &str) -> (r: Self)
        requires
            connection_of(trimmed(line@)) is Some,
        ensures
            connection_of(trimmed(line@)) == Some(r),
    {
        let cs = chars_of(line);
        let t = trim_chars(&cs);
        Self::connection_for(&t).unwrap()
    }
}

/// What kind of resource the client fetches.
#[derive(Debug, Clone, Copy, PartialEq, Eq, Structural)]
pub enum FetchType {
    Empty,
    Object,
    Manifest,
    Document,
    Font,
    Image,
    Media,
    Script,
    Style,
    Worker,
}

/// The fetch type that a `Sec-Fetch-Dest` value names; `manifest` is not
/// one the server reads.
pub open spec fn fetch_type_of(t: Seq<char>) -> Option<FetchType> {
    if t == "empty"@ {
        Some(FetchType::Empty)
    } else if t == "object"@ {
        Some(FetchType::Object)
    } else if t == "document"@ {
        Some(FetchType::Document)
    } else if t == "font"@ {
        Some(FetchType::Font)
    } else if t == "image"@ {
        Some(FetchType::Image)
    } else if t == "media"@ {
        Some(FetchType::Media)
    } else if t == "script"@ {
        Some(FetchType::Script)
    } else if t == "style"@ {
        Some(FetchType::Style)
    } else if t == "worker"@ {
        Some(FetchType::Worker)
    } else {
        None
    }
}

impl FetchType {
    /// Reads a `Sec-Fetch-Dest` value (which must name a known type).
    pub fn new(line_txt: &str) -> (r: Self)
        requires
            fetch_type_of(line_txt@) is Some,
        ensures
            fetch_type_of(line_txt@) == Some(r),
    {
        let cs = chars_of(line_txt);
        if chars_are(&cs, "empty") {
            FetchType::Empty
        } else if chars_are(&cs, "object") {
            FetchType::Object
        } else if chars_are(&cs, "document") {
            FetchType::Document
        } else if chars_are(&cs, "font") {
            FetchType::Font
        } else if chars_are(&cs, "image") {
            FetchType::Image
        } else if chars_are(&cs, "media") {
            FetchType::Media
        } else if chars_are(&cs, "script") {
            FetchType::Script
        } else if chars_are(&cs, "style") {
            FetchType::Style
        } else {
            FetchType::Worker
        }
    }
}

/// The mode in which the request is made.
#[derive(Debug, Clone, Copy, PartialEq, Eq, Structural)]
pub enum FetchMode {
    Navigate,
    SameOrigin,
    NoCors,
}

/// How the origin of the request relates to that of its destination.
#[derive(Debug, Clone, Copy, PartialEq, Eq, Structural)]
pub enum FetchSite {
    SameOrigin,
    SameSite,
    CrossOrigin,
}

/// The response that carries the JSON text `json`.
pub open spec fn json_response_text(json: Seq<char>) -> Seq<char> {
    "HTTP/1.1 200 OK\r\nContent-Type: application/json\r\nContent-Length: "@ + decimal(
        byte_len(json),
    ) + "\r\n\r\n"@ + json
}

/// An HTTP response whose body is the JSON text `json_data`.
pub fn json_response(json_data: String) -> (r: String)
    requires
        byte_len(json_data@) <= usize::MAX,
    ensures
        r@ == json_response_text(json_data@),
{
    let n = byte_len_of(&json_data);
    let mut s = String::new();
    append_str(&mut s, "HTTP/1.1 200 OK\r\nContent-Type: application/json\r\nContent-Length: ");
    push_decimal(&mut s, n as u64);
    append_str(&mut s, "\r\n\r\n");
    append_str(&mut s, json_data.as_str());
    s
}

/// The response that tells the client its request went through.
pub open spec fn ok_code_text() -> Seq<char> {
    let json = string_object("request"@, "ok"@);
    "HTTP/1.1 200 OK\nContent-Length: "@ + decimal(byte_len(json)) + "\n\n"@ + json
}

/// An HTTP response whose body is `{"request":"ok"}`.
pub fn ok_code() -> (r: String)
    ensures
        r@ == ok_code_text(),
{
    proof {
        reveal_strlit("request");
        reveal_strlit("ok");
        assert(plain_text("request"@) && plain_text("ok"@));
    }
    let json = json_single_member("request", "ok");
    let n = byte_len_of(&json);
    let mut s = String::new();
    append_str(&mut s, "HTTP/1.1 200 OK\nContent-Length: ");
    push_decimal(&mut s, n as u64);
    append_str(&mut s, "\n\n");
    append_str(&mut s, json.as_str());
    s
}

} // verus!
