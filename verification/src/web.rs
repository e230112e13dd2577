//! Serving the editor: which file a request is for, and how it is answered.
//!
//! The editor is bundled as a table of names and bytes. Anything the table does
//! not know is answered with the page itself, because the editor is a
//! single-page application and a reload on a route it invented must not fail.
//! The page is told its socket on the way out, by one line written in front of
//! the end of its head, so a page served from here talks to the engine that
//! served it.

use vstd::prelude::*;
use vstd::string::*;
use vstd::utf8::{decode_utf8, encode_utf8, valid_utf8};

use crate::text;
use crate::text::{
    after_word, chars_of, decimal, first_at, first_word, occurs_at, push_decimal, same,
    split_word, string_of,
};

verus! {

/// A cap on the request, because it is read into memory before anything is
/// decided and the only client is a browser asking for a file.
pub const MAX_REQUEST: usize = 16384;

/// How long a connection may stay silent before it is given up, in
/// milliseconds.
pub const READ_TIMEOUT: u64 = 5000;

/// What `String::from_utf8_lossy` makes of bytes that may not be UTF-8.
pub uninterp spec fn lossy(bytes: Seq<u8>) -> Seq<char>;

/// `String::from_utf8_lossy`: the characters of bytes that are UTF-8, and of
/// others a text with replacement characters, which [`lossy`] names.
#[verifier::external_body]
fn from_utf8_lossy(bytes: &[u8]) -> (out: String)
    ensures
        out@ == lossy(bytes@),
        valid_utf8(bytes@) ==> out@ == decode_utf8(bytes@),
{
    String::from_utf8_lossy(bytes).into_owned()
}

/// A running editor server.
pub struct WebServer {
    port: u16,
}

impl View for WebServer {
    type V = u16;

    closed spec fn view(&self) -> u16 {
        self.port
    }
}

/// Where a page on a port is found.
pub open spec fn url_text(port: u16) -> Seq<char> {
    "http://127.0.0.1:"@ + decimal(port as nat) + "/"@
}

impl WebServer {
    /// A server listening on the port the system chose.
    pub fn bound(port: u16) -> (server: Self)
        ensures
            server@ == port,
    {
        WebServer { port }
    }

    /// The port the system chose.
    pub fn port(&self) -> (port: u16)
        ensures
            port == self@,
    {
        self.port
    }

    /// Where the editor is found.
    pub fn url(&self) -> (out: String)
        ensures
            out@ == url_text(self@),
    {
        let mut out = String::new();
        out.append("http://127.0.0.1:");
        push_decimal(&mut out, self.port as u128);
        out.append("/");
        assert(out@ =~= url_text(self@));
        out
    }
}

/// Refuse to serve a bundle with nothing in it: a blank page behind a working
/// tray icon is the hardest version of this to diagnose.
pub fn start(assets: usize) -> (outcome: Result<(), String>)
    ensures
        outcome is Ok <==> assets > 0,
        outcome matches Err(e) ==> e@
            == "the editor was not bundled into this build — run `npm run build` in ui/ and rebuild"@,
{
    if assets == 0 {
        Err(
            "the editor was not bundled into this build — run `npm run build` in ui/ and rebuild".to_owned(),
        )
    } else {
        Ok(())
    }
}

/// Whether enough of a request has arrived: its first line ends at the first
/// newline, and nothing after it is wanted.
pub fn request_complete(buf: &[u8]) -> (done: bool)
    ensures
        done == (buf@.contains(10u8) || buf@.len() >= MAX_REQUEST),
{
    if buf.len() >= MAX_REQUEST {
        return true;
    }
    let mut i: usize = 0;
    while i < buf.len()
        invariant
            i <= buf@.len(),
            buf@.len() < MAX_REQUEST,
            forall|k: int| 0 <= k < i ==> buf@[k] != 10u8,
        decreases buf@.len() - i,
    {
        if buf[i] == 10 {
            assert(buf@[i as int] == 10u8);
            return true;
        }
        i += 1;
    }
    false
}

/// How many bytes come before the first newline.
pub open spec fn line_len(buf: Seq<u8>) -> nat
    decreases buf.len(),
{
    if buf.len() == 0 || buf[0] == 10 {
        0
    } else {
        1 + line_len(buf.skip(1))
    }
}

/// The bytes before the first newline.
pub open spec fn first_line(buf: Seq<u8>) -> Seq<u8> {
    buf.take(line_len(buf) as int)
}

/// How many characters come before a query or a fragment.
pub open spec fn path_len(target: Seq<char>) -> nat
    decreases target.len(),
{
    if target.len() == 0 || target[0] == '?' || target[0] == '#' {
        0
    } else {
        1 + path_len(target.skip(1))
    }
}

/// The path a request line asks for: the second word of one that starts with a
/// method that reads, up to its query or fragment.
pub open spec fn path_in(line: Seq<char>) -> Option<Seq<char>> {
    let method = first_word(line);
    let target = first_word(after_word(line));
    if (method == "GET"@ || method == "HEAD"@) && target.len() > 0 {
        Some(target.take(path_len(target) as int))
    } else {
        None
    }
}

/// The path a request line asks for. Nothing is percent-decoded: a path that
/// arrives escaped simply misses and falls back to the page.
pub fn path_of_line(line: &str) -> (path: Option<String>)
    ensures
        match path {
            Some(p) => path_in(line@) == Some(p@),
            None => path_in(line@) is None,
        },
{
    let chars = chars_of(line);
    let (method, rest) = split_word(chars.as_slice());
    let method = string_of(method.as_slice());
    if !same(method.as_str(), "GET") && !same(method.as_str(), "HEAD") {
        return None;
    }
    let (target, _) = split_word(rest.as_slice());
    if target.len() == 0 {
        return None;
    }
    let mut end: usize = 0;
    assert(target@.skip(0) =~= target@);
    while end < target.len() && target[end] != '?' && target[end] != '#'
        invariant
            end <= target@.len(),
            path_len(target@) == end + path_len(target@.skip(end as int)),
        decreases target@.len() - end,
    {
        assert(target@.skip(end as int).skip(1) =~= target@.skip(end + 1));
        end += 1;
    }
    let kept = vstd::slice::slice_subrange(target.as_slice(), 0, end);
    assert(kept@ =~= target@.take(end as int));
    Some(string_of(kept))
}

/// The path the bytes of a request ask for.
pub fn request_path(buf: &[u8]) -> (path: Option<String>)
    ensures
        match path {
            Some(p) => path_in(lossy(first_line(buf@))) == Some(p@),
            None => path_in(lossy(first_line(buf@))) is None,
        },
{
    let mut end: usize = 0;
    assert(buf@.skip(0) =~= buf@);
    while end < buf.len() && buf[end] != 10
        invariant
            end <= buf@.len(),
            line_len(buf@) == end + line_len(buf@.skip(end as int)),
        decreases buf@.len() - end,
    {
        assert(buf@.skip(end as int).skip(1) =~= buf@.skip(end + 1));
        end += 1;
    }
    let line = vstd::slice::slice_subrange(buf, 0, end);
    assert(line@ =~= first_line(buf@));
    let line = from_utf8_lossy(line);
    path_of_line(line.as_str())
}

/// A path without the slashes it starts with.
pub open spec fn without_slashes(path: Seq<char>) -> Seq<char>
    decreases path.len(),
{
    if path.len() > 0 && path[0] == '/' {
        without_slashes(path.skip(1))
    } else {
        path
    }
}

/// The name a path asks for.
pub open spec fn asked_name(path: Seq<char>) -> Seq<char> {
    let key = without_slashes(path);
    if key.len() == 0 {
        "index.html"@
    } else {
        key
    }
}

/// The first name of a table that is the one asked for.
pub open spec fn first_named(names: Seq<Seq<char>>, key: Seq<char>, from: int) -> Option<int>
    decreases names.len() - from,
{
    if from >= names.len() {
        None
    } else if names[from] == key {
        Some(from)
    } else {
        first_named(names, key, from + 1)
    }
}

/// The entry a path is answered with: the file of that name, or else the page.
pub open spec fn found(names: Seq<Seq<char>>, path: Seq<char>) -> Option<int> {
    match first_named(names, asked_name(path), 0) {
        Some(i) => Some(i),
        None => first_named(names, "index.html"@, 0),
    }
}

fn position(names: &[String], key: &str) -> (at: Option<usize>)
    ensures
        match at {
            Some(i) => i < names@.len() && first_named(text::texts(names@), key@, 0) == Some(
                i as int,
            ),
            None => first_named(text::texts(names@), key@, 0) is None,
        },
{
    let mut i: usize = 0;
    while i < names.len()
        invariant
            i <= names@.len(),
            first_named(text::texts(names@), key@, 0) == first_named(
                text::texts(names@),
                key@,
                i as int,
            ),
        decreases names@.len() - i,
    {
        if same(names[i].as_str(), key) {
            return Some(i);
        }
        i += 1;
    }
    None
}

/// Resolve a path to an entry of the bundle. A path cannot escape the bundle:
/// there is no file system here to escape onto, only this table.
pub fn lookup(names: &[String], path: &str) -> (at: Option<usize>)
    ensures
        match at {
            Some(i) => i < names@.len() && found(text::texts(names@), path@) == Some(i as int),
            None => found(text::texts(names@), path@) is None,
        },
{
    let chars = chars_of(path);
    let n: usize = chars.len();
    let mut start: usize = 0;
    assert(chars@.skip(0) =~= chars@);
    while start < n && chars[start] == '/'
        invariant
            n == chars@.len(),
            start <= n,
            without_slashes(chars@) == without_slashes(chars@.skip(start as int)),
        decreases n - start,
    {
        assert(chars@.skip(start as int).skip(1) =~= chars@.skip(start + 1));
        start += 1;
    }
    let key = vstd::slice::slice_subrange(chars.as_slice(), start, n);
    assert(key@ =~= without_slashes(path@));
    let key = if key.len() == 0 {
        "index.html".to_owned()
    } else {
        string_of(key)
    };
    match position(names, key.as_str()) {
        Some(i) => Some(i),
        None => position(names, "index.html"),
    }
}

/// The line that tells a page its socket.
pub open spec fn socket_tag(ws_port: u16) -> Seq<char> {
    "<script>window.__DJLED_WS__=\"ws://127.0.0.1:"@ + decimal(ws_port as nat)
        + "\";</script>"@
}

/// A text with the socket written in front of the end of its head.
pub open spec fn with_socket(page: Seq<char>, at: int, ws_port: u16) -> Seq<char> {
    page.take(at) + socket_tag(ws_port) + page.skip(at)
}

/// A page with its socket, or the bytes as they are when there is no head to
/// write it in.
pub open spec fn injected(html: Seq<u8>, page: Seq<char>, ws_port: u16) -> Seq<u8> {
    match first_at(page, "</head>"@, 0) {
        Some(at) => encode_utf8(with_socket(page, at, ws_port)),
        None => html,
    }
}

/// Tell a page, given as its bytes and as the text they hold, which socket to
/// talk to.
pub fn inject_into(html: &[u8], page: &str, ws_port: u16) -> (out: Vec<u8>)
    ensures
        out@ == injected(html@, page@, ws_port),
{
    let chars = chars_of(page);
    let mark = chars_of("</head>");
    let mut out: Vec<u8> = Vec::new();
    proof {
        text::lemma_first_at(page@, "</head>"@, 0);
    }
    match text::find(chars.as_slice(), mark.as_slice()) {
        Some(at) => {
            let mut built = string_of(vstd::slice::slice_subrange(chars.as_slice(), 0, at));
            built.append("<script>window.__DJLED_WS__=\"ws://127.0.0.1:");
            push_decimal(&mut built, ws_port as u128);
            built.append("\";</script>");
            let tail = string_of(
                vstd::slice::slice_subrange(chars.as_slice(), at, chars.len()),
            );
            built.append(tail.as_str());
            assert(built@ =~= with_socket(page@, at as int, ws_port));
            out.extend_from_slice(built.as_str().as_bytes());
            assert(out@ =~= encode_utf8(built@));
        },
        None => {
            assert(first_at(page@, "</head>"@, 0) is None) by {
                match first_at(page@, "</head>"@, 0) {
                    Some(at) => {
                        assert(occurs_at(page@, "</head>"@, at));
                    },
                    None => {},
                }
            }
            out.extend_from_slice(html);
            assert(out@ =~= html@);
        },
    }
    out
}

/// Tell a page which socket to talk to, by writing one global in front of the
/// bundle that reads it. A page with no head is served untouched.
pub fn inject_socket(html: &[u8], ws_port: u16) -> (out: Vec<u8>)
    ensures
        out@ == injected(html@, lossy(html@), ws_port),
        valid_utf8(html@) ==> out@ == injected(html@, decode_utf8(html@), ws_port),
{
    let page = from_utf8_lossy(html);
    inject_into(html, page.as_str(), ws_port)
}

/// What follows the last dot of a name, or the whole name without one.
pub open spec fn extension(name: Seq<char>) -> Seq<char>
    decreases name.len(),
{
    if name.len() == 0 || name.last() == '.' {
        Seq::empty()
    } else {
        extension(name.drop_last()).push(name.last())
    }
}

/// The media type of a file extension.
pub open spec fn media_type(ext: Seq<char>) -> Seq<char> {
    if ext == "html"@ {
        "text/html; charset=utf-8"@
    } else if ext == "js"@ || ext == "mjs"@ {
        "text/javascript; charset=utf-8"@
    } else if ext == "css"@ {
        "text/css; charset=utf-8"@
    } else if ext == "json"@ || ext == "map"@ {
        "application/json; charset=utf-8"@
    } else if ext == "svg"@ {
        "image/svg+xml"@
    } else if ext == "png"@ {
        "image/png"@
    } else if ext == "jpg"@ || ext == "jpeg"@ {
        "image/jpeg"@
    } else if ext == "gif"@ {
        "image/gif"@
    } else if ext == "ico"@ {
        "image/x-icon"@
    } else if ext == "webp"@ {
        "image/webp"@
    } else if ext == "woff"@ {
        "font/woff"@
    } else if ext == "woff2"@ {
        "font/woff2"@
    } else if ext == "ttf"@ {
        "font/ttf"@
    } else if ext == "wasm"@ {
        "application/wasm"@
    } else {
        "application/octet-stream"@
    }
}

/// The media type a file is served with, by its extension.
pub fn content_type(name: &str) -> (mime: &'static str)
    ensures
        mime@ == media_type(extension(name@)),
{
    let chars = chars_of(name);
    let n: usize = chars.len();
    let mut start: usize = n;
    let ghost tail = chars@.skip(n as int);
    assert(extension(chars@) =~= extension(chars@.take(n as int)) + tail) by {
        assert(chars@.take(n as int) =~= chars@);
    }
    while start > 0 && chars[start - 1] != '.'
        invariant
            n == chars@.len(),
            start <= n,
            extension(chars@) == extension(chars@.take(start as int)) + chars@.skip(start as int),
        decreases start,
    {
        proof {
            let whole = chars@.take(start as int);
            assert(whole.drop_last() =~= chars@.take(start - 1));
            assert(extension(whole) + chars@.skip(start as int) =~= extension(
                chars@.take(start - 1),
            ) + chars@.skip(start - 1));
        }
        start -= 1;
    }
    proof {
        let whole = chars@.take(start as int);
        assert(start > 0 ==> whole.last() == '.');
        assert(extension(whole) =~= Seq::<char>::empty());
        assert(extension(chars@) =~= chars@.skip(start as int));
    }
    let ext = string_of(vstd::slice::slice_subrange(chars.as_slice(), start, n));
    assert(ext@ =~= extension(name@));
    let ext = ext.as_str();
    if same(ext, "html") {
        "text/html; charset=utf-8"
    } else if same(ext, "js") || same(ext, "mjs") {
        "text/javascript; charset=utf-8"
    } else if same(ext, "css") {
        "text/css; charset=utf-8"
    } else if same(ext, "json") || same(ext, "map") {
        "application/json; charset=utf-8"
    } else if same(ext, "svg") {
        "image/svg+xml"
    } else if same(ext, "png") {
        "image/png"
    } else if same(ext, "jpg") || same(ext, "jpeg") {
        "image/jpeg"
    } else if same(ext, "gif") {
        "image/gif"
    } else if same(ext, "ico") {
        "image/x-icon"
    } else if same(ext, "webp") {
        "image/webp"
    } else if same(ext, "woff") {
        "font/woff"
    } else if same(ext, "woff2") {
        "font/woff2"
    } else if same(ext, "ttf") {
        "font/ttf"
    } else if same(ext, "wasm") {
        "application/wasm"
    } else {
        "application/octet-stream"
    }
}

/// What a response carries.
#[derive(Clone, Copy, Debug, PartialEq, Eq, Structural)]
pub enum Body {
    /// The request made no sense.
    BadRequest,
    /// The page, which is to be told its socket.
    Page(usize),
    /// A file of the bundle, as it is.
    File(usize),
    /// There is not even a page.
    NotFound,
}

/// What a path is answered with.
pub open spec fn body_for(names: Seq<Seq<char>>, path: Option<Seq<char>>) -> Body {
    match path {
        None => Body::BadRequest,
        Some(path) => match found(names, path) {
            None => Body::NotFound,
            Some(i) => if names[i] == "index.html"@ {
                Body::Page(i as usize)
            } else {
                Body::File(i as usize)
            },
        },
    }
}

/// What a path is answered with.
pub fn serve(names: &[String], path: &Option<String>) -> (body: Body)
    ensures
        body == body_for(
            text::texts(names@),
            match *path {
                Some(p) => Some(p@),
                None => None,
            },
        ),
        body matches Body::Page(i) ==> i < names@.len(),
        body matches Body::File(i) ==> i < names@.len(),
{
    match path {
        None => Body::BadRequest,
        Some(path) => match lookup(names, path.as_str()) {
            None => Body::NotFound,
            Some(i) => {
                assert(text::texts(names@)[i as int] == names@[i as int]@);
                if same(names[i].as_str(), "index.html") {
                    Body::Page(i)
                } else {
                    Body::File(i)
                }
            },
        },
    }
}

/// The status line of a response.
pub open spec fn status_of(body: Body) -> Seq<char> {
    match body {
        Body::BadRequest => "400 Bad Request"@,
        Body::NotFound => "404 Not Found"@,
        _ => "200 OK"@,
    }
}

/// The media type of a response.
pub open spec fn mime_of(body: Body, names: Seq<Seq<char>>) -> Seq<char> {
    match body {
        Body::Page(_) => "text/html; charset=utf-8"@,
        Body::File(i) => media_type(extension(names[i as int])),
        _ => "text/plain; charset=utf-8"@,
    }
}

/// The head of a response. Nothing is cached: a cached page pointing at an
/// asset of the previous build is a white screen after an upgrade.
pub open spec fn head_text(status: Seq<char>, mime: Seq<char>, len: nat) -> Seq<char> {
    "HTTP/1.1 "@ + status + "\r\nContent-Type: "@ + mime + "\r\nContent-Length: "@ + decimal(
        len,
    ) + "\r\nCache-Control: no-store\r\nConnection: close\r\n\r\n"@
}

/// The head of a response whose body has a length.
pub fn respond(body: Body, names: &[String], len: usize) -> (out: String)
    requires
        body matches Body::File(i) ==> i < names@.len(),
    ensures
        out@ == head_text(status_of(body), mime_of(body, text::texts(names@)), len as nat),
{
    let status: &'static str = match body {
        Body::BadRequest => "400 Bad Request",
        Body::NotFound => "404 Not Found",
        _ => "200 OK",
    };
    let mime: &'static str = match body {
        Body::Page(_) => "text/html; charset=utf-8",
        Body::File(i) => content_type(names[i].as_str()),
        _ => "text/plain; charset=utf-8",
    };
    let mut out = String::new();
    out.append("HTTP/1.1 ");
    out.append(status);
    out.append("\r\nContent-Type: ");
    out.append(mime);
    out.append("\r\nContent-Length: ");
    push_decimal(&mut out, len as u128);
    out.append("\r\nCache-Control: no-store\r\nConnection: close\r\n\r\n");
    assert(out@ =~= head_text(status@, mime@, len as nat));
    out
}

/// The socket lands in the page and before its head closes: the line stands
/// right in front of the first end of a head, and taking it out again gives the
/// page back.
pub proof fn law_the_socket_is_injected_before_the_head_closes(page: Seq<char>, ws_port: u16)
    requires
        first_at(page, "</head>"@, 0) is Some,
    ensures
        ({
            let at = first_at(page, "</head>"@, 0)->0;
            let out = with_socket(page, at, ws_port);
            let tag = socket_tag(ws_port);
            &&& injected(encode_utf8(page), page, ws_port) == encode_utf8(out)
            &&& occurs_at(out, tag, at)
            &&& occurs_at(out, "</head>"@, at + tag.len())
            &&& out.take(at) + out.skip(at + tag.len() as int) == page
        }),
{
    text::lemma_first_at(page, "</head>"@, 0);
    let at = first_at(page, "</head>"@, 0)->0;
    let out = with_socket(page, at, ws_port);
    let tag = socket_tag(ws_port);
    assert(out.subrange(at, at + tag.len()) =~= tag);
    assert(out.subrange(at + tag.len(), at + tag.len() + "</head>"@.len()) =~= page.subrange(
        at,
        at + "</head>"@.len(),
    ));
    assert(out.take(at) + out.skip(at + tag.len() as int) =~= page);
}

/// A page without a head is left alone, byte for byte.
pub proof fn law_a_page_without_a_head_is_left_alone(
    html: Seq<u8>,
    page: Seq<char>,
    ws_port: u16,
)
    requires
        !text::occurs(page, "</head>"@),
    ensures
        injected(html, page, ws_port) == html,
{
    text::lemma_first_at(page, "</head>"@, 0);
}

/// As long as the page is bundled, no well-formed request goes unanswered:
/// whatever it asks for, it gets a file or the page.
pub proof fn law_a_bundled_page_answers_everything(
    names: Seq<Seq<char>>,
    path: Seq<char>,
    page: int,
)
    requires
        0 <= page < names.len() <= usize::MAX,
        names[page] == "index.html"@,
    ensures
        body_for(names, Some(path)) is Page || body_for(names, Some(path)) is File,
{
    lemma_first_named(names, "index.html"@, 0, page);
}

proof fn lemma_first_named(names: Seq<Seq<char>>, key: Seq<char>, from: int, at: int)
    requires
        0 <= from <= at < names.len(),
        names[at] == key,
    ensures
        first_named(names, key, from) is Some,
    decreases at - from,
{
    if names[from] != key {
        lemma_first_named(names, key, from + 1, at);
    }
}

/// A request line that reads asks for its target, without a query or a fragment
/// behind it, whatever follows.
pub proof fn law_a_request_asks_for_its_target(
    head: bool,
    path: Seq<char>,
    query: Seq<char>,
    rest: Seq<char>,
)
    requires
        path.len() + query.len() > 0,
        forall|i: int|
            0 <= i < path.len() ==> !text::white_space(#[trigger] path[i]) && path[i] != '?'
                && path[i] != '#',
        forall|i: int| 0 <= i < query.len() ==> !text::white_space(#[trigger] query[i]),
        query.len() > 0 ==> query[0] == '?' || query[0] == '#',
        rest.len() > 0 ==> text::white_space(rest[0]),
    ensures
        path_in(
            (if head {
                "HEAD"@
            } else {
                "GET"@
            }) + " "@ + path + query + rest,
        ) == Some(path),
{
    let method = if head {
        "HEAD"@
    } else {
        "GET"@
    };
    let target = path + query;
    let line = method + " "@ + path + query + rest;
    reveal_strlit("HEAD");
    reveal_strlit("GET");
    reveal_strlit(" ");
    let none = Seq::<char>::empty();
    let tail = " "@ + target + rest;
    assert(line =~= none + method + tail);
    text::law_the_first_word_is_what_stands_between_white_space(none, method, tail);
    assert forall|i: int| 0 <= i < target.len() implies !text::white_space(
        #[trigger] target[i],
    ) by {
        if i < path.len() {
            assert(target[i] == path[i]);
        } else {
            assert(target[i] == query[i - path.len()]);
        }
    }
    text::law_the_first_word_is_what_stands_between_white_space(" "@, target, rest);
    lemma_path_ends(path, query);
    assert(target.take(path.len() as int) =~= path);
}

proof fn lemma_path_ends(path: Seq<char>, query: Seq<char>)
    requires
        forall|i: int|
            0 <= i < path.len() ==> (#[trigger] path[i]) != '?' && path[i] != '#',
        query.len() > 0 ==> query[0] == '?' || query[0] == '#',
    ensures
        path_len(path + query) == path.len(),
    decreases path.len(),
{
    let s = path + query;
    if path.len() == 0 {
        assert(s =~= query);
    } else {
        assert(s[0] == path[0]);
        assert(s.skip(1) =~= path.skip(1) + query);
        assert forall|i: int| 0 <= i < path.skip(1).len() implies (#[trigger] path.skip(1)[i])
            != '?' && path.skip(1)[i] != '#' by {
            assert(path.skip(1)[i] == path[i + 1]);
        }
        lemma_path_ends(path.skip(1), query);
    }
}

/// A line that is not a request to read asks for nothing.
pub proof fn law_only_a_request_to_read_is_answered(line: Seq<char>)
    ensures
        path_in(line) is Some ==> first_word(line) == "GET"@ || first_word(line) == "HEAD"@,
        path_in(line) is Some ==> first_word(after_word(line)).len() > 0,
{
}

/// The first line of a request is what comes before its first newline.
pub proof fn law_the_first_line_ends_at_the_first_newline(line: Seq<u8>, rest: Seq<u8>)
    requires
        forall|i: int| 0 <= i < line.len() ==> (#[trigger] line[i]) != 10,
        rest.len() > 0 ==> rest[0] == 10,
    ensures
        first_line(line + rest) == line,
{
    lemma_line_ends(line, rest);
    assert((line + rest).take(line.len() as int) =~= line);
}

proof fn lemma_line_ends(line: Seq<u8>, rest: Seq<u8>)
    requires
        forall|i: int| 0 <= i < line.len() ==> (#[trigger] line[i]) != 10,
        rest.len() > 0 ==> rest[0] == 10,
    ensures
        line_len(line + rest) == line.len(),
    decreases line.len(),
{
    let s = line + rest;
    if line.len() == 0 {
        assert(s =~= rest);
    } else {
        assert(s[0] == line[0]);
        assert(s.skip(1) =~= line.skip(1) + rest);
        assert forall|i: int| 0 <= i < line.skip(1).len() implies (#[trigger] line.skip(1)[i])
            != 10 by {
            assert(line.skip(1)[i] == line[i + 1]);
        }
        lemma_line_ends(line.skip(1), rest);
    }
}

/// A file of the bundle is served under its name, however many slashes come
/// before it, and the page as the page.
pub proof fn law_a_bundled_file_is_served(names: Seq<Seq<char>>, slashes: Seq<char>, at: int)
    requires
        0 <= at < names.len() <= usize::MAX,
        names[at].len() > 0,
        names[at][0] != '/',
        forall|i: int| 0 <= i < slashes.len() ==> (#[trigger] slashes[i]) == '/',
        forall|i: int| 0 <= i < at ==> (#[trigger] names[i]) != names[at],
    ensures
        body_for(names, Some(slashes + names[at])) == if names[at] == "index.html"@ {
            Body::Page(at as usize)
        } else {
            Body::File(at as usize)
        },
{
    lemma_slashes_come_off(slashes, names[at]);
    lemma_first_is_named(names, names[at], 0, at);
}

proof fn lemma_slashes_come_off(slashes: Seq<char>, name: Seq<char>)
    requires
        forall|i: int| 0 <= i < slashes.len() ==> (#[trigger] slashes[i]) == '/',
        name.len() > 0,
        name[0] != '/',
    ensures
        without_slashes(slashes + name) == name,
    decreases slashes.len(),
{
    let s = slashes + name;
    if slashes.len() == 0 {
        assert(s =~= name);
    } else {
        assert(s[0] == slashes[0]);
        assert(s.skip(1) =~= slashes.skip(1) + name);
        assert forall|i: int| 0 <= i < slashes.skip(1).len() implies (
        #[trigger] slashes.skip(1)[i]) == '/' by {
            assert(slashes.skip(1)[i] == slashes[i + 1]);
        }
        lemma_slashes_come_off(slashes.skip(1), name);
    }
}

proof fn lemma_first_is_named(names: Seq<Seq<char>>, key: Seq<char>, from: int, at: int)
    requires
        0 <= from <= at < names.len(),
        names[at] == key,
        forall|i: int| 0 <= i < at ==> (#[trigger] names[i]) != key,
    ensures
        first_named(names, key, from) == Some(at),
    decreases at - from,
{
    if from < at {
        assert(names[from] != key);
        lemma_first_is_named(names, key, from + 1, at);
    }
}

/// What answers a request is in the bundle: a file under the name that was asked
/// for, or the page.
pub proof fn law_what_is_served_was_asked_for(names: Seq<Seq<char>>, path: Seq<char>)
    requires
        names.len() <= usize::MAX,
    ensures
        body_for(names, None) == Body::BadRequest,
        body_for(names, Some(path)) matches Body::File(i) ==> i < names.len() && names[i as int]
            == without_slashes(path),
        body_for(names, Some(path)) matches Body::Page(i) ==> i < names.len() && names[i as int]
            == "index.html"@,
{
    lemma_first_named_is_named(names, asked_name(path), 0);
    lemma_first_named_is_named(names, "index.html"@, 0);
}

proof fn lemma_first_named_is_named(names: Seq<Seq<char>>, key: Seq<char>, from: int)
    requires
        0 <= from,
    ensures
        first_named(names, key, from) matches Some(i) ==> from <= i < names.len() && names[i]
            == key,
    decreases names.len() - from,
{
    if from < names.len() && names[from] != key {
        lemma_first_named_is_named(names, key, from + 1);
    }
}

} // verus!
