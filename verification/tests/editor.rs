use djled::hotkeys::{spawn as register, Hotkeys};
use djled::logging::redirect;
use djled::presets::SLOTS;
use djled::tray::{
    chosen, close, editor_url, gesture, open_entry, spawn, tooltip, wide, Choice, Gesture, Tray,
    TrayEvent,
};
use djled::ui::{encode_strip, Action, Announced, Client, Event, Parsed, DEFAULT_PORT};
use djled::web::{
    content_type, inject_into, inject_socket, lookup, request_complete, request_path, respond,
    serve, start, Body, WebServer,
};

#[test]
fn strip_encodes_as_lowercase_hex() {
    assert_eq!(encode_strip(&[[0, 0, 0]]), "000000");
    assert_eq!(encode_strip(&[[255, 255, 255]]), "ffffff");
    assert_eq!(encode_strip(&[[0x1A, 0x2B, 0x3C], [4, 5, 6]]), "1a2b3c040506");
    assert_eq!(encode_strip(&[]), "");
}

#[test]
fn strip_payload_stays_small_at_600_leds() {
    let leds = vec![[0x80u8; 3]; 600];
    assert_eq!(encode_strip(&leds).len(), 3600);
}

#[test]
fn a_client_is_sent_the_state_first_and_frames_after() {
    let mut client = Client::connect();
    assert!(matches!(client.action(), Action::SendState));
    client.handle(Event::StateSent(3));
    assert!(matches!(client.action(), Action::Read));
    client.handle(Event::Ignored);
    assert!(matches!(client.action(), Action::Read));
    client.handle(Event::Quiet);
    assert!(matches!(client.action(), Action::Check));
    client.handle(Event::Version(3));
    assert!(matches!(client.action(), Action::SendFrame));
    client.handle(Event::FrameSent);
    assert!(matches!(client.action(), Action::Wait));
    client.handle(Event::Waited);
    assert!(matches!(client.action(), Action::Read));
}

#[test]
fn stale_state_goes_out_before_the_next_frame() {
    let mut announced = Announced::new();
    let mut client = Client::connect();
    client.handle(Event::StateSent(announced.version()));
    announced.announce_state();
    client.handle(Event::Quiet);
    client.handle(Event::Version(announced.version()));
    assert!(matches!(client.action(), Action::SendState));
    client.handle(Event::StateSent(announced.version()));
    assert!(matches!(client.action(), Action::SendFrame));
}

#[test]
fn a_malformed_command_is_answered_and_the_client_stays() {
    let mut client = Client::connect();
    client.handle(Event::StateSent(0));
    client.handle(Event::Text(Parsed::Malformed("expected value".to_string())));
    match client.action() {
        Action::Reply(message) => assert_eq!(message, "could not parse command: expected value"),
        _ => panic!("no reply was asked for"),
    }
    client.handle(Event::Replied);
    assert!(matches!(client.action(), Action::Read));
}

#[test]
fn commands_are_forwarded_until_the_engine_is_gone() {
    let mut client = Client::connect();
    client.handle(Event::StateSent(0));
    client.handle(Event::Text(Parsed::Command));
    assert!(matches!(client.action(), Action::Forward));
    client.handle(Event::Forwarded(true));
    assert!(matches!(client.action(), Action::Read));
    client.handle(Event::Text(Parsed::RequestState));
    assert!(matches!(client.action(), Action::SendState));
    client.handle(Event::StateSent(1));
    client.handle(Event::Text(Parsed::Command));
    client.handle(Event::Forwarded(false));
    assert!(matches!(client.action(), Action::End(true)));
}

#[test]
fn a_connection_ends_when_it_is_closed_or_fails() {
    let mut closed = Client::connect();
    closed.handle(Event::StateSent(0));
    closed.handle(Event::Closed);
    assert!(matches!(closed.action(), Action::End(true)));
    closed.handle(Event::Quiet);
    assert!(matches!(closed.action(), Action::End(true)));

    let mut failed = Client::connect();
    failed.handle(Event::Failed);
    assert!(matches!(failed.action(), Action::End(false)));
    assert_eq!(DEFAULT_PORT, 9001);
}

#[test]
fn the_socket_is_injected_before_the_head_closes() {
    let page = inject_socket(b"<html><head><title>x</title></head><body></body></html>", 9001);
    let page = String::from_utf8(page).unwrap();
    let injected = page.find("__DJLED_WS__").expect("the global is written");
    assert!(injected < page.find("</head>").unwrap());
    assert!(page.contains("ws://127.0.0.1:9001"));
}

#[test]
fn a_page_without_a_head_is_left_alone() {
    assert_eq!(inject_socket(b"<p>hello</p>", 9001), b"<p>hello</p>");
}

#[test]
fn content_types_are_by_extension_and_default_to_bytes() {
    assert_eq!(content_type("assets/index-a1b2.js"), "text/javascript; charset=utf-8");
    assert_eq!(content_type("index.html"), "text/html; charset=utf-8");
    assert_eq!(content_type("noextension"), "application/octet-stream");
}

#[test]
fn every_known_extension_has_its_type() {
    for (name, mime) in [
        ("a.mjs", "text/javascript; charset=utf-8"),
        ("a.css", "text/css; charset=utf-8"),
        ("a.json", "application/json; charset=utf-8"),
        ("a.js.map", "application/json; charset=utf-8"),
        ("a.svg", "image/svg+xml"),
        ("a.png", "image/png"),
        ("a.jpeg", "image/jpeg"),
        ("a.gif", "image/gif"),
        ("favicon.ico", "image/x-icon"),
        ("a.webp", "image/webp"),
        ("a.woff", "font/woff"),
        ("a.woff2", "font/woff2"),
        ("a.ttf", "font/ttf"),
        ("a.wasm", "application/wasm"),
        ("html", "text/html; charset=utf-8"),
        ("html.", "application/octet-stream"),
    ] {
        assert_eq!(content_type(name), mime, "{name}");
    }
}

#[test]
fn an_injected_page_is_exact() {
    assert_eq!(
        inject_into(b"", "a</head>b</head>", 7),
        b"a<script>window.__DJLED_WS__=\"ws://127.0.0.1:7\";</script></head>b</head>"
    );
    let accented = "<head>caf\u{e9}</head>";
    let out = String::from_utf8(inject_socket(accented.as_bytes(), 80)).unwrap();
    assert_eq!(
        out,
        "<head>caf\u{e9}<script>window.__DJLED_WS__=\"ws://127.0.0.1:80\";</script></head>"
    );
    let broken = inject_socket(b"\xff</head>", 1);
    assert!(String::from_utf8(broken).unwrap().starts_with('\u{fffd}'));
    assert_eq!(inject_socket(b"\xff", 1), b"\xff");
}

#[test]
fn a_request_line_names_a_path() {
    assert_eq!(request_path(b"GET /a/b.js?v=1 HTTP/1.1\r\nHost: x\r\n").as_deref(), Some("/a/b.js"));
    assert_eq!(request_path(b"HEAD / HTTP/1.1\r\n").as_deref(), Some("/"));
    assert_eq!(request_path(b"GET /x#y HTTP/1.1").as_deref(), Some("/x"));
    assert_eq!(request_path(b"GET ?q HTTP/1.1").as_deref(), Some(""));
    assert_eq!(request_path(b"POST / HTTP/1.1\r\n"), None);
    assert_eq!(request_path(b"GET"), None);
    assert_eq!(request_path(b""), None);
    assert!(request_path(b"GET /\xff HTTP/1.1\n").is_some());
}

#[test]
fn a_request_is_complete_at_its_first_newline_or_the_cap() {
    assert!(!request_complete(b"GET / HT"));
    assert!(request_complete(b"GET / HTTP/1.1\r\n"));
    assert!(request_complete(&vec![b'a'; 16 * 1024]));
}

fn bundle() -> Vec<String> {
    vec!["assets/app.js".to_string(), "index.html".to_string(), "favicon.ico".to_string()]
}

#[test]
fn anything_unknown_is_the_page() {
    let names = bundle();
    assert_eq!(lookup(&names, "/"), Some(1));
    assert_eq!(lookup(&names, "//assets/app.js"), Some(0));
    assert_eq!(lookup(&names, "/some/route"), Some(1));
    assert_eq!(lookup(&names, "../../etc/passwd"), Some(1));
    assert_eq!(lookup(&[], "/"), None);

    assert_eq!(serve(&names, &Some("/".to_string())), Body::Page(1));
    assert_eq!(serve(&names, &Some("/favicon.ico".to_string())), Body::File(2));
    assert_eq!(serve(&names, &None), Body::BadRequest);
    assert_eq!(serve(&[], &Some("/".to_string())), Body::NotFound);
}

#[test]
fn a_response_head_is_exact() {
    assert_eq!(
        respond(Body::File(0), &bundle(), 12),
        "HTTP/1.1 200 OK\r\nContent-Type: text/javascript; charset=utf-8\r\nContent-Length: 12\r\nCache-Control: no-store\r\nConnection: close\r\n\r\n"
    );
    assert!(respond(Body::NotFound, &[], 9).starts_with("HTTP/1.1 404 Not Found\r\n"));
    assert!(respond(Body::BadRequest, &[], 11).starts_with("HTTP/1.1 400 Bad Request\r\n"));
}

#[test]
fn an_empty_bundle_is_refused_out_loud() {
    assert!(start(0).unwrap_err().contains("npm run build"));
    assert!(start(1).is_ok());
    let server = WebServer::bound(8123);
    assert_eq!(server.port(), 8123);
    assert_eq!(server.url(), "http://127.0.0.1:8123/");
}

#[test]
fn labels_number_function_keys_from_one() {
    assert_eq!(Hotkeys::label(0), "ctrl+alt+F1");
    assert_eq!(Hotkeys::label(11), "ctrl+alt+F12");
    assert_eq!(Hotkeys::label(SLOTS - 1), "ctrl+alt+F12");
}

#[test]
fn refused_combinations_are_named() {
    let mut claims = vec![true; SLOTS];
    claims[3] = false;
    claims[11] = false;
    let mut keys = match Hotkeys::start(&Some(claims)) {
        Ok(keys) => keys,
        Err(e) => panic!("{e}"),
    };
    assert_eq!(keys.refused(), [3, 11]);
    keys.struck(4);
    keys.struck(12);
    keys.struck(0);
    assert_eq!(keys.drain(), [4, 0]);
    assert!(keys.drain().is_empty());
    assert_eq!(
        register(&None).unwrap_err(),
        "global hotkeys need Windows; select presets in the editor instead"
    );
    assert!(Hotkeys::start(&None).is_err());
}

#[test]
fn the_menu_asks_for_what_was_chosen() {
    assert_eq!(chosen(1), Choice::OpenEditor);
    assert_eq!(chosen(2), Choice::Tell(TrayEvent::Restart));
    assert_eq!(chosen(3), Choice::Tell(TrayEvent::Stop));
    assert_eq!(chosen(0), Choice::Nothing);
    assert_eq!(gesture(0x0001_0205), Gesture::ShowMenu);
    assert_eq!(gesture(0x0203), Gesture::OpenEditor);
    assert_eq!(gesture(0x0200), Gesture::Nothing);
    assert_eq!(open_entry(""), (true, "Editor unavailable — see the log"));
    assert_eq!(open_entry("http://x/"), (false, "Open editor"));
    assert_eq!(editor_url(""), None);
    assert_eq!(editor_url("http://x/").as_deref(), Some("http://x/"));
}

#[test]
fn an_icon_hands_over_its_events_once() {
    let mut tray = match Tray::start(Some(Ok(7))) {
        Ok(tray) => tray,
        Err(e) => panic!("{e}"),
    };
    tray.send(TrayEvent::Stop);
    tray.send(TrayEvent::Restart);
    assert_eq!(tray.drain(), [TrayEvent::Stop, TrayEvent::Restart]);
    assert!(tray.drain().is_empty());
    assert_eq!(tray.remove(), Some(7));
    assert!(!close(0));
    assert!(Tray::start(None).is_err());
    assert_eq!(spawn(Some(Err("no".to_string()))), Err("no".to_string()));
    assert!(spawn(None).unwrap_err().contains("needs Windows"));
}

#[test]
fn wide_text_is_utf16_with_a_null() {
    for s in ["", "DJLED", "caf\u{e9} — \u{1F600}", "\u{ffff}\u{10000}\u{10ffff}"] {
        let mut expected: Vec<u16> = s.encode_utf16().collect();
        expected.push(0);
        assert_eq!(wide(s), expected);
    }
    assert_eq!(tooltip("COM3", 128), wide("DJLED — COM3"));
    assert_eq!(tooltip("COM3", 5), wide("DJLED")[..5]);
}

#[test]
fn a_log_is_started_again_past_its_cap() {
    assert!(!redirect(None));
    assert!(!redirect(Some(1 << 20)));
    assert!(redirect(Some((1 << 20) + 1)));
}
