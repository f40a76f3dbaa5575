use pico_blink::decimal::{parse_u32, write_decimal};
use pico_blink::record::StoreState;
use pico_blink::request::{extract_body, parse_hz, request_line, route, Route};
use pico_blink::response::{index, redirect, reply_to, send_json, status, Reply};
use pico_blink::serve::apply;
use pico_blink::settings::{PartialSettings, Settings, SettingsError};
use pico_blink::store::SettingsStore;

use embassy_rp::flash::Error as FlashError;

fn bad_json() -> serde_json_core::de::Error {
    serde_json_core::from_slice::<u32>(b"x").unwrap_err()
}

fn store(hz: u32) -> SettingsStore {
    SettingsStore::init(Ok(Settings { blink_hz: hz }), Err(bad_json())).0
}

#[test]
fn numbers_are_read() {
    for (text, value) in [
        ("0", Some(0)),
        ("5", Some(5)),
        ("+5", Some(5)),
        ("007", Some(7)),
        ("000000000000000012", Some(12)),
        ("4294967295", Some(u32::MAX)),
        ("4294967296", None),
        ("42949672950", None),
        ("", None),
        ("+", None),
        ("++5", None),
        ("-5", None),
        ("-0", None),
        ("5 ", None),
        (" 5", None),
        ("5.0", None),
        ("0x5", None),
        ("5a", None),
    ] {
        assert_eq!(parse_u32(text.as_bytes()), value, "{}", text);
        assert_eq!(text.parse::<u32>().ok(), value, "{}", text);
    }
}

#[test]
fn hz_is_found_in_the_query() {
    for (line, value) in [
        ("GET /set?hz=7 HTTP/1.1", Some(7)),
        ("GET /set?hz=7", Some(7)),
        ("GET /set?a=1&hz=12&b=2 HTTP/1.1", Some(12)),
        ("GET /set?hz=3&hz=4 HTTP/1.1", Some(3)),
        ("GET /set?hz=x&hz=4 HTTP/1.1", None),
        ("GET /set?hz= HTTP/1.1", None),
        ("GET /set?hz HTTP/1.1", None),
        ("GET /set?ahz=3 HTTP/1.1", None),
        ("GET /set HTTP/1.1", None),
        ("GET /set HTTP/1.1?hz=9", Some(9)),
        ("GET /set? hz=9", None),
        ("GET /set?&&hz=9", Some(9)),
        ("GET /set?hz=9?hz=8", None),
        ("?hz=+6", Some(6)),
        ("?hz=99999999999", None),
        ("", None),
        ("GET /\u{e9}\u{4e16}?\u{1f600}=1&hz=11 \u{e9}", Some(11)),
    ] {
        assert_eq!(parse_hz(line), value, "{}", line);
    }
}

#[test]
fn a_form_asks_for_its_number() {
    for n in [0u32, 1, 9, 10, 20, 99, 100, 12345, 4294967295] {
        assert_eq!(parse_hz(&format!("GET /set?hz={} HTTP/1.1", n)), Some(n));
        assert_eq!(parse_hz(&format!("GET /set?hz={}", n)), Some(n));
    }
}

#[test]
fn bodies() {
    assert_eq!(extract_body("POST / HTTP/1.1\r\nA: b\r\n\r\n{}"), Some("{}"));
    assert_eq!(extract_body("a\r\n\r\nb\r\n\r\nc"), Some("b\r\n\r\nc"));
    assert_eq!(extract_body("a\r\n\r\n"), Some(""));
    assert_eq!(extract_body("a\r\n\nb"), None);
    assert_eq!(extract_body(""), None);
    assert_eq!(extract_body("\u{e9}\r\n\r\n\u{4e16}"), Some("\u{4e16}"));
}

#[test]
fn request_lines() {
    for text in ["", "a", "a\n", "a\r\n", "a\r\nb", "a\nb\r\n", "\n", "\r\n", "\r", "a\r", "a\r\r\nb", "\u{e9}\r\n"] {
        assert_eq!(request_line(text), text.lines().next().unwrap_or(""), "{:?}", text);
    }
}

#[test]
fn routes() {
    for (request, expected) in [
        ("GET /set?hz=5 HTTP/1.1\r\n\r\n", Route::SetHz { hz: Some(5) }),
        ("GET /set HTTP/1.1\r\n\r\n", Route::SetHz { hz: None }),
        ("GET /settings HTTP/1.1\r\n\r\n", Route::SetHz { hz: None }),
        ("POST /api/reset HTTP/1.1\r\n\r\n", Route::Reset),
        ("GET /api/reset HTTP/1.1\r\n\r\n", Route::Reset),
        ("POST /api/settings HTTP/1.1\r\n\r\n{\"blink_hz\":4}", Route::Import { body: "{\"blink_hz\":4}" }),
        ("POST /api/settings HTTP/1.1\r\n", Route::Import { body: "" }),
        ("GET /api/settings HTTP/1.1\r\n\r\n", Route::Export),
        ("GET / HTTP/1.1\r\n\r\n", Route::Index),
        ("GET /generate_204 HTTP/1.1\r\n\r\n", Route::Index),
        ("GET /hotspot-detect.html HTTP/1.1\r\n\r\n", Route::Index),
        ("POST /set?hz=5 HTTP/1.1\r\n\r\n", Route::NotFound),
        ("PUT / HTTP/1.1\r\n\r\n", Route::NotFound),
        ("get / HTTP/1.1\r\n\r\n", Route::NotFound),
        ("\r\nGET / HTTP/1.1\r\n\r\n", Route::NotFound),
        ("", Route::NotFound),
    ] {
        assert_eq!(route(request.as_bytes()), expected, "{:?}", request);
    }
}

#[test]
fn bytes_that_are_no_text_are_not_found() {
    assert_eq!(route(b"GET / HTTP/1.1\r\n\r\n\xff"), Route::NotFound);
    assert_eq!(route(b"GET / \xc3\xa9"), Route::Index);
    assert_eq!(route(b"GET / \xc3"), Route::NotFound);
    assert_eq!(route(b"GET / \xed\xa0\x80"), Route::NotFound);
}

#[test]
fn replies() {
    let redirect = Reply::Redirect { location: "/" };
    for outcome in [Ok(()), Err(SettingsError::Flash)] {
        assert_eq!(reply_to(&Route::SetHz { hz: Some(1) }, &outcome), redirect);
        assert_eq!(reply_to(&Route::Reset, &outcome), redirect);
        assert_eq!(reply_to(&Route::Index, &outcome), Reply::Page);
        assert_eq!(reply_to(&Route::NotFound, &outcome), Reply::Status { code: 404, reason: "Not Found" });
    }
    let import = Route::Import { body: "" };
    assert_eq!(reply_to(&import, &Ok(())), Reply::Status { code: 200, reason: "OK" });
    assert_eq!(reply_to(&import, &Err(SettingsError::Json)), Reply::Status { code: 400, reason: "Bad Request" });
    assert_eq!(reply_to(&Route::Export, &Ok(())), Reply::Json);
    assert_eq!(reply_to(&Route::Export, &Err(SettingsError::Json)), Reply::Status { code: 500, reason: "Internal Error" });
}

#[test]
fn redirect_head() {
    assert_eq!(
        redirect("/").as_str(),
        "HTTP/1.1 303 See Other\r\nLocation: /\r\nContent-Length: 0\r\nConnection: close\r\n\r\n"
    );
    let longest = "x".repeat(52);
    assert_eq!(redirect(&longest).len(), 128);
    assert!(redirect(&longest).ends_with("\r\n\r\n"));
}

#[test]
fn redirect_that_does_not_fit() {
    let start = "HTTP/1.1 303 See Other\r\nLocation: ";
    let long = "x".repeat(53);
    assert_eq!(redirect(&long).as_str(), format!("{}{}", start, long));
    let full = "x".repeat(94);
    assert_eq!(redirect(&full).as_str(), format!("{}{}", start, full));
    assert_eq!(redirect(&"x".repeat(95)).as_str(), start);
}

#[test]
fn status_heads() {
    let tail = "\r\nContent-Length: 0\r\nConnection: close\r\n\r\n";
    for (code, reason) in [(200u16, "OK"), (404, "Not Found"), (0, ""), (65535, "x"), (7, "\u{e9}")] {
        assert_eq!(status(code, reason).as_str(), format!("HTTP/1.1 {} {}{}", code, reason, tail));
    }
    let longest = "y".repeat(71);
    assert_eq!(status(65535, &longest).len(), 128);
    assert_eq!(status(65535, &"y".repeat(72)).as_str(), format!("HTTP/1.1 65535 {}", "y".repeat(72)));
    assert_eq!(status(404, &"y".repeat(200)).as_str(), "HTTP/1.1 404 ");
}

#[test]
fn json_heads() {
    for body in [&b""[..], &b"{\"blink_hz\":3}"[..], &[b' '; 1234][..]] {
        assert_eq!(
            send_json(body).as_str(),
            format!(
                "HTTP/1.1 200 OK\r\nContent-Type: application/json\r\nContent-Length: {}\r\nConnection: close\r\n\r\n",
                body.len()
            )
        );
    }
}

fn sent(template: &'static str, hz: u32) -> String {
    let page = index(template, &store(hz));
    let mut out: Vec<u8> = Vec::new();
    let mut i = 0;
    while let Some(bytes) = page.chunk(i) {
        out.extend_from_slice(bytes);
        i += 1;
    }
    assert!(page.chunk(i + 1).is_none());
    assert!(page.chunk(usize::MAX).is_none());
    String::from_utf8(out).unwrap()
}

#[test]
fn pages() {
    for template in [
        "",
        "plain",
        "{{HZ}}",
        "<b>{{HZ}}</b>",
        "{{HZ}}{{HZ}}",
        "a{{{HZ}}}b{{HZ}c{{HZ}}",
        "\u{e9}{{HZ}}\u{4e16}{{HZ}}\u{1f600}",
        "1{{HZ}}2{{HZ}}3{{HZ}}4{{HZ}}5{{HZ}}6{{HZ}}7{{HZ}}8",
    ] {
        for hz in [1u32, 9, 10, 20] {
            let body = template.replace("{{HZ}}", &hz.to_string());
            let head = format!(
                "HTTP/1.1 200 OK\r\nContent-Type: text/html; charset=utf-8\r\nContent-Length: {}\r\nConnection: close\r\n\r\n",
                body.len()
            );
            assert_eq!(sent(template, hz), format!("{}{}", head, body));
        }
    }
}

#[test]
fn page_shows_the_clamped_frequency() {
    assert!(sent("f={{HZ}}", 999).ends_with("\r\n\r\nf=20"));
}

#[test]
fn requests_change_the_settings() {
    let mut s = store(4);
    let none = || Ok(PartialSettings::default());
    let state = apply(&mut s, &Route::SetHz { hz: Some(90) }, none(), Err(bad_json()));
    assert!(matches!(state, Some(StoreState::Erase { .. })));
    assert_eq!(s.current().blink_hz, 20);
    let import = Route::Import { body: "" };
    let state = apply(&mut s, &import, Ok(PartialSettings { blink_hz: Some(6) }), Err(bad_json()));
    assert!(matches!(state, Some(StoreState::Erase { .. })));
    assert_eq!(s.current().blink_hz, 6);
    let state = apply(&mut s, &Route::Reset, none(), Ok(Settings { blink_hz: 11 }));
    assert!(matches!(state, Some(StoreState::Erase { .. })));
    assert_eq!(s.current().blink_hz, 11);
}

#[test]
fn refused_import_is_answered_400() {
    let mut s = store(4);
    let import = Route::Import { body: "nonsense" };
    let state = apply(&mut s, &import, Err(bad_json()), Ok(Settings { blink_hz: 11 }));
    assert!(matches!(state, Some(StoreState::Done { result: Err(SettingsError::Json) })));
    assert_eq!(s.current().blink_hz, 4);
    assert_eq!(reply_to(&import, &Err(SettingsError::Json)), Reply::Status { code: 400, reason: "Bad Request" });
}

#[test]
fn looking_changes_nothing() {
    let mut s = store(4);
    for route in [Route::SetHz { hz: None }, Route::Export, Route::Index, Route::NotFound] {
        let parsed = Ok(PartialSettings { blink_hz: Some(19) });
        assert!(apply(&mut s, &route, parsed, Ok(Settings { blink_hz: 11 })).is_none());
        assert_eq!(s.current().blink_hz, 4);
    }
}

#[test]
fn form_sets_the_frequency() {
    for (n, hz) in [(0, 1), (7, 7), (20, 20), (4294967295u32, 20)] {
        let request = format!("GET /set?hz={} HTTP/1.1\r\nHost: pico\r\n\r\n?hz=3", n);
        let route = route(request.as_bytes());
        assert_eq!(route, Route::SetHz { hz: Some(n) });
        let mut s = store(4);
        let none = Ok(PartialSettings::default());
        assert!(apply(&mut s, &route, none, Err(bad_json())).is_some());
        assert_eq!(s.current().blink_hz, hz);
        assert_eq!(reply_to(&route, &Ok(())), Reply::Redirect { location: "/" });
    }
}

#[test]
fn first_line_ends_at_its_ending() {
    assert_eq!(request_line("GET / HTTP/1.1\r\nHost: a\r\n"), "GET / HTTP/1.1");
    assert_eq!(request_line("GET /\r\n\nmore"), "GET /");
    assert_eq!(request_line("\r\nGET /"), "");
}

#[test]
fn numbers_are_written_to_the_end() {
    let mut room = [b'.'; 20];
    assert_eq!(write_decimal(0, &mut room), "0");
    assert_eq!(&room, b"...................0");
    assert_eq!(write_decimal(404, &mut room), "404");
    assert_eq!(&room, b".................404");
    assert_eq!(write_decimal(u64::MAX, &mut room), "18446744073709551615");
    assert_eq!(&room, b"18446744073709551615");
}

#[test]
fn import_is_answered_by_its_outcome() {
    let import = Route::Import { body: "{}" };
    let ok = Reply::Status { code: 200, reason: "OK" };
    let bad = Reply::Status { code: 400, reason: "Bad Request" };
    for (readable, erased, written, outcome, reply) in [
        (true, true, true, Ok(()), ok),
        (true, true, false, Err(SettingsError::Flash), bad),
        (true, false, true, Err(SettingsError::Flash), bad),
        (true, false, false, Err(SettingsError::Flash), bad),
        (false, true, true, Err(SettingsError::Json), bad),
        (false, false, false, Err(SettingsError::Json), bad),
    ] {
        let flash = |worked| if worked { Ok(()) } else { Err(FlashError::Other) };
        let parsed = if readable { Ok(PartialSettings { blink_hz: Some(6) }) } else { Err(bad_json()) };
        let mut s = store(4);
        let state = apply(&mut s, &import, parsed, Err(bad_json())).unwrap();
        match state.step(flash(erased)).step(flash(written)) {
            StoreState::Done { result } => {
                assert_eq!(result, outcome);
                assert_eq!(reply_to(&import, &result), reply);
            }
            other => panic!("{:?}", other),
        }
        assert_eq!(s.current().blink_hz, if readable { 6 } else { 4 });
    }
}

#[test]
fn export_has_room() {
    for hz in [1, 20] {
        assert!(store(hz).export_json(&mut [0u8; 23]).is_ok());
    }
    assert_eq!(Settings { blink_hz: u32::MAX }.to_json(&mut [0u8; 23]), Ok(23));
    assert_eq!(Settings { blink_hz: u32::MAX }.to_json(&mut [0u8; 22]), Err(SettingsError::Json));
}
