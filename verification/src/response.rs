//! Responses of the web server, up to the last byte that is sent.

use vstd::prelude::*;
use vstd::string::StringSliceAdditionalSpecFns;

use crate::bounded::{
    bytes_160, bytes_8, new_128, new_160, new_8, new_parts, part, parts_8, parts_len, push_128,
    push_160, push_8, push_part, text_128, text_160, text_8,
};
use crate::bytes::{find, first_match, occurs_at, split};
use crate::decimal::{
    decimal, decimal_value, law_decimal_is_shortest, law_decimal_reads_back, lemma_decimal_len,
    power_of_ten, write_decimal,
};
use crate::request::{lemma_ascii_boundaries, Route, RouteKind};
use crate::settings::SettingsError;
use crate::store::SettingsStore;

verus! {

/// What is sent back.
#[derive(Clone, Copy, Debug, PartialEq, Eq)]
pub enum Reply {
    /// Send the client to another address.
    Redirect { location: &'static str },
    /// A status without a body.
    Status { code: u16, reason: &'static str },
    /// The settings as JSON.
    Json,
    /// The settings page.
    Page,
}

/// The reply to a request of the given kind, when what it asked for has
/// worked, or has not. A change by form is answered the same either way.
pub open spec fn reply_of(kind: RouteKind, worked: bool) -> Reply {
    match kind {
        RouteKind::SetHz => Reply::Redirect { location: "/" },
        RouteKind::Reset => Reply::Redirect { location: "/" },
        RouteKind::Import => if worked {
            Reply::Status { code: 200, reason: "OK" }
        } else {
            Reply::Status { code: 400, reason: "Bad Request" }
        },
        RouteKind::Export => if worked {
            Reply::Json
        } else {
            Reply::Status { code: 500, reason: "Internal Error" }
        },
        RouteKind::Index => Reply::Page,
        RouteKind::NotFound => Reply::Status { code: 404, reason: "Not Found" },
    }
}

/// Decides what is sent back, once it is known what came of what the request
/// asked for: of reading, erasing and writing for one that is to change the
/// settings, and of writing the text for an export.
pub fn reply_to(route: &Route<'_>, outcome: &Result<(), SettingsError>) -> (reply: Reply)
    ensures
        reply == reply_of(route.kind(), outcome is Ok),
{
    let worked = match outcome {
        Ok(()) => true,
        Err(_) => false,
    };
    match route {
        Route::SetHz { hz: _ } => Reply::Redirect { location: "/" },
        Route::Reset => Reply::Redirect { location: "/" },
        Route::Import { body: _ } => if worked {
            Reply::Status { code: 200, reason: "OK" }
        } else {
            Reply::Status { code: 400, reason: "Bad Request" }
        },
        Route::Export => if worked {
            Reply::Json
        } else {
            Reply::Status { code: 500, reason: "Internal Error" }
        },
        Route::Index => Reply::Page,
        Route::NotFound => Reply::Status { code: 404, reason: "Not Found" },
    }
}

/// What stands in a string of capacity `room` that held `text` after `pieces`
/// were written to it one by one, up to the first that did not fit.
pub open spec fn written(room: nat, text: Seq<u8>, pieces: Seq<Seq<u8>>) -> Seq<u8>
    decreases pieces.len(),
{
    if pieces.len() == 0 || text.len() + pieces[0].len() > room {
        text
    } else {
        written(room, text + pieces[0], pieces.skip(1))
    }
}

/// The pieces of a redirect.
pub open spec fn redirect_pieces(loc: Seq<u8>) -> Seq<Seq<u8>> {
    seq![
        "HTTP/1.1 303 See Other\r\nLocation: ".spec_bytes(),
        loc,
        "\r\nContent-Length: 0\r\nConnection: close\r\n\r\n".spec_bytes(),
    ]
}

/// The pieces of a status without a body.
pub open spec fn status_pieces(code: u16, reason: Seq<u8>) -> Seq<Seq<u8>> {
    seq![
        "HTTP/1.1 ".spec_bytes(),
        decimal(code as nat),
        " ".spec_bytes(),
        reason,
        "\r\nContent-Length: 0\r\nConnection: close\r\n\r\n".spec_bytes(),
    ]
}

/// The head of the response with the settings page.
pub open spec fn page_head(body_len: nat) -> Seq<u8> {
    "HTTP/1.1 200 OK\r\nContent-Type: text/html; charset=utf-8\r\nContent-Length: ".spec_bytes()
        + decimal(body_len) + "\r\nConnection: close\r\n\r\n".spec_bytes()
}

/// The head of the response with the settings as JSON.
pub open spec fn json_head(body_len: nat) -> Seq<u8> {
    "HTTP/1.1 200 OK\r\nContent-Type: application/json\r\nContent-Length: ".spec_bytes() + decimal(
        body_len,
    ) + "\r\nConnection: close\r\n\r\n".spec_bytes()
}

/// A redirect to `loc`. Of one that is too long, the part that fits.
pub fn redirect(loc: &str) -> (head: heapless::String<128>)
    ensures
        text_128(head) == written(128, Seq::empty(), redirect_pieces(loc.spec_bytes())),
{
    reveal_with_fuel(written, 4);
    let mut head = new_128();
    let ghost pieces = redirect_pieces(loc.spec_bytes());
    assert(pieces.skip(1)[0] == pieces[1]);
    assert(pieces.skip(1).skip(1)[0] == pieces[2]);
    if push_128(&mut head, "HTTP/1.1 303 See Other\r\nLocation: ") && push_128(&mut head, loc) {
        let _ = push_128(&mut head, "\r\nContent-Length: 0\r\nConnection: close\r\n\r\n");
    }
    head
}

/// A status without a body. Of one that is too long, the part that fits.
pub fn status(code: u16, reason: &str) -> (head: heapless::String<128>)
    ensures
        text_128(head) == written(128, Seq::empty(), status_pieces(code, reason.spec_bytes())),
{
    reveal_with_fuel(written, 6);
    let mut head = new_128();
    let mut room = [0u8;20];
    let digits = write_decimal(code as u64, &mut room);
    let ghost pieces = status_pieces(code, reason.spec_bytes());
    assert(pieces.skip(1)[0] == pieces[1]);
    assert(pieces.skip(1).skip(1)[0] == pieces[2]);
    assert(pieces.skip(1).skip(1).skip(1)[0] == pieces[3]);
    assert(pieces.skip(1).skip(1).skip(1).skip(1)[0] == pieces[4]);
    if push_128(&mut head, "HTTP/1.1 ") && push_128(&mut head, digits) && push_128(&mut head, " ")
        && push_128(&mut head, reason) {
        let _ = push_128(&mut head, "\r\nContent-Length: 0\r\nConnection: close\r\n\r\n");
    }
    head
}

/// The length of a number in a head.
proof fn lemma_number_len(n: nat)
    requires
        n <= u64::MAX,
    ensures
        1 <= decimal(n).len() <= 20,
{
    assert(n < power_of_ten(20)) by {
        reveal_with_fuel(power_of_ten, 21);
    }
    lemma_decimal_len(n, 20);
}

/// The lengths of the fixed parts of a head with a length.
proof fn lemma_head_literals()
    ensures
        "HTTP/1.1 200 OK\r\nContent-Type: text/html; charset=utf-8\r\nContent-Length: ".spec_bytes().len()
            == 73,
        "HTTP/1.1 200 OK\r\nContent-Type: application/json\r\nContent-Length: ".spec_bytes().len()
            == 65,
        "\r\nConnection: close\r\n\r\n".spec_bytes().len() == 23,
{
    reveal_strlit("HTTP/1.1 200 OK\r\nContent-Type: text/html; charset=utf-8\r\nContent-Length: ");
    reveal_strlit("HTTP/1.1 200 OK\r\nContent-Type: application/json\r\nContent-Length: ");
    reveal_strlit("\r\nConnection: close\r\n\r\n");
    vstd::utf8::is_ascii_chars_encode_utf8(
        "HTTP/1.1 200 OK\r\nContent-Type: text/html; charset=utf-8\r\nContent-Length: "@,
    );
    vstd::utf8::is_ascii_chars_encode_utf8(
        "HTTP/1.1 200 OK\r\nContent-Type: application/json\r\nContent-Length: "@,
    );
    vstd::utf8::is_ascii_chars_encode_utf8("\r\nConnection: close\r\n\r\n"@);
}

/// The head in front of a JSON body.
pub fn send_json(body: &[u8]) -> (head: heapless::String<160>)
    ensures
        text_160(head) == json_head(body@.len()),
{
    proof {
        lemma_head_literals();
        lemma_number_len(body.len() as nat);
    }
    let mut room = [0u8;20];
    let digits = write_decimal(body.len() as u64, &mut room);
    let mut head = new_160();
    let _ = push_160(
        &mut head,
        "HTTP/1.1 200 OK\r\nContent-Type: application/json\r\nContent-Length: ",
    );
    let _ = push_160(&mut head, digits);
    let _ = push_160(&mut head, "\r\nConnection: close\r\n\r\n");
    assert(text_160(head) =~= json_head(body@.len()));
    head
}

/// The parts joined, with `value` between each two.
pub open spec fn join(parts: Seq<Seq<u8>>, value: Seq<u8>) -> Seq<u8>
    decreases parts.len(),
{
    if parts.len() == 0 {
        Seq::empty()
    } else if parts.len() == 1 {
        parts[0]
    } else {
        parts[0] + value + join(parts.skip(1), value)
    }
}

/// The parts of the page around its placeholders.
pub open spec fn page_parts(template: Seq<u8>) -> Seq<Seq<u8>> {
    split(template, "{{HZ}}".spec_bytes())
}

/// The page with each placeholder replaced by the frequency.
pub open spec fn page_body(template: Seq<u8>, hz: u32) -> Seq<u8> {
    join(page_parts(template), decimal(hz as nat))
}

/// The bytes of each part.
pub open spec fn bytes_of(parts: Seq<&'static str>) -> Seq<Seq<u8>> {
    Seq::new(parts.len(), |i: int| parts[i].spec_bytes())
}

/// The settings page, ready to be sent chunk by chunk.
pub struct IndexPage {
    /// The head of the response.
    pub header: heapless::String<160>,
    /// What stands in for each placeholder.
    pub hz: heapless::String<8>,
    /// The parts of the page around its placeholders.
    pub parts: heapless::Vec<&'static str, 8>,
}

impl IndexPage {
    /// The body that the chunks make up.
    pub open spec fn body(self) -> Seq<u8> {
        join(bytes_of(parts_8(self.parts)), text_8(self.hz))
    }

    /// The number of chunks: the head, the parts, and the frequency between
    /// each two parts.
    pub open spec fn chunk_count(self) -> int {
        2 * parts_8(self.parts).len() as int
    }

    /// The `i`th chunk.
    pub open spec fn chunk_at(self, i: int) -> Seq<u8> {
        if i == 0 {
            text_160(self.header)
        } else if i % 2 == 1 {
            parts_8(self.parts)[i / 2].spec_bytes()
        } else {
            text_8(self.hz)
        }
    }

    /// What has been sent after the first `n` chunks.
    pub open spec fn sent(self, n: int) -> Seq<u8>
        decreases n,
    {
        if n <= 0 {
            Seq::empty()
        } else {
            self.sent(n - 1) + self.chunk_at(n - 1)
        }
    }

    /// The `i`th chunk to send, as long as there is one.
    pub fn chunk(&self, i: usize) -> (res: Option<&[u8]>)
        ensures
            match res {
                Some(bytes) => i < self.chunk_count() && bytes@ == self.chunk_at(i as int),
                None => i >= self.chunk_count(),
            },
    {
        let n = parts_len(&self.parts);
        if i / 2 >= n {
            return None;
        }
        if i == 0 {
            return Some(bytes_160(&self.header));
        }
        if i % 2 == 1 {
            Some(part(&self.parts, i / 2).as_bytes())
        } else {
            Some(bytes_8(&self.hz))
        }
    }
}

/// A placeholder can be cut out of a text.
proof fn lemma_placeholder_boundaries(text: Seq<u8>, i: int)
    requires
        vstd::utf8::valid_utf8(text),
        occurs_at(text, "{{HZ}}".spec_bytes(), i),
    ensures
        "{{HZ}}".spec_bytes().len() == 6,
        vstd::utf8::is_char_boundary(text, i),
        vstd::utf8::is_char_boundary(text, i + 6),
{
    reveal_strlit("{{HZ}}");
    vstd::utf8::is_ascii_chars_encode_utf8("{{HZ}}"@);
    let at = text.subrange(i, i + 6);
    assert(at[0] == text[i]);
    assert(at[5] == text[i + 5]);
    lemma_ascii_boundaries(text, i);
    lemma_ascii_boundaries(text, i + 5);
}

/// Cuts the page at its placeholders.
fn cut_page(template: &'static str) -> (parts: heapless::Vec<&'static str, 8>)
    requires
        page_parts(template.spec_bytes()).len() <= 8,
    ensures
        bytes_of(parts_8(parts)) == page_parts(template.spec_bytes()),
{
    let mut parts = new_parts();
    let mut rest = template;
    let ghost pattern = "{{HZ}}".spec_bytes();
    assert(bytes_of(parts_8(parts)) + split(rest.spec_bytes(), pattern) =~= page_parts(
        template.spec_bytes(),
    ));
    loop
        invariant
            pattern == "{{HZ}}".spec_bytes(),
            page_parts(template.spec_bytes()).len() <= 8,
            page_parts(template.spec_bytes()) == bytes_of(parts_8(parts)) + split(
                rest.spec_bytes(),
                pattern,
            ),
        decreases rest.spec_bytes().len(),
    {
        let ghost before = parts_8(parts);
        let ghost text = rest.spec_bytes();
        let bytes = rest.as_bytes();
        match find(bytes, "{{HZ}}".as_bytes()) {
            Some(i) => {
                proof {
                    vstd::utf8::encode_utf8_valid_utf8(rest@);
                    lemma_placeholder_boundaries(text, i as int);
                }
                let (front, _) = rest.split_at(i);
                let (_, back) = rest.split_at(i + 6);
                let ghost tail = split(back.spec_bytes(), pattern);
                assert(front.spec_bytes() =~= text.take(i as int));
                assert(back.spec_bytes() =~= text.skip(i + 6));
                assert(split(text, pattern) == seq![front.spec_bytes()] + tail);
                let _ = push_part(&mut parts, front);
                assert(bytes_of(before.push(front)) =~= bytes_of(before).push(front.spec_bytes()));
                assert(bytes_of(parts_8(parts)) + tail =~= bytes_of(before) + split(text, pattern));
                rest = back;
            },
            None => {
                assert(split(text, pattern) == seq![text]);
                let _ = push_part(&mut parts, rest);
                assert(bytes_of(before.push(rest)) =~= bytes_of(before).push(text));
                assert(bytes_of(parts_8(parts)) =~= bytes_of(before) + seq![text]);
                return parts;
            },
        }
    }
}

/// The total length of the parts.
pub open spec fn total_len(parts: Seq<Seq<u8>>) -> nat
    decreases parts.len(),
{
    if parts.len() == 0 {
        0
    } else {
        parts[0].len() + total_len(parts.skip(1))
    }
}

proof fn lemma_join_len(parts: Seq<Seq<u8>>, value: Seq<u8>)
    requires
        parts.len() > 0,
    ensures
        join(parts, value).len() == total_len(parts) + value.len() * (parts.len() - 1),
    decreases parts.len(),
{
    if parts.len() == 1 {
        assert(total_len(parts.skip(1)) == 0);
        assert(value.len() * 0 == 0) by (nonlinear_arith);
    } else {
        lemma_join_len(parts.skip(1), value);
        let n = parts.len() as int;
        let v = value.len() as int;
        assert(v * (n - 1) == v + v * (n - 2)) by (nonlinear_arith);
    }
}

/// The parts of a text are no longer than the text.
proof fn lemma_split_len(text: Seq<u8>, pattern: Seq<u8>)
    ensures
        split(text, pattern).len() >= 1,
        total_len(split(text, pattern)) <= text.len(),
    decreases text.len(),
{
    reveal_with_fuel(total_len, 2);
    match first_match(text, pattern) {
        Some(i) => {
            if pattern.len() > 0 && 0 <= i && i + pattern.len() <= text.len() {
                let rest = text.skip(i + pattern.len());
                lemma_split_len(rest, pattern);
                assert(split(text, pattern).skip(1) =~= split(rest, pattern));
            } else {
                assert(split(text, pattern).skip(1) =~= Seq::<Seq<u8>>::empty());
            }
        },
        None => {
            assert(split(text, pattern).skip(1) =~= Seq::<Seq<u8>>::empty());
        },
    }
}

/// The total length of the parts.
fn parts_total(parts: &heapless::Vec<&'static str, 8>) -> (total: usize)
    requires
        total_len(bytes_of(parts_8(*parts))) <= usize::MAX,
    ensures
        total == total_len(bytes_of(parts_8(*parts))),
{
    let ghost all = bytes_of(parts_8(*parts));
    let n = parts_len(parts);
    let mut total: usize = 0;
    let mut i: usize = 0;
    assert(all.skip(0) =~= all);
    while i < n
        invariant
            i <= n,
            n == all.len(),
            all == bytes_of(parts_8(*parts)),
            total + total_len(all.skip(i as int)) == total_len(all),
            total_len(all) <= usize::MAX,
        decreases n - i,
    {
        assert(all.skip(i as int).skip(1) =~= all.skip(i + 1));
        assert(all.skip(i as int)[0] == all[i as int]);
        total += part(parts, i).len();
        i += 1;
    }
    total
}

/// The settings page with the frequency in force in place of each placeholder.
///
/// The page may have at most seven placeholders.
pub fn index(template: &'static str, settings: &SettingsStore) -> (page: IndexPage)
    requires
        page_parts(template.spec_bytes()).len() <= 8,
        template.spec_bytes().len() <= isize::MAX,
    ensures
        page.body() == page_body(template.spec_bytes(), settings.settings().blink_hz),
        text_160(page.header) == page_head(page.body().len()),
        bytes_of(parts_8(page.parts)) == page_parts(template.spec_bytes()),
        text_8(page.hz) == decimal(settings.settings().blink_hz as nat),
{
    let snapshot = settings.current();
    let mut room = [0u8;20];
    let number = write_decimal(snapshot.blink_hz as u64, &mut room);
    proof {
        assert(snapshot.blink_hz < power_of_ten(2)) by {
            reveal_with_fuel(power_of_ten, 3);
        }
        lemma_decimal_len(snapshot.blink_hz as nat, 2);
        lemma_split_len(template.spec_bytes(), "{{HZ}}".spec_bytes());
        lemma_join_len(page_parts(template.spec_bytes()), decimal(snapshot.blink_hz as nat));
    }
    let mut hz = new_8();
    let _ = push_8(&mut hz, number);
    assert(text_8(hz) =~= decimal(snapshot.blink_hz as nat));
    let parts = cut_page(template);
    let n = parts_len(&parts);
    let hz_len = bytes_8(&hz).len();
    assert(hz_len * (n - 1) <= 14) by (nonlinear_arith)
        requires
            1 <= n <= 8,
            hz_len <= 2,
    ;
    let body_len = parts_total(&parts) + hz_len * (n - 1);
    proof {
        lemma_head_literals();
        lemma_number_len(body_len as nat);
    }
    let mut room = [0u8;20];
    let digits = write_decimal(body_len as u64, &mut room);
    let mut header = new_160();
    let _ = push_160(
        &mut header,
        "HTTP/1.1 200 OK\r\nContent-Type: text/html; charset=utf-8\r\nContent-Length: ",
    );
    let _ = push_160(&mut header, digits);
    let _ = push_160(&mut header, "\r\nConnection: close\r\n\r\n");
    let page = IndexPage { header, hz, parts };
    assert(text_160(page.header) =~= page_head(page.body().len()));
    page
}

/// Joining goes on at the end as it does at the front.
proof fn lemma_join_push(parts: Seq<Seq<u8>>, value: Seq<u8>, last: Seq<u8>)
    requires
        parts.len() > 0,
    ensures
        join(parts.push(last), value) == join(parts, value) + value + last,
    decreases parts.len(),
{
    let longer = parts.push(last);
    if parts.len() == 1 {
        assert(longer.skip(1) =~= seq![last]);
        assert(join(longer.skip(1), value) == last);
        assert(join(longer, value) =~= join(parts, value) + value + last);
    } else {
        assert(longer.skip(1) =~= parts.skip(1).push(last));
        lemma_join_push(parts.skip(1), value, last);
        assert(join(longer, value) =~= join(parts, value) + value + last);
    }
}

proof fn lemma_sent(page: IndexPage, k: int)
    requires
        1 <= k <= parts_8(page.parts).len(),
    ensures
        page.sent(2 * k) == text_160(page.header) + join(
            bytes_of(parts_8(page.parts)).take(k),
            text_8(page.hz),
        ),
    decreases k,
{
    reveal_with_fuel(IndexPage::sent, 3);
    let parts = bytes_of(parts_8(page.parts));
    let value = text_8(page.hz);
    if k == 1 {
        assert(parts.take(1).len() == 1);
        assert(page.chunk_at(1) == parts[0]);
        assert(page.sent(2) =~= text_160(page.header) + parts[0]);
    } else {
        lemma_sent(page, k - 1);
        assert(page.chunk_at(2 * k - 2) == value);
        assert(page.chunk_at(2 * k - 1) == parts[k - 1]);
        assert(parts.take(k) =~= parts.take(k - 1).push(parts[k - 1]));
        lemma_join_push(parts.take(k - 1), value, parts[k - 1]);
        assert(page.sent(2 * k) =~= page.sent(2 * k - 2) + value + parts[k - 1]);
        assert(page.sent(2 * k) =~= text_160(page.header) + join(parts.take(k), value));
    }
}

/// The chunks, sent one after the other, are the head and the body.
pub proof fn law_chunks_make_the_response(page: IndexPage)
    requires
        parts_8(page.parts).len() > 0,
    ensures
        page.sent(page.chunk_count()) == text_160(page.header) + page.body(),
{
    let parts = bytes_of(parts_8(page.parts));
    lemma_sent(page, parts.len() as int);
    assert(parts.take(parts.len() as int) =~= parts);
}

/// A page without a placeholder is sent as it stands.
pub proof fn law_page_without_placeholder(template: Seq<u8>, hz: u32)
    requires
        forall|i: int| !#[trigger] occurs_at(template, "{{HZ}}".spec_bytes(), i),
    ensures
        page_body(template, hz) == template,
{
    crate::bytes::lemma_first_match_none(template, "{{HZ}}".spec_bytes());
    assert(page_parts(template) == seq![template]);
}

/// Behind a part without a placeholder, the placeholder is replaced, and the
/// rest of the page is treated as a page of its own.
pub proof fn law_placeholder_is_replaced(front: Seq<u8>, rest: Seq<u8>, hz: u32)
    requires
        forall|i: int|
            0 <= i < front.len() ==> !#[trigger] occurs_at(
                front + "{{HZ}}".spec_bytes() + rest,
                "{{HZ}}".spec_bytes(),
                i,
            ),
    ensures
        page_body(front + "{{HZ}}".spec_bytes() + rest, hz) == front + decimal(hz as nat)
            + page_body(rest, hz),
{
    let pattern = "{{HZ}}".spec_bytes();
    let template = front + pattern + rest;
    assert(pattern.len() == 6) by {
        reveal_strlit("{{HZ}}");
        vstd::utf8::is_ascii_chars_encode_utf8("{{HZ}}"@);
    }
    crate::bytes::lemma_first_match_behind(front, pattern, rest);
    lemma_split_len(rest, pattern);
    assert(page_parts(template) == seq![front] + page_parts(rest));
    assert(page_parts(template).skip(1) =~= page_parts(rest));
}

/// A redirect to a location of up to 52 bytes is complete.
pub proof fn law_redirect_is_complete(loc: Seq<u8>)
    requires
        loc.len() <= 52,
    ensures
        written(128, Seq::empty(), redirect_pieces(loc))
            == "HTTP/1.1 303 See Other\r\nLocation: ".spec_bytes() + loc
            + "\r\nContent-Length: 0\r\nConnection: close\r\n\r\n".spec_bytes(),
{
    reveal_strlit("HTTP/1.1 303 See Other\r\nLocation: ");
    reveal_strlit("\r\nContent-Length: 0\r\nConnection: close\r\n\r\n");
    vstd::utf8::is_ascii_chars_encode_utf8("HTTP/1.1 303 See Other\r\nLocation: "@);
    vstd::utf8::is_ascii_chars_encode_utf8(
        "\r\nContent-Length: 0\r\nConnection: close\r\n\r\n"@,
    );
    reveal_with_fuel(written, 4);
    let pieces = redirect_pieces(loc);
    assert(pieces.skip(1)[0] == pieces[1]);
    assert(pieces.skip(1).skip(1)[0] == pieces[2]);
    assert(written(128, Seq::empty(), pieces) =~= pieces[0] + pieces[1] + pieces[2]);
}

/// A status with a reason of up to 71 bytes is complete.
pub proof fn law_status_is_complete(code: u16, reason: Seq<u8>)
    requires
        reason.len() <= 71,
    ensures
        written(128, Seq::empty(), status_pieces(code, reason)) == "HTTP/1.1 ".spec_bytes()
            + decimal(code as nat) + " ".spec_bytes() + reason
            + "\r\nContent-Length: 0\r\nConnection: close\r\n\r\n".spec_bytes(),
{
    reveal_strlit("HTTP/1.1 ");
    reveal_strlit(" ");
    reveal_strlit("\r\nContent-Length: 0\r\nConnection: close\r\n\r\n");
    vstd::utf8::is_ascii_chars_encode_utf8("HTTP/1.1 "@);
    vstd::utf8::is_ascii_chars_encode_utf8(" "@);
    vstd::utf8::is_ascii_chars_encode_utf8(
        "\r\nContent-Length: 0\r\nConnection: close\r\n\r\n"@,
    );
    assert(code < power_of_ten(5)) by {
        reveal_with_fuel(power_of_ten, 6);
    }
    lemma_decimal_len(code as nat, 5);
    reveal_with_fuel(written, 6);
    let pieces = status_pieces(code, reason);
    assert(pieces.skip(1)[0] == pieces[1]);
    assert(pieces.skip(1).skip(1)[0] == pieces[2]);
    assert(pieces.skip(1).skip(1).skip(1)[0] == pieces[3]);
    assert(pieces.skip(1).skip(1).skip(1).skip(1)[0] == pieces[4]);
    assert(written(128, Seq::empty(), pieces) =~= pieces[0] + pieces[1] + pieces[2] + pieces[3]
        + pieces[4]);
}

/// The head of the page announces the true length of the body: between its
/// fixed words stand digits only, and these read back as the length.
pub proof fn law_page_head(body_len: nat)
    ensures
        ({
            let head = page_head(body_len);
            let digits = head.subrange(73, head.len() - 23);
            &&& head.len() > 96
            &&& head.take(73)
                == "HTTP/1.1 200 OK\r\nContent-Type: text/html; charset=utf-8\r\nContent-Length: ".spec_bytes()
            &&& head.skip(head.len() - 23) == "\r\nConnection: close\r\n\r\n".spec_bytes()
            &&& forall|i: int| 0 <= i < digits.len() ==> 48 <= #[trigger] digits[i] <= 57
            &&& digits.len() > 1 ==> digits[0] != 48
            &&& decimal_value(digits) == body_len
        }),
{
    lemma_head_literals();
    law_decimal_reads_back(body_len);
    law_decimal_is_shortest(body_len);
    let head = page_head(body_len);
    assert(head.subrange(73, head.len() - 23) =~= decimal(body_len));
    assert(head.take(73)
        =~= "HTTP/1.1 200 OK\r\nContent-Type: text/html; charset=utf-8\r\nContent-Length: ".spec_bytes());
    assert(head.skip(head.len() - 23) =~= "\r\nConnection: close\r\n\r\n".spec_bytes());
}

/// The head of the exported settings announces the true length of the body:
/// between its fixed words stand digits only, and these read back as the
/// length.
pub proof fn law_json_head(body_len: nat)
    ensures
        ({
            let head = json_head(body_len);
            let digits = head.subrange(65, head.len() - 23);
            &&& head.len() > 88
            &&& head.take(65)
                == "HTTP/1.1 200 OK\r\nContent-Type: application/json\r\nContent-Length: ".spec_bytes()
            &&& head.skip(head.len() - 23) == "\r\nConnection: close\r\n\r\n".spec_bytes()
            &&& forall|i: int| 0 <= i < digits.len() ==> 48 <= #[trigger] digits[i] <= 57
            &&& digits.len() > 1 ==> digits[0] != 48
            &&& decimal_value(digits) == body_len
        }),
{
    lemma_head_literals();
    law_decimal_reads_back(body_len);
    law_decimal_is_shortest(body_len);
    let head = json_head(body_len);
    assert(head.subrange(65, head.len() - 23) =~= decimal(body_len));
    assert(head.take(65)
        =~= "HTTP/1.1 200 OK\r\nContent-Type: application/json\r\nContent-Length: ".spec_bytes());
    assert(head.skip(head.len() - 23) =~= "\r\nConnection: close\r\n\r\n".spec_bytes());
}

/// The chunks in the order in which they are sent: the head, then the parts in
/// their order, with the frequency between each two; and what has been sent
/// grows by one chunk at a time.
pub proof fn law_chunks_in_order(page: IndexPage, k: int, n: int)
    requires
        0 <= k < parts_8(page.parts).len(),
        0 <= n,
    ensures
        page.chunk_count() == 2 * parts_8(page.parts).len(),
        page.chunk_at(0) == text_160(page.header),
        page.chunk_at(2 * k + 1) == parts_8(page.parts)[k].spec_bytes(),
        k > 0 ==> page.chunk_at(2 * k) == text_8(page.hz),
        page.sent(0) == Seq::<u8>::empty(),
        page.sent(n + 1) == page.sent(n) + page.chunk_at(n),
{
}

/// What is sent of a page whose head was made for its body announces as many
/// bytes as follow the blank line behind the head.
pub proof fn law_announced_length_is_sent(page: IndexPage)
    requires
        parts_8(page.parts).len() > 0,
        text_160(page.header) == page_head(page.body().len()),
    ensures
        ({
            let all = page.sent(page.chunk_count());
            let head = text_160(page.header);
            &&& all.take(head.len() as int) == head
            &&& decimal_value(all.subrange(73, head.len() - 23)) == all.len() - head.len()
            &&& all.subrange(head.len() - 4, head.len() as int) == seq![13u8, 10, 13, 10]
        }),
{
    let all = page.sent(page.chunk_count());
    let head = text_160(page.header);
    law_chunks_make_the_response(page);
    law_page_head(page.body().len());
    let end = "\r\nConnection: close\r\n\r\n".spec_bytes();
    lemma_head_literals();
    reveal_strlit("\r\nConnection: close\r\n\r\n");
    vstd::utf8::is_ascii_chars_encode_utf8("\r\nConnection: close\r\n\r\n"@);
    assert(all.take(head.len() as int) =~= head);
    assert(all.subrange(73, head.len() - 23) =~= head.subrange(73, head.len() - 23));
    assert forall|i: int| 0 <= i < 23 implies all[head.len() - 23 + i] == #[trigger] end[i] by {
        assert(head.skip(head.len() - 23)[i] == head[head.len() - 23 + i]);
    }
    assert(end.subrange(19, 23) =~= seq![13u8, 10, 13, 10]);
    assert(all.subrange(head.len() - 4, head.len() as int) =~= end.subrange(19, 23));
}

/// The parts of the page are what their strings hold, in their order.
pub proof fn law_bytes_of(parts: Seq<&'static str>, i: int)
    requires
        0 <= i < parts.len(),
    ensures
        bytes_of(parts).len() == parts.len(),
        bytes_of(parts)[i] == parts[i].spec_bytes(),
{
}

/// With the placeholder put back between its parts, the page is what it was,
/// and no part has a placeholder in it.
pub proof fn law_parts_make_the_page(template: Seq<u8>)
    ensures
        join(page_parts(template), "{{HZ}}".spec_bytes()) == template,
        forall|k: int, j: int|
            0 <= k < page_parts(template).len() && 0 <= j <= page_parts(template)[k].len() - 6
                ==> #[trigger] page_parts(template)[k].subrange(j, j + 6) != "{{HZ}}".spec_bytes(),
    decreases template.len(),
{
    let pattern = "{{HZ}}".spec_bytes();
    assert(pattern.len() == 6) by {
        reveal_strlit("{{HZ}}");
        vstd::utf8::is_ascii_chars_encode_utf8("{{HZ}}"@);
    }
    crate::bytes::law_first_match(template, pattern);
    match first_match(template, pattern) {
        Some(i) => {
            let front = template.take(i);
            let rest = template.skip(i + 6);
            law_parts_make_the_page(rest);
            lemma_split_len(rest, pattern);
            let parts = page_parts(template);
            assert(parts == seq![front] + page_parts(rest));
            assert(parts.skip(1) =~= page_parts(rest));
            assert(join(parts, pattern) =~= front + pattern + rest);
            assert(front + pattern + rest =~= template);
            assert forall|k: int, j: int|
                0 <= k < parts.len() && 0 <= j <= parts[k].len() - 6 implies #[trigger] parts[k].subrange(
                j,
                j + 6,
            ) != pattern by {
                if k == 0 {
                    assert(front.subrange(j, j + 6) =~= template.subrange(j, j + 6));
                    assert(template.subrange(j, j + pattern.len()) != pattern);
                } else {
                    assert(parts[k] == page_parts(rest)[k - 1]);
                    assert(page_parts(rest)[k - 1].subrange(j, j + 6) != pattern);
                }
            }
        },
        None => {
            assert(page_parts(template) == seq![template]);
            assert forall|k: int, j: int|
                0 <= k < 1 && 0 <= j <= template.len() - 6 implies #[trigger] page_parts(
                template,
            )[k].subrange(j, j + 6) != pattern by {
                assert(template.subrange(j, j + pattern.len()) != pattern);
            }
        },
    }
}

/// The page shows the frequency in force: what is sent in place of each
/// placeholder reads back as the frequency. A page with one placeholder is its
/// front, that number, and its back.
pub proof fn law_page_shows_the_frequency(front: Seq<u8>, back: Seq<u8>, hz: u32)
    requires
        forall|i: int|
            0 <= i < front.len() ==> #[trigger] (front + "{{HZ}}".spec_bytes() + back).subrange(
                i,
                i + 6,
            ) != "{{HZ}}".spec_bytes(),
        forall|i: int|
            0 <= i <= back.len() - 6 ==> #[trigger] back.subrange(i, i + 6)
                != "{{HZ}}".spec_bytes(),
    ensures
        ({
            let body = page_body(front + "{{HZ}}".spec_bytes() + back, hz);
            let shown = body.subrange(front.len() as int, body.len() - back.len());
            &&& body == front + shown + back
            &&& decimal_value(shown) == hz
            &&& forall|i: int| 0 <= i < shown.len() ==> 48 <= #[trigger] shown[i] <= 57
            &&& shown.len() > 1 ==> shown[0] != 48
        }),
{
    let pattern = "{{HZ}}".spec_bytes();
    assert(pattern.len() == 6) by {
        reveal_strlit("{{HZ}}");
        vstd::utf8::is_ascii_chars_encode_utf8("{{HZ}}"@);
    }
    let template = front + pattern + back;
    assert forall|i: int| 0 <= i < front.len() implies !#[trigger] occurs_at(template, pattern, i) by {
        assert(template.subrange(i, i + 6) != pattern);
    }
    assert forall|i: int| !#[trigger] occurs_at(back, pattern, i) by {
        if 0 <= i && i + 6 <= back.len() {
            assert(back.subrange(i, i + 6) != pattern);
        }
    }
    law_placeholder_is_replaced(front, back, hz);
    law_page_without_placeholder(back, hz);
    law_decimal_reads_back(hz as nat);
    law_decimal_is_shortest(hz as nat);
    let body = page_body(template, hz);
    assert(body.subrange(front.len() as int, body.len() - back.len()) =~= decimal(hz as nat));
}

/// What each request is answered with, by what came of it.
pub proof fn law_replies(route: Route<'_>, outcome: Result<(), SettingsError>)
    ensures
        ({
            let reply = reply_of(route.kind(), outcome is Ok);
            match route {
                Route::SetHz { .. } => reply matches Reply::Redirect { location } && location@ == "/"@,
                Route::Reset => reply matches Reply::Redirect { location } && location@ == "/"@,
                Route::Import { .. } => reply matches Reply::Status { code, reason } && (
                outcome is Ok ==> code == 200 && reason@ == "OK"@) && (outcome is Err ==> code
                    == 400 && reason@ == "Bad Request"@),
                Route::Export => {
                    &&& outcome is Ok ==> reply is Json
                    &&& outcome is Err ==> (reply matches Reply::Status { code, reason } && code
                        == 500 && reason@ == "Internal Error"@)
                },
                Route::Index => reply is Page,
                Route::NotFound => reply matches Reply::Status { code, reason } && code == 404
                    && reason@ == "Not Found"@,
            }
        }),
{
}

/// A redirect to a location of over 52 bytes is cut in front of its third
/// piece, and one of over 94 bytes in front of the location.
pub proof fn law_long_redirect_is_cut(loc: Seq<u8>)
    requires
        loc.len() > 52,
    ensures
        loc.len() <= 94 ==> written(128, Seq::empty(), redirect_pieces(loc))
            == "HTTP/1.1 303 See Other\r\nLocation: ".spec_bytes() + loc,
        loc.len() > 94 ==> written(128, Seq::empty(), redirect_pieces(loc))
            == "HTTP/1.1 303 See Other\r\nLocation: ".spec_bytes(),
{
    reveal_strlit("HTTP/1.1 303 See Other\r\nLocation: ");
    reveal_strlit("\r\nContent-Length: 0\r\nConnection: close\r\n\r\n");
    vstd::utf8::is_ascii_chars_encode_utf8("HTTP/1.1 303 See Other\r\nLocation: "@);
    vstd::utf8::is_ascii_chars_encode_utf8(
        "\r\nContent-Length: 0\r\nConnection: close\r\n\r\n"@,
    );
    reveal_with_fuel(written, 4);
    let pieces = redirect_pieces(loc);
    assert(pieces.skip(1)[0] == pieces[1]);
    assert(pieces.skip(1).skip(1)[0] == pieces[2]);
    assert(Seq::<u8>::empty() + pieces[0] =~= pieces[0]);
}

/// A status is cut in front of its last piece where that does not fit the 128
/// bytes, and in front of the reason where that does not.
pub proof fn law_long_status_is_cut(code: u16, reason: Seq<u8>)
    ensures
        ({
            let front = "HTTP/1.1 ".spec_bytes() + decimal(code as nat) + " ".spec_bytes();
            let text = written(128, Seq::empty(), status_pieces(code, reason));
            &&& front.len() + reason.len() > 128 ==> text == front
            &&& 86 < front.len() + reason.len() <= 128 ==> text == front + reason
            &&& front.len() + reason.len() <= 86 ==> text == front + reason
                + "\r\nContent-Length: 0\r\nConnection: close\r\n\r\n".spec_bytes()
        }),
{
    reveal_strlit("HTTP/1.1 ");
    reveal_strlit(" ");
    reveal_strlit("\r\nContent-Length: 0\r\nConnection: close\r\n\r\n");
    vstd::utf8::is_ascii_chars_encode_utf8("HTTP/1.1 "@);
    vstd::utf8::is_ascii_chars_encode_utf8(" "@);
    vstd::utf8::is_ascii_chars_encode_utf8(
        "\r\nContent-Length: 0\r\nConnection: close\r\n\r\n"@,
    );
    assert(code < power_of_ten(5)) by {
        reveal_with_fuel(power_of_ten, 6);
    }
    lemma_decimal_len(code as nat, 5);
    reveal_with_fuel(written, 6);
    let pieces = status_pieces(code, reason);
    assert(pieces.skip(1)[0] == pieces[1]);
    assert(pieces.skip(1).skip(1)[0] == pieces[2]);
    assert(pieces.skip(1).skip(1).skip(1)[0] == pieces[3]);
    assert(pieces.skip(1).skip(1).skip(1).skip(1)[0] == pieces[4]);
    assert(Seq::<u8>::empty() + pieces[0] =~= pieces[0]);
}

} // verus!
