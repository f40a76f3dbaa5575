//! Requests to the web server: what a client asks for.

use vstd::prelude::*;
use vstd::string::StringSliceAdditionalSpecFns;
use vstd::utf8::{is_char_boundary, is_continuation_byte, valid_utf8};

use crate::bytes::{
    find, first_match, law_first_match, lemma_first_match_behind, occurs_at, slice, split, starts_with,
};
use crate::decimal::{
    decimal, is_digit, law_decimal_reads_back, law_u32_reads_back, parse_u32, text_of, u32_of,
};

verus! {

/// The text of a request. Bytes that are no text count as no request.
pub open spec fn request_text(request: Seq<u8>) -> Seq<u8> {
    if valid_utf8(request) {
        request
    } else {
        Seq::empty()
    }
}

/// The first line of `text`, without its line ending.
pub open spec fn first_line(text: Seq<u8>) -> Seq<u8> {
    match first_match(text, "\n".spec_bytes()) {
        Some(i) => {
            let line = text.take(i);
            if line.len() > 0 && line.last() == 13 {
                line.drop_last()
            } else {
                line
            }
        },
        None => text,
    }
}

/// The query of a request line: what stands between the first question mark
/// and the next space, or the end of the line.
pub open spec fn query_of(line: Seq<u8>) -> Option<Seq<u8>> {
    match first_match(line, "?".spec_bytes()) {
        Some(q) => {
            let rest = line.skip(q + 1);
            match first_match(rest, " ".spec_bytes()) {
                Some(end) => Some(rest.take(end)),
                None => Some(rest),
            }
        },
        None => None,
    }
}

/// The value of the first of the `fields` that are named by `prefix`.
pub open spec fn field_value(fields: Seq<Seq<u8>>, prefix: Seq<u8>) -> Option<Seq<u8>>
    decreases fields.len(),
{
    if fields.len() == 0 {
        None
    } else if prefix.is_prefix_of(fields[0]) {
        Some(fields[0].skip(prefix.len() as int))
    } else {
        field_value(fields.skip(1), prefix)
    }
}

/// The frequency that a request line asks for: the number in the first `hz`
/// field of its query. Where that is no number, none is asked for.
pub open spec fn requested_hz(line: Seq<u8>) -> Option<u32> {
    match query_of(line) {
        Some(query) => match field_value(split(query, "&".spec_bytes()), "hz=".spec_bytes()) {
            Some(value) => u32_of(value),
            None => None,
        },
        None => None,
    }
}

/// The body of a request: what follows the first blank line.
pub open spec fn body_of(text: Seq<u8>) -> Option<Seq<u8>> {
    match first_match(text, "\r\n\r\n".spec_bytes()) {
        Some(i) => Some(text.skip(i + 4)),
        None => None,
    }
}

/// What a client asks for.
#[derive(Clone, Copy, Debug, PartialEq, Eq)]
pub enum Route<'a> {
    /// Change the blink frequency, if a number is given.
    SetHz { hz: Option<u32> },
    /// Go back to the embedded defaults.
    Reset,
    /// Import settings from a JSON text.
    Import { body: &'a str },
    /// Export the settings as JSON.
    Export,
    /// Show the settings page.
    Index,
    /// Nothing that there is.
    NotFound,
}

/// The kinds of requests.
pub enum RouteKind {
    SetHz,
    Reset,
    Import,
    Export,
    Index,
    NotFound,
}

/// The kind of request that a request line stands for: the first that fits.
pub open spec fn route_kind(line: Seq<u8>) -> RouteKind {
    if "GET /set".spec_bytes().is_prefix_of(line) {
        RouteKind::SetHz
    } else if "POST /api/reset".spec_bytes().is_prefix_of(line)
        || "GET /api/reset".spec_bytes().is_prefix_of(line) {
        RouteKind::Reset
    } else if "POST /api/settings".spec_bytes().is_prefix_of(line) {
        RouteKind::Import
    } else if "GET /api/settings".spec_bytes().is_prefix_of(line) {
        RouteKind::Export
    } else if "GET /".spec_bytes().is_prefix_of(line) {
        RouteKind::Index
    } else {
        RouteKind::NotFound
    }
}

impl<'a> Route<'a> {
    /// The kind of this request.
    pub open spec fn kind(self) -> RouteKind {
        match self {
            Route::SetHz { .. } => RouteKind::SetHz,
            Route::Reset => RouteKind::Reset,
            Route::Import { .. } => RouteKind::Import,
            Route::Export => RouteKind::Export,
            Route::Index => RouteKind::Index,
            Route::NotFound => RouteKind::NotFound,
        }
    }

    /// This is what a request with the given bytes asks for.
    pub open spec fn is_route_of(self, request: Seq<u8>) -> bool {
        let text = request_text(request);
        let line = first_line(text);
        &&& self.kind() == route_kind(line)
        &&& self matches Route::SetHz { hz } ==> hz == requested_hz(line)
        &&& self matches Route::Import { body } ==> body.spec_bytes() == match body_of(text) {
            Some(bytes) => bytes,
            None => Seq::empty(),
        }
    }
}

/// The bytes of the literals that requests are taken apart by.
proof fn lemma_literals()
    ensures
        "?".spec_bytes() == seq![63u8],
        " ".spec_bytes() == seq![32u8],
        "&".spec_bytes() == seq![38u8],
        "\n".spec_bytes() == seq![10u8],
        "hz=".spec_bytes() == seq![104u8, 122, 61],
        "\r\n\r\n".spec_bytes() == seq![13u8, 10, 13, 10],
{
    reveal_strlit("?");
    reveal_strlit(" ");
    reveal_strlit("&");
    reveal_strlit("\n");
    reveal_strlit("hz=");
    reveal_strlit("\r\n\r\n");
    vstd::utf8::is_ascii_chars_encode_utf8("?"@);
    vstd::utf8::is_ascii_chars_encode_utf8(" "@);
    vstd::utf8::is_ascii_chars_encode_utf8("&"@);
    vstd::utf8::is_ascii_chars_encode_utf8("\n"@);
    vstd::utf8::is_ascii_chars_encode_utf8("hz="@);
    vstd::utf8::is_ascii_chars_encode_utf8("\r\n\r\n"@);
    assert("?".spec_bytes() =~= seq![63u8]);
    assert(" ".spec_bytes() =~= seq![32u8]);
    assert("&".spec_bytes() =~= seq![38u8]);
    assert("\n".spec_bytes() =~= seq![10u8]);
    assert("hz=".spec_bytes() =~= seq![104u8, 122, 61]);
    assert("\r\n\r\n".spec_bytes() =~= seq![13u8, 10, 13, 10]);
}

/// Text can be cut in front of an ASCII character, and behind it.
pub proof fn lemma_ascii_boundaries(text: Seq<u8>, i: int)
    requires
        valid_utf8(text),
        0 <= i < text.len(),
        text[i] < 128,
    ensures
        is_char_boundary(text, i),
        is_char_boundary(text, i + 1),
{
    vstd::utf8::is_char_boundary_iff_not_is_continuation_byte(text, i);
    if i + 1 == text.len() {
        vstd::utf8::is_char_boundary_start_end_of_seq(text);
    } else {
        vstd::utf8::valid_utf8_split(text, i);
        let rest = text.subrange(i, text.len() as int);
        assert(rest[0] == text[i]);
        assert(rest[1] == text[i + 1]);
        reveal_with_fuel(is_char_boundary, 2);
        assert(is_char_boundary(rest, 1));
        vstd::utf8::is_char_boundary_iff_not_is_continuation_byte(rest, 1);
        vstd::utf8::is_char_boundary_iff_not_is_continuation_byte(text, i + 1);
    }
}

/// The frequency that a request line asks for.
pub fn parse_hz(line: &str) -> (res: Option<u32>)
    ensures
        res == requested_hz(line.spec_bytes()),
{
    proof {
        lemma_literals();
    }
    let bytes = line.as_bytes();
    let q = match find(bytes, "?".as_bytes()) {
        Some(q) => q,
        None => {
            return None;
        },
    };
    let after = slice(bytes, q + 1, bytes.len());
    assert(after@ =~= bytes@.skip(q + 1));
    let end = match find(after, " ".as_bytes()) {
        Some(end) => end,
        None => after.len(),
    };
    let mut rest = slice(after, 0, end);
    let ghost query = rest@;
    assert(query_of(line.spec_bytes()) == Some(query)) by {
        assert(after@.subrange(0, after@.len() as int) =~= after@);
        assert(after@.subrange(0, end as int) =~= after@.take(end as int));
    }
    loop
        invariant
            "&".spec_bytes() == seq![38u8],
            "hz=".spec_bytes() == seq![104u8, 122, 61],
            query_of(line.spec_bytes()) == Some(query),
            field_value(split(query, "&".spec_bytes()), "hz=".spec_bytes()) == field_value(
                split(rest@, "&".spec_bytes()),
                "hz=".spec_bytes(),
            ),
        decreases rest@.len(),
    {
        let next = find(rest, "&".as_bytes());
        let end = match next {
            Some(i) => i,
            None => rest.len(),
        };
        let part = slice(rest, 0, end);
        let ghost fields = split(rest@, "&".spec_bytes());
        proof {
            assert(rest@.subrange(0, rest@.len() as int) =~= rest@);
            assert(rest@.subrange(0, end as int) =~= rest@.take(end as int));
            assert(fields[0] == part@);
        }
        if starts_with(part, "hz=".as_bytes()) {
            let value = slice(part, 3, part.len());
            assert(value@ =~= part@.skip(3));
            return parse_u32(value);
        }
        match next {
            Some(i) => {
                let tail = slice(rest, i + 1, rest.len());
                assert(tail@ =~= rest@.skip(i + 1));
                assert(fields.skip(1) =~= split(tail@, "&".spec_bytes()));
                rest = tail;
            },
            None => {
                assert(fields.skip(1) =~= Seq::<Seq<u8>>::empty());
                assert(field_value(fields.skip(1), "hz=".spec_bytes()) is None);
                return None;
            },
        }
    }
}

/// Returns the body of a request: everything after the first `\r\n\r\n`. Of a
/// request that was cut off, this is what came in.
pub fn extract_body(req: &str) -> (res: Option<&str>)
    ensures
        match res {
            Some(body) => body_of(req.spec_bytes()) == Some(body.spec_bytes()),
            None => body_of(req.spec_bytes()) is None,
        },
{
    proof {
        lemma_literals();
        vstd::utf8::encode_utf8_valid_utf8(req@);
    }
    let bytes = req.as_bytes();
    match find(bytes, "\r\n\r\n".as_bytes()) {
        Some(i) => {
            proof {
                let at = bytes@.subrange(i as int, i + 4);
                assert(at[3] == bytes@[i + 3]);
                lemma_ascii_boundaries(bytes@, i + 3);
            }
            let (_, body) = req.split_at(i + 4);
            assert(body.spec_bytes() =~= bytes@.skip(i + 4));
            Some(body)
        },
        None => None,
    }
}

/// The first line of `text`, without its line ending.
pub fn request_line(text: &str) -> (line: &str)
    ensures
        line.spec_bytes() == first_line(text.spec_bytes()),
{
    proof {
        lemma_literals();
        vstd::utf8::encode_utf8_valid_utf8(text@);
    }
    let bytes = text.as_bytes();
    match find(bytes, "\n".as_bytes()) {
        Some(i) => {
            assert(bytes@.subrange(i as int, i + 1)[0] == bytes@[i as int]);
            let end = if i > 0 && bytes[i - 1] == 13 {
                i - 1
            } else {
                i
            };
            proof {
                lemma_ascii_boundaries(bytes@, end as int);
            }
            let (line, _) = text.split_at(end);
            assert(line.spec_bytes() =~= first_line(bytes@));
            line
        },
        None => text,
    }
}

/// Finds out what a client asks for.
pub fn route<'a>(request: &'a [u8]) -> (res: Route<'a>)
    ensures
        res.is_route_of(request@),
{
    let text = match text_of(request) {
        Some(text) => text,
        None => "",
    };
    proof {
        reveal_strlit("");
        vstd::utf8::is_ascii_chars_encode_utf8(""@);
        assert(text.spec_bytes() =~= request_text(request@));
    }
    let line = request_line(text);
    let start = line.as_bytes();
    if starts_with(start, "GET /set".as_bytes()) {
        return Route::SetHz { hz: parse_hz(line) };
    }
    if starts_with(start, "POST /api/reset".as_bytes()) || starts_with(
        start,
        "GET /api/reset".as_bytes(),
    ) {
        return Route::Reset;
    }
    if starts_with(start, "POST /api/settings".as_bytes()) {
        let body = match extract_body(text) {
            Some(body) => body,
            None => "",
        };
        assert("".spec_bytes() =~= Seq::<u8>::empty());
        return Route::Import { body };
    }
    if starts_with(start, "GET /api/settings".as_bytes()) {
        return Route::Export;
    }
    if starts_with(start, "GET /".as_bytes()) {
        return Route::Index;
    }
    Route::NotFound
}

/// A byte that does not occur in `head` occurs first, in `head + [b] + tail`,
/// right behind `head`.
proof fn lemma_first_byte(head: Seq<u8>, b: u8, tail: Seq<u8>)
    requires
        !head.contains(b),
    ensures
        first_match(head + seq![b] + tail, seq![b]) == Some(head.len() as int),
{
    let text = head + seq![b] + tail;
    assert forall|j: int| 0 <= j < head.len() implies !#[trigger] occurs_at(text, seq![b], j) by {
        if occurs_at(text, seq![b], j) {
            assert(text.subrange(j, j + 1)[0] == text[j]);
            assert(head[j] == b);
        }
    }
    lemma_first_match_behind(head, seq![b], tail);
}

/// A byte that does not occur in `text` has no first occurrence.
proof fn lemma_no_byte(text: Seq<u8>, b: u8)
    requires
        !text.contains(b),
    ensures
        first_match(text, seq![b]) is None,
{
    assert forall|j: int| !#[trigger] occurs_at(text, seq![b], j) by {
        if occurs_at(text, seq![b], j) {
            assert(text.subrange(j, j + 1)[0] == text[j]);
            assert(text.contains(b));
        }
    }
}

/// A query of one `hz` field with the number `n` has no space, and gives `n`.
proof fn lemma_one_field(n: u32)
    ensures
        ({
            let query = seq![104u8, 122, 61] + decimal(n as nat);
            let value = field_value(split(query, "&".spec_bytes()), "hz=".spec_bytes());
            &&& !query.contains(32)
            &&& value matches Some(digits) && u32_of(digits) == Some(n)
        }),
{
    lemma_literals();
    law_decimal_reads_back(n as nat);
    law_u32_reads_back(n);
    let digits = decimal(n as nat);
    let query = seq![104u8, 122, 61] + digits;
    assert forall|i: int| 0 <= i < query.len() implies query[i] != 32 && query[i] != 38 by {
        if i >= 3 {
            assert(query[i] == digits[i - 3]);
            assert(is_digit(digits[i - 3]));
        }
    }
    lemma_no_byte(query, 38);
    assert(split(query, seq![38u8]) == seq![query]);
    assert(query.subrange(0, 3) =~= seq![104u8, 122, 61]);
    assert(query.skip(3) =~= digits);
}

/// A form that submits the number `n` in its `hz` field asks for the frequency
/// `n`, whatever page it is sent to, and whatever follows on the line.
pub proof fn law_form_asks_for_its_number(page: Seq<u8>, n: u32, tail: Seq<u8>)
    requires
        !page.contains(63),
    ensures
        requested_hz(
            page + "?".spec_bytes() + "hz=".spec_bytes() + decimal(n as nat) + " ".spec_bytes()
                + tail,
        ) == Some(n),
{
    lemma_literals();
    let digits = decimal(n as nat);
    let query = seq![104u8, 122, 61] + digits;
    let rest = query + seq![32u8] + tail;
    let line = page + "?".spec_bytes() + "hz=".spec_bytes() + digits + " ".spec_bytes() + tail;
    assert(line =~= page + seq![63u8] + rest);
    lemma_first_byte(page, 63, rest);
    assert(line.skip(page.len() as int + 1) =~= rest);
    lemma_one_field(n);
    lemma_first_byte(query, 32, tail);
    assert(rest.take(query.len() as int) =~= query);
}

/// The same, where the line ends behind the number.
pub proof fn law_form_asks_for_its_number_at_the_end(page: Seq<u8>, n: u32)
    requires
        !page.contains(63),
    ensures
        requested_hz(page + "?".spec_bytes() + "hz=".spec_bytes() + decimal(n as nat)) == Some(n),
{
    lemma_literals();
    let digits = decimal(n as nat);
    let query = seq![104u8, 122, 61] + digits;
    let line = page + "?".spec_bytes() + "hz=".spec_bytes() + digits;
    assert(line =~= page + seq![63u8] + query);
    lemma_first_byte(page, 63, query);
    assert(line.skip(page.len() as int + 1) =~= query);
    lemma_one_field(n);
    lemma_no_byte(query, 32);
}

/// The first line of a request is what stands before its first line ending,
/// whatever follows.
pub proof fn law_first_line_ends_at_its_ending(line: Seq<u8>, rest: Seq<u8>)
    requires
        !line.contains(10),
    ensures
        first_line(line + seq![13u8, 10] + rest) == line,
{
    lemma_literals();
    let head = line.push(13);
    let text = line + seq![13u8, 10] + rest;
    assert(text =~= head + seq![10u8] + rest);
    assert forall|i: int| 0 <= i < head.len() implies head[i] != 10 by {
        if i < line.len() {
            assert(line.contains(line[i]));
        }
    }
    lemma_first_byte(head, 10, rest);
    assert(text.take(head.len() as int) =~= head);
    assert(head.drop_last() =~= line);
}

/// A line without a query asks for no frequency.
pub proof fn law_no_query_asks_for_nothing(line: Seq<u8>)
    requires
        !line.contains(63),
    ensures
        requested_hz(line) is None,
{
    lemma_literals();
    lemma_no_byte(line, 63);
}

proof fn lemma_prefix_of_prefix(short: Seq<u8>, long: Seq<u8>, line: Seq<u8>)
    requires
        short.is_prefix_of(long),
        long.is_prefix_of(line),
    ensures
        short.is_prefix_of(line),
{
    assert(line.subrange(0, short.len() as int) =~= short) by {
        assert forall|i: int| 0 <= i < short.len() implies line[i] == short[i] by {
            assert(long.subrange(0, short.len() as int)[i] == long[i]);
            assert(line.subrange(0, long.len() as int)[i] == line[i]);
        }
    }
}

/// Every `GET` of a path is answered with something that there is: the page,
/// where it is none of the other requests. So a client that probes any address
/// gets to see the page.
pub proof fn law_every_get_is_served(line: Seq<u8>)
    requires
        "GET /".spec_bytes().is_prefix_of(line),
    ensures
        !(route_kind(line) is NotFound),
        !("GET /set".spec_bytes().is_prefix_of(line)) && !(
        "GET /api/reset".spec_bytes().is_prefix_of(line)) && !(
        "GET /api/settings".spec_bytes().is_prefix_of(line)) ==> route_kind(line) is Index,
{
    reveal_strlit("GET /");
    reveal_strlit("POST /api/reset");
    reveal_strlit("POST /api/settings");
    vstd::utf8::is_ascii_chars_encode_utf8("GET /"@);
    vstd::utf8::is_ascii_chars_encode_utf8("POST /api/reset"@);
    vstd::utf8::is_ascii_chars_encode_utf8("POST /api/settings"@);
    let get = "GET /".spec_bytes();
    let reset = "POST /api/reset".spec_bytes();
    let import = "POST /api/settings".spec_bytes();
    assert(line.subrange(0, get.len() as int)[0] == line[0]);
    assert(line[0] == 71);
    if reset.is_prefix_of(line) {
        assert(line.subrange(0, reset.len() as int)[0] == line[0]);
    }
    if import.is_prefix_of(line) {
        assert(line.subrange(0, import.len() as int)[0] == line[0]);
    }
}

/// A request that is not served starts neither with a `GET` of a path nor with
/// one of the two `POST` requests.
pub proof fn law_what_is_not_found(line: Seq<u8>)
    ensures
        route_kind(line) is NotFound <==> {
            &&& !"GET /".spec_bytes().is_prefix_of(line)
            &&& !"POST /api/reset".spec_bytes().is_prefix_of(line)
            &&& !"POST /api/settings".spec_bytes().is_prefix_of(line)
        },
{
    reveal_strlit("GET /");
    reveal_strlit("GET /set");
    reveal_strlit("GET /api/reset");
    reveal_strlit("GET /api/settings");
    vstd::utf8::is_ascii_chars_encode_utf8("GET /"@);
    vstd::utf8::is_ascii_chars_encode_utf8("GET /set"@);
    vstd::utf8::is_ascii_chars_encode_utf8("GET /api/reset"@);
    vstd::utf8::is_ascii_chars_encode_utf8("GET /api/settings"@);
    let get = "GET /".spec_bytes();
    assert(get.is_prefix_of("GET /set".spec_bytes()));
    assert(get.is_prefix_of("GET /api/reset".spec_bytes()));
    assert(get.is_prefix_of("GET /api/settings".spec_bytes()));
    if "GET /set".spec_bytes().is_prefix_of(line) {
        lemma_prefix_of_prefix(get, "GET /set".spec_bytes(), line);
    }
    if "GET /api/reset".spec_bytes().is_prefix_of(line) {
        lemma_prefix_of_prefix(get, "GET /api/reset".spec_bytes(), line);
    }
    if "GET /api/settings".spec_bytes().is_prefix_of(line) {
        lemma_prefix_of_prefix(get, "GET /api/settings".spec_bytes(), line);
    }
}

/// Behind a head without a blank line, the blank line ends the head, and what
/// follows it is the body, whatever it holds.
pub proof fn law_body_follows_the_head(head: Seq<u8>, body: Seq<u8>)
    requires
        forall|i: int|
            0 <= i < head.len() ==> !#[trigger] occurs_at(
                head + "\r\n\r\n".spec_bytes() + body,
                "\r\n\r\n".spec_bytes(),
                i,
            ),
    ensures
        body_of(head + "\r\n\r\n".spec_bytes() + body) == Some(body),
{
    lemma_first_match_behind(head, "\r\n\r\n".spec_bytes(), body);
    assert("\r\n\r\n".spec_bytes().len() == 4) by {
        lemma_literals();
    }
}

/// The first line of a text is the whole text where there is no line feed, and
/// ends in front of the first one otherwise. A carriage return in front of the
/// line feed belongs to neither; one at the end of the text stays.
pub proof fn law_first_line(line: Seq<u8>, rest: Seq<u8>)
    requires
        !line.contains(10),
    ensures
        first_line(line) == line,
        line.len() == 0 || line.last() != 13 ==> first_line(line + seq![10u8] + rest) == line,
        first_line(line + seq![13u8, 10] + rest) == line,
{
    lemma_literals();
    lemma_no_byte(line, 10);
    lemma_first_byte(line, 10, rest);
    assert((line + seq![10u8] + rest).take(line.len() as int) =~= line);
    law_first_line_ends_at_its_ending(line, rest);
}

/// A text and its first line start with the same words, as long as there is no
/// line ending in these.
proof fn lemma_first_line_starts(prefix: Seq<u8>, text: Seq<u8>)
    requires
        !prefix.contains(10),
        !prefix.contains(13),
    ensures
        prefix.is_prefix_of(first_line(text)) <==> prefix.is_prefix_of(text),
{
    lemma_literals();
    law_first_match(text, seq![10u8]);
    let line = first_line(text);
    assert(line.len() <= text.len());
    assert forall|i: int| 0 <= i < line.len() implies line[i] == text[i] by {}
    let n = prefix.len() as int;
    if prefix.is_prefix_of(line) {
        assert(text.subrange(0, n) =~= line.subrange(0, n));
    }
    if prefix.is_prefix_of(text) {
        assert forall|k: int| 0 <= k < n implies text[k] == prefix[k] by {
            assert(text.subrange(0, n)[k] == text[k]);
        }
        if line.len() < n {
            let k = line.len() as int;
            match first_match(text, seq![10u8]) {
                Some(i) => {
                    assert(text.subrange(i, i + 1)[0] == text[i]);
                    assert(k == i || k == i - 1);
                    assert(text[k] == 10 || text[k] == 13);
                    assert(prefix.contains(prefix[k]));
                },
                None => {},
            }
        }
        assert(line.subrange(0, n) =~= text.subrange(0, n));
    }
}

/// The bytes of the words that requests start with.
proof fn lemma_word_bytes()
    ensures
        "GET /set".spec_bytes() == seq![71u8, 69, 84, 32, 47, 115, 101, 116],
        "GET /api/reset".spec_bytes() == seq![71u8, 69, 84, 32, 47, 97, 112, 105, 47, 114, 101, 115, 101, 116],
        "GET /api/settings".spec_bytes() == seq![71u8, 69, 84, 32, 47, 97, 112, 105, 47, 115, 101, 116, 116, 105, 110, 103, 115],
        "POST /api/reset".spec_bytes() == seq![80u8, 79, 83, 84, 32, 47, 97, 112, 105, 47, 114, 101, 115, 101, 116],
        "POST /api/settings".spec_bytes() == seq![80u8, 79, 83, 84, 32, 47, 97, 112, 105, 47, 115, 101, 116, 116, 105, 110, 103, 115],
        "GET /".spec_bytes() == seq![71u8, 69, 84, 32, 47],
{
    assert("GET /set".spec_bytes() =~= seq![71u8, 69, 84, 32, 47, 115, 101, 116]) by {
        reveal_strlit("GET /set");
        vstd::utf8::is_ascii_chars_encode_utf8("GET /set"@);
    }
    assert("GET /api/reset".spec_bytes() =~= seq![71u8, 69, 84, 32, 47, 97, 112, 105, 47, 114, 101, 115, 101, 116]) by {
        reveal_strlit("GET /api/reset");
        vstd::utf8::is_ascii_chars_encode_utf8("GET /api/reset"@);
    }
    assert("GET /api/settings".spec_bytes() =~= seq![71u8, 69, 84, 32, 47, 97, 112, 105, 47, 115, 101, 116, 116, 105, 110, 103, 115]) by {
        reveal_strlit("GET /api/settings");
        vstd::utf8::is_ascii_chars_encode_utf8("GET /api/settings"@);
    }
    assert("POST /api/reset".spec_bytes() =~= seq![80u8, 79, 83, 84, 32, 47, 97, 112, 105, 47, 114, 101, 115, 101, 116]) by {
        reveal_strlit("POST /api/reset");
        vstd::utf8::is_ascii_chars_encode_utf8("POST /api/reset"@);
    }
    assert("POST /api/settings".spec_bytes() =~= seq![80u8, 79, 83, 84, 32, 47, 97, 112, 105, 47, 115, 101, 116, 116, 105, 110, 103, 115]) by {
        reveal_strlit("POST /api/settings");
        vstd::utf8::is_ascii_chars_encode_utf8("POST /api/settings"@);
    }
    assert("GET /".spec_bytes() =~= seq![71u8, 69, 84, 32, 47]) by {
        reveal_strlit("GET /");
        vstd::utf8::is_ascii_chars_encode_utf8("GET /"@);
    }
}

/// The words that requests start with have no line ending in them.
proof fn lemma_words_are_plain()
    ensures
        !"GET /set".spec_bytes().contains(10),
        !"GET /set".spec_bytes().contains(13),
        !"GET /api/reset".spec_bytes().contains(10),
        !"GET /api/reset".spec_bytes().contains(13),
        !"GET /api/settings".spec_bytes().contains(10),
        !"GET /api/settings".spec_bytes().contains(13),
        !"POST /api/reset".spec_bytes().contains(10),
        !"POST /api/reset".spec_bytes().contains(13),
        !"POST /api/settings".spec_bytes().contains(10),
        !"POST /api/settings".spec_bytes().contains(13),
        !"GET /".spec_bytes().contains(10),
        !"GET /".spec_bytes().contains(13),
{
    lemma_word_bytes();
}

/// No two of the words start one text, but that a `GET` of a path is one of any
/// path.
proof fn lemma_words(text: Seq<u8>)
    ensures
        "GET /set".spec_bytes().is_prefix_of(text) ==> text.len() >= 8 && text[0] == 71 && text[5] == 115,
        "GET /api/reset".spec_bytes().is_prefix_of(text) ==> text.len() >= 14 && text[0] == 71 && text[5] == 97 && text[9] == 114,
        "GET /api/settings".spec_bytes().is_prefix_of(text) ==> text.len() >= 17 && text[0] == 71 && text[5] == 97 && text[9] == 115,
        "POST /api/reset".spec_bytes().is_prefix_of(text) ==> text.len() >= 15 && text[0] == 80 && text[10] == 114,
        "POST /api/settings".spec_bytes().is_prefix_of(text) ==> text.len() >= 18 && text[0] == 80 && text[10] == 115,
        "GET /".spec_bytes().is_prefix_of(text) ==> text.len() >= 5 && text[0] == 71,
{
    lemma_word_bytes();
    lemma_prefix_bytes("GET /set".spec_bytes(), text);
    assert("GET /set".spec_bytes()[0] == 71);
    assert("GET /set".spec_bytes()[5] == 115);
    lemma_prefix_bytes("GET /api/reset".spec_bytes(), text);
    assert("GET /api/reset".spec_bytes()[0] == 71);
    assert("GET /api/reset".spec_bytes()[5] == 97);
    assert("GET /api/reset".spec_bytes()[9] == 114);
    lemma_prefix_bytes("GET /api/settings".spec_bytes(), text);
    assert("GET /api/settings".spec_bytes()[0] == 71);
    assert("GET /api/settings".spec_bytes()[5] == 97);
    assert("GET /api/settings".spec_bytes()[9] == 115);
    lemma_prefix_bytes("POST /api/reset".spec_bytes(), text);
    assert("POST /api/reset".spec_bytes()[0] == 80);
    assert("POST /api/reset".spec_bytes()[10] == 114);
    lemma_prefix_bytes("POST /api/settings".spec_bytes(), text);
    assert("POST /api/settings".spec_bytes()[0] == 80);
    assert("POST /api/settings".spec_bytes()[10] == 115);
    lemma_prefix_bytes("GET /".spec_bytes(), text);
    assert("GET /".spec_bytes()[0] == 71);
}

proof fn lemma_prefix_bytes(prefix: Seq<u8>, text: Seq<u8>)
    ensures
        prefix.is_prefix_of(text) ==> prefix.len() <= text.len() && forall|k: int|
            0 <= k < prefix.len() ==> #[trigger] prefix[k] == text[k],
{
    if prefix.is_prefix_of(text) {
        assert forall|k: int| 0 <= k < prefix.len() implies #[trigger] prefix[k] == text[k] by {
            assert(text.subrange(0, prefix.len() as int)[k] == text[k]);
        }
    }
}

/// What a request asks for goes by the words that its bytes start with.
pub proof fn law_route_goes_by_the_first_words(request: Seq<u8>, route: Route<'_>)
    requires
        valid_utf8(request),
        route.is_route_of(request),
    ensures
        (route matches Route::SetHz { .. }) <==> "GET /set".spec_bytes().is_prefix_of(request),
        (route matches Route::Reset) <==> "POST /api/reset".spec_bytes().is_prefix_of(request)
            || "GET /api/reset".spec_bytes().is_prefix_of(request),
        (route matches Route::Import { .. }) <==> "POST /api/settings".spec_bytes().is_prefix_of(
            request,
        ),
        (route matches Route::Export) <==> "GET /api/settings".spec_bytes().is_prefix_of(request),
        (route matches Route::Index) <==> {
            &&& "GET /".spec_bytes().is_prefix_of(request)
            &&& !"GET /set".spec_bytes().is_prefix_of(request)
            &&& !"GET /api/reset".spec_bytes().is_prefix_of(request)
            &&& !"GET /api/settings".spec_bytes().is_prefix_of(request)
        },
        (route matches Route::NotFound) <==> {
            &&& !"GET /".spec_bytes().is_prefix_of(request)
            &&& !"POST /api/reset".spec_bytes().is_prefix_of(request)
            &&& !"POST /api/settings".spec_bytes().is_prefix_of(request)
        },
{
    let line = first_line(request_text(request));
    lemma_words(request);
    lemma_words(line);
    lemma_words_are_plain();
    lemma_first_line_starts("GET /set".spec_bytes(), request);
    lemma_first_line_starts("GET /api/reset".spec_bytes(), request);
    lemma_first_line_starts("GET /api/settings".spec_bytes(), request);
    lemma_first_line_starts("POST /api/reset".spec_bytes(), request);
    lemma_first_line_starts("POST /api/settings".spec_bytes(), request);
    lemma_first_line_starts("GET /".spec_bytes(), request);
    law_what_is_not_found(line);
    law_what_is_not_found(request);
}

/// Bytes that are no text are a request for nothing that there is.
pub proof fn law_no_text_is_not_found(request: Seq<u8>, route: Route<'_>)
    requires
        !valid_utf8(request),
        route.is_route_of(request),
    ensures
        route == Route::NotFound,
{
    let line = first_line(request_text(request));
    lemma_literals();
    law_first_match(Seq::<u8>::empty(), seq![10u8]);
    assert(line.len() == 0);
    lemma_words(line);
}

/// An import carries its body: of a text that starts as one, everything behind
/// the first blank line, whatever header lines stand in front of that.
pub proof fn law_import_carries_its_body(
    request: Seq<u8>,
    head: Seq<u8>,
    body: Seq<u8>,
    route: Route<'_>,
)
    requires
        request == head + seq![13u8, 10, 13, 10] + body,
        "POST /api/settings".spec_bytes().is_prefix_of(head),
        forall|i: int|
            0 <= i < head.len() ==> #[trigger] request.subrange(i, i + 4) != seq![13u8, 10, 13, 10],
        valid_utf8(request),
        route.is_route_of(request),
    ensures
        route matches Route::Import { body: carried } && carried.spec_bytes() == body,
{
    lemma_literals();
    let blank = seq![13u8, 10, 13, 10];
    let word = "POST /api/settings".spec_bytes();
    assert(request.subrange(0, word.len() as int) =~= head.subrange(0, word.len() as int));
    law_route_goes_by_the_first_words(request, route);
    assert forall|i: int| 0 <= i < head.len() implies !#[trigger] occurs_at(request, blank, i) by {
        assert(request.subrange(i, i + 4) != blank);
    }
    law_body_follows_the_head(head, body);
}

/// Without a blank line an import has an empty body.
pub proof fn law_import_without_a_body(request: Seq<u8>, route: Route<'_>)
    requires
        "POST /api/settings".spec_bytes().is_prefix_of(request),
        valid_utf8(request),
        forall|i: int|
            0 <= i <= request.len() - 4 ==> #[trigger] request.subrange(i, i + 4) != seq![
                13u8,
                10,
                13,
                10,
            ],
        route.is_route_of(request),
    ensures
        body_of(request) is None,
        route matches Route::Import { body } && body.spec_bytes().len() == 0,
{
    lemma_literals();
    law_route_goes_by_the_first_words(request, route);
    law_first_match(request, seq![13u8, 10, 13, 10]);
}

/// A request for a change of frequency asks for what its first line asks for.
pub proof fn law_form_is_read_from_its_line(line: Seq<u8>, rest: Seq<u8>, route: Route<'_>)
    requires
        "GET /set".spec_bytes().is_prefix_of(line),
        !line.contains(10),
        valid_utf8(line + seq![13u8, 10] + rest),
        route.is_route_of(line + seq![13u8, 10] + rest),
    ensures
        route == (Route::SetHz { hz: requested_hz(line) }),
{
    let request = line + seq![13u8, 10] + rest;
    let word = "GET /set".spec_bytes();
    assert(request.subrange(0, word.len() as int) =~= line.subrange(0, word.len() as int));
    law_route_goes_by_the_first_words(request, route);
    law_first_line(line, rest);
}

/// Whatever ends the first line of such a request, and where nothing does, that
/// line is all that counts.
pub proof fn law_form_goes_by_its_first_line(request: Seq<u8>, route: Route<'_>)
    requires
        "GET /set".spec_bytes().is_prefix_of(request),
        valid_utf8(request),
        route.is_route_of(request),
    ensures
        route == (Route::SetHz { hz: requested_hz(first_line(request)) }),
{
    law_route_goes_by_the_first_words(request, route);
}

/// Only the query counts: what stands in front of the first question mark, and
/// what stands behind the space that ends the query, does not.
pub proof fn law_only_the_query_counts(page: Seq<u8>, query: Seq<u8>, tail: Seq<u8>)
    requires
        !page.contains(63),
        !query.contains(32),
    ensures
        requested_hz(page + seq![63u8] + query + seq![32u8] + tail) == requested_hz(
            seq![63u8] + query,
        ),
        requested_hz(page + seq![63u8] + query) == requested_hz(seq![63u8] + query),
{
    lemma_literals();
    let rest = query + seq![32u8] + tail;
    let line = page + seq![63u8] + query + seq![32u8] + tail;
    assert(line =~= page + seq![63u8] + rest);
    lemma_first_byte(page, 63, rest);
    assert(line.skip(page.len() as int + 1) =~= rest);
    lemma_first_byte(query, 32, tail);
    assert(rest.take(query.len() as int) =~= query);
    lemma_first_byte(page, 63, query);
    assert((page + seq![63u8] + query).skip(page.len() as int + 1) =~= query);
    lemma_no_byte(query, 32);
    lemma_query_alone(query);
}

proof fn lemma_query_alone(query: Seq<u8>)
    requires
        !query.contains(32),
    ensures
        query_of(seq![63u8] + query) == Some(query),
{
    lemma_literals();
    let none = Seq::<u8>::empty();
    assert(none + seq![63u8] + query =~= seq![63u8] + query);
    lemma_first_byte(none, 63, query);
    assert((seq![63u8] + query).skip(1) =~= query);
    lemma_no_byte(query, 32);
}

/// The first field of a query that starts with `hz=` decides, by the number
/// behind that; fields in front of it are passed over, and what follows it does
/// not count. Without such a field nothing is asked for.
pub proof fn law_first_hz_field_decides(field: Seq<u8>, more: Seq<u8>)
    requires
        !field.contains(38),
        !field.contains(32),
        !more.contains(32),
    ensures
        ({
            let named = seq![104u8, 122, 61].is_prefix_of(field);
            &&& named ==> requested_hz(seq![63u8] + field) == u32_of(field.skip(3))
            &&& named ==> requested_hz(seq![63u8] + field + seq![38u8] + more) == u32_of(
                field.skip(3),
            )
            &&& !named ==> requested_hz(seq![63u8] + field) is None
            &&& !named ==> requested_hz(seq![63u8] + field + seq![38u8] + more) == requested_hz(
                seq![63u8] + more,
            )
        }),
{
    lemma_literals();
    let sep = seq![38u8];
    let name = seq![104u8, 122, 61];
    let query = field + sep + more;
    lemma_query_alone(field);
    lemma_query_alone(more);
    assert forall|i: int| 0 <= i < query.len() implies query[i] != 32 by {
        if i < field.len() {
            assert(field.contains(field[i]));
        } else if i > field.len() {
            assert(more.contains(more[i - field.len() - 1]));
            assert(query[i] == more[i - field.len() - 1]);
        }
    }
    lemma_query_alone(query);
    assert(seq![63u8] + field + sep + more =~= seq![63u8] + query);
    lemma_no_byte(field, 38);
    assert(split(field, sep) == seq![field]);
    assert(seq![field].skip(1) =~= Seq::<Seq<u8>>::empty());
    assert(field_value(Seq::<Seq<u8>>::empty(), name) is None);
    lemma_first_byte(field, 38, more);
    assert(query.take(field.len() as int) =~= field);
    assert(query.skip(field.len() as int + 1) =~= more);
    let fields = split(query, sep);
    assert(fields == seq![field] + split(more, sep));
    assert(fields.skip(1) =~= split(more, sep));
    assert(fields[0] == field);
}

} // verus!
