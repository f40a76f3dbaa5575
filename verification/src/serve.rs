//! Serving a request: what it does to the settings, and what is sent back.

use vstd::prelude::*;
use vstd::string::StringSliceAdditionalSpecFns;
use vstd::utf8::valid_utf8;

use crate::decimal::{decimal, decimal_value, is_digit, law_decimal_reads_back};
use crate::record::{
    law_header_is_read, law_storing_keeps_the_settings, LoadEvent, LoadState, StoreState, HEADER_LEN,
    SECTOR_LEN,
};
use crate::request::{
    law_first_line_ends_at_its_ending, law_form_asks_for_its_number, request_text, route_kind, Route,
};
use crate::response::{reply_of, Reply};
use crate::settings::{law_json_is_short, PartialSettings, Settings, SettingsError};
use crate::store::{
    boot_settings, imported_settings, reset_settings, set_settings, SettingsStore,
};

verus! {

/// The settings after `route` was served, where `settings` were in force.
/// `parsed` is what reading the body of an import gave, and `embedded` what
/// reading the embedded defaults gave.
pub open spec fn settings_after(
    settings: Settings,
    route: Route<'_>,
    parsed: Result<PartialSettings, serde_json_core::de::Error>,
    embedded: Result<Settings, serde_json_core::de::Error>,
) -> Settings {
    match (route, parsed) {
        (Route::SetHz { hz: Some(hz) }, _) => set_settings(hz),
        (Route::Reset, _) => reset_settings(embedded),
        (Route::Import { .. }, Ok(p)) => imported_settings(settings, p),
        _ => settings,
    }
}

/// The request is one that is to change the settings.
pub open spec fn is_change(route: Route<'_>) -> bool {
    match route {
        Route::SetHz { hz } => hz is Some,
        Route::Reset => true,
        Route::Import { .. } => true,
        _ => false,
    }
}

/// What is to be done once `route` was served, where `after` are the settings
/// then: nothing, where no change was asked for; to report that an import could
/// not be read; or else to store `after`.
pub open spec fn is_begun(
    state: Option<StoreState>,
    route: Route<'_>,
    parsed: Result<PartialSettings, serde_json_core::de::Error>,
    after: Settings,
) -> bool {
    match state {
        Some(state) => {
            &&& is_change(route)
            &&& if route.kind() is Import && parsed is Err {
                state == (StoreState::Done { result: Err(SettingsError::Json) })
            } else {
                state.begins_storing(after)
            }
        },
        None => !is_change(route),
    }
}

/// Does to the settings what a request asks for, and begins to store them
/// where it is one that is to change them.
pub fn apply(
    store: &mut SettingsStore,
    route: &Route<'_>,
    parsed: Result<PartialSettings, serde_json_core::de::Error>,
    embedded: Result<Settings, serde_json_core::de::Error>,
) -> (res: Option<StoreState>)
    ensures
        final(store).settings() == settings_after(old(store).settings(), *route, parsed, embedded),
        is_begun(res, *route, parsed, final(store).settings()),
{
    match route {
        Route::SetHz { hz } => match hz {
            Some(hz) => Some(store.set_blink_hz(*hz)),
            None => None,
        },
        Route::Reset => Some(store.reset(embedded)),
        Route::Import { body: _ } => Some(store.import_json(parsed)),
        _ => None,
    }
}

/// Looking at the page, exporting, and asking for what there is not, change
/// nothing; nor does a form without a number.
pub proof fn law_looking_changes_nothing(
    settings: Settings,
    route: Route<'_>,
    parsed: Result<PartialSettings, serde_json_core::de::Error>,
    embedded: Result<Settings, serde_json_core::de::Error>,
)
    requires
        !is_change(route),
    ensures
        settings_after(settings, route, parsed, embedded) == settings,
{
}

/// An import that cannot be read changes nothing, and is answered with a
/// status 400; one that worked is answered with a status 200.
pub proof fn law_refused_import(
    settings: Settings,
    route: Route<'_>,
    error: serde_json_core::de::Error,
    embedded: Result<Settings, serde_json_core::de::Error>,
)
    requires
        route.kind() is Import,
    ensures
        settings_after(settings, route, Err(error), embedded) == settings,
        reply_of(route.kind(), false) == (Reply::Status { code: 400, reason: "Bad Request" }),
        reply_of(route.kind(), true) == (Reply::Status { code: 200, reason: "OK" }),
{
}

/// What comes of a change that was begun, when the flash answers `erase` and
/// `write`: it ends well exactly where it could be read, and erasing and
/// writing worked. What could not be read ends as JSON and touches no flash;
/// the rest ends as a flash failure.
pub proof fn law_change_ends(
    state: StoreState,
    route: Route<'_>,
    parsed: Result<PartialSettings, serde_json_core::de::Error>,
    after: Settings,
    erase: Result<(), embassy_rp::flash::Error>,
    write: Result<(), embassy_rp::flash::Error>,
)
    requires
        is_begun(Some(state), route, parsed, after),
    ensures
        ({
            let read = !(route.kind() is Import) || parsed is Ok;
            state.after(erase).after(write) == (StoreState::Done {
                result: if !read {
                    Err(SettingsError::Json)
                } else if erase is Ok && write is Ok {
                    Ok(())
                } else {
                    Err(SettingsError::Flash)
                },
            })
        }),
{
}

/// An import is answered with a status 200 exactly where it could be read, and
/// erasing and writing worked; and with a status 400 otherwise. The reply goes
/// by the result that storing ended with.
pub proof fn law_import_is_answered_by_its_outcome(
    state: StoreState,
    route: Route<'_>,
    parsed: Result<PartialSettings, serde_json_core::de::Error>,
    after: Settings,
    erase: Result<(), embassy_rp::flash::Error>,
    write: Result<(), embassy_rp::flash::Error>,
    outcome: Result<(), SettingsError>,
)
    requires
        route.kind() is Import,
        is_begun(Some(state), route, parsed, after),
        state.after(erase).after(write) == (StoreState::Done { result: outcome }),
    ensures
        reply_of(route.kind(), outcome is Ok) == (if parsed is Ok && erase is Ok && write is Ok {
            Reply::Status { code: 200, reason: "OK" }
        } else {
            Reply::Status { code: 400, reason: "Bad Request" }
        }),
{
    law_change_ends(state, route, parsed, after, erase, write);
}

/// Only imports and exports are answered by what came of them: the form and a
/// reset send the client back to the page even where storing failed.
pub proof fn law_other_replies_are_fixed(route: Route<'_>, outcome: Result<(), SettingsError>)
    requires
        !(route.kind() is Import),
        !(route.kind() is Export),
    ensures
        reply_of(route.kind(), outcome is Ok) == reply_of(route.kind(), true),
        is_change(route) ==> reply_of(route.kind(), outcome is Ok) == (Reply::Redirect {
            location: "/",
        }),
{
}

/// An export into 23 bytes or more never fails, whatever the settings.
pub proof fn law_export_has_room(settings: Settings, room: nat)
    requires
        room >= 23,
    ensures
        settings.json().len() <= room,
{
    law_json_is_short(settings);
}

/// Whatever request is served, settings in range stay in range.
pub proof fn law_serving_keeps_the_range(
    settings: Settings,
    route: Route<'_>,
    parsed: Result<PartialSettings, serde_json_core::de::Error>,
    embedded: Result<Settings, serde_json_core::de::Error>,
)
    requires
        settings.in_range(),
    ensures
        settings_after(settings, route, parsed, embedded).in_range(),
{
}

/// Serving the same change twice is serving it once.
pub proof fn law_changes_can_be_repeated(
    settings: Settings,
    route: Route<'_>,
    parsed: Result<PartialSettings, serde_json_core::de::Error>,
    embedded: Result<Settings, serde_json_core::de::Error>,
)
    requires
        settings.in_range(),
    ensures
        settings_after(
            settings_after(settings, route, parsed, embedded),
            route,
            parsed,
            embedded,
        ) == settings_after(settings, route, parsed, embedded),
{
}

/// The line of a submitted form is one line, asks for a change of frequency,
/// and names its page without a question mark.
proof fn lemma_form_line(n: u32, version: Seq<u8>)
    requires
        !version.contains(10),
    ensures
        ({
            let line = "GET /set".spec_bytes() + "?".spec_bytes() + "hz=".spec_bytes() + decimal(
                n as nat,
            ) + " ".spec_bytes() + version;
            !line.contains(10) && route_kind(line) is SetHz
        }),
        !"GET /set".spec_bytes().contains(63),
{
    reveal_strlit("GET /set");
    reveal_strlit("?");
    reveal_strlit("hz=");
    reveal_strlit(" ");
    vstd::utf8::is_ascii_chars_encode_utf8("GET /set"@);
    vstd::utf8::is_ascii_chars_encode_utf8("?"@);
    vstd::utf8::is_ascii_chars_encode_utf8("hz="@);
    vstd::utf8::is_ascii_chars_encode_utf8(" "@);
    law_decimal_reads_back(n as nat);
    let page = "GET /set".spec_bytes();
    let digits = decimal(n as nat);
    let front = page + "?".spec_bytes() + "hz=".spec_bytes();
    let line = front + digits + " ".spec_bytes() + version;
    assert(front.len() == 12);
    assert forall|i: int| 0 <= i < line.len() implies line[i] != 10 by {
        if i < 12 {
            assert(line[i] == front[i]);
        } else if i < 12 + digits.len() {
            assert(line[i] == digits[i - 12]);
            assert(is_digit(digits[i - 12]));
        } else if i > 12 + digits.len() {
            assert(line[i] == version[i - 13 - digits.len()]);
        }
    }
    assert(line.subrange(0, 8) =~= page);
}

/// Submitting the form with the number `n` puts that frequency in force, moved
/// into its range, whatever settings were in force before and whatever else the
/// request holds.
pub proof fn law_form_sets_the_frequency(
    settings: Settings,
    n: u32,
    version: Seq<u8>,
    rest: Seq<u8>,
    route: Route<'_>,
    parsed: Result<PartialSettings, serde_json_core::de::Error>,
    embedded: Result<Settings, serde_json_core::de::Error>,
)
    requires
        !version.contains(10),
        ({
            let request = "GET /set".spec_bytes() + "?".spec_bytes() + "hz=".spec_bytes() + decimal(
                n as nat,
            ) + " ".spec_bytes() + version + seq![13u8, 10] + rest;
            valid_utf8(request) && route.is_route_of(request)
        }),
    ensures
        route == (Route::SetHz { hz: Some(n) }),
        settings_after(settings, route, parsed, embedded) == set_settings(n),
{
    let page = "GET /set".spec_bytes();
    let line = page + "?".spec_bytes() + "hz=".spec_bytes() + decimal(n as nat) + " ".spec_bytes()
        + version;
    let request = line + seq![13u8, 10] + rest;
    assert(request_text(request) == request);
    lemma_form_line(n, version);
    law_first_line_ends_at_its_ending(line, rest);
    law_form_asks_for_its_number(page, n, version);
}

/// Which requests change the settings: those that set a number, reset, or
/// import. Only these begin to store something.
pub proof fn law_what_changes(
    state: StoreState,
    route: Route<'_>,
    parsed: Result<PartialSettings, serde_json_core::de::Error>,
    after: Settings,
)
    ensures
        ({
            let changes = match route {
                Route::SetHz { hz: Some(_) } => true,
                Route::Reset => true,
                Route::Import { .. } => true,
                _ => false,
            };
            &&& is_change(route) == changes
            &&& is_begun(None, route, parsed, after) == !changes
            &&& is_begun(Some(state), route, parsed, after) ==> changes
        }),
{
}

/// The frequency that each request leaves in force, clamped to 1..=20: the
/// number of the form, the embedded default or else 1, the number of the
/// import; and the one that was in force before, in every other case.
pub proof fn law_frequency_after(
    settings: Settings,
    route: Route<'_>,
    parsed: Result<PartialSettings, serde_json_core::de::Error>,
    embedded: Result<Settings, serde_json_core::de::Error>,
)
    requires
        1 <= settings.blink_hz <= 20,
    ensures
        ({
            let asked: u32 = match (route, parsed, embedded) {
                (Route::SetHz { hz: Some(hz) }, _, _) => hz,
                (Route::Reset, _, Ok(defaults)) => defaults.blink_hz,
                (Route::Reset, _, Err(_)) => 1,
                (Route::Import { .. }, Ok(PartialSettings { blink_hz: Some(hz) }), _) => hz,
                _ => settings.blink_hz,
            };
            let after = settings_after(settings, route, parsed, embedded).blink_hz;
            &&& asked == 0 ==> after == 1
            &&& 1 <= asked <= 20 ==> after == asked
            &&& asked > 20 ==> after == 20
        }),
{
}

/// What a change begins to store is what it puts in force: unless it is an
/// import that could not be read, the last sector is erased and then written
/// with a record whose text holds the frequency `after`, and nothing else.
pub proof fn law_what_is_in_force_is_stored(
    state: StoreState,
    route: Route<'_>,
    parsed: Result<PartialSettings, serde_json_core::de::Error>,
    after: Settings,
)
    requires
        is_begun(Some(state), route, parsed, after),
        !(route matches Route::Import { .. } && parsed is Err),
    ensures
        state.begins_storing(after),
        state matches StoreState::Erase { from, to, payload } && from == 2093056 && to == 2097152
            && state.after(Ok(())) == (StoreState::Write { offset: 2093056, payload }) && {
            let len = payload@[4] + 256 * payload@[5];
            let text = payload@.subrange(8, 8 + len);
            &&& payload@.take(4) == seq![0x42u8, 0xee, 0xff, 0xc0]
            &&& text.take(12) == "{\"blink_hz\":".spec_bytes()
            &&& text.last() == 125
            &&& decimal_value(text.subrange(12, len - 1)) == after.blink_hz
        },
{
    law_storing_keeps_the_settings(state, after);
}

/// An import that could not be read stores nothing, and ends as JSON.
pub proof fn law_refused_import_stores_nothing(
    state: StoreState,
    route: Route<'_>,
    error: serde_json_core::de::Error,
    after: Settings,
)
    requires
        route matches Route::Import { .. },
        is_begun(Some(state), route, Err(error), after),
    ensures
        state == (StoreState::Done { result: Err(SettingsError::Json) }),
{
}

/// A change outlives a restart: from the sector that it writes, the next boot
/// reads the text of the settings that were in force, and, once that text is
/// parsed as those, has them in force again, whatever the embedded defaults.
pub proof fn law_change_outlives_a_restart(
    state: StoreState,
    route: Route<'_>,
    parsed: Result<PartialSettings, serde_json_core::de::Error>,
    after: Settings,
    offset: u32,
    sector: [u8; SECTOR_LEN],
    header: [u8; HEADER_LEN],
    embedded: Result<Settings, serde_json_core::de::Error>,
)
    requires
        is_begun(Some(state), route, parsed, after),
        !(route matches Route::Import { .. } && parsed is Err),
        1 <= after.blink_hz <= 20,
        state.after(Ok(())) == (StoreState::Write { offset, payload: sector }),
        header@ == sector@.take(8),
    ensures
        LoadState::initial() == (LoadState::Header { offset }),
        LoadState::initial().after(LoadEvent::Header { bytes: header }) matches LoadState::Json {
            offset: at,
            len,
        } && at == offset + 8 && decimal_value(sector@.subrange(20, 8 + len - 1))
            == after.blink_hz && (LoadState::Json { offset: at, len }).after(
            LoadEvent::Parsed { result: Ok(after) },
        ) == (LoadState::Done { result: Ok(after) }),
        boot_settings(Ok(after), embedded) == after,
{
    law_storing_keeps_the_settings(state, after);
    law_header_is_read(header, offset);
    assert forall|i: int| 0 <= i < 8 implies #[trigger] header@[i] == sector@[i] by {}
    assert(sector@.take(4)[0] == sector@[0]);
    assert(sector@.take(4)[1] == sector@[1]);
    assert(sector@.take(4)[2] == sector@[2]);
    assert(sector@.take(4)[3] == sector@[3]);
    let len = sector@[4] + 256 * sector@[5];
    assert(sector@.subrange(8, 8 + len).subrange(12, len - 1) =~= sector@.subrange(
        20,
        8 + len - 1,
    ));
}

} // verus!
