//! The settings record in flash, and the steps of reading and writing it.
//!
//! The record has the last sector of the flash to itself:
//! `[magic: u32 LE][json_len: u32 LE][json bytes...][0xFF padding]`.

use vstd::prelude::*;
use vstd::string::StringSliceAdditionalSpecFns;

use crate::bytes::{put, slice};
use crate::decimal::decimal_value;
use crate::settings::{law_json_is_short, law_json_text, Settings, SettingsError};

verus! {

/// Total flash size of the board (2 MB).
pub const FLASH_SIZE: usize = 2 * 1024 * 1024;

/// Size of the unit in which flash is erased.
pub const SECTOR_SIZE: u32 = 4096;

/// The same size, as a length.
pub const SECTOR_LEN: usize = 4096;

/// Offset of the settings sector from the start of the flash.
pub const SETTINGS_OFFSET: u32 = 2 * 1024 * 1024 - SECTOR_SIZE;

/// Stamped at the start of the record, to tell it from erased flash.
pub const MAGIC: u32 = 0xC0FFEE42;

/// Length of the two numbers in front of the JSON text.
pub const HEADER_LEN: usize = 8;

/// Upper bound on the length of the JSON text.
pub const MAX_JSON: usize = 1024;

/// The four bytes of `v`, the low one first.
pub open spec fn le_bytes(v: u32) -> Seq<u8> {
    seq![
        (v % 256) as u8,
        (v / 256 % 256) as u8,
        (v / 65536 % 256) as u8,
        (v / 16777216 % 256) as u8,
    ]
}

/// The number whose four bytes these are, the low one first.
pub open spec fn le_value(b: Seq<u8>) -> int {
    b[0] + 256 * b[1] + 65536 * b[2] + 16777216 * b[3]
}

/// What the settings sector holds when `json` is stored in it.
pub open spec fn sector_image(json: Seq<u8>) -> Seq<u8> {
    le_bytes(MAGIC) + le_bytes(json.len() as u32) + json + Seq::new(
        (SECTOR_LEN - HEADER_LEN - json.len()) as nat,
        |i: int| 0xffu8,
    )
}

/// The length of the JSON text in the record that starts with `header`. An
/// empty text is no JSON.
pub open spec fn stored_len(header: Seq<u8>) -> Result<int, SettingsError> {
    let len = le_value(header.subrange(4, 8));
    if le_value(header.subrange(0, 4)) != MAGIC {
        Err(SettingsError::NoStoredData)
    } else if len == 0 {
        Err(SettingsError::Json)
    } else if len > MAX_JSON {
        Err(SettingsError::TooLarge)
    } else {
        Ok(len)
    }
}

/// How far reading the record has come, and what is to be read next.
#[derive(Debug)]
pub enum LoadState {
    /// Read `HEADER_LEN` bytes at `offset`.
    Header { offset: u32 },
    /// Read `len` bytes at `offset`, and parse them as settings.
    Json { offset: u32, len: usize },
    /// Nothing is left to do.
    Done { result: Result<Settings, SettingsError> },
}

/// What came of the last read.
#[derive(Debug)]
pub enum LoadEvent {
    /// The flash could not be read.
    FlashFailed { error: embassy_rp::flash::Error },
    /// The start of the record.
    Header { bytes: [u8; HEADER_LEN] },
    /// What parsing the JSON text gave.
    Parsed { result: Result<Settings, serde_json_core::de::Error> },
}

impl LoadState {
    /// The state that reading starts in.
    pub open spec fn initial() -> LoadState {
        LoadState::Header { offset: SETTINGS_OFFSET }
    }

    /// The state that follows when `event` comes in. A failed read ends the
    /// loading; an event that the state does not wait for changes nothing.
    pub open spec fn after(self, event: LoadEvent) -> LoadState {
        match (self, event) {
            (LoadState::Done { .. }, _) => self,
            (_, LoadEvent::FlashFailed { .. }) => LoadState::Done { result: Err(SettingsError::Flash) },
            (LoadState::Header { offset }, LoadEvent::Header { bytes }) => match stored_len(bytes@) {
                Ok(len) => LoadState::Json {
                    offset: (SETTINGS_OFFSET + HEADER_LEN) as u32,
                    len: len as usize,
                },
                Err(error) => LoadState::Done { result: Err(error) },
            },
            (LoadState::Json { .. }, LoadEvent::Parsed { result }) => match result {
                Ok(settings) => LoadState::Done { result: Ok(settings) },
                Err(_) => LoadState::Done { result: Err(SettingsError::Json) },
            },
            _ => self,
        }
    }

    /// Starts reading the record.
    pub fn start() -> (state: LoadState)
        ensures
            state == LoadState::initial(),
    {
        LoadState::Header { offset: SETTINGS_OFFSET }
    }

    /// Takes in what came of the last read.
    pub fn step(self, event: LoadEvent) -> (next: LoadState)
        ensures
            next == self.after(event),
    {
        match (self, event) {
            (LoadState::Done { result }, _) => LoadState::Done { result },
            (_, LoadEvent::FlashFailed { error }) => LoadState::Done {
                result: Err(SettingsError::from(error)),
            },
            (LoadState::Header { offset: _ }, LoadEvent::Header { bytes }) => match record_len(
                &bytes,
            ) {
                Ok(len) => LoadState::Json { offset: SETTINGS_OFFSET + 8, len },
                Err(error) => LoadState::Done { result: Err(error) },
            },
            (LoadState::Json { offset: _, len: _ }, LoadEvent::Parsed { result }) => match result {
                Ok(settings) => LoadState::Done { result: Ok(settings) },
                Err(error) => LoadState::Done { result: Err(SettingsError::from(error)) },
            },
            (state, _) => state,
        }
    }
}

/// Reads a number from four bytes, the low one first.
fn read_le(bytes: &[u8]) -> (v: u32)
    requires
        bytes@.len() == 4,
    ensures
        v == le_value(bytes@),
{
    bytes[0] as u32 + 256 * bytes[1] as u32 + 65536 * bytes[2] as u32 + 16777216 * bytes[3] as u32
}

/// The four bytes of `v`, the low one first.
fn to_le(v: u32) -> (bytes: [u8; 4])
    ensures
        bytes@ == le_bytes(v),
{
    let bytes = [
        (v % 256) as u8,
        (v / 256 % 256) as u8,
        (v / 65536 % 256) as u8,
        (v / 16777216 % 256) as u8,
    ];
    assert(bytes@ =~= le_bytes(v));
    bytes
}

/// The length of the JSON text in the record that starts with `header`. An
/// empty text is no JSON.
pub fn record_len(header: &[u8; HEADER_LEN]) -> (res: Result<usize, SettingsError>)
    ensures
        match res {
            Ok(len) => stored_len(header@) == Ok::<int, SettingsError>(len as int),
            Err(error) => stored_len(header@) == Err::<int, SettingsError>(error),
        },
{
    if read_le(slice(header, 0, 4)) != MAGIC {
        return Err(SettingsError::NoStoredData);
    }
    let len = read_le(slice(header, 4, 8)) as usize;
    if len == 0 {
        return Err(SettingsError::Json);
    }
    if len > MAX_JSON {
        return Err(SettingsError::TooLarge);
    }
    Ok(len)
}

/// How far writing the record has come, and what is to be done next.
#[derive(Debug)]
pub enum StoreState {
    /// Erase the flash from `from` up to `to`.
    Erase { from: u32, to: u32, payload: [u8; SECTOR_LEN] },
    /// Write `payload` at `offset`.
    Write { offset: u32, payload: [u8; SECTOR_LEN] },
    /// Nothing is left to do.
    Done { result: Result<(), SettingsError> },
}

impl StoreState {
    /// Writing has just begun: the settings sector is to be erased, and the
    /// record of `settings` is to be written there.
    pub open spec fn begins_storing(self, settings: Settings) -> bool {
        self matches StoreState::Erase { from, to, payload } && from == SETTINGS_OFFSET && to
            == SETTINGS_OFFSET + SECTOR_SIZE && payload@ == sector_image(settings.json())
    }

    /// The state that follows when the last step has worked, or has not.
    pub open spec fn after(self, outcome: Result<(), embassy_rp::flash::Error>) -> StoreState {
        match self {
            StoreState::Done { .. } => self,
            StoreState::Erase { payload, .. } => match outcome {
                Ok(_) => StoreState::Write { offset: SETTINGS_OFFSET, payload },
                Err(_) => StoreState::Done { result: Err(SettingsError::Flash) },
            },
            StoreState::Write { .. } => match outcome {
                Ok(_) => StoreState::Done { result: Ok(()) },
                Err(_) => StoreState::Done { result: Err(SettingsError::Flash) },
            },
        }
    }

    /// Starts writing the record of `settings`.
    pub fn start(settings: &Settings) -> (state: StoreState)
        ensures
            state.begins_storing(*settings),
    {
        proof {
            law_json_is_short(*settings);
        }
        let mut json = [0u8;MAX_JSON];
        let n = match settings.to_json(&mut json) {
            Ok(n) => n,
            Err(error) => {
                return StoreState::Done { result: Err(error) };
            },
        };
        let mut payload = [0xffu8;SECTOR_LEN];
        put(&mut payload, 0, &to_le(MAGIC));
        put(&mut payload, 4, &to_le(n as u32));
        put(&mut payload, 8, slice(&json, 0, n));
        assert(json@.subrange(0, n as int) =~= settings.json());
        assert(payload@ =~= sector_image(settings.json()));
        StoreState::Erase { from: SETTINGS_OFFSET, to: SETTINGS_OFFSET + SECTOR_SIZE, payload }
    }

    /// Takes in whether the last step has worked.
    pub fn step(self, outcome: Result<(), embassy_rp::flash::Error>) -> (next: StoreState)
        ensures
            next == self.after(outcome),
    {
        match self {
            StoreState::Done { result } => StoreState::Done { result },
            StoreState::Erase { from: _, to: _, payload } => match outcome {
                Ok(()) => StoreState::Write { offset: SETTINGS_OFFSET, payload },
                Err(error) => StoreState::Done { result: Err(SettingsError::from(error)) },
            },
            StoreState::Write { offset: _, payload: _ } => match outcome {
                Ok(()) => StoreState::Done { result: Ok(()) },
                Err(error) => StoreState::Done { result: Err(SettingsError::from(error)) },
            },
        }
    }
}

/// A number reads back from its bytes.
pub proof fn law_le_reads_back(v: u32)
    ensures
        le_value(le_bytes(v)) == v,
{
}

/// What is read from a sector that was stored is what was stored: the header
/// gives the length of the JSON text, and at that length the text follows.
pub proof fn law_load_reads_what_was_stored(json: Seq<u8>, header: [u8; HEADER_LEN])
    requires
        1 <= json.len() <= MAX_JSON,
        header@ == sector_image(json).take(HEADER_LEN as int),
    ensures
        stored_len(header@) == Ok::<int, SettingsError>(json.len() as int),
        LoadState::initial().after(LoadEvent::Header { bytes: header }) == (LoadState::Json {
            offset: (SETTINGS_OFFSET + HEADER_LEN) as u32,
            len: json.len() as usize,
        }),
        sector_image(json).subrange(HEADER_LEN as int, HEADER_LEN + json.len()) == json,
{
    let image = sector_image(json);
    law_le_reads_back(MAGIC);
    law_le_reads_back(json.len() as u32);
    assert(header@.subrange(0, 4) =~= le_bytes(MAGIC));
    assert(header@.subrange(4, 8) =~= le_bytes(json.len() as u32));
    assert(image.subrange(HEADER_LEN as int, HEADER_LEN + json.len()) =~= json);
}

/// The record of any settings is one whose text a load reads.
pub proof fn law_settings_can_be_loaded(settings: Settings)
    ensures
        1 <= settings.json().len() <= MAX_JSON,
        sector_image(settings.json()).len() == SECTOR_LEN,
{
    law_json_is_short(settings);
}

/// Settings that were stored load again: writing goes through one erase and
/// one write of the whole sector, and from what was written a load reads the
/// text of those settings, and ends with them once that text is parsed.
pub proof fn law_stored_settings_load_again(
    settings: Settings,
    state: StoreState,
    written: [u8; SECTOR_LEN],
    header: [u8; HEADER_LEN],
)
    requires
        state.begins_storing(settings),
        state.after(Ok(())) == (StoreState::Write { offset: SETTINGS_OFFSET, payload: written }),
        header@ == written@.take(HEADER_LEN as int),
    ensures
        state.after(Ok(())).after(Ok(())) == (StoreState::Done { result: Ok(()) }),
        ({
            let reading = LoadState::initial().after(LoadEvent::Header { bytes: header });
            &&& reading matches LoadState::Json { offset, len } && offset == SETTINGS_OFFSET
                + HEADER_LEN && written@.subrange(HEADER_LEN as int, HEADER_LEN + len)
                == settings.json()
            &&& reading.after(LoadEvent::Parsed { result: Ok(settings) }) == (LoadState::Done {
                result: Ok(settings),
            })
        }),
{
    law_settings_can_be_loaded(settings);
    law_load_reads_what_was_stored(settings.json(), header);
}

/// Why a header is refused: there is no stored data exactly where the magic
/// number differs, and a record is too large exactly where it claims more than
/// `MAX_JSON` bytes. Only a record that claims no text at all is refused as
/// JSON before it is read.
pub proof fn law_refused_headers(header: Seq<u8>)
    ensures
        ({
            let magic = le_value(header.subrange(0, 4));
            let len = le_value(header.subrange(4, 8));
            let res = stored_len(header);
            &&& res == Err::<int, SettingsError>(SettingsError::NoStoredData) <==> magic != MAGIC
            &&& res == Err::<int, SettingsError>(SettingsError::TooLarge) <==> magic == MAGIC && len
                > MAX_JSON
            &&& res == Err::<int, SettingsError>(SettingsError::Json) <==> magic == MAGIC && len
                == 0
            &&& res != Err::<int, SettingsError>(SettingsError::Flash)
        }),
{
}

/// Erased flash holds no record.
pub proof fn law_erased_flash_is_empty(header: Seq<u8>)
    requires
        header == Seq::new(HEADER_LEN as nat, |i: int| 0xffu8),
    ensures
        stored_len(header) == Err::<int, SettingsError>(SettingsError::NoStoredData),
{
}

/// The record keeps to the last sector of the flash: its offset is that of a
/// sector, the sector ends where the flash ends, and every read that a header
/// can ask for stays inside it.
pub proof fn law_record_stays_in_its_sector(header: Seq<u8>)
    ensures
        SETTINGS_OFFSET % SECTOR_SIZE == 0,
        SETTINGS_OFFSET + SECTOR_SIZE == FLASH_SIZE,
        SECTOR_LEN % 256 == 0,
        stored_len(header) matches Ok(len) ==> 0 < len && HEADER_LEN + len <= SECTOR_LEN,
{
}

/// The bytes of a stored sector: the magic number, the length of the text with
/// the low byte first, the text, and 0xff up to the end of the 4096 bytes.
pub proof fn law_sector_bytes(json: Seq<u8>)
    requires
        json.len() <= 1024,
    ensures
        ({
            let image = sector_image(json);
            &&& image.len() == 4096
            &&& image.take(4) == seq![0x42u8, 0xee, 0xff, 0xc0]
            &&& image[4] + 256 * image[5] == json.len()
            &&& image[6] == 0
            &&& image[7] == 0
            &&& image.subrange(8, 8 + json.len() as int) == json
            &&& forall|i: int| 8 + json.len() <= i < 4096 ==> #[trigger] image[i] == 0xff
        }),
{
    let image = sector_image(json);
    assert(image.take(4) =~= seq![0x42u8, 0xee, 0xff, 0xc0]);
    assert(image.subrange(8, 8 + json.len() as int) =~= json);
    let len = json.len() as u32;
    assert(image[4] == (len % 256) as u8);
    assert(image[5] == (len / 256 % 256) as u8);
    assert(image[6] == (len / 65536 % 256) as u8);
    assert(image[7] == (len / 16777216 % 256) as u8);
}

/// What is to be stored when storing of `settings` begins: the last 4096 bytes
/// of the 2 MB of flash are erased, and then written with a record that holds
/// the text of just these settings.
pub proof fn law_storing_keeps_the_settings(state: StoreState, settings: Settings)
    requires
        state.begins_storing(settings),
    ensures
        state matches StoreState::Erase { from, to, payload } && from == 2093056 && to == 2097152
            && state.after(Ok(())) == (StoreState::Write { offset: 2093056, payload }) && {
            let len = payload@[4] + 256 * payload@[5];
            let text = payload@.subrange(8, 8 + len);
            &&& payload@.take(4) == seq![0x42u8, 0xee, 0xff, 0xc0]
            &&& payload@[6] == 0
            &&& payload@[7] == 0
            &&& 14 <= len <= 23
            &&& text.take(12) == "{\"blink_hz\":".spec_bytes()
            &&& text.last() == 125
            &&& decimal_value(text.subrange(12, len - 1)) == settings.blink_hz
            &&& forall|i: int| 8 + len <= i < 4096 ==> #[trigger] payload@[i] == 0xff
        },
{
    law_json_is_short(settings);
    law_json_text(settings);
    law_sector_bytes(settings.json());
}

/// Storing erases first, then writes what it set out to write, and then is
/// done; a failure of either ends it as a flash failure; and what is done stays
/// as it is.
pub proof fn law_store_steps(
    from: u32,
    to: u32,
    offset: u32,
    payload: [u8; SECTOR_LEN],
    error: embassy_rp::flash::Error,
    outcome: Result<(), embassy_rp::flash::Error>,
    result: Result<(), SettingsError>,
)
    ensures
        (StoreState::Erase { from, to, payload }).after(Ok(())) == (StoreState::Write {
            offset: 2093056,
            payload,
        }),
        (StoreState::Erase { from, to, payload }).after(Err(error)) == (StoreState::Done {
            result: Err(SettingsError::Flash),
        }),
        (StoreState::Write { offset, payload }).after(Ok(())) == (StoreState::Done {
            result: Ok(()),
        }),
        (StoreState::Write { offset, payload }).after(Err(error)) == (StoreState::Done {
            result: Err(SettingsError::Flash),
        }),
        (StoreState::Done { result }).after(outcome) == (StoreState::Done { result }),
{
}

/// Loading reads the header at the start of the last sector, then the text
/// behind it, and ends with what parsing gave; a failed read ends it as a flash
/// failure, a failed parse as JSON; what is done stays as it is, and an event
/// that is not waited for changes nothing.
pub proof fn law_load_steps(
    offset: u32,
    len: usize,
    settings: Settings,
    header: [u8; HEADER_LEN],
    flash: embassy_rp::flash::Error,
    json: serde_json_core::de::Error,
    event: LoadEvent,
    result: Result<Settings, SettingsError>,
    parsed: Result<Settings, serde_json_core::de::Error>,
)
    ensures
        LoadState::initial() == (LoadState::Header { offset: 2093056 }),
        (LoadState::Header { offset }).after(LoadEvent::FlashFailed { error: flash }) == (
        LoadState::Done { result: Err(SettingsError::Flash) }),
        (LoadState::Json { offset, len }).after(LoadEvent::FlashFailed { error: flash }) == (
        LoadState::Done { result: Err(SettingsError::Flash) }),
        (LoadState::Json { offset, len }).after(LoadEvent::Parsed { result: Ok(settings) }) == (
        LoadState::Done { result: Ok(settings) }),
        (LoadState::Json { offset, len }).after(LoadEvent::Parsed { result: Err(json) }) == (
        LoadState::Done { result: Err(SettingsError::Json) }),
        (LoadState::Done { result }).after(event) == (LoadState::Done { result }),
        (LoadState::Header { offset }).after(LoadEvent::Parsed { result: parsed }) == (
        LoadState::Header { offset }),
        (LoadState::Json { offset, len }).after(LoadEvent::Header { bytes: header }) == (
        LoadState::Json { offset, len }),
{
}

/// What a header tells a load: without the four bytes of the magic number in
/// front there is no stored data; with them, a length of 0 is no JSON, one over
/// 1024 is too large, and any other is the length of the text that is read
/// next, from byte 8 of the sector on.
pub proof fn law_header_is_read(header: [u8; HEADER_LEN], offset: u32)
    ensures
        ({
            let h = header@;
            let len = h[4] + 256 * h[5] + 65536 * h[6] + 16777216 * h[7];
            let magic = h[0] == 0x42 && h[1] == 0xee && h[2] == 0xff && h[3] == 0xc0;
            let next = (LoadState::Header { offset }).after(LoadEvent::Header { bytes: header });
            &&& !magic ==> next == (LoadState::Done { result: Err(SettingsError::NoStoredData) })
            &&& magic && len == 0 ==> next == (LoadState::Done {
                result: Err(SettingsError::Json),
            })
            &&& magic && len > 1024 ==> next == (LoadState::Done {
                result: Err(SettingsError::TooLarge),
            })
            &&& magic && 1 <= len <= 1024 ==> next == (LoadState::Json {
                offset: 2093064,
                len: len as usize,
            })
            &&& !magic ==> stored_len(h) == Err::<int, SettingsError>(SettingsError::NoStoredData)
            &&& magic && len == 0 ==> stored_len(h) == Err::<int, SettingsError>(
                SettingsError::Json,
            )
            &&& magic && len > 1024 ==> stored_len(h) == Err::<int, SettingsError>(
                SettingsError::TooLarge,
            )
            &&& stored_len(h) is Ok <==> magic && 1 <= len <= 1024
            &&& stored_len(h) matches Ok(n) ==> n == len
        }),
{
    let h = header@;
    assert(h.subrange(0, 4) =~= seq![h[0], h[1], h[2], h[3]]);
    assert(h.subrange(4, 8) =~= seq![h[4], h[5], h[6], h[7]]);
}

} // verus!
