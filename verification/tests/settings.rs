use pico_blink::record::{self, LoadEvent, LoadState, StoreState};
use pico_blink::settings::{
    default_blink_hz, derive_half_period, PartialSettings, Settings, SettingsError,
};
use pico_blink::store::SettingsStore;

use embassy_rp::flash::Error as FlashError;
use serde::ser::SerializeStruct;

/// The settings as a struct that is serialized field by field.
struct Plain {
    blink_hz: u32,
}

impl serde::Serialize for Plain {
    fn serialize<S: serde::Serializer>(&self, serializer: S) -> Result<S::Ok, S::Error> {
        let mut s = serializer.serialize_struct("Settings", 1)?;
        s.serialize_field("blink_hz", &self.blink_hz)?;
        s.end()
    }
}

fn bad_json() -> serde_json_core::de::Error {
    serde_json_core::from_slice::<u32>(b"x").unwrap_err()
}

fn store(hz: u32) -> SettingsStore {
    SettingsStore::init(Ok(Settings { blink_hz: hz }), Err(bad_json())).0
}

fn image(state: StoreState) -> [u8; 4096] {
    match state {
        StoreState::Erase { from, to, payload } => {
            assert_eq!(from, 2_093_056);
            assert_eq!(to, 2_097_152);
            payload
        }
        other => panic!("{:?}", other),
    }
}

#[test]
fn clamp_moves_into_range() {
    for (hz, clamped) in [(0, 1), (1, 1), (2, 2), (20, 20), (21, 20), (u32::MAX, 20)] {
        let mut s = Settings { blink_hz: hz };
        s.clamp();
        assert_eq!(s, Settings { blink_hz: clamped });
        let again = s.clone();
        s.clamp();
        assert_eq!(s, again);
    }
}

#[test]
fn merge_is_partial() {
    let mut s = Settings { blink_hz: 7 };
    s.merge(&PartialSettings { blink_hz: None });
    assert_eq!(s.blink_hz, 7);
    s.merge(&PartialSettings::default());
    assert_eq!(s.blink_hz, 7);
    s.merge(&PartialSettings { blink_hz: Some(99) });
    assert_eq!(s.blink_hz, 99);
}

#[test]
fn half_periods() {
    for (hz, ms) in [(0, 500), (1, 500), (2, 250), (3, 166), (7, 71), (20, 25), (21, 25), (500, 25)] {
        assert_eq!(derive_half_period(&Settings { blink_hz: hz }), ms);
    }
    assert_eq!(default_blink_hz(), 1);
}

#[test]
fn embedded_defaults() {
    assert_eq!(Settings::from_embedded(Ok(Settings { blink_hz: 5 })).blink_hz, 5);
    assert_eq!(Settings::from_embedded(Err(bad_json())).blink_hz, 1);
}

#[test]
fn json_error_becomes_json() {
    assert_eq!(SettingsError::from(bad_json()), SettingsError::Json);
}

#[test]
fn flash_error_becomes_flash() {
    for error in [
        FlashError::OutOfBounds,
        FlashError::Unaligned,
        FlashError::InvalidCore,
        FlashError::Other,
    ] {
        assert_eq!(SettingsError::from(error), SettingsError::Flash);
    }
}

#[test]
fn json_text_is_that_of_the_struct() {
    for hz in [0, 5, 20, 1234567890, u32::MAX] {
        let mut ours = [0xeeu8; 64];
        let mut theirs = [0xeeu8; 64];
        let n = Settings { blink_hz: hz }.to_json(&mut ours).unwrap();
        let m = serde_json_core::to_slice(&Plain { blink_hz: hz }, &mut theirs).unwrap();
        assert_eq!(n, m);
        assert_eq!(&ours[..], &theirs[..]);
    }
    let mut buf = [0u8; 64];
    let n = Settings { blink_hz: 20 }.to_json(&mut buf).unwrap();
    assert_eq!(&buf[..n], b"{\"blink_hz\":20}");
}

#[test]
fn json_that_does_not_fit() {
    let s = Settings { blink_hz: 5 };
    for len in 0..14 {
        let mut buf = vec![b'.'; len];
        assert_eq!(s.to_json(&mut buf), Err(SettingsError::Json));
        let k = buf.iter().position(|b| *b == b'.').unwrap_or(len);
        assert_eq!(&buf[..k], &b"{\"blink_hz\":5}"[..k]);
        assert!(buf[k..].iter().all(|b| *b == b'.'));
    }
    assert_eq!(s.to_json(&mut vec![0u8; 14]), Ok(14));
}

#[test]
fn export_gives_the_settings_in_force() {
    let mut s = store(3);
    let mut buf = [0u8; 256];
    assert_eq!(s.export_json(&mut buf).unwrap(), b"{\"blink_hz\":3}");
    s.set_blink_hz(500);
    assert_eq!(s.export_json(&mut buf).unwrap(), b"{\"blink_hz\":20}");
    assert_eq!(s.export_json(&mut [0u8; 4]), Err(SettingsError::Json));
}

#[test]
fn exported_text_is_json() {
    let s = store(12);
    let mut buf = [0u8; 256];
    let json = s.export_json(&mut buf).unwrap();
    let (map, used) =
        serde_json_core::from_slice::<heapless::LinearMap<heapless::String<16>, u32, 1>>(json).unwrap();
    assert_eq!(used, json.len());
    let entries: Vec<(&str, u32)> = map.iter().map(|(k, v)| (k.as_str(), *v)).collect();
    assert_eq!(entries, vec![("blink_hz", 12)]);
}

#[test]
fn init_takes_what_was_loaded() {
    let (s, state) = SettingsStore::init(Ok(Settings { blink_hz: 50 }), Ok(Settings { blink_hz: 9 }));
    assert!(state.is_none());
    assert_eq!(s.current().blink_hz, 20);
    assert_eq!(s.blink_half_period_ms(), 25);
}

#[test]
fn init_falls_back_to_the_defaults_and_stores_them() {
    for error in [
        SettingsError::NoStoredData,
        SettingsError::TooLarge,
        SettingsError::Flash,
        SettingsError::Json,
    ] {
        let (s, state) = SettingsStore::init(Err(error), Ok(Settings { blink_hz: 0 }));
        assert_eq!(s.current().blink_hz, 1);
        assert_eq!(s.blink_half_period_ms(), 500);
        let payload = image(state.unwrap());
        assert_eq!(&payload[8..22], b"{\"blink_hz\":1}");
    }
    let (s, _) = SettingsStore::init(Err(SettingsError::Json), Err(bad_json()));
    assert_eq!(s.current().blink_hz, 1);
}

#[test]
fn set_is_clamped_and_mirrored() {
    let mut s = store(1);
    for (hz, clamped, ms) in [(0, 1, 500), (10, 10, 50), (77, 20, 25)] {
        let payload = image(s.set_blink_hz(hz));
        assert_eq!(s.current().blink_hz, clamped);
        assert_eq!(s.blink_half_period_ms(), ms);
        let json = format!("{{\"blink_hz\":{}}}", clamped);
        assert_eq!(&payload[8..8 + json.len()], json.as_bytes());
    }
}

#[test]
fn import_merges_and_clamps() {
    let mut s = store(8);
    image(s.import_json(Ok(PartialSettings { blink_hz: None })));
    assert_eq!(s.current().blink_hz, 8);
    image(s.import_json(Ok(PartialSettings { blink_hz: Some(0) })));
    assert_eq!(s.current().blink_hz, 1);
    image(s.import_json(Ok(PartialSettings { blink_hz: Some(4) })));
    assert_eq!(s.current().blink_hz, 4);
    assert_eq!(s.blink_half_period_ms(), 125);
}

#[test]
fn refused_import_changes_nothing() {
    let mut s = store(8);
    match s.import_json(Err(bad_json())) {
        StoreState::Done { result } => assert_eq!(result, Err(SettingsError::Json)),
        other => panic!("{:?}", other),
    }
    assert_eq!(s.current().blink_hz, 8);
    assert_eq!(s.blink_half_period_ms(), 62);
}

#[test]
fn reset_goes_back_to_the_defaults() {
    let mut s = store(8);
    image(s.reset(Ok(Settings { blink_hz: 2 })));
    assert_eq!(s.current().blink_hz, 2);
    image(s.reset(Err(bad_json())));
    assert_eq!(s.current().blink_hz, 1);
    assert_eq!(s.blink_half_period_ms(), 500);
}

#[test]
fn record_layout() {
    let payload = image(StoreState::start(&Settings { blink_hz: 13 }));
    assert_eq!(&payload[..4], &0xC0FFEE42u32.to_le_bytes());
    assert_eq!(&payload[4..8], &15u32.to_le_bytes());
    assert_eq!(&payload[8..23], b"{\"blink_hz\":13}");
    assert!(payload[23..].iter().all(|b| *b == 0xff));
}

fn header(magic: u32, len: u32) -> [u8; 8] {
    let mut h = [0u8; 8];
    h[..4].copy_from_slice(&magic.to_le_bytes());
    h[4..].copy_from_slice(&len.to_le_bytes());
    h
}

#[test]
fn record_header() {
    assert_eq!(record::record_len(&[0xff; 8]), Err(SettingsError::NoStoredData));
    assert_eq!(record::record_len(&[0; 8]), Err(SettingsError::NoStoredData));
    assert_eq!(record::record_len(&header(0xC0FFEE43, 5)), Err(SettingsError::NoStoredData));
    assert_eq!(record::record_len(&header(0xC0FFEE42, 0)), Err(SettingsError::Json));
    assert_eq!(record::record_len(&header(0xC0FFEE42, 1025)), Err(SettingsError::TooLarge));
    assert_eq!(record::record_len(&header(0xC0FFEE42, u32::MAX)), Err(SettingsError::TooLarge));
    assert_eq!(record::record_len(&header(0xC0FFEE42, 1)), Ok(1));
    assert_eq!(record::record_len(&header(0xC0FFEE42, 1024)), Ok(1024));
    assert_eq!(record::record_len(&header(0xC0FFEE42, 258)), Ok(258));
}

#[test]
fn load_reads_what_was_stored() {
    let payload = image(StoreState::start(&Settings { blink_hz: 17 }));
    let state = LoadState::start();
    assert!(matches!(state, LoadState::Header { offset: 2_093_056 }));
    let mut bytes = [0u8; 8];
    bytes.copy_from_slice(&payload[..8]);
    let state = state.step(LoadEvent::Header { bytes });
    match state {
        LoadState::Json { offset, len } => {
            assert_eq!(offset, 2_093_064);
            assert_eq!(&payload[8..8 + len], b"{\"blink_hz\":17}");
        }
        other => panic!("{:?}", other),
    }
}

#[test]
fn load_steps() {
    let result = |state: LoadState| match state {
        LoadState::Done { result } => result,
        other => panic!("{:?}", other),
    };
    let good = || LoadEvent::Header { bytes: header(0xC0FFEE42, 14) };
    assert_eq!(result(LoadState::start().step(LoadEvent::FlashFailed { error: FlashError::Unaligned })), Err(SettingsError::Flash));
    assert_eq!(
        result(LoadState::start().step(LoadEvent::Header { bytes: [0xff; 8] })),
        Err(SettingsError::NoStoredData)
    );
    assert_eq!(
        result(LoadState::start().step(LoadEvent::Header { bytes: header(0xC0FFEE42, 2000) })),
        Err(SettingsError::TooLarge)
    );
    assert_eq!(
        result(LoadState::start().step(LoadEvent::Header { bytes: header(0xC0FFEE42, 0) })),
        Err(SettingsError::Json)
    );
    assert_eq!(
        result(LoadState::start().step(good()).step(LoadEvent::FlashFailed { error: FlashError::Unaligned })),
        Err(SettingsError::Flash)
    );
    assert_eq!(
        result(LoadState::start().step(good()).step(LoadEvent::Parsed { result: Err(bad_json()) })),
        Err(SettingsError::Json)
    );
    let loaded = LoadEvent::Parsed { result: Ok(Settings { blink_hz: 300 }) };
    let done = LoadState::start().step(good()).step(loaded);
    assert_eq!(result(done.step(LoadEvent::FlashFailed { error: FlashError::Unaligned })), Ok(Settings { blink_hz: 300 }));
    let early = LoadEvent::Parsed { result: Ok(Settings { blink_hz: 3 }) };
    assert!(matches!(LoadState::start().step(early), LoadState::Header { .. }));
}

#[test]
fn store_steps() {
    let result = |state: StoreState| match state {
        StoreState::Done { result } => result,
        other => panic!("{:?}", other),
    };
    let start = || StoreState::start(&Settings { blink_hz: 6 });
    match start().step(Ok(())) {
        StoreState::Write { offset, payload } => {
            assert_eq!(offset, 2_093_056);
            assert_eq!(payload, image(start()));
        }
        other => panic!("{:?}", other),
    }
    assert_eq!(result(start().step(Err(FlashError::OutOfBounds))), Err(SettingsError::Flash));
    assert_eq!(result(start().step(Ok(())).step(Err(FlashError::OutOfBounds))), Err(SettingsError::Flash));
    assert_eq!(result(start().step(Ok(())).step(Ok(()))), Ok(()));
    assert_eq!(result(start().step(Ok(())).step(Ok(())).step(Err(FlashError::OutOfBounds))), Ok(()));
}

#[test]
fn later_boots_are_stable() {
    let (first, _) = SettingsStore::init(Err(SettingsError::NoStoredData), Ok(Settings { blink_hz: 30 }));
    let (second, state) = SettingsStore::init(Ok(first.current()), Ok(Settings { blink_hz: 3 }));
    assert!(state.is_none());
    assert_eq!(second.current(), first.current());
    assert_eq!(record::SETTINGS_OFFSET as usize + record::SECTOR_LEN, record::FLASH_SIZE);
}

#[test]
fn half_periods_are_whole() {
    for (hz, half) in [(0, 500), (3, 166), (7, 71), (19, 26), (20, 25), (21, 25)] {
        assert_eq!(derive_half_period(&Settings { blink_hz: hz }), half);
        let clamped = hz.clamp(1, 20);
        assert!(clamped * 2 * half <= 1000);
        assert!(clamped * 2 * (half + 1) > 1000);
    }
}

#[test]
fn stored_settings_load_again() {
    let written = match StoreState::start(&Settings { blink_hz: 9 }).step(Ok(())) {
        StoreState::Write { offset: 2_093_056, payload } => payload,
        other => panic!("{:?}", other),
    };
    let mut bytes = [0u8; 8];
    bytes.copy_from_slice(&written[..8]);
    let reading = LoadState::start().step(LoadEvent::Header { bytes });
    let len = match reading {
        LoadState::Json { offset: 2_093_064, len } => len,
        other => panic!("{:?}", other),
    };
    assert_eq!(&written[8..8 + len], b"{\"blink_hz\":9}");
    let reading = LoadState::Json { offset: 2_093_064, len };
    let parsed = LoadEvent::Parsed { result: Ok(Settings { blink_hz: 9 }) };
    match reading.step(parsed) {
        LoadState::Done { result } => assert_eq!(result, Ok(Settings { blink_hz: 9 })),
        other => panic!("{:?}", other),
    }
}
