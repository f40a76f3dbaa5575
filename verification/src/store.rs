//! The settings in force, with what follows from them.

use vstd::prelude::*;

use crate::bytes::slice;
use crate::json::has_written;
use crate::record::StoreState;
use crate::settings::{
    derive_half_period, half_period, PartialSettings, Settings, SettingsError,
};

verus! {

/// The settings in force. They are always in range, and the blink half-period
/// always belongs to them.
pub struct SettingsStore {
    data: Settings,
    /// Mirror of the half-period of `data`, for cheap reads by the blinker.
    blink_half_period_ms: u32,
}

/// The settings to start with: what was loaded, or else the embedded defaults,
/// moved into their valid range.
pub open spec fn boot_settings(
    loaded: Result<Settings, SettingsError>,
    embedded: Result<Settings, serde_json_core::de::Error>,
) -> Settings {
    match loaded {
        Ok(settings) => settings.clamped(),
        Err(_) => Settings::defaults(embedded).clamped(),
    }
}

/// The settings after the blink frequency was set to `hz`.
pub open spec fn set_settings(hz: u32) -> Settings {
    Settings { blink_hz: hz }.clamped()
}

/// The settings after `p` was imported over `settings`.
pub open spec fn imported_settings(settings: Settings, p: PartialSettings) -> Settings {
    settings.merged(p).clamped()
}

/// The settings after a reset to the embedded defaults.
pub open spec fn reset_settings(embedded: Result<Settings, serde_json_core::de::Error>) -> Settings {
    Settings::defaults(embedded).clamped()
}

impl SettingsStore {
    /// The settings in force.
    pub closed spec fn settings(&self) -> Settings {
        self.data
    }

    #[verifier::type_invariant]
    spec fn wf(self) -> bool {
        &&& self.data.in_range()
        &&& self.blink_half_period_ms == half_period(self.data.blink_hz)
    }

    /// A store with the given settings, moved into their valid range.
    fn of(settings: Settings) -> (store: SettingsStore)
        ensures
            store.settings() == settings.clamped(),
    {
        let mut data = settings;
        data.clamp();
        let half = derive_half_period(&data);
        SettingsStore { data, blink_half_period_ms: half }
    }

    /// Sets up the store from what was loaded, or from the embedded defaults
    /// where nothing was. Defaults are to be stored, so that later boots load
    /// them. Always returns a usable store.
    pub fn init(
        loaded: Result<Settings, SettingsError>,
        embedded: Result<Settings, serde_json_core::de::Error>,
    ) -> (res: (SettingsStore, Option<StoreState>))
        ensures
            res.0.settings() == boot_settings(loaded, embedded),
            res.0.settings().in_range(),
            match res.1 {
                Some(state) => loaded is Err && state.begins_storing(res.0.settings()),
                None => loaded is Ok,
            },
    {
        match loaded {
            Ok(settings) => (SettingsStore::of(settings), None),
            Err(_) => {
                let store = SettingsStore::of(Settings::from_embedded(embedded));
                let state = StoreState::start(&store.data);
                (store, Some(state))
            },
        }
    }

    /// The blink half-period in milliseconds.
    pub fn blink_half_period_ms(&self) -> (res: u32)
        ensures
            res == half_period(self.settings().blink_hz),
            25 <= res <= 500,
    {
        proof {
            use_type_invariant(self);
            crate::settings::law_half_period(self.data.blink_hz, self.data.blink_hz);
        }
        self.blink_half_period_ms
    }

    /// Snapshot of the current settings.
    pub fn current(&self) -> (res: Settings)
        ensures
            res == self.settings(),
            res.in_range(),
    {
        proof {
            use_type_invariant(self);
        }
        self.data.clone()
    }

    /// Convenience: set just the blink frequency (clamped). The new settings
    /// are in force at once, and are to be stored.
    pub fn set_blink_hz(&mut self, hz: u32) -> (state: StoreState)
        ensures
            final(self).settings() == set_settings(hz),
            state.begins_storing(final(self).settings()),
    {
        *self = SettingsStore::of(Settings { blink_hz: hz });
        StoreState::start(&self.data)
    }

    /// Merge a partial import into the current settings. Missing fields are
    /// left untouched. The new settings are in force at once, and are to be
    /// stored. An import that could not be read changes nothing.
    pub fn import_json(
        &mut self,
        parsed: Result<PartialSettings, serde_json_core::de::Error>,
    ) -> (state: StoreState)
        ensures
            match parsed {
                Ok(p) => {
                    &&& final(self).settings() == imported_settings(old(self).settings(), p)
                    &&& state.begins_storing(final(self).settings())
                },
                Err(_) => {
                    &&& final(self).settings() == old(self).settings()
                    &&& state == (StoreState::Done { result: Err(SettingsError::Json) })
                },
            },
    {
        match parsed {
            Ok(partial) => {
                let mut data = self.current();
                data.merge(&partial);
                *self = SettingsStore::of(data);
                StoreState::start(&self.data)
            },
            Err(error) => StoreState::Done { result: Err(SettingsError::from(error)) },
        }
    }

    /// Restore from the embedded defaults. They are in force at once, and are
    /// to be stored.
    pub fn reset(
        &mut self,
        embedded: Result<Settings, serde_json_core::de::Error>,
    ) -> (state: StoreState)
        ensures
            final(self).settings() == reset_settings(embedded),
            state.begins_storing(final(self).settings()),
    {
        *self = SettingsStore::of(Settings::from_embedded(embedded));
        StoreState::start(&self.data)
    }

    /// Serialize current settings into `buf`. Returns the populated slice.
    /// Where they do not fit, some beginning of the text is written.
    pub fn export_json<'a>(&self, buf: &'a mut [u8]) -> (res: Result<&'a [u8], SettingsError>)
        ensures
            match res {
                Ok(json) => {
                    &&& json@ == self.settings().json()
                    &&& json@.len() <= old(buf)@.len()
                    &&& final(buf)@ == json@ + old(buf)@.skip(json@.len() as int)
                },
                Err(error) => {
                    &&& error == SettingsError::Json
                    &&& self.settings().json().len() > old(buf)@.len()
                    &&& exists|k: int|
                        has_written(old(buf)@, final(buf)@, self.settings().json(), k)
                },
            },
    {
        let ghost before = buf@;
        match self.data.to_json(buf) {
            Ok(n) => {
                assert(buf@.subrange(0, n as int) =~= self.data.json());
                Ok(slice(buf, 0, n))
            },
            Err(error) => {
                assert(exists|k: int| has_written(before, buf@, self.data.json(), k));
                Err(error)
            },
        }
    }
}

/// Whatever is loaded, set, imported or reset, the settings are in range.
pub proof fn law_settings_stay_in_range(
    settings: Settings,
    loaded: Result<Settings, SettingsError>,
    embedded: Result<Settings, serde_json_core::de::Error>,
    p: PartialSettings,
    hz: u32,
)
    ensures
        boot_settings(loaded, embedded).in_range(),
        set_settings(hz).in_range(),
        imported_settings(settings, p).in_range(),
        reset_settings(embedded).in_range(),
{
}

/// An import without fields changes nothing, and one with a frequency does
/// what setting that frequency does.
pub proof fn law_import(settings: Settings, hz: u32)
    requires
        settings.in_range(),
    ensures
        imported_settings(settings, PartialSettings { blink_hz: None }) == settings,
        imported_settings(settings, PartialSettings { blink_hz: Some(hz) }) == set_settings(hz),
{
}

/// Importing the frequency that is in force changes nothing.
pub proof fn law_import_of_what_is_in_force(settings: Settings)
    requires
        settings.in_range(),
    ensures
        imported_settings(settings, PartialSettings { blink_hz: Some(settings.blink_hz) })
            == settings,
{
}

/// Once the settings of one boot are stored and load as they were stored, the
/// next boot has the same settings and nothing to store: whichever way the
/// first boot got them, and whatever the embedded defaults have become since.
pub proof fn law_later_boots_are_stable(
    loaded: Result<Settings, SettingsError>,
    embedded: Result<Settings, serde_json_core::de::Error>,
    embedded_later: Result<Settings, serde_json_core::de::Error>,
)
    ensures
        boot_settings(Ok(boot_settings(loaded, embedded)), embedded_later) == boot_settings(
            loaded,
            embedded,
        ),
{
}

/// The frequency to start with is the one that was loaded; where none was, the
/// embedded default; and 1 Hz where that cannot be read. It is moved to the
/// nearer end of 1..=20 where it is outside.
pub proof fn law_boot_frequency(
    loaded: Result<Settings, SettingsError>,
    embedded: Result<Settings, serde_json_core::de::Error>,
)
    ensures
        ({
            let asked: u32 = match (loaded, embedded) {
                (Ok(settings), _) => settings.blink_hz,
                (Err(_), Ok(defaults)) => defaults.blink_hz,
                (Err(_), Err(_)) => 1,
            };
            let hz = boot_settings(loaded, embedded).blink_hz;
            &&& asked == 0 ==> hz == 1
            &&& 1 <= asked <= 20 ==> hz == asked
            &&& asked > 20 ==> hz == 20
        }),
{
}

/// The frequency after it was set is what was asked for, moved to the nearer
/// end of 1..=20 where it is outside.
pub proof fn law_set_frequency(asked: u32)
    ensures
        ({
            let hz = set_settings(asked).blink_hz;
            &&& asked == 0 ==> hz == 1
            &&& 1 <= asked <= 20 ==> hz == asked
            &&& asked > 20 ==> hz == 20
        }),
{
}

/// The frequency after an import is the one that it gives, or else the one that
/// was in force, moved to the nearer end of 1..=20 where it is outside.
pub proof fn law_imported_frequency(settings: Settings, p: PartialSettings)
    ensures
        ({
            let asked: u32 = match p.blink_hz {
                Some(hz) => hz,
                None => settings.blink_hz,
            };
            let hz = imported_settings(settings, p).blink_hz;
            &&& asked == 0 ==> hz == 1
            &&& 1 <= asked <= 20 ==> hz == asked
            &&& asked > 20 ==> hz == 20
        }),
{
}

/// The frequency after a reset is the embedded default, or 1 Hz where that
/// cannot be read, moved to the nearer end of 1..=20 where it is outside.
pub proof fn law_reset_frequency(embedded: Result<Settings, serde_json_core::de::Error>)
    ensures
        ({
            let asked: u32 = match embedded {
                Ok(defaults) => defaults.blink_hz,
                Err(_) => 1,
            };
            let hz = reset_settings(embedded).blink_hz;
            &&& asked == 0 ==> hz == 1
            &&& 1 <= asked <= 20 ==> hz == asked
            &&& asked > 20 ==> hz == 20
        }),
{
}

} // verus!
