//! The settings, and how each request changes them.

use vstd::prelude::*;
use vstd::string::StringSliceAdditionalSpecFns;

use crate::decimal::{
    decimal, decimal_value, law_decimal_is_shortest, law_decimal_reads_back, lemma_decimal_len,
    power_of_ten,
};
use crate::json::{has_written, json_object, needs_no_escape, object_to_slice};

verus! {

/// User-facing settings.
#[derive(Debug, PartialEq, Eq, Structural)]
pub struct Settings {
    /// Onboard LED blink frequency in Hz. Clamped to 1..=20 at apply time.
    pub blink_hz: u32,
}

/// Settings of which each may be missing, as an import brings them.
#[derive(Debug, PartialEq, Eq, Structural)]
pub struct PartialSettings {
    /// A new blink frequency, where one is given.
    pub blink_hz: Option<u32>,
}

impl Clone for Settings {
    fn clone(&self) -> (res: Settings)
        ensures
            res == *self,
    {
        Settings { blink_hz: self.blink_hz }
    }
}

impl Default for PartialSettings {
    fn default() -> (res: PartialSettings)
        ensures
            res == (PartialSettings { blink_hz: None }),
    {
        PartialSettings { blink_hz: None }
    }
}

/// Why settings could not be read or kept.
#[derive(Debug, Clone, Copy, PartialEq, Eq, Structural)]
pub enum SettingsError {
    /// JSON serialization or deserialization failed.
    Json,
    /// Flash IO failed.
    Flash,
    /// Stored payload claims to be larger than `MAX_JSON`.
    TooLarge,
    /// No valid record in flash (first boot or corruption).
    NoStoredData,
}

/// Error of the flash driver in `embassy_rp`.
#[verifier::external_type_specification]
#[verifier::external_body]
pub struct ExFlashError(embassy_rp::flash::Error);

impl From<embassy_rp::flash::Error> for SettingsError {
    fn from(_error: embassy_rp::flash::Error) -> (res: SettingsError) {
        SettingsError::Flash
    }
}

impl vstd::std_specs::convert::FromSpecImpl<embassy_rp::flash::Error> for SettingsError {
    open spec fn obeys_from_spec() -> bool {
        true
    }

    open spec fn from_spec(_error: embassy_rp::flash::Error) -> SettingsError {
        SettingsError::Flash
    }
}

impl From<serde_json_core::de::Error> for SettingsError {
    fn from(_error: serde_json_core::de::Error) -> (res: SettingsError) {
        SettingsError::Json
    }
}

impl vstd::std_specs::convert::FromSpecImpl<serde_json_core::de::Error> for SettingsError {
    open spec fn obeys_from_spec() -> bool {
        true
    }

    open spec fn from_spec(_error: serde_json_core::de::Error) -> SettingsError {
        SettingsError::Json
    }
}

/// `hz`, moved into the range 1..=20 where it is outside.
pub open spec fn clamp_hz(hz: u32) -> u32 {
    if hz < 1 {
        1
    } else if hz > 20 {
        20
    } else {
        hz
    }
}

/// Milliseconds that the LED stays on, and off, at the frequency `hz`.
pub open spec fn half_period(hz: u32) -> u32 {
    500u32 / clamp_hz(hz)
}

/// The blink frequency where nothing else is given.
pub fn default_blink_hz() -> (hz: u32)
    ensures
        hz == 1,
{
    1
}

/// Milliseconds that the LED stays on, and off.
pub fn derive_half_period(settings: &Settings) -> (res: u32)
    ensures
        res == half_period(settings.blink_hz),
{
    let hz = if settings.blink_hz < 1 {
        1
    } else if settings.blink_hz > 20 {
        20
    } else {
        settings.blink_hz
    };
    500 / hz
}

impl Settings {
    /// Every field is in its valid range.
    pub open spec fn in_range(self) -> bool {
        1 <= self.blink_hz <= 20
    }

    /// These settings, with every field moved into its valid range.
    pub open spec fn clamped(self) -> Settings {
        Settings { blink_hz: clamp_hz(self.blink_hz) }
    }

    /// These settings, with the fields that `p` gives replaced.
    pub open spec fn merged(self, p: PartialSettings) -> Settings {
        match p.blink_hz {
            Some(hz) => Settings { blink_hz: hz },
            None => self,
        }
    }

    /// The JSON text of these settings.
    pub open spec fn json(self) -> Seq<u8> {
        json_object("blink_hz".spec_bytes(), self.blink_hz)
    }

    /// The settings that the embedded defaults stand for: what reading them
    /// gave, or a frequency of 1 Hz where they could not be read.
    pub open spec fn defaults(embedded: Result<Settings, serde_json_core::de::Error>) -> Settings {
        match embedded {
            Ok(settings) => settings,
            Err(_) => Settings { blink_hz: 1 },
        }
    }

    /// Takes over the embedded defaults, as far as they could be read.
    pub fn from_embedded(embedded: Result<Settings, serde_json_core::de::Error>) -> (res: Settings)
        ensures
            res == Settings::defaults(embedded),
    {
        match embedded {
            Ok(settings) => settings,
            Err(_) => Settings { blink_hz: 1 },
        }
    }

    /// Apply only the `Some(_)` fields from `p`; leave the rest untouched.
    pub fn merge(&mut self, p: &PartialSettings)
        ensures
            *final(self) == old(self).merged(*p),
    {
        if let Some(v) = p.blink_hz {
            self.blink_hz = v;
        }
    }

    /// Clamp every field to its valid range. Called after merge / import.
    pub fn clamp(&mut self)
        ensures
            *final(self) == old(self).clamped(),
    {
        if self.blink_hz < 1 {
            self.blink_hz = 1;
        } else if self.blink_hz > 20 {
            self.blink_hz = 20;
        }
    }

    /// Writes these settings as JSON to the front of `buf` and returns the
    /// length of the text. Where it does not fit, some beginning of it is
    /// written.
    pub fn to_json(&self, buf: &mut [u8]) -> (res: Result<usize, SettingsError>)
        ensures
            final(buf)@.len() == old(buf)@.len(),
            match res {
                Ok(n) => {
                    &&& n == self.json().len()
                    &&& n <= old(buf)@.len()
                    &&& final(buf)@ == self.json() + old(buf)@.skip(n as int)
                },
                Err(e) => {
                    &&& e == SettingsError::Json
                    &&& self.json().len() > old(buf)@.len()
                    &&& exists|k: int| has_written(old(buf)@, final(buf)@, self.json(), k)
                },
            },
    {
        proof {
            lemma_key();
        }
        match object_to_slice("blink_hz", self.blink_hz, buf) {
            Ok(n) => Ok(n),
            Err(_) => Err(SettingsError::Json),
        }
    }
}

proof fn lemma_key()
    ensures
        "blink_hz".spec_bytes().len() == 8,
        needs_no_escape("blink_hz".spec_bytes()),
{
    reveal_strlit("blink_hz");
    vstd::utf8::is_ascii_chars_encode_utf8("blink_hz"@);
}

/// The JSON text of any settings has 14 to 23 bytes.
pub proof fn law_json_is_short(settings: Settings)
    ensures
        14 <= settings.json().len() <= 23,
{
    lemma_key();
    assert(settings.blink_hz < power_of_ten(10)) by {
        reveal_with_fuel(power_of_ten, 11);
    }
    lemma_decimal_len(settings.blink_hz as nat, 10);
}

/// Clamped settings are in range, settings in range are left alone by a clamp,
/// and so a second clamp changes nothing.
pub proof fn law_clamp(settings: Settings)
    ensures
        settings.clamped().in_range(),
        settings.in_range() ==> settings.clamped() == settings,
        settings.clamped().clamped() == settings.clamped(),
{
}

/// A field that an import does not give is left untouched; one that it gives
/// replaces what was there; and importing the same again changes nothing.
pub proof fn law_merge_is_partial(settings: Settings, p: PartialSettings)
    ensures
        p.blink_hz is None ==> settings.merged(p).blink_hz == settings.blink_hz,
        p.blink_hz matches Some(hz) ==> settings.merged(p).blink_hz == hz,
        settings.merged(p).merged(p) == settings.merged(p),
{
}

/// The LED is on, and off, for 25 to 500 ms at a time, and a higher frequency
/// never makes it longer.
pub proof fn law_half_period(slow: u32, fast: u32)
    requires
        slow <= fast,
    ensures
        25 <= half_period(fast) <= half_period(slow) <= 500,
{
    let a = clamp_hz(slow) as int;
    let b = clamp_hz(fast) as int;
    assert(25 <= 500int / b <= 500int / a <= 500) by (nonlinear_arith)
        requires
            1 <= a <= b <= 20,
    ;
}

/// The half-period is the whole number of milliseconds in half a period: `hz`
/// whole periods take no more than a second, and one more millisecond in each
/// half would make them take more.
pub proof fn law_half_period_is_whole(hz: u32)
    ensures
        clamp_hz(hz) * (2 * half_period(hz)) <= 1000 < clamp_hz(hz) * (2 * (half_period(hz) + 1)),
{
    let a = clamp_hz(hz) as int;
    let q = half_period(hz) as int;
    assert(a * (2 * q) <= 1000 < a * (2 * (q + 1))) by (nonlinear_arith)
        requires
            1 <= a <= 20,
            q == 500int / a,
    ;
}

/// What clamping does to each frequency: 0 becomes 1, what is above 20 becomes
/// 20, and what is in between is kept. In range is just what is kept.
pub proof fn law_clamp_by_value(settings: Settings)
    ensures
        settings.blink_hz == 0 ==> settings.clamped().blink_hz == 1,
        1 <= settings.blink_hz <= 20 ==> settings.clamped().blink_hz == settings.blink_hz,
        settings.blink_hz > 20 ==> settings.clamped().blink_hz == 20,
        settings.in_range() <==> 1 <= settings.blink_hz <= 20,
{
}

/// Embedded defaults that can be read are taken as they are, and 1 Hz stands in
/// for those that cannot.
pub proof fn law_defaults(settings: Settings, error: serde_json_core::de::Error)
    ensures
        Settings::defaults(Ok(settings)).blink_hz == settings.blink_hz,
        Settings::defaults(Err(error)).blink_hz == 1,
{
}

/// In half a period fit as many whole milliseconds as the half-period says, and
/// no more: `hz` periods of two halves take at most a second, and with a
/// millisecond more in each half they would take longer.
pub proof fn law_half_period_by_value(hz: u32)
    ensures
        1 <= hz <= 20 ==> hz * (2 * half_period(hz)) <= 1000 < hz * (2 * (half_period(hz) + 1)),
        hz == 0 ==> half_period(hz) == 500,
        hz > 20 ==> half_period(hz) == 25,
{
    law_half_period_is_whole(hz);
    if hz == 0 {
        assert(500u32 / 1u32 == 500);
    } else if hz > 20 {
        assert(500u32 / 20u32 == 25);
    }
}

/// The JSON text of settings is an object whose one member is named `blink_hz`,
/// and whose number, in its shortest form, reads back as the frequency.
pub proof fn law_json_text(settings: Settings)
    ensures
        ({
            let text = settings.json();
            let digits = text.subrange(12, text.len() - 1);
            &&& text.len() >= 14
            &&& text.take(12) == "{\"blink_hz\":".spec_bytes()
            &&& text.last() == 125
            &&& forall|i: int| 0 <= i < digits.len() ==> 48 <= #[trigger] digits[i] <= 57
            &&& digits.len() > 1 ==> digits[0] != 48
            &&& decimal_value(digits) == settings.blink_hz
        }),
{
    lemma_key();
    reveal_strlit("blink_hz");
    reveal_strlit("{\"blink_hz\":");
    vstd::utf8::is_ascii_chars_encode_utf8("blink_hz"@);
    vstd::utf8::is_ascii_chars_encode_utf8("{\"blink_hz\":"@);
    law_decimal_reads_back(settings.blink_hz as nat);
    law_decimal_is_shortest(settings.blink_hz as nat);
    let text = settings.json();
    assert(text.take(12) =~= "{\"blink_hz\":".spec_bytes());
    assert(text.subrange(12, text.len() - 1) =~= decimal(settings.blink_hz as nat));
}

/// Different settings have different texts.
pub proof fn law_json_tells_settings_apart(a: Settings, b: Settings)
    ensures
        a.json() == b.json() <==> a == b,
{
    law_json_text(a);
    law_json_text(b);
}

} // verus!
