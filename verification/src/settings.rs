//! Application settings, with the normalisation of reminder thresholds.

use vstd::prelude::*;

verus! {

/// What the window's close button does.
#[derive(Clone, Copy, PartialEq, Eq, Structural, Debug)]
pub enum CloseAction {
    /// Not chosen yet: the front end asks the user.
    Ask,
    /// Hide into the tray and keep running.
    Tray,
    /// Quit the application.
    Exit,
}

impl Default for CloseAction {
    fn default() -> (r: Self)
        ensures
            r == CloseAction::Ask,
    {
        CloseAction::Ask
    }
}

/// User settings.
#[derive(Debug)]
pub struct Settings {
    /// Interface language.
    pub language: String,
    /// Theme: system / light / dark.
    pub theme: String,
    /// Accent colour: system / orange / blue.
    pub accent_color: String,
    /// Start with the session.
    pub autostart: bool,
    /// Start hidden, with the tray icon only.
    pub silent_start: bool,
    /// Close button behaviour.
    pub close_action: CloseAction,
    /// Low battery reminder while discharging.
    pub remind_charge: bool,
    /// Low battery threshold (%).
    pub remind_charge_at: i64,
    /// High battery reminder while plugged in.
    pub remind_unplug: bool,
    /// High battery threshold (%).
    pub remind_unplug_at: i64,
    /// High temperature reminder.
    pub remind_temp_high: bool,
    /// High temperature threshold (°C).
    pub remind_temp_high_at: i64,
    /// Low temperature reminder.
    pub remind_temp_low: bool,
    /// Low temperature threshold (°C).
    pub remind_temp_low_at: i64,
    /// Abnormal drain reminder.
    pub remind_drain: bool,
    /// Abnormal drain threshold (W).
    pub remind_drain_at: i64,
}

/// The mathematical value of a `Settings`: strings are taken by their characters.
pub struct SettingsModel {
    pub language: Seq<char>,
    pub theme: Seq<char>,
    pub accent_color: Seq<char>,
    pub autostart: bool,
    pub silent_start: bool,
    pub close_action: CloseAction,
    pub remind_charge: bool,
    pub remind_charge_at: int,
    pub remind_unplug: bool,
    pub remind_unplug_at: int,
    pub remind_temp_high: bool,
    pub remind_temp_high_at: int,
    pub remind_temp_low: bool,
    pub remind_temp_low_at: int,
    pub remind_drain: bool,
    pub remind_drain_at: int,
}

impl View for Settings {
    type V = SettingsModel;

    open spec fn view(&self) -> SettingsModel {
        SettingsModel {
            language: self.language@,
            theme: self.theme@,
            accent_color: self.accent_color@,
            autostart: self.autostart,
            silent_start: self.silent_start,
            close_action: self.close_action,
            remind_charge: self.remind_charge,
            remind_charge_at: self.remind_charge_at as int,
            remind_unplug: self.remind_unplug,
            remind_unplug_at: self.remind_unplug_at as int,
            remind_temp_high: self.remind_temp_high,
            remind_temp_high_at: self.remind_temp_high_at as int,
            remind_temp_low: self.remind_temp_low,
            remind_temp_low_at: self.remind_temp_low_at as int,
            remind_drain: self.remind_drain,
            remind_drain_at: self.remind_drain_at as int,
        }
    }
}

/// The settings a fresh installation starts with.
pub open spec fn default_settings() -> SettingsModel {
    SettingsModel {
        language: "zh-CN"@,
        theme: "system"@,
        accent_color: "system"@,
        autostart: false,
        silent_start: false,
        close_action: CloseAction::Ask,
        remind_charge: true,
        remind_charge_at: 30,
        remind_unplug: true,
        remind_unplug_at: 80,
        remind_temp_high: true,
        remind_temp_high_at: 45,
        remind_temp_low: true,
        remind_temp_low_at: 5,
        remind_drain: true,
        remind_drain_at: 30,
    }
}

/// `v` limited to the closed interval `[lo, hi]`.
pub open spec fn clamp(v: int, lo: int, hi: int) -> int {
    if v < lo {
        lo
    } else if v > hi {
        hi
    } else {
        v
    }
}

/// Lowest and highest high-temperature threshold the interface offers (°C).
pub open spec fn temp_high_range() -> (int, int) {
    (20, 80)
}

/// The settings with their thresholds brought into the supported ranges:
/// high temperature in [20, 80], low temperature in [-10, 20] and at least
/// 2 °C under the high one (room for the 1 °C hysteresis on each side),
/// drain in [5, 150] W.
pub open spec fn normalize(s: SettingsModel) -> SettingsModel {
    let high = clamp(s.remind_temp_high_at, 20, 80);
    let low0 = clamp(s.remind_temp_low_at, -10, 20);
    let low = if low0 > high - 2 {
        high - 2
    } else {
        low0
    };
    SettingsModel {
        remind_temp_high_at: high,
        remind_temp_low_at: low,
        remind_drain_at: clamp(s.remind_drain_at, 5, 150),
        ..s
    }
}

/// The thresholds lie in the ranges that `normalize` establishes.
pub open spec fn thresholds_supported(s: SettingsModel) -> bool {
    &&& 20 <= s.remind_temp_high_at <= 80
    &&& -10 <= s.remind_temp_low_at <= 20
    &&& s.remind_temp_low_at <= s.remind_temp_high_at - 2
    &&& 5 <= s.remind_drain_at <= 150
}

fn clamp_i64(v: i64, lo: i64, hi: i64) -> (r: i64)
    requires
        lo <= hi,
    ensures
        r == clamp(v as int, lo as int, hi as int),
{
    if v < lo {
        lo
    } else if v > hi {
        hi
    } else {
        v
    }
}

impl Clone for Settings {
    fn clone(&self) -> (r: Self)
        ensures
            r@ == self@,
    {
        Settings {
            language: self.language.clone(),
            theme: self.theme.clone(),
            accent_color: self.accent_color.clone(),
            autostart: self.autostart,
            silent_start: self.silent_start,
            close_action: self.close_action,
            remind_charge: self.remind_charge,
            remind_charge_at: self.remind_charge_at,
            remind_unplug: self.remind_unplug,
            remind_unplug_at: self.remind_unplug_at,
            remind_temp_high: self.remind_temp_high,
            remind_temp_high_at: self.remind_temp_high_at,
            remind_temp_low: self.remind_temp_low,
            remind_temp_low_at: self.remind_temp_low_at,
            remind_drain: self.remind_drain,
            remind_drain_at: self.remind_drain_at,
        }
    }
}

impl Default for Settings {
    fn default() -> (r: Self)
        ensures
            r@ == default_settings(),
    {
        Settings {
            language: String::from_str("zh-CN"),
            theme: String::from_str("system"),
            accent_color: String::from_str("system"),
            autostart: false,
            silent_start: false,
            close_action: CloseAction::Ask,
            remind_charge: true,
            remind_charge_at: 30,
            remind_unplug: true,
            remind_unplug_at: 80,
            remind_temp_high: true,
            remind_temp_high_at: 45,
            remind_temp_low: true,
            remind_temp_low_at: 5,
            remind_drain: true,
            remind_drain_at: 30,
        }
    }
}

impl Settings {
    /// Brings the temperature and drain thresholds into the ranges the
    /// interface supports, keeping at least 2 °C between the low and the high
    /// temperature threshold. Applies to old files, hand-edited files and
    /// commands that bypass the front end alike.
    pub fn normalized(self) -> (r: Self)
        ensures
            r@ == normalize(self@),
    {
        let mut s = self;
        s.remind_temp_high_at = clamp_i64(s.remind_temp_high_at, 20, 80);
        s.remind_temp_low_at = clamp_i64(s.remind_temp_low_at, -10, 20);
        if s.remind_temp_low_at > s.remind_temp_high_at - 2 {
            s.remind_temp_low_at = s.remind_temp_high_at - 2;
        }
        s.remind_drain_at = clamp_i64(s.remind_drain_at, 5, 150);
        s
    }
}

/// Whatever settings go in, normalised settings have supported thresholds.
pub proof fn lemma_normalize_supported(s: SettingsModel)
    ensures
        thresholds_supported(normalize(s)),
{
}

/// Normalising twice changes nothing more than normalising once.
pub proof fn lemma_normalize_idempotent(s: SettingsModel)
    ensures
        normalize(normalize(s)) == normalize(s),
{
}

/// Settings whose thresholds are already supported are left exactly as they are,
/// and only those are.
pub proof fn lemma_normalize_fixed_points(s: SettingsModel)
    ensures
        (normalize(s) == s) <==> thresholds_supported(s),
{
    if normalize(s) == s {
        lemma_normalize_supported(s);
    }
}

/// Normalisation touches only the three thresholds it bounds.
pub proof fn lemma_normalize_keeps_other_fields(s: SettingsModel)
    ensures
        normalize(s).language == s.language,
        normalize(s).theme == s.theme,
        normalize(s).accent_color == s.accent_color,
        normalize(s).autostart == s.autostart,
        normalize(s).silent_start == s.silent_start,
        normalize(s).close_action == s.close_action,
        normalize(s).remind_charge == s.remind_charge,
        normalize(s).remind_charge_at == s.remind_charge_at,
        normalize(s).remind_unplug == s.remind_unplug,
        normalize(s).remind_unplug_at == s.remind_unplug_at,
        normalize(s).remind_temp_high == s.remind_temp_high,
        normalize(s).remind_temp_low == s.remind_temp_low,
        normalize(s).remind_drain == s.remind_drain,
{
}

/// The settings held in memory. Persisting them is the caller's part: every
/// change hands back the value to write.
pub struct SettingsStore {
    path: String,
    current: Settings,
}

impl SettingsStore {
    #[verifier::type_invariant]
    spec fn inv(self) -> bool {
        thresholds_supported(self.current@)
    }

    /// The settings held now.
    pub closed spec fn current(&self) -> SettingsModel {
        self.current@
    }

    /// The file the settings belong to.
    pub closed spec fn spec_path(&self) -> Seq<char> {
        self.path@
    }

    /// Starts from the settings read from `path` (`None` when the file is
    /// missing or does not parse), or from the defaults, normalised.
    pub fn load(path: String, stored: Option<Settings>) -> (r: Self)
        ensures
            r.spec_path() == path@,
            r.current() == normalize(
                match stored {
                    Some(s) => s@,
                    None => default_settings(),
                },
            ),
    {
        let settings = match stored {
            Some(s) => s,
            None => Settings::default(),
        };
        let current = settings.normalized();
        proof {
            lemma_normalize_supported(current@);
        }
        SettingsStore { path, current }
    }

    /// A copy of the current settings.
    pub fn get(&self) -> (r: Settings)
        ensures
            r@ == self.current(),
            thresholds_supported(r@),
    {
        proof {
            use_type_invariant(self);
        }
        self.current.clone()
    }

    /// The file the settings belong to.
    pub fn path(&self) -> (r: &str)
        ensures
            r@ == self.spec_path(),
    {
        self.path.as_str()
    }

    /// Replaces the settings with `settings`, normalised, and returns a copy
    /// of what is now held, for the caller to persist.
    pub fn set(&mut self, settings: Settings) -> (r: Settings)
        ensures
            final(self).current() == normalize(settings@),
            final(self).spec_path() == old(self).spec_path(),
            r@ == final(self).current(),
    {
        let current = settings.normalized();
        proof {
            lemma_normalize_supported(settings@);
        }
        self.current = current;
        self.current.clone()
    }
}

} // verus!
