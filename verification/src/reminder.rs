//! Battery care reminders.
//!
//! Four independent reminders, each with its own switch: low charge while
//! discharging, high charge while plugged in, high temperature and low
//! temperature. They are edge-triggered: a reminder is raised once when a
//! battery enters its zone and re-armed when the battery leaves it. The
//! temperature reminders re-arm only one degree past the threshold, so a
//! reading that wavers around the threshold does not raise them again.
//!
//! The library decides which notifications to raise; showing them is left
//! to the caller.

use vstd::prelude::*;
use crate::battery::{opt_is, opt_view, BatteryInfo};
use crate::settings::{Settings, SettingsModel};
use crate::text::{
    chars_of, digit_char, digit_of, extend_chars, extend_str, i64_decimal, int_decimal,
    nat_decimal, str_eq, string_of, u64_decimal,
};

verus! {

/// A notification: title and body.
pub open spec fn note(title: Seq<char>, body: Seq<char>) -> (Seq<char>, Seq<char>) {
    (title, body)
}

/// Whether the interface language is English.
pub open spec fn is_english(language: Seq<char>) -> bool {
    language == "en-US"@
}

/// A temperature given in tenths of a degree, written with one decimal.
pub open spec fn temperature_decimal(dc: int) -> Seq<char> {
    let m: nat = if dc < 0 {
        (-dc) as nat
    } else {
        dc as nat
    };
    let sign: Seq<char> = if dc < 0 {
        "-"@
    } else {
        Seq::empty()
    };
    sign + nat_decimal(m / 10) + "."@ + seq![digit_char((m % 10) as int)]
}

/// The text of the high charge reminder.
pub open spec fn high_battery_note(language: Seq<char>, label: Seq<char>, capacity: int) -> (
    Seq<char>,
    Seq<char>,
) {
    if is_english(language) {
        note(
            "Battery Charged"@,
            label + " has reached "@ + int_decimal(capacity)
                + "%. Consider unplugging it; keeping a battery fully charged for long periods can accelerate aging."@,
        )
    } else {
        note(
            "电量充足"@,
            label + " 电量已达 "@ + int_decimal(capacity) + "%，建议拔掉电源。长期满电浮充会加速电池老化。"@,
        )
    }
}

/// The text of the low charge reminder.
pub open spec fn low_battery_note(language: Seq<char>, label: Seq<char>, capacity: int) -> (
    Seq<char>,
    Seq<char>,
) {
    if is_english(language) {
        note(
            "Low Battery"@,
            label + " has dropped to "@ + int_decimal(capacity)
                + "%. Connect a power source to charge it."@,
        )
    } else {
        note("电量偏低"@, label + " 电量已降至 "@ + int_decimal(capacity) + "%，建议接上电源充电。"@)
    }
}

/// The text of the high temperature reminder.
pub open spec fn high_temp_note(language: Seq<char>, label: Seq<char>, dc: int) -> (
    Seq<char>,
    Seq<char>,
) {
    if is_english(language) {
        note(
            "Battery Temperature High"@,
            label + " has reached "@ + temperature_decimal(dc)
                + "°C. Reduce load and keep the device away from heat sources; high temperature accelerates battery aging."@,
        )
    } else {
        note(
            "电池温度偏高"@,
            label + " 温度已达 "@ + temperature_decimal(dc) + "°C，建议降低负载并远离热源，高温会加速电池老化。"@,
        )
    }
}

/// The text of the low temperature reminder.
pub open spec fn low_temp_note(language: Seq<char>, label: Seq<char>, dc: int) -> (
    Seq<char>,
    Seq<char>,
) {
    if is_english(language) {
        note(
            "Battery Temperature Low"@,
            label + " has dropped to "@ + temperature_decimal(dc)
                + "°C. Charging a cold battery can damage it; let the device warm up first."@,
        )
    } else {
        note(
            "电池温度偏低"@,
            label + " 温度已降至 "@ + temperature_decimal(dc) + "°C，低温下充电可能损伤电池，建议先让设备回暖。"@,
        )
    }
}

/// The characters of `temperature_decimal(dc)`.
pub fn temperature_chars(dc: i64) -> (r: Vec<char>)
    ensures
        r@ == temperature_decimal(dc as int),
{
    let m: u64 = if dc < 0 {
        (0i128 - (dc as i128)) as u64
    } else {
        dc as u64
    };
    let mut r: Vec<char> = Vec::new();
    if dc < 0 {
        r.push('-');
    }
    let whole = u64_decimal(m / 10);
    extend_chars(&mut r, whole.as_slice());
    r.push('.');
    r.push(digit_of(m % 10));
    proof {
        reveal_strlit("-");
        reveal_strlit(".");
        let sign: Seq<char> = if dc < 0 {
            "-"@
        } else {
            Seq::empty()
        };
        assert(r@ =~= sign + nat_decimal((m / 10) as nat) + "."@ + seq![
            digit_char((m % 10) as int),
        ]);
    }
    r
}

fn two_strings(title: &str, body: &[char]) -> (r: (String, String))
    ensures
        r.0@ == title@,
        r.1@ == body@,
{
    let t = chars_of(title);
    (string_of(t.as_slice()), string_of(body))
}

/// The high charge reminder for `label` at `capacity` percent.
pub fn high_battery_text(language: &str, label: &str, capacity: i64) -> (r: (String, String))
    ensures
        (r.0@, r.1@) == high_battery_note(language@, label@, capacity as int),
{
    let digits = i64_decimal(capacity);
    let mut body = chars_of(label);
    if str_eq(language, "en-US") {
        extend_str(&mut body, " has reached ");
        extend_chars(&mut body, digits.as_slice());
        extend_str(
            &mut body,
            "%. Consider unplugging it; keeping a battery fully charged for long periods can accelerate aging.",
        );
        two_strings("Battery Charged", body.as_slice())
    } else {
        extend_str(&mut body, " 电量已达 ");
        extend_chars(&mut body, digits.as_slice());
        extend_str(&mut body, "%，建议拔掉电源。长期满电浮充会加速电池老化。");
        two_strings("电量充足", body.as_slice())
    }
}

/// The low charge reminder for `label` at `capacity` percent.
pub fn low_battery_text(language: &str, label: &str, capacity: i64) -> (r: (String, String))
    ensures
        (r.0@, r.1@) == low_battery_note(language@, label@, capacity as int),
{
    let digits = i64_decimal(capacity);
    let mut body = chars_of(label);
    if str_eq(language, "en-US") {
        extend_str(&mut body, " has dropped to ");
        extend_chars(&mut body, digits.as_slice());
        extend_str(&mut body, "%. Connect a power source to charge it.");
        two_strings("Low Battery", body.as_slice())
    } else {
        extend_str(&mut body, " 电量已降至 ");
        extend_chars(&mut body, digits.as_slice());
        extend_str(&mut body, "%，建议接上电源充电。");
        two_strings("电量偏低", body.as_slice())
    }
}

/// The high temperature reminder for `label` at `dc` tenths of a degree.
pub fn high_temp_text(language: &str, label: &str, dc: i64) -> (r: (String, String))
    ensures
        (r.0@, r.1@) == high_temp_note(language@, label@, dc as int),
{
    let digits = temperature_chars(dc);
    let mut body = chars_of(label);
    if str_eq(language, "en-US") {
        extend_str(&mut body, " has reached ");
        extend_chars(&mut body, digits.as_slice());
        extend_str(
            &mut body,
            "°C. Reduce load and keep the device away from heat sources; high temperature accelerates battery aging.",
        );
        two_strings("Battery Temperature High", body.as_slice())
    } else {
        extend_str(&mut body, " 温度已达 ");
        extend_chars(&mut body, digits.as_slice());
        extend_str(&mut body, "°C，建议降低负载并远离热源，高温会加速电池老化。");
        two_strings("电池温度偏高", body.as_slice())
    }
}

/// The low temperature reminder for `label` at `dc` tenths of a degree.
pub fn low_temp_text(language: &str, label: &str, dc: i64) -> (r: (String, String))
    ensures
        (r.0@, r.1@) == low_temp_note(language@, label@, dc as int),
{
    let digits = temperature_chars(dc);
    let mut body = chars_of(label);
    if str_eq(language, "en-US") {
        extend_str(&mut body, " has dropped to ");
        extend_chars(&mut body, digits.as_slice());
        extend_str(
            &mut body,
            "°C. Charging a cold battery can damage it; let the device warm up first.",
        );
        two_strings("Battery Temperature Low", body.as_slice())
    } else {
        extend_str(&mut body, " 温度已降至 ");
        extend_chars(&mut body, digits.as_slice());
        extend_str(&mut body, "°C，低温下充电可能损伤电池，建议先让设备回暖。");
        two_strings("电池温度偏低", body.as_slice())
    }
}


// ------------------------------------------------------------ fired state

/// A set of battery device names.
pub struct DeviceSet {
    items: Vec<String>,
}

/// The names a list of strings holds.
pub open spec fn names_of(items: Seq<String>) -> Seq<Seq<char>> {
    items.map_values(|s: String| s@)
}

impl View for DeviceSet {
    type V = Set<Seq<char>>;

    closed spec fn view(&self) -> Set<Seq<char>> {
        names_of(self.items@).to_set()
    }
}

/// The device names of a list of batteries.
pub open spec fn devices_of(batteries: Seq<BatteryInfo>) -> Set<Seq<char>> {
    Set::new(|d: Seq<char>| exists|i: int| 0 <= i < batteries.len() && #[trigger] batteries[i].device@ == d)
}

impl DeviceSet {
    /// The empty set.
    pub fn new() -> (r: Self)
        ensures
            r@ == Set::<Seq<char>>::empty(),
    {
        let r = DeviceSet { items: Vec::new() };
        assert(r@ =~= Set::<Seq<char>>::empty());
        r
    }

    /// Whether `device` is in the set.
    pub fn contains(&self, device: &str) -> (r: bool)
        ensures
            r == self@.contains(device@),
    {
        let mut i: usize = 0;
        while i < self.items.len()
            invariant
                i <= self.items@.len(),
                forall|j: int| 0 <= j < i ==> self.items@[j]@ != device@,
            decreases self.items@.len() - i,
        {
            if str_eq(self.items[i].as_str(), device) {
                assert(names_of(self.items@)[i as int] == device@);
                return true;
            }
            i += 1;
        }
        assert(!names_of(self.items@).contains(device@));
        false
    }

    /// Adds `device`; says whether it was absent.
    pub fn insert(&mut self, device: &str) -> (r: bool)
        ensures
            r == !old(self)@.contains(device@),
            final(self)@ == old(self)@.insert(device@),
    {
        if self.contains(device) {
            assert(self@ =~= self@.insert(device@));
            return false;
        }
        let ghost before = names_of(self.items@);
        let d = string_of(chars_of(device).as_slice());
        self.items.push(d);
        proof {
            assert(names_of(self.items@) =~= before.push(device@));
            assert forall|x: Seq<char>| #[trigger] self@.contains(x) <==> old(self)@.insert(device@).contains(x) by {
                if x == device@ {
                    assert(names_of(self.items@)[before.len() as int] == x);
                } else if before.contains(x) {
                    let k = choose|k: int| 0 <= k < before.len() && before[k] == x;
                    assert(names_of(self.items@)[k] == x);
                } else if names_of(self.items@).contains(x) {
                    let k = choose|k: int| 0 <= k < names_of(self.items@).len() && names_of(self.items@)[k] == x;
                    assert(before[k] == x);
                }
            }
            assert(self@ =~= old(self)@.insert(device@));
        }
        true
    }

    /// Removes `device`.
    pub fn remove(&mut self, device: &str)
        ensures
            final(self)@ == old(self)@.remove(device@),
    {
        let ghost src = names_of(self.items@);
        let mut kept: Vec<String> = Vec::new();
        let mut i: usize = 0;
        while i < self.items.len()
            invariant
                i <= self.items@.len(),
                src == names_of(self.items@),
                forall|x: Seq<char>| #[trigger] names_of(kept@).contains(x) <==> (x != device@ && exists|j: int| 0 <= j < i && src[j] == x),
            decreases self.items@.len() - i,
        {
            let ghost prev = names_of(kept@);
            if !str_eq(self.items[i].as_str(), device) {
                let c = self.items[i].clone();
                kept.push(c);
                proof {
                    assert(names_of(kept@) =~= prev.push(src[i as int]));
                    assert forall|x: Seq<char>| #[trigger] names_of(kept@).contains(x) <==> (x != device@ && exists|j: int| 0 <= j < i + 1 && src[j] == x) by {
                        if names_of(kept@).contains(x) {
                            let k = choose|k: int| 0 <= k < names_of(kept@).len() && names_of(kept@)[k] == x;
                            if k < prev.len() {
                                assert(prev[k] == x);
                                assert(prev.contains(x));
                            }
                        }
                        if x != device@ && exists|j: int| 0 <= j < i + 1 && src[j] == x {
                            let j = choose|j: int| 0 <= j < i + 1 && src[j] == x;
                            if j < i {
                                assert(prev.contains(x));
                                let k = choose|k: int| 0 <= k < prev.len() && prev[k] == x;
                                assert(names_of(kept@)[k] == x);
                            } else {
                                assert(names_of(kept@)[prev.len() as int] == x);
                            }
                        }
                    }
                }
            } else {
                proof {
                    assert forall|x: Seq<char>| #[trigger] names_of(kept@).contains(x) <==> (x != device@ && exists|j: int| 0 <= j < i + 1 && src[j] == x) by {
                        if x != device@ && exists|j: int| 0 <= j < i + 1 && src[j] == x {
                            let j = choose|j: int| 0 <= j < i + 1 && src[j] == x;
                            assert(j < i);
                        }
                    }
                }
            }
            i += 1;
        }
        self.items = kept;
        proof {
            assert forall|x: Seq<char>| #[trigger] self@.contains(x) <==> old(self)@.remove(device@).contains(x) by {
                if x != device@ && src.contains(x) {
                    let j = choose|j: int| 0 <= j < src.len() && src[j] == x;
                    assert(exists|j: int| 0 <= j < src.len() && src[j] == x);
                }
            }
            assert(self@ =~= old(self)@.remove(device@));
        }
    }

    /// Removes every name.
    pub fn clear(&mut self)
        ensures
            final(self)@ == Set::<Seq<char>>::empty(),
    {
        self.items = Vec::new();
        assert(self@ =~= Set::<Seq<char>>::empty());
    }

    /// Keeps only the names of devices in `batteries`.
    pub fn retain_devices(&mut self, batteries: &[BatteryInfo])
        ensures
            final(self)@ == old(self)@.intersect(devices_of(batteries@)),
    {
        let ghost src = names_of(self.items@);
        let ghost active = devices_of(batteries@);
        let mut kept: Vec<String> = Vec::new();
        let mut i: usize = 0;
        while i < self.items.len()
            invariant
                i <= self.items@.len(),
                src == names_of(self.items@),
                active == devices_of(batteries@),
                forall|x: Seq<char>| #[trigger] names_of(kept@).contains(x) <==> (active.contains(x) && exists|j: int| 0 <= j < i && src[j] == x),
            decreases self.items@.len() - i,
        {
            let ghost prev = names_of(kept@);
            if has_device(batteries, self.items[i].as_str()) {
                let c = self.items[i].clone();
                kept.push(c);
                proof {
                    assert(names_of(kept@) =~= prev.push(src[i as int]));
                    assert forall|x: Seq<char>| #[trigger] names_of(kept@).contains(x) <==> (active.contains(x) && exists|j: int| 0 <= j < i + 1 && src[j] == x) by {
                        if names_of(kept@).contains(x) {
                            let k = choose|k: int| 0 <= k < names_of(kept@).len() && names_of(kept@)[k] == x;
                            if k < prev.len() {
                                assert(prev[k] == x);
                                assert(prev.contains(x));
                            }
                        }
                        if active.contains(x) && exists|j: int| 0 <= j < i + 1 && src[j] == x {
                            let j = choose|j: int| 0 <= j < i + 1 && src[j] == x;
                            if j < i {
                                assert(prev.contains(x));
                                let k = choose|k: int| 0 <= k < prev.len() && prev[k] == x;
                                assert(names_of(kept@)[k] == x);
                            } else {
                                assert(names_of(kept@)[prev.len() as int] == x);
                            }
                        }
                    }
                }
            } else {
                proof {
                    assert forall|x: Seq<char>| #[trigger] names_of(kept@).contains(x) <==> (active.contains(x) && exists|j: int| 0 <= j < i + 1 && src[j] == x) by {
                        if active.contains(x) && exists|j: int| 0 <= j < i + 1 && src[j] == x {
                            let j = choose|j: int| 0 <= j < i + 1 && src[j] == x;
                            assert(j < i);
                        }
                    }
                }
            }
            i += 1;
        }
        self.items = kept;
        proof {
            assert forall|x: Seq<char>| #[trigger] self@.contains(x) <==> old(self)@.intersect(active).contains(x) by {
                if active.contains(x) && src.contains(x) {
                    let j = choose|j: int| 0 <= j < src.len() && src[j] == x;
                    assert(exists|j: int| 0 <= j < src.len() && src[j] == x);
                }
            }
            assert(self@ =~= old(self)@.intersect(active));
        }
    }
}

/// Whether one of `batteries` is the device `name`.
fn has_device(batteries: &[BatteryInfo], name: &str) -> (r: bool)
    ensures
        r == devices_of(batteries@).contains(name@),
{
    let mut i: usize = 0;
    while i < batteries.len()
        invariant
            i <= batteries@.len(),
            forall|j: int| 0 <= j < i ==> batteries@[j].device@ != name@,
        decreases batteries@.len() - i,
    {
        if str_eq(batteries[i].device.as_str(), name) {
            assert(batteries@[i as int].device@ == name@);
            return true;
        }
        i += 1;
    }
    false
}


/// Which reminders have been raised for which battery and wait to be
/// re-armed.
pub struct Fired {
    unplug: DeviceSet,
    charge: DeviceSet,
    temp_high: DeviceSet,
    temp_low: DeviceSet,
}

/// The value of a `Fired`: one set of device names per reminder.
pub struct FiredModel {
    pub unplug: Set<Seq<char>>,
    pub charge: Set<Seq<char>>,
    pub temp_high: Set<Seq<char>>,
    pub temp_low: Set<Seq<char>>,
}

impl View for Fired {
    type V = FiredModel;

    closed spec fn view(&self) -> FiredModel {
        FiredModel {
            unplug: self.unplug@,
            charge: self.charge@,
            temp_high: self.temp_high@,
            temp_low: self.temp_low@,
        }
    }
}

/// No reminder raised.
pub open spec fn no_fired() -> FiredModel {
    FiredModel {
        unplug: Set::empty(),
        charge: Set::empty(),
        temp_high: Set::empty(),
        temp_low: Set::empty(),
    }
}

impl Fired {
    /// No reminder raised.
    pub fn new() -> (r: Self)
        ensures
            r@ == no_fired(),
    {
        Fired {
            unplug: DeviceSet::new(),
            charge: DeviceSet::new(),
            temp_high: DeviceSet::new(),
            temp_low: DeviceSet::new(),
        }
    }
}

impl Default for Fired {
    fn default() -> (r: Self)
        ensures
            r@ == no_fired(),
    {
        Fired::new()
    }
}

// ------------------------------------------------------------- decisions

/// The notifications of a list of `(title, body)` strings.
pub open spec fn notes_view(v: Seq<(String, String)>) -> Seq<(Seq<char>, Seq<char>)> {
    v.map_values(|p: (String, String)| (p.0@, p.1@))
}

/// The high temperature reminder for one reading `dc` (tenths of a degree):
/// raised once on reaching the threshold, re-armed below one degree under it.
pub open spec fn high_temp_step(
    s: SettingsModel,
    device: Seq<char>,
    dc: int,
    label: Seq<char>,
    fired: Set<Seq<char>>,
) -> (Seq<(Seq<char>, Seq<char>)>, Set<Seq<char>>) {
    let at = 10 * s.remind_temp_high_at;
    if s.remind_temp_high && dc >= at {
        if fired.contains(device) {
            (Seq::empty(), fired)
        } else {
            (seq![high_temp_note(s.language, label, dc)], fired.insert(device))
        }
    } else if dc < at - 10 {
        (Seq::empty(), fired.remove(device))
    } else {
        (Seq::empty(), fired)
    }
}

/// The low temperature reminder for one reading: raised once on reaching
/// the threshold, re-armed above one degree over it.
pub open spec fn low_temp_step(
    s: SettingsModel,
    device: Seq<char>,
    dc: int,
    label: Seq<char>,
    fired: Set<Seq<char>>,
) -> (Seq<(Seq<char>, Seq<char>)>, Set<Seq<char>>) {
    let at = 10 * s.remind_temp_low_at;
    if s.remind_temp_low && dc <= at {
        if fired.contains(device) {
            (Seq::empty(), fired)
        } else {
            (seq![low_temp_note(s.language, label, dc)], fired.insert(device))
        }
    } else if dc > at + 10 {
        (Seq::empty(), fired.remove(device))
    } else {
        (Seq::empty(), fired)
    }
}

/// Both temperature reminders for one battery; nothing without a reading.
pub open spec fn temperature_step(
    s: SettingsModel,
    device: Seq<char>,
    temperature: Option<i64>,
    label: Seq<char>,
    f: FiredModel,
) -> (Seq<(Seq<char>, Seq<char>)>, FiredModel) {
    match temperature {
        None => (Seq::empty(), f),
        Some(dc) => {
            let (a, h) = high_temp_step(s, device, dc as int, label, f.temp_high);
            let (b, l) = low_temp_step(s, device, dc as int, label, f.temp_low);
            (a + b, FiredModel { unplug: f.unplug, charge: f.charge, temp_high: h, temp_low: l })
        },
    }
}

/// Whether the status says the battery is plugged in.
pub open spec fn is_plugged(status: Option<Seq<char>>) -> bool {
    status == Some("Charging"@) || status == Some("Full"@)
}

/// Whether the status says the battery is discharging.
pub open spec fn is_discharging(status: Option<Seq<char>>) -> bool {
    status == Some("Discharging"@)
}

/// The high charge reminder: raised once while plugged in at or above the
/// threshold; re-armed when discharging or below the threshold.
pub open spec fn unplug_step(
    s: SettingsModel,
    device: Seq<char>,
    capacity: int,
    status: Option<Seq<char>>,
    label: Seq<char>,
    fired: Set<Seq<char>>,
) -> (Seq<(Seq<char>, Seq<char>)>, Set<Seq<char>>) {
    if s.remind_unplug && is_plugged(status) && capacity >= s.remind_unplug_at {
        if fired.contains(device) {
            (Seq::empty(), fired)
        } else {
            (seq![high_battery_note(s.language, label, capacity)], fired.insert(device))
        }
    } else if is_discharging(status) || capacity < s.remind_unplug_at {
        (Seq::empty(), fired.remove(device))
    } else {
        (Seq::empty(), fired)
    }
}

/// The low charge reminder: raised once while discharging at or below the
/// threshold; re-armed when plugged in or above the threshold.
pub open spec fn charge_step(
    s: SettingsModel,
    device: Seq<char>,
    capacity: int,
    status: Option<Seq<char>>,
    label: Seq<char>,
    fired: Set<Seq<char>>,
) -> (Seq<(Seq<char>, Seq<char>)>, Set<Seq<char>>) {
    if s.remind_charge && is_discharging(status) && capacity <= s.remind_charge_at {
        if fired.contains(device) {
            (Seq::empty(), fired)
        } else {
            (seq![low_battery_note(s.language, label, capacity)], fired.insert(device))
        }
    } else if is_plugged(status) || capacity > s.remind_charge_at {
        (Seq::empty(), fired.remove(device))
    } else {
        (Seq::empty(), fired)
    }
}

/// The name a battery is shown by: model, else manufacturer, else device.
pub open spec fn display_name(b: BatteryInfo) -> Seq<char> {
    match b.model {
        Some(m) => m@,
        None => match b.manufacturer {
            Some(m) => m@,
            None => b.device@,
        },
    }
}

/// The label of a battery among `count`: with several batteries, a name
/// other than the device is followed by the device.
pub open spec fn label_of(b: BatteryInfo, count: int) -> Seq<char> {
    let name = display_name(b);
    if count > 1 && name != b.device@ {
        name + " · "@ + b.device@
    } else {
        name
    }
}

/// All reminders for one battery among `count`.
pub open spec fn battery_step(s: SettingsModel, b: BatteryInfo, count: int, f: FiredModel) -> (
    Seq<(Seq<char>, Seq<char>)>,
    FiredModel,
) {
    let label = label_of(b, count);
    let d = b.device@;
    let (n1, f1) = match b.capacity {
        Some(c) => {
            let (a, u) = unplug_step(s, d, c as int, opt_view(b.status), label, f.unplug);
            let (x, ch) = charge_step(s, d, c as int, opt_view(b.status), label, f.charge);
            (a + x, FiredModel { unplug: u, charge: ch, temp_high: f.temp_high, temp_low: f.temp_low })
        },
        None => (
            Seq::empty(),
            FiredModel {
                unplug: f.unplug.remove(d),
                charge: f.charge.remove(d),
                temp_high: f.temp_high,
                temp_low: f.temp_low,
            },
        ),
    };
    let (n2, f2) = temperature_step(s, d, b.temperature_dc, label, f1);
    (n1 + n2, f2)
}

/// The reminders for each battery in turn.
pub open spec fn batteries_steps(
    s: SettingsModel,
    bs: Seq<BatteryInfo>,
    count: int,
    f: FiredModel,
) -> (Seq<(Seq<char>, Seq<char>)>, FiredModel)
    decreases bs.len(),
{
    if bs.len() == 0 {
        (Seq::empty(), f)
    } else {
        let (n, f1) = batteries_steps(s, bs.drop_last(), count, f);
        let (m, f2) = battery_step(s, bs.last(), count, f1);
        (n + m, f2)
    }
}

/// Whether any reminder is switched on.
pub open spec fn any_reminder(s: SettingsModel) -> bool {
    s.remind_charge || s.remind_unplug || s.remind_temp_high || s.remind_temp_low
}

/// One evaluation: the state of a switched-off reminder is dropped, the
/// state of batteries that are gone is dropped, then each battery is
/// examined.
pub open spec fn evaluate_spec(s: SettingsModel, bs: Seq<BatteryInfo>, f: FiredModel) -> (
    Seq<(Seq<char>, Seq<char>)>,
    FiredModel,
) {
    let unplug = if s.remind_unplug { f.unplug } else { Set::empty() };
    let charge = if s.remind_charge { f.charge } else { Set::empty() };
    let high = if s.remind_temp_high { f.temp_high } else { Set::empty() };
    let low = if s.remind_temp_low { f.temp_low } else { Set::empty() };
    if !any_reminder(s) {
        (Seq::empty(), FiredModel { unplug, charge, temp_high: high, temp_low: low })
    } else {
        let active = devices_of(bs);
        batteries_steps(
            s,
            bs,
            bs.len() as int,
            FiredModel {
                unplug: unplug.intersect(active),
                charge: charge.intersect(active),
                temp_high: high.intersect(active),
                temp_low: low.intersect(active),
            },
        )
    }
}

fn push_note(out: &mut Vec<(String, String)>, n: (String, String))
    ensures
        notes_view(final(out)@) == notes_view(old(out)@).push((n.0@, n.1@)),
{
    out.push(n);
    assert(notes_view(out@) =~= notes_view(old(out)@).push((n.0@, n.1@)));
}

fn high_temp_reminder(
    s: &Settings,
    device: &str,
    dc: i64,
    label: &str,
    fired: &mut DeviceSet,
    out: &mut Vec<(String, String)>,
)
    ensures
        ({
            let (n, f) = high_temp_step(s@, device@, dc as int, label@, old(fired)@);
            notes_view(final(out)@) == notes_view(old(out)@) + n && final(fired)@ == f
        }),
{
    let at: i128 = 10 * (s.remind_temp_high_at as i128);
    if s.remind_temp_high && (dc as i128) >= at {
        if fired.insert(device) {
            push_note(out, high_temp_text(s.language.as_str(), label, dc));
        }
    } else if (dc as i128) < at - 10 {
        fired.remove(device);
    }
    assert(notes_view(out@) =~= notes_view(old(out)@) + high_temp_step(s@, device@, dc as int, label@, old(fired)@).0);
}

fn low_temp_reminder(
    s: &Settings,
    device: &str,
    dc: i64,
    label: &str,
    fired: &mut DeviceSet,
    out: &mut Vec<(String, String)>,
)
    ensures
        ({
            let (n, f) = low_temp_step(s@, device@, dc as int, label@, old(fired)@);
            notes_view(final(out)@) == notes_view(old(out)@) + n && final(fired)@ == f
        }),
{
    let at: i128 = 10 * (s.remind_temp_low_at as i128);
    if s.remind_temp_low && (dc as i128) <= at {
        if fired.insert(device) {
            push_note(out, low_temp_text(s.language.as_str(), label, dc));
        }
    } else if (dc as i128) > at + 10 {
        fired.remove(device);
    }
    assert(notes_view(out@) =~= notes_view(old(out)@) + low_temp_step(s@, device@, dc as int, label@, old(fired)@).0);
}

/// The temperature reminders for one battery reading `temperature` (tenths
/// of a degree), independent of its charge and status.
pub fn temperature_notifications(
    s: &Settings,
    device: &str,
    temperature: Option<i64>,
    label: &str,
    fired: &mut Fired,
) -> (r: Vec<(String, String)>)
    ensures
        (notes_view(r@), final(fired)@) == temperature_step(s@, device@, temperature, label@, old(fired)@),
{
    let mut out: Vec<(String, String)> = Vec::new();
    if let Some(dc) = temperature {
        high_temp_reminder(s, device, dc, label, &mut fired.temp_high, &mut out);
        low_temp_reminder(s, device, dc, label, &mut fired.temp_low, &mut out);
    }
    assert(notes_view(out@) =~= temperature_step(s@, device@, temperature, label@, old(fired)@).0);
    out
}


fn unplug_reminder(
    s: &Settings,
    device: &str,
    capacity: i64,
    status: &Option<String>,
    label: &str,
    fired: &mut DeviceSet,
    out: &mut Vec<(String, String)>,
)
    ensures
        ({
            let (n, f) = unplug_step(s@, device@, capacity as int, opt_view(*status), label@, old(fired)@);
            notes_view(final(out)@) == notes_view(old(out)@) + n && final(fired)@ == f
        }),
{
    let plugged = opt_is(status, "Charging") || opt_is(status, "Full");
    let discharging = opt_is(status, "Discharging");
    if s.remind_unplug && plugged && capacity >= s.remind_unplug_at {
        if fired.insert(device) {
            push_note(out, high_battery_text(s.language.as_str(), label, capacity));
        }
    } else if discharging || capacity < s.remind_unplug_at {
        fired.remove(device);
    }
    assert(notes_view(out@) =~= notes_view(old(out)@) + unplug_step(s@, device@, capacity as int, opt_view(*status), label@, old(fired)@).0);
}

fn charge_reminder(
    s: &Settings,
    device: &str,
    capacity: i64,
    status: &Option<String>,
    label: &str,
    fired: &mut DeviceSet,
    out: &mut Vec<(String, String)>,
)
    ensures
        ({
            let (n, f) = charge_step(s@, device@, capacity as int, opt_view(*status), label@, old(fired)@);
            notes_view(final(out)@) == notes_view(old(out)@) + n && final(fired)@ == f
        }),
{
    let plugged = opt_is(status, "Charging") || opt_is(status, "Full");
    let discharging = opt_is(status, "Discharging");
    if s.remind_charge && discharging && capacity <= s.remind_charge_at {
        if fired.insert(device) {
            push_note(out, low_battery_text(s.language.as_str(), label, capacity));
        }
    } else if plugged || capacity > s.remind_charge_at {
        fired.remove(device);
    }
    assert(notes_view(out@) =~= notes_view(old(out)@) + charge_step(s@, device@, capacity as int, opt_view(*status), label@, old(fired)@).0);
}

/// The label a battery is shown with among `count` batteries.
pub fn battery_label(b: &BatteryInfo, count: usize) -> (r: String)
    ensures
        r@ == label_of(*b, count as int),
{
    let name: &str = match &b.model {
        Some(m) => m.as_str(),
        None => match &b.manufacturer {
            Some(m) => m.as_str(),
            None => b.device.as_str(),
        },
    };
    let mut v = chars_of(name);
    if count > 1 && !str_eq(name, b.device.as_str()) {
        extend_str(&mut v, " · ");
        extend_str(&mut v, b.device.as_str());
    }
    string_of(v.as_slice())
}

fn battery_reminders(
    s: &Settings,
    b: &BatteryInfo,
    count: usize,
    fired: &mut Fired,
    out: &mut Vec<(String, String)>,
)
    ensures
        ({
            let (n, f) = battery_step(s@, *b, count as int, old(fired)@);
            notes_view(final(out)@) == notes_view(old(out)@) + n && final(fired)@ == f
        }),
{
    let label = battery_label(b, count);
    let ghost n0 = notes_view(out@);
    match b.capacity {
        Some(c) => {
            unplug_reminder(s, b.device.as_str(), c, &b.status, label.as_str(), &mut fired.unplug, out);
            charge_reminder(s, b.device.as_str(), c, &b.status, label.as_str(), &mut fired.charge, out);
        },
        None => {
            fired.unplug.remove(b.device.as_str());
            fired.charge.remove(b.device.as_str());
        },
    }
    let ghost n1 = notes_view(out@);
    let temps = temperature_notifications(s, b.device.as_str(), b.temperature_dc, label.as_str(), fired);
    let mut i: usize = 0;
    while i < temps.len()
        invariant
            i <= temps@.len(),
            notes_view(out@) == n1 + notes_view(temps@).take(i as int),
        decreases temps@.len() - i,
    {
        let n = (temps[i].0.clone(), temps[i].1.clone());
        push_note(out, n);
        i += 1;
        assert(notes_view(out@) =~= n1 + notes_view(temps@).take(i as int));
    }
    proof {
        assert(notes_view(temps@).take(temps@.len() as int) =~= notes_view(temps@));
        let (n, f) = battery_step(s@, *b, count as int, old(fired)@);
        assert(n1 =~= n0 + (match b.capacity {
            Some(c) => unplug_step(s@, b.device@, c as int, opt_view(b.status), label@, old(fired)@.unplug).0
                + charge_step(s@, b.device@, c as int, opt_view(b.status), label@, old(fired)@.charge).0,
            None => Seq::empty(),
        }));
        assert(notes_view(out@) =~= notes_view(old(out)@) + n);
    }
}

/// Decides the notifications of one sample of `batteries`, and updates
/// which reminders wait to be re-armed. The notifications come in the
/// order in which they should be shown.
pub fn evaluate(s: &Settings, batteries: &[BatteryInfo], fired: &mut Fired) -> (r: Vec<(String, String)>)
    ensures
        (notes_view(r@), final(fired)@) == evaluate_spec(s@, batteries@, old(fired)@),
{
    if !s.remind_charge {
        fired.charge.clear();
    }
    if !s.remind_unplug {
        fired.unplug.clear();
    }
    if !s.remind_temp_high {
        fired.temp_high.clear();
    }
    if !s.remind_temp_low {
        fired.temp_low.clear();
    }
    let mut out: Vec<(String, String)> = Vec::new();
    if !s.remind_charge && !s.remind_unplug && !s.remind_temp_high && !s.remind_temp_low {
        assert(notes_view(out@) =~= Seq::empty());
        return out;
    }
    fired.unplug.retain_devices(batteries);
    fired.charge.retain_devices(batteries);
    fired.temp_high.retain_devices(batteries);
    fired.temp_low.retain_devices(batteries);
    let ghost start = fired@;
    assert(notes_view(out@) =~= Seq::empty());
    let mut i: usize = 0;
    while i < batteries.len()
        invariant
            i <= batteries@.len(),
            (notes_view(out@), fired@) == batteries_steps(s@, batteries@.take(i as int), batteries@.len() as int, start),
        decreases batteries@.len() - i,
    {
        battery_reminders(s, &batteries[i], batteries.len(), fired, &mut out);
        proof {
            let t = batteries@.take(i as int + 1);
            assert(t.drop_last() =~= batteries@.take(i as int));
            assert(t.last() == batteries@[i as int]);
        }
        i += 1;
    }
    assert(batteries@.take(batteries@.len() as int) =~= batteries@);
    out
}


// ------------------------------------------------------------------- laws

/// Once raised, the high temperature reminder is not raised again while the
/// readings stay no more than one degree under the threshold.
pub proof fn lemma_high_temp_no_repeat(
    s: SettingsModel,
    device: Seq<char>,
    dc1: int,
    dc2: int,
    label: Seq<char>,
    fired: Set<Seq<char>>,
)
    requires
        s.remind_temp_high,
        dc1 >= 10 * s.remind_temp_high_at,
        dc2 >= 10 * s.remind_temp_high_at - 10,
    ensures
        high_temp_step(s, device, dc1, label, fired).1.contains(device),
        high_temp_step(s, device, dc2, label, high_temp_step(s, device, dc1, label, fired).1).0.len() == 0,
        high_temp_step(s, device, dc2, label, high_temp_step(s, device, dc1, label, fired).1).1.contains(device),
{
}

/// A reading more than one degree under the high threshold re-arms the high
/// temperature reminder: the next reading at the threshold raises it.
pub proof fn lemma_high_temp_rearms(
    s: SettingsModel,
    device: Seq<char>,
    dc1: int,
    dc2: int,
    label: Seq<char>,
    fired: Set<Seq<char>>,
)
    requires
        s.remind_temp_high,
        dc1 < 10 * s.remind_temp_high_at - 10,
        dc2 >= 10 * s.remind_temp_high_at,
    ensures
        high_temp_step(s, device, dc2, label, high_temp_step(s, device, dc1, label, fired).1).0
            == seq![high_temp_note(s.language, label, dc2)],
{
}

/// Once raised, the low temperature reminder is not raised again while the
/// readings stay no more than one degree over the threshold.
pub proof fn lemma_low_temp_no_repeat(
    s: SettingsModel,
    device: Seq<char>,
    dc1: int,
    dc2: int,
    label: Seq<char>,
    fired: Set<Seq<char>>,
)
    requires
        s.remind_temp_low,
        dc1 <= 10 * s.remind_temp_low_at,
        dc2 <= 10 * s.remind_temp_low_at + 10,
    ensures
        low_temp_step(s, device, dc1, label, fired).1.contains(device),
        low_temp_step(s, device, dc2, label, low_temp_step(s, device, dc1, label, fired).1).0.len() == 0,
        low_temp_step(s, device, dc2, label, low_temp_step(s, device, dc1, label, fired).1).1.contains(device),
{
}

/// A reading more than one degree over the low threshold re-arms the low
/// temperature reminder: the next reading at the threshold raises it.
pub proof fn lemma_low_temp_rearms(
    s: SettingsModel,
    device: Seq<char>,
    dc1: int,
    dc2: int,
    label: Seq<char>,
    fired: Set<Seq<char>>,
)
    requires
        s.remind_temp_low,
        dc1 > 10 * s.remind_temp_low_at + 10,
        dc2 <= 10 * s.remind_temp_low_at,
    ensures
        low_temp_step(s, device, dc2, label, low_temp_step(s, device, dc1, label, fired).1).0
            == seq![low_temp_note(s.language, label, dc2)],
{
}

/// Once raised, the high charge reminder is not raised again until the
/// battery discharges or falls under the threshold.
pub proof fn lemma_unplug_no_repeat(
    s: SettingsModel,
    device: Seq<char>,
    c1: int,
    st1: Option<Seq<char>>,
    c2: int,
    st2: Option<Seq<char>>,
    label: Seq<char>,
    fired: Set<Seq<char>>,
)
    requires
        s.remind_unplug,
        is_plugged(st1),
        c1 >= s.remind_unplug_at,
        !is_discharging(st2),
        c2 >= s.remind_unplug_at,
    ensures
        unplug_step(s, device, c1, st1, label, fired).1.contains(device),
        unplug_step(s, device, c2, st2, label, unplug_step(s, device, c1, st1, label, fired).1).0.len()
            == 0,
{
}

/// Once raised, the low charge reminder is not raised again until the
/// battery is plugged in or rises above the threshold.
pub proof fn lemma_charge_no_repeat(
    s: SettingsModel,
    device: Seq<char>,
    c1: int,
    st1: Option<Seq<char>>,
    c2: int,
    st2: Option<Seq<char>>,
    label: Seq<char>,
    fired: Set<Seq<char>>,
)
    requires
        s.remind_charge,
        is_discharging(st1),
        c1 <= s.remind_charge_at,
        !is_plugged(st2),
        c2 <= s.remind_charge_at,
    ensures
        charge_step(s, device, c1, st1, label, fired).1.contains(device),
        charge_step(s, device, c2, st2, label, charge_step(s, device, c1, st1, label, fired).1).0.len()
            == 0,
{
}

/// The four reminders are independent: after examining a battery, the
/// state of each reminder depends only on that reminder's state before.
pub proof fn lemma_reminders_independent(
    s: SettingsModel,
    b: BatteryInfo,
    count: int,
    f: FiredModel,
    g: FiredModel,
)
    ensures
        f.unplug == g.unplug ==> battery_step(s, b, count, f).1.unplug == battery_step(s, b, count, g).1.unplug,
        f.charge == g.charge ==> battery_step(s, b, count, f).1.charge == battery_step(s, b, count, g).1.charge,
        f.temp_high == g.temp_high ==> battery_step(s, b, count, f).1.temp_high == battery_step(
            s,
            b,
            count,
            g,
        ).1.temp_high,
        f.temp_low == g.temp_low ==> battery_step(s, b, count, f).1.temp_low == battery_step(
            s,
            b,
            count,
            g,
        ).1.temp_low,
{
}

/// Whether every reminder state names only devices of `active`.
pub open spec fn fired_within(f: FiredModel, active: Set<Seq<char>>) -> bool {
    &&& f.unplug.subset_of(active)
    &&& f.charge.subset_of(active)
    &&& f.temp_high.subset_of(active)
    &&& f.temp_low.subset_of(active)
}

/// Whether a switched-off reminder holds no state.
pub open spec fn off_is_empty(s: SettingsModel, f: FiredModel) -> bool {
    &&& !s.remind_unplug ==> f.unplug.is_empty()
    &&& !s.remind_charge ==> f.charge.is_empty()
    &&& !s.remind_temp_high ==> f.temp_high.is_empty()
    &&& !s.remind_temp_low ==> f.temp_low.is_empty()
}

proof fn lemma_steps_keep(s: SettingsModel, bs: Seq<BatteryInfo>, count: int, f: FiredModel, active: Set<Seq<char>>)
    requires
        fired_within(f, active),
        off_is_empty(s, f),
        forall|i: int| 0 <= i < bs.len() ==> active.contains(#[trigger] bs[i].device@),
    ensures
        fired_within(batteries_steps(s, bs, count, f).1, active),
        off_is_empty(s, batteries_steps(s, bs, count, f).1),
    decreases bs.len(),
{
    if bs.len() > 0 {
        let p = bs.drop_last();
        assert forall|i: int| 0 <= i < p.len() implies active.contains(#[trigger] p[i].device@) by {
            assert(p[i] == bs[i]);
        }
        lemma_steps_keep(s, p, count, f, active);
        assert(active.contains(bs[bs.len() - 1].device@));
        let f1 = batteries_steps(s, p, count, f).1;
        let r = battery_step(s, bs.last(), count, f1).1;
        assert(r.unplug.subset_of(active));
        assert(r.charge.subset_of(active));
        assert(r.temp_high.subset_of(active));
        assert(r.temp_low.subset_of(active));
    }
}

/// After an evaluation, a reminder that is switched off holds no state, and
/// with any reminder switched on, state is kept only for the batteries of
/// that sample.
pub proof fn lemma_evaluate_state(s: SettingsModel, bs: Seq<BatteryInfo>, f: FiredModel)
    ensures
        off_is_empty(s, evaluate_spec(s, bs, f).1),
        any_reminder(s) ==> fired_within(evaluate_spec(s, bs, f).1, devices_of(bs)),
        !any_reminder(s) ==> evaluate_spec(s, bs, f).0.len() == 0,
{
    if any_reminder(s) {
        let active = devices_of(bs);
        assert forall|i: int| 0 <= i < bs.len() implies active.contains(#[trigger] bs[i].device@) by {
        }
        let unplug = if s.remind_unplug { f.unplug } else { Set::empty() };
        let charge = if s.remind_charge { f.charge } else { Set::empty() };
        let high = if s.remind_temp_high { f.temp_high } else { Set::empty() };
        let low = if s.remind_temp_low { f.temp_low } else { Set::empty() };
        let f0 = FiredModel {
            unplug: unplug.intersect(active),
            charge: charge.intersect(active),
            temp_high: high.intersect(active),
            temp_low: low.intersect(active),
        };
        assert(!s.remind_unplug ==> f0.unplug =~= Set::empty());
        assert(!s.remind_charge ==> f0.charge =~= Set::empty());
        assert(!s.remind_temp_high ==> f0.temp_high =~= Set::empty());
        assert(!s.remind_temp_low ==> f0.temp_low =~= Set::empty());
        lemma_steps_keep(s, bs, bs.len() as int, f0, active);
    }
}


/// Whether two reminder states agree on whether device `d` is held, for
/// each reminder.
pub open spec fn same_for(f: FiredModel, g: FiredModel, d: Seq<char>) -> bool {
    &&& f.unplug.contains(d) == g.unplug.contains(d)
    &&& f.charge.contains(d) == g.charge.contains(d)
    &&& f.temp_high.contains(d) == g.temp_high.contains(d)
    &&& f.temp_low.contains(d) == g.temp_low.contains(d)
}

/// Whether no two batteries share a device name.
pub open spec fn distinct_devices(bs: Seq<BatteryInfo>) -> bool {
    forall|i: int, j: int| 0 <= i < j < bs.len() ==> bs[i].device@ != bs[j].device@
}

/// Examining a battery changes the state of its own device only.
proof fn lemma_step_local(s: SettingsModel, b: BatteryInfo, count: int, f: FiredModel, x: Seq<char>)
    requires
        x != b.device@,
    ensures
        same_for(battery_step(s, b, count, f).1, f, x),
{
}

/// A battery examined a second time from the state its first examination
/// left for its device shows nothing and changes nothing.
proof fn lemma_step_settled(s: SettingsModel, b: BatteryInfo, count: int, f: FiredModel, g: FiredModel)
    requires
        same_for(g, battery_step(s, b, count, f).1, b.device@),
    ensures
        battery_step(s, b, count, g) == (Seq::<(Seq<char>, Seq<char>)>::empty(), g),
{
    let d = b.device@;
    let r = battery_step(s, b, count, g);
    assert(r.1.unplug =~= g.unplug);
    assert(r.1.charge =~= g.charge);
    assert(r.1.temp_high =~= g.temp_high);
    assert(r.1.temp_low =~= g.temp_low);
    assert(r.0 =~= Seq::<(Seq<char>, Seq<char>)>::empty());
}

/// Examining batteries of distinct devices from a state that agrees, for
/// each of them, with the state a run from `f` ends in shows nothing and
/// changes nothing.
proof fn lemma_steps_settled(s: SettingsModel, bs: Seq<BatteryInfo>, count: int, f: FiredModel, g: FiredModel)
    requires
        distinct_devices(bs),
        forall|i: int| 0 <= i < bs.len() ==> same_for(g, batteries_steps(s, bs, count, f).1, #[trigger] bs[i].device@),
    ensures
        batteries_steps(s, bs, count, g) == (Seq::<(Seq<char>, Seq<char>)>::empty(), g),
    decreases bs.len(),
{
    if bs.len() > 0 {
        let p = bs.drop_last();
        let last = bs.last();
        let h1 = batteries_steps(s, p, count, f).1;
        assert forall|i: int| 0 <= i < p.len() implies same_for(g, batteries_steps(s, p, count, f).1, #[trigger] p[i].device@) by {
            assert(p[i] == bs[i]);
            assert(bs[i].device@ != bs[bs.len() - 1].device@);
            lemma_step_local(s, last, count, h1, p[i].device@);
            assert(same_for(g, batteries_steps(s, bs, count, f).1, bs[i].device@));
        }
        assert(distinct_devices(p)) by {
            assert forall|i: int, j: int| 0 <= i < j < p.len() implies p[i].device@ != p[j].device@ by {
                assert(p[i] == bs[i]);
                assert(p[j] == bs[j]);
            }
        }
        lemma_steps_settled(s, p, count, f, g);
        assert(same_for(g, battery_step(s, last, count, h1).1, last.device@)) by {
            assert(bs[bs.len() - 1] == last);
        }
        lemma_step_settled(s, last, count, h1, g);
        assert(Seq::<(Seq<char>, Seq<char>)>::empty() + Seq::<(Seq<char>, Seq<char>)>::empty()
            =~= Seq::<(Seq<char>, Seq<char>)>::empty());
    }
}

/// Evaluating the same batteries again with the same settings shows
/// nothing and leaves the reminder state as it is: each reminder is raised
/// once on entering its zone and re-armed only on leaving it. (Batteries
/// are told apart by their device names.)
pub proof fn lemma_evaluate_settles(s: SettingsModel, bs: Seq<BatteryInfo>, f: FiredModel)
    requires
        distinct_devices(bs),
    ensures
        evaluate_spec(s, bs, evaluate_spec(s, bs, f).1) == (
            Seq::<(Seq<char>, Seq<char>)>::empty(),
            evaluate_spec(s, bs, f).1,
        ),
{
    let f1 = evaluate_spec(s, bs, f).1;
    lemma_evaluate_state(s, bs, f);
    let unplug = if s.remind_unplug { f1.unplug } else { Set::empty() };
    let charge = if s.remind_charge { f1.charge } else { Set::empty() };
    let high = if s.remind_temp_high { f1.temp_high } else { Set::empty() };
    let low = if s.remind_temp_low { f1.temp_low } else { Set::empty() };
    assert(unplug =~= f1.unplug);
    assert(charge =~= f1.charge);
    assert(high =~= f1.temp_high);
    assert(low =~= f1.temp_low);
    if any_reminder(s) {
        let active = devices_of(bs);
        assert(unplug.intersect(active) =~= f1.unplug);
        assert(charge.intersect(active) =~= f1.charge);
        assert(high.intersect(active) =~= f1.temp_high);
        assert(low.intersect(active) =~= f1.temp_low);
        let f0 = FiredModel {
            unplug: (if s.remind_unplug { f.unplug } else { Set::empty() }).intersect(active),
            charge: (if s.remind_charge { f.charge } else { Set::empty() }).intersect(active),
            temp_high: (if s.remind_temp_high { f.temp_high } else { Set::empty() }).intersect(active),
            temp_low: (if s.remind_temp_low { f.temp_low } else { Set::empty() }).intersect(active),
        };
        assert(f1 == batteries_steps(s, bs, bs.len() as int, f0).1);
        lemma_steps_settled(s, bs, bs.len() as int, f0, f1);
    }
}


/// A battery that is plugged in (charging or full) at or above the
/// high-charge threshold, not yet reminded, raises the unplug reminder:
/// its notes start with exactly that reminder, for its charge, and it is
/// then counted as reminded.
pub proof fn lemma_unplug_reminder_fires(s: SettingsModel, b: BatteryInfo, count: int, f: FiredModel, c: i64)
    requires
        s.remind_unplug,
        b.capacity == Some(c),
        opt_view(b.status) == Some("Charging"@) || opt_view(b.status) == Some("Full"@),
        c >= s.remind_unplug_at,
        !f.unplug.contains(b.device@),
    ensures
        battery_step(s, b, count, f).0.len() >= 1,
        battery_step(s, b, count, f).0[0] == high_battery_note(s.language, label_of(b, count), c as int),
        battery_step(s, b, count, f).1.unplug.contains(b.device@),
{
    let label = label_of(b, count);
    let d = b.device@;
    let (a, u) = unplug_step(s, d, c as int, opt_view(b.status), label, f.unplug);
    assert(a == seq![high_battery_note(s.language, label, c as int)]);
    let (x, ch) = charge_step(s, d, c as int, opt_view(b.status), label, f.charge);
    let f1 = FiredModel { unplug: u, charge: ch, temp_high: f.temp_high, temp_low: f.temp_low };
    let (n2, f2) = temperature_step(s, d, b.temperature_dc, label, f1);
    assert((a + x + n2)[0] == a[0]);
}

/// A battery that discharges at or below the low-charge threshold, not yet
/// reminded, raises the low-charge reminder: its notes start with exactly
/// that reminder, for its charge, and it is then counted as reminded.
pub proof fn lemma_charge_reminder_fires(s: SettingsModel, b: BatteryInfo, count: int, f: FiredModel, c: i64)
    requires
        s.remind_charge,
        b.capacity == Some(c),
        opt_view(b.status) == Some("Discharging"@),
        c <= s.remind_charge_at,
        !f.charge.contains(b.device@),
    ensures
        battery_step(s, b, count, f).0.len() >= 1,
        battery_step(s, b, count, f).0[0] == low_battery_note(s.language, label_of(b, count), c as int),
        battery_step(s, b, count, f).1.charge.contains(b.device@),
{
    reveal_strlit("Charging");
    reveal_strlit("Discharging");
    reveal_strlit("Full");
    assert("Charging"@ != "Discharging"@) by {
        assert("Charging"@.len() != "Discharging"@.len());
    }
    assert("Full"@ != "Discharging"@) by {
        assert("Full"@.len() != "Discharging"@.len());
    }
    let label = label_of(b, count);
    let d = b.device@;
    let (a, u) = unplug_step(s, d, c as int, opt_view(b.status), label, f.unplug);
    assert(a.len() == 0);
    let (x, ch) = charge_step(s, d, c as int, opt_view(b.status), label, f.charge);
    assert(x == seq![low_battery_note(s.language, label, c as int)]);
    let f1 = FiredModel { unplug: u, charge: ch, temp_high: f.temp_high, temp_low: f.temp_low };
    let (n2, f2) = temperature_step(s, d, b.temperature_dc, label, f1);
    assert(a + x =~= x);
    assert((a + x + n2)[0] == x[0]);
}

/// At or above the high temperature threshold, a battery not yet reminded
/// raises exactly the high temperature reminder for its reading.
pub proof fn lemma_high_temp_fires(s: SettingsModel, device: Seq<char>, dc: int, label: Seq<char>, fired: Set<Seq<char>>)
    requires
        s.remind_temp_high,
        dc >= 10 * s.remind_temp_high_at,
        !fired.contains(device),
    ensures
        high_temp_step(s, device, dc, label, fired) == (seq![high_temp_note(s.language, label, dc)], fired.insert(device)),
{
}

/// At or below the low temperature threshold, a battery not yet reminded
/// raises exactly the low temperature reminder for its reading.
pub proof fn lemma_low_temp_fires(s: SettingsModel, device: Seq<char>, dc: int, label: Seq<char>, fired: Set<Seq<char>>)
    requires
        s.remind_temp_low,
        dc <= 10 * s.remind_temp_low_at,
        !fired.contains(device),
    ensures
        low_temp_step(s, device, dc, label, fired) == (seq![low_temp_note(s.language, label, dc)], fired.insert(device)),
{
}

/// A single battery, plugged in at or above the high-charge threshold and
/// not yet reminded, gets the unplug reminder first from an evaluation.
pub proof fn lemma_evaluate_unplug_reminder(s: SettingsModel, b: BatteryInfo, f: FiredModel, c: i64)
    requires
        s.remind_unplug,
        b.capacity == Some(c),
        opt_view(b.status) == Some("Charging"@) || opt_view(b.status) == Some("Full"@),
        c >= s.remind_unplug_at,
        !f.unplug.contains(b.device@),
    ensures
        evaluate_spec(s, seq![b], f).0.len() >= 1,
        evaluate_spec(s, seq![b], f).0[0] == high_battery_note(s.language, label_of(b, 1), c as int),
{
    let bs = seq![b];
    let active = devices_of(bs);
    let f0 = FiredModel {
        unplug: f.unplug.intersect(active),
        charge: (if s.remind_charge { f.charge } else { Set::empty() }).intersect(active),
        temp_high: (if s.remind_temp_high { f.temp_high } else { Set::empty() }).intersect(active),
        temp_low: (if s.remind_temp_low { f.temp_low } else { Set::empty() }).intersect(active),
    };
    lemma_unplug_reminder_fires(s, b, 1, f0, c);
    assert(bs.drop_last() =~= Seq::<BatteryInfo>::empty());
    assert(bs.last() == b);
    assert(batteries_steps(s, bs.drop_last(), 1, f0) == (Seq::<(Seq<char>, Seq<char>)>::empty(), f0));
    let m = battery_step(s, b, 1, f0).0;
    assert(Seq::<(Seq<char>, Seq<char>)>::empty() + m =~= m);
    assert(batteries_steps(s, bs, 1, f0).0 == m);
    assert(any_reminder(s));
    assert(evaluate_spec(s, bs, f) == batteries_steps(s, bs, bs.len() as int, f0));
}

} // verus!
