//! Charging sessions: the running totals of a session in progress, and the
//! record a finished session leaves.
//!
//! Energies and charges are integrated by the trapezoid rule over the
//! samples of a session and kept exactly, as twice the trapezoid sum: µW·ms
//! for energy (7.2e12 per Wh) and µA·ms for charge (7.2e9 per mAh).
//! Temperatures are in tenths of a degree.

use vstd::prelude::*;
use crate::battery::{opt_is, opt_view, BatteryInfo};
use crate::names::{listing, NameSet};
use crate::power::PowerSource;
use crate::reminder::display_name;
use crate::num::sat_i64;
use crate::sysfs::views;
use crate::text::{chars_of, extend_chars, extend_str, nat_decimal, string_of, trim, trim_chars, u64_decimal};

verus! {

/// At most this long a gap between two samples counts toward a session (ms).
pub const MAX_SAMPLE_GAP_MS: u64 = 120_000;
/// A session shorter than this is not recorded (ms).
pub const MIN_SESSION_MS: u64 = 30_000;

// ------------------------------------------------------------ arithmetic

/// `x` limited to `u32::MAX`.
pub open spec fn sat_u32(x: int) -> u32 {
    if x > u32::MAX {
        u32::MAX
    } else {
        x as u32
    }
}

/// `x` limited to `u64::MAX`.
pub open spec fn sat_u64(x: int) -> u64 {
    if x > u64::MAX {
        u64::MAX
    } else {
        x as u64
    }
}

/// `x` limited to `u128::MAX`.
pub open spec fn sat_u128(x: int) -> u128 {
    if x > u128::MAX {
        u128::MAX
    } else {
        x as u128
    }
}

/// `x` limited to the range of `i128`.
pub open spec fn sat_i128(x: int) -> i128 {
    if x > i128::MAX {
        i128::MAX
    } else if x < i128::MIN {
        i128::MIN
    } else {
        x as i128
    }
}

/// `a - b`, or zero when `b` is larger.
pub open spec fn sub_or_zero(a: u64, b: u64) -> u64 {
    if a >= b {
        (a - b) as u64
    } else {
        0
    }
}

/// The magnitude of `x`.
pub open spec fn magnitude(x: i64) -> u64 {
    if x < 0 {
        (-x) as u64
    } else {
        x as u64
    }
}

/// `a` when present, else `b`.
pub open spec fn or_else<T>(a: Option<T>, b: Option<T>) -> Option<T> {
    if a is Some {
        a
    } else {
        b
    }
}

/// The larger of `x` and the optional running maximum `m`.
pub open spec fn max_with_u128(m: Option<u128>, x: u128) -> u128 {
    match m {
        Some(v) => if v > x {
            v
        } else {
            x
        },
        None => x,
    }
}

/// The larger of `x` and the optional running maximum `m`.
pub open spec fn max_with_i64(m: Option<i64>, x: i64) -> i64 {
    match m {
        Some(v) => if v > x {
            v
        } else {
            x
        },
        None => x,
    }
}

fn inc_u32(x: u32) -> (r: u32)
    ensures
        r == sat_u32(x + 1),
{
    if x < u32::MAX {
        x + 1
    } else {
        x
    }
}

fn add_u64(a: u64, b: u64) -> (r: u64)
    ensures
        r == sat_u64(a + b),
{
    a.saturating_add(b)
}

fn magnitude_of(x: i64) -> (r: u64)
    ensures
        r == magnitude(x),
{
    if x < 0 {
        (0i128 - (x as i128)) as u64
    } else {
        x as u64
    }
}

/// One trapezoid step added to `acc`: `acc + (prev + cur) * dt`, saturated.
fn trapezoid(acc: u128, prev: u128, cur: u128, dt: u64) -> (r: u128)
    requires
        dt > 0,
    ensures
        r == sat_u128(acc + (prev + cur) * dt),
{
    match prev.checked_add(cur) {
        None => {
            assert((prev + cur) * dt >= prev + cur) by (nonlinear_arith)
                requires
                    dt >= 1,
                    prev + cur >= 0,
            ;
            u128::MAX
        },
        Some(s) => match s.checked_mul(dt as u128) {
            None => u128::MAX,
            Some(m) => acc.saturating_add(m),
        },
    }
}

fn add_i128_sat(a: i128, b: i64) -> (r: i128)
    ensures
        r == sat_i128(a + b),
{
    match a.checked_add(b as i128) {
        Some(v) => v,
        None => if b > 0 {
            i128::MAX
        } else {
            i128::MIN
        },
    }
}

// ---------------------------------------------------------------- sources

/// The number and the sum of the power readings (µW, in magnitude) of the
/// online sources.
pub open spec fn input_sum(sources: Seq<PowerSource>) -> (nat, int)
    decreases sources.len(),
{
    if sources.len() == 0 {
        (0, 0)
    } else {
        let (n, s) = input_sum(sources.drop_last());
        let x = sources.last();
        if x.online == Some(true) && x.power_now_uw is Some {
            (n + 1, s + magnitude(x.power_now_uw.unwrap()))
        } else {
            (n, s)
        }
    }
}

/// The total input power (µW) of the online sources that report one.
pub open spec fn input_power(sources: Seq<PowerSource>) -> Option<u128> {
    if input_sum(sources).0 == 0 {
        None
    } else {
        Some(input_sum(sources).1 as u128)
    }
}

/// The total input power of the online sources that report one, in µW.
pub fn total_input_power(sources: &[PowerSource]) -> (r: Option<u128>)
    ensures
        r == input_power(sources@),
{
    let mut n: usize = 0;
    let mut sum: u128 = 0;
    let mut i: usize = 0;
    while i < sources.len()
        invariant
            i <= sources@.len(),
            n <= i,
            n == input_sum(sources@.take(i as int)).0,
            sum == input_sum(sources@.take(i as int)).1,
            sum <= i * 0x8000_0000_0000_0000,
        decreases sources@.len() - i,
    {
        assert(sources@.take(i + 1).drop_last() =~= sources@.take(i as int));
        let online = match sources[i].online {
            Some(v) => v,
            None => false,
        };
        if online {
            if let Some(p) = sources[i].power_now_uw {
                let m = magnitude_of(p);
                sum = sum + (m as u128);
                n = n + 1;
            }
        }
        i += 1;
    }
    assert(sources@.take(i as int) =~= sources@);
    if n == 0 {
        None
    } else {
        Some(sum)
    }
}

/// The names of the online sources.
pub open spec fn online_names(sources: Seq<PowerSource>) -> Set<Seq<char>> {
    Set::new(
        |x: Seq<char>|
            exists|i: int| 0 <= i < sources.len() && #[trigger] sources[i].online == Some(true) && sources[i].name@ == x,
    )
}

/// The kinds of the online sources.
pub open spec fn online_kinds(sources: Seq<PowerSource>) -> Set<Seq<char>> {
    Set::new(
        |x: Seq<char>|
            exists|i: int| 0 <= i < sources.len() && #[trigger] sources[i].online == Some(true) && sources[i].kind@ == x,
    )
}

/// The USB charging protocols of the online sources that report one.
pub open spec fn online_usb_types(sources: Seq<PowerSource>) -> Set<Seq<char>> {
    Set::new(
        |x: Seq<char>|
            exists|i: int|
                0 <= i < sources.len() && #[trigger] sources[i].online == Some(true) && opt_view(sources[i].usb_type)
                    == Some(x),
    )
}


// ------------------------------------------------------- session in progress

/// A charging session in progress.
pub struct ActiveSession {
    pub id: String,
    pub battery_id: String,
    pub battery_device: String,
    pub battery_name: String,
    pub start_ms: u64,
    /// The last sample.
    pub last_ms: u64,
    /// The last sample that found the battery charging or powered.
    pub last_active_ms: u64,
    pub start_capacity: Option<i64>,
    pub end_capacity: Option<i64>,
    /// Health at the last sample, in hundredths of a percent.
    pub end_health: Option<i64>,
    pub end_cycle_count: Option<i64>,
    pub sample_count: u32,
    pub powered_sample_count: u32,
    pub charging_ms: u64,
    /// Twice the battery energy, µW·ms.
    pub battery_energy: u128,
    /// Twice the input energy, µW·ms.
    pub input_energy: u128,
    /// Twice the charge, µA·ms.
    pub charged: u128,
    pub battery_power_ms: u64,
    pub input_power_ms: u64,
    pub battery_energy_samples: u32,
    pub input_energy_samples: u32,
    pub current_samples: u32,
    pub peak_input_power_uw: Option<u128>,
    /// Sum of the temperatures of the charging samples, tenths of a degree.
    pub temperature_sum: i128,
    pub temperature_count: u32,
    pub peak_temperature_dc: Option<i64>,
    pub source_names: NameSet,
    pub source_kinds: NameSet,
    pub usb_types: NameSet,
    pub last_battery_power_uw: Option<u64>,
    pub last_input_power_uw: Option<u128>,
    pub last_current_ua: Option<u64>,
    pub last_was_charging: bool,
    pub inactive_samples: u8,
}

/// The value of an `ActiveSession`.
pub struct ActiveModel {
    pub id: Seq<char>,
    pub battery_id: Seq<char>,
    pub battery_device: Seq<char>,
    pub battery_name: Seq<char>,
    pub start_ms: u64,
    pub last_ms: u64,
    pub last_active_ms: u64,
    pub start_capacity: Option<i64>,
    pub end_capacity: Option<i64>,
    pub end_health: Option<i64>,
    pub end_cycle_count: Option<i64>,
    pub sample_count: u32,
    pub powered_sample_count: u32,
    pub charging_ms: u64,
    pub battery_energy: u128,
    pub input_energy: u128,
    pub charged: u128,
    pub battery_power_ms: u64,
    pub input_power_ms: u64,
    pub battery_energy_samples: u32,
    pub input_energy_samples: u32,
    pub current_samples: u32,
    pub peak_input_power_uw: Option<u128>,
    pub temperature_sum: i128,
    pub temperature_count: u32,
    pub peak_temperature_dc: Option<i64>,
    pub source_names: Set<Seq<char>>,
    pub source_kinds: Set<Seq<char>>,
    pub usb_types: Set<Seq<char>>,
    pub last_battery_power_uw: Option<u64>,
    pub last_input_power_uw: Option<u128>,
    pub last_current_ua: Option<u64>,
    pub last_was_charging: bool,
    pub inactive_samples: u8,
}

impl View for ActiveSession {
    type V = ActiveModel;

    open spec fn view(&self) -> ActiveModel {
        ActiveModel {
            id: self.id@,
            battery_id: self.battery_id@,
            battery_device: self.battery_device@,
            battery_name: self.battery_name@,
            start_ms: self.start_ms,
            last_ms: self.last_ms,
            last_active_ms: self.last_active_ms,
            start_capacity: self.start_capacity,
            end_capacity: self.end_capacity,
            end_health: self.end_health,
            end_cycle_count: self.end_cycle_count,
            sample_count: self.sample_count,
            powered_sample_count: self.powered_sample_count,
            charging_ms: self.charging_ms,
            battery_energy: self.battery_energy,
            input_energy: self.input_energy,
            charged: self.charged,
            battery_power_ms: self.battery_power_ms,
            input_power_ms: self.input_power_ms,
            battery_energy_samples: self.battery_energy_samples,
            input_energy_samples: self.input_energy_samples,
            current_samples: self.current_samples,
            peak_input_power_uw: self.peak_input_power_uw,
            temperature_sum: self.temperature_sum,
            temperature_count: self.temperature_count,
            peak_temperature_dc: self.peak_temperature_dc,
            source_names: self.source_names@,
            source_kinds: self.source_kinds@,
            usb_types: self.usb_types@,
            last_battery_power_uw: self.last_battery_power_uw,
            last_input_power_uw: self.last_input_power_uw,
            last_current_ua: self.last_current_ua,
            last_was_charging: self.last_was_charging,
            inactive_samples: self.inactive_samples,
        }
    }
}

/// Whether the battery reports that it is charging.
pub open spec fn is_charging(b: BatteryInfo) -> bool {
    opt_view(b.status) == Some("Charging"@)
}

/// The battery power (µW, in magnitude) of a charging sample.
pub open spec fn charging_power(b: BatteryInfo) -> Option<u64> {
    if is_charging(b) && b.power_now_uw is Some {
        Some(magnitude(b.power_now_uw.unwrap()))
    } else {
        None
    }
}

/// The battery current (µA, in magnitude) of a charging sample.
pub open spec fn charging_current(b: BatteryInfo) -> Option<u64> {
    if is_charging(b) && b.current_now_ua is Some {
        Some(magnitude(b.current_now_ua.unwrap()))
    } else {
        None
    }
}

/// The time a sample at `now` adds to a session: the gap since the last
/// sample, at most `MAX_SAMPLE_GAP_MS`.
pub open spec fn sample_gap(a: ActiveModel, now: u64) -> u64 {
    let gap = sub_or_zero(now, a.last_ms);
    if gap < MAX_SAMPLE_GAP_MS {
        gap
    } else {
        MAX_SAMPLE_GAP_MS
    }
}

/// A session after one more sample of battery `b` and inputs `sources` at
/// `now`. While charging after a charging sample, battery power, input
/// power and current are integrated over the gap where both samples have
/// them.
pub open spec fn observe_spec(a: ActiveModel, b: BatteryInfo, sources: Seq<PowerSource>, now: u64) -> ActiveModel {
    let charging = is_charging(b);
    let dt = sample_gap(a, now);
    let bp = charging_power(b);
    let cur = charging_current(b);
    let ip = input_power(sources);
    let integrate = charging && a.last_was_charging && dt > 0;
    let b_int = integrate && a.last_battery_power_uw is Some && bp is Some;
    let i_int = integrate && a.last_input_power_uw is Some && ip is Some;
    let c_int = integrate && a.last_current_ua is Some && cur is Some;
    let temp = if charging {
        b.temperature_dc
    } else {
        None
    };
    ActiveModel {
        id: a.id,
        battery_id: a.battery_id,
        battery_device: a.battery_device,
        battery_name: a.battery_name,
        start_ms: a.start_ms,
        last_ms: now,
        last_active_ms: now,
        start_capacity: a.start_capacity,
        end_capacity: or_else(b.capacity, a.end_capacity),
        end_health: or_else(b.health_basis_points, a.end_health),
        end_cycle_count: or_else(b.cycle_count, a.end_cycle_count),
        sample_count: sat_u32(a.sample_count + 1),
        powered_sample_count: if bp is Some || ip is Some {
            sat_u32(a.powered_sample_count + 1)
        } else {
            a.powered_sample_count
        },
        charging_ms: if integrate {
            sat_u64(a.charging_ms + dt)
        } else {
            a.charging_ms
        },
        battery_energy: if b_int {
            sat_u128(a.battery_energy + (a.last_battery_power_uw.unwrap() + bp.unwrap()) * dt)
        } else {
            a.battery_energy
        },
        input_energy: if i_int {
            sat_u128(a.input_energy + (a.last_input_power_uw.unwrap() + ip.unwrap()) * dt)
        } else {
            a.input_energy
        },
        charged: if c_int {
            sat_u128(a.charged + (a.last_current_ua.unwrap() + cur.unwrap()) * dt)
        } else {
            a.charged
        },
        battery_power_ms: if b_int {
            sat_u64(a.battery_power_ms + dt)
        } else {
            a.battery_power_ms
        },
        input_power_ms: if i_int {
            sat_u64(a.input_power_ms + dt)
        } else {
            a.input_power_ms
        },
        battery_energy_samples: if b_int {
            sat_u32(a.battery_energy_samples + 1)
        } else {
            a.battery_energy_samples
        },
        input_energy_samples: if i_int {
            sat_u32(a.input_energy_samples + 1)
        } else {
            a.input_energy_samples
        },
        current_samples: if c_int {
            sat_u32(a.current_samples + 1)
        } else {
            a.current_samples
        },
        peak_input_power_uw: if charging && ip is Some {
            Some(max_with_u128(a.peak_input_power_uw, ip.unwrap()))
        } else {
            a.peak_input_power_uw
        },
        temperature_sum: if temp is Some {
            sat_i128(a.temperature_sum + temp.unwrap())
        } else {
            a.temperature_sum
        },
        temperature_count: if temp is Some {
            sat_u32(a.temperature_count + 1)
        } else {
            a.temperature_count
        },
        peak_temperature_dc: if temp is Some {
            Some(max_with_i64(a.peak_temperature_dc, temp.unwrap()))
        } else {
            a.peak_temperature_dc
        },
        source_names: a.source_names.union(online_names(sources)),
        source_kinds: a.source_kinds.union(online_kinds(sources)),
        usb_types: a.usb_types.union(online_usb_types(sources)),
        last_battery_power_uw: bp,
        last_input_power_uw: ip,
        last_current_ua: cur,
        last_was_charging: charging,
        inactive_samples: 0,
    }
}

fn collect_source_metadata(
    names: &mut NameSet,
    kinds: &mut NameSet,
    usb: &mut NameSet,
    sources: &[PowerSource],
)
    ensures
        final(names)@ == old(names)@.union(online_names(sources@)),
        final(kinds)@ == old(kinds)@.union(online_kinds(sources@)),
        final(usb)@ == old(usb)@.union(online_usb_types(sources@)),
{
    let mut i: usize = 0;
    while i < sources.len()
        invariant
            i <= sources@.len(),
            names@ == old(names)@.union(online_names(sources@.take(i as int))),
            kinds@ == old(kinds)@.union(online_kinds(sources@.take(i as int))),
            usb@ == old(usb)@.union(online_usb_types(sources@.take(i as int))),
        decreases sources@.len() - i,
    {
        let ghost t0 = sources@.take(i as int);
        let ghost t1 = sources@.take(i + 1);
        let online = match sources[i].online {
            Some(v) => v,
            None => false,
        };
        if online {
            names.insert(sources[i].name.as_str());
            kinds.insert(sources[i].kind.as_str());
            if let Some(u) = &sources[i].usb_type {
                usb.insert(u.as_str());
            }
        }
        proof {
            let x = sources@[i as int];
            assert(t1[i as int] == x);
            assert forall|n: Seq<char>| #[trigger] online_names(t1).contains(n) <==> (online_names(t0).contains(n) || (x.online == Some(true) && x.name@ == n)) by {
                if online_names(t1).contains(n) {
                    let k = choose|k: int| 0 <= k < t1.len() && #[trigger] t1[k].online == Some(true) && t1[k].name@ == n;
                    if k < i {
                        assert(t0[k] == t1[k]);
                    }
                }
                if online_names(t0).contains(n) {
                    let k = choose|k: int| 0 <= k < t0.len() && #[trigger] t0[k].online == Some(true) && t0[k].name@ == n;
                    assert(t1[k] == t0[k]);
                }
            }
            assert forall|n: Seq<char>| #[trigger] online_kinds(t1).contains(n) <==> (online_kinds(t0).contains(n) || (x.online == Some(true) && x.kind@ == n)) by {
                if online_kinds(t1).contains(n) {
                    let k = choose|k: int| 0 <= k < t1.len() && #[trigger] t1[k].online == Some(true) && t1[k].kind@ == n;
                    if k < i {
                        assert(t0[k] == t1[k]);
                    }
                }
                if online_kinds(t0).contains(n) {
                    let k = choose|k: int| 0 <= k < t0.len() && #[trigger] t0[k].online == Some(true) && t0[k].kind@ == n;
                    assert(t1[k] == t0[k]);
                }
            }
            assert forall|n: Seq<char>| #[trigger] online_usb_types(t1).contains(n) <==> (online_usb_types(t0).contains(n) || (x.online == Some(true) && opt_view(x.usb_type) == Some(n))) by {
                if online_usb_types(t1).contains(n) {
                    let k = choose|k: int| 0 <= k < t1.len() && #[trigger] t1[k].online == Some(true) && opt_view(t1[k].usb_type) == Some(n);
                    if k < i {
                        assert(t0[k] == t1[k]);
                    }
                }
                if online_usb_types(t0).contains(n) {
                    let k = choose|k: int| 0 <= k < t0.len() && #[trigger] t0[k].online == Some(true) && opt_view(t0[k].usb_type) == Some(n);
                    assert(t1[k] == t0[k]);
                }
            }
            assert(names@ =~= old(names)@.union(online_names(t1)));
            assert(kinds@ =~= old(kinds)@.union(online_kinds(t1)));
            assert(usb@ =~= old(usb)@.union(online_usb_types(t1)));
        }
        i += 1;
    }
    assert(sources@.take(i as int) =~= sources@);
}

impl ActiveSession {
    /// Adds one sample of battery `b` and inputs `sources` at `now`.
    pub fn observe(&mut self, b: &BatteryInfo, sources: &[PowerSource], now: u64)
        ensures
            final(self)@ == observe_spec(old(self)@, *b, sources@, now),
    {
        let charging = opt_is(&b.status, "Charging");
        let gap: u64 = if now >= self.last_ms {
            now - self.last_ms
        } else {
            0
        };
        let dt: u64 = if gap < MAX_SAMPLE_GAP_MS {
            gap
        } else {
            MAX_SAMPLE_GAP_MS
        };
        let bp: Option<u64> = if charging {
            match b.power_now_uw {
                Some(p) => Some(magnitude_of(p)),
                None => None,
            }
        } else {
            None
        };
        let cur: Option<u64> = if charging {
            match b.current_now_ua {
                Some(c) => Some(magnitude_of(c)),
                None => None,
            }
        } else {
            None
        };
        let ip = total_input_power(sources);
        if charging && self.last_was_charging && dt > 0 {
            match (self.last_battery_power_uw, bp) {
                (Some(p), Some(c)) => {
                    self.battery_energy = trapezoid(self.battery_energy, p as u128, c as u128, dt);
                    self.battery_energy_samples = inc_u32(self.battery_energy_samples);
                    self.battery_power_ms = add_u64(self.battery_power_ms, dt);
                },
                _ => {},
            }
            match (self.last_input_power_uw, ip) {
                (Some(p), Some(c)) => {
                    self.input_energy = trapezoid(self.input_energy, p, c, dt);
                    self.input_energy_samples = inc_u32(self.input_energy_samples);
                    self.input_power_ms = add_u64(self.input_power_ms, dt);
                },
                _ => {},
            }
            match (self.last_current_ua, cur) {
                (Some(p), Some(c)) => {
                    self.charged = trapezoid(self.charged, p as u128, c as u128, dt);
                    self.current_samples = inc_u32(self.current_samples);
                },
                _ => {},
            }
            self.charging_ms = add_u64(self.charging_ms, dt);
        }
        self.last_ms = now;
        self.last_active_ms = now;
        if b.capacity.is_some() {
            self.end_capacity = b.capacity;
        }
        if b.health_basis_points.is_some() {
            self.end_health = b.health_basis_points;
        }
        if b.cycle_count.is_some() {
            self.end_cycle_count = b.cycle_count;
        }
        self.sample_count = inc_u32(self.sample_count);
        if bp.is_some() || ip.is_some() {
            self.powered_sample_count = inc_u32(self.powered_sample_count);
        }
        if charging {
            if let Some(p) = ip {
                let peak = match self.peak_input_power_uw {
                    Some(q) => if q > p {
                        q
                    } else {
                        p
                    },
                    None => p,
                };
                self.peak_input_power_uw = Some(peak);
            }
            if let Some(t) = b.temperature_dc {
                self.temperature_sum = add_i128_sat(self.temperature_sum, t);
                self.temperature_count = inc_u32(self.temperature_count);
                let peak = match self.peak_temperature_dc {
                    Some(q) => if q > t {
                        q
                    } else {
                        t
                    },
                    None => t,
                };
                self.peak_temperature_dc = Some(peak);
            }
        }
        collect_source_metadata(&mut self.source_names, &mut self.source_kinds, &mut self.usb_types, sources);
        self.last_battery_power_uw = bp;
        self.last_input_power_uw = ip;
        self.last_current_ua = cur;
        self.last_was_charging = charging;
        self.inactive_samples = 0;
    }
}


// --------------------------------------------------------------- identity

/// How a battery is told apart over time: its serial number, trimmed, when
/// it has a non-blank one, else its device name.
pub open spec fn identity(b: BatteryInfo) -> Seq<char> {
    if b.serial_number is Some && trim(b.serial_number.unwrap()@).len() > 0 {
        "serial:"@ + trim(b.serial_number.unwrap()@)
    } else {
        "device:"@ + b.device@
    }
}

/// The identity of a battery: `serial:` and the trimmed serial number, or
/// `device:` and the device name when the serial number is missing or blank.
pub fn battery_identity(b: &BatteryInfo) -> (r: String)
    ensures
        r@ == identity(*b),
{
    if let Some(serial) = &b.serial_number {
        let t = trim_chars(chars_of(serial.as_str()).as_slice());
        if t.len() > 0 {
            let mut v = chars_of("serial:");
            extend_chars(&mut v, t.as_slice());
            return string_of(v.as_slice());
        }
    }
    let mut v = chars_of("device:");
    extend_str(&mut v, b.device.as_str());
    string_of(v.as_slice())
}

/// The name a battery is shown by: model, else manufacturer, else device.
pub fn battery_name(b: &BatteryInfo) -> (r: String)
    ensures
        r@ == display_name(*b),
{
    let name: &str = match &b.model {
        Some(m) => m.as_str(),
        None => match &b.manufacturer {
            Some(m) => m.as_str(),
            None => b.device.as_str(),
        },
    };
    string_of(chars_of(name).as_slice())
}

/// A session that begins with battery `b` at `now`, before its first sample.
pub open spec fn initial_spec(b: BatteryInfo, now: u64) -> ActiveModel {
    ActiveModel {
        id: b.device@ + "-"@ + nat_decimal(now as nat),
        battery_id: identity(b),
        battery_device: b.device@,
        battery_name: display_name(b),
        start_ms: now,
        last_ms: now,
        last_active_ms: now,
        start_capacity: b.capacity,
        end_capacity: b.capacity,
        end_health: b.health_basis_points,
        end_cycle_count: b.cycle_count,
        sample_count: 0,
        powered_sample_count: 0,
        charging_ms: 0,
        battery_energy: 0,
        input_energy: 0,
        charged: 0,
        battery_power_ms: 0,
        input_power_ms: 0,
        battery_energy_samples: 0,
        input_energy_samples: 0,
        current_samples: 0,
        peak_input_power_uw: None,
        temperature_sum: 0,
        temperature_count: 0,
        peak_temperature_dc: None,
        source_names: Set::empty(),
        source_kinds: Set::empty(),
        usb_types: Set::empty(),
        last_battery_power_uw: None,
        last_input_power_uw: None,
        last_current_ua: None,
        last_was_charging: false,
        inactive_samples: 0,
    }
}

/// A session that begins with its first sample of `b` and `sources` at `now`.
pub open spec fn start_spec(b: BatteryInfo, sources: Seq<PowerSource>, now: u64) -> ActiveModel {
    observe_spec(initial_spec(b, now), b, sources, now)
}

impl ActiveSession {
    /// A session that begins with its first sample of `b` and `sources` at
    /// `now`; its id is the device name, `-` and `now`.
    pub fn new(b: &BatteryInfo, sources: &[PowerSource], now: u64) -> (r: Self)
        ensures
            r@ == start_spec(*b, sources@, now),
    {
        let mut id = chars_of(b.device.as_str());
        extend_str(&mut id, "-");
        let digits = u64_decimal(now);
        extend_chars(&mut id, digits.as_slice());
        let mut active = ActiveSession {
            id: string_of(id.as_slice()),
            battery_id: battery_identity(b),
            battery_device: string_of(chars_of(b.device.as_str()).as_slice()),
            battery_name: battery_name(b),
            start_ms: now,
            last_ms: now,
            last_active_ms: now,
            start_capacity: b.capacity,
            end_capacity: b.capacity,
            end_health: b.health_basis_points,
            end_cycle_count: b.cycle_count,
            sample_count: 0,
            powered_sample_count: 0,
            charging_ms: 0,
            battery_energy: 0,
            input_energy: 0,
            charged: 0,
            battery_power_ms: 0,
            input_power_ms: 0,
            battery_energy_samples: 0,
            input_energy_samples: 0,
            current_samples: 0,
            peak_input_power_uw: None,
            temperature_sum: 0,
            temperature_count: 0,
            peak_temperature_dc: None,
            source_names: NameSet::new(),
            source_kinds: NameSet::new(),
            usb_types: NameSet::new(),
            last_battery_power_uw: None,
            last_input_power_uw: None,
            last_current_ua: None,
            last_was_charging: false,
            inactive_samples: 0,
        };
        assert(active@ == initial_spec(*b, now));
        active.observe(b, sources, now);
        active
    }
}


// --------------------------------------------------------- finished record

/// An energy over the time it was measured: the average power is the
/// energy over the duration.
#[derive(Clone, Copy, PartialEq, Eq, Structural, Debug)]
pub struct EnergySpan {
    /// Twice the energy, µW·ms.
    pub energy: u128,
    pub duration_ms: u64,
}

/// A sum of temperatures and their number: the average is the sum over the
/// number.
#[derive(Clone, Copy, PartialEq, Eq, Structural, Debug)]
pub struct TemperatureSum {
    /// Tenths of a degree.
    pub sum_dc: i128,
    pub count: u32,
}

/// The record of a charging session.
pub struct ChargeSession {
    pub id: String,
    pub battery_id: String,
    pub battery_device: String,
    pub battery_name: String,
    pub start_ms: u64,
    pub end_ms: u64,
    pub start_capacity: Option<i64>,
    pub end_capacity: Option<i64>,
    pub charged_percent: Option<i64>,
    pub duration_ms: u64,
    pub charging_ms: u64,
    /// Twice the battery energy, µW·ms.
    pub battery_energy: Option<u128>,
    /// Twice the input energy, µW·ms.
    pub input_energy: Option<u128>,
    /// Twice the charge, µA·ms.
    pub charged: Option<u128>,
    pub average_battery_power: Option<EnergySpan>,
    pub average_input_power: Option<EnergySpan>,
    pub peak_input_power_uw: Option<u128>,
    pub average_temperature: Option<TemperatureSum>,
    pub peak_temperature_dc: Option<i64>,
    pub source_names: Vec<String>,
    pub source_kinds: Vec<String>,
    pub usb_types: Vec<String>,
    pub sample_count: u32,
    pub powered_sample_count: u32,
    /// Hundredths of a percent.
    pub health_end: Option<i64>,
    pub cycle_count_end: Option<i64>,
    pub complete: bool,
    pub end_reason: String,
}

/// The value of a `ChargeSession`.
pub struct SessionModel {
    pub id: Seq<char>,
    pub battery_id: Seq<char>,
    pub battery_device: Seq<char>,
    pub battery_name: Seq<char>,
    pub start_ms: u64,
    pub end_ms: u64,
    pub start_capacity: Option<i64>,
    pub end_capacity: Option<i64>,
    pub charged_percent: Option<i64>,
    pub duration_ms: u64,
    pub charging_ms: u64,
    pub battery_energy: Option<u128>,
    pub input_energy: Option<u128>,
    pub charged: Option<u128>,
    pub average_battery_power: Option<EnergySpan>,
    pub average_input_power: Option<EnergySpan>,
    pub peak_input_power_uw: Option<u128>,
    pub average_temperature: Option<TemperatureSum>,
    pub peak_temperature_dc: Option<i64>,
    pub source_names: Seq<Seq<char>>,
    pub source_kinds: Seq<Seq<char>>,
    pub usb_types: Seq<Seq<char>>,
    pub sample_count: u32,
    pub powered_sample_count: u32,
    pub health_end: Option<i64>,
    pub cycle_count_end: Option<i64>,
    pub complete: bool,
    pub end_reason: Seq<char>,
}

impl View for ChargeSession {
    type V = SessionModel;

    open spec fn view(&self) -> SessionModel {
        SessionModel {
            id: self.id@,
            battery_id: self.battery_id@,
            battery_device: self.battery_device@,
            battery_name: self.battery_name@,
            start_ms: self.start_ms,
            end_ms: self.end_ms,
            start_capacity: self.start_capacity,
            end_capacity: self.end_capacity,
            charged_percent: self.charged_percent,
            duration_ms: self.duration_ms,
            charging_ms: self.charging_ms,
            battery_energy: self.battery_energy,
            input_energy: self.input_energy,
            charged: self.charged,
            average_battery_power: self.average_battery_power,
            average_input_power: self.average_input_power,
            peak_input_power_uw: self.peak_input_power_uw,
            average_temperature: self.average_temperature,
            peak_temperature_dc: self.peak_temperature_dc,
            source_names: views(self.source_names@),
            source_kinds: views(self.source_kinds@),
            usb_types: views(self.usb_types@),
            sample_count: self.sample_count,
            powered_sample_count: self.powered_sample_count,
            health_end: self.health_end,
            cycle_count_end: self.cycle_count_end,
            complete: self.complete,
            end_reason: self.end_reason@,
        }
    }
}

/// Whether a session is long enough to be recorded: 30 s between its first
/// and last active samples, and two samples.
pub open spec fn recordable(a: ActiveModel) -> bool {
    sub_or_zero(a.last_active_ms, a.start_ms) >= MIN_SESSION_MS && a.sample_count >= 2
}

/// The average over `samples` integrations of `energy` over `ms`, when
/// there are any.
pub open spec fn span_of(with_totals: bool, energy: u128, ms: u64, samples: u32) -> Option<EnergySpan> {
    if with_totals && samples > 0 && ms > 0 {
        Some(EnergySpan { energy, duration_ms: ms })
    } else {
        None
    }
}

/// A total that is shown only with aggregates and only when measured.
pub open spec fn total_of(with_totals: bool, total: u128, samples: u32) -> Option<u128> {
    if with_totals && samples > 0 {
        Some(total)
    } else {
        None
    }
}

/// The record of session `a`; the totals and averages only when `with_totals`.
pub open spec fn session_spec(a: ActiveModel, complete: bool, reason: Seq<char>, with_totals: bool) -> SessionModel {
    SessionModel {
        id: a.id,
        battery_id: a.battery_id,
        battery_device: a.battery_device,
        battery_name: a.battery_name,
        start_ms: a.start_ms,
        end_ms: a.last_active_ms,
        start_capacity: a.start_capacity,
        end_capacity: a.end_capacity,
        charged_percent: match (a.start_capacity, a.end_capacity) {
            (Some(s), Some(e)) => Some(sat_i64(e - s)),
            _ => None,
        },
        duration_ms: sub_or_zero(a.last_active_ms, a.start_ms),
        charging_ms: a.charging_ms,
        battery_energy: total_of(with_totals, a.battery_energy, a.battery_energy_samples),
        input_energy: total_of(with_totals, a.input_energy, a.input_energy_samples),
        charged: total_of(with_totals, a.charged, a.current_samples),
        average_battery_power: span_of(with_totals, a.battery_energy, a.battery_power_ms, a.battery_energy_samples),
        average_input_power: span_of(with_totals, a.input_energy, a.input_power_ms, a.input_energy_samples),
        peak_input_power_uw: a.peak_input_power_uw,
        average_temperature: if with_totals && a.temperature_count > 0 {
            Some(TemperatureSum { sum_dc: a.temperature_sum, count: a.temperature_count })
        } else {
            None
        },
        peak_temperature_dc: a.peak_temperature_dc,
        source_names: listing(a.source_names),
        source_kinds: listing(a.source_kinds),
        usb_types: listing(a.usb_types),
        sample_count: a.sample_count,
        powered_sample_count: a.powered_sample_count,
        health_end: a.end_health,
        cycle_count_end: a.end_cycle_count,
        complete,
        end_reason: reason,
    }
}

/// The record a session leaves when it ends, if it is long enough.
pub open spec fn finish_spec(a: ActiveModel, complete: bool, reason: Seq<char>) -> Option<SessionModel> {
    if recordable(a) {
        Some(session_spec(a, complete, reason, true))
    } else {
        None
    }
}

/// How a session in progress is shown: incomplete, with reason `active`,
/// its totals only once it is long enough to be recorded.
pub open spec fn preview_spec(a: ActiveModel) -> SessionModel {
    session_spec(a, false, "active"@, recordable(a))
}

fn total_if(with_totals: bool, total: u128, samples: u32) -> (r: Option<u128>)
    ensures
        r == total_of(with_totals, total, samples),
{
    if with_totals && samples > 0 {
        Some(total)
    } else {
        None
    }
}

fn span_if(with_totals: bool, energy: u128, ms: u64, samples: u32) -> (r: Option<EnergySpan>)
    ensures
        r == span_of(with_totals, energy, ms, samples),
{
    if with_totals && samples > 0 && ms > 0 {
        Some(EnergySpan { energy, duration_ms: ms })
    } else {
        None
    }
}

fn copy_string(s: &String) -> (r: String)
    ensures
        r@ == s@,
{
    s.clone()
}

impl ActiveSession {
    /// Whether the session is long enough to be recorded.
    pub fn is_recordable(&self) -> (r: bool)
        ensures
            r == recordable(self@),
    {
        let d: u64 = if self.last_active_ms >= self.start_ms {
            self.last_active_ms - self.start_ms
        } else {
            0
        };
        d >= MIN_SESSION_MS && self.sample_count >= 2
    }

    /// The record of the session; totals and averages only when `with_totals`.
    pub fn build_session(&self, complete: bool, reason: &str, with_totals: bool) -> (r: ChargeSession)
        ensures
            r@ == session_spec(self@, complete, reason@, with_totals),
    {
        let charged_percent = match (self.start_capacity, self.end_capacity) {
            (Some(s), Some(e)) => Some(crate::num::sat_i64_of((e as i128) - (s as i128))),
            _ => None,
        };
        let duration: u64 = if self.last_active_ms >= self.start_ms {
            self.last_active_ms - self.start_ms
        } else {
            0
        };
        let average_temperature = if with_totals && self.temperature_count > 0 {
            Some(TemperatureSum { sum_dc: self.temperature_sum, count: self.temperature_count })
        } else {
            None
        };
        ChargeSession {
            id: copy_string(&self.id),
            battery_id: copy_string(&self.battery_id),
            battery_device: copy_string(&self.battery_device),
            battery_name: copy_string(&self.battery_name),
            start_ms: self.start_ms,
            end_ms: self.last_active_ms,
            start_capacity: self.start_capacity,
            end_capacity: self.end_capacity,
            charged_percent,
            duration_ms: duration,
            charging_ms: self.charging_ms,
            battery_energy: total_if(with_totals, self.battery_energy, self.battery_energy_samples),
            input_energy: total_if(with_totals, self.input_energy, self.input_energy_samples),
            charged: total_if(with_totals, self.charged, self.current_samples),
            average_battery_power: span_if(
                with_totals,
                self.battery_energy,
                self.battery_power_ms,
                self.battery_energy_samples,
            ),
            average_input_power: span_if(
                with_totals,
                self.input_energy,
                self.input_power_ms,
                self.input_energy_samples,
            ),
            peak_input_power_uw: self.peak_input_power_uw,
            average_temperature,
            peak_temperature_dc: self.peak_temperature_dc,
            source_names: self.source_names.sorted(),
            source_kinds: self.source_kinds.sorted(),
            usb_types: self.usb_types.sorted(),
            sample_count: self.sample_count,
            powered_sample_count: self.powered_sample_count,
            health_end: self.end_health,
            cycle_count_end: self.end_cycle_count,
            complete,
            end_reason: string_of(chars_of(reason).as_slice()),
        }
    }

    /// The record the session leaves when it ends, if it is long enough.
    pub fn finish(&self, complete: bool, reason: &str) -> (r: Option<ChargeSession>)
        ensures
            match r {
                Some(c) => finish_spec(self@, complete, reason@) == Some(c@),
                None => finish_spec(self@, complete, reason@) is None,
            },
    {
        if self.is_recordable() {
            Some(self.build_session(complete, reason, true))
        } else {
            None
        }
    }

    /// How the session is shown while in progress.
    pub fn preview(&self) -> (r: ChargeSession)
        ensures
            r@ == preview_spec(self@),
    {
        let with_totals = self.is_recordable();
        self.build_session(false, "active", with_totals)
    }
}

/// Once a session is long enough to be recorded, its preview is the record
/// it would leave if it ended now, incomplete, with reason `active`.
pub proof fn lemma_preview_matches_finish(a: ActiveModel)
    requires
        recordable(a),
    ensures
        finish_spec(a, false, "active"@) == Some(preview_spec(a)),
{
}

/// Before a session is long enough to be recorded, its preview shows no
/// totals or averages, and ending it records nothing.
pub proof fn lemma_early_preview_hides_totals(a: ActiveModel)
    requires
        !recordable(a),
    ensures
        finish_spec(a, true, "unplugged"@) is None,
        preview_spec(a).battery_energy is None,
        preview_spec(a).input_energy is None,
        preview_spec(a).charged is None,
        preview_spec(a).average_battery_power is None,
        preview_spec(a).average_input_power is None,
        preview_spec(a).average_temperature is None,
{
}


/// The peak input power of a session is the largest total input power of
/// its charging samples: after a charging sample with input power `p` it
/// is at least `p` and at least the peak before, and equals one of them;
/// other samples leave it as it was.
pub proof fn lemma_peak_input_power(a: ActiveModel, b: BatteryInfo, sources: Seq<PowerSource>, now: u64)
    ensures
        ({
            let r = observe_spec(a, b, sources, now).peak_input_power_uw;
            if is_charging(b) && input_power(sources) is Some {
                let p = input_power(sources).unwrap();
                &&& r matches Some(q)
                &&& r.unwrap() >= p
                &&& (a.peak_input_power_uw matches Some(o) ==> r.unwrap() >= o)
                &&& (r.unwrap() == p || a.peak_input_power_uw == r)
            } else {
                r == a.peak_input_power_uw
            }
        }),
{
}

/// The peak temperature of a session is the highest reading of its
/// charging samples: after a charging sample reading `t` it is at least
/// `t` and at least the peak before, and equals one of them; other samples
/// leave it as it was.
pub proof fn lemma_peak_temperature(a: ActiveModel, b: BatteryInfo, sources: Seq<PowerSource>, now: u64)
    ensures
        ({
            let r = observe_spec(a, b, sources, now).peak_temperature_dc;
            if is_charging(b) && b.temperature_dc is Some {
                let t = b.temperature_dc.unwrap();
                &&& r matches Some(q)
                &&& r.unwrap() >= t
                &&& (a.peak_temperature_dc matches Some(o) ==> r.unwrap() >= o)
                &&& (r.unwrap() == t || a.peak_temperature_dc == r)
            } else {
                r == a.peak_temperature_dc
            }
        }),
{
}

} // verus!
