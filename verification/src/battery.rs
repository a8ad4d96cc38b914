//! Battery readings from the Linux `power_supply` class, normalised.
//!
//! Missing attributes stay `None` rather than reading as zero. Phones and
//! tablets report `charge_*` (µAh), laptops `energy_*` (µWh); both are kept
//! in their own unit.

use vstd::prelude::*;
use crate::num::{abs, lemma_mul_abs_bound, round_div, round_div_i128, sat_i64, sat_i64_of, trunc_div, trunc_div_i128};
use crate::sysfs::{Attributes, Device};
use crate::text::{chars_eq, chars_of, string_of};

verus! {

/// Which family of attributes a capacity comes from.
#[derive(Clone, Copy, PartialEq, Eq, Structural, Debug)]
pub enum CapacityKind {
    /// `charge_*`, in µAh (shown in mAh).
    Charge,
    /// `energy_*`, in µWh (shown in Wh).
    Energy,
}

/// A battery capacity in the unit of its attribute family.
#[derive(Clone, Copy, PartialEq, Eq, Structural, Debug)]
pub struct CapacityValue {
    /// µAh for `Charge`, µWh for `Energy`.
    pub raw: i64,
    pub kind: CapacityKind,
}

impl CapacityValue {
    /// The display unit: `mAh` or `Wh`.
    pub fn unit(&self) -> (r: &'static str)
        ensures
            r@ == (match self.kind {
                CapacityKind::Charge => "mAh"@,
                CapacityKind::Energy => "Wh"@,
            }),
    {
        match self.kind {
            CapacityKind::Charge => "mAh",
            CapacityKind::Energy => "Wh",
        }
    }

    /// The attribute family: `charge` or `energy`.
    pub fn source_kind(&self) -> (r: &'static str)
        ensures
            r@ == (match self.kind {
                CapacityKind::Charge => "charge"@,
                CapacityKind::Energy => "energy"@,
            }),
    {
        match self.kind {
            CapacityKind::Charge => "charge",
            CapacityKind::Energy => "energy",
        }
    }
}

/// One battery, as its attributes describe it.
#[derive(Debug)]
pub struct BatteryInfo {
    pub device: String,
    pub model: Option<String>,
    pub manufacturer: Option<String>,
    pub serial_number: Option<String>,
    pub technology: Option<String>,
    pub present: Option<bool>,
    /// State of charge (%).
    pub capacity: Option<i64>,
    pub status: Option<String>,
    pub health_status: Option<String>,
    pub full_capacity: Option<CapacityValue>,
    pub design_capacity: Option<CapacityValue>,
    /// Full capacity against design capacity, in hundredths of a percent.
    pub health_basis_points: Option<i64>,
    pub cycle_count: Option<i64>,
    pub state_of_health: Option<i64>,
    /// µV.
    pub voltage_now_uv: Option<i64>,
    /// µV.
    pub voltage_ocv_uv: Option<i64>,
    /// µV.
    pub voltage_max_uv: Option<i64>,
    /// µA; negative while discharging.
    pub current_now_ua: Option<i64>,
    /// µW.
    pub power_now_uw: Option<i64>,
    /// Tenths of a degree Celsius.
    pub temperature_dc: Option<i64>,
    /// µΩ.
    pub internal_resistance_uohm: Option<i64>,
    /// Minutes until empty, while discharging.
    pub time_to_empty_min: Option<i64>,
    /// Minutes until full, while charging.
    pub time_to_full_min: Option<i64>,
}

/// The view of an optional string.
pub open spec fn opt_view(s: Option<String>) -> Option<Seq<char>> {
    match s {
        Some(v) => Some(v@),
        None => None,
    }
}

/// The full capacity the attributes give: `charge_full`, else `energy_full`.
pub open spec fn full_capacity_of(a: Attributes) -> Option<CapacityValue> {
    match a.int_value("charge_full"@) {
        Some(v) => Some(CapacityValue { raw: v, kind: CapacityKind::Charge }),
        None => match a.int_value("energy_full"@) {
            Some(v) => Some(CapacityValue { raw: v, kind: CapacityKind::Energy }),
            None => None,
        },
    }
}

/// The design capacity, from the same family as the full capacity when both
/// exist (`preferred`), else from whichever exists, `charge` first.
pub open spec fn design_capacity_of(a: Attributes, preferred: Option<CapacityKind>) -> Option<
    CapacityValue,
> {
    let charge = match a.int_value("charge_full_design"@) {
        Some(v) => Some(CapacityValue { raw: v, kind: CapacityKind::Charge }),
        None => None,
    };
    let energy = match a.int_value("energy_full_design"@) {
        Some(v) => Some(CapacityValue { raw: v, kind: CapacityKind::Energy }),
        None => None,
    };
    if preferred == Some(CapacityKind::Energy) {
        if energy is Some {
            energy
        } else {
            charge
        }
    } else {
        if charge is Some {
            charge
        } else {
            energy
        }
    }
}

/// Health in hundredths of a percent: full over design capacity when both
/// are in the same unit and the design capacity is positive; otherwise the
/// driver's `state_of_health` when it lies in 1..=100.
pub open spec fn health_of(
    a: Attributes,
    full: Option<CapacityValue>,
    design: Option<CapacityValue>,
) -> Option<i64> {
    match (full, design) {
        (Some(f), Some(d)) => if f.kind == d.kind && d.raw > 0 {
            Some(sat_i64(round_div(f.raw * 10000, d.raw as int)))
        } else {
            match a.int_value("state_of_health"@) {
                Some(hw) => if 1 <= hw <= 100 {
                    Some((hw * 100) as i64)
                } else {
                    None
                },
                None => None,
            }
        },
        _ => None,
    }
}

/// Instantaneous power (µW): `power_now` when it exceeds 0.01 W in
/// magnitude, else voltage × current.
pub open spec fn power_of(a: Attributes, voltage_uv: Option<i64>, current_ua: Option<i64>) -> Option<
    i64,
> {
    match a.int_value("power_now"@) {
        Some(p) if abs(p as int) > 10_000 => Some(p),
        _ => match (voltage_uv, current_ua) {
            (Some(v), Some(i)) => Some(sat_i64(round_div(v * i, 1_000_000))),
            _ => None,
        },
    }
}

/// Whether `x` lies strictly within the range of `i128` (the estimates
/// are computed exactly in that range).
pub open spec fn fits_i128(x: int) -> bool {
    i128::MIN < x <= i128::MAX
}

/// The voltage used to turn a charge into an energy: now, else open-circuit,
/// else maximum.
pub open spec fn energy_voltage(b: BatteryInfo) -> Option<i64> {
    if b.voltage_now_uv is Some {
        b.voltage_now_uv
    } else if b.voltage_ocv_uv is Some {
        b.voltage_ocv_uv
    } else {
        b.voltage_max_uv
    }
}

/// How a full battery's content and the present rate are measured, as
/// `(amount, rate, scale, least rate)`; minutes are
/// `amount × 60 / (rate × scale)`. Energy comes first: µWh against µW, or
/// µAh × µV (scale 10^6) against µW, when the power is known; else charge,
/// µAh against µA. The least rate that counts is 0.01 W or 0.01 mA.
/// `None` when the readings allow neither.
pub open spec fn estimate_route(b: BatteryInfo) -> Option<(int, int, int, int)> {
    let full = b.full_capacity.unwrap();
    let energy: Option<(int, int)> = match full.kind {
        CapacityKind::Energy => Some((full.raw as int, 1)),
        CapacityKind::Charge => match energy_voltage(b) {
            Some(v) => Some((full.raw * v, 1_000_000)),
            None => None,
        },
    };
    match (energy, b.power_now_uw) {
        (Some((amount, scale)), Some(p)) => Some((amount, abs(p as int), scale, 10_000)),
        _ => match full.kind {
            CapacityKind::Charge => match b.current_now_ua {
                Some(i) => Some((full.raw as int, abs(i as int), 1, 10)),
                None => None,
            },
            CapacityKind::Energy => None,
        },
    }
}

/// What remains to charge, in the amount's unit × 100: the part of the full
/// amount above the state of charge, never below zero.
pub open spec fn remaining(amount: int, cap: int) -> int {
    if amount * (100 - cap) < 0 {
        0
    } else {
        amount * (100 - cap)
    }
}

/// Minutes to empty (while discharging) and to full (while charging), from
/// the state of charge, the full capacity and the present rate. A quotient
/// whose dividend leaves the range of `i128` is not estimated.
pub open spec fn estimate_times_spec(b: BatteryInfo) -> (Option<i64>, Option<i64>) {
    match (b.capacity, b.full_capacity) {
        (Some(cap), Some(full)) => match estimate_route(b) {
            Some((amount, rate, scale, least)) => {
                if rate < least {
                    (None, None)
                } else if opt_view(b.status) == Some("Charging"@) {
                    let n = remaining(amount, cap as int) * 60;
                    if fits_i128(n) {
                        (None, Some(sat_i64(trunc_div(n, 100 * rate * scale))))
                    } else {
                        (None, None)
                    }
                } else if opt_view(b.status) == Some("Discharging"@) {
                    let n = cap * amount * 60;
                    if fits_i128(n) {
                        (Some(sat_i64(trunc_div(n, 100 * rate * scale))), None)
                    } else {
                        (None, None)
                    }
                } else {
                    (None, None)
                }
            },
            None => (None, None),
        },
        _ => (None, None),
    }
}

/// Everything `collect_device` reads from the attributes of `dev`, except the
/// time estimates.
pub open spec fn describes(b: BatteryInfo, dev: Seq<char>, a: Attributes) -> bool {
    let full = full_capacity_of(a);
    let design = design_capacity_of(
        a,
        match full {
            Some(f) => Some(f.kind),
            None => None,
        },
    );
    &&& b.device@ == dev
    &&& opt_view(b.model) == a.text("model_name"@)
    &&& opt_view(b.manufacturer) == a.text("manufacturer"@)
    &&& opt_view(b.serial_number) == a.text("serial_number"@)
    &&& opt_view(b.technology) == a.text("technology"@)
    &&& b.present == (match a.int_value("present"@) {
        Some(v) => Some(v == 1),
        None => None,
    })
    &&& b.capacity == a.int_value("capacity"@)
    &&& opt_view(b.status) == a.text("status"@)
    &&& opt_view(b.health_status) == a.text("health"@)
    &&& b.full_capacity == full
    &&& b.design_capacity == design
    &&& b.health_basis_points == health_of(a, full, design)
    &&& b.cycle_count == a.int_value("cycle_count"@)
    &&& b.state_of_health == a.int_value("state_of_health"@)
    &&& b.voltage_now_uv == a.int_value("voltage_now"@)
    &&& b.voltage_ocv_uv == a.int_value("voltage_ocv"@)
    &&& b.voltage_max_uv == a.int_value("voltage_max"@)
    &&& b.current_now_ua == a.int_value("current_now"@)
    &&& b.power_now_uw == power_of(a, a.int_value("voltage_now"@), a.int_value("current_now"@))
    &&& b.temperature_dc == a.int_value("temp"@)
    &&& b.internal_resistance_uohm == a.int_value("internal_resistance"@)
}

/// Whether an optional string holds exactly `lit`.
pub fn opt_is(s: &Option<String>, lit: &str) -> (r: bool)
    ensures
        r == (opt_view(*s) == Some(lit@)),
{
    match s {
        Some(v) => {
            let x = chars_of(v.as_str());
            let y = chars_of(lit);
            chars_eq(x.as_slice(), y.as_slice())
        },
        None => false,
    }
}

/// The text of attribute `name` as a string.
pub fn text_attr(a: &Attributes, name: &str) -> (r: Option<String>)
    ensures
        opt_view(r) == a.text(name@),
{
    match a.get(name) {
        Some(v) => Some(string_of(v.as_slice())),
        None => None,
    }
}

fn read_full_capacity(a: &Attributes) -> (r: Option<CapacityValue>)
    ensures
        r == full_capacity_of(*a),
{
    if let Some(v) = a.get_i64("charge_full") {
        return Some(CapacityValue { raw: v, kind: CapacityKind::Charge });
    }
    match a.get_i64("energy_full") {
        Some(v) => Some(CapacityValue { raw: v, kind: CapacityKind::Energy }),
        None => None,
    }
}

fn read_design_capacity(a: &Attributes, preferred: Option<CapacityKind>) -> (r: Option<
    CapacityValue,
>)
    ensures
        r == design_capacity_of(*a, preferred),
{
    let charge = match a.get_i64("charge_full_design") {
        Some(v) => Some(CapacityValue { raw: v, kind: CapacityKind::Charge }),
        None => None,
    };
    let energy = match a.get_i64("energy_full_design") {
        Some(v) => Some(CapacityValue { raw: v, kind: CapacityKind::Energy }),
        None => None,
    };
    let prefer_energy = match preferred {
        Some(CapacityKind::Energy) => true,
        _ => false,
    };
    if prefer_energy {
        if energy.is_some() {
            energy
        } else {
            charge
        }
    } else {
        if charge.is_some() {
            charge
        } else {
            energy
        }
    }
}

fn health_basis_points(
    a: &Attributes,
    full: Option<CapacityValue>,
    design: Option<CapacityValue>,
) -> (r: Option<i64>)
    ensures
        r == health_of(*a, full, design),
{
    match (full, design) {
        (Some(f), Some(d)) => {
            if f.kind == d.kind && d.raw > 0 {
                let q = round_div_i128((f.raw as i128) * 10000, d.raw as i128);
                Some(sat_i64_of(q))
            } else {
                match a.get_i64("state_of_health") {
                    Some(hw) => if 1 <= hw && hw <= 100 {
                        Some(hw * 100)
                    } else {
                        None
                    },
                    None => None,
                }
            }
        },
        _ => None,
    }
}

fn read_power(a: &Attributes, voltage_uv: Option<i64>, current_ua: Option<i64>) -> (r: Option<i64>)
    ensures
        r == power_of(*a, voltage_uv, current_ua),
{
    let raw = a.get_i64("power_now");
    if let Some(p) = raw {
        if p > 10_000 || p < -10_000 {
            return Some(p);
        }
    }
    match (voltage_uv, current_ua) {
        (Some(v), Some(i)) => {
            proof {
                lemma_mul_abs_bound(v as int, i as int, 0x8000_0000_0000_0000, 0x8000_0000_0000_0000);
            }
            Some(sat_i64_of(round_div_i128((v as i128) * (i as i128), 1_000_000)))
        },
        _ => None,
    }
}

fn abs_i64(x: i64) -> (r: i128)
    ensures
        r == abs(x as int),
{
    if x < 0 {
        -(x as i128)
    } else {
        x as i128
    }
}

fn route(b: &BatteryInfo) -> (r: Option<(i128, i128, i128, i128)>)
    requires
        b.full_capacity is Some,
    ensures
        match r {
            Some((amount, rate, scale, least)) => estimate_route(*b) == Some(
                (amount as int, rate as int, scale as int, least as int),
            ),
            None => estimate_route(*b) is None,
        },
        match estimate_route(*b) {
            Some((amount, rate, scale, least)) => {
                &&& -0x4000_0000_0000_0000_0000_0000_0000_0000 <= amount <= 0x4000_0000_0000_0000_0000_0000_0000_0000
                &&& 0 <= rate <= 0x8000_0000_0000_0000
                &&& (scale == 1 || scale == 1_000_000)
                &&& (least == 10 || least == 10_000)
            },
            None => true,
        },
{
    let full = b.full_capacity.unwrap();
    let voltage = if b.voltage_now_uv.is_some() {
        b.voltage_now_uv
    } else if b.voltage_ocv_uv.is_some() {
        b.voltage_ocv_uv
    } else {
        b.voltage_max_uv
    };
    let energy: Option<(i128, i128)> = match full.kind {
        CapacityKind::Energy => Some((full.raw as i128, 1)),
        CapacityKind::Charge => match voltage {
            Some(v) => {
                proof {
                    lemma_mul_abs_bound(full.raw as int, v as int, 0x8000_0000_0000_0000, 0x8000_0000_0000_0000);
                }
                Some(((full.raw as i128) * (v as i128), 1_000_000))
            },
            None => None,
        },
    };
    match (energy, b.power_now_uw) {
        (Some((amount, scale)), Some(p)) => Some((amount, abs_i64(p), scale, 10_000)),
        _ => match full.kind {
            CapacityKind::Charge => match b.current_now_ua {
                Some(i) => Some((full.raw as i128, abs_i64(i), 1, 10)),
                None => None,
            },
            CapacityKind::Energy => None,
        },
    }
}

/// `a × 60`, when it lies strictly within the range of `i128`.
fn times_sixty(a: i128) -> (r: Option<i128>)
    ensures
        fits_i128(a * 60) ==> r == Some((a * 60) as i128),
        !fits_i128(a * 60) ==> r is None,
{
    match a.checked_mul(60) {
        Some(n) => if n == i128::MIN {
            None
        } else {
            Some(n)
        },
        None => None,
    }
}

/// Minutes to empty while discharging and to full while charging.
pub fn estimate_times(b: &BatteryInfo) -> (r: (Option<i64>, Option<i64>))
    ensures
        r == estimate_times_spec(*b),
{
    let cap = match b.capacity {
        Some(c) => c,
        None => return (None, None),
    };
    if b.full_capacity.is_none() {
        return (None, None);
    }
    let (amount, rate, scale, least) = match route(b) {
        Some(x) => x,
        None => return (None, None),
    };
    if rate < least {
        return (None, None);
    }
    let den: i128 = 100 * rate * scale;
    proof {
        assert(100 * rate * scale <= 100 * 0x8000_0000_0000_0000 * 1_000_000) by (nonlinear_arith)
            requires
                0 <= rate <= 0x8000_0000_0000_0000,
                scale == 1 || scale == 1_000_000,
        ;
        assert(den > 0) by (nonlinear_arith)
            requires
                den == 100 * rate * scale,
                rate >= 10,
                scale >= 1,
        ;
    }
    if opt_is(&b.status, "Charging") {
        let f: i128 = 100 - (cap as i128);
        let remain: i128 = if amount == 0 || f == 0 || ((amount > 0) != (f > 0)) {
            proof {
                assert(amount * f <= 0) by (nonlinear_arith)
                    requires
                        amount == 0 || f == 0 || ((amount > 0) != (f > 0)),
                ;
            }
            0
        } else {
            proof {
                assert(amount * f > 0) by (nonlinear_arith)
                    requires
                        amount != 0,
                        f != 0,
                        (amount > 0) == (f > 0),
                ;
            }
            match amount.checked_mul(f) {
                Some(x) => x,
                None => {
                    proof {
                        assert((amount * f) * 60 > i128::MAX) by (nonlinear_arith)
                            requires
                                amount * f > i128::MAX,
                        ;
                    }
                    return (None, None);
                },
            }
        };
        assert(remain == remaining(amount as int, cap as int));
        match times_sixty(remain) {
            Some(n) => (None, Some(sat_i64_of(trunc_div_i128(n, den)))),
            None => (None, None),
        }
    } else if opt_is(&b.status, "Discharging") {
        match (cap as i128).checked_mul(amount) {
            Some(x) => {
                assert(x * 60 == cap * amount * 60) by (nonlinear_arith)
                    requires
                        x == cap * amount,
                ;
                match times_sixty(x) {
                    Some(n) => (Some(sat_i64_of(trunc_div_i128(n, den))), None),
                    None => (None, None),
                }
            },
            None => {
                proof {
                    let y = cap * amount;
                    assert(!fits_i128(y * 60)) by (nonlinear_arith)
                        requires
                            y > i128::MAX || y < i128::MIN,
                    ;
                    assert(y * 60 == cap * amount * 60) by (nonlinear_arith)
                        requires
                            y == cap * amount,
                    ;
                }
                (None, None)
            },
        }
    } else {
        (None, None)
    }
}

/// Reads battery `dev` from its attributes; `None` unless its `type` is
/// `Battery`.
pub fn collect_device(dev: &str, a: &Attributes) -> (r: Option<BatteryInfo>)
    ensures
        a.text("type"@) != Some("Battery"@) ==> r is None,
        a.text("type"@) == Some("Battery"@) ==> (r matches Some(b) && describes(b, dev@, *a) && (
        b.time_to_empty_min, b.time_to_full_min) == estimate_times_spec(b)),
{
    if !a.is("type", "Battery") {
        return None;
    }
    let full_capacity = read_full_capacity(a);
    let preferred = match full_capacity {
        Some(f) => Some(f.kind),
        None => None,
    };
    let design_capacity = read_design_capacity(a, preferred);
    let health = health_basis_points(a, full_capacity, design_capacity);
    let voltage_now_uv = a.get_i64("voltage_now");
    let current_now_ua = a.get_i64("current_now");
    let power_now_uw = read_power(a, voltage_now_uv, current_now_ua);
    let present = match a.get_i64("present") {
        Some(v) => Some(v == 1),
        None => None,
    };
    let mut b = BatteryInfo {
        device: string_of(chars_of(dev).as_slice()),
        model: text_attr(a, "model_name"),
        manufacturer: text_attr(a, "manufacturer"),
        serial_number: text_attr(a, "serial_number"),
        technology: text_attr(a, "technology"),
        present,
        capacity: a.get_i64("capacity"),
        status: text_attr(a, "status"),
        health_status: text_attr(a, "health"),
        full_capacity,
        design_capacity,
        health_basis_points: health,
        cycle_count: a.get_i64("cycle_count"),
        state_of_health: a.get_i64("state_of_health"),
        voltage_now_uv,
        voltage_ocv_uv: a.get_i64("voltage_ocv"),
        voltage_max_uv: a.get_i64("voltage_max"),
        current_now_ua,
        power_now_uw,
        temperature_dc: a.get_i64("temp"),
        internal_resistance_uohm: a.get_i64("internal_resistance"),
        time_to_empty_min: None,
        time_to_full_min: None,
    };
    let (tte, ttf) = estimate_times(&b);
    b.time_to_empty_min = tte;
    b.time_to_full_min = ttf;
    Some(b)
}


/// Whether the attributes describe a battery.
pub open spec fn is_battery(a: Attributes) -> bool {
    a.text("type"@) == Some("Battery"@)
}

/// The positions of the batteries among `devices`, in order.
pub open spec fn battery_positions(devices: Seq<Device>) -> Seq<int>
    decreases devices.len(),
{
    if devices.len() == 0 {
        Seq::empty()
    } else {
        let rest = battery_positions(devices.drop_last());
        if is_battery(devices.last().attrs) {
            rest.push(devices.len() - 1)
        } else {
            rest
        }
    }
}

proof fn lemma_battery_positions_bounded(devices: Seq<Device>)
    ensures
        forall|k: int|
            0 <= k < battery_positions(devices).len() ==> 0 <= #[trigger] battery_positions(devices)[k]
                < devices.len(),
        battery_positions(devices).len() <= devices.len(),
    decreases devices.len(),
{
    if devices.len() > 0 {
        lemma_battery_positions_bounded(devices.drop_last());
    }
}

/// The names of the batteries among `devices`, in order.
pub fn list_batteries(devices: &[Device]) -> (r: Vec<String>)
    ensures
        r@.len() == battery_positions(devices@).len(),
        forall|k: int|
            0 <= k < r@.len() ==> #[trigger] r@[k]@ == devices@[battery_positions(devices@)[k]].name@,
{
    let mut out: Vec<String> = Vec::new();
    let mut i: usize = 0;
    while i < devices.len()
        invariant
            i <= devices@.len(),
            out@.len() == battery_positions(devices@.take(i as int)).len(),
            forall|k: int|
                0 <= k < out@.len() ==> #[trigger] out@[k]@ == devices@[battery_positions(
                    devices@.take(i as int),
                )[k]].name@,
        decreases devices@.len() - i,
    {
        let ghost pre = devices@.take(i as int);
        let ghost next = devices@.take(i + 1);
        assert(next.drop_last() =~= pre);
        if devices[i].attrs.is("type", "Battery") {
            out.push(devices[i].name.clone());
        }
        assert forall|k: int| 0 <= k < out@.len() implies #[trigger] out@[k]@ == devices@[battery_positions(
            next,
        )[k]].name@ by {
            if k < battery_positions(pre).len() {
                assert(battery_positions(next)[k] == battery_positions(pre)[k]);
            }
        }
        i += 1;
    }
    assert(devices@.take(devices@.len() as int) =~= devices@);
    out
}

/// The main battery: the first battery among `devices`.
pub fn find_battery(devices: &[Device]) -> (r: Option<String>)
    ensures
        battery_positions(devices@).len() == 0 ==> r is None,
        battery_positions(devices@).len() > 0 ==> (r matches Some(n) && n@ == devices@[battery_positions(
            devices@,
        )[0]].name@),
{
    let mut all = list_batteries(devices);
    if all.len() == 0 {
        None
    } else {
        Some(all.remove(0))
    }
}

/// Every battery among `devices`, in order.
pub fn collect_all(devices: &[Device]) -> (r: Vec<BatteryInfo>)
    ensures
        r@.len() == battery_positions(devices@).len(),
        forall|k: int|
            0 <= k < r@.len() ==> {
                let d = devices@[battery_positions(devices@)[k]];
                &&& describes(#[trigger] r@[k], d.name@, d.attrs)
                &&& (r@[k].time_to_empty_min, r@[k].time_to_full_min) == estimate_times_spec(r@[k])
            },
{
    let mut out: Vec<BatteryInfo> = Vec::new();
    let mut i: usize = 0;
    while i < devices.len()
        invariant
            i <= devices@.len(),
            out@.len() == battery_positions(devices@.take(i as int)).len(),
            forall|k: int|
                0 <= k < out@.len() ==> {
                    let d = devices@[battery_positions(devices@.take(i as int))[k]];
                    &&& describes(#[trigger] out@[k], d.name@, d.attrs)
                    &&& (out@[k].time_to_empty_min, out@[k].time_to_full_min) == estimate_times_spec(
                        out@[k],
                    )
                },
        decreases devices@.len() - i,
    {
        let ghost pre = devices@.take(i as int);
        let ghost next = devices@.take(i + 1);
        assert(next.drop_last() =~= pre);
        if let Some(b) = collect_device(devices[i].name.as_str(), &devices[i].attrs) {
            out.push(b);
        }
        assert forall|k: int| 0 <= k < out@.len() implies {
            let d = devices@[battery_positions(next)[k]];
            &&& describes(#[trigger] out@[k], d.name@, d.attrs)
            &&& (out@[k].time_to_empty_min, out@[k].time_to_full_min) == estimate_times_spec(out@[k])
        } by {
            if k < battery_positions(pre).len() {
                assert(battery_positions(next)[k] == battery_positions(pre)[k]);
            }
        }
        i += 1;
    }
    assert(devices@.take(devices@.len() as int) =~= devices@);
    out
}


/// The readings of the main battery, the first one among `devices`.
pub fn collect(devices: &[Device]) -> (r: Option<BatteryInfo>)
    ensures
        battery_positions(devices@).len() == 0 ==> r is None,
        battery_positions(devices@).len() > 0 ==> (r matches Some(b) && {
            let d = devices@[battery_positions(devices@)[0]];
            &&& describes(b, d.name@, d.attrs)
            &&& (b.time_to_empty_min, b.time_to_full_min) == estimate_times_spec(b)
        }),
{
    let mut all = collect_all(devices);
    if all.len() == 0 {
        None
    } else {
        Some(all.remove(0))
    }
}


// ------------------------------------------------------------------- laws

/// A battery that reports its charge (µAh) is estimated on its energy:
/// discharging at `|p|` µW with voltage `v` µV and `c` % of `q` µAh left,
/// it lasts `c·q·v / 10^6` µWh over `|p|` µW, in whole minutes (while the
/// dividend stays within `i128`).
pub proof fn lemma_charge_battery_minutes_to_empty(b: BatteryInfo, c: i64, q: i64, v: i64, p: i64)
    requires
        b.capacity == Some(c),
        b.full_capacity == Some(CapacityValue { raw: q, kind: CapacityKind::Charge }),
        b.voltage_now_uv == Some(v),
        b.power_now_uw == Some(p),
        opt_view(b.status) == Some("Discharging"@),
        0 <= c,
        0 <= q,
        0 < v,
        abs(p as int) >= 10_000,
        c * q * v * 60 <= i128::MAX,
    ensures
        estimate_times_spec(b) == (
            Some(sat_i64((c * q * v * 60) / (100 * 1_000_000 * abs(p as int)))),
            None::<i64>,
        ),
{
    reveal_strlit("Charging");
    reveal_strlit("Discharging");
    assert("Charging"@ != "Discharging"@) by {
        assert("Charging"@.len() != "Discharging"@.len());
    }
    let a = abs(p as int);
    assert(estimate_route(b) == Some((q * v, a, 1_000_000int, 10_000int)));
    assert(c * (q * v) * 60 == c * q * v * 60) by (nonlinear_arith);
    assert(100 * a * 1_000_000 == 100 * 1_000_000 * a) by (nonlinear_arith);
    assert(c * q * v * 60 >= 0) by (nonlinear_arith)
        requires
            0 <= c,
            0 <= q,
            0 < v,
    ;
}

/// Charging at `|p|` µW with voltage `v` µV and `c` % of `q` µAh in, a
/// charge-reporting battery is full after `(100 − c)·q·v / 10^6 / 100` µWh
/// over `|p|` µW, in whole minutes.
pub proof fn lemma_charge_battery_minutes_to_full(b: BatteryInfo, c: i64, q: i64, v: i64, p: i64)
    requires
        b.capacity == Some(c),
        b.full_capacity == Some(CapacityValue { raw: q, kind: CapacityKind::Charge }),
        b.voltage_now_uv == Some(v),
        b.power_now_uw == Some(p),
        opt_view(b.status) == Some("Charging"@),
        0 <= c <= 100,
        0 <= q,
        0 < v,
        abs(p as int) >= 10_000,
        (100 - c) * q * v * 60 <= i128::MAX,
    ensures
        estimate_times_spec(b) == (
            None::<i64>,
            Some(sat_i64(((100 - c) * q * v * 60) / (100 * 1_000_000 * abs(p as int)))),
        ),
{
    let a = abs(p as int);
    assert(estimate_route(b) == Some((q * v, a, 1_000_000int, 10_000int)));
    assert(q * v * (100 - c) == (100 - c) * q * v) by (nonlinear_arith);
    assert((100 - c) * q * v >= 0) by (nonlinear_arith)
        requires
            0 <= 100 - c,
            0 <= q,
            0 < v,
    ;
    assert(remaining(q * v, c as int) == (100 - c) * q * v);
    assert(100 * a * 1_000_000 == 100 * 1_000_000 * a) by (nonlinear_arith);
}

/// A battery that reports its energy (µWh), discharging at `|p|` µW with
/// `c` % of `e` µWh left, lasts `c·e / 100` µWh over `|p|` µW, in whole
/// minutes (while the dividend stays within `i128`).
pub proof fn lemma_energy_battery_minutes_to_empty(b: BatteryInfo, c: i64, e: i64, p: i64)
    requires
        b.capacity == Some(c),
        b.full_capacity == Some(CapacityValue { raw: e, kind: CapacityKind::Energy }),
        b.power_now_uw == Some(p),
        opt_view(b.status) == Some("Discharging"@),
        0 <= c,
        0 <= e,
        abs(p as int) >= 10_000,
        c * e * 60 <= i128::MAX,
    ensures
        estimate_times_spec(b) == (Some(sat_i64((c * e * 60) / (100 * abs(p as int)))), None::<i64>),
{
    reveal_strlit("Charging");
    reveal_strlit("Discharging");
    assert("Charging"@ != "Discharging"@) by {
        assert("Charging"@.len() != "Discharging"@.len());
    }
    let a = abs(p as int);
    assert(estimate_route(b) == Some((e as int, a, 1int, 10_000int)));
    assert(0 <= c * e * 60) by (nonlinear_arith)
        requires
            0 <= c,
            0 <= e,
    ;
    assert(100 * a * 1 == 100 * a);
}

/// A charge-reporting battery without a power reading is estimated on its
/// charge: discharging at `|i|` µA with `c` % of `q` µAh left, it lasts
/// `c·q / 100` µAh over `|i|` µA, in whole minutes.
pub proof fn lemma_charge_battery_by_current(b: BatteryInfo, c: i64, q: i64, i: i64)
    requires
        b.capacity == Some(c),
        b.full_capacity == Some(CapacityValue { raw: q, kind: CapacityKind::Charge }),
        b.power_now_uw is None,
        b.current_now_ua == Some(i),
        opt_view(b.status) == Some("Discharging"@),
        0 <= c,
        0 <= q,
        abs(i as int) >= 10,
        c * q * 60 <= i128::MAX,
    ensures
        estimate_times_spec(b) == (Some(sat_i64((c * q * 60) / (100 * abs(i as int)))), None::<i64>),
{
    reveal_strlit("Charging");
    reveal_strlit("Discharging");
    assert("Charging"@ != "Discharging"@) by {
        assert("Charging"@.len() != "Discharging"@.len());
    }
    assert(estimate_route(b) == Some((q as int, abs(i as int), 1int, 10int)));
    assert(0 <= c * q * 60) by (nonlinear_arith)
        requires
            0 <= c,
            0 <= q,
    ;
}

/// Under 0.01 W of power, an energy-reporting battery gets no estimate.
pub proof fn lemma_no_estimate_below_least_power(b: BatteryInfo, e: i64, p: i64)
    requires
        b.full_capacity == Some(CapacityValue { raw: e, kind: CapacityKind::Energy }),
        b.power_now_uw == Some(p),
        abs(p as int) < 10_000,
    ensures
        estimate_times_spec(b) == (None::<i64>, None::<i64>),
{
}

/// Only a charging or discharging battery is estimated.
pub proof fn lemma_estimate_needs_direction(b: BatteryInfo)
    requires
        opt_view(b.status) != Some("Charging"@),
        opt_view(b.status) != Some("Discharging"@),
    ensures
        estimate_times_spec(b) == (None::<i64>, None::<i64>),
{
}

} // verus!
