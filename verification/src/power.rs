//! Power inputs: every `power_supply` device that is not a battery (USB,
//! mains, wireless and the like), classified by its `type`.

use vstd::prelude::*;
use crate::battery::{opt_view, text_attr};
use crate::num::{round_div, round_div_i128, sat_i64, sat_i64_of, lemma_mul_abs_bound};
use crate::sysfs::{Attributes, Device};
use crate::text::{chars_of, string_of};

verus! {

/// One power input.
#[derive(Debug)]
pub struct PowerSource {
    pub name: String,
    /// The device `type`: `USB`, `Mains`, `Wireless`, …
    pub kind: String,
    pub online: Option<bool>,
    /// µV.
    pub voltage_now_uv: Option<i64>,
    /// µA.
    pub current_now_ua: Option<i64>,
    /// µA.
    pub current_max_ua: Option<i64>,
    /// µW.
    pub power_now_uw: Option<i64>,
    /// The selected USB charging protocol.
    pub usb_type: Option<String>,
}

/// Whether `i` is the first position of `c` in `s`.
pub open spec fn is_first(s: Seq<char>, c: char, i: int) -> bool {
    0 <= i < s.len() && s[i] == c && forall|j: int| 0 <= j < i ==> s[j] != c
}

/// The first position of `c` in `s`, if any.
pub open spec fn first_index(s: Seq<char>, c: char) -> Option<int> {
    if exists|i: int| is_first(s, c, i) {
        Some(choose|i: int| is_first(s, c, i))
    } else {
        None
    }
}

/// The selected entry of a `usb_type` attribute such as
/// `"[Unknown] SDP DCP CDP PD"`: the text between the first `[` and the
/// first `]`, when that is not empty.
pub open spec fn usb_type_of(raw: Seq<char>) -> Option<Seq<char>> {
    match (first_index(raw, '['), first_index(raw, ']')) {
        (Some(s), Some(e)) => if e > s + 1 {
            Some(raw.subrange(s + 1, e))
        } else {
            None
        },
        _ => None,
    }
}

proof fn lemma_first_unique(s: Seq<char>, c: char, i: int, k: int)
    requires
        is_first(s, c, i),
        is_first(s, c, k),
    ensures
        i == k,
{
    if i < k {
        assert(s[i] != c);
    } else if k < i {
        assert(s[k] != c);
    }
}

fn find_char(s: &[char], c: char) -> (r: Option<usize>)
    ensures
        match r {
            Some(i) => first_index(s@, c) == Some(i as int),
            None => first_index(s@, c) is None,
        },
{
    let mut i: usize = 0;
    while i < s.len()
        invariant
            i <= s@.len(),
            forall|j: int| 0 <= j < i ==> s@[j] != c,
        decreases s@.len() - i,
    {
        if s[i] == c {
            proof {
                assert(is_first(s@, c, i as int));
                let k = choose|k: int| is_first(s@, c, k);
                lemma_first_unique(s@, c, i as int, k);
            }
            return Some(i);
        }
        i += 1;
    }
    proof {
        if exists|k: int| is_first(s@, c, k) {
            let k = choose|k: int| is_first(s@, c, k);
            assert(s@[k] != c);
        }
    }
    None
}

/// The selected USB type in a `usb_type` attribute.
pub fn parse_usb_type(raw: &str) -> (r: Option<String>)
    ensures
        opt_view(r) == usb_type_of(raw@),
{
    let c = chars_of(raw);
    let s = find_char(c.as_slice(), '[');
    let e = find_char(c.as_slice(), ']');
    match (s, e) {
        (Some(s), Some(e)) => {
            if e > s && e - s > 1 {
                let mut v: Vec<char> = Vec::new();
                let mut i = s + 1;
                while i < e
                    invariant
                        s + 1 <= i <= e <= c@.len(),
                        v@ == c@.subrange(s + 1, i as int),
                    decreases e - i,
                {
                    v.push(c[i]);
                    i += 1;
                    assert(v@ =~= c@.subrange(s + 1, i as int));
                }
                Some(string_of(v.as_slice()))
            } else {
                None
            }
        },
        _ => None,
    }
}

/// Power of an input (µW): `power_now`, else voltage × current.
pub open spec fn source_power_of(a: Attributes) -> Option<i64> {
    match a.int_value("power_now"@) {
        Some(p) => Some(p),
        None => match (a.int_value("voltage_now"@), a.int_value("current_now"@)) {
            (Some(v), Some(i)) => Some(sat_i64(round_div(v * i, 1_000_000))),
            _ => None,
        },
    }
}

/// Everything `collect_one` reads from the attributes of input `dev`.
pub open spec fn describes_source(p: PowerSource, dev: Seq<char>, a: Attributes) -> bool {
    &&& p.name@ == dev
    &&& Some(p.kind@) == a.text("type"@)
    &&& p.online == (match a.int_value("online"@) {
        Some(v) => Some(v == 1),
        None => None,
    })
    &&& p.voltage_now_uv == a.int_value("voltage_now"@)
    &&& p.current_now_ua == a.int_value("current_now"@)
    &&& p.current_max_ua == a.int_value("current_max"@)
    &&& p.power_now_uw == source_power_of(a)
    &&& opt_view(p.usb_type) == match a.text("usb_type"@) {
        Some(t) => usb_type_of(t),
        None => None,
    }
}

/// Whether the device's attributes make it a power input: it has a `type`
/// and that is not `Battery`.
pub open spec fn is_input(a: Attributes) -> bool {
    a.text("type"@) is Some && a.text("type"@) != Some("Battery"@)
}

/// Reads input `dev`; `None` for a battery or a device without a type.
pub fn collect_one(dev: &str, a: &Attributes) -> (r: Option<PowerSource>)
    ensures
        !is_input(*a) ==> r is None,
        is_input(*a) ==> (r matches Some(p) && describes_source(p, dev@, *a)),
{
    let kind = match text_attr(a, "type") {
        Some(k) => k,
        None => return None,
    };
    if a.is("type", "Battery") {
        return None;
    }
    let voltage = a.get_i64("voltage_now");
    let current = a.get_i64("current_now");
    let power = match a.get_i64("power_now") {
        Some(p) => Some(p),
        None => match (voltage, current) {
            (Some(v), Some(i)) => {
                proof {
                    lemma_mul_abs_bound(v as int, i as int, 0x8000_0000_0000_0000, 0x8000_0000_0000_0000);
                }
                Some(sat_i64_of(round_div_i128((v as i128) * (i as i128), 1_000_000)))
            },
            _ => None,
        },
    };
    let online = match a.get_i64("online") {
        Some(v) => Some(v == 1),
        None => None,
    };
    let usb_type = match a.get("usb_type") {
        Some(t) => parse_usb_type(string_of(t.as_slice()).as_str()),
        None => None,
    };
    Some(
        PowerSource {
            name: string_of(chars_of(dev).as_slice()),
            kind,
            online,
            voltage_now_uv: voltage,
            current_now_ua: current,
            current_max_ua: a.get_i64("current_max"),
            power_now_uw: power,
            usb_type,
        },
    )
}

/// The positions of the power inputs among `devices`, in order.
pub open spec fn input_positions(devices: Seq<Device>) -> Seq<int>
    decreases devices.len(),
{
    if devices.len() == 0 {
        Seq::empty()
    } else {
        let rest = input_positions(devices.drop_last());
        if is_input(devices.last().attrs) {
            rest.push(devices.len() - 1)
        } else {
            rest
        }
    }
}

proof fn lemma_input_positions_bounded(devices: Seq<Device>)
    ensures
        forall|k: int|
            0 <= k < input_positions(devices).len() ==> 0 <= #[trigger] input_positions(devices)[k]
                < devices.len(),
        input_positions(devices).len() <= devices.len(),
    decreases devices.len(),
{
    if devices.len() > 0 {
        lemma_input_positions_bounded(devices.drop_last());
    }
}

/// Every power input among `devices`, in their order.
pub fn collect(devices: &[Device]) -> (r: Vec<PowerSource>)
    ensures
        r@.len() == input_positions(devices@).len(),
        forall|k: int|
            0 <= k < r@.len() ==> describes_source(
                #[trigger] r@[k],
                devices@[input_positions(devices@)[k]].name@,
                devices@[input_positions(devices@)[k]].attrs,
            ),
{
    let mut out: Vec<PowerSource> = Vec::new();
    let mut i: usize = 0;
    while i < devices.len()
        invariant
            i <= devices@.len(),
            out@.len() == input_positions(devices@.take(i as int)).len(),
            forall|k: int|
                0 <= k < out@.len() ==> describes_source(
                    #[trigger] out@[k],
                    devices@[input_positions(devices@.take(i as int))[k]].name@,
                    devices@[input_positions(devices@.take(i as int))[k]].attrs,
                ),
        decreases devices@.len() - i,
    {
        let d = &devices[i];
        let ghost pre = devices@.take(i as int);
        let ghost next = devices@.take(i + 1);
        assert(next.drop_last() =~= pre);
        proof {
            lemma_input_positions_bounded(pre);
        }
        if let Some(p) = collect_one(d.name.as_str(), &d.attrs) {
            out.push(p);
        }
        assert forall|k: int| 0 <= k < out@.len() implies describes_source(
            #[trigger] out@[k],
            devices@[input_positions(next)[k]].name@,
            devices@[input_positions(next)[k]].attrs,
        ) by {
            if k < input_positions(pre).len() {
                assert(input_positions(next)[k] == input_positions(pre)[k]);
            }
        }
        i += 1;
    }
    assert(devices@.take(devices@.len() as int) =~= devices@);
    out
}

} // verus!
