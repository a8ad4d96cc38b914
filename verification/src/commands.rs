//! What the program does on requests from the interface and the tray.

use vstd::prelude::*;
use crate::battery::{opt_is, opt_view, BatteryInfo};
use crate::power::PowerSource;
use crate::session::magnitude;
use crate::settings::CloseAction;

verus! {

/// One complete sample of the power system.
pub struct Snapshot {
    pub batteries: Vec<BatteryInfo>,
    pub sources: Vec<PowerSource>,
    pub timestamp_ms: u64,
}

/// What to do when the window's close button is pressed.
#[derive(Clone, Copy, PartialEq, Eq, Structural, Debug)]
pub enum CloseResponse {
    /// Store the insights and let the window close, which ends the program.
    StoreAndClose,
    /// Keep the window open but hidden; the program runs on in the tray.
    Hide,
    /// Keep the window open and ask the user.
    Ask,
}

/// The response to the close button under the setting `action`.
pub fn close_response(action: CloseAction) -> (r: CloseResponse)
    ensures
        r == match action {
            CloseAction::Exit => CloseResponse::StoreAndClose,
            CloseAction::Tray => CloseResponse::Hide,
            CloseAction::Ask => CloseResponse::Ask,
        },
{
    match action {
        CloseAction::Exit => CloseResponse::StoreAndClose,
        CloseAction::Tray => CloseResponse::Hide,
        CloseAction::Ask => CloseResponse::Ask,
    }
}

/// The change that brings the session's autostart in line with the
/// setting: `Some(true)` to enable it, `Some(false)` to disable it, `None`
/// when it already agrees.
pub fn autostart_change(want: bool, is_on: bool) -> (r: Option<bool>)
    ensures
        r == if want && !is_on {
            Some(true)
        } else if !want && is_on {
            Some(false)
        } else {
            None
        },
{
    if want && !is_on {
        Some(true)
    } else if !want && is_on {
        Some(false)
    } else {
        None
    }
}

/// An entry of the tray menu.
#[derive(Clone, Copy, PartialEq, Eq, Structural, Debug)]
pub enum TrayAction {
    /// Leave lightweight mode and show the window.
    Show,
    /// Switch lightweight mode as its check mark now says.
    Lightweight,
    /// Store the insights and quit.
    Quit,
}

/// The tray menu entry with identifier `id`.
pub fn tray_action(id: &str) -> (r: Option<TrayAction>)
    ensures
        r == if id@ == "show"@ {
            Some(TrayAction::Show)
        } else if id@ == "lightweight"@ {
            Some(TrayAction::Lightweight)
        } else if id@ == "quit"@ {
            Some(TrayAction::Quit)
        } else {
            None
        },
{
    if crate::text::str_eq(id, "show") {
        Some(TrayAction::Show)
    } else if crate::text::str_eq(id, "lightweight") {
        Some(TrayAction::Lightweight)
    } else if crate::text::str_eq(id, "quit") {
        Some(TrayAction::Quit)
    } else {
        None
    }
}

/// The powers (µW, in magnitude) of the discharging batteries that report
/// one, summed; none when no such battery.
pub open spec fn discharge_sum(bs: Seq<BatteryInfo>) -> Option<int>
    decreases bs.len(),
{
    if bs.len() == 0 {
        None
    } else {
        let r = discharge_sum(bs.drop_last());
        let b = bs.last();
        if opt_view(b.status) == Some("Discharging"@) && b.power_now_uw is Some {
            let p = magnitude(b.power_now_uw.unwrap()) as int;
            match r {
                Some(s) => Some(s + p),
                None => Some(p),
            }
        } else {
            r
        }
    }
}

/// The battery power the per-application estimate shares out: the sum of
/// the powers of the discharging batteries, in µW.
pub fn discharge_power_uw(batteries: &[BatteryInfo]) -> (r: Option<u128>)
    ensures
        r == match discharge_sum(batteries@) {
            Some(s) => Some(s as u128),
            None => None,
        },
{
    let mut total: Option<u128> = None;
    let mut i: usize = 0;
    while i < batteries.len()
        invariant
            i <= batteries@.len(),
            total == match discharge_sum(batteries@.take(i as int)) {
                Some(s) => Some(s as u128),
                None => None,
            },
            match discharge_sum(batteries@.take(i as int)) {
                Some(s) => 0 <= s <= i * 0x8000_0000_0000_0000,
                None => true,
            },
        decreases batteries@.len() - i,
    {
        let ghost t = batteries@.take(i + 1);
        assert(t.drop_last() =~= batteries@.take(i as int));
        assert(t.last() == batteries@[i as int]);
        if opt_is(&batteries[i].status, "Discharging") {
            if let Some(p) = batteries[i].power_now_uw {
                let m: u128 = if p < 0 {
                    (0i128 - (p as i128)) as u128
                } else {
                    p as u128
                };
                total = match total {
                    Some(s) => Some(s + m),
                    None => Some(m),
                };
            }
        }
        i += 1;
    }
    assert(batteries@.take(i as int) =~= batteries@);
    total
}

} // verus!
