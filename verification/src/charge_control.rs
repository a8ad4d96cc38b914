//! Charge thresholds (experimental): `charge_control_start_threshold` and
//! `charge_control_end_threshold` of a battery.
//!
//! Whether firmware honours the values is not known on every machine, and
//! the files belong to root; the library reports what it finds and never
//! claims success it has not seen.

use vstd::prelude::*;
use crate::sysfs::{attr_path, read_i64};
use crate::text::{chars_of, extend_chars, extend_str, i64_decimal, int_decimal, parse_i64_spec, string_of, trim};

verus! {

/// What the interface shows of the charge thresholds.
#[derive(Debug)]
pub struct ChargeControl {
    /// Both threshold files exist.
    pub supported: bool,
    /// Current end threshold (%); 0 usually means no limit.
    pub end_threshold: i64,
    /// Current start threshold (%).
    pub start_threshold: i64,
    /// The process may write the end threshold.
    pub writable: bool,
    pub experimental_note: String,
}

/// The content of a threshold file read as an integer, 0 when missing or
/// unreadable.
pub open spec fn threshold_of(raw: Option<Seq<char>>) -> i64 {
    match raw {
        Some(t) => match parse_i64_spec(trim(t)) {
            Some(v) => v,
            None => 0,
        },
        None => 0,
    }
}

/// The state of the thresholds from what was found: whether each file
/// exists, their contents, and whether the end threshold opens for writing.
pub fn status(
    end_exists: bool,
    start_exists: bool,
    end_raw: Option<&str>,
    start_raw: Option<&str>,
    end_writable: bool,
) -> (r: ChargeControl)
    ensures
        r.supported == (end_exists && start_exists),
        r.end_threshold == threshold_of(
            match end_raw {
                Some(s) => Some(s@),
                None => None,
            },
        ),
        r.start_threshold == threshold_of(
            match start_raw {
                Some(s) => Some(s@),
                None => None,
            },
        ),
        r.writable == (r.supported && end_writable),
        r.supported ==> r.experimental_note@ == "接口存在，但本机固件是否真正执行充电封顶尚未实测验证。属实验性功能。"@,
        !r.supported ==> r.experimental_note@ == "本设备未暴露充电阈值接口。"@,
{
    let supported = end_exists && start_exists;
    let end_threshold = match end_raw {
        Some(s) => match read_i64(s) {
            Some(v) => v,
            None => 0,
        },
        None => 0,
    };
    let start_threshold = match start_raw {
        Some(s) => match read_i64(s) {
            Some(v) => v,
            None => 0,
        },
        None => 0,
    };
    let note = if supported {
        "接口存在，但本机固件是否真正执行充电封顶尚未实测验证。属实验性功能。"
    } else {
        "本设备未暴露充电阈值接口。"
    };
    ChargeControl {
        supported,
        end_threshold,
        start_threshold,
        writable: supported && end_writable,
        experimental_note: string_of(chars_of(note).as_slice()),
    }
}

/// Why a pair of thresholds is refused (after TLP: both in 0..=100, end
/// not 0, start below end); `None` when it is accepted.
pub open spec fn threshold_error(start: int, end: int) -> Option<Seq<char>> {
    if !(0 <= start <= 100) || !(0 <= end <= 100) {
        Some("阈值必须在 0–100 之间"@)
    } else if end == 0 {
        Some("封顶值不能为 0（0 表示取消限制，请用 clear 操作）"@)
    } else if start >= end {
        Some("恢复充电值("@ + int_decimal(start) + ") 必须小于封顶值("@ + int_decimal(end) + ")"@)
    } else {
        None
    }
}

/// Checks a pair of thresholds.
pub fn validate(start: i64, end: i64) -> (r: Result<(), String>)
    ensures
        match r {
            Ok(()) => threshold_error(start as int, end as int) is None,
            Err(e) => threshold_error(start as int, end as int) == Some(e@),
        },
{
    if !(0 <= start && start <= 100) || !(0 <= end && end <= 100) {
        return Err(string_of(chars_of("阈值必须在 0–100 之间").as_slice()));
    }
    if end == 0 {
        return Err(string_of(chars_of("封顶值不能为 0（0 表示取消限制，请用 clear 操作）").as_slice()));
    }
    if start >= end {
        let mut m: Vec<char> = Vec::new();
        extend_str(&mut m, "恢复充电值(");
        extend_chars(&mut m, i64_decimal(start).as_slice());
        extend_str(&mut m, ") 必须小于封顶值(");
        extend_chars(&mut m, i64_decimal(end).as_slice());
        extend_str(&mut m, ")");
        assert(m@ =~= "恢复充电值("@ + int_decimal(start as int) + ") 必须小于封顶值("@ + int_decimal(
            end as int,
        ) + ")"@);
        return Err(string_of(m.as_slice()));
    }
    Ok(())
}

/// The answer to a request to set the thresholds of `dev`: the refusal, or
/// the message to give once the caller has written the start and then the
/// end threshold (some drivers want start ≤ end at every moment).
pub open spec fn apply_answer(dev: Seq<char>, start: int, end: int, st: ChargeControl) -> Result<
    Seq<char>,
    Seq<char>,
> {
    match threshold_error(start, end) {
        Some(e) => Err(e),
        None => if !st.supported {
            Err("本设备不支持充电阈值控制"@)
        } else if !st.writable {
            Err(
                "无写入权限："@ + attr_path(dev, "charge_control_end_threshold"@)
                    + " 属 root 所有。需以 root 运行或配置 polkit/udev 规则后重试。"@,
            )
        } else {
            Ok(
                "已写入：恢复 "@ + int_decimal(start) + "% / 封顶 "@ + int_decimal(end)
                    + "%（请观察实际充电是否在封顶处停止以确认是否生效）"@,
            )
        },
    }
}

/// Decides a request to set the thresholds of `dev` given their state `st`.
pub fn apply(dev: &str, start: i64, end: i64, st: &ChargeControl) -> (r: Result<String, String>)
    ensures
        match r {
            Ok(m) => apply_answer(dev@, start as int, end as int, *st) == Ok::<Seq<char>, Seq<char>>(m@),
            Err(e) => apply_answer(dev@, start as int, end as int, *st) == Err::<Seq<char>, Seq<char>>(e@),
        },
{
    match validate(start, end) {
        Err(e) => return Err(e),
        Ok(()) => {},
    }
    if !st.supported {
        return Err(string_of(chars_of("本设备不支持充电阈值控制").as_slice()));
    }
    if !st.writable {
        let mut m: Vec<char> = Vec::new();
        extend_str(&mut m, "无写入权限：");
        extend_str(&mut m, "/sys/class/power_supply/");
        extend_str(&mut m, dev);
        extend_str(&mut m, "/");
        extend_str(&mut m, "charge_control_end_threshold");
        extend_str(&mut m, " 属 root 所有。需以 root 运行或配置 polkit/udev 规则后重试。");
        assert(m@ =~= "无写入权限："@ + attr_path(dev@, "charge_control_end_threshold"@)
            + " 属 root 所有。需以 root 运行或配置 polkit/udev 规则后重试。"@);
        return Err(string_of(m.as_slice()));
    }
    let mut m: Vec<char> = Vec::new();
    extend_str(&mut m, "已写入：恢复 ");
    extend_chars(&mut m, i64_decimal(start).as_slice());
    extend_str(&mut m, "% / 封顶 ");
    extend_chars(&mut m, i64_decimal(end).as_slice());
    extend_str(&mut m, "%（请观察实际充电是否在封顶处停止以确认是否生效）");
    assert(m@ =~= "已写入：恢复 "@ + int_decimal(start as int) + "% / 封顶 "@ + int_decimal(end as int)
        + "%（请观察实际充电是否在封顶处停止以确认是否生效）"@);
    Ok(string_of(m.as_slice()))
}


/// Thresholds are written only when they are valid (both in 0–100, the
/// end above zero and above the start) and the device supports and lets
/// the process write them; invalid thresholds are refused with the
/// validation's error whatever the device.
pub proof fn lemma_apply_only_valid(dev: Seq<char>, start: int, end: int, st: ChargeControl)
    ensures
        apply_answer(dev, start, end, st) is Ok ==> threshold_error(start, end) is None && st.supported
            && st.writable,
        threshold_error(start, end) is Some ==> apply_answer(dev, start, end, st) == Err::<Seq<char>, Seq<char>>(
            threshold_error(start, end).unwrap(),
        ),
{
}

/// A pair of thresholds is accepted exactly when both lie in 0–100 and
/// charging resumes strictly below where it stops; so any pair written to
/// a device has its start below its end.
pub proof fn lemma_thresholds_accepted(dev: Seq<char>, start: int, end: int, st: ChargeControl)
    ensures
        threshold_error(start, end) is None <==> 0 <= start < end <= 100,
        apply_answer(dev, start, end, st) is Ok ==> 0 <= start < end <= 100,
{
}

} // verus!
