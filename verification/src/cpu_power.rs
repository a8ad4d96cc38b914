//! CPU and GPU frequency limits for the super power-saving mode: each
//! cpufreq policy and each devfreq GPU is capped at 45 % of its hardware
//! maximum, rounded down to a frequency the hardware offers.

use vstd::prelude::*;
use crate::sysfs::{Attributes, views};
use crate::text::{
    ascii_lowercase, chars_of, contains_chars, contains_seq, extend_str, lowercase_chars,
    parse_i64, parse_i64_spec, split_words, str_eq, string_of, trim, trim_chars, words,
};

verus! {

/// The cap, in percent of the hardware maximum.
pub const SUPER_LIMIT_PERCENT: i64 = 45;

/// One cpufreq policy.
#[derive(Debug)]
pub struct CpuPolicy {
    pub name: String,
    pub affected_cpus: String,
    pub current_freq: Option<i64>,
    pub max_freq: Option<i64>,
    pub hardware_max_freq: Option<i64>,
    pub target_freq: Option<i64>,
}

/// One devfreq GPU.
#[derive(Debug)]
pub struct GpuPolicy {
    pub name: String,
    pub current_freq: Option<i64>,
    pub max_freq: Option<i64>,
    pub hardware_max_freq: Option<i64>,
    pub target_freq: Option<i64>,
}

/// The state of the power-saving mode.
#[derive(Debug)]
pub struct CpuPowerState {
    pub supported: bool,
    pub active: bool,
    pub policies: Vec<CpuPolicy>,
    pub gpus: Vec<GpuPolicy>,
    pub message: String,
}

/// The integers among `ws`, in order (`filter_map(parse().ok())`).
pub open spec fn parsed_ints(ws: Seq<Seq<char>>) -> Seq<i64>
    decreases ws.len(),
{
    if ws.len() == 0 {
        Seq::empty()
    } else {
        let rest = parsed_ints(ws.drop_last());
        match parse_i64_spec(ws.last()) {
            Some(v) => rest.push(v),
            None => rest,
        }
    }
}

/// The frequencies listed in an `available_frequencies` attribute.
pub open spec fn freqs_of(text: Option<Seq<char>>) -> Seq<i64> {
    match text {
        Some(t) => parsed_ints(words(t)),
        None => Seq::empty(),
    }
}

/// The frequencies listed in attribute text `raw`.
pub fn available_freqs(raw: Option<Vec<char>>) -> (r: Vec<i64>)
    ensures
        r@ == freqs_of(
            match raw {
                Some(v) => Some(v@),
                None => None,
            },
        ),
{
    let t = match raw {
        Some(t) => t,
        None => return Vec::new(),
    };
    let ws = split_words(t.as_slice());
    let ghost w = words(t@);
    let mut out: Vec<i64> = Vec::new();
    let mut i: usize = 0;
    while i < ws.len()
        invariant
            i <= ws@.len(),
            ws@.len() == w.len(),
            forall|k: int| 0 <= k < ws@.len() ==> #[trigger] ws@[k]@ == w[k],
            out@ == parsed_ints(w.take(i as int)),
        decreases ws@.len() - i,
    {
        assert(w.take(i + 1).drop_last() =~= w.take(i as int));
        assert(ws@[i as int]@ == w[i as int]);
        if let Some(v) = parse_i64(ws[i].as_slice()) {
            out.push(v);
        }
        i += 1;
    }
    assert(w.take(w.len() as int) =~= w);
    out
}

/// 45 % of `max` (rounded toward zero), but not below `min`.
pub open spec fn scaled_target(max: i64, min: i64) -> i64 {
    let t = (if max >= 0 {
        (max * 45) / 100
    } else {
        -((-(max * 45)) / 100)
    }) as i64;
    if t > min {
        t
    } else {
        min
    }
}

/// Whether `v` is the frequency chosen from `freqs` for `target`: the
/// target itself when none is listed, else the highest listed frequency not
/// above it, else the lowest listed one.
pub open spec fn picks(freqs: Seq<i64>, target: i64, v: i64) -> bool {
    if freqs.len() == 0 {
        v == target
    } else if exists|i: int| 0 <= i < freqs.len() && freqs[i] <= target {
        &&& freqs.contains(v)
        &&& v <= target
        &&& forall|i: int| 0 <= i < freqs.len() && freqs[i] <= target ==> freqs[i] <= v
    } else {
        &&& freqs.contains(v)
        &&& forall|i: int| 0 <= i < freqs.len() ==> v <= freqs[i]
    }
}

fn scaled(max: i64, min: i64) -> (r: i64)
    ensures
        r == scaled_target(max, min),
{
    let m: i128 = (max as i128) * 45;
    let t: i128 = if m >= 0 {
        m / 100
    } else {
        -((-m) / 100)
    };
    let t: i64 = t as i64;
    if t > min {
        t
    } else {
        min
    }
}

fn pick(freqs: &Vec<i64>, target: i64) -> (r: i64)
    ensures
        picks(freqs@, target, r),
{
    if freqs.len() == 0 {
        return target;
    }
    let mut best: Option<i64> = None;
    let mut lowest: i64 = freqs[0];
    let mut i: usize = 0;
    while i < freqs.len()
        invariant
            i <= freqs@.len(),
            freqs@.len() > 0,
            freqs@.contains(lowest),
            forall|k: int| 0 <= k < i ==> lowest <= freqs@[k],
            match best {
                Some(b) => freqs@.contains(b) && b <= target && forall|k: int|
                    0 <= k < i && freqs@[k] <= target ==> freqs@[k] <= b,
                None => forall|k: int| 0 <= k < i ==> freqs@[k] > target,
            },
        decreases freqs@.len() - i,
    {
        let f = freqs[i];
        if f < lowest {
            lowest = f;
        }
        if f <= target {
            match best {
                Some(b) => if f > b {
                    best = Some(f);
                },
                None => best = Some(f),
            }
        }
        i += 1;
    }
    match best {
        Some(b) => b,
        None => lowest,
    }
}

/// The cap for a cpufreq policy: `cpuinfo_max_freq` scaled, at least
/// `cpuinfo_min_freq`, fitted to `scaling_available_frequencies`.
pub open spec fn policy_target(a: Attributes, v: Option<i64>) -> bool {
    match a.int_value("cpuinfo_max_freq"@) {
        None => v is None,
        Some(max) => {
            let min = match a.int_value("cpuinfo_min_freq"@) {
                Some(m) => m,
                None => 0,
            };
            v matches Some(x) && picks(
                freqs_of(a.text("scaling_available_frequencies"@)),
                scaled_target(max, min),
                x,
            )
        },
    }
}

/// The cap of a cpufreq policy.
pub fn target_freq(a: &Attributes) -> (r: Option<i64>)
    ensures
        policy_target(*a, r),
{
    let max = match a.get_i64("cpuinfo_max_freq") {
        Some(m) => m,
        None => return None,
    };
    let min = match a.get_i64("cpuinfo_min_freq") {
        Some(m) => m,
        None => 0,
    };
    let freqs = available_freqs(a.get("scaling_available_frequencies"));
    Some(pick(&freqs, scaled(max, min)))
}

/// Whether `v` is the hardware maximum of a GPU: the highest listed
/// frequency, else `max_freq`.
pub open spec fn gpu_max_is(a: Attributes, v: Option<i64>) -> bool {
    let freqs = freqs_of(a.text("available_frequencies"@));
    if freqs.len() == 0 {
        v == a.int_value("max_freq"@)
    } else {
        v matches Some(x) && freqs.contains(x) && forall|i: int| 0 <= i < freqs.len() ==> freqs[i] <= x
    }
}

/// The hardware maximum of a GPU.
pub fn gpu_hardware_max_freq(a: &Attributes) -> (r: Option<i64>)
    ensures
        gpu_max_is(*a, r),
{
    let freqs = available_freqs(a.get("available_frequencies"));
    if freqs.len() == 0 {
        return a.get_i64("max_freq");
    }
    let mut best = freqs[0];
    let mut i: usize = 1;
    while i < freqs.len()
        invariant
            1 <= i <= freqs@.len(),
            freqs@.contains(best),
            forall|k: int| 0 <= k < i ==> freqs@[k] <= best,
        decreases freqs@.len() - i,
    {
        if freqs[i] > best {
            best = freqs[i];
        }
        i += 1;
    }
    Some(best)
}

/// The cap for a GPU: its hardware maximum scaled, at least `min_freq`,
/// fitted to `available_frequencies`.
pub open spec fn gpu_target(a: Attributes, v: Option<i64>) -> bool {
    exists|hw: Option<i64>|
        gpu_max_is(a, hw) && match hw {
            None => v is None,
            Some(max) => {
                let min = match a.int_value("min_freq"@) {
                    Some(m) => m,
                    None => 0,
                };
                v matches Some(x) && picks(
                    freqs_of(a.text("available_frequencies"@)),
                    scaled_target(max, min),
                    x,
                )
            },
        }
}

/// The cap of a GPU.
pub fn target_gpu_freq(a: &Attributes) -> (r: Option<i64>)
    ensures
        gpu_target(*a, r),
{
    let hw = gpu_hardware_max_freq(a);
    let max = match hw {
        Some(m) => m,
        None => return None,
    };
    let min = match a.get_i64("min_freq") {
        Some(m) => m,
        None => 0,
    };
    let freqs = available_freqs(a.get("available_frequencies"));
    let r = Some(pick(&freqs, scaled(max, min)));
    assert(gpu_max_is(*a, hw));
    r
}

/// Whether `p` describes the policy `name` with attributes `a`.
pub open spec fn describes_policy(p: CpuPolicy, name: Seq<char>, a: Attributes) -> bool {
    &&& p.name@ == name
    &&& Some(p.affected_cpus@) == (match a.text("affected_cpus"@) {
        Some(t) => Some(t),
        None => Some("?"@),
    })
    &&& p.current_freq == a.int_value("scaling_cur_freq"@)
    &&& p.max_freq == a.int_value("scaling_max_freq"@)
    &&& p.hardware_max_freq == a.int_value("cpuinfo_max_freq"@)
    &&& policy_target(a, p.target_freq)
}

/// Whether `g` describes the GPU `name` with attributes `a`.
pub open spec fn describes_gpu(g: GpuPolicy, name: Seq<char>, a: Attributes) -> bool {
    &&& g.name@ == name
    &&& g.current_freq == a.int_value("cur_freq"@)
    &&& g.max_freq == a.int_value("max_freq"@)
    &&& gpu_max_is(a, g.hardware_max_freq)
    &&& gpu_target(a, g.target_freq)
}

/// A cpufreq policy described from its directory's attributes.
pub fn collect_policy(name: &str, a: &Attributes) -> (r: CpuPolicy)
    ensures
        describes_policy(r, name@, *a),
{
    let affected = match a.get("affected_cpus") {
        Some(t) => string_of(t.as_slice()),
        None => string_of(chars_of("?").as_slice()),
    };
    CpuPolicy {
        name: string_of(chars_of(name).as_slice()),
        affected_cpus: affected,
        current_freq: a.get_i64("scaling_cur_freq"),
        max_freq: a.get_i64("scaling_max_freq"),
        hardware_max_freq: a.get_i64("cpuinfo_max_freq"),
        target_freq: target_freq(a),
    }
}

/// A GPU described from its directory's attributes.
pub fn collect_gpu(name: &str, a: &Attributes) -> (r: GpuPolicy)
    ensures
        describes_gpu(r, name@, *a),
{
    GpuPolicy {
        name: string_of(chars_of(name).as_slice()),
        current_freq: a.get_i64("cur_freq"),
        max_freq: a.get_i64("max_freq"),
        hardware_max_freq: gpu_hardware_max_freq(a),
        target_freq: target_gpu_freq(a),
    }
}

/// Whether a limit is in force: the current maximum is known, the target
/// is known, and the maximum does not exceed the target.
pub open spec fn capped(max: Option<i64>, target: Option<i64>) -> bool {
    match (max, target) {
        (Some(m), Some(t)) => m <= t,
        _ => false,
    }
}

/// The mode is active when every policy and every GPU is capped.
pub open spec fn all_capped(p: Seq<CpuPolicy>, g: Seq<GpuPolicy>) -> bool {
    &&& forall|i: int| 0 <= i < p.len() ==> capped(#[trigger] p[i].max_freq, p[i].target_freq)
    &&& forall|i: int| 0 <= i < g.len() ==> capped(#[trigger] g[i].max_freq, g[i].target_freq)
}

/// The state of the mode over the policies and GPUs found.
pub fn state(policies: Vec<CpuPolicy>, gpus: Vec<GpuPolicy>) -> (r: CpuPowerState)
    ensures
        r.policies@ == policies@,
        r.gpus@ == gpus@,
        r.supported == (policies@.len() > 0 || gpus@.len() > 0),
        r.active == (r.supported && all_capped(policies@, gpus@)),
        !r.supported ==> r.message@ == "未检测到可调节的 CPU/GPU 频率策略"@,
        r.supported && r.active ==> r.message@ == "超级省电模式已限制 CPU/GPU 频率上限"@,
        r.supported && !r.active ==> r.message@ == "CPU/GPU 频率上限处于默认或更高性能状态"@,
{
    if policies.len() == 0 && gpus.len() == 0 {
        return CpuPowerState {
            supported: false,
            active: false,
            policies,
            gpus,
            message: string_of(chars_of("未检测到可调节的 CPU/GPU 频率策略").as_slice()),
        };
    }
    let mut active = true;
    let mut i: usize = 0;
    while i < policies.len()
        invariant
            i <= policies@.len(),
            active == forall|k: int| 0 <= k < i ==> capped(#[trigger] policies@[k].max_freq, policies@[k].target_freq),
        decreases policies@.len() - i,
    {
        let ok = match (policies[i].max_freq, policies[i].target_freq) {
            (Some(m), Some(t)) => m <= t,
            _ => false,
        };
        active = active && ok;
        i += 1;
    }
    let mut j: usize = 0;
    while j < gpus.len()
        invariant
            j <= gpus@.len(),
            active == ((forall|k: int| 0 <= k < policies@.len() ==> capped(#[trigger] policies@[k].max_freq, policies@[k].target_freq))
                && forall|k: int| 0 <= k < j ==> capped(#[trigger] gpus@[k].max_freq, gpus@[k].target_freq)),
        decreases gpus@.len() - j,
    {
        let ok = match (gpus[j].max_freq, gpus[j].target_freq) {
            (Some(m), Some(t)) => m <= t,
            _ => false,
        };
        active = active && ok;
        j += 1;
    }
    let message = if active {
        "超级省电模式已限制 CPU/GPU 频率上限"
    } else {
        "CPU/GPU 频率上限处于默认或更高性能状态"
    };
    CpuPowerState {
        supported: true,
        active,
        policies,
        gpus,
        message: string_of(chars_of(message).as_slice()),
    }
}

/// What the program is asked to do by its command line.
#[derive(Clone, Copy, PartialEq, Eq, Structural, Debug)]
pub enum CliAction {
    /// Not the privileged helper invocation: run the application.
    NotPrivileged,
    /// Apply (`true`) or lift (`false`) the frequency limits, then exit.
    Apply(bool),
}

/// The flag that marks the privileged helper invocation.
pub open spec fn privileged_flag() -> Seq<char> {
    "--battery-sipjuice-cpu-power"@
}

/// Reads the command line: after the flag, `enable` or `disable`; any other
/// word after the flag is an error.
pub fn handle_privileged_cli(args: &Vec<String>) -> (r: Result<CliAction, String>)
    ensures
        !(args@.len() > 1 && args@[1]@ == privileged_flag()) ==> r == Ok::<CliAction, String>(
            CliAction::NotPrivileged,
        ),
        args@.len() > 1 && args@[1]@ == privileged_flag() ==> {
            &&& (args@.len() > 2 && args@[2]@ == "enable"@) ==> r == Ok::<CliAction, String>(
                CliAction::Apply(true),
            )
            &&& (args@.len() > 2 && args@[2]@ == "disable"@) ==> r == Ok::<CliAction, String>(
                CliAction::Apply(false),
            )
            &&& !(args@.len() > 2 && (args@[2]@ == "enable"@ || args@[2]@ == "disable"@)) ==> (r matches Err(
                e,
            ) && e@ == "未知的 CPU 省电模式操作"@)
        },
{
    if args.len() <= 1 || !str_eq(args[1].as_str(), "--battery-sipjuice-cpu-power") {
        return Ok(CliAction::NotPrivileged);
    }
    proof {
        reveal_strlit("enable");
        reveal_strlit("disable");
    }
    if args.len() > 2 {
        if str_eq(args[2].as_str(), "enable") {
            assert(args@[2]@ == "enable"@);
            assert("enable"@ != "disable"@) by {
                assert("enable"@.len() != "disable"@.len());
            }
            return Ok(CliAction::Apply(true));
        }
        if str_eq(args[2].as_str(), "disable") {
            return Ok(CliAction::Apply(false));
        }
    }
    Err(string_of(chars_of("未知的 CPU 省电模式操作").as_slice()))
}

/// Whether a cpufreq directory entry is a policy: its name starts with `policy`.
pub fn is_policy_dir(name: &str) -> (r: bool)
    ensures
        r == (name@.len() >= 6 && name@.subrange(0, 6) == "policy"@),
{
    let c = chars_of(name);
    let p = chars_of("policy");
    if c.len() < 6 {
        return false;
    }
    let mut head: Vec<char> = Vec::new();
    let mut i: usize = 0;
    while i < 6
        invariant
            i <= 6,
            c@.len() >= 6,
            head@ == c@.subrange(0, i as int),
        decreases 6 - i,
    {
        head.push(c[i]);
        i += 1;
        assert(head@ =~= c@.subrange(0, i as int));
    }
    crate::text::chars_eq(head.as_slice(), p.as_slice())
}

/// Whether a devfreq directory entry is a GPU: its name, in lower case,
/// contains `gpu`.
pub fn is_gpu_dir(name: &str) -> (r: bool)
    ensures
        r == contains_seq(ascii_lowercase(name@), "gpu"@),
{
    let lower = lowercase_chars(chars_of(name).as_slice());
    let pat = chars_of("gpu");
    contains_chars(lower.as_slice(), pat.as_slice())
}

/// One step of applying or lifting the limits on one device.
pub enum LimitStep {
    /// Write `value` to the attribute `file` of the device directory `dir`.
    Write { dir: String, file: &'static str, value: i64 },
    /// The device has no target frequency: report `error`.
    Missing { error: String },
}

/// Whether `st` is the step for cpufreq policy `dir` with attributes `a`:
/// `scaling_max_freq` set to the policy's cap (`enabled`) or back to
/// `cpuinfo_max_freq`.
pub open spec fn policy_step(enabled: bool, dir: Seq<char>, a: Attributes, st: LimitStep) -> bool {
    match st {
        LimitStep::Write { dir: d, file, value } => d@ == dir && file@ == "scaling_max_freq"@ && if enabled {
            policy_target(a, Some(value))
        } else {
            a.int_value("cpuinfo_max_freq"@) == Some(value)
        },
        LimitStep::Missing { error } => error@ == dir + " 缺少目标频率"@ && if enabled {
            policy_target(a, None)
        } else {
            a.int_value("cpuinfo_max_freq"@) is None
        },
    }
}

/// Whether `st` is the step for GPU `dir` with attributes `a`: `max_freq`
/// set to the GPU's cap (`enabled`) or back to its hardware maximum.
pub open spec fn gpu_step(enabled: bool, dir: Seq<char>, a: Attributes, st: LimitStep) -> bool {
    match st {
        LimitStep::Write { dir: d, file, value } => d@ == dir && file@ == "max_freq"@ && if enabled {
            gpu_target(a, Some(value))
        } else {
            gpu_max_is(a, Some(value))
        },
        LimitStep::Missing { error } => error@ == dir + " 缺少目标频率"@ && if enabled {
            gpu_target(a, None)
        } else {
            gpu_max_is(a, None)
        },
    }
}

/// The steps that apply (`enabled`) or lift the limits: one per policy,
/// then one per GPU, in order; an error when there is no device at all.
pub fn limit_plan(enabled: bool, policies: &[(String, Attributes)], gpus: &[(String, Attributes)]) -> (r: Result<
    Vec<LimitStep>,
    String,
>)
    ensures
        (policies@.len() == 0 && gpus@.len() == 0) <==> r is Err,
        r matches Err(e) ==> e@ == "未检测到可调节的 CPU/GPU 频率策略"@,
        r matches Ok(steps) ==> {
            &&& steps@.len() == policies@.len() + gpus@.len()
            &&& forall|k: int|
                0 <= k < policies@.len() ==> policy_step(
                    enabled,
                    policies@[k].0@,
                    policies@[k].1,
                    #[trigger] steps@[k],
                )
            &&& forall|k: int|
                0 <= k < gpus@.len() ==> gpu_step(
                    enabled,
                    gpus@[k].0@,
                    gpus@[k].1,
                    #[trigger] steps@[policies@.len() + k],
                )
        },
{
    if policies.len() == 0 && gpus.len() == 0 {
        return Err(string_of(chars_of("未检测到可调节的 CPU/GPU 频率策略").as_slice()));
    }
    let mut steps: Vec<LimitStep> = Vec::new();
    let mut i: usize = 0;
    while i < policies.len()
        invariant
            i <= policies@.len(),
            steps@.len() == i,
            forall|k: int|
                0 <= k < i ==> policy_step(enabled, policies@[k].0@, policies@[k].1, #[trigger] steps@[k]),
        decreases policies@.len() - i,
    {
        let (dir, a) = (&policies[i].0, &policies[i].1);
        let target = if enabled {
            target_freq(a)
        } else {
            a.get_i64("cpuinfo_max_freq")
        };
        let st = match target {
            Some(v) => LimitStep::Write { dir: dir.clone(), file: "scaling_max_freq", value: v },
            None => LimitStep::Missing { error: missing_target(dir.as_str()) },
        };
        proof {
            reveal_strlit("scaling_max_freq");
        }
        steps.push(st);
        i += 1;
    }
    let n = policies.len();
    let mut j: usize = 0;
    while j < gpus.len()
        invariant
            n == policies@.len(),
            j <= gpus@.len(),
            steps@.len() == n + j,
            forall|k: int|
                0 <= k < n ==> policy_step(enabled, policies@[k].0@, policies@[k].1, #[trigger] steps@[k]),
            forall|k: int| 0 <= k < j ==> gpu_step(enabled, gpus@[k].0@, gpus@[k].1, #[trigger] steps@[n + k]),
        decreases gpus@.len() - j,
    {
        let (dir, a) = (&gpus[j].0, &gpus[j].1);
        let target = if enabled {
            target_gpu_freq(a)
        } else {
            gpu_hardware_max_freq(a)
        };
        let st = match target {
            Some(v) => LimitStep::Write { dir: dir.clone(), file: "max_freq", value: v },
            None => LimitStep::Missing { error: missing_target(dir.as_str()) },
        };
        let ghost before = steps@;
        steps.push(st);
        assert(forall|k: int| 0 <= k < n ==> #[trigger] steps@[k] == before[k]);
        j += 1;
    }
    Ok(steps)
}

/// The error for a device without a target frequency.
pub fn missing_target(dir: &str) -> (r: String)
    ensures
        r@ == dir@ + " 缺少目标频率"@,
{
    let mut m: Vec<char> = Vec::new();
    extend_str(&mut m, dir);
    extend_str(&mut m, " 缺少目标频率");
    string_of(m.as_slice())
}

/// The errors joined by `"; "`.
pub open spec fn joined(es: Seq<Seq<char>>) -> Seq<char>
    decreases es.len(),
{
    if es.len() == 0 {
        Seq::empty()
    } else if es.len() == 1 {
        es[0]
    } else {
        joined(es.drop_last()) + "; "@ + es.last()
    }
}

/// The errors joined by `"; "`.
pub fn join_errors(es: &Vec<String>) -> (r: String)
    ensures
        r@ == joined(views(es@)),
{
    let mut m: Vec<char> = Vec::new();
    let mut i: usize = 0;
    while i < es.len()
        invariant
            i <= es@.len(),
            m@ == joined(views(es@).take(i as int)),
        decreases es@.len() - i,
    {
        assert(views(es@).take(i + 1).drop_last() =~= views(es@).take(i as int));
        if i > 0 {
            extend_str(&mut m, "; ");
        }
        extend_str(&mut m, es[i].as_str());
        proof {
            if i == 0 {
                assert(views(es@).take(1) =~= seq![es@[0]@]);
            }
        }
        i += 1;
    }
    assert(views(es@).take(es@.len() as int) =~= views(es@));
    string_of(m.as_slice())
}

/// The error reported when the privileged helper fails: what it wrote to
/// stderr, trimmed, or a generic message when that is empty.
pub fn authorization_error(stderr: &str) -> (r: String)
    ensures
        trim(stderr@).len() == 0 ==> r@ == "管理员授权已取消或执行失败"@,
        trim(stderr@).len() > 0 ==> r@ == trim(stderr@),
{
    let t = trim_chars(chars_of(stderr).as_slice());
    if t.len() == 0 {
        string_of(chars_of("管理员授权已取消或执行失败").as_slice())
    } else {
        string_of(t.as_slice())
    }
}


/// The policies described from their directories' names and attributes.
pub fn collect_policies(dirs: &[(String, Attributes)]) -> (r: Vec<CpuPolicy>)
    ensures
        r@.len() == dirs@.len(),
        forall|k: int| 0 <= k < r@.len() ==> describes_policy(#[trigger] r@[k], dirs@[k].0@, dirs@[k].1),
{
    let mut out: Vec<CpuPolicy> = Vec::new();
    let mut i: usize = 0;
    while i < dirs.len()
        invariant
            i <= dirs@.len(),
            out@.len() == i,
            forall|k: int| 0 <= k < i ==> describes_policy(#[trigger] out@[k], dirs@[k].0@, dirs@[k].1),
        decreases dirs@.len() - i,
    {
        let p = collect_policy(dirs[i].0.as_str(), &dirs[i].1);
        out.push(p);
        i += 1;
    }
    out
}

/// The GPUs described from their directories' names and attributes.
pub fn collect_gpus(dirs: &[(String, Attributes)]) -> (r: Vec<GpuPolicy>)
    ensures
        r@.len() == dirs@.len(),
        forall|k: int| 0 <= k < r@.len() ==> describes_gpu(#[trigger] r@[k], dirs@[k].0@, dirs@[k].1),
{
    let mut out: Vec<GpuPolicy> = Vec::new();
    let mut i: usize = 0;
    while i < dirs.len()
        invariant
            i <= dirs@.len(),
            out@.len() == i,
            forall|k: int| 0 <= k < i ==> describes_gpu(#[trigger] out@[k], dirs@[k].0@, dirs@[k].1),
        decreases dirs@.len() - i,
    {
        let g = collect_gpu(dirs[i].0.as_str(), &dirs[i].1);
        out.push(g);
        i += 1;
    }
    out
}

} // verus!
