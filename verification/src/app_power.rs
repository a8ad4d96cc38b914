//! Per-application power estimate: which application a process belongs to,
//! the CPU time each process used between two samples, and the grouping of
//! that time by application. The battery power is then shared out in
//! proportion to the CPU time.

use vstd::prelude::*;
use vstd::utf8::{decode_utf8, valid_utf8};
use crate::input_history::utf8_str;
use crate::text::{
    ascii_lowercase, chars_of, contains_chars, contains_seq, extend_chars, i64_decimal,
    int_decimal, lowercase_chars, parse_u64, parse_u64_spec, split_words, str_eq,
    string_of, trim, trim_chars, words,
};

verus! {

// ------------------------------------------------------------ command line

/// The runs of non-zero bytes of `b` seen so far, and the run in progress.
pub open spec fn scan_parts(b: Seq<u8>) -> (Seq<Seq<u8>>, Seq<u8>)
    decreases b.len(),
{
    if b.len() == 0 {
        (Seq::empty(), Seq::empty())
    } else {
        let (done, cur) = scan_parts(b.drop_last());
        if b.last() == 0 {
            if cur.len() > 0 {
                (done.push(cur), Seq::empty())
            } else {
                (done, Seq::empty())
            }
        } else {
            (done, cur.push(b.last()))
        }
    }
}

/// The non-empty parts of `b` between zero bytes, in order.
pub open spec fn cmdline_parts(b: Seq<u8>) -> Seq<Seq<u8>> {
    let (done, cur) = scan_parts(b);
    if cur.len() > 0 {
        done.push(cur)
    } else {
        done
    }
}

/// The parts that are valid UTF-8, decoded.
pub open spec fn decoded_parts(parts: Seq<Seq<u8>>) -> Seq<Seq<char>>
    decreases parts.len(),
{
    if parts.len() == 0 {
        Seq::empty()
    } else {
        let r = decoded_parts(parts.drop_last());
        if valid_utf8(parts.last()) {
            r.push(decode_utf8(parts.last()))
        } else {
            r
        }
    }
}

/// The arguments of a process from its `cmdline` file: the non-empty
/// zero-separated parts that are valid UTF-8.
pub open spec fn cmdline_args(b: Seq<u8>) -> Seq<Seq<char>> {
    decoded_parts(cmdline_parts(b))
}

fn push_decoded(out: &mut Vec<String>, part: &[u8])
    ensures
        crate::sysfs::views(final(out)@) == if valid_utf8(part@) {
            crate::sysfs::views(old(out)@).push(decode_utf8(part@))
        } else {
            crate::sysfs::views(old(out)@)
        },
{
    match utf8_str(part) {
        Some(s) => {
            let ghost before = crate::sysfs::views(out@);
            out.push(string_of(chars_of(s).as_slice()));
            assert(crate::sysfs::views(out@) =~= before.push(decode_utf8(part@)));
        },
        None => {},
    }
}

/// The arguments of a process from the bytes of its `cmdline` file.
pub fn parse_cmdline(bytes: &[u8]) -> (r: Vec<String>)
    ensures
        crate::sysfs::views(r@) == cmdline_args(bytes@),
{
    let mut out: Vec<String> = Vec::new();
    let mut cur: Vec<u8> = Vec::new();
    let mut i: usize = 0;
    proof {
        assert(bytes@.take(0) =~= Seq::<u8>::empty());
        assert(crate::sysfs::views(out@) =~= Seq::<Seq<char>>::empty());
    }
    while i < bytes.len()
        invariant
            i <= bytes@.len(),
            crate::sysfs::views(out@) == decoded_parts(scan_parts(bytes@.take(i as int)).0),
            cur@ == scan_parts(bytes@.take(i as int)).1,
        decreases bytes@.len() - i,
    {
        let b = bytes[i];
        assert(bytes@.take(i + 1).drop_last() =~= bytes@.take(i as int));
        assert(bytes@.take(i + 1).last() == b);
        if b == 0 {
            if cur.len() > 0 {
                let ghost done = scan_parts(bytes@.take(i as int)).0;
                push_decoded(&mut out, cur.as_slice());
                assert(done.push(cur@).drop_last() =~= done);
                assert(done.push(cur@).last() == cur@);
                cur = Vec::new();
            }
        } else {
            cur.push(b);
        }
        i += 1;
    }
    assert(bytes@.take(i as int) =~= bytes@);
    if cur.len() > 0 {
        let ghost done = scan_parts(bytes@).0;
        push_decoded(&mut out, cur.as_slice());
        assert(done.push(cur@).drop_last() =~= done);
        assert(done.push(cur@).last() == cur@);
    }
    out
}

// ------------------------------------------------------------- app names

/// The pieces of `s` between `/` characters, in order.
pub open spec fn slash_pieces(s: Seq<char>) -> Seq<Seq<char>>
    decreases s.len(),
{
    if s.len() == 0 {
        seq![Seq::empty()]
    } else {
        let rest = slash_pieces(s.drop_last());
        if s.last() == '/' {
            rest.push(Seq::empty())
        } else {
            rest.update(rest.len() - 1, rest.last().push(s.last()))
        }
    }
}

/// The last component of a path: its pieces between separators, without
/// empty ones (repeated and trailing separators, the root) and without
/// `.`, give the last; no name when there is none or it is `..`.
pub open spec fn path_file_name(path: Seq<char>) -> Option<Seq<char>> {
    let parts = slash_pieces(path).filter(|p: Seq<char>| p.len() > 0 && p != seq!['.']);
    if parts.len() == 0 || parts.last() == seq!['.', '.'] {
        None
    } else {
        Some(parts.last())
    }
}

/// std's `Path::file_name` on a Unix path given as text: the final
/// component when it is a normal one (repeated separators and `.` are
/// normalised away, a trailing separator is ignored), none for the root,
/// an empty path, `.` or a path that ends in `..`. A path made from text
/// has a file name that is text.
#[verifier::external_body]
fn file_name(path: &str) -> (r: Option<String>)
    ensures
        match r {
            Some(n) => path_file_name(path@) == Some(n@),
            None => path_file_name(path@) is None,
        },
{
    std::path::Path::new(path).file_name().and_then(|n| n.to_str()).map(|n| n.to_string())
}

/// The first word of `s`, or `s` when it has none.
pub open spec fn first_token(s: Seq<char>) -> Seq<char> {
    if words(s).len() > 0 {
        words(s)[0]
    } else {
        s
    }
}

fn first_token_chars(s: &[char]) -> (r: Vec<char>)
    ensures
        r@ == first_token(s@),
{
    let w = split_words(s);
    if w.len() > 0 {
        let mut r: Vec<char> = Vec::new();
        extend_chars(&mut r, w[0].as_slice());
        r
    } else {
        let mut r: Vec<char> = Vec::new();
        extend_chars(&mut r, s);
        r
    }
}

/// The program name of a command: the file name of its first word, when
/// that is not empty.
pub open spec fn basename_spec(path: Seq<char>) -> Option<Seq<char>> {
    match path_file_name(first_token(path)) {
        Some(n) => if n.len() > 0 {
            Some(n)
        } else {
            None
        },
        None => None,
    }
}

/// The program name of a command line argument.
pub fn basename(path: &str) -> (r: Option<String>)
    ensures
        crate::battery::opt_view(r) == basename_spec(path@),
{
    let t = first_token_chars(chars_of(path).as_slice());
    let ts = string_of(t.as_slice());
    match file_name(ts.as_str()) {
        Some(n) => {
            let c = chars_of(n.as_str());
            if c.len() > 0 {
                Some(n)
            } else {
                None
            }
        },
        None => None,
    }
}

/// Whether `c` separates path components, for either platform.
pub open spec fn is_separator(c: char) -> bool {
    c == '/' || c == '\\'
}

/// What follows the last separator of `s` (all of `s` without one).
pub open spec fn last_segment(s: Seq<char>) -> Seq<char>
    decreases s.len(),
{
    if s.len() == 0 {
        s
    } else if is_separator(s.last()) {
        Seq::empty()
    } else {
        last_segment(s.drop_last()).push(s.last())
    }
}

/// Whether `c` is a square bracket.
pub open spec fn is_bracket(c: char) -> bool {
    c == '[' || c == ']'
}

/// `s` without leading square brackets.
pub open spec fn strip_leading_brackets(s: Seq<char>) -> Seq<char>
    decreases s.len(),
{
    if s.len() > 0 && is_bracket(s[0]) {
        strip_leading_brackets(s.skip(1))
    } else {
        s
    }
}

/// `s` without trailing square brackets.
pub open spec fn strip_trailing_brackets(s: Seq<char>) -> Seq<char>
    decreases s.len(),
{
    if s.len() > 0 && is_bracket(s.last()) {
        strip_trailing_brackets(s.drop_last())
    } else {
        s
    }
}

/// A display title from a process name: its first word, the part after the
/// last path separator, without surrounding square brackets.
pub open spec fn clean_title_spec(name: Seq<char>) -> Seq<char> {
    strip_trailing_brackets(strip_leading_brackets(last_segment(first_token(name))))
}

/// A display title from a process name.
pub fn clean_title(name: &str) -> (r: String)
    ensures
        r@ == clean_title_spec(name@),
{
    let t = first_token_chars(chars_of(name).as_slice());
    // The part after the last separator.
    let mut start: usize = 0;
    let mut i: usize = 0;
    while i < t.len()
        invariant
            i <= t@.len(),
            start <= i,
            last_segment(t@.take(i as int)) == t@.subrange(start as int, i as int),
        decreases t@.len() - i,
    {
        assert(t@.take(i + 1).drop_last() =~= t@.take(i as int));
        assert(t@.take(i + 1).last() == t@[i as int]);
        if t[i] == '/' || t[i] == '\\' {
            start = i + 1;
            assert(t@.subrange(start as int, i + 1) =~= Seq::<char>::empty());
        } else {
            assert(t@.subrange(start as int, i + 1) =~= t@.subrange(start as int, i as int).push(t@[i as int]));
        }
        i += 1;
    }
    assert(t@.take(i as int) =~= t@);
    // Without leading brackets.
    let mut a = start;
    assert(t@.subrange(start as int, t@.len() as int) =~= t@.subrange(a as int, t@.len() as int));
    while a < t.len() && (t[a] == '[' || t[a] == ']')
        invariant
            start <= a <= t@.len(),
            strip_leading_brackets(t@.subrange(start as int, t@.len() as int)) == strip_leading_brackets(
                t@.subrange(a as int, t@.len() as int),
            ),
        decreases t@.len() - a,
    {
        assert(t@.subrange(a as int, t@.len() as int).skip(1) =~= t@.subrange(a + 1, t@.len() as int));
        a += 1;
    }
    // Without trailing brackets.
    let mut b = t.len();
    assert(t@.subrange(a as int, t@.len() as int) =~= t@.subrange(a as int, b as int));
    while b > a && (t[b - 1] == '[' || t[b - 1] == ']')
        invariant
            a <= b <= t@.len(),
            strip_trailing_brackets(t@.subrange(a as int, t@.len() as int)) == strip_trailing_brackets(
                t@.subrange(a as int, b as int),
            ),
        decreases b,
    {
        assert(t@.subrange(a as int, b as int).drop_last() =~= t@.subrange(a as int, b - 1));
        b -= 1;
    }
    let mut r: Vec<char> = Vec::new();
    let mut k = a;
    while k < b
        invariant
            a <= k <= b,
            b <= t@.len(),
            r@ == t@.subrange(a as int, k as int),
        decreases b - k,
    {
        r.push(t[k]);
        k += 1;
        assert(r@ =~= t@.subrange(a as int, k as int));
    }
    string_of(r.as_slice())
}


/// Whether some argument contains `pat`.
pub open spec fn any_arg_contains(args: Seq<Seq<char>>, pat: Seq<char>) -> bool {
    exists|i: int| 0 <= i < args.len() && contains_seq(#[trigger] args[i], pat)
}

fn any_contains(args: &Vec<String>, pat: &str) -> (r: bool)
    ensures
        r == any_arg_contains(crate::sysfs::views(args@), pat@),
{
    let p = chars_of(pat);
    let ghost v = crate::sysfs::views(args@);
    let mut i: usize = 0;
    while i < args.len()
        invariant
            i <= args@.len(),
            v == crate::sysfs::views(args@),
            p@ == pat@,
            forall|j: int| 0 <= j < i ==> !contains_seq(#[trigger] v[j], pat@),
        decreases args@.len() - i,
    {
        let a = chars_of(args[i].as_str());
        assert(v[i as int] == a@);
        if contains_chars(a.as_slice(), p.as_slice()) {
            return true;
        }
        i += 1;
    }
    false
}

/// A WebKit web process of this application is named after it.
pub open spec fn infer_webkit_spec(args: Seq<Seq<char>>) -> Option<Seq<char>> {
    if any_arg_contains(args, "battery-sipjuice"@) {
        Some("Battery SipJuice"@)
    } else {
        None
    }
}

/// The application a WebKit web process works for, when its arguments
/// show it.
pub fn infer_webkit_app_name(args: &Vec<String>) -> (r: Option<String>)
    ensures
        crate::battery::opt_view(r) == infer_webkit_spec(crate::sysfs::views(args@)),
{
    if any_contains(args, "battery-sipjuice") {
        Some(string_of(chars_of("Battery SipJuice").as_slice()))
    } else {
        None
    }
}

/// The application a process belongs to, from its raw name, arguments and
/// `comm`: known helper processes are grouped with their application, other
/// names are cleaned into a title.
pub open spec fn normalize_spec(raw: Seq<char>, args: Seq<Seq<char>>, comm: Option<Seq<char>>) -> Seq<char> {
    let name = trim(raw);
    let lower = ascii_lowercase(name);
    if lower == "code"@ || lower == "chrome_crashpad_handler"@ {
        "Code"@
    } else if lower == "battery-sipjuice"@ || lower == "battery-sipjuic"@ {
        "Battery SipJuice"@
    } else if lower == "gnome-shell"@ {
        "GNOME Shell"@
    } else if lower == "gjs"@ && any_arg_contains(args, "gnome-shell"@) {
        "GNOME Shell"@
    } else if lower == "webkitwebprocess"@ || lower == "webkitwebproces"@ {
        match infer_webkit_spec(args) {
            Some(n) => n,
            None => match comm {
                Some(c) => c,
                None => "WebKitWebProcess"@,
            },
        }
    } else {
        clean_title_spec(name)
    }
}

fn text(s: &str) -> (r: String)
    ensures
        r@ == s@,
{
    string_of(chars_of(s).as_slice())
}

/// The application name of a process.
pub fn normalize_app_group_name(raw: &str, args: &Vec<String>, comm: Option<&str>) -> (r: String)
    ensures
        r@ == normalize_spec(
            raw@,
            crate::sysfs::views(args@),
            match comm {
                Some(c) => Some(c@),
                None => None,
            },
        ),
{
    let name = trim_chars(chars_of(raw).as_slice());
    let lower = lowercase_chars(name.as_slice());
    let ls = string_of(lower.as_slice());
    let l = ls.as_str();
    if str_eq(l, "code") || str_eq(l, "chrome_crashpad_handler") {
        text("Code")
    } else if str_eq(l, "battery-sipjuice") || str_eq(l, "battery-sipjuic") {
        text("Battery SipJuice")
    } else if str_eq(l, "gnome-shell") {
        text("GNOME Shell")
    } else if str_eq(l, "gjs") && any_contains(args, "gnome-shell") {
        text("GNOME Shell")
    } else if str_eq(l, "webkitwebprocess") || str_eq(l, "webkitwebproces") {
        match infer_webkit_app_name(args) {
            Some(n) => n,
            None => match comm {
                Some(c) => text(c),
                None => text("WebKitWebProcess"),
            },
        }
    } else {
        let ns = string_of(name.as_slice());
        clean_title(ns.as_str())
    }
}

/// `s` trimmed, when that is not empty.
pub open spec fn trimmed_nonempty(s: Option<Seq<char>>) -> Option<Seq<char>> {
    match s {
        Some(t) => if trim(t).len() > 0 {
            Some(trim(t))
        } else {
            None
        },
        None => None,
    }
}

/// The application a process belongs to, from its `cmdline` bytes and its
/// `comm` text (each absent when it could not be read): the program name
/// of its first argument, else its `comm`, else `pid` and its number,
/// normalised.
pub open spec fn app_group_spec(pid: i32, cmdline: Option<Seq<u8>>, comm: Option<Seq<char>>) -> Seq<char> {
    let args = match cmdline {
        Some(b) => cmdline_args(b),
        None => Seq::empty(),
    };
    let exe = if args.len() > 0 {
        basename_spec(args[0])
    } else {
        None
    };
    let c = trimmed_nonempty(comm);
    let raw = match exe {
        Some(e) => e,
        None => match c {
            Some(t) => t,
            None => "pid "@ + int_decimal(pid as int),
        },
    };
    normalize_spec(raw, args, c)
}

/// The application a process belongs to.
pub fn app_group_name(pid: i32, cmdline: Option<Vec<u8>>, comm: Option<String>) -> (r: String)
    ensures
        r@ == app_group_spec(
            pid,
            match cmdline {
                Some(b) => Some(b@),
                None => None,
            },
            crate::battery::opt_view(comm),
        ),
{
    let args: Vec<String> = match &cmdline {
        Some(b) => parse_cmdline(b.as_slice()),
        None => {
            let v: Vec<String> = Vec::new();
            assert(crate::sysfs::views(v@) =~= Seq::<Seq<char>>::empty());
            v
        },
    };
    let exe: Option<String> = if args.len() > 0 {
        basename(args[0].as_str())
    } else {
        None
    };
    let c: Option<String> = match &comm {
        Some(t) => {
            let tc = trim_chars(chars_of(t.as_str()).as_slice());
            if tc.len() > 0 {
                Some(string_of(tc.as_slice()))
            } else {
                None
            }
        },
        None => None,
    };
    let raw: String = match exe {
        Some(e) => e,
        None => match &c {
            Some(t) => t.clone(),
            None => {
                let mut v = chars_of("pid ");
                let d = i64_decimal(pid as i64);
                extend_chars(&mut v, d.as_slice());
                string_of(v.as_slice())
            },
        },
    };
    let cs: Option<&str> = match &c {
        Some(t) => Some(t.as_str()),
        None => None,
    };
    normalize_app_group_name(raw.as_str(), &args, cs)
}


// -------------------------------------------------------------- CPU time

/// What follows the last `)` of `s`, if it has one.
pub open spec fn after_last_paren(s: Seq<char>) -> Option<Seq<char>>
    decreases s.len(),
{
    if s.len() == 0 {
        None
    } else if s.last() == ')' {
        Some(Seq::empty())
    } else {
        match after_last_paren(s.drop_last()) {
            Some(t) => Some(t.push(s.last())),
            None => None,
        }
    }
}

fn after_last_paren_chars(s: &[char]) -> (r: Option<Vec<char>>)
    ensures
        match r {
            Some(t) => after_last_paren(s@) == Some(t@),
            None => after_last_paren(s@) is None,
        },
{
    let mut found = false;
    let mut start: usize = 0;
    let mut i: usize = 0;
    while i < s.len()
        invariant
            i <= s@.len(),
            start <= i,
            match after_last_paren(s@.take(i as int)) {
                Some(t) => found && t == s@.subrange(start as int, i as int),
                None => !found,
            },
        decreases s@.len() - i,
    {
        assert(s@.take(i + 1).drop_last() =~= s@.take(i as int));
        assert(s@.take(i + 1).last() == s@[i as int]);
        if s[i] == ')' {
            found = true;
            start = i + 1;
            assert(s@.subrange(start as int, i + 1) =~= Seq::<char>::empty());
        } else {
            assert(s@.subrange(start as int, i + 1) =~= s@.subrange(start as int, i as int).push(s@[i as int]));
        }
        i += 1;
    }
    assert(s@.take(i as int) =~= s@);
    if !found {
        return None;
    }
    let mut t: Vec<char> = Vec::new();
    let mut k = start;
    while k < s.len()
        invariant
            start <= k <= s@.len(),
            t@ == s@.subrange(start as int, k as int),
        decreases s@.len() - k,
    {
        t.push(s[k]);
        k += 1;
        assert(t@ =~= s@.subrange(start as int, k as int));
    }
    Some(t)
}

/// User and system CPU time (ticks) from a process's `stat` text: the
/// twelfth and thirteenth fields after the command name, which ends at the
/// last `)`.
pub open spec fn proc_tick_fields(raw: Seq<char>) -> Option<(u64, u64)> {
    match after_last_paren(raw) {
        None => None,
        Some(t) => {
            let f = words(t);
            if f.len() > 12 {
                match (parse_u64_spec(f[11]), parse_u64_spec(f[12])) {
                    (Some(u), Some(st)) => Some((u, st)),
                    _ => None,
                }
            } else {
                None
            }
        },
    }
}

/// The CPU time (ticks) a process has used, from its `stat` text: user
/// plus system time.
pub fn read_proc_ticks(raw: &str) -> (r: Option<u128>)
    ensures
        r == match proc_tick_fields(raw@) {
            Some((u, st)) => Some((u + st) as u128),
            None => None,
        },
{
    let c = chars_of(raw);
    let after = match after_last_paren_chars(c.as_slice()) {
        Some(t) => t,
        None => return None,
    };
    let f = split_words(after.as_slice());
    if f.len() <= 12 {
        return None;
    }
    let u = match parse_u64(f[11].as_slice()) {
        Some(v) => v,
        None => return None,
    };
    let st = match parse_u64(f[12].as_slice()) {
        Some(v) => v,
        None => return None,
    };
    Some((u as u128) + (st as u128))
}

/// The first line of `s`, without its line ending (`str::lines`).
pub open spec fn first_line(s: Seq<char>) -> Option<Seq<char>> {
    if s.len() == 0 {
        None
    } else {
        match crate::power::first_index(s, '\n') {
            Some(k) => {
                let l = s.take(k);
                if l.len() > 0 && l.last() == '\r' {
                    Some(l.drop_last())
                } else {
                    Some(l)
                }
            },
            None => Some(s),
        }
    }
}

/// The counters of the `cpu` line: the values of its second to ninth words
/// that are numbers.
pub open spec fn counter_values(f: Seq<Seq<char>>) -> Seq<u64>
    decreases f.len(),
{
    if f.len() == 0 {
        Seq::empty()
    } else {
        let r = counter_values(f.drop_last());
        let k = f.len() - 1;
        if 1 <= k < 9 && parse_u64_spec(f.last()) is Some {
            r.push(parse_u64_spec(f.last()).unwrap())
        } else {
            r
        }
    }
}

/// The sum of `s`.
pub open spec fn sum_u64(s: Seq<u64>) -> int
    decreases s.len(),
{
    if s.len() == 0 {
        0
    } else {
        sum_u64(s.drop_last()) + s.last()
    }
}

/// The total CPU time (ticks) of the system from the `/proc/stat` text:
/// the user, nice, system, idle, iowait, irq, softirq and steal counters
/// of its first line.
pub open spec fn total_ticks_spec(raw: Seq<char>) -> Option<int> {
    match first_line(raw) {
        Some(l) => Some(sum_u64(counter_values(words(l)))),
        None => None,
    }
}

fn first_line_chars(s: &[char]) -> (r: Option<Vec<char>>)
    ensures
        match r {
            Some(l) => first_line(s@) == Some(l@),
            None => first_line(s@) is None,
        },
{
    if s.len() == 0 {
        return None;
    }
    let mut i: usize = 0;
    while i < s.len() && s[i] != '\n'
        invariant
            i <= s@.len(),
            forall|j: int| 0 <= j < i ==> s@[j] != '\n',
        decreases s@.len() - i,
    {
        i += 1;
    }
    proof {
        if i < s.len() {
            assert(crate::power::is_first(s@, '\n', i as int));
            assert(exists|k: int| crate::power::is_first(s@, '\n', k));
            let k = choose|k: int| crate::power::is_first(s@, '\n', k);
            assert(k == i);
        } else {
            assert(!exists|k: int| crate::power::is_first(s@, '\n', k));
        }
    }
    let mut end = i;
    if i < s.len() && i > 0 && s[i - 1] == '\r' {
        end = i - 1;
    }
    let mut l: Vec<char> = Vec::new();
    let mut k: usize = 0;
    while k < end
        invariant
            end <= s@.len(),
            k <= end,
            l@ == s@.take(k as int),
        decreases end - k,
    {
        l.push(s[k]);
        k += 1;
        assert(l@ =~= s@.take(k as int));
    }
    proof {
        if i < s.len() && i > 0 && s@[i - 1] == '\r' {
            assert(s@.take(i as int).drop_last() =~= s@.take(end as int));
        } else if i == s.len() {
            assert(s@.take(end as int) =~= s@);
        }
    }
    Some(l)
}

/// The total CPU time (ticks) of the system from the `/proc/stat` text.
pub fn read_total_ticks(raw: &str) -> (r: Option<u128>)
    ensures
        r == match total_ticks_spec(raw@) {
            Some(t) => Some(t as u128),
            None => None,
        },
{
    let c = chars_of(raw);
    let line = match first_line_chars(c.as_slice()) {
        Some(l) => l,
        None => return None,
    };
    let f = split_words(line.as_slice());
    let ghost fw = words(line@);
    let mut sum: u128 = 0;
    let mut i: usize = 0;
    while i < f.len()
        invariant
            i <= f@.len(),
            f@.len() == fw.len(),
            forall|k: int| 0 <= k < f@.len() ==> #[trigger] f@[k]@ == fw[k],
            sum == sum_u64(counter_values(fw.take(i as int))),
            counter_values(fw.take(i as int)).len() <= (if i == 0 {
                0
            } else {
                i - 1
            }),
            counter_values(fw.take(i as int)).len() <= 8,
            sum <= counter_values(fw.take(i as int)).len() * 0xFFFF_FFFF_FFFF_FFFF,
        decreases f@.len() - i,
    {
        let ghost t = fw.take(i + 1);
        assert(t.drop_last() =~= fw.take(i as int));
        assert(t.last() == fw[i as int]);
        let ghost c0 = counter_values(fw.take(i as int));
        if i >= 1 && i < 9 {
            if let Some(v) = parse_u64(f[i].as_slice()) {
                assert(counter_values(t) == c0.push(v));
                assert(c0.push(v).drop_last() =~= c0);
                assert(sum_u64(c0.push(v)) == sum_u64(c0) + v);
                sum = sum + (v as u128);
            } else {
                assert(counter_values(t) == c0);
            }
        } else {
            assert(counter_values(t) == c0);
        }
        i += 1;
    }
    assert(fw.take(i as int) =~= fw);
    Some(sum)
}

/// The entry of `pid` in the previous sample, if any: the first one.
pub open spec fn previous_entry(prev: Seq<(i32, u64)>, pid: i32) -> Option<u64> {
    if exists|j: int| 0 <= j < prev.len() && #[trigger] prev[j].0 == pid {
        let j = choose|j: int| 0 <= j < prev.len() && #[trigger] prev[j].0 == pid && forall|k: int|
            0 <= k < j ==> #[trigger] prev[k].0 != pid;
        Some(prev[j].1)
    } else {
        None
    }
}

/// The CPU time a process used since the previous sample: its ticks less
/// those it had then (none if it was not there), never below zero.
pub fn cpu_delta(prev: &[(i32, u64)], pid: i32, ticks: u64) -> (r: u64)
    ensures
        r == crate::session::sub_or_zero(
            ticks,
            match previous_entry(prev@, pid) {
                Some(t) => t,
                None => 0,
            },
        ),
{
    let mut i: usize = 0;
    while i < prev.len()
        invariant
            i <= prev@.len(),
            forall|k: int| 0 <= k < i ==> #[trigger] prev@[k].0 != pid,
        decreases prev@.len() - i,
    {
        if prev[i].0 == pid {
            let before = prev[i].1;
            proof {
                let j = choose|j: int| 0 <= j < prev@.len() && #[trigger] prev@[j].0 == pid && forall|k: int|
                    0 <= k < j ==> #[trigger] prev@[k].0 != pid;
                if j < i {
                } else if j > i {
                    assert(prev@[i as int].0 == pid);
                }
                assert(j == i);
            }
            return ticks.saturating_sub(before);
        }
        i += 1;
    }
    ticks
}

/// The CPU time of one application between two samples.
pub struct AppCpuBucket {
    pub name: String,
    pub ticks: u128,
    pub process_count: usize,
}

/// The view of buckets: name, ticks and process count.
pub open spec fn bucket_views(b: Seq<AppCpuBucket>) -> Seq<(Seq<char>, int, int)> {
    b.map_values(|x: AppCpuBucket| (x.name@, x.ticks as int, x.process_count as int))
}

/// The position of the bucket named `name`.
pub open spec fn bucket_position(g: Seq<(Seq<char>, int, int)>, name: Seq<char>) -> Option<int> {
    if exists|i: int| 0 <= i < g.len() && #[trigger] g[i].0 == name {
        Some(choose|i: int| 0 <= i < g.len() && #[trigger] g[i].0 == name)
    } else {
        None
    }
}

/// The CPU time of processes grouped by application, in the order in which
/// the applications first appear: each bucket sums the ticks and counts the
/// processes of its application.
pub open spec fn group_spec(entries: Seq<(Seq<char>, u64)>) -> Seq<(Seq<char>, int, int)>
    decreases entries.len(),
{
    if entries.len() == 0 {
        Seq::empty()
    } else {
        let g = group_spec(entries.drop_last());
        let (n, d) = entries.last();
        match bucket_position(g, n) {
            Some(i) => g.update(i, (n, g[i].1 + d, g[i].2 + 1)),
            None => g.push((n, d as int, 1)),
        }
    }
}

proof fn lemma_group_names_unique(entries: Seq<(Seq<char>, u64)>)
    ensures
        forall|i: int, j: int|
            0 <= i < j < group_spec(entries).len() ==> (#[trigger] group_spec(entries)[i]).0 != (
            #[trigger] group_spec(entries)[j]).0,
        group_spec(entries).len() <= entries.len(),
        forall|i: int|
            0 <= i < group_spec(entries).len() ==> 0 <= (#[trigger] group_spec(entries)[i]).1 <= entries.len()
                * 0xFFFF_FFFF_FFFF_FFFF && 1 <= group_spec(entries)[i].2 <= entries.len(),
    decreases entries.len(),
{
    if entries.len() > 0 {
        lemma_group_names_unique(entries.drop_last());
    }
}

/// Groups the CPU time of processes, given as application name and ticks,
/// by application.
pub fn group_ticks(entries: &[(String, u64)]) -> (r: Vec<AppCpuBucket>)
    ensures
        bucket_views(r@) == group_spec(entries@.map_values(|e: (String, u64)| (e.0@, e.1))),
{
    let ghost es = entries@.map_values(|e: (String, u64)| (e.0@, e.1));
    let mut out: Vec<AppCpuBucket> = Vec::new();
    let mut i: usize = 0;
    proof {
        assert(es.take(0) =~= Seq::<(Seq<char>, u64)>::empty());
        assert(bucket_views(out@) =~= Seq::<(Seq<char>, int, int)>::empty());
    }
    while i < entries.len()
        invariant
            i <= entries@.len(),
            es == entries@.map_values(|e: (String, u64)| (e.0@, e.1)),
            bucket_views(out@) == group_spec(es.take(i as int)),
        decreases entries@.len() - i,
    {
        let ghost t = es.take(i + 1);
        assert(t.drop_last() =~= es.take(i as int));
        assert(t.last() == es[i as int]);
        proof {
            lemma_group_names_unique(es.take(i as int));
        }
        let ghost g = bucket_views(out@);
        let name = entries[i].0.as_str();
        let d = entries[i].1;
        let mut k: usize = 0;
        while k < out.len()
            invariant
                k <= out@.len(),
                g == bucket_views(out@),
                forall|j: int| 0 <= j < k ==> #[trigger] g[j].0 != name@,
            ensures
                k <= out@.len(),
                forall|j: int| 0 <= j < k ==> #[trigger] g[j].0 != name@,
                k < out@.len() ==> g[k as int].0 == name@,
            decreases out@.len() - k,
        {
            if str_eq(out[k].name.as_str(), name) {
                assert(g[k as int].0 == name@);
                break;
            }
            k += 1;
        }
        if k < out.len() {
            proof {
                assert(g[k as int].0 == name@);
                let p = choose|p: int| 0 <= p < g.len() && #[trigger] g[p].0 == name@;
                if p != k {
                    assert(g[p].0 != g[k as int].0);
                }
            }
            let mut b = out.remove(k);
            b.ticks = b.ticks + (d as u128);
            b.process_count = b.process_count + 1;
            out.insert(k, b);
            assert(bucket_views(out@) =~= g.update(k as int, (name@, g[k as int].1 + d, g[k as int].2 + 1)));
        } else {
            let b = AppCpuBucket { name: string_of(chars_of(name).as_slice()), ticks: d as u128, process_count: 1 };
            out.push(b);
            assert(bucket_views(out@) =~= g.push((name@, d as int, 1)));
        }
        i += 1;
    }
    assert(es.take(i as int) =~= es);
    out
}

/// Whether an application used at least half a percent of the CPU time of
/// the interval: below that it is noise.
pub fn significant(ticks: u128, total: u64) -> (r: bool)
    ensures
        r == (ticks * 200 >= total),
{
    match ticks.checked_mul(200) {
        Some(v) => v >= total as u128,
        None => true,
    }
}

/// The CPU time and the wall time between two samples, when both advanced.
pub fn sample_span(prev_total: u64, prev_ms: u64, total: u64, now_ms: u64) -> (r: Option<(u64, u64)>)
    ensures
        r == if total > prev_total && now_ms > prev_ms {
            Some(((total - prev_total) as u64, (now_ms - prev_ms) as u64))
        } else {
            None
        },
{
    if total > prev_total && now_ms > prev_ms {
        Some((total - prev_total, now_ms - prev_ms))
    } else {
        None
    }
}


// ------------------------------------------------------------------- laws

/// The ticks of all buckets.
pub open spec fn bucket_ticks_total(g: Seq<(Seq<char>, int, int)>) -> int
    decreases g.len(),
{
    if g.len() == 0 {
        0
    } else {
        bucket_ticks_total(g.drop_last()) + g.last().1
    }
}

/// The processes of all buckets.
pub open spec fn bucket_process_total(g: Seq<(Seq<char>, int, int)>) -> int
    decreases g.len(),
{
    if g.len() == 0 {
        0
    } else {
        bucket_process_total(g.drop_last()) + g.last().2
    }
}

/// The ticks of all entries.
pub open spec fn entry_ticks_total(e: Seq<(Seq<char>, u64)>) -> int
    decreases e.len(),
{
    if e.len() == 0 {
        0
    } else {
        entry_ticks_total(e.drop_last()) + e.last().1
    }
}

proof fn lemma_totals_update(g: Seq<(Seq<char>, int, int)>, i: int, x: (Seq<char>, int, int))
    requires
        0 <= i < g.len(),
    ensures
        bucket_ticks_total(g.update(i, x)) == bucket_ticks_total(g) - g[i].1 + x.1,
        bucket_process_total(g.update(i, x)) == bucket_process_total(g) - g[i].2 + x.2,
    decreases g.len(),
{
    let u = g.update(i, x);
    if i == g.len() - 1 {
        assert(u.drop_last() =~= g.drop_last());
    } else {
        lemma_totals_update(g.drop_last(), i, x);
        assert(u.drop_last() =~= g.drop_last().update(i, x));
    }
}

/// Grouping by application neither loses nor adds CPU time or processes:
/// the buckets hold all the ticks and all the processes of the entries,
/// and no application has two buckets.
pub proof fn lemma_group_conserves(entries: Seq<(Seq<char>, u64)>)
    ensures
        bucket_ticks_total(group_spec(entries)) == entry_ticks_total(entries),
        bucket_process_total(group_spec(entries)) == entries.len(),
        forall|i: int, j: int|
            0 <= i < j < group_spec(entries).len() ==> (#[trigger] group_spec(entries)[i]).0 != (
            #[trigger] group_spec(entries)[j]).0,
    decreases entries.len(),
{
    lemma_group_names_unique(entries);
    if entries.len() > 0 {
        let d = entries.drop_last();
        lemma_group_conserves(d);
        let g = group_spec(d);
        let (n, t) = entries.last();
        match bucket_position(g, n) {
            Some(i) => {
                lemma_totals_update(g, i, (n, g[i].1 + t, g[i].2 + 1));
            },
            None => {
                assert(g.push((n, t as int, 1)).drop_last() =~= g);
            },
        }
    }
}

} // verus!
