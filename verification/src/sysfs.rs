//! The attributes of one `power_supply` (or cpufreq/devfreq) directory, as
//! text: each attribute read from its file, trimmed, and kept when not empty.

use vstd::prelude::*;
use crate::text::{chars_eq, chars_lt, chars_of, extend_chars, lex_lt, lemma_lex_total, parse_i64, parse_i64_spec, string_of, trim, trim_chars};

verus! {

/// The first value recorded for `name` in `entries`.
pub open spec fn lookup(entries: Seq<(Seq<char>, Seq<char>)>, name: Seq<char>) -> Option<Seq<char>>
    decreases entries.len(),
{
    if entries.len() == 0 {
        None
    } else if entries[0].0 == name {
        Some(entries[0].1)
    } else {
        lookup(entries.skip(1), name)
    }
}

/// Attribute texts of one device directory.
pub struct Attributes {
    entries: Vec<(Vec<char>, Vec<char>)>,
}

impl Attributes {
    /// The attribute list, newest first.
    pub closed spec fn entries_view(&self) -> Seq<(Seq<char>, Seq<char>)> {
        self.entries@.map_values(|e: (Vec<char>, Vec<char>)| (e.0@, e.1@))
    }

    /// The trimmed, non-empty text of attribute `name`, if it was read.
    pub open spec fn text(&self, name: Seq<char>) -> Option<Seq<char>> {
        lookup(self.entries_view(), name)
    }

    /// Attribute `name` read as a decimal integer.
    pub open spec fn int_value(&self, name: Seq<char>) -> Option<i64> {
        match self.text(name) {
            Some(t) => parse_i64_spec(t),
            None => None,
        }
    }

    /// No attribute read yet.
    pub fn new() -> (r: Self)
        ensures
            forall|n: Seq<char>| r.text(n) == None::<Seq<char>>,
    {
        Attributes { entries: Vec::new() }
    }

    /// Records the content of attribute file `name`: trimmed, and only when
    /// something remains.
    pub fn set(&mut self, name: &str, raw: &str)
        ensures
            forall|n: Seq<char>|
                #[trigger] final(self).text(n) == if n == name@ && trim(raw@).len() > 0 {
                    Some(trim(raw@))
                } else {
                    old(self).text(n)
                },
    {
        let raw_chars = chars_of(raw);
        let value = trim_chars(raw_chars.as_slice());
        if value.len() == 0 {
            return;
        }
        let key = chars_of(name);
        let ghost before = self.entries_view();
        self.entries.insert(0, (key, value));
        proof {
            let after = self.entries_view();
            assert(after.skip(1) =~= before);
        }
    }

    /// The text of attribute `name`.
    pub fn get(&self, name: &str) -> (r: Option<Vec<char>>)
        ensures
            match r {
                Some(v) => self.text(name@) == Some(v@),
                None => self.text(name@) == None::<Seq<char>>,
            },
    {
        let key = chars_of(name);
        let mut i: usize = 0;
        assert(self.entries_view().skip(0) =~= self.entries_view());
        while i < self.entries.len()
            invariant
                key@ == name@,
                i <= self.entries@.len(),
                self.entries_view().len() == self.entries@.len(),
                lookup(self.entries_view(), key@) == lookup(
                    self.entries_view().skip(i as int),
                    key@,
                ),
            decreases self.entries@.len() - i,
        {
            let ghost rest = self.entries_view().skip(i as int);
            assert(rest[0] == (self.entries@[i as int].0@, self.entries@[i as int].1@));
            if chars_eq(self.entries[i].0.as_slice(), key.as_slice()) {
                let mut out: Vec<char> = Vec::new();
                extend_chars(&mut out, self.entries[i].1.as_slice());
                assert(out@ =~= self.entries@[i as int].1@);
                assert(lookup(rest, key@) == Some(rest[0].1));
                return Some(out);
            }
            assert(rest.skip(1) =~= self.entries_view().skip(i + 1));
            i += 1;
        }
        None
    }

    /// Whether attribute `name` was read with the text `expected`.
    pub fn is(&self, name: &str, expected: &str) -> (r: bool)
        ensures
            r == (self.text(name@) == Some(expected@)),
    {
        match self.get(name) {
            Some(v) => {
                let e = chars_of(expected);
                chars_eq(v.as_slice(), e.as_slice())
            },
            None => false,
        }
    }

    /// Attribute `name` as a decimal integer (`read_i64`).
    pub fn get_i64(&self, name: &str) -> (r: Option<i64>)
        ensures
            r == self.int_value(name@),
    {
        match self.get(name) {
            Some(v) => parse_i64(v.as_slice()),
            None => None,
        }
    }
}

/// The text of an attribute file as the program keeps it: trimmed, and
/// `None` when nothing remains (`read_raw`).
pub fn read_raw(raw: &str) -> (r: Option<String>)
    ensures
        match r {
            Some(s) => trim(raw@).len() > 0 && s@ == trim(raw@),
            None => trim(raw@).len() == 0,
        },
{
    let c = chars_of(raw);
    let t = trim_chars(c.as_slice());
    if t.len() == 0 {
        None
    } else {
        Some(string_of(t.as_slice()))
    }
}

/// The content of an integer attribute file read as an `i64` (`read_i64`).
pub fn read_i64(raw: &str) -> (r: Option<i64>)
    ensures
        r == parse_i64_spec(trim(raw@)),
{
    let c = chars_of(raw);
    let t = trim_chars(c.as_slice());
    parse_i64(t.as_slice())
}


/// One `power_supply` device: its directory name and its attributes.
pub struct Device {
    pub name: String,
    pub attrs: Attributes,
}


/// The views of a sequence of strings.
pub open spec fn views(s: Seq<String>) -> Seq<Seq<char>> {
    s.map_values(|x: String| x@)
}

/// Whether the names are in `String` order (no name is below its predecessor).
pub open spec fn names_sorted(s: Seq<Seq<char>>) -> bool {
    forall|i: int| 0 <= i < s.len() - 1 ==> !lex_lt(#[trigger] s[i + 1], s[i])
}

/// The device names of the `power_supply` directory in `String` order
/// (`list_devices`, given the directory's entries).
pub fn list_devices(names: Vec<String>) -> (r: Vec<String>)
    ensures
        names_sorted(views(r@)),
        views(r@).to_multiset() == views(names@).to_multiset(),
{
    broadcast use vstd::seq_lib::group_to_multiset_ensures;

    let mut out: Vec<String> = Vec::new();
    let mut names = names;
    let ghost original = views(names@);
    let mut taken: Vec<String> = Vec::new();
    let n = names.len();
    let mut i: usize = 0;
    while i < n
        invariant
            n == names@.len(),
            i <= n,
            views(names@) == original,
            names_sorted(views(out@)),
            views(out@).to_multiset() == original.take(i as int).to_multiset(),
        decreases n - i,
    {
        let x = names[i].clone();
        let xc = chars_of(x.as_str());
        let mut p = out.len();
        loop
            invariant
                p <= out@.len(),
                xc@ == x@,
                forall|k: int| p <= k < out@.len() ==> lex_lt(x@, #[trigger] out@[k]@),
            ensures
                p <= out@.len(),
                forall|k: int| p <= k < out@.len() ==> lex_lt(x@, #[trigger] out@[k]@),
                p > 0 ==> !lex_lt(x@, out@[p - 1]@),
            decreases p,
        {
            if p == 0 {
                break;
            }
            let prev = chars_of(out[p - 1].as_str());
            if !chars_lt(xc.as_slice(), prev.as_slice()) {
                break;
            }
            p -= 1;
        }
        let ghost before = views(out@);
        let ghost raw_before = out@;
        proof {
            if p < raw_before.len() {
                assert(lex_lt(x@, raw_before[p as int]@));
                assert(before[p as int] == raw_before[p as int]@);
            }
            if p > 0 {
                assert(before[p - 1] == raw_before[p - 1]@);
            }
            assert(names_sorted(before));
        }
        out.insert(p, x);
        proof {
            assert(views(out@) =~= before.insert(p as int, x@));
            assert(x@ == original[i as int]);
            assert(original.take(i + 1) =~= original.take(i as int).push(original[i as int]));
            vstd::seq_lib::to_multiset_insert(before, p as int, x@);
            assert(views(out@).to_multiset() == before.to_multiset().insert(x@));
            vstd::seq_lib::to_multiset_build(original.take(i as int), original[i as int]);
            before.insert_ensures(p as int, x@);
            assert forall|k: int| 0 <= k < views(out@).len() - 1 implies !lex_lt(
                #[trigger] views(out@)[k + 1],
                views(out@)[k],
            ) by {
                if k + 1 < p {
                    assert(views(out@)[k + 1] == before[k + 1]);
                    assert(views(out@)[k] == before[k]);
                } else if k + 1 == p {
                    assert(views(out@)[k + 1] == x@);
                    assert(views(out@)[k] == before[k]);
                } else if k == p {
                    assert(views(out@)[k] == x@);
                    assert(views(out@)[k + 1] == before[p as int]);
                    lemma_lex_total(x@, before[p as int]);
                } else {
                    assert(views(out@)[k + 1] == before[k]);
                    assert(views(out@)[k] == before[k - 1]);
                }
            }
        }
        i += 1;
    }
    assert(original.take(n as int) =~= original);
    out
}


/// The path of attribute `attr` of `power_supply` device `dev`.
pub open spec fn attr_path(dev: Seq<char>, attr: Seq<char>) -> Seq<char> {
    "/sys/class/power_supply/"@ + dev + "/"@ + attr
}

/// The path of attribute `attr` of `power_supply` device `dev`.
pub fn path(dev: &str, attr: &str) -> (r: String)
    ensures
        r@ == attr_path(dev@, attr@),
{
    let mut v = chars_of("/sys/class/power_supply/");
    crate::text::extend_str(&mut v, dev);
    crate::text::extend_str(&mut v, "/");
    crate::text::extend_str(&mut v, attr);
    string_of(v.as_slice())
}

} // verus!
