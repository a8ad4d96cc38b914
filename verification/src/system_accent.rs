//! The system accent colour: GNOME's accent names mapped to their palette,
//! and colour channels written as CSS hex.

use vstd::prelude::*;
use crate::text::{chars_of, str_eq, string_of, trim, trim_chars};

verus! {

/// An accent colour and its stronger shade, as CSS hex.
#[derive(Debug)]
pub struct SystemAccentColor {
    pub name: String,
    pub color: String,
    pub strong: String,
}

/// GNOME's palette: colour and strong shade of each accent name.
pub open spec fn palette(name: Seq<char>) -> Option<(Seq<char>, Seq<char>)> {
    if name == "blue"@ {
        Some(("#3584e4"@, "#1c71d8"@))
    } else if name == "teal"@ {
        Some(("#2190a4"@, "#1a727f"@))
    } else if name == "green"@ {
        Some(("#3a944a"@, "#2d7339"@))
    } else if name == "yellow"@ {
        Some(("#c88800"@, "#9c6f00"@))
    } else if name == "orange"@ {
        Some(("#ff6900"@, "#e55e00"@))
    } else if name == "red"@ {
        Some(("#e01b24"@, "#c01c28"@))
    } else if name == "pink"@ {
        Some(("#d56199"@, "#b5487d"@))
    } else if name == "purple"@ {
        Some(("#9141ac"@, "#7d3e9d"@))
    } else if name == "slate"@ {
        Some(("#6f8396"@, "#5e7181"@))
    } else if name == "brown"@ {
        Some(("#b5835a"@, "#986a44"@))
    } else {
        None
    }
}

/// Whether `c` describes accent `name` with the palette's colours.
pub open spec fn describes_accent(c: SystemAccentColor, name: Seq<char>) -> bool {
    &&& palette(name) is Some
    &&& c.name@ == name
    &&& c.color@ == palette(name).unwrap().0
    &&& c.strong@ == palette(name).unwrap().1
}

fn accent(name: &str, color: &str, strong: &str) -> (r: SystemAccentColor)
    ensures
        r.name@ == name@,
        r.color@ == color@,
        r.strong@ == strong@,
{
    SystemAccentColor {
        name: string_of(chars_of(name).as_slice()),
        color: string_of(chars_of(color).as_slice()),
        strong: string_of(chars_of(strong).as_slice()),
    }
}

/// The palette entry of a GNOME accent name; `None` for an unknown name.
pub fn accent_from_name(name: &str) -> (r: Option<SystemAccentColor>)
    ensures
        palette(name@) is None ==> r is None,
        palette(name@) is Some ==> (r matches Some(c) && describes_accent(c, name@)),
{
    if str_eq(name, "blue") {
        Some(accent(name, "#3584e4", "#1c71d8"))
    } else if str_eq(name, "teal") {
        Some(accent(name, "#2190a4", "#1a727f"))
    } else if str_eq(name, "green") {
        Some(accent(name, "#3a944a", "#2d7339"))
    } else if str_eq(name, "yellow") {
        Some(accent(name, "#c88800", "#9c6f00"))
    } else if str_eq(name, "orange") {
        Some(accent(name, "#ff6900", "#e55e00"))
    } else if str_eq(name, "red") {
        Some(accent(name, "#e01b24", "#c01c28"))
    } else if str_eq(name, "pink") {
        Some(accent(name, "#d56199", "#b5487d"))
    } else if str_eq(name, "purple") {
        Some(accent(name, "#9141ac", "#7d3e9d"))
    } else if str_eq(name, "slate") {
        Some(accent(name, "#6f8396", "#5e7181"))
    } else if str_eq(name, "brown") {
        Some(accent(name, "#b5835a", "#986a44"))
    } else {
        None
    }
}

/// `s` without any leading or trailing `'` (`trim_matches('\'')`).
pub open spec fn strip_quotes(s: Seq<char>) -> Seq<char>
    decreases s.len(),
{
    if s.len() > 0 && s[0] == '\'' {
        strip_quotes(s.skip(1))
    } else if s.len() > 0 && s.last() == '\'' {
        strip_quotes(s.drop_last())
    } else {
        s
    }
}

/// `s` without leading and trailing quotes.
fn strip_quotes_chars(s: &[char]) -> (r: Vec<char>)
    ensures
        r@ == strip_quotes(s@),
{
    let mut a: usize = 0;
    let mut b: usize = s.len();
    assert(s@.subrange(0, s@.len() as int) =~= s@);
    while a < b && (s[a] == '\'' || s[b - 1] == '\'')
        invariant
            a <= b <= s@.len(),
            strip_quotes(s@) == strip_quotes(s@.subrange(a as int, b as int)),
        decreases b - a,
    {
        if s[a] == '\'' {
            assert(s@.subrange(a as int, b as int).skip(1) =~= s@.subrange(a + 1, b as int));
            a += 1;
        } else {
            assert(s@.subrange(a as int, b as int).drop_last() =~= s@.subrange(a as int, b - 1));
            b -= 1;
        }
    }
    let mut r: Vec<char> = Vec::new();
    let mut i = a;
    while i < b
        invariant
            a <= i <= b <= s@.len(),
            r@ == s@.subrange(a as int, i as int),
        decreases b - i,
    {
        r.push(s[i]);
        i += 1;
        assert(r@ =~= s@.subrange(a as int, i as int));
    }
    r
}

/// The accent name in the output of
/// `gsettings get org.gnome.desktop.interface accent-color`: trimmed, then
/// without its quotes.
pub fn gnome_accent_name(output: &str) -> (r: String)
    ensures
        r@ == strip_quotes(trim(output@)),
{
    let c = chars_of(output);
    let t = trim_chars(c.as_slice());
    let q = strip_quotes_chars(t.as_slice());
    string_of(q.as_slice())
}

/// The accent colour named by that output, when it names a known accent.
pub fn detect_gnome(output: Option<&str>) -> (r: Option<SystemAccentColor>)
    ensures
        match output {
            Some(o) => {
                let name = strip_quotes(trim(o@));
                &&& palette(name) is None ==> r is None
                &&& palette(name) is Some ==> (r matches Some(c) && describes_accent(c, name))
            },
            None => r is None,
        },
{
    match output {
        Some(o) => {
            let name = gnome_accent_name(o);
            accent_from_name(name.as_str())
        },
        None => None,
    }
}

/// The system accent: GTK's selected colour when the theme gives one,
/// otherwise GNOME's accent name.
pub fn detect(gtk: Option<SystemAccentColor>, gsettings_output: Option<&str>) -> (r: Option<
    SystemAccentColor,
>)
    ensures
        gtk is Some ==> r == gtk,
        gtk is None ==> match gsettings_output {
            Some(o) => {
                let name = strip_quotes(trim(o@));
                &&& palette(name) is None ==> r is None
                &&& palette(name) is Some ==> (r matches Some(c) && describes_accent(c, name))
            },
            None => r is None,
        },
{
    match gtk {
        Some(c) => Some(c),
        None => detect_gnome(gsettings_output),
    }
}

/// The lower-case hexadecimal digit for `d` < 16.
pub open spec fn hex_digit(d: int) -> char {
    if d < 10 {
        (d + 48) as char
    } else {
        (d + 87) as char
    }
}

/// `#rrggbb` in lower-case hexadecimal.
pub open spec fn rgb_hex_spec(red: u8, green: u8, blue: u8) -> Seq<char> {
    seq![
        '#',
        hex_digit(red as int / 16),
        hex_digit(red as int % 16),
        hex_digit(green as int / 16),
        hex_digit(green as int % 16),
        hex_digit(blue as int / 16),
        hex_digit(blue as int % 16),
    ]
}

fn hex_of(d: u8) -> (r: char)
    requires
        d < 16,
    ensures
        r == hex_digit(d as int),
{
    if d < 10 {
        (d + 48) as char
    } else {
        (d + 87) as char
    }
}

/// The CSS colour `#rrggbb` of three 8-bit channels.
pub fn rgb_hex(red: u8, green: u8, blue: u8) -> (r: String)
    ensures
        r@ == rgb_hex_spec(red, green, blue),
{
    let mut v: Vec<char> = Vec::new();
    v.push('#');
    v.push(hex_of(red / 16));
    v.push(hex_of(red % 16));
    v.push(hex_of(green / 16));
    v.push(hex_of(green % 16));
    v.push(hex_of(blue / 16));
    v.push(hex_of(blue % 16));
    assert(v@ =~= rgb_hex_spec(red, green, blue));
    string_of(v.as_slice())
}

} // verus!
