use vstd::prelude::*;
use crate::text::{chars_of, push_chars};

verus! {

/// A color as red, green and blue channels.
#[derive(PartialEq, Eq, Structural, Clone, Copy, Debug)]
pub struct Rgb {
    pub r: u8,
    pub g: u8,
    pub b: u8,
}

/// Why a color text was refused.
#[derive(PartialEq, Eq, Structural, Clone, Copy, Debug)]
pub enum InvalidColor {
    /// The hex body has this many characters, neither 3 nor 6.
    Length(usize),
    /// An `rgb(...)` text has only this many comma-separated components.
    Components(usize),
    /// The component (0, 1 or 2) or hex channel at this position is not a valid byte.
    Component(usize),
}

/// Names what `str::trim` leaves of a text.
pub uninterp spec fn trimmed(s: Seq<char>) -> Seq<char>;

/// Relies on `str::trim`: the text without leading and trailing whitespace.
#[verifier::external_body]
fn trim(s: &str) -> (r: &str)
    ensures
        r@ == trimmed(s@),
{
    s.trim()
}

pub open spec fn is_digit(c: char) -> bool {
    '0' <= c && c <= '9'
}

/// Value of a hexadecimal digit, in either case.
pub open spec fn hex_value(c: char) -> Option<nat> {
    if '0' <= c && c <= '9' {
        Some((c as nat - '0' as nat) as nat)
    } else if 'a' <= c && c <= 'f' {
        Some((c as nat - 'a' as nat + 10) as nat)
    } else if 'A' <= c && c <= 'F' {
        Some((c as nat - 'A' as nat + 10) as nat)
    } else {
        None
    }
}

/// The value of a string of decimal digits.
pub open spec fn decimal_value(s: Seq<char>) -> nat
    decreases s.len(),
{
    if s.len() == 0 {
        0
    } else {
        (decimal_value(s.drop_last()) * 10 + (s.last() as nat - '0' as nat)) as nat
    }
}

/// A non-empty string of decimal digits whose value fits in a byte.
pub open spec fn decimal_byte(s: Seq<char>) -> Option<u8> {
    if s.len() > 0 && (forall|i: int| 0 <= i < s.len() ==> is_digit(#[trigger] s[i]))
        && decimal_value(s) <= 255 {
        Some(decimal_value(s) as u8)
    } else {
        None
    }
}

/// `s` split at every comma; `n` commas give `n + 1` parts.
pub open spec fn split_commas(s: Seq<char>) -> Seq<Seq<char>>
    decreases s.len(),
{
    if s.len() == 0 {
        seq![Seq::empty()]
    } else {
        let p = split_commas(s.drop_last());
        if s.last() == ',' {
            p.push(Seq::empty())
        } else {
            p.update(p.len() - 1, p.last().push(s.last()))
        }
    }
}

pub open spec fn is_rgb_call(t: Seq<char>) -> bool {
    t.len() >= 5 && t[0] == 'r' && t[1] == 'g' && t[2] == 'b' && t[3] == '(' && t.last() == ')'
}

/// The three leading components of the interior of `rgb(...)`, each trimmed and read as a byte.
pub open spec fn rgb_spec(inner: Seq<char>) -> Result<Rgb, InvalidColor> {
    let parts = split_commas(inner);
    if parts.len() < 3 {
        Err(InvalidColor::Components(parts.len() as usize))
    } else if decimal_byte(trimmed(parts[0])) is None {
        Err(InvalidColor::Component(0))
    } else if decimal_byte(trimmed(parts[1])) is None {
        Err(InvalidColor::Component(1))
    } else if decimal_byte(trimmed(parts[2])) is None {
        Err(InvalidColor::Component(2))
    } else {
        Ok(Rgb {
            r: decimal_byte(trimmed(parts[0]))->Some_0,
            g: decimal_byte(trimmed(parts[1]))->Some_0,
            b: decimal_byte(trimmed(parts[2]))->Some_0,
        })
    }
}

/// The value of the two hex digits `a` and `b`, or `None`.
pub open spec fn hex_pair(a: char, b: char) -> Option<u8> {
    match (hex_value(a), hex_value(b)) {
        (Some(x), Some(y)) => Some((16 * x + y) as u8),
        _ => None,
    }
}

/// A hex body of 3 digits (each one doubled) or of 6 digits.
pub open spec fn hex_spec(h: Seq<char>) -> Result<Rgb, InvalidColor> {
    if h.len() == 3 {
        if hex_pair(h[0], h[0]) is None {
            Err(InvalidColor::Component(0))
        } else if hex_pair(h[1], h[1]) is None {
            Err(InvalidColor::Component(1))
        } else if hex_pair(h[2], h[2]) is None {
            Err(InvalidColor::Component(2))
        } else {
            Ok(Rgb {
                r: hex_pair(h[0], h[0])->Some_0,
                g: hex_pair(h[1], h[1])->Some_0,
                b: hex_pair(h[2], h[2])->Some_0,
            })
        }
    } else if h.len() == 6 {
        if hex_pair(h[0], h[1]) is None {
            Err(InvalidColor::Component(0))
        } else if hex_pair(h[2], h[3]) is None {
            Err(InvalidColor::Component(1))
        } else if hex_pair(h[4], h[5]) is None {
            Err(InvalidColor::Component(2))
        } else {
            Ok(Rgb {
                r: hex_pair(h[0], h[1])->Some_0,
                g: hex_pair(h[2], h[3])->Some_0,
                b: hex_pair(h[4], h[5])->Some_0,
            })
        }
    } else {
        Err(InvalidColor::Length(h.len() as usize))
    }
}

/// What a color text means once trimmed: `rgb(r,g,b[,...])`, or hex with an optional `#`.
pub open spec fn color_spec(t: Seq<char>) -> Result<Rgb, InvalidColor> {
    if is_rgb_call(t) {
        rgb_spec(t.subrange(4, t.len() - 1))
    } else if t.len() > 0 && t[0] == '#' {
        hex_spec(t.drop_first())
    } else {
        hex_spec(t)
    }
}

fn hex_digit(c: char) -> (r: Option<u8>)
    ensures
        r is Some <==> hex_value(c) is Some,
        r is Some ==> r->Some_0 as nat == hex_value(c)->Some_0,
{
    if '0' <= c && c <= '9' {
        Some(((c as u32) - ('0' as u32)) as u8)
    } else if 'a' <= c && c <= 'f' {
        Some(((c as u32) - ('a' as u32) + 10) as u8)
    } else if 'A' <= c && c <= 'F' {
        Some(((c as u32) - ('A' as u32) + 10) as u8)
    } else {
        None
    }
}

fn hex_byte(a: char, b: char) -> (r: Option<u8>)
    ensures
        r == hex_pair(a, b),
{
    match (hex_digit(a), hex_digit(b)) {
        (Some(x), Some(y)) => Some(16 * x + y),
        _ => None,
    }
}

fn parse_hex(h: &Vec<char>) -> (r: Result<Rgb, InvalidColor>)
    ensures
        r == hex_spec(h@),
{
    if h.len() == 3 {
        let r = hex_byte(h[0], h[0]);
        let g = hex_byte(h[1], h[1]);
        let b = hex_byte(h[2], h[2]);
        match (r, g, b) {
            (Some(r), Some(g), Some(b)) => Ok(Rgb { r, g, b }),
            (None, _, _) => Err(InvalidColor::Component(0)),
            (_, None, _) => Err(InvalidColor::Component(1)),
            _ => Err(InvalidColor::Component(2)),
        }
    } else if h.len() == 6 {
        let r = hex_byte(h[0], h[1]);
        let g = hex_byte(h[2], h[3]);
        let b = hex_byte(h[4], h[5]);
        match (r, g, b) {
            (Some(r), Some(g), Some(b)) => Ok(Rgb { r, g, b }),
            (None, _, _) => Err(InvalidColor::Component(0)),
            (_, None, _) => Err(InvalidColor::Component(1)),
            _ => Err(InvalidColor::Component(2)),
        }
    } else {
        Err(InvalidColor::Length(h.len()))
    }
}

/// Reads a string of decimal digits as a byte.
pub fn parse_byte(t: &str) -> (r: Option<u8>)
    ensures
        r == decimal_byte(t@),
{
    let cs = chars_of(t);
    parse_decimal_byte(&cs)
}

fn parse_decimal_byte(s: &Vec<char>) -> (r: Option<u8>)
    ensures
        r == decimal_byte(s@),
{
    if s.len() == 0 {
        return None;
    }
    let mut v: u32 = 0;
    let mut i: usize = 0;
    while i < s.len()
        invariant
            i <= s@.len(),
            v as nat == decimal_value(s@.take(i as int)),
            v <= 255,
            forall|j: int| 0 <= j < i ==> is_digit(#[trigger] s@[j]),
        decreases s@.len() - i,
    {
        let c = s[i];
        proof {
            assert(s@.take(i + 1).drop_last() == s@.take(i as int));
        }
        if !('0' <= c && c <= '9') {
            return None;
        }
        v = v * 10 + ((c as u32) - ('0' as u32));
        if v > 255 {
            proof {
                if forall|j: int| 0 <= j < s@.len() ==> is_digit(#[trigger] s@[j]) {
                    lemma_decimal_value_grows(s@, i as int + 1);
                }
            }
            return None;
        }
        i = i + 1;
    }
    assert(s@.take(s@.len() as int) == s@);
    Some(v as u8)
}

proof fn lemma_decimal_value_grows(s: Seq<char>, k: int)
    requires
        0 <= k <= s.len(),
        forall|j: int| 0 <= j < s.len() ==> is_digit(#[trigger] s[j]),
    ensures
        decimal_value(s) >= decimal_value(s.take(k)),
    decreases s.len() - k,
{
    if k < s.len() {
        lemma_decimal_value_grows(s, k + 1);
        assert(s.take(k + 1).drop_last() == s.take(k));
    } else {
        assert(s.take(k) == s);
    }
}

/// The parts of `s` between commas.
fn split_at_commas(s: &Vec<char>) -> (r: Vec<Vec<char>>)
    ensures
        r@.map_values(|p: Vec<char>| p@) == split_commas(s@),
{
    let mut parts: Vec<Vec<char>> = Vec::new();
    let mut cur: Vec<char> = Vec::new();
    let mut i: usize = 0;
    assert(s@.take(0) == Seq::<char>::empty());
    assert(parts@.map_values(|p: Vec<char>| p@).push(cur@) == split_commas(s@.take(0)));
    while i < s.len()
        invariant
            i <= s@.len(),
            parts@.map_values(|p: Vec<char>| p@).push(cur@) == split_commas(s@.take(i as int)),
        decreases s@.len() - i,
    {
        let c = s[i];
        let ghost before = parts@.map_values(|p: Vec<char>| p@).push(cur@);
        proof {
            assert(s@.take(i + 1).drop_last() == s@.take(i as int));
        }
        if c == ',' {
            parts.push(cur);
            cur = Vec::new();
            assert(parts@.map_values(|p: Vec<char>| p@).push(cur@) =~= before.push(Seq::empty()));
        } else {
            cur.push(c);
            assert(parts@.map_values(|p: Vec<char>| p@).push(cur@) =~= before.update(
                before.len() - 1,
                before.last().push(c),
            ));
        }
        i = i + 1;
    }
    assert(s@.take(s@.len() as int) == s@);
    parts.push(cur);
    assert(parts@.map_values(|p: Vec<char>| p@) =~= split_commas(s@));
    parts
}

/// Reads one `rgb(...)` component: trimmed, then a decimal byte.
fn component_byte(p: &Vec<char>) -> (r: Option<u8>)
    ensures
        r == decimal_byte(trimmed(p@)),
{
    let mut text = String::new();
    push_chars(&mut text, p);
    parse_byte(trim(text.as_str()))
}

fn parse_rgb(inner: &Vec<char>) -> (r: Result<Rgb, InvalidColor>)
    ensures
        r == rgb_spec(inner@),
{
    let parts = split_at_commas(inner);
    let ghost views = parts@.map_values(|p: Vec<char>| p@);
    if parts.len() < 3 {
        return Err(InvalidColor::Components(parts.len()));
    }
    assert(views[0] == parts@[0]@ && views[1] == parts@[1]@ && views[2] == parts@[2]@);
    let r = component_byte(&parts[0]);
    let g = component_byte(&parts[1]);
    let b = component_byte(&parts[2]);
    match (r, g, b) {
        (Some(r), Some(g), Some(b)) => Ok(Rgb { r, g, b }),
        (None, _, _) => Err(InvalidColor::Component(0)),
        (_, None, _) => Err(InvalidColor::Component(1)),
        _ => Err(InvalidColor::Component(2)),
    }
}

/// Parses a color text that has already been trimmed.
pub fn parse_color_trimmed(t: &str) -> (r: Result<Rgb, InvalidColor>)
    ensures
        r == color_spec(t@),
{
    let cs = chars_of(t);
    let n = cs.len();
    if n >= 5 && cs[0] == 'r' && cs[1] == 'g' && cs[2] == 'b' && cs[3] == '(' && cs[n - 1] == ')' {
        let mut inner: Vec<char> = Vec::new();
        let mut i: usize = 4;
        while i < n - 1
            invariant
                4 <= i <= n - 1,
                n == cs@.len(),
                inner@ == cs@.subrange(4, i as int),
            decreases n - 1 - i,
        {
            inner.push(cs[i]);
            proof {
                assert(cs@.subrange(4, i + 1) == cs@.subrange(4, i as int).push(cs@[i as int]));
            }
            i = i + 1;
        }
        parse_rgb(&inner)
    } else {
        let start: usize = if n > 0 && cs[0] == '#' { 1 } else { 0 };
        let mut h: Vec<char> = Vec::new();
        let mut i: usize = start;
        while i < n
            invariant
                start <= i <= n,
                n == cs@.len(),
                h@ == cs@.subrange(start as int, i as int),
            decreases n - i,
        {
            h.push(cs[i]);
            proof {
                assert(cs@.subrange(start as int, i + 1) == cs@.subrange(start as int, i as int).push(cs@[i as int]));
            }
            i = i + 1;
        }
        assert(start == 0 ==> h@ == cs@);
        assert(start == 1 ==> h@ == cs@.drop_first());
        parse_hex(&h)
    }
}

/// Parses `rgb(r,g,b)` (further components ignored) or a 3- or 6-digit hex color with an
/// optional leading `#`, after trimming surrounding whitespace.
pub fn parse_color(color_str: &str) -> (r: Result<Rgb, InvalidColor>)
    ensures
        r == color_spec(trimmed(color_str@)),
{
    parse_color_trimmed(trim(color_str))
}

} // verus!
