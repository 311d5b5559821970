//! JSON values: the body model, a parser, and a serializer.
//!
//! A body is stored as parsed JSON when its text parses, else as a plain
//! string. Number tokens are kept as their source text, so serializing a
//! parsed value reproduces the token.

use vstd::prelude::*;
use crate::strutil::{str_chars, chars_to_string};

verus! {

/// A JSON value. Numbers keep their source token text.
pub enum Json {
    Null,
    Bool(bool),
    Num(String),
    Str(String),
    Arr(Vec<Json>),
    Obj(Vec<(String, Json)>),
}

/// The mathematical shape of a JSON value.
#[verifier::ext_equal]
pub enum JsonV {
    Null,
    Bool(bool),
    Num(Seq<char>),
    Str(Seq<char>),
    Arr(Seq<JsonV>),
    Obj(Seq<(Seq<char>, JsonV)>),
}

impl Json {
    pub open spec fn view(&self) -> JsonV
        decreases self, 0int,
    {
        match self {
            Json::Null => JsonV::Null,
            Json::Bool(b) => JsonV::Bool(*b),
            Json::Num(s) => JsonV::Num(s@),
            Json::Str(s) => JsonV::Str(s@),
            Json::Arr(v) => JsonV::Arr(views_of(v@)),
            Json::Obj(v) => JsonV::Obj(pair_views_of(v@)),
        }
    }
}

/// The views of a sequence of values, elementwise.
pub open spec fn views_of(v: Seq<Json>) -> Seq<JsonV>
    decreases v, 1int,
{
    Seq::new(
        v.len(),
        |i: int|
            if 0 <= i < v.len() {
                v[i].view()
            } else {
                JsonV::Null
            },
    )
}

/// The views of a sequence of key/value pairs, elementwise.
pub open spec fn pair_views_of(v: Seq<(String, Json)>) -> Seq<(Seq<char>, JsonV)>
    decreases v, 1int,
{
    Seq::new(
        v.len(),
        |i: int|
            if 0 <= i < v.len() {
                (v[i].0@, v[i].1.view())
            } else {
                (Seq::empty(), JsonV::Null)
            },
    )
}

// ---------------------------------------------------------------------------
// Character classes
// ---------------------------------------------------------------------------

pub open spec fn is_json_ws(c: char) -> bool {
    c == ' ' || c == '\t' || c == '\n' || c == '\r'
}

pub open spec fn is_digit(c: char) -> bool {
    48 <= c as u32 && c as u32 <= 57
}

pub open spec fn digit_val(c: char) -> int {
    c as u32 - 48
}

pub open spec fn is_hex(c: char) -> bool {
    is_digit(c) || (97 <= c as u32 && c as u32 <= 102) || (65 <= c as u32 && c as u32 <= 70)
}

pub open spec fn hex_val(c: char) -> int {
    if is_digit(c) {
        digit_val(c)
    } else if 97 <= c as u32 && c as u32 <= 102 {
        c as u32 - 87
    } else {
        c as u32 - 55
    }
}

/// First index at or after `i` that does not hold JSON whitespace.
pub open spec fn skip_ws(s: Seq<char>, i: int) -> int
    decreases s.len() - i,
{
    if 0 <= i && i < s.len() && is_json_ws(s[i]) {
        skip_ws(s, i + 1)
    } else {
        i
    }
}

/// First index at or after `i` that does not hold a decimal digit.
pub open spec fn digits_end(s: Seq<char>, i: int) -> int
    decreases s.len() - i,
{
    if 0 <= i && i < s.len() && is_digit(s[i]) {
        digits_end(s, i + 1)
    } else {
        i
    }
}

pub proof fn lemma_digits_end_bounds(s: Seq<char>, i: int)
    requires
        0 <= i <= s.len(),
    ensures
        i <= digits_end(s, i) <= s.len(),
    decreases s.len() - i,
{
    if i < s.len() && is_digit(s[i]) {
        lemma_digits_end_bounds(s, i + 1);
    }
}

// ---------------------------------------------------------------------------
// Spec-level parser
// ---------------------------------------------------------------------------

/// The short escapes after a backslash in a string literal.
pub open spec fn unescape_short(c: char) -> Option<char> {
    if c == '"' {
        Some('"')
    } else if c == '\\' {
        Some('\\')
    } else if c == '/' {
        Some('/')
    } else if c == 'b' {
        Some('\u{8}')
    } else if c == 'f' {
        Some('\u{c}')
    } else if c == 'n' {
        Some('\n')
    } else if c == 'r' {
        Some('\r')
    } else if c == 't' {
        Some('\t')
    } else {
        None
    }
}

pub open spec fn hex4_val(s: Seq<char>, i: int) -> int {
    hex_val(s[i]) * 4096 + hex_val(s[i + 1]) * 256 + hex_val(s[i + 2]) * 16 + hex_val(s[i + 3])
}

pub open spec fn all_hex4(s: Seq<char>, i: int) -> bool {
    i + 4 <= s.len() && is_hex(s[i]) && is_hex(s[i + 1]) && is_hex(s[i + 2]) && is_hex(s[i + 3])
}

/// Parse the inside of a string literal from `i` up to and past the closing
/// quote; the result is the decoded text and the index after the quote.
pub open spec fn parse_string_body(s: Seq<char>, i: int) -> Option<(Seq<char>, int)>
    decreases s.len() - i,
{
    if !(0 <= i && i < s.len()) {
        None
    } else if s[i] == '"' {
        Some((Seq::empty(), i + 1))
    } else if s[i] == '\\' {
        if i + 1 < s.len() {
            let e = s[i + 1];
            if e == 'u' {
                if all_hex4(s, i + 2) {
                    let code = hex4_val(s, i + 2);
                    if 0xD800 <= code && code < 0xDC00 {
                        // high surrogate: a low surrogate escape must follow
                        if i + 12 <= s.len() && s[i + 6] == '\\' && s[i + 7] == 'u' && all_hex4(
                            s,
                            i + 8,
                        ) {
                            let lo = hex4_val(s, i + 8);
                            if 0xDC00 <= lo && lo < 0xE000 {
                                let cp = 0x10000 + (code - 0xD800) * 0x400 + (lo - 0xDC00);
                                match parse_string_body(s, i + 12) {
                                    Some((rest, k)) => Some((seq![(cp as u32) as char] + rest, k)),
                                    None => None,
                                }
                            } else {
                                None
                            }
                        } else {
                            None
                        }
                    } else if 0xDC00 <= code && code < 0xE000 {
                        None
                    } else {
                        match parse_string_body(s, i + 6) {
                            Some((rest, k)) => Some((seq![(code as u32) as char] + rest, k)),
                            None => None,
                        }
                    }
                } else {
                    None
                }
            } else {
                match unescape_short(e) {
                    Some(c) => match parse_string_body(s, i + 2) {
                        Some((rest, k)) => Some((seq![c] + rest, k)),
                        None => None,
                    },
                    None => None,
                }
            }
        } else {
            None
        }
    } else if (s[i] as u32) < 32 {
        None
    } else {
        match parse_string_body(s, i + 1) {
            Some((rest, k)) => Some((seq![s[i]] + rest, k)),
            None => None,
        }
    }
}

/// Parse a number token starting at `i`; the result is the token text and
/// the index after it.
pub open spec fn parse_number(s: Seq<char>, i: int) -> Option<(Seq<char>, int)> {
    if !(0 <= i && i < s.len()) {
        None
    } else {
        let i1 = if s[i] == '-' {
            i + 1
        } else {
            i
        };
        if i1 < s.len() && is_digit(s[i1]) {
            let i2 = if s[i1] == '0' {
                i1 + 1
            } else {
                digits_end(s, i1)
            };
            let i3 = if i2 < s.len() && s[i2] == '.' {
                let e = digits_end(s, i2 + 1);
                if e > i2 + 1 {
                    e
                } else {
                    -1
                }
            } else {
                i2
            };
            if i3 < 0 {
                None
            } else {
                let i4 = if i3 < s.len() && (s[i3] == 'e' || s[i3] == 'E') {
                    let sgn = if i3 + 1 < s.len() && (s[i3 + 1] == '+' || s[i3 + 1] == '-') {
                        i3 + 2
                    } else {
                        i3 + 1
                    };
                    let e = digits_end(s, sgn);
                    if e > sgn {
                        e
                    } else {
                        -1
                    }
                } else {
                    i3
                };
                if i4 < 0 {
                    None
                } else {
                    Some((s.subrange(i, i4), i4))
                }
            }
        } else {
            None
        }
    }
}

/// Parse one JSON element starting exactly at `i` (no leading whitespace);
/// the result index stands just past the element.
pub open spec fn parse_elem(s: Seq<char>, i: int) -> Option<(JsonV, int)>
    decreases s.len() - i, 0int,
{
    if !(0 <= i && i < s.len()) {
        None
    } else if s[i] == 'n' {
        if crate::strutil::matches_at(s, "null"@, i) {
            Some((JsonV::Null, i + 4))
        } else {
            None
        }
    } else if s[i] == 't' {
        if crate::strutil::matches_at(s, "true"@, i) {
            Some((JsonV::Bool(true), i + 4))
        } else {
            None
        }
    } else if s[i] == 'f' {
        if crate::strutil::matches_at(s, "false"@, i) {
            Some((JsonV::Bool(false), i + 5))
        } else {
            None
        }
    } else if s[i] == '"' {
        match parse_string_body(s, i + 1) {
            Some((txt, k)) => Some((JsonV::Str(txt), k)),
            None => None,
        }
    } else if s[i] == '[' {
        let j = skip_ws(s, i + 1);
        if !(i < j && j <= s.len()) {
            None
        } else if j < s.len() && s[j] == ']' {
            Some((JsonV::Arr(Seq::empty()), j + 1))
        } else {
            match parse_items(s, j) {
                Some((items, k)) => Some((JsonV::Arr(items), k)),
                None => None,
            }
        }
    } else if s[i] == '{' {
        let j = skip_ws(s, i + 1);
        if !(i < j && j <= s.len()) {
            None
        } else if j < s.len() && s[j] == '}' {
            Some((JsonV::Obj(Seq::empty()), j + 1))
        } else {
            match parse_members(s, j) {
                Some((pairs, k)) => Some((JsonV::Obj(pairs), k)),
                None => None,
            }
        }
    } else if s[i] == '-' || is_digit(s[i]) {
        match parse_number(s, i) {
            Some((tok, k)) => Some((JsonV::Num(tok), k)),
            None => None,
        }
    } else {
        None
    }
}

/// Parse array items from the first element on; the result index stands just
/// past the closing bracket.
pub open spec fn parse_items(s: Seq<char>, i: int) -> Option<(Seq<JsonV>, int)>
    decreases s.len() - i, 1int,
{
    if !(0 <= i && i <= s.len()) {
        None
    } else {
        match parse_elem(s, i) {
            Some((v, k)) => {
                let k2 = skip_ws(s, k);
                if !(i < k2 && k2 <= s.len()) {
                    None
                } else if k2 < s.len() && s[k2] == ',' {
                    let k3 = skip_ws(s, k2 + 1);
                    if !(i < k3 && k3 <= s.len()) {
                        None
                    } else {
                        match parse_items(s, k3) {
                            Some((rest, m)) => Some((seq![v] + rest, m)),
                            None => None,
                        }
                    }
                } else if k2 < s.len() && s[k2] == ']' {
                    Some((seq![v], k2 + 1))
                } else {
                    None
                }
            },
            None => None,
        }
    }
}

/// Parse object members from the first key on; the result index stands just
/// past the closing brace.
pub open spec fn parse_members(s: Seq<char>, i: int) -> Option<(Seq<(Seq<char>, JsonV)>, int)>
    decreases s.len() - i, 1int,
{
    if !(0 <= i && i < s.len() && s[i] == '"') {
        None
    } else {
        match parse_string_body(s, i + 1) {
            Some((key, k)) => {
                let k2 = skip_ws(s, k);
                if !(i < k2 && k2 < s.len() && s[k2] == ':') {
                    None
                } else {
                    let k3 = skip_ws(s, k2 + 1);
                    if !(i < k3 && k3 <= s.len()) {
                        None
                    } else {
                        match parse_elem(s, k3) {
                            Some((v, k4)) => {
                                let k5 = skip_ws(s, k4);
                                if !(i < k5 && k5 <= s.len()) {
                                    None
                                } else if k5 < s.len() && s[k5] == ',' {
                                    let k6 = skip_ws(s, k5 + 1);
                                    if !(i < k6 && k6 <= s.len()) {
                                        None
                                    } else {
                                        match parse_members(s, k6) {
                                            Some((rest, m)) => Some((seq![(key, v)] + rest, m)),
                                            None => None,
                                        }
                                    }
                                } else if k5 < s.len() && s[k5] == '}' {
                                    Some((seq![(key, v)], k5 + 1))
                                } else {
                                    None
                                }
                            },
                            None => None,
                        }
                    }
                }
            },
            None => None,
        }
    }
}

/// The JSON value that a whole text denotes, if it parses.
pub open spec fn spec_parse_json(s: Seq<char>) -> Option<JsonV> {
    let i = skip_ws(s, 0);
    match parse_elem(s, i) {
        Some((j, k)) => if skip_ws(s, k) == s.len() {
            Some(j)
        } else {
            None
        },
        None => None,
    }
}

// ---------------------------------------------------------------------------
// Executable parser
// ---------------------------------------------------------------------------

/// Relies on `char::from_u32`: `Some` exactly for Unicode scalar values, and
/// the character returned has the given scalar value.
pub assume_specification[ char::from_u32 ](u: u32) -> (r: Option<char>)
    ensures
        r is Some <==> (u < 0xD800 || (0xE000 <= u && u <= 0x10FFFF)),
        r matches Some(c) ==> c == u as char && c as u32 == u,
;

fn is_ws_x(c: char) -> (r: bool)
    ensures
        r == is_json_ws(c),
{
    c == ' ' || c == '\t' || c == '\n' || c == '\r'
}

pub fn is_digit_x(c: char) -> (r: bool)
    ensures
        r == is_digit(c),
{
    let u = c as u32;
    48 <= u && u <= 57
}

fn is_hex_x(c: char) -> (r: bool)
    ensures
        r == is_hex(c),
{
    let u = c as u32;
    (48 <= u && u <= 57) || (97 <= u && u <= 102) || (65 <= u && u <= 70)
}

fn hex_val_x(c: char) -> (r: u32)
    requires
        is_hex(c),
    ensures
        r == hex_val(c),
{
    let u = c as u32;
    if 48 <= u && u <= 57 {
        u - 48
    } else if 97 <= u && u <= 102 {
        u - 87
    } else {
        u - 55
    }
}

pub fn skip_ws_x(s: &Vec<char>, i: usize) -> (r: usize)
    requires
        i <= s@.len(),
    ensures
        r as int == skip_ws(s@, i as int),
        i <= r <= s@.len(),
{
    let n = s.len();
    let mut j = i;
    while j < n && is_ws_x(s[j])
        invariant
            i <= j <= n,
            n == s@.len(),
            skip_ws(s@, i as int) == skip_ws(s@, j as int),
        decreases n - j,
    {
        j += 1;
    }
    j
}

pub fn digits_end_x(s: &Vec<char>, i: usize) -> (r: usize)
    requires
        i <= s@.len(),
    ensures
        r as int == digits_end(s@, i as int),
        i <= r <= s@.len(),
{
    let n = s.len();
    let mut j = i;
    while j < n && is_digit_x(s[j])
        invariant
            i <= j <= n,
            n == s@.len(),
            digits_end(s@, i as int) == digits_end(s@, j as int),
        decreases n - j,
    {
        j += 1;
    }
    j
}

fn all_hex4_x(s: &Vec<char>, i: usize) -> (r: bool)
    requires
        i <= s@.len(),
    ensures
        r == all_hex4(s@, i as int),
{
    let n = s.len();
    if n - i < 4 {
        return false;
    }
    is_hex_x(s[i]) && is_hex_x(s[i + 1]) && is_hex_x(s[i + 2]) && is_hex_x(s[i + 3])
}

fn hex4_val_x(s: &Vec<char>, i: usize) -> (r: u32)
    requires
        i <= s@.len(),
        all_hex4(s@, i as int),
    ensures
        r == hex4_val(s@, i as int),
        r < 0x10000,
{
    let n = s.len();
    assert(i + 4 <= n);
    hex_val_x(s[i]) * 4096 + hex_val_x(s[i + 1]) * 256 + hex_val_x(s[i + 2]) * 16 + hex_val_x(
        s[i + 3],
    )
}

fn parse_string_body_x(s: &Vec<char>, i: usize) -> (r: Option<(Vec<char>, usize)>)
    requires
        i <= s@.len(),
    ensures
        match r {
            Some(p) => parse_string_body(s@, i as int) == Some((p.0@, p.1 as int)) && i < p.1
                <= s@.len(),
            None => parse_string_body(s@, i as int) is None,
        },
    decreases s@.len() - i,
{
    let n = s.len();
    if i >= n {
        return None;
    }
    let c = s[i];
    if c == '"' {
        let out: Vec<char> = Vec::new();
        assert(out@ =~= Seq::<char>::empty());
        return Some((out, i + 1));
    }
    if c == '\\' {
        if i + 1 < n {
            let e = s[i + 1];
            if e == 'u' {
                if all_hex4_x(s, i + 2) {
                    let code = hex4_val_x(s, i + 2);
                    if 0xD800 <= code && code < 0xDC00 {
                        if n - i >= 12 && s[i + 6] == '\\' && s[i + 7] == 'u' && all_hex4_x(
                            s,
                            i + 8,
                        ) {
                            let lo = hex4_val_x(s, i + 8);
                            if 0xDC00 <= lo && lo < 0xE000 {
                                let cp: u32 = 0x10000 + (code - 0xD800) * 0x400 + (lo - 0xDC00);
                                let ch = char::from_u32(cp).unwrap();
                                match parse_string_body_x(s, i + 12) {
                                    Some((mut rest, k)) => {
                                        let ghost restpre = rest@;
                                        rest.insert(0, ch);
                                        assert(rest@ =~= seq![(cp as u32) as char] + restpre);
                                        Some((rest, k))
                                    },
                                    None => None,
                                }
                            } else {
                                None
                            }
                        } else {
                            None
                        }
                    } else if 0xDC00 <= code && code < 0xE000 {
                        None
                    } else {
                        let ch = char::from_u32(code).unwrap();
                        match parse_string_body_x(s, i + 6) {
                            Some((mut rest, k)) => {
                                let ghost restpre = rest@;
                                rest.insert(0, ch);
                                assert(rest@ =~= seq![(code as u32) as char] + restpre);
                                Some((rest, k))
                            },
                            None => None,
                        }
                    }
                } else {
                    None
                }
            } else {
                let dec = if e == '"' {
                    Some('"')
                } else if e == '\\' {
                    Some('\\')
                } else if e == '/' {
                    Some('/')
                } else if e == 'b' {
                    Some('\u{8}')
                } else if e == 'f' {
                    Some('\u{c}')
                } else if e == 'n' {
                    Some('\n')
                } else if e == 'r' {
                    Some('\r')
                } else if e == 't' {
                    Some('\t')
                } else {
                    None
                };
                assert(dec == unescape_short(e));
                match dec {
                    Some(ch) => match parse_string_body_x(s, i + 2) {
                        Some((mut rest, k)) => {
                            let ghost restpre = rest@;
                            rest.insert(0, ch);
                            assert(rest@ =~= seq![ch] + restpre);
                            Some((rest, k))
                        },
                        None => None,
                    },
                    None => None,
                }
            }
        } else {
            None
        }
    } else if (c as u32) < 32 {
        None
    } else {
        match parse_string_body_x(s, i + 1) {
            Some((mut rest, k)) => {
                let ghost restpre = rest@;
                rest.insert(0, c);
                assert(rest@ =~= seq![c] + restpre);
                Some((rest, k))
            },
            None => None,
        }
    }
}

fn parse_number_x(s: &Vec<char>, i: usize) -> (r: Option<(Vec<char>, usize)>)
    requires
        i <= s@.len(),
    ensures
        match r {
            Some(p) => parse_number(s@, i as int) == Some((p.0@, p.1 as int)) && i < p.1
                <= s@.len(),
            None => parse_number(s@, i as int) is None,
        },
{
    let n = s.len();
    if i >= n {
        return None;
    }
    let i1 = if s[i] == '-' {
        i + 1
    } else {
        i
    };
    if i1 < n && is_digit_x(s[i1]) {
        let i2 = if s[i1] == '0' {
            i1 + 1
        } else {
            digits_end_x(s, i1)
        };
        proof {
            if s@[i1 as int] != '0' {
                assert(digits_end(s@, i1 as int) == digits_end(s@, i1 as int + 1));
                lemma_digits_end_bounds(s@, i1 as int + 1);
            }
            assert(i1 < i2);
        }
        let mut bad = false;
        let mut i3 = i2;
        if i2 < n && s[i2] == '.' {
            let e = digits_end_x(s, i2 + 1);
            if e > i2 + 1 {
                i3 = e;
            } else {
                bad = true;
            }
        }
        if bad {
            return None;
        }
        let mut i4 = i3;
        if i3 < n && (s[i3] == 'e' || s[i3] == 'E') {
            let sgn = if i3 + 1 < n && (s[i3 + 1] == '+' || s[i3 + 1] == '-') {
                i3 + 2
            } else {
                i3 + 1
            };
            let e = digits_end_x(s, sgn);
            if e > sgn {
                i4 = e;
            } else {
                bad = true;
            }
        }
        if bad {
            return None;
        }
        let mut tok: Vec<char> = Vec::new();
        let mut j = i;
        while j < i4
            invariant
                i <= j <= i4 <= n,
                n == s@.len(),
                tok@ =~= s@.subrange(i as int, j as int),
            decreases i4 - j,
        {
            tok.push(s[j]);
            assert(tok@ =~= s@.subrange(i as int, j + 1 as int));
            j += 1;
        }
        proof {
            let gi = i as int;
            let gi1 = if s@[gi] == '-' {
                gi + 1
            } else {
                gi
            };
            assert(gi1 == i1 as int);
            let gi2 = if s@[gi1] == '0' {
                gi1 + 1
            } else {
                digits_end(s@, gi1)
            };
            assert(gi2 == i2 as int);
            let gi3 = if gi2 < s@.len() && s@[gi2] == '.' {
                let e = digits_end(s@, gi2 + 1);
                if e > gi2 + 1 {
                    e
                } else {
                    -1
                }
            } else {
                gi2
            };
            assert(gi3 == i3 as int);
            let gi4 = if gi3 < s@.len() && (s@[gi3] == 'e' || s@[gi3] == 'E') {
                let sgn = if gi3 + 1 < s@.len() && (s@[gi3 + 1] == '+' || s@[gi3 + 1] == '-') {
                    gi3 + 2
                } else {
                    gi3 + 1
                };
                let e = digits_end(s@, sgn);
                if e > sgn {
                    e
                } else {
                    -1
                }
            } else {
                gi3
            };
            assert(gi4 == i4 as int);
            assert(parse_number(s@, gi) == Some((s@.subrange(gi, gi4), gi4)));
        }
        Some((tok, i4))
    } else {
        None
    }
}

fn parse_elem_x(s: &Vec<char>, i: usize) -> (r: Option<(Json, usize)>)
    requires
        i <= s@.len(),
    ensures
        match r {
            Some(p) => parse_elem(s@, i as int) == Some((p.0.view(), p.1 as int)) && i < p.1
                <= s@.len(),
            None => parse_elem(s@, i as int) is None,
        },
    decreases s@.len() - i, 0int,
{
    let n = s.len();
    if i >= n {
        return None;
    }
    let c = s[i];
    if c == 'n' {
        proof {
            reveal_strlit("null");
        }
        let lit = str_chars("null");
        if n - i >= 4 && crate::strutil::str_matches_at(s, &lit, i) {
            Some((Json::Null, i + 4))
        } else {
            assert(!crate::strutil::matches_at(s@, "null"@, i as int));
            None
        }
    } else if c == 't' {
        proof {
            reveal_strlit("true");
        }
        let lit = str_chars("true");
        if n - i >= 4 && crate::strutil::str_matches_at(s, &lit, i) {
            Some((Json::Bool(true), i + 4))
        } else {
            assert(!crate::strutil::matches_at(s@, "true"@, i as int));
            None
        }
    } else if c == 'f' {
        proof {
            reveal_strlit("false");
        }
        let lit = str_chars("false");
        if n - i >= 5 && crate::strutil::str_matches_at(s, &lit, i) {
            Some((Json::Bool(false), i + 5))
        } else {
            assert(!crate::strutil::matches_at(s@, "false"@, i as int));
            None
        }
    } else if c == '"' {
        match parse_string_body_x(s, i + 1) {
            Some((txt, k)) => Some((Json::Str(chars_to_string(&txt)), k)),
            None => None,
        }
    } else if c == '[' {
        let j = skip_ws_x(s, i + 1);
        if j < n && s[j] == ']' {
            let items: Vec<Json> = Vec::new();
            assert(views_of(items@) =~= Seq::<JsonV>::empty());
            Some((Json::Arr(items), j + 1))
        } else {
            match parse_items_x(s, j) {
                Some((items, k)) => Some((Json::Arr(items), k)),
                None => None,
            }
        }
    } else if c == '{' {
        let j = skip_ws_x(s, i + 1);
        if j < n && s[j] == '}' {
            let pairs: Vec<(String, Json)> = Vec::new();
            assert(pair_views_of(pairs@) =~= Seq::<(Seq<char>, JsonV)>::empty());
            Some((Json::Obj(pairs), j + 1))
        } else {
            match parse_members_x(s, j) {
                Some((pairs, k)) => Some((Json::Obj(pairs), k)),
                None => None,
            }
        }
    } else if c == '-' || is_digit_x(c) {
        match parse_number_x(s, i) {
            Some((tok, k)) => Some((Json::Num(chars_to_string(&tok)), k)),
            None => None,
        }
    } else {
        None
    }
}

fn parse_items_x(s: &Vec<char>, i: usize) -> (r: Option<(Vec<Json>, usize)>)
    requires
        i <= s@.len(),
    ensures
        match r {
            Some(p) => parse_items(s@, i as int) == Some((views_of(p.0@), p.1 as int)) && i < p.1
                <= s@.len(),
            None => parse_items(s@, i as int) is None,
        },
    decreases s@.len() - i, 1int,
{
    let n = s.len();
    match parse_elem_x(s, i) {
        Some((v, k)) => {
            let k2 = skip_ws_x(s, k);
            if k2 < n && s[k2] == ',' {
                let k3 = skip_ws_x(s, k2 + 1);
                match parse_items_x(s, k3) {
                    Some((mut rest, m)) => {
                        let ghost restpre = rest@;
                        rest.insert(0, v);
                        assert(views_of(rest@) =~= seq![rest@[0].view()] + views_of(restpre));
                        Some((rest, m))
                    },
                    None => None,
                }
            } else if k2 < n && s[k2] == ']' {
                let mut out: Vec<Json> = Vec::new();
                out.push(v);
                assert(views_of(out@) =~= seq![out@[0].view()]);
                Some((out, k2 + 1))
            } else {
                None
            }
        },
        None => None,
    }
}

fn parse_members_x(s: &Vec<char>, i: usize) -> (r: Option<(Vec<(String, Json)>, usize)>)
    requires
        i <= s@.len(),
    ensures
        match r {
            Some(p) => parse_members(s@, i as int) == Some((pair_views_of(p.0@), p.1 as int)) && i
                < p.1 <= s@.len(),
            None => parse_members(s@, i as int) is None,
        },
    decreases s@.len() - i, 1int,
{
    let n = s.len();
    if !(i < n && s[i] == '"') {
        return None;
    }
    match parse_string_body_x(s, i + 1) {
        Some((key, k)) => {
            let k2 = skip_ws_x(s, k);
            if !(k2 < n && s[k2] == ':') {
                return None;
            }
            let k3 = skip_ws_x(s, k2 + 1);
            match parse_elem_x(s, k3) {
                Some((v, k4)) => {
                    let k5 = skip_ws_x(s, k4);
                    if k5 < n && s[k5] == ',' {
                        let k6 = skip_ws_x(s, k5 + 1);
                        match parse_members_x(s, k6) {
                            Some((mut rest, m)) => {
                                let ghost restpre = rest@;
                                rest.insert(0, (chars_to_string(&key), v));
                                assert(pair_views_of(rest@) =~= seq![
                                    (rest@[0].0@, rest@[0].1.view()),
                                ] + pair_views_of(restpre));
                                Some((rest, m))
                            },
                            None => None,
                        }
                    } else if k5 < n && s[k5] == '}' {
                        let mut out: Vec<(String, Json)> = Vec::new();
                        out.push((chars_to_string(&key), v));
                        assert(pair_views_of(out@) =~= seq![(out@[0].0@, out@[0].1.view())]);
                        Some((out, k5 + 1))
                    } else {
                        None
                    }
                },
                None => None,
            }
        },
        None => None,
    }
}

// ---------------------------------------------------------------------------
// Serializer
// ---------------------------------------------------------------------------

pub open spec fn hexdigit(d: int) -> char {
    if d < 10 {
        ((48 + d) as u8) as char
    } else {
        ((87 + d) as u8) as char
    }
}

/// The compact serialization of one character inside a string literal.
pub open spec fn escape_char(c: char) -> Seq<char> {
    if c == '"' {
        seq!['\\', '"']
    } else if c == '\\' {
        seq!['\\', '\\']
    } else if c == '\u{8}' {
        seq!['\\', 'b']
    } else if c == '\u{c}' {
        seq!['\\', 'f']
    } else if c == '\n' {
        seq!['\\', 'n']
    } else if c == '\r' {
        seq!['\\', 'r']
    } else if c == '\t' {
        seq!['\\', 't']
    } else if (c as u32) < 32 {
        seq!['\\', 'u', '0', '0', hexdigit(c as u32 as int / 16), hexdigit(c as u32 as int % 16)]
    } else {
        seq![c]
    }
}

pub open spec fn escape_seq(s: Seq<char>) -> Seq<char>
    decreases s.len(),
{
    if s.len() == 0 {
        Seq::empty()
    } else {
        escape_seq(s.drop_last()) + escape_char(s.last())
    }
}

/// The compact serialization of a JSON value.
pub open spec fn ser_json(j: JsonV) -> Seq<char>
    decreases j, 0int,
{
    match j {
        JsonV::Null => "null"@,
        JsonV::Bool(b) => if b {
            "true"@
        } else {
            "false"@
        },
        JsonV::Num(s) => s,
        JsonV::Str(s) => seq!['"'] + escape_seq(s) + seq!['"'],
        JsonV::Arr(items) => seq!['['] + ser_items(items, 0) + seq![']'],
        JsonV::Obj(pairs) => seq!['{'] + ser_pairs(pairs, 0) + seq!['}'],
    }
}

pub open spec fn ser_items(items: Seq<JsonV>, k: int) -> Seq<char>
    decreases items, items.len() - k,
{
    if !(0 <= k && k < items.len()) {
        Seq::empty()
    } else {
        let lead: Seq<char> = if k > 0 {
            seq![',']
        } else {
            Seq::empty()
        };
        lead + ser_json(items[k]) + ser_items(items, k + 1)
    }
}

pub open spec fn ser_pairs(pairs: Seq<(Seq<char>, JsonV)>, k: int) -> Seq<char>
    decreases pairs, pairs.len() - k,
{
    if !(0 <= k && k < pairs.len()) {
        Seq::empty()
    } else {
        let lead: Seq<char> = if k > 0 {
            seq![',']
        } else {
            Seq::empty()
        };
        lead + seq!['"'] + escape_seq(pairs[k].0) + seq!['"', ':'] + ser_json(pairs[k].1)
            + ser_pairs(pairs, k + 1)
    }
}

fn push_escaped(c: char, out: &mut Vec<char>)
    ensures
        final(out)@ == old(out)@ + escape_char(c),
{
    let ghost pre = out@;
    let u = c as u32;
    if c == '"' {
        out.push('\\');
        out.push('"');
    } else if c == '\\' {
        out.push('\\');
        out.push('\\');
    } else if c == '\u{8}' {
        out.push('\\');
        out.push('b');
    } else if c == '\u{c}' {
        out.push('\\');
        out.push('f');
    } else if c == '\n' {
        out.push('\\');
        out.push('n');
    } else if c == '\r' {
        out.push('\\');
        out.push('r');
    } else if c == '\t' {
        out.push('\\');
        out.push('t');
    } else if u < 32 {
        out.push('\\');
        out.push('u');
        out.push('0');
        out.push('0');
        let hi = (u / 16) as u8;
        let lo = (u % 16) as u8;
        out.push((if hi < 10 { 48 + hi } else { 87 + hi }) as char);
        out.push((if lo < 10 { 48 + lo } else { 87 + lo }) as char);
    } else {
        out.push(c);
    }
    assert(out@ =~= pre + escape_char(c));
}

fn write_string_literal(s: &str, out: &mut Vec<char>)
    ensures
        final(out)@ == old(out)@ + seq!['"'] + escape_seq(s@) + seq!['"'],
{
    let ghost pre = out@;
    out.push('"');
    let cs = str_chars(s);
    let n = cs.len();
    let mut i: usize = 0;
    while i < n
        invariant
            i <= n,
            n == s@.len(),
            cs@ == s@,
            out@ =~= pre + seq!['"'] + escape_seq(s@.take(i as int)),
        decreases n - i,
    {
        push_escaped(cs[i], out);
        proof {
            assert(s@.take(i + 1).drop_last() =~= s@.take(i as int));
            assert(escape_seq(s@.take(i + 1)) == escape_seq(s@.take(i as int)) + escape_char(
                s@[i as int],
            ));
        }
        assert(out@ =~= pre + seq!['"'] + escape_seq(s@.take(i + 1)));
        i += 1;
    }
    assert(s@.take(n as int) =~= s@);
    out.push('"');
    assert(out@ =~= pre + seq!['"'] + escape_seq(s@) + seq!['"']);
}

pub fn write_str_chars(s: &str, out: &mut Vec<char>)
    ensures
        final(out)@ == old(out)@ + s@,
{
    let ghost pre = out@;
    let cs = str_chars(s);
    let n = cs.len();
    let mut i: usize = 0;
    while i < n
        invariant
            i <= n,
            n == s@.len(),
            cs@ == s@,
            out@ =~= pre + s@.take(i as int),
        decreases n - i,
    {
        out.push(cs[i]);
        assert(out@ =~= pre + s@.take(i + 1));
        i += 1;
    }
    assert(out@ =~= pre + s@);
}

fn write_json(j: &Json, out: &mut Vec<char>)
    ensures
        final(out)@ == old(out)@ + ser_json(j.view()),
    decreases j, 0int,
{
    let ghost pre = out@;
    match j {
        Json::Null => {
            proof {
                reveal_strlit("null");
            }
            out.push('n');
            out.push('u');
            out.push('l');
            out.push('l');
            assert(out@ =~= pre + "null"@);
        },
        Json::Bool(b) => {
            if *b {
                proof {
                    reveal_strlit("true");
                }
                out.push('t');
                out.push('r');
                out.push('u');
                out.push('e');
                assert(out@ =~= pre + "true"@);
            } else {
                proof {
                    reveal_strlit("false");
                }
                out.push('f');
                out.push('a');
                out.push('l');
                out.push('s');
                out.push('e');
                assert(out@ =~= pre + "false"@);
            }
        },
        Json::Num(s) => {
            write_str_chars(s.as_str(), out);
        },
        Json::Str(s) => {
            write_string_literal(s.as_str(), out);
        },
        Json::Arr(v) => {
            out.push('[');
            write_items(v, 0, out);
            out.push(']');
            assert(out@ =~= pre + ser_json(j.view()));
        },
        Json::Obj(v) => {
            out.push('{');
            write_pairs(v, 0, out);
            out.push('}');
            assert(out@ =~= pre + ser_json(j.view()));
        },
    }
}

fn write_items(arr: &Vec<Json>, k: usize, out: &mut Vec<char>)
    requires
        k <= arr@.len(),
    ensures
        final(out)@ == old(out)@ + ser_items(views_of(arr@), k as int),
    decreases arr, arr@.len() - k,
{
    let ghost pre = out@;
    if k >= arr.len() {
        assert(out@ =~= pre + ser_items(views_of(arr@), k as int));
        return ;
    }
    if k > 0 {
        out.push(',');
    }
    write_json(&arr[k], out);
    write_items(arr, k + 1, out);
    assert(views_of(arr@)[k as int] == arr@[k as int].view());
    assert(out@ =~= pre + ser_items(views_of(arr@), k as int));
}

fn write_pairs(pairs: &Vec<(String, Json)>, k: usize, out: &mut Vec<char>)
    requires
        k <= pairs@.len(),
    ensures
        final(out)@ == old(out)@ + ser_pairs(pair_views_of(pairs@), k as int),
    decreases pairs, pairs@.len() - k,
{
    let ghost pre = out@;
    if k >= pairs.len() {
        assert(out@ =~= pre + ser_pairs(pair_views_of(pairs@), k as int));
        return ;
    }
    if k > 0 {
        out.push(',');
    }
    write_string_literal(pairs[k].0.as_str(), out);
    out.push(':');
    write_json(&pairs[k].1, out);
    write_pairs(pairs, k + 1, out);
    assert(pair_views_of(pairs@)[k as int] == (pairs@[k as int].0@, pairs@[k as int].1.view()));
    assert(out@ =~= pre + ser_pairs(pair_views_of(pairs@), k as int));
}

/// The compact JSON text of a value.
pub fn to_json_text(j: &Json) -> (r: String)
    ensures
        r@ == ser_json(j.view()),
{
    let mut out: Vec<char> = Vec::new();
    write_json(j, &mut out);
    assert(out@ =~= ser_json(j.view()));
    chars_to_string(&out)
}

// ---------------------------------------------------------------------------
// Value helpers
// ---------------------------------------------------------------------------

/// The body text sent upstream for a stored body: nothing for null, the raw
/// string for a string, compact JSON otherwise.
pub open spec fn body_string_of(v: JsonV) -> Seq<char> {
    match v {
        JsonV::Null => Seq::empty(),
        JsonV::Str(s) => s,
        _ => ser_json(v),
    }
}

pub fn json_value_to_body_string(j: &Json) -> (r: String)
    ensures
        r@ == body_string_of(j.view()),
{
    match j {
        Json::Null => String::new(),
        Json::Str(s) => s.clone(),
        _ => to_json_text(j),
    }
}

/// A body parsed from text: the JSON value when the text parses, else the
/// text itself as a string.
pub open spec fn json_or_string_of(t: Seq<char>) -> JsonV {
    match spec_parse_json(t) {
        Some(v) => v,
        None => JsonV::Str(t),
    }
}

pub fn text_to_json_or_string(text: &str) -> (r: Json)
    ensures
        r.view() == json_or_string_of(text@),
{
    match parse_json(text) {
        Some(j) => j,
        None => Json::Str(String::from_str(text)),
    }
}

/// A body parsed from raw text: empty text is null.
pub open spec fn body_of_text(t: Seq<char>) -> JsonV {
    if t.len() == 0 {
        JsonV::Null
    } else {
        json_or_string_of(t)
    }
}

pub fn body_from_text(text: &str) -> (r: Json)
    ensures
        r.view() == body_of_text(text@),
{
    if text.unicode_len() == 0 {
        Json::Null
    } else {
        text_to_json_or_string(text)
    }
}

/// The value under `k` in an object's pairs, the last pair winning.
pub open spec fn obj_lookup(pairs: Seq<(Seq<char>, JsonV)>, k: Seq<char>) -> Option<JsonV>
    decreases pairs.len(),
{
    if pairs.len() == 0 {
        None
    } else if pairs.last().0 == k {
        Some(pairs.last().1)
    } else {
        obj_lookup(pairs.drop_last(), k)
    }
}

/// Member lookup: `Some` only on objects that hold the key.
pub fn json_get<'a>(j: &'a Json, key: &str) -> (r: Option<&'a Json>)
    ensures
        match j.view() {
            JsonV::Obj(pv) => match r {
                Some(v) => obj_lookup(pv, key@) == Some(v.view()),
                None => obj_lookup(pv, key@) is None,
            },
            _ => r is None,
        },
{
    match j {
        Json::Obj(pairs) => {
            let ghost pv = pair_views_of(pairs@);
            let mut idx = pairs.len();
            assert(pv.take(idx as int) =~= pv);
            while idx > 0
                invariant
                    idx <= pairs@.len(),
                    pv == pair_views_of(pairs@),
                    j.view() == JsonV::Obj(pv),
                    obj_lookup(pv, key@) == obj_lookup(pv.take(idx as int), key@),
                decreases idx,
            {
                idx = idx - 1;
                if crate::strutil::str_eq(pairs[idx].0.as_str(), key) {
                    proof {
                        assert(pv.take(idx + 1).last() == (pairs@[idx as int].0@, pairs@[
                            idx as int].1.view()));
                        assert(obj_lookup(pv.take(idx + 1), key@) == Some(
                            pv.take(idx + 1).last().1,
                        ));
                        assert(obj_lookup(pv, key@) == Some(pairs@[idx as int].1.view()));
                        assert(j.view() == JsonV::Obj(pv));
                    }
                    return Some(&pairs[idx].1);
                }
                proof {
                    assert(pv.take(idx + 1).last() == (pairs@[idx as int].0@, pairs@[
                        idx as int].1.view()));
                    assert(pv.take(idx + 1).drop_last() =~= pv.take(idx as int));
                }
            }
            assert(pv.take(0) =~= Seq::<(Seq<char>, JsonV)>::empty());
            None
        },
        _ => None,
    }
}

// ---------------------------------------------------------------------------
// Decimal numbers
// ---------------------------------------------------------------------------

pub open spec fn all_digits(s: Seq<char>) -> bool {
    forall|i: int| 0 <= i < s.len() ==> is_digit(#[trigger] s[i])
}

/// The value of a decimal digit string.
pub open spec fn dec_val(s: Seq<char>) -> int
    decreases s.len(),
{
    if s.len() == 0 {
        0
    } else {
        dec_val(s.drop_last()) * 10 + digit_val(s.last())
    }
}

pub proof fn lemma_dec_val_nonneg(s: Seq<char>)
    requires
        all_digits(s),
    ensures
        dec_val(s) >= 0,
    decreases s.len(),
{
    if s.len() > 0 {
        assert(all_digits(s.drop_last()));
        lemma_dec_val_nonneg(s.drop_last());
    }
}

pub proof fn lemma_dec_val_prefix(s: Seq<char>, i: int)
    requires
        all_digits(s),
        0 <= i <= s.len(),
    ensures
        dec_val(s.take(i)) <= dec_val(s),
    decreases s.len() - i,
{
    if i < s.len() {
        assert(s.take(i + 1).drop_last() =~= s.take(i));
        assert(all_digits(s.take(i)));
        lemma_dec_val_nonneg(s.take(i));
        assert(dec_val(s.take(i + 1)) == dec_val(s.take(i)) * 10 + digit_val(s[i]));
        lemma_dec_val_prefix(s, i + 1);
    } else {
        assert(s.take(i) =~= s);
    }
}

/// What a number token denotes as an unsigned 64-bit count: a plain digit
/// string whose value fits; anything else (sign, fraction, exponent,
/// overflow) gives nothing.
pub open spec fn num_as_u64(tok: Seq<char>) -> Option<u64> {
    if tok.len() > 0 && all_digits(tok) && dec_val(tok) <= u64::MAX {
        Some(dec_val(tok) as u64)
    } else {
        None
    }
}

pub fn digits_to_u64(s: &str) -> (r: Option<u64>)
    ensures
        r == num_as_u64(s@),
{
    let cs = str_chars(s);
    let n = cs.len();
    assert(cs@.subrange(0, n as int) =~= s@);
    digits_range_to_u64(&cs, 0, n)
}

/// The digits in `cs[b..e]` as an unsigned count, where they are ones and
/// the value fits.
pub fn digits_range_to_u64(cs: &Vec<char>, b: usize, e: usize) -> (r: Option<u64>)
    requires
        b <= e <= cs@.len(),
    ensures
        r == num_as_u64(cs@.subrange(b as int, e as int)),
{
    let ghost s = cs@.subrange(b as int, e as int);
    let n = e - b;
    if n == 0 {
        return None;
    }
    let mut acc: u64 = 0;
    let mut i: usize = 0;
    while i < n
        invariant
            i <= n,
            b + n <= cs@.len(),
            n == s.len(),
            s == cs@.subrange(b as int, e as int),
            e == b + n,
            all_digits(s.take(i as int)),
            acc == dec_val(s.take(i as int)),
        decreases n - i,
    {
        let c = cs[b + i];
        assert(c == s[i as int]);
        if !is_digit_x(c) {
            assert(!all_digits(s));
            return None;
        }
        let d: u64 = (c as u32 - 48) as u64;
        proof {
            assert(s.take(i + 1).drop_last() =~= s.take(i as int));
            assert(all_digits(s.take(i + 1)));
            assert(dec_val(s.take(i + 1)) == dec_val(s.take(i as int)) * 10 + digit_val(
                s[i as int],
            ));
        }
        if acc > (u64::MAX - d) / 10 {
            proof {
                let q = ((u64::MAX - d) / 10) as int;
                assert(q * 10 + 10 > u64::MAX - d) by (nonlinear_arith)
                    requires
                        q == ((u64::MAX - d) / 10) as int,
                        d <= 9,
                ;
                assert(acc as int * 10 + d > u64::MAX) by (nonlinear_arith)
                    requires
                        acc as int >= q + 1,
                        q * 10 + 10 > u64::MAX - d,
                        d >= 0,
                ;
                assert(dec_val(s.take(i + 1)) > u64::MAX);
                if all_digits(s) {
                    lemma_dec_val_prefix(s, i + 1);
                    assert(dec_val(s) > u64::MAX);
                }
            }
            return None;
        }
        proof {
            let q = ((u64::MAX - d) / 10) as int;
            assert(q * 10 <= u64::MAX - d) by (nonlinear_arith)
                requires
                    q == ((u64::MAX - d) / 10) as int,
                    d <= 9,
            ;
            assert(acc as int * 10 + d <= u64::MAX) by (nonlinear_arith)
                requires
                    acc as int <= q,
                    q * 10 <= u64::MAX - d,
                    d >= 0,
            ;
        }
        acc = acc * 10 + d;
        i += 1;
    }
    assert(s.take(n as int) =~= s);
    Some(acc)
}

/// The token of a `Num`, as an unsigned count, where it is one.
pub fn json_as_u64(j: &Json) -> (r: Option<u64>)
    ensures
        match j.view() {
            JsonV::Num(tok) => r == num_as_u64(tok),
            _ => r is None,
        },
{
    match j {
        Json::Num(s) => digits_to_u64(s.as_str()),
        _ => None,
    }
}

/// The string content of a `Str`, where the value is one.
pub fn json_as_str<'a>(j: &'a Json) -> (r: Option<&'a String>)
    ensures
        match j.view() {
            JsonV::Str(s) => r matches Some(v) && v@ == s,
            _ => r is None,
        },
{
    match j {
        Json::Str(s) => Some(s),
        _ => None,
    }
}

pub open spec fn digit_char(d: int) -> char {
    ((48 + d) as u8) as char
}

/// The decimal rendering of a non-negative number.
pub open spec fn dec_str(n: int) -> Seq<char>
    decreases n,
{
    if n < 10 {
        seq![digit_char(if n >= 0 { n } else { 0 })]
    } else {
        dec_str(n / 10) + seq![digit_char(n % 10)]
    }
}

fn u64_dec_chars(n: u64) -> (v: Vec<char>)
    ensures
        v@ == dec_str(n as int),
    decreases n,
{
    if n < 10 {
        let mut v: Vec<char> = Vec::new();
        v.push((48 + n as u8) as char);
        assert(v@ =~= seq![digit_char(n as int)]);
        v
    } else {
        let mut v = u64_dec_chars(n / 10);
        v.push((48 + (n % 10) as u8) as char);
        assert(v@ =~= dec_str(n as int / 10) + seq![digit_char(n as int % 10)]);
        v
    }
}

pub fn u64_to_dec(n: u64) -> (r: String)
    ensures
        r@ == dec_str(n as int),
{
    chars_to_string(&u64_dec_chars(n))
}

fn u128_dec_chars(n: u128) -> (v: Vec<char>)
    ensures
        v@ == dec_str(n as int),
    decreases n,
{
    if n < 10 {
        let mut v: Vec<char> = Vec::new();
        v.push((48 + n as u8) as char);
        assert(v@ =~= seq![digit_char(n as int)]);
        v
    } else {
        let mut v = u128_dec_chars(n / 10);
        v.push((48 + (n % 10) as u8) as char);
        assert(v@ =~= dec_str(n as int / 10) + seq![digit_char(n as int % 10)]);
        v
    }
}

pub fn u128_to_dec(n: u128) -> (r: String)
    ensures
        r@ == dec_str(n as int),
{
    chars_to_string(&u128_dec_chars(n))
}

/// Parse a whole text as JSON: leading and trailing whitespace allowed,
/// nothing else before or after the one element.
pub fn parse_json(text: &str) -> (r: Option<Json>)
    ensures
        match r {
            Some(j) => spec_parse_json(text@) == Some(j.view()),
            None => spec_parse_json(text@) is None,
        },
{
    let s = str_chars(text);
    let i = skip_ws_x(&s, 0);
    match parse_elem_x(&s, i) {
        Some((j, k)) => {
            let e = skip_ws_x(&s, k);
            if e == s.len() {
                Some(j)
            } else {
                None
            }
        },
        None => None,
    }
}

} // verus!
