//! The body transformer: a delimited `pattern → replacement` expression,
//! applied as a global regex rewrite to serialized bodies and stream chunks.

use vstd::prelude::*;
use crate::json::{Json, JsonV, body_string_of, json_or_string_of, json_value_to_body_string,
    text_to_json_or_string};
use crate::strutil::{str_chars, chars_to_string, find_char_spec, find_char};

verus! {

/// Whether a pattern compiles as a regular expression. Decided by the regex
/// crate; the answer depends on the pattern text alone.
pub uninterp spec fn regex_valid(pat: Seq<char>) -> bool;

/// The text after replacing every non-overlapping match of the pattern with
/// the replacement, as the regex crate computes it from the three texts
/// alone.
pub uninterp spec fn regex_replaced(pat: Seq<char>, repl: Seq<char>, text: Seq<char>) -> Seq<char>;

/// Relies on `regex::Regex::new`: whether a pattern compiles depends on the
/// pattern text alone.
#[verifier::external_body]
fn regex_compiles(pat: &str) -> (r: bool)
    ensures
        r == regex_valid(pat@),
{
    regex::Regex::new(pat).is_ok()
}

/// Relies on `regex::Regex::new` and `regex::Regex::replace_all`: `Some`
/// exactly when the pattern compiles, and then every non-overlapping match
/// in the text is replaced with the replacement.
#[verifier::external_body]
fn regex_replace_all(pat: &str, repl: &str, text: &str) -> (r: Option<String>)
    ensures
        r is Some <==> regex_valid(pat@),
        r matches Some(s) ==> s@ == regex_replaced(pat@, repl@, text@),
{
    match regex::Regex::new(pat) {
        Ok(re) => Some(re.replace_all(text, repl).to_string()),
        Err(_) => None,
    }
}

/// A compiled body rewrite: a pattern that the regex crate accepts, and its
/// replacement.
pub struct BodyModifier {
    pub pattern: String,
    pub replacement: String,
}

impl BodyModifier {
    pub open spec fn wf(&self) -> bool {
        regex_valid(self.pattern@)
    }
}

/// Why a `--modify-body` expression is refused.
#[derive(Debug)]
pub enum ModifierError {
    EmptyExpression,
    MissingReplacement,
    InvalidRegex,
}

/// The pattern and replacement that a delimited expression denotes: the
/// first character is the delimiter, the pattern runs to the next delimiter,
/// the replacement to the one after that or to the end.
pub open spec fn modifier_parts(raw: Seq<char>) -> Option<(Seq<char>, Seq<char>)> {
    if raw.len() == 0 {
        None
    } else {
        let sep = raw[0];
        let rest = raw.subrange(1, raw.len() as int);
        match find_char_spec(rest, sep) {
            Some(i) => {
                let pat = rest.subrange(0, i);
                let tail = rest.subrange(i + 1, rest.len() as int);
                let repl = match find_char_spec(tail, sep) {
                    Some(j) => tail.subrange(0, j),
                    None => tail,
                };
                Some((pat, repl))
            },
            None => None,
        }
    }
}

/// Parse a `--modify-body` expression; the pattern must compile.
pub fn parse_body_modifier(raw: &str) -> (r: Result<BodyModifier, ModifierError>)
    ensures
        match r {
            Ok(m) => {
                &&& m.wf()
                &&& modifier_parts(raw@) matches Some(p) && m.pattern@ == p.0 && m.replacement@
                    == p.1
            },
            Err(e) => match e {
                ModifierError::EmptyExpression => raw@.len() == 0,
                ModifierError::MissingReplacement => raw@.len() > 0 && modifier_parts(raw@)
                    is None,
                ModifierError::InvalidRegex => modifier_parts(raw@) matches Some(p)
                    && !regex_valid(p.0),
            },
        },
{
    let cs = str_chars(raw);
    let n = cs.len();
    if n == 0 {
        return Err(ModifierError::EmptyExpression);
    }
    let sep = cs[0];
    let mut rest: Vec<char> = Vec::new();
    let mut i: usize = 1;
    while i < n
        invariant
            1 <= i <= n,
            n == raw@.len(),
            cs@ == raw@,
            rest@ =~= raw@.subrange(1, i as int),
        decreases n - i,
    {
        rest.push(cs[i]);
        assert(rest@ =~= raw@.subrange(1, i + 1 as int));
        i += 1;
    }
    assert(rest@ =~= raw@.subrange(1, n as int));
    match find_char(&rest, sep) {
        Some(ix) => {
            let m = rest.len();
            let mut pat: Vec<char> = Vec::new();
            let mut j: usize = 0;
            while j < ix
                invariant
                    j <= ix < m,
                    m == rest@.len(),
                    pat@ =~= rest@.subrange(0, j as int),
                decreases ix - j,
            {
                pat.push(rest[j]);
                assert(pat@ =~= rest@.subrange(0, j + 1 as int));
                j += 1;
            }
            let mut tail: Vec<char> = Vec::new();
            let mut j2: usize = ix + 1;
            while j2 < m
                invariant
                    ix + 1 <= j2 <= m,
                    m == rest@.len(),
                    tail@ =~= rest@.subrange(ix + 1 as int, j2 as int),
                decreases m - j2,
            {
                tail.push(rest[j2]);
                assert(tail@ =~= rest@.subrange(ix + 1 as int, j2 + 1 as int));
                j2 += 1;
            }
            assert(tail@ =~= rest@.subrange(ix + 1 as int, m as int));
            let repl: Vec<char> = match find_char(&tail, sep) {
                Some(jx) => {
                    let mut repl: Vec<char> = Vec::new();
                    let mut j3: usize = 0;
                    while j3 < jx
                        invariant
                            j3 <= jx < tail@.len(),
                            repl@ =~= tail@.subrange(0, j3 as int),
                        decreases jx - j3,
                    {
                        repl.push(tail[j3]);
                        assert(repl@ =~= tail@.subrange(0, j3 + 1 as int));
                        j3 += 1;
                    }
                    repl
                },
                None => tail,
            };
            let pat_s = chars_to_string(&pat);
            let repl_s = chars_to_string(&repl);
            if regex_compiles(pat_s.as_str()) {
                Ok(BodyModifier { pattern: pat_s, replacement: repl_s })
            } else {
                Err(ModifierError::InvalidRegex)
            }
        },
        None => Err(ModifierError::MissingReplacement),
    }
}

/// What applying the rewrite to a stored body yields: the body is serialized
/// to text, rewritten, and — only when the rewrite changed something —
/// parsed back; an unchanged text yields nothing.
pub open spec fn modifier_applied(v: JsonV, pat: Seq<char>, repl: Seq<char>) -> Option<JsonV> {
    let raw = body_string_of(v);
    let upd = regex_replaced(pat, repl, raw);
    if upd == raw {
        None
    } else {
        Some(json_or_string_of(upd))
    }
}

/// Apply the rewrite to a stored body; `None` means the body is unchanged.
pub fn apply_modifier(value: &Json, modifier: &BodyModifier) -> (r: Option<Json>)
    requires
        modifier.wf(),
    ensures
        match r {
            Some(j) => modifier_applied(value.view(), modifier.pattern@, modifier.replacement@)
                == Some(j.view()),
            None => modifier_applied(value.view(), modifier.pattern@, modifier.replacement@)
                is None,
        },
{
    let raw = json_value_to_body_string(value);
    let updated = regex_replace_all(
        modifier.pattern.as_str(),
        modifier.replacement.as_str(),
        raw.as_str(),
    ).unwrap();
    if crate::strutil::str_eq(updated.as_str(), raw.as_str()) {
        None
    } else {
        Some(text_to_json_or_string(updated.as_str()))
    }
}

/// Rewrite one chunk of stream text.
pub fn transform_text(modifier: &BodyModifier, text: &str) -> (r: String)
    requires
        modifier.wf(),
    ensures
        r@ == regex_replaced(modifier.pattern@, modifier.replacement@, text@),
{
    regex_replace_all(modifier.pattern.as_str(), modifier.replacement.as_str(), text).unwrap()
}

} // verus!
