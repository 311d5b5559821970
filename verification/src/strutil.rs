//! Character-level string utilities: equality, prefix/substring search,
//! ASCII case folding, and decimal rendering/parsing.

use vstd::prelude::*;

verus! {

/// ASCII lowercase of one character; characters outside `A`..`Z` are kept.
pub open spec fn lower_char(c: char) -> char {
    if 65 <= c as u32 && c as u32 <= 90 {
        ((c as u32 + 32) as u8) as char
    } else {
        c
    }
}

/// ASCII lowercase of a character sequence.
pub open spec fn lower_seq(s: Seq<char>) -> Seq<char> {
    s.map_values(|c: char| lower_char(c))
}

pub fn ascii_lower_char(c: char) -> (r: char)
    ensures
        r == lower_char(c),
{
    let u = c as u32;
    if 65 <= u && u <= 90 {
        ((u + 32) as u8) as char
    } else {
        c
    }
}

/// The characters of `s`, in order.
pub fn str_chars(s: &str) -> (v: Vec<char>)
    ensures
        v@ == s@,
{
    let n = s.unicode_len();
    let mut v: Vec<char> = Vec::new();
    let mut i: usize = 0;
    while i < n
        invariant
            i <= n,
            n == s@.len(),
            v@ == s@.subrange(0, i as int),
        decreases n - i,
    {
        v.push(s.get_char(i));
        assert(v@ =~= s@.subrange(0, i + 1 as int));
        i += 1;
    }
    assert(v@ =~= s@);
    v
}

/// Relies on std's `FromIterator` for `String` over `char`: the collected
/// string holds exactly the given characters, in order.
#[verifier::external_body]
pub fn chars_to_string(v: &Vec<char>) -> (s: String)
    ensures
        s@ == v@,
{
    v.iter().collect()
}

pub fn str_eq(a: &str, b: &str) -> (r: bool)
    ensures
        r == (a@ == b@),
{
    let na = a.unicode_len();
    let nb = b.unicode_len();
    if na != nb {
        assert(a@ != b@) by {
            assert(a@.len() != b@.len());
        }
        return false;
    }
    let mut i: usize = 0;
    while i < na
        invariant
            i <= na,
            na == a@.len(),
            na == b@.len(),
            forall|j: int| 0 <= j < i ==> a@[j] == b@[j],
        decreases na - i,
    {
        if a.get_char(i) != b.get_char(i) {
            return false;
        }
        i += 1;
    }
    assert(a@ =~= b@);
    true
}

/// ASCII lowercase of a string.
pub fn ascii_lowercase(s: &str) -> (r: String)
    ensures
        r@ == lower_seq(s@),
{
    let n = s.unicode_len();
    let mut v: Vec<char> = Vec::new();
    let mut i: usize = 0;
    while i < n
        invariant
            i <= n,
            n == s@.len(),
            v@ =~= lower_seq(s@).subrange(0, i as int),
        decreases n - i,
    {
        v.push(ascii_lower_char(s.get_char(i)));
        assert(v@ =~= lower_seq(s@).subrange(0, i + 1 as int));
        i += 1;
    }
    assert(v@ =~= lower_seq(s@));
    chars_to_string(&v)
}

/// `pre` is a prefix of `s`.
pub open spec fn is_prefix(s: Seq<char>, pre: Seq<char>) -> bool {
    pre.len() <= s.len() && s.subrange(0, pre.len() as int) == pre
}

/// `sub` occurs somewhere in `s`.
pub open spec fn has_substring(s: Seq<char>, sub: Seq<char>) -> bool {
    exists|k: int|
        0 <= k <= s.len() - sub.len() && #[trigger] s.subrange(k, k + sub.len() as int) == sub
}

pub fn str_starts_with(s: &str, pre: &str) -> (r: bool)
    ensures
        r == is_prefix(s@, pre@),
{
    let n = pre.unicode_len();
    if n > s.unicode_len() {
        return false;
    }
    let mut i: usize = 0;
    while i < n
        invariant
            i <= n,
            n == pre@.len(),
            n <= s@.len(),
            forall|j: int| 0 <= j < i ==> s@[j] == pre@[j],
        decreases n - i,
    {
        if s.get_char(i) != pre.get_char(i) {
            assert(s@.subrange(0, n as int) != pre@) by {
                assert(s@.subrange(0, n as int)[i as int] != pre@[i as int]);
            }
            return false;
        }
        i += 1;
    }
    assert(s@.subrange(0, n as int) =~= pre@);
    true
}

/// `sub` occurs in `s` starting at `k`.
pub open spec fn matches_at(s: Seq<char>, sub: Seq<char>, k: int) -> bool {
    0 <= k <= s.len() - sub.len() && s.subrange(k, k + sub.len() as int) == sub
}

pub fn str_matches_at(sc: &Vec<char>, sub: &Vec<char>, k: usize) -> (r: bool)
    requires
        k + sub@.len() <= sc@.len(),
    ensures
        r == matches_at(sc@, sub@, k as int),
{
    let n = sub.len();
    let total = sc.len();
    let mut i: usize = 0;
    while i < n
        invariant
            i <= n,
            n == sub@.len(),
            total == sc@.len(),
            k + n <= total,
            forall|j: int| 0 <= j < i ==> sc@[k + j] == sub@[j],
        decreases n - i,
    {
        if sc[k + i] != sub[i] {
            assert(sc@.subrange(k as int, k + n as int) != sub@) by {
                assert(sc@.subrange(k as int, k + n as int)[i as int] != sub@[i as int]);
            }
            return false;
        }
        i += 1;
    }
    assert(sc@.subrange(k as int, k + n as int) =~= sub@);
    true
}

/// Index of the first occurrence of `c` in `s`, if any.
pub open spec fn find_char_spec(s: Seq<char>, c: char) -> Option<int>
    decreases s.len(),
{
    if s.len() == 0 {
        None
    } else if s[0] == c {
        Some(0)
    } else {
        match find_char_spec(s.drop_first(), c) {
            Some(i) => Some(i + 1),
            None => None,
        }
    }
}

/// The first index characterizes `find_char_spec`.
pub proof fn lemma_find_char_spec(s: Seq<char>, c: char, i: int)
    requires
        0 <= i < s.len(),
        s[i] == c,
        forall|j: int| 0 <= j < i ==> s[j] != c,
    ensures
        find_char_spec(s, c) == Some(i),
    decreases i,
{
    if i == 0 {
    } else {
        assert(forall|j: int| 0 <= j < i - 1 ==> s.drop_first()[j] != c);
        lemma_find_char_spec(s.drop_first(), c, i - 1);
    }
}

/// Absence characterizes `find_char_spec`.
pub proof fn lemma_find_char_spec_none(s: Seq<char>, c: char)
    requires
        forall|j: int| 0 <= j < s.len() ==> s[j] != c,
    ensures
        find_char_spec(s, c) is None,
    decreases s.len(),
{
    if s.len() > 0 {
        assert(forall|j: int| 0 <= j < s.len() - 1 ==> s.drop_first()[j] != c);
        lemma_find_char_spec_none(s.drop_first(), c);
    }
}

pub fn find_char(v: &Vec<char>, c: char) -> (r: Option<usize>)
    ensures
        match r {
            Some(i) => i < v@.len() && v@[i as int] == c && find_char_spec(v@, c) == Some(
                i as int,
            ),
            None => find_char_spec(v@, c) is None,
        },
{
    let n = v.len();
    let mut i: usize = 0;
    while i < n
        invariant
            i <= n,
            n == v@.len(),
            forall|j: int| 0 <= j < i ==> v@[j] != c,
        decreases n - i,
    {
        if v[i] == c {
            proof {
                lemma_find_char_spec(v@, c, i as int);
            }
            return Some(i);
        }
        i += 1;
    }
    proof {
        lemma_find_char_spec_none(v@, c);
    }
    None
}

/// ASCII whitespace, as trimmed from header edits.
pub open spec fn is_space(c: char) -> bool {
    c == ' ' || c == '\t' || c == '\n' || c == '\r' || c == '\u{c}'
}

pub open spec fn drop_leading_ws(s: Seq<char>) -> Seq<char>
    decreases s.len(),
{
    if s.len() > 0 && is_space(s[0]) {
        drop_leading_ws(s.drop_first())
    } else {
        s
    }
}

pub open spec fn drop_trailing_ws(s: Seq<char>) -> Seq<char>
    decreases s.len(),
{
    if s.len() > 0 && is_space(s.last()) {
        drop_trailing_ws(s.drop_last())
    } else {
        s
    }
}

/// `s` without leading and trailing ASCII whitespace.
pub open spec fn trim_seq(s: Seq<char>) -> Seq<char> {
    drop_trailing_ws(drop_leading_ws(s))
}

proof fn lemma_drop_leading_ws(s: Seq<char>, a: int)
    requires
        0 <= a <= s.len(),
        forall|j: int| 0 <= j < a ==> is_space(s[j]),
        a < s.len() ==> !is_space(s[a]),
    ensures
        drop_leading_ws(s) =~= s.subrange(a, s.len() as int),
    decreases a,
{
    if a == 0 {
        if s.len() > 0 {
            assert(!is_space(s[0]));
        }
        assert(drop_leading_ws(s) =~= s.subrange(0, s.len() as int));
    } else {
        assert(is_space(s[0]));
        let t = s.drop_first();
        assert(forall|j: int| 0 <= j < a - 1 ==> t[j] == s[j + 1] && is_space(t[j]));
        lemma_drop_leading_ws(t, a - 1);
        assert(t.subrange(a - 1, t.len() as int) =~= s.subrange(a, s.len() as int));
    }
}

proof fn lemma_drop_trailing_ws(s: Seq<char>, b: int)
    requires
        0 <= b <= s.len(),
        forall|j: int| b <= j < s.len() ==> is_space(s[j]),
        b > 0 ==> !is_space(s[b - 1]),
    ensures
        drop_trailing_ws(s) =~= s.subrange(0, b),
    decreases s.len() - b,
{
    if b == s.len() {
        if s.len() > 0 {
            assert(!is_space(s.last()));
        }
        assert(drop_trailing_ws(s) =~= s.subrange(0, s.len() as int));
    } else {
        assert(is_space(s.last()));
        let t = s.drop_last();
        lemma_drop_trailing_ws(t, b);
        assert(t.subrange(0, b) =~= s.subrange(0, b));
    }
}

/// `s` with leading and trailing ASCII whitespace removed.
pub fn trim(s: &str) -> (r: String)
    ensures
        r@ == trim_seq(s@),
{
    let chars = str_chars(s);
    let n = chars.len();
    let mut a: usize = 0;
    while a < n && is_space_exec(chars[a])
        invariant
            a <= n,
            n == chars@.len(),
            chars@ == s@,
            forall|j: int| 0 <= j < a ==> is_space(s@[j]),
        decreases n - a,
    {
        a += 1;
    }
    proof {
        lemma_drop_leading_ws(s@, a as int);
    }
    let mut b: usize = n;
    while b > a && is_space_exec(chars[b - 1])
        invariant
            a <= b <= n,
            n == chars@.len(),
            chars@ == s@,
            forall|j: int| b <= j < n ==> is_space(s@[j]),
            a < n ==> !is_space(s@[a as int]),
        decreases b,
    {
        b -= 1;
    }
    let ghost lead = s@.subrange(a as int, n as int);
    proof {
        if b > a {
            assert(!is_space(lead[b - a - 1]));
        }
        assert(forall|j: int| b - a <= j < lead.len() ==> is_space(lead[j]));
        lemma_drop_trailing_ws(lead, b - a);
        assert(trim_seq(s@) =~= s@.subrange(a as int, b as int));
    }
    let mut out: Vec<char> = Vec::new();
    let mut i: usize = a;
    while i < b
        invariant
            a <= i <= b <= n,
            n == chars@.len(),
            chars@ == s@,
            out@ =~= s@.subrange(a as int, i as int),
        decreases b - i,
    {
        out.push(chars[i]);
        assert(out@ =~= s@.subrange(a as int, i + 1 as int));
        i += 1;
    }
    chars_to_string(&out)
}

pub fn is_space_exec(c: char) -> (r: bool)
    ensures
        r == is_space(c),
{
    c == ' ' || c == '\t' || c == '\n' || c == '\r' || c == '\u{c}'
}

pub fn str_contains(s: &str, sub: &str) -> (r: bool)
    ensures
        r == has_substring(s@, sub@),
{
    let sc = str_chars(s);
    let subc = str_chars(sub);
    let n = sc.len();
    let m = subc.len();
    if m > n {
        return false;
    }
    if m == 0 {
        assert(has_substring(s@, sub@)) by {
            assert(s@.subrange(0, 0 + sub@.len() as int) =~= sub@);
        }
        return true;
    }
    let mut k: usize = 0;
    while k <= n - m
        invariant
            0 < m <= n,
            n == s@.len(),
            m == sub@.len(),
            sc@ == s@,
            subc@ == sub@,
            k <= n - m + 1,
            forall|j: int| 0 <= j < k ==> !matches_at(s@, sub@, j),
        decreases n - k,
    {
        if str_matches_at(&sc, &subc, k) {
            assert(has_substring(s@, sub@));
            return true;
        }
        k += 1;
    }
    assert(!has_substring(s@, sub@)) by {
        assert forall|j: int|
            0 <= j <= s@.len() - sub@.len() implies #[trigger] s@.subrange(
            j,
            j + sub@.len() as int,
        ) != sub@ by {
            assert(!matches_at(s@, sub@, j));
        }
    }
    false
}

} // verus!
