//! Header mappings: lowercase-keyed name/value pairs with unique keys,
//! sensitive-value redaction, and the command-line header edits.

use vstd::prelude::*;
use crate::strutil::{str_eq, ascii_lowercase, str_chars, chars_to_string, lower_seq};

verus! {

/// Keys whose values must never leave the core unmasked.
pub open spec fn sensitive_key(k: Seq<char>) -> bool {
    k == "authorization"@ || k == "x-api-key"@ || k == "api-key"@
}

/// One redacted pair: a sensitive key's value becomes the literal `REDACTED`.
pub open spec fn redact_pair(p: (Seq<char>, Seq<char>)) -> (Seq<char>, Seq<char>) {
    if sensitive_key(p.0) {
        (p.0, "REDACTED"@)
    } else {
        p
    }
}

/// A whole mapping, redacted pairwise.
pub open spec fn redact_view(s: Seq<(Seq<char>, Seq<char>)>) -> Seq<(Seq<char>, Seq<char>)> {
    s.map_values(|p: (Seq<char>, Seq<char>)| redact_pair(p))
}

/// Redacting is idempotent: a second pass changes nothing.
pub proof fn lemma_redact_idempotent(s: Seq<(Seq<char>, Seq<char>)>)
    ensures
        redact_view(redact_view(s)) == redact_view(s),
{
    assert(redact_view(redact_view(s)) =~= redact_view(s));
}

/// In any redacted mapping, every sensitive key that is present carries the
/// literal `REDACTED`, and no pair is otherwise touched.
pub proof fn lemma_redacted_masks(s: Seq<(Seq<char>, Seq<char>)>)
    ensures
        redact_view(s).len() == s.len(),
        forall|i: int|
            0 <= i < s.len() && sensitive_key(s[i].0) ==> #[trigger] redact_view(s)[i] == (
            s[i].0,
            "REDACTED"@,
            ),
        forall|i: int|
            0 <= i < s.len() && !sensitive_key(s[i].0) ==> #[trigger] redact_view(s)[i] == s[i],
{
}

/// The pair `(k, v)` stands in `s`.
pub open spec fn has_pair(s: Seq<(Seq<char>, Seq<char>)>, k: Seq<char>, v: Seq<char>) -> bool {
    exists|i: int| 0 <= i < s.len() && s[i] == (k, v)
}

/// A header mapping: name/value pairs, names unique.
pub struct HeaderMap {
    entries: Vec<(String, String)>,
}

impl HeaderMap {
    pub closed spec fn view(&self) -> Seq<(Seq<char>, Seq<char>)> {
        Seq::new(self.entries@.len(), |i: int| (self.entries@[i].0@, self.entries@[i].1@))
    }

    /// Names are pairwise distinct.
    pub open spec fn wf(&self) -> bool {
        forall|i: int, j: int| 0 <= i < j < self@.len() ==> self@[i].0 != self@[j].0
    }

    pub open spec fn spec_has(&self, k: Seq<char>) -> bool {
        exists|i: int| 0 <= i < self@.len() && self@[i].0 == k
    }

    pub fn new() -> (r: HeaderMap)
        ensures
            r@ == Seq::<(Seq<char>, Seq<char>)>::empty(),
            r.wf(),
    {
        let r = HeaderMap { entries: Vec::new() };
        assert(r@ =~= Seq::<(Seq<char>, Seq<char>)>::empty());
        r
    }

    pub fn len(&self) -> (n: usize)
        ensures
            n == self@.len(),
    {
        self.entries.len()
    }

    /// The pair at `i`, for iteration in stored order.
    pub fn pair(&self, i: usize) -> (r: (&String, &String))
        requires
            i < self@.len(),
        ensures
            r.0@ == self@[i as int].0,
            r.1@ == self@[i as int].1,
    {
        (&self.entries[i].0, &self.entries[i].1)
    }

    fn index_of(&self, k: &str) -> (r: Option<usize>)
        ensures
            match r {
                Some(i) => i < self@.len() && self@[i as int].0 == k@,
                None => !self.spec_has(k@),
            },
    {
        let n = self.entries.len();
        let mut i: usize = 0;
        while i < n
            invariant
                i <= n,
                n == self@.len(),
                forall|j: int| 0 <= j < i ==> self@[j].0 != k@,
            decreases n - i,
        {
            if str_eq(self.entries[i].0.as_str(), k) {
                return Some(i);
            }
            i += 1;
        }
        None
    }

    pub fn contains_key(&self, k: &str) -> (r: bool)
        ensures
            r == self.spec_has(k@),
    {
        self.index_of(k).is_some()
    }

    pub fn get<'a>(&'a self, k: &str) -> (r: Option<&'a String>)
        ensures
            match r {
                Some(v) => has_pair(self@, k@, v@),
                None => !self.spec_has(k@),
            },
    {
        match self.index_of(k) {
            Some(i) => Some(&self.entries[i].1),
            None => None,
        }
    }

    /// Append a pair as it stands; the caller owns key uniqueness.
    pub fn push_pair(&mut self, k: String, v: String)
        ensures
            final(self)@ == old(self)@.push((k@, v@)),
    {
        let ghost pre = self@;
        self.entries.push((k, v));
        assert(self@ =~= pre.push((k@, v@)));
    }

    /// Upsert: replace the value under `k` if present, else append the pair.
    pub fn insert(&mut self, k: String, v: String)
        requires
            old(self).wf(),
        ensures
            final(self).wf(),
            final(self)@.len() <= old(self)@.len() + 1,
            forall|k2: Seq<char>, v2: Seq<char>|
                #[trigger] has_pair(final(self)@, k2, v2) <==> if k2 == k@ {
                    v2 == v@
                } else {
                    has_pair(old(self)@, k2, v2)
                },
    {
        let ghost pre = self@;
        match self.index_of(k.as_str()) {
            Some(i) => {
                let ghost gi = i as int;
                self.entries[i] = (k, v);
                assert(self@ =~= pre.update(gi, (pre[gi].0, self@[gi].1)));
                assert forall|k2: Seq<char>, v2: Seq<char>|
                    #[trigger] has_pair(self@, k2, v2) <==> if k2 == pre[gi].0 {
                        v2 == self@[gi].1
                    } else {
                        has_pair(pre, k2, v2)
                    } by {
                    if has_pair(self@, k2, v2) {
                        let j = choose|j: int| 0 <= j < self@.len() && self@[j] == (k2, v2);
                        if j != gi {
                            assert(pre[j] == (k2, v2));
                        }
                    }
                    if k2 == pre[gi].0 && v2 == self@[gi].1 {
                        assert(self@[gi] == (k2, v2));
                    }
                    if k2 != pre[gi].0 && has_pair(pre, k2, v2) {
                        let j = choose|j: int| 0 <= j < pre.len() && pre[j] == (k2, v2);
                        assert(self@[j] == (k2, v2));
                    }
                }
            },
            None => {
                self.entries.push((k, v));
                assert(self@ =~= pre.push((k@, v@)));
                assert forall|k2: Seq<char>, v2: Seq<char>|
                    #[trigger] has_pair(self@, k2, v2) <==> if k2 == k@ {
                        v2 == v@
                    } else {
                        has_pair(pre, k2, v2)
                    } by {
                    let n = pre.len() as int;
                    if has_pair(self@, k2, v2) {
                        let j = choose|j: int| 0 <= j < self@.len() && self@[j] == (k2, v2);
                        if j < n {
                            assert(pre[j] == (k2, v2));
                            assert(k2 != k@);
                        }
                    }
                    if k2 == k@ && v2 == v@ {
                        assert(self@[n] == (k2, v2));
                    }
                    if k2 != k@ && has_pair(pre, k2, v2) {
                        let j = choose|j: int| 0 <= j < pre.len() && pre[j] == (k2, v2);
                        assert(self@[j] == (k2, v2));
                    }
                }
            },
        }
    }

    /// Remove the pair under `k`, if any; order of the rest is kept.
    pub fn remove(&mut self, k: &str)
        requires
            old(self).wf(),
        ensures
            final(self).wf(),
            forall|k2: Seq<char>, v2: Seq<char>|
                #[trigger] has_pair(final(self)@, k2, v2) <==> (k2 != k@ && has_pair(
                    old(self)@,
                    k2,
                    v2,
                )),
    {
        let ghost pre = self@;
        match self.index_of(k) {
            Some(i) => {
                let ghost gi = i as int;
                self.entries.remove(i);
                assert(self@ =~= pre.remove(gi));
                assert forall|k2: Seq<char>, v2: Seq<char>|
                    #[trigger] has_pair(self@, k2, v2) <==> (k2 != k@ && has_pair(
                        pre,
                        k2,
                        v2,
                    )) by {
                    if has_pair(self@, k2, v2) {
                        let j = choose|j: int| 0 <= j < self@.len() && self@[j] == (k2, v2);
                        if j < gi {
                            assert(pre[j] == (k2, v2));
                        } else {
                            assert(pre[j + 1] == (k2, v2));
                        }
                    }
                    if k2 != k@ && has_pair(pre, k2, v2) {
                        let j = choose|j: int| 0 <= j < pre.len() && pre[j] == (k2, v2);
                        if j < gi {
                            assert(self@[j] == (k2, v2));
                        } else if j > gi {
                            assert(self@[j - 1] == (k2, v2));
                        }
                    }
                }
            },
            None => {
                assert(self@ =~= pre);
                assert forall|k2: Seq<char>, v2: Seq<char>|
                    #[trigger] has_pair(self@, k2, v2) <==> (k2 != k@ && has_pair(
                        pre,
                        k2,
                        v2,
                    )) by {
                    if has_pair(self@, k2, v2) && k2 == k@ {
                        let j = choose|j: int| 0 <= j < self@.len() && self@[j] == (k2, v2);
                        assert(self@[j].0 == k@);
                    }
                }
            },
        }
    }

    /// Mask the values of the sensitive keys with the literal `REDACTED`.
    /// Running it twice equals running it once (`lemma_redact_idempotent`).
    pub fn redact(&mut self)
        ensures
            final(self)@ == redact_view(old(self)@),
            old(self).wf() ==> final(self).wf(),
    {
        redact_headers(self)
    }

    /// A fresh, already-redacted copy; the original is untouched.
    pub fn redacted_copy(&self) -> (r: HeaderMap)
        ensures
            r@ == redact_view(self@),
            self.wf() ==> r.wf(),
    {
        let mut out = HeaderMap { entries: Vec::new() };
        let n = self.entries.len();
        let mut i: usize = 0;
        while i < n
            invariant
                i <= n,
                n == self@.len(),
                out@ =~~= self@.subrange(0, i as int),
            decreases n - i,
        {
            let k = self.entries[i].0.clone();
            let v = self.entries[i].1.clone();
            assert(k@ == self@[i as int].0);
            assert(v@ == self@[i as int].1);
            let ghost preout = out@;
            out.entries.push((k, v));
            assert(out@.len() == preout.len() + 1);
            assert(forall|j: int| 0 <= j < preout.len() ==> out@[j] == preout[j]);
            assert(out@[i as int] == (k@, v@));
            assert(out@ =~~= self@.subrange(0, i + 1 as int));
            i += 1;
        }
        assert(out@ =~= self@);
        redact_headers(&mut out);
        out
    }
}

fn redacted_literal() -> (r: String)
    ensures
        r@ == "REDACTED"@,
{
    String::from_str("REDACTED")
}

/// Replace the values of `authorization`, `x-api-key` and `api-key`, where
/// present, with the literal `REDACTED`; other pairs are kept as they are.
pub fn redact_headers(headers: &mut HeaderMap)
    ensures
        final(headers)@ == redact_view(old(headers)@),
        old(headers).wf() ==> final(headers).wf(),
{
    let ghost pre = headers@;
    let n = headers.entries.len();
    let mut i: usize = 0;
    while i < n
        invariant
            i <= n,
            n == pre.len(),
            headers@.len() == pre.len(),
            forall|j: int| 0 <= j < i ==> headers@[j] == redact_view(pre)[j],
            forall|j: int| i <= j < n ==> headers@[j] == pre[j],
        decreases n - i,
    {
        let k = headers.entries[i].0.clone();
        if str_eq(k.as_str(), "authorization") || str_eq(k.as_str(), "x-api-key") || str_eq(
            k.as_str(),
            "api-key",
        ) {
            headers.entries[i] = (k, redacted_literal());
        }
        i += 1;
    }
    assert(headers@ =~= redact_view(pre));
    assert(old(headers).wf() ==> headers.wf()) by {
        if old(headers).wf() {
            assert forall|a: int, b: int|
                0 <= a < b < headers@.len() implies headers@[a].0 != headers@[b].0 by {
                assert(headers@[a].0 == pre[a].0);
                assert(headers@[b].0 == pre[b].0);
            }
        }
    }
}

/// What one `--modify-header` item contributes: the text left of the first
/// `:`, trimmed and lowercased, mapped to the text right of it, trimmed.
/// An item without `:` contributes nothing.
pub open spec fn header_edit_of(item: Seq<char>) -> Option<(Seq<char>, Seq<char>)> {
    match crate::strutil::find_char_spec(item, ':') {
        Some(i) => Some(
            (
                lower_seq(crate::strutil::trim_seq(item.subrange(0, i))),
                crate::strutil::trim_seq(item.subrange(i + 1, item.len() as int)),
            ),
        ),
        None => None,
    }
}

/// The mapping that a list of `--modify-header` items denotes, later items
/// overriding earlier ones with the same name.
pub open spec fn set_headers_map(items: Seq<Seq<char>>) -> Map<Seq<char>, Seq<char>>
    decreases items.len(),
{
    if items.len() == 0 {
        Map::empty()
    } else {
        let m = set_headers_map(items.drop_last());
        match header_edit_of(items.last()) {
            Some(p) => m.insert(p.0, p.1),
            None => m,
        }
    }
}

/// Parse the repeatable `--modify-header "Name: value"` items into a header
/// mapping: names lowercased and trimmed, values trimmed, later items winning.
pub fn parse_set_headers(items: &Vec<String>) -> (r: HeaderMap)
    ensures
        r.wf(),
        forall|k: Seq<char>, v: Seq<char>|
            #[trigger] has_pair(r@, k, v) <==> set_headers_map(items.deep_view()).contains_pair(
                k,
                v,
            ),
{
    let ghost all = items.deep_view();
    let mut out = HeaderMap::new();
    let n = items.len();
    let mut i: usize = 0;
    assert forall|k: Seq<char>, v: Seq<char>|
        #[trigger] has_pair(out@, k, v) <==> set_headers_map(all.take(0)).contains_pair(k, v) by {
        assert(!has_pair(out@, k, v));
        assert(all.take(0).len() == 0);
    }
    while i < n
        invariant
            i <= n,
            n == items@.len(),
            all == items.deep_view(),
            all.len() == n,
            out.wf(),
            forall|k: Seq<char>, v: Seq<char>|
                #[trigger] has_pair(out@, k, v) <==> set_headers_map(
                    all.take(i as int),
                ).contains_pair(k, v),
        decreases n - i,
    {
        let ghost prefix = all.take(i as int);
        let ghost prefix1 = all.take(i + 1);
        proof {
            assert(prefix1.drop_last() =~= prefix);
            assert(prefix1.last() == all[i as int]);
            assert(all[i as int] == items@[i as int]@);
        }
        let item = &items[i];
        match split_at_first(item.as_str(), ':') {
            Some((name, value)) => {
                let name_t = crate::strutil::trim(name.as_str());
                let key = ascii_lowercase(name_t.as_str());
                let val = crate::strutil::trim(value.as_str());
                proof {
                    assert(header_edit_of(item@) == Some((key@, val@)));
                }
                out.insert(key, val);
                proof {
                    let p = header_edit_of(all[i as int])->0;
                    assert(set_headers_map(prefix1) == set_headers_map(prefix).insert(p.0, p.1));
                }
            },
            None => {
                proof {
                    assert(header_edit_of(item@) is None);
                    assert(set_headers_map(prefix1) == set_headers_map(prefix));
                }
            },
        }
        i += 1;
    }
    assert(all.take(n as int) =~= all);
    out
}

/// Split at the first occurrence of `c`: the text before it and after it.
pub fn split_at_first(s: &str, c: char) -> (r: Option<(String, String)>)
    ensures
        r is Some <==> crate::strutil::find_char_spec(s@, c) is Some,
        r matches Some(p) ==> {
            let i = crate::strutil::find_char_spec(s@, c)->0;
            &&& p.0@ == s@.subrange(0, i)
            &&& p.1@ == s@.subrange(i + 1, s@.len() as int)
        },
{
    let chars = str_chars(s);
    match crate::strutil::find_char(&chars, c) {
        Some(i) => {
            let n = chars.len();
            let mut left: Vec<char> = Vec::new();
            let mut right: Vec<char> = Vec::new();
            let mut j: usize = 0;
            while j < i
                invariant
                    j <= i,
                    i < n,
                    n == chars@.len(),
                    chars@ == s@,
                    left@ =~= s@.subrange(0, j as int),
                decreases i - j,
            {
                left.push(chars[j]);
                assert(left@ =~= s@.subrange(0, j + 1 as int));
                j += 1;
            }
            let mut j2: usize = i + 1;
            while j2 < n
                invariant
                    i + 1 <= j2 <= n,
                    i < n,
                    n == chars@.len(),
                    chars@ == s@,
                    right@ =~= s@.subrange(i + 1 as int, j2 as int),
                decreases n - j2,
            {
                right.push(chars[j2]);
                assert(right@ =~= s@.subrange(i + 1 as int, j2 + 1 as int));
                j2 += 1;
            }
            assert(right@ =~= s@.subrange(i + 1 as int, n as int));
            Some((chars_to_string(&left), chars_to_string(&right)))
        },
        None => None,
    }
}

} // verus!
