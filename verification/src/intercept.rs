//! The intercept registry: the optional global pattern and the pending
//! entries awaiting an operator's decision. The one-shot rendezvous itself
//! is wiring around the core; the registry owns the bookkeeping, and each
//! entry leaves it exactly once, by release, drop or timeout.

use vstd::prelude::*;
use crate::model::{StoredRequest, StoredRequestV};
use crate::headers::HeaderMap;
use crate::strutil::str_eq;

verus! {

/// What the operator decides for a pending request.
pub enum InterceptAction {
    Release { headers: Option<HeaderMap>, body: Option<String> },
    Drop,
}

pub open spec fn entries_view(v: Seq<(String, StoredRequest)>) -> Seq<(Seq<char>, StoredRequestV)> {
    Seq::new(v.len(), |i: int| (v[i].0@, v[i].1.view()))
}

/// The pending entries, in insertion order, ids unique, plus the optional
/// match pattern.
pub struct InterceptRegistry {
    pattern: Option<String>,
    entries: Vec<(String, StoredRequest)>,
}

impl InterceptRegistry {
    pub closed spec fn view(&self) -> Seq<(Seq<char>, StoredRequestV)> {
        entries_view(self.entries@)
    }

    pub closed spec fn spec_pattern(&self) -> Option<Seq<char>> {
        match self.pattern {
            Some(p) => Some(p@),
            None => None,
        }
    }

    pub open spec fn wf(&self) -> bool {
        forall|i: int, j: int| 0 <= i < j < self@.len() ==> self@[i].0 != self@[j].0
    }

    pub open spec fn spec_has(&self, id: Seq<char>) -> bool {
        exists|i: int| 0 <= i < self@.len() && self@[i].0 == id
    }

    pub fn new(pattern: Option<String>) -> (r: InterceptRegistry)
        ensures
            r@ == Seq::<(Seq<char>, StoredRequestV)>::empty(),
            r.spec_pattern() == match pattern {
                Some(p) => Some(p@),
                None => None::<Seq<char>>,
            },
            r.wf(),
    {
        let r = InterceptRegistry { pattern, entries: Vec::new() };
        assert(r@ =~= Seq::<(Seq<char>, StoredRequestV)>::empty());
        r
    }

    pub fn set_pattern(&mut self, pattern: Option<String>)
        ensures
            final(self)@ == old(self)@,
            final(self).spec_pattern() == match pattern {
                Some(p) => Some(p@),
                None => None::<Seq<char>>,
            },
            old(self).wf() ==> final(self).wf(),
    {
        self.pattern = pattern;
    }

    pub fn pattern_copy(&self) -> (r: Option<String>)
        ensures
            match r {
                Some(p) => self.spec_pattern() == Some(p@),
                None => self.spec_pattern() is None,
            },
    {
        match &self.pattern {
            Some(p) => Some(p.clone()),
            None => None,
        }
    }

    pub fn len(&self) -> (n: usize)
        ensures
            n == self@.len(),
    {
        self.entries.len()
    }

    pub fn entry_at(&self, i: usize) -> (r: (&String, &StoredRequest))
        requires
            i < self@.len(),
        ensures
            r.0@ == self@[i as int].0,
            r.1@ == self@[i as int].1,
    {
        (&self.entries[i].0, &self.entries[i].1)
    }

    pub fn contains(&self, id: &str) -> (r: bool)
        ensures
            r == self.spec_has(id@),
    {
        let n = self.entries.len();
        let mut i: usize = 0;
        while i < n
            invariant
                i <= n,
                n == self@.len(),
                forall|j: int| 0 <= j < i ==> self@[j].0 != id@,
            decreases n - i,
        {
            if str_eq(self.entries[i].0.as_str(), id) {
                assert(self@[i as int].0 == id@);
                return true;
            }
            i += 1;
        }
        false
    }

    /// Enqueue a pending request under a fresh id.
    pub fn insert(&mut self, id: String, request: StoredRequest)
        requires
            old(self).wf(),
            !old(self).spec_has(id@),
        ensures
            final(self).wf(),
            final(self)@ == old(self)@.push((id@, request@)),
            final(self).spec_pattern() == old(self).spec_pattern(),
    {
        let ghost pre = self@;
        self.entries.push((id, request));
        assert(self@ =~= pre.push((self@[pre.len() as int].0, self@[pre.len() as int].1)));
    }

    /// Take the entry out, exactly once: afterwards the id is gone, and a
    /// second removal of the same id yields nothing.
    #[verifier::loop_isolation(false)]
    pub fn remove(&mut self, id: &str) -> (r: Option<StoredRequest>)
        requires
            old(self).wf(),
        ensures
            final(self).wf(),
            final(self).spec_pattern() == old(self).spec_pattern(),
            !final(self).spec_has(id@),
            match r {
                Some(req) => exists|i: int|
                    {
                        &&& 0 <= i < old(self)@.len()
                        &&& old(self)@[i] == (id@, req@)
                        &&& final(self)@ == old(self)@.remove(i)
                    },
                None => !old(self).spec_has(id@) && final(self)@ == old(self)@,
            },
    {
        let ghost pre = self@;
        let n = self.entries.len();
        let mut i: usize = 0;
        while i < n
            invariant
                i <= n,
                n == self@.len(),
                self@ == pre,
                self.spec_pattern() == old(self).spec_pattern(),
                forall|j: int| 0 <= j < i ==> self@[j].0 != id@,
            decreases n - i,
        {
            if str_eq(self.entries[i].0.as_str(), id) {
                let ghost gi = i as int;
                let (_, req) = self.entries.remove(i);
                assert(self@ =~= pre.remove(gi));
                assert forall|j: int| 0 <= j < self@.len() implies self@[j].0 != id@ by {
                    if j < gi {
                        assert(self@[j] == pre[j]);
                    } else {
                        assert(self@[j] == pre[j + 1]);
                        assert(pre[j + 1].0 != pre[gi].0);
                    }
                }
                assert forall|a: int, b: int|
                    0 <= a < b < self@.len() implies self@[a].0 != self@[b].0 by {
                    let pa: int = if a < gi {
                        a
                    } else {
                        a + 1
                    };
                    let pb: int = if b < gi {
                        b
                    } else {
                        b + 1
                    };
                    assert(self@[a] == pre[pa]);
                    assert(self@[b] == pre[pb]);
                }
                assert(pre[gi] == (id@, req@));
                return Some(req);
            }
            i += 1;
        }
        None
    }
}

/// Inserting a fresh entry and then removing it leaves the registry as it
/// was: the bookkeeping of one rendezvous is balanced.
pub proof fn lemma_insert_remove_balanced(s: Seq<(Seq<char>, StoredRequestV)>, id: Seq<char>, req: StoredRequestV)
    ensures
        s.push((id, req)).remove(s.len() as int) == s,
{
    assert(s.push((id, req)).remove(s.len() as int) =~= s);
}

} // verus!
