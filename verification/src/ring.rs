//! The bounded ring of recent interactions: newest first, oldest evicted.

use vstd::prelude::*;
use crate::model::{Interaction, InteractionV, redact_interaction, redact_interaction_view};
use crate::strutil::str_eq;

verus! {

pub open spec fn interactions_view(v: Seq<Interaction>) -> Seq<InteractionV> {
    Seq::new(v.len(), |i: int| v[i].view())
}

/// What one push does to the ring's contents: the new interaction stands
/// first; when the bound is passed, the oldest leaves.
pub open spec fn ring_push(s: Seq<InteractionV>, cap: nat, x: InteractionV) -> Seq<InteractionV> {
    let grown = seq![x] + s;
    if grown.len() <= cap {
        grown
    } else {
        grown.take(cap as int)
    }
}

/// The ring's contents after a whole history of pushes into an empty ring.
pub open spec fn ring_after(pushes: Seq<InteractionV>, cap: nat) -> Seq<InteractionV>
    decreases pushes.len(),
{
    if pushes.len() == 0 {
        Seq::empty()
    } else {
        ring_push(ring_after(pushes.drop_last(), cap), cap, pushes.last())
    }
}

/// After any history of pushes the ring holds the most recent pushes — all
/// of them if they number at most the bound, else exactly the last `cap` —
/// newest first.
pub proof fn lemma_ring_after_shape(pushes: Seq<InteractionV>, cap: nat)
    ensures
        ring_after(pushes, cap).len() == if pushes.len() <= cap {
            pushes.len()
        } else {
            cap
        },
        forall|i: int|
            0 <= i < ring_after(pushes, cap).len() ==> ring_after(pushes, cap)[i] == pushes[
                pushes.len() - 1 - i],
    decreases pushes.len(),
{
    if pushes.len() > 0 {
        lemma_ring_after_shape(pushes.drop_last(), cap);
        let prev = ring_after(pushes.drop_last(), cap);
        let grown = seq![pushes.last()] + prev;
        assert forall|i: int|
            0 <= i < ring_after(pushes, cap).len() implies ring_after(pushes, cap)[i] == pushes[
            pushes.len() - 1 - i] by {
            if i == 0 {
                assert(grown[0] == pushes.last());
            } else {
                assert(grown[i] == prev[i - 1]);
                assert(prev[i - 1] == pushes.drop_last()[pushes.drop_last().len() - 1 - (i - 1)]);
            }
        }
    }
}

/// A bounded collection of recent interactions, newest first.
pub struct Ring {
    items: Vec<Interaction>,
    cap: usize,
}

impl Ring {
    pub closed spec fn view(&self) -> Seq<InteractionV> {
        interactions_view(self.items@)
    }

    pub closed spec fn spec_cap(&self) -> nat {
        self.cap as nat
    }

    /// The ring never holds more than its bound.
    pub open spec fn wf(&self) -> bool {
        self@.len() <= self.spec_cap()
    }

    pub fn new(cap: usize) -> (r: Ring)
        ensures
            r@ == Seq::<InteractionV>::empty(),
            r.spec_cap() == cap,
            r.wf(),
    {
        let r = Ring { items: Vec::new(), cap };
        assert(r@ =~= Seq::<InteractionV>::empty());
        r
    }

    pub fn len(&self) -> (n: usize)
        ensures
            n == self@.len(),
    {
        self.items.len()
    }

    pub fn capacity(&self) -> (n: usize)
        ensures
            n == self.spec_cap(),
    {
        self.cap
    }

    pub fn at(&self, i: usize) -> (r: &Interaction)
        requires
            i < self@.len(),
        ensures
            r@ == self@[i as int],
    {
        &self.items[i]
    }

    /// Insert at the front; evict the oldest when the bound is passed.
    pub fn push(&mut self, x: Interaction)
        requires
            old(self).wf(),
        ensures
            final(self).wf(),
            final(self)@ == ring_push(old(self)@, old(self).spec_cap(), x@),
            final(self).spec_cap() == old(self).spec_cap(),
    {
        let ghost pre = self@;
        let ghost xv = x@;
        self.items.insert(0, x);
        assert(interactions_view(self.items@) =~= seq![xv] + pre);
        if self.items.len() > self.cap {
            let ghost before = self.items@;
            self.items.pop();
            assert(self.items@ =~= before.drop_last());
            assert(interactions_view(self.items@) =~= (seq![xv] + pre).take(self.cap as int));
        }
        assert(self@ =~= ring_push(pre, self.spec_cap(), xv));
    }

    pub fn clear(&mut self)
        ensures
            final(self)@ == Seq::<InteractionV>::empty(),
            final(self).spec_cap() == old(self).spec_cap(),
            final(self).wf(),
    {
        self.items = Vec::new();
        assert(self@ =~= Seq::<InteractionV>::empty());
    }

    /// The first interaction carrying the id, if any.
    pub fn find_by_id(&self, id: &str) -> (r: Option<&Interaction>)
        ensures
            match r {
                Some(x) => x@.id == id@ && exists|i: int|
                    0 <= i < self@.len() && self@[i] == x@,
                None => forall|i: int| 0 <= i < self@.len() ==> self@[i].id != id@,
            },
    {
        let n = self.items.len();
        let mut i: usize = 0;
        while i < n
            invariant
                i <= n,
                n == self@.len(),
                forall|j: int| 0 <= j < i ==> self@[j].id != id@,
            decreases n - i,
        {
            if str_eq(self.items[i].id.as_str(), id) {
                assert(self@[i as int] == self.items@[i as int]@);
                return Some(&self.items[i]);
            }
            i += 1;
        }
        None
    }

    /// A redacted copy of the whole ring, newest first; the stored
    /// interactions are untouched.
    pub fn snapshot_redacted(&self) -> (r: Vec<Interaction>)
        ensures
            r@.len() == self@.len(),
            forall|i: int|
                0 <= i < r@.len() ==> #[trigger] r@[i]@ == redact_interaction_view(self@[i]),
    {
        let n = self.items.len();
        let mut out: Vec<Interaction> = Vec::new();
        let mut i: usize = 0;
        while i < n
            invariant
                i <= n,
                n == self@.len(),
                out@.len() == i,
                forall|j: int|
                    0 <= j < i ==> #[trigger] out@[j]@ == redact_interaction_view(self@[j]),
            decreases n - i,
        {
            let red = redact_interaction(&self.items[i]);
            assert(red@ == redact_interaction_view(self@[i as int]));
            out.push(red);
            i += 1;
        }
        out
    }
}

} // verus!
