//! The stack of active layers.
//!
//! The stack lists the active layers in the order of their activation: the
//! last one has the highest precedence. The base layer, index 0, is always
//! its first entry, and no layer occurs twice.

use vstd::prelude::*;

verus! {

/// The stack without the layer `n`.
pub open spec fn without(s: Seq<u8>, n: u8) -> Seq<u8>
    decreases s.len(),
{
    if s.len() == 0 {
        s
    } else if s.last() == n {
        without(s.drop_last(), n)
    } else {
        without(s.drop_last(), n).push(s.last())
    }
}

/// The stack after layer `n` was activated: `n` comes on top unless it is
/// active already.
pub open spec fn activated(s: Seq<u8>, n: u8) -> Seq<u8> {
    if s.contains(n) {
        s
    } else {
        s.push(n)
    }
}

/// The stack after layer `n` was deactivated; the base layer stays.
pub open spec fn deactivated(s: Seq<u8>, n: u8) -> Seq<u8> {
    if n == 0 {
        s
    } else {
        without(s, n)
    }
}

/// The stack after layer `n` was toggled; the base layer stays.
pub open spec fn toggled(s: Seq<u8>, n: u8) -> Seq<u8> {
    if s.contains(n) {
        deactivated(s, n)
    } else {
        s.push(n)
    }
}

/// A valid stack: the base layer at the bottom, and no layer twice.
pub open spec fn stack_wf(s: Seq<u8>) -> bool {
    s.len() >= 1 && s[0] == 0 && s.no_duplicates()
}

/// Taking a layer out leaves only layers that were there, none of them the
/// one taken out, keeps the rest in order without repeats, and keeps the
/// bottom entry unless that was the one taken out.
pub proof fn lemma_without(s: Seq<u8>, n: u8)
    ensures
        forall|x: u8| #[trigger] without(s, n).contains(x) ==> s.contains(x) && x != n,
        forall|x: u8| s.contains(x) && x != n ==> #[trigger] without(s, n).contains(x),
        s.no_duplicates() ==> without(s, n).no_duplicates(),
        s.len() > 0 && s[0] != n ==> without(s, n).len() > 0 && without(s, n)[0] == s[0],
        !s.contains(n) ==> without(s, n) == s,
    decreases s.len(),
{
    if s.len() > 0 {
        let p = s.drop_last();
        let last = s.last();
        let r = without(p, n);
        lemma_without(p, n);
        assert forall|x: u8| p.contains(x) implies s.contains(x) by {
            let i = choose|i: int| 0 <= i < p.len() && p[i] == x;
            assert(s[i] == x);
        }
        assert(s.contains(last)) by {
            assert(s[s.len() - 1] == last);
        }
        assert forall|x: u8| s.contains(x) && x != last implies p.contains(x) by {
            let i = choose|i: int| 0 <= i < s.len() && s[i] == x;
            assert(p[i] == x);
        }
        if s.no_duplicates() {
            assert(p.no_duplicates()) by {
                assert forall|i: int, j: int| 0 <= i < p.len() && 0 <= j < p.len() && i != j implies p[i]
                    != p[j] by {
                    assert(p[i] == s[i] && p[j] == s[j]);
                }
            }
            if p.contains(last) {
                let i = choose|i: int| 0 <= i < p.len() && p[i] == last;
                assert(s[i] == s[s.len() - 1]);
                assert(false);
            }
        }
        if p.len() > 0 {
            assert(p[0] == s[0]);
        }
        if last != n {
            let w = r.push(last);
            assert forall|x: u8| #[trigger] w.contains(x) implies s.contains(x) && x != n by {
                let i = choose|i: int| 0 <= i < w.len() && w[i] == x;
                if i < r.len() {
                    assert(r[i] == x);
                    assert(r.contains(x));
                }
            }
            assert forall|x: u8| s.contains(x) && x != n implies #[trigger] w.contains(x) by {
                if x == last {
                    assert(w[r.len() as int] == x);
                } else {
                    assert(r.contains(x));
                    let i = choose|i: int| 0 <= i < r.len() && r[i] == x;
                    assert(w[i] == x);
                }
            }
            if s.no_duplicates() {
                assert forall|i: int, j: int| 0 <= i < w.len() && 0 <= j < w.len() && i != j implies w[i]
                    != w[j] by {
                    if i < r.len() && j < r.len() {
                    } else if i < r.len() {
                        assert(r.contains(r[i]));
                    } else if j < r.len() {
                        assert(r.contains(r[j]));
                    }
                }
            }
            if !s.contains(n) {
                assert(!p.contains(n));
                assert(w =~= s);
            }
        } else {
            assert forall|x: u8| s.contains(x) && x != n implies #[trigger] r.contains(x) by {
                assert(p.contains(x));
            }
        }
    }
}

/// Each of the three operations turns a valid stack into a valid stack.
pub proof fn lemma_stack_ops_keep_wf(s: Seq<u8>, n: u8)
    requires
        stack_wf(s),
    ensures
        stack_wf(activated(s, n)),
        stack_wf(deactivated(s, n)),
        stack_wf(toggled(s, n)),
{
    lemma_without(s, n);
    if !s.contains(n) {
        let w = s.push(n);
        assert forall|i: int, j: int| 0 <= i < w.len() && 0 <= j < w.len() && i != j implies w[i]
            != w[j] by {
            if i < s.len() {
                assert(s.contains(s[i]));
            }
            if j < s.len() {
                assert(s.contains(s[j]));
            }
        }
    }
}

/// The active layers, lowest precedence first.
#[derive(Debug)]
pub struct LayerStack {
    active: Vec<u8>,
}

impl LayerStack {
    /// The active layers, lowest precedence first.
    pub closed spec fn view(&self) -> Seq<u8> {
        self.active@
    }

    /// The stack that holds the base layer only.
    pub fn new() -> (res: LayerStack)
        ensures
            res@ == seq![0u8],
            stack_wf(res@),
    {
        let mut active: Vec<u8> = Vec::new();
        active.push(0);
        assert(active@ =~= seq![0u8]);
        LayerStack { active }
    }

    /// The active layers, lowest precedence first.
    pub fn as_vec(&self) -> (res: &Vec<u8>)
        ensures
            res@ == self@,
    {
        &self.active
    }

    /// The layer of the highest precedence.
    pub fn top(&self) -> (res: u8)
        requires
            stack_wf(self@),
        ensures
            res == self@.last(),
    {
        self.active[self.active.len() - 1]
    }

    /// Whether the layer is active.
    pub fn is_active(&self, n: u8) -> (res: bool)
        ensures
            res == self@.contains(n),
    {
        let mut i: usize = 0;
        while i < self.active.len()
            invariant
                0 <= i <= self.active@.len(),
                forall|j: int| 0 <= j < i ==> self.active@[j] != n,
            decreases self.active@.len() - i,
        {
            if self.active[i] == n {
                return true;
            }
            i = i + 1;
        }
        false
    }

    /// Activates the layer: it comes on top, unless it is active already.
    pub fn activate(&mut self, n: u8)
        requires
            stack_wf(old(self)@),
        ensures
            final(self)@ == activated(old(self)@, n),
            stack_wf(final(self)@),
    {
        proof {
            lemma_stack_ops_keep_wf(self@, n);
        }
        if !self.is_active(n) {
            self.active.push(n);
        }
    }

    /// Deactivates the layer. The base layer cannot be deactivated.
    pub fn deactivate(&mut self, n: u8)
        requires
            stack_wf(old(self)@),
        ensures
            final(self)@ == deactivated(old(self)@, n),
            stack_wf(final(self)@),
    {
        proof {
            lemma_stack_ops_keep_wf(self@, n);
        }
        if n == 0 {
            return ;
        }
        let mut kept: Vec<u8> = Vec::new();
        let mut i: usize = 0;
        while i < self.active.len()
            invariant
                0 <= i <= self.active@.len(),
                kept@ == without(self.active@.take(i as int), n),
            decreases self.active@.len() - i,
        {
            proof {
                let next = self.active@.take(i + 1);
                assert(next.last() == self.active@[i as int]);
                assert(next.drop_last() =~= self.active@.take(i as int));
            }
            if self.active[i] != n {
                kept.push(self.active[i]);
            }
            i = i + 1;
        }
        assert(self.active@.take(i as int) =~= self.active@);
        self.active = kept;
    }

    /// Flips whether the layer is active. The base layer stays active.
    pub fn toggle(&mut self, n: u8)
        requires
            stack_wf(old(self)@),
        ensures
            final(self)@ == toggled(old(self)@, n),
            stack_wf(final(self)@),
    {
        proof {
            lemma_stack_ops_keep_wf(self@, n);
        }
        if self.is_active(n) {
            self.deactivate(n);
        } else {
            self.active.push(n);
        }
    }
}

} // verus!
