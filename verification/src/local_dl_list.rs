//! Non-thread-safe doubly-linked list of link nodes.
//!
//! Link nodes are opaque identifiers; the head keeps them in list order
//! behind an indirection table, so unlinking and the insertion discipline
//! (a node must be unlinked before it is inserted anywhere) can be stated
//! and checked directly. The head starts out uninitialised, as a bare link
//! node does, and becomes an initialised (empty) list on first use.

use vstd::prelude::*;

verus! {

/// Head of a non-thread-safe doubly-linked list of link nodes.
///
/// The sequence view lists the linked nodes in list order, front first.
#[derive(Debug)]
pub struct LocalDLHead {
    ready: bool,
    items: Vec<usize>,
}

impl View for LocalDLHead {
    type V = Seq<usize>;

    closed spec fn view(&self) -> Seq<usize> {
        self.items@
    }
}

impl LocalDLHead {
    /// No node is linked twice.
    pub open spec fn wf(&self) -> bool {
        self@.no_duplicates()
    }

    /// Whether the head has been initialised as an empty list.
    pub closed spec fn is_ready(&self) -> bool {
        self.ready
    }

    /// A fresh, uninitialised head with nothing linked.
    pub fn new() -> (r: Self)
        ensures
            r@ == Seq::<usize>::empty(),
            !r.is_ready(),
            r.wf(),
    {
        LocalDLHead { ready: false, items: Vec::new() }
    }

    /// Initialise the head as an empty list; idempotent, keeps the contents.
    pub fn init(&mut self)
        ensures
            final(self)@ == old(self)@,
            final(self).is_ready(),
    {
        self.ready = true;
    }

    /// True while nothing is linked here (both for a never-initialised head
    /// and for an initialised but empty one).
    pub fn is_unlinked(&self) -> (r: bool)
        ensures
            r == (self@.len() == 0),
    {
        self.items.len() == 0
    }

    /// Number of linked nodes.
    pub fn len(&self) -> (r: usize)
        ensures
            r == self@.len(),
    {
        self.items.len()
    }

    /// Whether `node` is linked on this list.
    pub fn contains(&self, node: usize) -> (r: bool)
        ensures
            r == self@.contains(node),
    {
        let mut i: usize = 0;
        while i < self.items.len()
            invariant
                i <= self.items.len(),
                forall|j: int| 0 <= j < i ==> self.items@[j] != node,
            decreases self.items.len() - i,
        {
            if self.items[i] == node {
                assert(self@[i as int] == node);
                return true;
            }
            i += 1;
        }
        false
    }

    /// Index at which `anchor` is linked.
    fn position_of(&self, anchor: usize) -> (r: usize)
        requires
            self.wf(),
            self@.contains(anchor),
        ensures
            r == self@.index_of(anchor),
            r < self@.len(),
            self@[r as int] == anchor,
    {
        let mut i: usize = 0;
        while i < self.items.len()
            invariant
                self.wf(),
                self@.contains(anchor),
                i <= self.items.len(),
                forall|j: int| 0 <= j < i ==> self.items@[j] != anchor,
            decreases self.items.len() - i,
        {
            if self.items[i] == anchor {
                proof {
                    let j = self@.index_of(anchor);
                    assert(0 <= j < self@.len() && self@[j] == anchor);
                    assert(self@[i as int] == anchor);
                    assert(i as int == j);
                }
                return i;
            }
            i += 1;
        }
        proof {
            assert(false);
        }
        0
    }

    /// Link `node` at the back; the node must currently be unlinked.
    pub fn append(&mut self, node: usize)
        requires
            old(self).wf(),
            !old(self)@.contains(node),
        ensures
            final(self)@ == old(self)@.push(node),
            final(self).is_ready(),
            final(self).wf(),
    {
        self.init();
        self.items.push(node);
        proof {
            assert forall|p: int, q: int|
                0 <= p < self@.len() && 0 <= q < self@.len() && p != q implies self@[p]
                != self@[q] by {
                if p == self@.len() - 1 {
                    assert(old(self)@[q] != node);
                } else if q == self@.len() - 1 {
                    assert(old(self)@[p] != node);
                }
            }
        }
    }

    /// Link `node` at the front; the node must currently be unlinked.
    pub fn prepend(&mut self, node: usize)
        requires
            old(self).wf(),
            !old(self)@.contains(node),
        ensures
            final(self)@ == seq![node] + old(self)@,
            final(self).is_ready(),
            final(self).wf(),
    {
        self.init();
        self.items.insert(0, node);
        proof {
            assert(self@ =~= seq![node] + old(self)@);
            lemma_insert_keeps_no_duplicates(old(self)@, 0, node);
        }
    }

    /// Link `node` right after `anchor`, which must already be linked here.
    pub fn insert_after(&mut self, anchor: usize, node: usize)
        requires
            old(self).wf(),
            old(self)@.contains(anchor),
            !old(self)@.contains(node),
            anchor != node,
        ensures
            final(self)@ == old(self)@.insert(old(self)@.index_of(anchor) + 1, node),
            final(self).wf(),
    {
        let idx = self.position_of(anchor);
        let n = self.items.len();
        assert(idx < n);
        self.items.insert(idx + 1, node);
        proof {
            lemma_insert_keeps_no_duplicates(old(self)@, old(self)@.index_of(anchor) + 1, node);
        }
    }

    /// Link `node` right before `anchor`, which must already be linked here.
    pub fn insert_before(&mut self, anchor: usize, node: usize)
        requires
            old(self).wf(),
            old(self)@.contains(anchor),
            !old(self)@.contains(node),
            anchor != node,
        ensures
            final(self)@ == old(self)@.insert(old(self)@.index_of(anchor), node),
            final(self).wf(),
    {
        let idx = self.position_of(anchor);
        self.items.insert(idx, node);
        proof {
            lemma_insert_keeps_no_duplicates(old(self)@, old(self)@.index_of(anchor), node);
        }
    }

    /// The front node, if any, without unlinking it.
    pub fn front(&self) -> (r: Option<usize>)
        ensures
            match r {
                Some(node) => self@.len() > 0 && node == self@.first(),
                None => self@.len() == 0,
            },
    {
        if self.items.len() == 0 {
            None
        } else {
            Some(self.items[0])
        }
    }

    /// Unlink and return the front node, if any.
    pub fn pop_front(&mut self) -> (r: Option<usize>)
        requires
            old(self).wf(),
        ensures
            final(self).wf(),
            match r {
                Some(node) => old(self)@.len() > 0 && node == old(self)@.first() && final(self)@
                    == old(self)@.drop_first(),
                None => old(self)@.len() == 0 && final(self)@ == old(self)@,
            },
    {
        if self.items.len() == 0 {
            None
        } else {
            let node = self.items.remove(0);
            proof {
                assert(self@ =~= old(self)@.drop_first());
            }
            Some(node)
        }
    }

    /// Unlink and return the back node, if any.
    pub fn pop_back(&mut self) -> (r: Option<usize>)
        requires
            old(self).wf(),
        ensures
            final(self).wf(),
            match r {
                Some(node) => old(self)@.len() > 0 && node == old(self)@.last() && final(self)@
                    == old(self)@.drop_last(),
                None => old(self)@.len() == 0 && final(self)@ == old(self)@,
            },
    {
        match self.items.pop() {
            Some(node) => Some(node),
            None => None,
        }
    }

    /// Unlink `node` wherever it is linked here; a no-op if it is not.
    pub fn unlink(&mut self, node: usize)
        requires
            old(self).wf(),
        ensures
            final(self)@ == old(self)@.remove_value(node),
            !final(self)@.contains(node),
            final(self).wf(),
    {
        let ghost prior = self@;
        let mut i: usize = 0;
        while i < self.items.len()
            invariant
                self@ == prior,
                prior == old(self)@,
                prior.no_duplicates(),
                i <= self.items.len(),
                forall|j: int| 0 <= j < i ==> self.items@[j] != node,
            decreases self.items.len() - i,
        {
            if self.items[i] == node {
                proof {
                    prior.index_of_first_ensures(node);
                    assert(prior[i as int] == node);
                    assert(prior.contains(node));
                    match prior.index_of_first(node) {
                        Some(j) => assert(j == i as int),
                        None => assert(false),
                    }
                    assert(prior.index_of_first(node) == Some(i as int));
                }
                self.items.remove(i);
                proof {
                    assert(self@ == prior.remove(i as int));
                    assert(self@ == prior.remove_value(node));
                    lemma_remove_keeps_no_duplicates(prior, i as int);
                    prior.remove_ensures(i as int);
                    assert forall|k: int| 0 <= k < self@.len() implies self@[k] != node by {
                        if k < i as int {
                            assert(self@[k] == prior[k]);
                        } else {
                            assert(self@[k] == prior[k + 1]);
                        }
                    }
                }
                return;
            }
            i += 1;
        }
        proof {
            assert(!prior.contains(node));
            prior.index_of_first_ensures(node);
        }
    }

    /// Splice every node of `other` onto this (empty) head, emptying `other`.
    pub fn take_from(&mut self, other: &mut LocalDLHead)
        requires
            old(self).wf(),
            old(other).wf(),
            old(self)@.len() == 0,
        ensures
            final(self)@ == old(other)@,
            final(other)@ == Seq::<usize>::empty(),
            final(self).wf(),
            final(other).wf(),
    {
        self.init();
        self.items.append(&mut other.items);
        proof {
            assert(self@ =~= old(other)@);
            assert(other@ =~= Seq::<usize>::empty());
        }
    }
}

impl Default for LocalDLHead {
    fn default() -> (r: Self)
        ensures
            r@ == Seq::<usize>::empty(),
            !r.is_ready(),
            r.wf(),
    {
        Self::new()
    }
}

proof fn lemma_insert_keeps_no_duplicates(s: Seq<usize>, i: int, node: usize)
    requires
        s.no_duplicates(),
        !s.contains(node),
        0 <= i <= s.len(),
    ensures
        s.insert(i, node).no_duplicates(),
{
    let t = s.insert(i, node);
    s.insert_ensures(i, node);
    assert forall|p: int, q: int| 0 <= p < t.len() && 0 <= q < t.len() && p != q implies t[p]
        != t[q] by {
        assert(t[p] == (if p < i { s[p] } else if p == i { node } else { s[p - 1] }));
        assert(t[q] == (if q < i { s[q] } else if q == i { node } else { s[q - 1] }));
        if p == i && q != i {
            let qs = if q < i { q } else { q - 1 };
            assert(s[qs] != node);
        } else if q == i && p != i {
            let ps = if p < i { p } else { p - 1 };
            assert(s[ps] != node);
        }
    }
}

proof fn lemma_remove_keeps_no_duplicates(s: Seq<usize>, i: int)
    requires
        s.no_duplicates(),
        0 <= i < s.len(),
    ensures
        s.remove(i).no_duplicates(),
{
    let t = s.remove(i);
    s.remove_ensures(i);
    assert forall|p: int, q: int| 0 <= p < t.len() && 0 <= q < t.len() && p != q implies t[p]
        != t[q] by {
        assert(t[p] == (if p < i { s[p] } else { s[p + 1] }));
        assert(t[q] == (if q < i { s[q] } else { s[q + 1] }));
    }
}

} // verus!
