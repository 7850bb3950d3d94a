//! Multi-producer single-consumer intrusively linked queue.
//!
//! The queue always holds one stub entry so that a producer never meets an
//! empty tail; link nodes are opaque identifiers. The consumer pops from the
//! front while a successor exists; a popped stub is pushed right back, and a
//! drain stops on its second meeting with the stub so that one drain stays
//! bounded under continuous producer pressure.

use vstd::prelude::*;

verus! {

/// The stub entry is `None`; a real link node is `Some(id)`.
pub open spec fn is_stub(x: Option<usize>) -> bool {
    x is None
}

/// `n` is enqueued somewhere in `s`.
pub open spec fn contains_node(s: Seq<Option<usize>>, n: usize) -> bool {
    exists|i: int| 0 <= i < s.len() && s[i] == Some(n)
}

/// The stub sits at index `i` of `s`.
pub open spec fn stub_at(s: Seq<Option<usize>>, i: int) -> bool {
    0 <= i < s.len() && s[i] is None
}

/// Exactly one stub entry is present.
pub open spec fn one_stub(s: Seq<Option<usize>>) -> bool {
    (exists|i: int| stub_at(s, i)) && (forall|i: int, j: int|
        stub_at(s, i) && stub_at(s, j) ==> i == j)
}

/// A link node of the queue, carrying its identifier.
///
/// A node may be enqueued on at most one queue at a time; the containing
/// object guards that with an atomic flag of its own.
#[derive(Debug)]
pub struct Link {
    node: usize,
}

impl Link {
    /// The identifier this link stands for.
    pub closed spec fn id(&self) -> usize {
        self.node
    }

    /// Create a new link for a list.
    pub fn new(node: usize) -> (r: Self)
        ensures
            r.id() == node,
    {
        Link { node }
    }
}

/// Head of the queue: the entries in order, front (consumer side) first.
#[derive(Debug)]
pub struct Head {
    items: Vec<Option<usize>>,
}

impl View for Head {
    type V = Seq<Option<usize>>;

    closed spec fn view(&self) -> Seq<Option<usize>> {
        self.items@
    }
}

/// One drain of the queue; counts how often the stub has been met.
#[derive(Debug)]
pub struct PopAll {
    stub_visits: u8,
}

impl PopAll {
    /// How often this drain has popped (and re-pushed) the stub.
    pub closed spec fn stub_visits(&self) -> u8 {
        self.stub_visits
    }
}

impl Head {
    /// The queue holds exactly its one stub entry.
    pub open spec fn wf(&self) -> bool {
        one_stub(self@)
    }

    /// A fresh queue holding only the stub.
    pub fn new() -> (r: Self)
        ensures
            r@ == seq![None::<usize>],
            r.wf(),
    {
        let mut items: Vec<Option<usize>> = Vec::new();
        items.push(None);
        let r = Head { items };
        proof {
            assert(r@ =~= seq![None::<usize>]);
            assert(stub_at(r@, 0));
        }
        r
    }

    /// Producer side: enqueue `link` at the back.
    ///
    /// The caller must ensure the node is on no queue already.
    pub fn push(&mut self, link: &Link)
        requires
            old(self).wf(),
            !contains_node(old(self)@, link.id()),
        ensures
            final(self)@ == old(self)@.push(Some(link.id())),
            final(self).wf(),
    {
        self.items.push(Some(link.node));
        proof {
            assert forall|i: int, j: int|
                stub_at(self@, i) && stub_at(self@, j) implies i == j by {
                assert(stub_at(old(self)@, i));
                assert(stub_at(old(self)@, j));
            }
            let w = choose|i: int| stub_at(old(self)@, i);
            assert(stub_at(self@, w));
        }
    }

    /// Consumer side: begin a drain.
    ///
    /// At most one drain may be in progress at a time, and only the owning
    /// thread may drain.
    pub fn start_pop(&self) -> (d: PopAll)
        ensures
            d.stub_visits() == 0,
    {
        PopAll { stub_visits: 0 }
    }

    /// One step of the drain `d`.
    ///
    /// Pops the front entry while a successor exists. A popped stub goes
    /// straight back to the tail; the second stub visit ends the drain, so
    /// one drain meets the stub at most twice.
    pub fn pop_next(&mut self, d: &mut PopAll) -> (r: Option<usize>)
        requires
            old(self).wf(),
            old(d).stub_visits() <= 1,
        ensures
            final(self).wf(),
            final(d).stub_visits() <= 2,
            old(self)@.len() < 2 ==> r == None::<usize> && final(self)@ == old(self)@
                && final(d).stub_visits() == old(d).stub_visits(),
            old(self)@.len() >= 2 && old(self)@[0] is Some ==> r == old(self)@[0]
                && final(self)@ == old(self)@.drop_first()
                && final(d).stub_visits() == old(d).stub_visits(),
            old(self)@.len() >= 2 && old(self)@[0] is None && old(d).stub_visits() == 0 ==> r
                == old(self)@[1] && r is Some
                && final(self)@ == old(self)@.subrange(2, old(self)@.len() as int).push(None)
                && final(d).stub_visits() == 1,
            old(self)@.len() >= 2 && old(self)@[0] is None && old(d).stub_visits() == 1 ==> r
                == None::<usize> && final(self)@ == old(self)@.drop_first().push(None)
                && final(d).stub_visits() == 2,
    {
        if self.items.len() < 2 {
            return None;
        }
        let front = self.items.remove(0);
        proof {
            assert(self@ =~= old(self)@.drop_first());
        }
        match front {
            Some(n) => {
                proof {
                    let w = choose|i: int| stub_at(old(self)@, i);
                    assert(stub_at(old(self)@, w));
                    assert(w != 0);
                    assert(self@[w - 1] == old(self)@[w]);
                    assert(stub_at(self@, w - 1));
                    assert forall|i: int, j: int|
                        stub_at(self@, i) && stub_at(self@, j) implies i == j by {
                        assert(stub_at(old(self)@, i + 1));
                        assert(stub_at(old(self)@, j + 1));
                    }
                }
                Some(n)
            },
            None => {
                // The stub came off the front: push it back so producers
                // always find a tail, and count the visit.
                self.items.push(None);
                d.stub_visits += 1;
                proof {
                    assert(self@ =~= old(self)@.drop_first().push(None));
                    assert(stub_at(old(self)@, 0));
                    assert forall|k: int| 0 <= k < self@.len() - 1 implies self@[k] is Some by {
                        if self@[k] is None {
                            assert(stub_at(old(self)@, k + 1));
                        }
                    }
                    assert(stub_at(self@, self@.len() - 1));
                    assert forall|i: int, j: int|
                        stub_at(self@, i) && stub_at(self@, j) implies i == j by {}
                }
                if d.stub_visits == 2 {
                    return None;
                }
                // One more round; the stub is now at the back, so with at
                // least two entries the front must be a real node.
                let front2 = self.items.remove(0);
                proof {
                    assert(self@ =~= old(self)@.subrange(2, old(self)@.len() as int).push(None));
                }
                match front2 {
                    Some(n) => {
                        proof {
                            assert(stub_at(self@, self@.len() - 1));
                            assert forall|i: int, j: int|
                                stub_at(self@, i) && stub_at(self@, j) implies i == j by {
                                if i < self@.len() - 1 {
                                    assert(self@[i] == old(self)@[i + 2]);
                                    assert(stub_at(old(self)@, i + 2));
                                }
                                if j < self@.len() - 1 {
                                    assert(self@[j] == old(self)@[j + 2]);
                                    assert(stub_at(old(self)@, j + 2));
                                }
                            }
                        }
                        Some(n)
                    },
                    None => {
                        proof {
                            assert(false);
                        }
                        None
                    },
                }
            },
        }
    }
}

impl Default for Head {
    fn default() -> (r: Self)
        ensures
            r@ == seq![None::<usize>],
            r.wf(),
    {
        Self::new()
    }
}

} // verus!
