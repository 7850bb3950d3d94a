//! Shared facts about duplicate-free sequences.

use vstd::prelude::*;

verus! {

/// Removing one value keeps a duplicate-free sequence duplicate-free, and
/// every other value's membership.
pub(crate) proof fn lemma_remove_value_keeps(s: Seq<usize>, t: usize)
    requires
        s.no_duplicates(),
    ensures
        s.remove_value(t).no_duplicates(),
        !s.remove_value(t).contains(t),
        forall|x: usize| x != t ==> (s.remove_value(t).contains(x) == s.contains(x)),
        forall|i: int|
            0 <= i < s.remove_value(t).len() ==> s.contains(#[trigger] s.remove_value(t)[i]),
{
    s.index_of_first_ensures(t);
    match s.index_of_first(t) {
        Some(k) => {
            s.remove_ensures(k);
            let r = s.remove(k);
            assert forall|p: int, q: int|
                0 <= p < r.len() && 0 <= q < r.len() && p != q implies r[p] != r[q] by {
                assert(r[p] == (if p < k {
                    s[p]
                } else {
                    s[p + 1]
                }));
                assert(r[q] == (if q < k {
                    s[q]
                } else {
                    s[q + 1]
                }));
            }
            assert forall|i: int| 0 <= i < r.len() implies s.contains(#[trigger] r[i]) by {
                assert(r[i] == (if i < k {
                    s[i]
                } else {
                    s[i + 1]
                }));
            }
            assert(!r.contains(t)) by {
                if r.contains(t) {
                    let i = choose|i: int| 0 <= i < r.len() && r[i] == t;
                    assert(r[i] == (if i < k {
                        s[i]
                    } else {
                        s[i + 1]
                    }));
                    assert(s[k] == t);
                }
            }
            assert forall|x: usize| x != t implies (r.contains(x) == s.contains(x)) by {
                if s.contains(x) {
                    let i = choose|i: int| 0 <= i < s.len() && s[i] == x;
                    if i < k {
                        assert(r[i] == x);
                    } else {
                        assert(i > k);
                        assert(r[i - 1] == x);
                    }
                }
                if r.contains(x) {
                    let i = choose|i: int| 0 <= i < r.len() && r[i] == x;
                    assert(r[i] == (if i < k {
                        s[i]
                    } else {
                        s[i + 1]
                    }));
                }
            }
        },
        None => {},
    }
}

} // verus!
