//! Lists of ids without duplicates: finding and removing one id.

use vstd::prelude::*;

verus! {

/// `s` without the element at the first position that holds `id`.
pub open spec fn without(s: Seq<usize>, id: usize) -> Seq<usize> {
    if s.contains(id) {
        s.remove(s.index_of(id))
    } else {
        s
    }
}

/// Removing an id from a list without duplicates leaves exactly the other
/// elements, in their order.
pub proof fn lemma_without(s: Seq<usize>, id: usize)
    requires
        s.no_duplicates(),
    ensures
        without(s, id).no_duplicates(),
        !without(s, id).contains(id),
        forall|x: usize| x != id ==> (without(s, id).contains(x) <==> s.contains(x)),
        without(s, id).len() == s.len() - (if s.contains(id) {
            1int
        } else {
            0int
        }),
{
    if s.contains(id) {
        let k = s.index_of(id);
        let r = s.remove(k);
        assert forall|i: int, j: int| 0 <= i < r.len() && 0 <= j < r.len() && i != j implies r[i]
            != r[j] by {
            let a = if i < k {
                i
            } else {
                i + 1
            };
            let b = if j < k {
                j
            } else {
                j + 1
            };
            assert(r[i] == s[a] && r[j] == s[b]);
        }
        if r.contains(id) {
            let i = choose|i: int| 0 <= i < r.len() && r[i] == id;
            let a = if i < k {
                i
            } else {
                i + 1
            };
            assert(r[i] == s[a]);
            assert(s[a] == s[k]);
        }
        assert forall|x: usize| x != id implies (r.contains(x) <==> s.contains(x)) by {
            if r.contains(x) {
                let i = choose|i: int| 0 <= i < r.len() && r[i] == x;
                let a = if i < k {
                    i
                } else {
                    i + 1
                };
                assert(r[i] == s[a]);
            }
            if s.contains(x) {
                let a = choose|a: int| 0 <= a < s.len() && s[a] == x;
                let i = if a < k {
                    a
                } else {
                    a - 1
                };
                assert(r[i] == s[a]);
            }
        }
    }
}

/// The position of `id` in `v`, if it occurs.
pub(crate) fn find(v: &Vec<usize>, id: usize) -> (at: Option<usize>)
    ensures
        match at {
            Some(i) => i < v@.len() && v@[i as int] == id && (v@.no_duplicates() ==> i
                == v@.index_of(id)),
            None => !v@.contains(id),
        },
{
    let mut i: usize = 0;
    while i < v.len()
        invariant
            i <= v@.len(),
            forall|j: int| 0 <= j < i ==> v@[j] != id,
        decreases v@.len() - i,
    {
        if v[i] == id {
            proof {
                if v@.no_duplicates() {
                    let k = v@.index_of(id);
                    assert(v@.contains(id));
                }
            }
            return Some(i);
        }
        i += 1;
    }
    None
}

/// Removes `id` from `v`, if it occurs; returns whether it did.
pub(crate) fn remove_id(v: &mut Vec<usize>, id: usize) -> (removed: bool)
    requires
        old(v)@.no_duplicates(),
    ensures
        removed == old(v)@.contains(id),
        final(v)@ == without(old(v)@, id),
{
    match find(v, id) {
        Some(i) => {
            v.remove(i);
            true
        },
        None => false,
    }
}

} // verus!
