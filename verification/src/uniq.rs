use vstd::prelude::*;

verus! {

/// Whether all byte strings in the list are pairwise distinct.
pub open spec fn spec_all_distinct(s: Seq<Seq<u8>>) -> bool {
    forall|i: int, j: int| 0 <= i < j < s.len() ==> s[i] != s[j]
}

/// Whether two byte vectors hold the same bytes.
fn bytes_equal(a: &Vec<u8>, b: &Vec<u8>) -> (r: bool)
    ensures
        r == (a@ == b@),
{
    let r = a == b;
    proof {
        if r {
            assert(a@ =~= b@);
        }
    }
    r
}

/// Check that a set of messages is pairwise distinct: a guard callers run
/// before batched verification to keep rogue duplicate inputs out. One or
/// two messages are compared directly; larger sets test each message for a
/// prior occurrence and stop at the first duplicate.
pub fn uniq(msgs: &Vec<Vec<u8>>) -> (r: bool)
    ensures
        r == spec_all_distinct(msgs@.map_values(|m: Vec<u8>| m@)),
{
    let ghost views = msgs@.map_values(|m: Vec<u8>| m@);
    let n_elems = msgs.len();

    if n_elems == 1 {
        return true;
    } else if n_elems == 2 {
        let distinct = !bytes_equal(&msgs[0], &msgs[1]);
        proof {
            assert(views[0] == msgs@[0]@);
            assert(views[1] == msgs@[1]@);
            if views[0] != views[1] {
                assert forall|p: int, q: int| 0 <= p < q < views.len() implies views[p]
                    != views[q] by {
                    assert(p == 0 && q == 1);
                }
            }
        }
        return distinct;
    }
    let mut i: usize = 0;
    while i < n_elems
        invariant
            n_elems == msgs@.len(),
            views == msgs@.map_values(|m: Vec<u8>| m@),
            i <= n_elems,
            forall|p: int, q: int| 0 <= p < q < i ==> views[p] != views[q],
        decreases n_elems - i,
    {
        let mut j: usize = 0;
        while j < i
            invariant
                n_elems == msgs@.len(),
                views == msgs@.map_values(|m: Vec<u8>| m@),
                i < n_elems,
                j <= i,
                forall|q: int| 0 <= q < j ==> views[q] != views[i as int],
            decreases i - j,
        {
            if bytes_equal(&msgs[i], &msgs[j]) {
                proof {
                    assert(views[i as int] == msgs@[i as int]@);
                    assert(views[j as int] == msgs@[j as int]@);
                }
                return false;
            }
            j = j + 1;
        }
        i = i + 1;
    }
    true
}

} // verus!
