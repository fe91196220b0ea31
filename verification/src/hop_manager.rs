//! Reconciliation of the hop registry with the routing table.
use vstd::prelude::*;
use crate::strmap::{strs_view, str_set, contains_str};

verus! {

/// Registered hop ids that the routing table no longer refers to, in
/// registry order.
pub open spec fn retired_ids(registered: Seq<Seq<char>>, active: Set<Seq<char>>) -> Seq<Seq<char>> {
    registered.filter(|k: Seq<char>| !active.contains(k))
}

/// The hops to retire: those registered but not among `active_hop_ids`.
pub fn ids_to_retire(registered: &Vec<String>, active_hop_ids: &Vec<String>) -> (r: Vec<String>)
    ensures
        strs_view(r@) == retired_ids(strs_view(registered@), str_set(active_hop_ids@)),
{
    let ghost active = str_set(active_hop_ids@);
    let ghost pred = |k: Seq<char>| !active.contains(k);
    let mut r: Vec<String> = Vec::new();
    let mut i: usize = 0;
    while i < registered.len()
        invariant
            i <= registered@.len(),
            active == str_set(active_hop_ids@),
            pred == (|k: Seq<char>| !active.contains(k)),
            strs_view(r@) == strs_view(registered@).take(i as int).filter(pred),
        decreases registered@.len() - i,
    {
        let ghost r0 = strs_view(r@);
        let keep = !contains_str(active_hop_ids, registered[i].as_str());
        if keep {
            r.push(registered[i].clone());
        }
        proof {
            let t = strs_view(registered@).take(i + 1);
            assert(t.drop_last() =~= strs_view(registered@).take(i as int));
            assert(t.last() == registered@[i as int]@);
            reveal(Seq::filter);
            assert(t.filter(pred) == if pred(t.last()) { t.drop_last().filter(pred).push(t.last()) } else { t.drop_last().filter(pred) });
            assert(strs_view(r@) =~= t.filter(pred));
        }
        i = i + 1;
    }
    assert(strs_view(registered@).take(registered@.len() as int) =~= strs_view(registered@));
    r
}

/// Every registered hop is either still referenced or retired, never both.
pub proof fn lemma_retire_partition(registered: Seq<Seq<char>>, active: Set<Seq<char>>, x: Seq<char>)
    requires
        registered.contains(x),
    ensures
        active.contains(x) != retired_ids(registered, active).contains(x),
{
    let pred = |k: Seq<char>| !active.contains(k);
    broadcast use vstd::seq_lib::group_filter_ensures;
    let i = choose|i: int| 0 <= i < registered.len() && registered[i] == x;
    if !active.contains(x) {
        registered.lemma_filter_contains(pred, i);
    }
    if retired_ids(registered, active).contains(x) {
        let j = choose|j: int| 0 <= j < registered.filter(pred).len() && registered.filter(pred)[j] == x;
        registered.lemma_filter_pred(pred, j);
    }
}

} // verus!
