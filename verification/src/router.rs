//! The round router: turns the unordered batch of messages that the
//! transport delivered, each tagged with its authenticated sender, into
//! the party-indexed table that the round processors consume.
//!
//! Reception order carries no information: the routed table is a function
//! of which sender sent which message alone, which is proved below. A
//! batch is accepted only when every index is a distinct peer and every
//! peer is present.
use vstd::prelude::*;

verus! {

/// Some entry of the batch was authored by party `j`.
pub open spec fn covered<T>(pairs: Seq<(u16, T)>, j: int) -> bool {
    exists|t: int| 0 <= t < pairs.len() && (#[trigger] pairs[t]).0 == j
}

/// A batch the router accepts: every sender index in range and not the
/// local one, no sender twice, and every peer present.
pub open spec fn batch_valid<T>(n: int, own: int, pairs: Seq<(u16, T)>) -> bool {
    &&& forall|t: int| 0 <= t < pairs.len() ==> (#[trigger] pairs[t]).0 < n && pairs[t].0 != own
    &&& forall|t1: int, t2: int| 0 <= t1 < t2 < pairs.len()
        ==> (#[trigger] pairs[t1]).0 != (#[trigger] pairs[t2]).0
    &&& forall|j: int| 0 <= j < n && j != own ==> #[trigger] covered(pairs, j)
}

/// `v` is the correctly routed table for the local message and the given
/// batch: one slot per party, the local slot holding the local message,
/// every batch entry sitting in its author's slot, and every peer slot
/// covered by some batch entry.
pub open spec fn routed<T>(n: int, own: int, own_msg: T, pairs: Seq<(u16, T)>, v: Seq<T>) -> bool {
    &&& v.len() == n
    &&& v[own] == own_msg
    &&& forall|t: int| 0 <= t < pairs.len() ==> ((#[trigger] pairs[t]).0 < n
            && pairs[t].0 != own && v[pairs[t].0 as int] == pairs[t].1)
    &&& forall|j: int| 0 <= j < n && j != own ==> #[trigger] covered(pairs, j)
}

/// Route a round's batch: place the local message at the local index and
/// each received message at its sender's index. Succeeds exactly when the
/// batch is valid: no sender index out of range or equal to the local
/// index, no sender twice, no peer missing.
#[verifier::loop_isolation(false)]
pub fn route_round<T>(n: usize, own: usize, own_msg: T, pairs: &mut Vec<(u16, T)>) -> (r: Option<
    Vec<T>,
>)
    requires
        own < n,
        n <= 65535,
    ensures
        r matches Some(v) ==> routed(n as int, own as int, own_msg, old(pairs)@, v@),
        r is Some <==> batch_valid(n as int, own as int, old(pairs)@),
{
    let ghost orig = pairs@;
    let ghost own_snapshot = own_msg;
    let mut slots: Vec<Option<T>> = Vec::new();
    let mut k: usize = 0;
    while k < n
        invariant
            k <= n,
            slots@.len() == k,
            forall|j: int| 0 <= j < k ==> (#[trigger] slots@[j]) is None,
        decreases n - k,
    {
        slots.push(None);
        k += 1;
    }
    slots.remove(own);
    slots.insert(own, Some(own_msg));
    proof {
        assert(orig.take(orig.len() as int) =~= orig);
    }
    while pairs.len() > 0
        invariant
            own < n,
            slots@.len() == n,
            slots@[own as int] == Some(own_snapshot),
            pairs@.len() <= orig.len(),
            pairs@ == orig.take(pairs@.len() as int),
            forall|t: int| pairs@.len() <= t < orig.len() ==> ((#[trigger] orig[t]).0 < n
                && orig[t].0 != own && slots@[orig[t].0 as int] == Some(orig[t].1)),
            forall|j: int| 0 <= j < n && j != own && !((#[trigger] slots@[j]) is None)
                ==> exists|t: int| pairs@.len() <= t < orig.len() && (#[trigger] orig[t]).0 == j,
            forall|t1: int, t2: int| pairs@.len() <= t1 < t2 < orig.len()
                ==> (#[trigger] orig[t1]).0 != (#[trigger] orig[t2]).0,
        decreases pairs@.len(),
    {
        let ghost len_before = pairs@.len() as int;
        proof {
            assert(orig.take(len_before).last() == orig[len_before - 1]);
            assert(orig.take(len_before).drop_last() =~= orig.take(len_before - 1));
        }
        let (idx16, msg) = pairs.pop().unwrap();
        let idx = idx16 as usize;
        let ghost t_cur = len_before - 1;
        proof {
            assert(orig[t_cur].0 == idx16);
        }
        if idx >= n || idx == own {
            proof {
                assert(!batch_valid(n as int, own as int, orig)) by {
                    if batch_valid(n as int, own as int, orig) {
                        assert(orig[t_cur].0 < n && orig[t_cur].0 != own);
                    }
                }
            }
            return None;
        }
        let ghost slots_before = slots@;
        if slots[idx].is_some() {
            proof {
                assert(exists|t: int|
                    len_before <= t < orig.len() && (#[trigger] orig[t]).0 == idx16);
                let t_dup = choose|t: int|
                    len_before <= t < orig.len() && (#[trigger] orig[t]).0 == idx16;
                assert(!batch_valid(n as int, own as int, orig)) by {
                    if batch_valid(n as int, own as int, orig) {
                        assert(orig[t_cur].0 != orig[t_dup].0);
                    }
                }
            }
            return None;
        }
        slots.remove(idx);
        slots.insert(idx, Some(msg));
        proof {
            assert(slots@[idx as int] == Some(orig[len_before - 1].1));
            assert forall|t1: int, t2: int| pairs@.len() <= t1 < t2 < orig.len()
                implies (#[trigger] orig[t1]).0 != (#[trigger] orig[t2]).0 by {
                if t1 == t_cur {
                    if orig[t2].0 == idx16 {
                        assert(slots_before[orig[t2].0 as int] == Some(orig[t2].1));
                    }
                }
            }
            assert forall|j: int| 0 <= j < n && j != own && !((#[trigger] slots@[j]) is None)
                implies exists|t: int|
                    pairs@.len() <= t < orig.len() && (#[trigger] orig[t]).0 == j by {
                if j == idx as int {
                    assert(orig[len_before - 1].0 == j);
                } else {
                    assert(exists|t: int| len_before <= t < orig.len() && (#[trigger] orig[t]).0 == j);
                }
            }
        }
    }
    proof {
        assert(orig.take(0) =~= Seq::<(u16, T)>::empty());
    }
    let mut out: Vec<T> = Vec::new();
    let ghost full = slots@;
    let mut k: usize = 0;
    while k < n
        invariant
            k <= n,
            n <= 65535,
            own < n,
            full.len() == n,
            slots@ =~= full.skip(k as int),
            out@.len() == k,
            full[own as int] == Some(own_snapshot),
            forall|t: int| 0 <= t < orig.len() ==> ((#[trigger] orig[t]).0 < n
                && orig[t].0 != own && full[orig[t].0 as int] == Some(orig[t].1)),
            forall|j: int| 0 <= j < n && j != own && !((#[trigger] full[j]) is None)
                ==> exists|t: int| 0 <= t < orig.len() && (#[trigger] orig[t]).0 == j,
            forall|kk: int| 0 <= kk < k ==> full[kk] == Some(#[trigger] out@[kk]),
        decreases n - k,
    {
        proof {
            assert(full.skip(k as int)[0] == full[k as int]);
        }
        let slot = slots.remove(0);
        match slot {
            Some(m) => {
                out.push(m);
            }
            None => {
                proof {
                    assert(full[k as int] is None);
                    assert(k != own);
                    assert(!covered(orig, k as int)) by {
                        if covered(orig, k as int) {
                            let t0 = choose|t: int|
                                0 <= t < orig.len() && (#[trigger] orig[t]).0 == k as int;
                            assert(full[orig[t0].0 as int] == Some(orig[t0].1));
                        }
                    }
                    assert(!batch_valid(n as int, own as int, orig));
                }
                return None;
            }
        }
        proof {
            assert(slots@ =~= full.skip(k + 1));
        }
        k += 1;
    }
    proof {
        assert(out@[own as int] == own_snapshot);
        assert forall|t: int| 0 <= t < orig.len() implies ((#[trigger] orig[t]).0 < n
            && orig[t].0 != own && out@[orig[t].0 as int] == orig[t].1) by {
            assert(full[orig[t].0 as int] == Some(out@[orig[t].0 as int]));
        }
        assert forall|j: int| 0 <= j < n && j != own implies #[trigger] covered(orig, j) by {
            assert(full[j] == Some(out@[j]));
            assert(exists|t: int| 0 <= t < orig.len() && (#[trigger] orig[t]).0 == j);
        }
        assert(out@.len() == n);
        assert(out@[own as int] == own_snapshot);
        assert(batch_valid(n as int, own as int, orig));
    }
    Some(out)
}

/// Routing does not depend on reception order: two batches holding the
/// same tagged messages, in whatever order each arrived, route to the
/// same table.
pub proof fn lemma_route_order_independent<T>(
    n: int,
    own: int,
    own_msg: T,
    batch1: Seq<(u16, T)>,
    batch2: Seq<(u16, T)>,
    v1: Seq<T>,
    v2: Seq<T>,
)
    requires
        routed(n, own, own_msg, batch1, v1),
        routed(n, own, own_msg, batch2, v2),
        0 <= own < n,
        forall|p: (u16, T)| #[trigger] batch1.contains(p) <==> batch2.contains(p),
    ensures
        v1 =~= v2,
{
    assert forall|j: int| 0 <= j < n implies v1[j] == v2[j] by {
        if j != own {
            assert(covered(batch1, j));
            let t1 = choose|t: int| 0 <= t < batch1.len() && (#[trigger] batch1[t]).0 == j;
            let p = batch1[t1];
            assert(batch1.contains(p)) by {
                assert(0 <= t1 < batch1.len() && batch1[t1] == p);
            }
            assert(batch2.contains(p));
            let t2 = choose|t: int| 0 <= t < batch2.len() && #[trigger] batch2[t] == p;
            assert(batch2[t2] == p);
            assert(v2[p.0 as int] == p.1);
            assert(v1[p.0 as int] == p.1);
        }
    }
}

} // verus!
