//! Ordering items by a decimal volume, largest first, keeping the order of
//! equal items.
use vstd::prelude::*;
use crate::decimal::Decimal;

verus! {

/// Items that carry a volume to be ranked by.
pub trait Ranked: Sized {
    spec fn rank(&self) -> Decimal;

    fn volume_of(&self) -> (r: Decimal)
        ensures
            r == self.rank(),
    ;
}

/// Each item's volume is no larger than the one before it.
pub open spec fn ranked_desc<T: Ranked>(s: Seq<T>) -> bool {
    forall|i: int| 0 < i < s.len() ==> (#[trigger] s[i]).rank().le(s[i - 1].rank())
}

/// `r` is `items` rearranged by the positions `p`: each item of `r` is the
/// item of `items` at its position in `p`, no position is used twice, and
/// items of equal volume keep the order they had in `items`.
pub open spec fn stable_arrangement<T: Ranked>(items: Seq<T>, r: Seq<T>, p: Seq<int>) -> bool {
    &&& p.len() == r.len()
    &&& forall|k: int| 0 <= k < p.len() ==> 0 <= #[trigger] p[k] < items.len() && r[k] == items[p[k]]
    &&& forall|a: int, b: int| 0 <= a < b < p.len() ==> #[trigger] p[a] != #[trigger] p[b]
    &&& forall|a: int, b: int|
        0 <= a < b < p.len() && (#[trigger] r[a]).rank().same_value((#[trigger] r[b]).rank()) ==> p[a] < p[b]
}

/// Sorts by volume, largest first; items of equal volume keep their order.
#[verifier::rlimit(60)]
pub fn sort_by_rank<T: Ranked>(items: Vec<T>) -> (r: Vec<T>)
    requires
        forall|i: int| 0 <= i < items@.len() ==> (#[trigger] items@[i]).rank().wf(),
    ensures
        r@.to_multiset() == items@.to_multiset(),
        ranked_desc(r@),
        r@.len() == items@.len(),
        exists|p: Seq<int>| stable_arrangement(items@, r@, p),
{
    broadcast use vstd::seq_lib::group_to_multiset_ensures;

    let ghost all = items@;
    let mut rest = items;
    let mut out: Vec<T> = Vec::new();
    let ghost mut perm: Seq<int> = Seq::empty();
    assert(rest@ =~= all.subrange(0, rest@.len() as int));
    while rest.len() > 0
        invariant
            rest@.to_multiset().add(out@.to_multiset()) == all.to_multiset(),
            ranked_desc(out@),
            forall|i: int| 0 <= i < rest@.len() ==> (#[trigger] rest@[i]).rank().wf(),
            forall|i: int| 0 <= i < out@.len() ==> (#[trigger] out@[i]).rank().wf(),
            rest@.len() + out@.len() == all.len(),
            rest@ == all.subrange(0, rest@.len() as int),
            stable_arrangement(all, out@, perm),
            forall|k: int| 0 <= k < perm.len() ==> #[trigger] perm[k] >= rest@.len(),
        decreases rest.len(),
    {
        let ghost before = rest@;
        let x = rest.pop().unwrap();
        assert(before =~= rest@.push(x));
        let ghost idx = rest@.len() as int;
        assert(x == all[idx]);
        assert(rest@ =~= all.subrange(0, rest@.len() as int));
        let v = x.volume_of();
        let mut j: usize = 0;
        while j < out.len() && v.less_than(&out[j].volume_of())
            invariant
                j <= out@.len(),
                forall|i: int| 0 <= i < out@.len() ==> (#[trigger] out@[i]).rank().wf(),
                v == x.rank(),
                v.wf(),
                forall|k: int| 0 <= k < j ==> v.lt((#[trigger] out@[k]).rank()),
            decreases out.len() - j,
        {
            j = j + 1;
        }
        let ghost old_out = out@;
        let ghost old_perm = perm;
        out.insert(j, x);
        proof {
            perm = old_perm.insert(j as int, idx);
            assert(out@ == old_out.insert(j as int, x));
            vstd::seq_lib::to_multiset_insert(old_out, j as int, x);
            vstd::seq_lib::to_multiset_build(rest@, x);
            assert(rest@.to_multiset().add(out@.to_multiset()) =~= before.to_multiset().add(
                old_out.to_multiset(),
            ));
            assert forall|i: int| 0 < i < out@.len() implies (#[trigger] out@[i]).rank().le(
                out@[i - 1].rank(),
            ) by {
                if i < j {
                    assert(out@[i] == old_out[i] && out@[i - 1] == old_out[i - 1]);
                } else if i == j {
                    assert(out@[i] == x);
                    assert(out@[i - 1] == old_out[i - 1]);
                    assert(v.lt(old_out[i - 1].rank()));
                } else if i == j + 1 {
                    assert(out@[i - 1] == x);
                    assert(out@[i] == old_out[j as int]);
                    assert(!v.lt(old_out[j as int].rank()));
                    lemma_not_lt_is_le(old_out[j as int].rank(), v);
                } else {
                    assert(out@[i] == old_out[i - 1] && out@[i - 1] == old_out[i - 2]);
                }
            }
            lemma_stable_insert(all, old_out, old_perm, x, idx, j as int);
        }
    }
    assert(stable_arrangement(all, out@, perm));
    out
}

/// Inserting the item at `idx`, below every position used so far, at a
/// place after only items of larger volume keeps the arrangement stable.
proof fn lemma_stable_insert<T: Ranked>(all: Seq<T>, out: Seq<T>, perm: Seq<int>, x: T, idx: int, j: int)
    requires
        stable_arrangement(all, out, perm),
        0 <= idx < all.len(),
        all[idx] == x,
        0 <= j <= out.len(),
        forall|k: int| 0 <= k < perm.len() ==> #[trigger] perm[k] > idx,
        forall|k: int| 0 <= k < j ==> x.rank().lt((#[trigger] out[k]).rank()),
    ensures
        stable_arrangement(all, out.insert(j, x), perm.insert(j, idx)),
        forall|k: int| 0 <= k < perm.len() + 1 ==> #[trigger] perm.insert(j, idx)[k] >= idx,
{
    let r = out.insert(j, x);
    let p = perm.insert(j, idx);
    assert forall|k: int| 0 <= k < p.len() implies 0 <= #[trigger] p[k] < all.len() && r[k] == all[p[k]] by {
        if k < j {
            assert(p[k] == perm[k] && r[k] == out[k]);
        } else if k > j {
            assert(p[k] == perm[k - 1] && r[k] == out[k - 1]);
        }
    }
    assert forall|a: int, b: int| 0 <= a < b < p.len() implies #[trigger] p[a] != #[trigger] p[b] by {
        if a == j {
            assert(p[b] == perm[b - 1]);
        } else if b == j {
            assert(p[a] == perm[a]);
        } else {
            let a0 = if a < j { a } else { a - 1 };
            let b0 = if b < j { b } else { b - 1 };
            assert(p[a] == perm[a0] && p[b] == perm[b0]);
        }
    }
    assert forall|a: int, b: int|
        0 <= a < b < p.len() && (#[trigger] r[a]).rank().same_value((#[trigger] r[b]).rank()) implies p[a] < p[b] by {
        if a == j {
            assert(p[b] == perm[b - 1]);
        } else if b == j {
            assert(r[a] == out[a]);
            assert(x.rank().lt(out[a].rank()));
        } else {
            let a0 = if a < j { a } else { a - 1 };
            let b0 = if b < j { b } else { b - 1 };
            assert(p[a] == perm[a0] && p[b] == perm[b0]);
            assert(r[a] == out[a0] && r[b] == out[b0]);
        }
    }
    assert forall|k: int| 0 <= k < perm.len() + 1 implies #[trigger] p[k] >= idx by {
        if k < j {
            assert(p[k] == perm[k]);
        } else if k > j {
            assert(p[k] == perm[k - 1]);
        }
    }
}

/// Of two numbers, one is below the other or not above it.
pub proof fn lemma_not_lt_is_le(a: Decimal, b: Decimal)
    requires
        !b.lt(a),
    ensures
        a.le(b),
{
}

} // verus!
