use vstd::prelude::*;
use crate::errors::TransferError;

verus! {

/// No person id occurs twice.
pub open spec fn unique_seq(s: Seq<u64>) -> bool {
    forall|p: int, q: int| 0 <= p < q < s.len() ==> s[p] != s[q]
}

/// The position of the first occurrence of `x` in `s`; meaningful only
/// when `s` contains `x`.
pub open spec fn first_index_of(s: Seq<u64>, x: u64) -> int
    decreases s.len(),
{
    if s.len() == 0 {
        0
    } else if s[0] == x {
        0
    } else {
        1 + first_index_of(s.drop_first(), x)
    }
}

/// `first_index_of` really is the first occurrence.
pub proof fn lemma_first_index_of(s: Seq<u64>, x: u64)
    requires
        s.contains(x),
    ensures
        0 <= first_index_of(s, x) < s.len(),
        s[first_index_of(s, x)] == x,
        forall|j: int| 0 <= j < first_index_of(s, x) ==> s[j] != x,
    decreases s.len(),
{
    if s.len() > 0 && s[0] != x {
        assert(s.drop_first().contains(x)) by {
            let k = choose|k: int| 0 <= k < s.len() && s[k] == x;
            assert(s.drop_first()[k - 1] == x);
        }
        lemma_first_index_of(s.drop_first(), x);
        let i = first_index_of(s, x);
        assert(s[i] == s.drop_first()[i - 1]);
        assert forall|j: int| 0 <= j < i implies s[j] != x by {
            if j > 0 {
                assert(s[j] == s.drop_first()[j - 1]);
            }
        }
    }
}

/// An index that holds `x`, with nothing equal to `x` before it, is the
/// first index of `x`.
pub proof fn lemma_first_index_of_unique(s: Seq<u64>, x: u64, i: int)
    requires
        0 <= i < s.len(),
        s[i] == x,
        forall|j: int| 0 <= j < i ==> s[j] != x,
    ensures
        first_index_of(s, x) == i,
    decreases i,
{
    if i > 0 {
        assert(s.drop_first()[i - 1] == x);
        assert forall|j: int| 0 <= j < i - 1 implies s.drop_first()[j] != x by {
            assert(s.drop_first()[j] == s[j + 1]);
        }
        lemma_first_index_of_unique(s.drop_first(), x, i - 1);
    }
}

/// The roster after promoting `target` to rank 0: `target` first, then the
/// remaining members in their original relative order.
pub open spec fn reordered(roster: Seq<u64>, target: u64) -> Seq<u64>
    recommends
        roster.contains(target),
{
    roster.remove(first_index_of(roster, target)).insert(0, target)
}

/// Promotes `target` to the front of `roster`, keeping the relative order
/// of every other member.  Fails with `TargetNotModerator` exactly when
/// `target` is not in the roster.  Pure: the input is untouched.
pub fn reorder(roster: &Vec<u64>, target: u64) -> (r: Result<Vec<u64>, TransferError>)
    ensures
        (r is Ok) <==> roster@.contains(target),
        r matches Ok(out) ==> out@ == reordered(roster@, target),
        r matches Err(e) ==> e == TransferError::TargetNotModerator,
{
    let n = roster.len();
    let mut i: usize = 0;
    while i < n
        invariant
            n == roster@.len(),
            i <= n,
            forall|j: int| 0 <= j < i ==> roster@[j] != target,
        decreases n - i,
    {
        if roster[i] == target {
            let mut out: Vec<u64> = Vec::new();
            let mut k: usize = 0;
            while k < n
                invariant
                    n == roster@.len(),
                    k <= n,
                    out@ == roster@.take(k as int),
                decreases n - k,
            {
                out.push(roster[k]);
                proof {
                    assert(roster@.take(k as int).push(roster@[k as int]) =~= roster@.take(
                        k as int + 1,
                    ));
                }
                k += 1;
            }
            proof {
                assert(roster@.take(n as int) =~= roster@);
            }
            let moved = out.remove(i);
            out.insert(0, moved);
            proof {
                lemma_first_index_of_unique(roster@, target, i as int);
            }
            return Ok(out);
        }
        i += 1;
    }
    assert(!roster@.contains(target));
    Err(TransferError::TargetNotModerator)
}

/// Reordering correctness: the promoted target stands at rank 0, the
/// multiset of ids is unchanged, and the members other than the target
/// keep their relative order.
pub proof fn lemma_reorder_correct(roster: Seq<u64>, target: u64)
    requires
        roster.contains(target),
    ensures
        reordered(roster, target).len() == roster.len(),
        reordered(roster, target)[0] == target,
        reordered(roster, target).to_multiset() == roster.to_multiset(),
        reordered(roster, target).subrange(1, roster.len() as int) == roster.remove(
            first_index_of(roster, target),
        ),
{
    broadcast use vstd::seq_lib::to_multiset_remove, vstd::seq_lib::to_multiset_insert, vstd::multiset::group_multiset_axioms;

    lemma_first_index_of(roster, target);
    let i = first_index_of(roster, target);
    let removed = roster.remove(i);
    let result = reordered(roster, target);
    assert(result.to_multiset() == removed.to_multiset().insert(target));
    assert(removed.to_multiset() == roster.to_multiset().remove(target));
    roster.to_multiset_ensures();
    assert(roster.to_multiset().count(target) > 0);
    assert(roster.to_multiset().remove(target).insert(target) =~= roster.to_multiset());
    assert(result.subrange(1, roster.len() as int) =~= removed);
}

/// Reordering preserves the no-duplicates invariant of a roster.
pub proof fn lemma_reorder_unique(roster: Seq<u64>, target: u64)
    requires
        roster.contains(target),
        unique_seq(roster),
    ensures
        unique_seq(reordered(roster, target)),
{
    lemma_first_index_of(roster, target);
    let i = first_index_of(roster, target);
    let removed = roster.remove(i);
    let result = reordered(roster, target);
    assert forall|j: int| 0 <= j < removed.len() implies removed[j] != target by {
        if j < i {
            assert(removed[j] == roster[j]);
        } else {
            assert(removed[j] == roster[j + 1]);
        }
    }
    assert forall|p: int, q: int| 0 <= p < q < result.len() implies result[p] != result[q] by {
        if p == 0 {
            assert(result[q] == removed[q - 1]);
        } else {
            assert(result[p] == removed[p - 1]);
            assert(result[q] == removed[q - 1]);
            let rp = if p - 1 < i { p - 1 } else { p };
            let rq = if q - 1 < i { q - 1 } else { q };
            assert(removed[p - 1] == roster[rp]);
            assert(removed[q - 1] == roster[rq]);
        }
    }
}

/// Promoting a target that already holds rank 0 changes nothing, so a
/// repeated transfer leaves the roster exactly as the first one left it.
pub proof fn lemma_reordered_idempotent(roster: Seq<u64>, target: u64)
    requires
        roster.contains(target),
    ensures
        reordered(reordered(roster, target), target) == reordered(roster, target),
{
    lemma_reorder_correct(roster, target);
    let once = reordered(roster, target);
    assert(once.contains(target)) by {
        assert(once[0] == target);
    }
    lemma_first_index_of_unique(once, target, 0);
    assert(once.remove(0).insert(0, target) =~= once);
}

} // verus!
