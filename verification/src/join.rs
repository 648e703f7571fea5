use vstd::prelude::*;

use crate::component::GenericComponentStorage;

verus! {

/// True iff every storage selected by `ids` holds a value at index `i`.
pub open spec fn matches_all<S: GenericComponentStorage>(
    storages: Seq<S>,
    ids: Seq<usize>,
    i: int,
) -> bool {
    forall|k: int| 0 <= k < ids.len() ==> #[trigger] storages[ids[k] as int].occupied(i)
}

/// The largest slot count among the storages selected by `ids`; every index
/// occupied in all of them lies below this bound.
pub open spec fn max_slots<S: GenericComponentStorage>(storages: Seq<S>, ids: Seq<usize>) -> nat
    decreases ids.len(),
{
    if ids.len() == 0 {
        0
    } else {
        let rest = max_slots(storages, ids.drop_last());
        let last = storages[ids.last() as int].slots();
        if last > rest {
            last
        } else {
            rest
        }
    }
}

proof fn lemma_max_slots_bound<S: GenericComponentStorage>(
    storages: Seq<S>,
    ids: Seq<usize>,
    k: int,
)
    requires
        0 <= k < ids.len(),
    ensures
        storages[ids[k] as int].slots() <= max_slots(storages, ids),
    decreases ids.len(),
{
    if k == ids.len() - 1 {
    } else {
        lemma_max_slots_bound(storages, ids.drop_last(), k);
    }
}

/// The smallest index at or after `start` occupied in every storage selected
/// by `ids`, found by leapfrogging: a candidate index is repeatedly jumped
/// forward to the next occupied index some storage can offer, and confirmed
/// against the remaining storages, re-scanning earlier ones after a jump.
pub fn next_match<S: GenericComponentStorage>(
    storages: &Vec<S>,
    ids: &Vec<usize>,
    start: usize,
) -> (r: Option<usize>)
    requires
        ids@.len() >= 1,
        forall|k: int| 0 <= k < ids@.len() ==> (#[trigger] ids@[k]) < storages@.len(),
    ensures
        match r {
            Some(e) => start <= e && (e as int) < storages@[ids@[0] as int].slots()
                && matches_all(storages@, ids@, e as int)
                && forall|j: int| start <= j < e ==> !matches_all(storages@, ids@, j),
            None => forall|j: int| start <= j ==> !matches_all(storages@, ids@, j),
        },
{
    let n = ids.len();
    let mut c: usize = start;
    loop
        invariant
            n == ids@.len(),
            n >= 1,
            forall|k: int| 0 <= k < ids@.len() ==> (#[trigger] ids@[k]) < storages@.len(),
            start <= c,
            forall|j: int| start <= j < c ==> !matches_all(storages@, ids@, j),
        decreases max_slots(storages@, ids@) - c,
    {
        let id0 = ids[0];
        let e0 = match storages[id0].next_entry(c) {
            None => {
                proof {
                    assert forall|j: int| start <= j implies !matches_all(
                        storages@,
                        ids@,
                        j,
                    ) by {
                        if j >= c {
                            assert(!storages@[ids@[0] as int].occupied(j));
                        }
                    }
                }
                return None;
            },
            Some(e) => e,
        };
        proof {
            lemma_max_slots_bound(storages@, ids@, 0);
            assert forall|j: int| start <= j < e0 implies !matches_all(storages@, ids@, j) by {
                if j >= c {
                    assert(!storages@[ids@[0] as int].occupied(j));
                }
            }
        }
        let c2 = e0;
        let mut j: usize = 1;
        let mut bumped = false;
        let mut next_c: usize = c2;
        while j < n && !bumped
            invariant
                n == ids@.len(),
                n >= 1,
                forall|k: int| 0 <= k < ids@.len() ==> (#[trigger] ids@[k]) < storages@.len(),
                start <= c <= c2,
                1 <= j <= n,
                forall|jj: int| start <= jj < c2 ==> !matches_all(storages@, ids@, jj),
                (c2 as int) < storages@[ids@[0] as int].slots(),
                !bumped ==> next_c == c2 && forall|k: int|
                    0 <= k < j ==> storages@[ids@[k] as int].occupied(c2 as int),
                bumped ==> c2 < next_c && (next_c as int) < max_slots(storages@, ids@)
                    && forall|i: int| c2 <= i < next_c ==> !matches_all(storages@, ids@, i),
            decreases n - j, (if bumped { 0int } else { 1int }),
        {
            let idj = ids[j];
            match storages[idj].next_entry(next_c) {
                None => {
                    proof {
                        assert forall|jj: int| start <= jj implies !matches_all(
                            storages@,
                            ids@,
                            jj,
                        ) by {
                            if jj >= c2 {
                                assert(!storages@[ids@[j as int] as int].occupied(jj));
                            }
                        }
                    }
                    return None;
                },
                Some(e) => {
                    if e == next_c {
                        j += 1;
                    } else {
                        proof {
                            lemma_max_slots_bound(storages@, ids@, j as int);
                            assert forall|i: int| c2 <= i < e implies !matches_all(
                                storages@,
                                ids@,
                                i,
                            ) by {
                                assert(!storages@[ids@[j as int] as int].occupied(i));
                            }
                        }
                        bumped = true;
                        next_c = e;
                    }
                },
            }
        }
        if !bumped {
            return Some(c2);
        }
        c = next_c;
    }
}

/// Every index occupied in all the storages selected by `ids`, in strictly
/// ascending order.
pub fn join_indices<S: GenericComponentStorage>(storages: &Vec<S>, ids: &Vec<usize>) -> (r: Vec<
    usize,
>)
    requires
        ids@.len() >= 1,
        forall|k: int| 0 <= k < ids@.len() ==> (#[trigger] ids@[k]) < storages@.len(),
    ensures
        forall|m: int| 0 <= m < r@.len() ==> matches_all(storages@, ids@, #[trigger] r@[m] as int),
        forall|m1: int, m2: int| 0 <= m1 < m2 < r@.len() ==> r@[m1] < r@[m2],
        forall|i: usize| matches_all(storages@, ids@, i as int) ==> r@.contains(i),
{
    let mut out: Vec<usize> = Vec::new();
    let mut start: usize = 0;
    loop
        invariant
            ids@.len() >= 1,
            forall|k: int| 0 <= k < ids@.len() ==> (#[trigger] ids@[k]) < storages@.len(),
            forall|m: int| 0 <= m < out@.len() ==> matches_all(
                storages@,
                ids@,
                #[trigger] out@[m] as int,
            ),
            forall|m: int| 0 <= m < out@.len() ==> (#[trigger] out@[m] as int) < start,
            forall|m1: int, m2: int| 0 <= m1 < m2 < out@.len() ==> out@[m1] < out@[m2],
            forall|i: usize| (i as int) < start && matches_all(storages@, ids@, i as int)
                ==> out@.contains(i),
        decreases max_slots(storages@, ids@) + 1 - start,
    {
        match crate::join::next_match(storages, ids, start) {
            None => {
                proof {
                    assert forall|i: usize| matches_all(storages@, ids@, i as int)
                        implies out@.contains(i) by {
                        assert((i as int) < start);
                    }
                }
                return out;
            },
            Some(e) => {
                proof {
                    lemma_max_slots_bound(storages@, ids@, 0);
                }
                let ghost old_out = out@;
                out.push(e);
                proof {
                    assert forall|i: usize| (i as int) < e + 1 && matches_all(
                        storages@,
                        ids@,
                        i as int,
                    ) implies out@.contains(i) by {
                        if (i as int) < start {
                            assert(old_out.contains(i));
                            let m = choose|m: int|
                                0 <= m < old_out.len() && old_out[m] == i;
                            assert(out@[m] == i);
                        } else if i == e {
                            assert(out@[out@.len() - 1] == i);
                        }
                    }
                }
                if e == usize::MAX {
                    proof {
                        assert forall|i: usize| matches_all(storages@, ids@, i as int)
                            implies out@.contains(i) by {
                            assert((i as int) < e + 1);
                        }
                    }
                    return out;
                }
                start = e + 1;
            },
        }
    }
}

} // verus!
