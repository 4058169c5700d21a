//! The mathematical model of a task table: how many tasks a list holds, which
//! ranks they occupy, and what the rank shifts do to a row.
use vstd::prelude::*;
use vstd::set_lib::{lemma_int_range, lemma_len_subset, lemma_subset_equality, set_int_range};
use crate::model::FullTaskInfo;
use crate::ordering::move_window;

verus! {

/// Number of tasks of list `l` in the table `s`.
pub open spec fn count_in(s: Seq<FullTaskInfo>, l: u128) -> nat
    decreases s.len(),
{
    if s.len() == 0 {
        0
    } else {
        count_in(s.drop_last(), l) + if s.last().todo_list_id == l {
            1nat
        } else {
            0nat
        }
    }
}

/// No two tasks of list `l` share a rank.
pub open spec fn ranks_unique(s: Seq<FullTaskInfo>, l: u128) -> bool {
    forall|i: int, j: int|
        0 <= i < s.len() && 0 <= j < s.len() && i != j && s[i].todo_list_id == l
            && s[j].todo_list_id == l ==> s[i].order != s[j].order
}

/// Every task of list `l` has a rank between 1 and the list's task count.
pub open spec fn ranks_in_range(s: Seq<FullTaskInfo>, l: u128) -> bool {
    forall|i: int|
        0 <= i < s.len() && s[i].todo_list_id == l ==> 1 <= s[i].order <= count_in(s, l)
}

/// The ranks of list `l` are unique and lie in `1..=n`, `n` its task count.
pub open spec fn dense(s: Seq<FullTaskInfo>, l: u128) -> bool {
    ranks_unique(s, l) && ranks_in_range(s, l)
}

/// No two rows of the table share an id.
pub open spec fn ids_unique(s: Seq<FullTaskInfo>) -> bool {
    forall|i: int, j: int| 0 <= i < s.len() && 0 <= j < s.len() && i != j ==> s[i].id != s[j].id
}

/// Some row of the table has id `id`.
pub open spec fn id_used(s: Seq<FullTaskInfo>, id: u128) -> bool {
    exists|i: int| 0 <= i < s.len() && s[i].id == id
}

/// Row `i` is the task `id` of list `l`.
pub open spec fn is_task(s: Seq<FullTaskInfo>, i: int, l: u128, id: u128) -> bool {
    0 <= i < s.len() && s[i].todo_list_id == l && s[i].id == id
}

/// Row `i` is the task of list `l` at rank `rank`.
pub open spec fn at_rank(s: Seq<FullTaskInfo>, i: int, l: u128, rank: int) -> bool {
    0 <= i < s.len() && s[i].todo_list_id == l && s[i].order == rank
}

/// The set of ranks that tasks of list `l` occupy.
pub open spec fn rank_set(s: Seq<FullTaskInfo>, l: u128) -> Set<int> {
    Set::new(|r: int| exists|i: int| #[trigger] at_rank(s, i, l, r))
}

/// The row `t` with its rank replaced by `rank`.
pub open spec fn with_rank(t: FullTaskInfo, rank: int) -> FullTaskInfo {
    FullTaskInfo {
        id: t.id,
        todo_list_id: t.todo_list_id,
        description: t.description,
        order: rank as i32,
    }
}

/// `t` after every task of list `l` with rank at least `threshold` moved by `delta`.
pub open spec fn shifted_from(t: FullTaskInfo, l: u128, threshold: int, delta: int) -> FullTaskInfo {
    if t.todo_list_id == l && t.order >= threshold {
        with_rank(t, t.order + delta)
    } else {
        t
    }
}

/// `t` after every task of list `l` with rank in `[low, high]` moved by `delta`.
pub open spec fn shifted_range(
    t: FullTaskInfo,
    l: u128,
    low: int,
    high: int,
    delta: int,
) -> FullTaskInfo {
    if t.todo_list_id == l && low <= t.order <= high {
        with_rank(t, t.order + delta)
    } else {
        t
    }
}

/// The whole table after a shift from `threshold` by `delta` in list `l`.
pub open spec fn shift_from_all(s: Seq<FullTaskInfo>, l: u128, threshold: int, delta: int) -> Seq<
    FullTaskInfo,
> {
    s.map_values(|t: FullTaskInfo| shifted_from(t, l, threshold, delta))
}

/// The whole table after a shift of the window `[low, high]` by `delta` in list `l`.
pub open spec fn shift_range_all(
    s: Seq<FullTaskInfo>,
    l: u128,
    low: int,
    high: int,
    delta: int,
) -> Seq<FullTaskInfo> {
    s.map_values(|t: FullTaskInfo| shifted_range(t, l, low, high, delta))
}

/// Tasks of list `l` that keep their rows keep their relative order: row `i`
/// of `before` became row `i` of `after`, for every `i` below `n` but `skip`.
pub open spec fn order_kept(
    before: Seq<FullTaskInfo>,
    after: Seq<FullTaskInfo>,
    l: u128,
    n: int,
    skip: int,
) -> bool {
    forall|i: int, j: int|
        0 <= i < n && 0 <= j < n && i != skip && j != skip && before[i].todo_list_id == l
            && before[j].todo_list_id == l ==> (before[i].order < before[j].order <==> after[i].order
            < after[j].order)
}

/// Two tables whose rows belong to the same lists, row by row, hold as many
/// tasks of each list.
pub proof fn lemma_count_same_lists(s1: Seq<FullTaskInfo>, s2: Seq<FullTaskInfo>, l: u128)
    requires
        s1.len() == s2.len(),
        forall|i: int| 0 <= i < s1.len() ==> s1[i].todo_list_id == s2[i].todo_list_id,
    ensures
        count_in(s1, l) == count_in(s2, l),
    decreases s1.len(),
{
    if s1.len() > 0 {
        lemma_count_same_lists(s1.drop_last(), s2.drop_last(), l);
    }
}

/// Removing row `k` takes one task from its list and none from the others.
pub proof fn lemma_count_remove(s: Seq<FullTaskInfo>, k: int, l: u128)
    requires
        0 <= k < s.len(),
    ensures
        count_in(s.remove(k), l) + (if s[k].todo_list_id == l {
            1nat
        } else {
            0nat
        }) == count_in(s, l),
    decreases s.len(),
{
    if k == s.len() - 1 {
        assert(s.remove(k) =~= s.drop_last());
    } else {
        lemma_count_remove(s.drop_last(), k, l);
        assert(s.remove(k).drop_last() =~= s.drop_last().remove(k));
    }
}

/// A prefix holds no more tasks of a list than the whole table.
pub proof fn lemma_count_prefix(s: Seq<FullTaskInfo>, n: int, l: u128)
    requires
        0 <= n <= s.len(),
    ensures
        count_in(s.take(n), l) <= count_in(s, l),
    decreases s.len(),
{
    if n == s.len() {
        assert(s.take(n) =~= s);
    } else {
        lemma_count_prefix(s.drop_last(), n, l);
        assert(s.drop_last().take(n) =~= s.take(n));
    }
}

/// With unique ranks, a list occupies exactly as many ranks as it has tasks.
pub proof fn lemma_rank_set_len(s: Seq<FullTaskInfo>, l: u128)
    requires
        ranks_unique(s, l),
    ensures
        rank_set(s, l).finite(),
        rank_set(s, l).len() == count_in(s, l),
    decreases s.len(),
{
    if s.len() == 0 {
        assert(rank_set(s, l) =~= Set::<int>::empty());
    } else {
        let p = s.drop_last();
        let t = s.last();
        assert(ranks_unique(p, l)) by {
            assert forall|i: int, j: int|
                0 <= i < p.len() && 0 <= j < p.len() && i != j && p[i].todo_list_id == l
                    && p[j].todo_list_id == l implies p[i].order != p[j].order by {
                assert(s[i] == p[i] && s[j] == p[j]);
            }
        }
        lemma_rank_set_len(p, l);
        if t.todo_list_id == l {
            assert(rank_set(s, l) =~= rank_set(p, l).insert(t.order as int)) by {
                assert forall|r: int| rank_set(s, l).contains(r) implies rank_set(p, l).insert(
                    t.order as int,
                ).contains(r) by {
                    let i = choose|i: int| at_rank(s, i, l, r);
                    if i < p.len() {
                        assert(at_rank(p, i, l, r));
                    }
                }
                assert forall|r: int| rank_set(p, l).insert(t.order as int).contains(r) implies rank_set(
                    s,
                    l,
                ).contains(r) by {
                    if r == t.order {
                        assert(at_rank(s, s.len() - 1, l, r));
                    } else {
                        let i = choose|i: int| at_rank(p, i, l, r);
                        assert(at_rank(s, i, l, r));
                    }
                }
            }
            assert(!rank_set(p, l).contains(t.order as int)) by {
                if rank_set(p, l).contains(t.order as int) {
                    let i = choose|i: int| at_rank(p, i, l, t.order as int);
                    assert(at_rank(s, i, l, t.order as int));
                    assert(s[s.len() - 1] == t);
                }
            }
        } else {
            assert(rank_set(s, l) =~= rank_set(p, l)) by {
                assert forall|r: int| rank_set(s, l).contains(r) implies rank_set(p, l).contains(r) by {
                    let i = choose|i: int| at_rank(s, i, l, r);
                    assert(at_rank(p, i, l, r));
                }
                assert forall|r: int| rank_set(p, l).contains(r) implies rank_set(s, l).contains(r) by {
                    let i = choose|i: int| at_rank(p, i, l, r);
                    assert(at_rank(s, i, l, r));
                }
            }
        }
    }
}

/// Density as a set: in a dense list the ranks in use are exactly `1..=n`,
/// `n` the number of its tasks.
pub proof fn lemma_dense_ranks(s: Seq<FullTaskInfo>, l: u128)
    requires
        dense(s, l),
    ensures
        rank_set(s, l) == set_int_range(1, count_in(s, l) as int + 1),
{
    let n = count_in(s, l) as int;
    lemma_rank_set_len(s, l);
    lemma_int_range(1, n + 1);
    assert(rank_set(s, l).subset_of(set_int_range(1, n + 1))) by {
        assert forall|r: int| rank_set(s, l).contains(r) implies set_int_range(1, n + 1).contains(
            r,
        ) by {
            let i = choose|i: int| at_rank(s, i, l, r);
        }
    }
    lemma_subset_equality(rank_set(s, l), set_int_range(1, n + 1));
}

/// A dense list has at most as many tasks as there are positive `i32` ranks.
pub proof fn lemma_count_fits(s: Seq<FullTaskInfo>, l: u128)
    requires
        dense(s, l),
    ensures
        count_in(s, l) <= i32::MAX,
{
    lemma_rank_set_len(s, l);
    lemma_int_range(1, i32::MAX + 1);
    assert(rank_set(s, l).subset_of(set_int_range(1, i32::MAX + 1))) by {
        assert forall|r: int| rank_set(s, l).contains(r) implies set_int_range(
            1,
            i32::MAX + 1,
        ).contains(r) by {
            let i = choose|i: int| at_rank(s, i, l, r);
        }
    }
    lemma_len_subset(rank_set(s, l), set_int_range(1, i32::MAX + 1));
}

/// In a dense list every rank from 1 to its task count is held by some row.
pub proof fn lemma_rank_held(s: Seq<FullTaskInfo>, l: u128, rank: int)
    requires
        dense(s, l),
        1 <= rank <= count_in(s, l),
    ensures
        exists|i: int| at_rank(s, i, l, rank),
{
    lemma_dense_ranks(s, l);
    assert(set_int_range(1, count_in(s, l) as int + 1).contains(rank));
    assert(rank_set(s, l).contains(rank));
}

/// The invariant of a task table: ids are unique and every list is dense.
pub open spec fn table_wf(s: Seq<FullTaskInfo>) -> bool {
    ids_unique(s) && forall|l: u128| #[trigger] dense(s, l)
}

/// The conditions under which a task `id` can be placed in list `l` at rank
/// `order`: the id is fresh, the rank lies in `1..=n + 1`, and one more rank
/// still fits in an `i32`.
pub open spec fn insert_allowed(s: Seq<FullTaskInfo>, id: u128, l: u128, order: int) -> bool {
    &&& !id_used(s, id)
    &&& 1 <= order <= count_in(s, l) + 1
    &&& count_in(s, l) < i32::MAX
}

/// The table after task `t` is placed in its list at its rank: the rank is
/// opened by a shift of one from there up, then the row is added.
pub open spec fn inserted(s: Seq<FullTaskInfo>, t: FullTaskInfo) -> Seq<FullTaskInfo> {
    shift_from_all(s, t.todo_list_id, t.order as int, 1).push(t)
}

/// The table after row `k` is deleted: the row goes, and every rank above it
/// in its list moves down by one.
pub open spec fn deleted(s: Seq<FullTaskInfo>, k: int) -> Seq<FullTaskInfo> {
    shift_from_all(s.remove(k), s[k].todo_list_id, s[k].order as int, -1)
}

/// The table after the task of row `k` moves to rank `new`: the window
/// between the two ranks shifts by one, then the row takes its new rank.
pub open spec fn moved(s: Seq<FullTaskInfo>, k: int, new: int) -> Seq<FullTaskInfo> {
    let w = move_window(s[k].order as int, new);
    shift_range_all(s, s[k].todo_list_id, w.0, w.1, w.2).update(k, with_rank(s[k], new))
}

/// Placing a task keeps the table well formed, puts one more task in its
/// list, and keeps the relative order of the tasks already there.
pub proof fn lemma_insert(s: Seq<FullTaskInfo>, t: FullTaskInfo)
    requires
        table_wf(s),
        insert_allowed(s, t.id, t.todo_list_id, t.order as int),
    ensures
        table_wf(inserted(s, t)),
        count_in(inserted(s, t), t.todo_list_id) == count_in(s, t.todo_list_id) + 1,
        order_kept(s, inserted(s, t), t.todo_list_id, s.len() as int, -1),
{
    let l = t.todo_list_id;
    let s1 = shift_from_all(s, l, t.order as int, 1);
    let s2 = inserted(s, t);
    assert(s2.drop_last() =~= s1);
    assert forall|m: u128| #[trigger] dense(s2, m) by {
        lemma_count_same_lists(s, s1, m);
        assert(dense(s, m));
        if m == l {
            assert(count_in(s2, m) == count_in(s, m) + 1);
        } else {
            assert(count_in(s2, m) == count_in(s, m));
        }
        assert forall|i: int, j: int|
            0 <= i < s2.len() && 0 <= j < s2.len() && i != j && s2[i].todo_list_id == m
                && s2[j].todo_list_id == m implies s2[i].order != s2[j].order by {
            if i < s.len() && j < s.len() {
                assert(s[i].order != s[j].order);
            }
        }
    }
    lemma_count_same_lists(s, s1, l);
    assert(count_in(s2, l) == count_in(s, l) + 1);
    assert forall|i: int, j: int|
        0 <= i < s.len() && 0 <= j < s.len() && i != -1 && j != -1 && s[i].todo_list_id == l
            && s[j].todo_list_id == l implies (s[i].order < s[j].order <==> s2[i].order
            < s2[j].order) by {
        assert(dense(s, l));
        assert(s2[i] == s1[i] && s2[j] == s1[j]);
        assert(s1[i] == shifted_from(s[i], l, t.order as int, 1));
        assert(s1[j] == shifted_from(s[j], l, t.order as int, 1));
    }
    assert forall|i: int, j: int|
        0 <= i < s2.len() && 0 <= j < s2.len() && i != j implies s2[i].id != s2[j].id by {
        if i < s.len() && j < s.len() {
            assert(s[i].id != s[j].id);
        } else if i < s.len() {
            assert(s[i].id != t.id);
        } else {
            assert(s[j].id != t.id);
        }
    }
}

/// Deleting a task keeps the table well formed, takes one task from its list,
/// and keeps the relative order of the tasks that stay.
pub proof fn lemma_delete(s: Seq<FullTaskInfo>, k: int)
    requires
        table_wf(s),
        0 <= k < s.len(),
    ensures
        table_wf(deleted(s, k)),
        count_in(deleted(s, k), s[k].todo_list_id) + 1 == count_in(s, s[k].todo_list_id),
        order_kept(s.remove(k), deleted(s, k), s[k].todo_list_id, s.len() - 1, -1),
{
    let l = s[k].todo_list_id;
    let r = s[k].order as int;
    let s0 = s.remove(k);
    let s2 = deleted(s, k);
    assert(dense(s, l));
    assert forall|m: u128| #[trigger] dense(s2, m) by {
        lemma_count_remove(s, k, m);
        lemma_count_same_lists(s0, s2, m);
        assert(dense(s, m));
        assert forall|i: int, j: int|
            0 <= i < s2.len() && 0 <= j < s2.len() && i != j && s2[i].todo_list_id == m
                && s2[j].todo_list_id == m implies s2[i].order != s2[j].order by {
            let a = if i < k {
                i
            } else {
                i + 1
            };
            let b = if j < k {
                j
            } else {
                j + 1
            };
            assert(s0[i] == s[a] && s0[j] == s[b]);
            assert(s2[i] == shifted_from(s0[i], l, r, -1));
            assert(s2[j] == shifted_from(s0[j], l, r, -1));
            assert(s[a].order != s[b].order);
        }
        assert forall|i: int| 0 <= i < s2.len() && s2[i].todo_list_id == m implies 1 <= s2[i].order
            <= count_in(s2, m) by {
            let a = if i < k {
                i
            } else {
                i + 1
            };
            assert(s0[i] == s[a]);
            assert(s2[i] == shifted_from(s0[i], l, r, -1));
            if m == l {
                assert(s[a].order != s[k].order);
            }
        }
    }
    assert forall|i: int, j: int|
        0 <= i < s2.len() && 0 <= j < s2.len() && i != j implies s2[i].id != s2[j].id by {
        let a = if i < k {
            i
        } else {
            i + 1
        };
        let b = if j < k {
            j
        } else {
            j + 1
        };
        assert(s0[i] == s[a] && s0[j] == s[b]);
        assert(s2[i] == shifted_from(s0[i], l, r, -1));
        assert(s2[j] == shifted_from(s0[j], l, r, -1));
    }
    lemma_count_remove(s, k, l);
    lemma_count_same_lists(s0, s2, l);
    assert forall|i: int, j: int|
        0 <= i < s0.len() && 0 <= j < s0.len() && i != -1 && j != -1 && s0[i].todo_list_id == l
            && s0[j].todo_list_id == l implies (s0[i].order < s0[j].order <==> s2[i].order
            < s2[j].order) by {
        let a = if i < k {
            i
        } else {
            i + 1
        };
        let b = if j < k {
            j
        } else {
            j + 1
        };
        assert(s0[i] == s[a] && s0[j] == s[b]);
        assert(s2[i] == shifted_from(s0[i], l, r, -1));
        assert(s2[j] == shifted_from(s0[j], l, r, -1));
        assert(s[a].order != s[k].order);
        assert(s[b].order != s[k].order);
    }
}

/// Moving a task to another rank of its list keeps the table well formed,
/// keeps every list's task count, gives the task its new rank, and keeps the
/// relative order of the other tasks.
pub proof fn lemma_move(s: Seq<FullTaskInfo>, k: int, new: int)
    requires
        table_wf(s),
        0 <= k < s.len(),
        1 <= new <= count_in(s, s[k].todo_list_id),
        new != s[k].order,
    ensures
        table_wf(moved(s, k, new)),
        moved(s, k, new).len() == s.len(),
        forall|m: u128| count_in(#[trigger] moved(s, k, new), m) == count_in(s, m),
        moved(s, k, new)[k] == with_rank(s[k], new),
        order_kept(s, moved(s, k, new), s[k].todo_list_id, s.len() as int, k),
{
    let l = s[k].todo_list_id;
    let old = s[k].order as int;
    let w = move_window(old, new);
    let s1 = shift_range_all(s, l, w.0, w.1, w.2);
    let s2 = moved(s, k, new);
    assert(dense(s, l));
    lemma_count_fits(s, l);
    assert forall|m: u128| count_in(#[trigger] moved(s, k, new), m) == count_in(s, m) by {
        lemma_count_same_lists(s, s2, m);
    }
    assert forall|m: u128| #[trigger] dense(s2, m) by {
        lemma_count_same_lists(s, s2, m);
        assert(dense(s, m));
        assert forall|i: int, j: int|
            0 <= i < s2.len() && 0 <= j < s2.len() && i != j && s2[i].todo_list_id == m
                && s2[j].todo_list_id == m implies s2[i].order != s2[j].order by {
            assert(s1[i] == shifted_range(s[i], l, w.0, w.1, w.2));
            assert(s1[j] == shifted_range(s[j], l, w.0, w.1, w.2));
            assert(s[i].order != s[j].order);
            if i != k {
                assert(s2[i] == s1[i]);
            }
            if j != k {
                assert(s2[j] == s1[j]);
            }
            if m == l {
                assert(s[i].order != old || i == k);
                assert(s[j].order != old || j == k);
            }
        }
        assert forall|i: int| 0 <= i < s2.len() && s2[i].todo_list_id == m implies 1 <= s2[i].order
            <= count_in(s2, m) by {
            assert(s1[i] == shifted_range(s[i], l, w.0, w.1, w.2));
            if i != k {
                assert(s2[i] == s1[i]);
            }
            if m == l {
                assert(s[i].order != old || i == k);
            }
        }
    }
    assert forall|i: int, j: int|
        0 <= i < s2.len() && 0 <= j < s2.len() && i != j implies s2[i].id != s2[j].id by {
        assert(s1[i] == shifted_range(s[i], l, w.0, w.1, w.2));
        assert(s1[j] == shifted_range(s[j], l, w.0, w.1, w.2));
    }
    assert forall|i: int, j: int|
        0 <= i < s.len() && 0 <= j < s.len() && i != k && j != k && s[i].todo_list_id == l
            && s[j].todo_list_id == l implies (s[i].order < s[j].order <==> s2[i].order
            < s2[j].order) by {
        assert(s1[i] == shifted_range(s[i], l, w.0, w.1, w.2));
        assert(s1[j] == shifted_range(s[j], l, w.0, w.1, w.2));
        assert(s[i].order != old);
        assert(s[j].order != old);
        assert(s[i].order != s[j].order || i == j);
    }
}

/// Density of a well-formed table: in every list, the ranks in use are
/// exactly `1..=n`, `n` the list's task count.
pub proof fn lemma_table_dense(s: Seq<FullTaskInfo>)
    requires
        table_wf(s),
    ensures
        forall|l: u128| #[trigger] rank_set(s, l) == set_int_range(1, count_in(s, l) as int + 1),
{
    assert forall|l: u128| #[trigger] rank_set(s, l) == set_int_range(1, count_in(s, l) as int + 1) by {
        assert(dense(s, l));
        lemma_dense_ranks(s, l);
    }
}

} // verus!
