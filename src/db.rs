//! The store: users, lists and the task table, with the rank primitives and
//! the task operations that keep each list's ranks dense.
use vstd::prelude::*;
use crate::model::{
    FullTaskInfo, FullTodoListInfo, NewTodoList, NewUser, ServiceError, StatusCode, TaskRange,
    UpdateTodoList, User,
};
use crate::ranks::{
    at_rank, count_in, dense, deleted, id_used, insert_allowed, inserted, is_task,
    lemma_count_fits, lemma_count_prefix, lemma_delete, lemma_insert, lemma_move, lemma_rank_held,
    moved, order_kept, shift_from_all, shift_range_all, shifted_from, shifted_range, table_wf,
    with_rank,
};
use crate::ordering::move_shift_plan;

verus! {

/// The stored tables.
pub struct Db {
    pub users: Vec<User>,
    pub lists: Vec<FullTodoListInfo>,
    pub tasks: Vec<FullTaskInfo>,
}

impl Db {
    /// The store's invariant: the task table is well formed.
    pub open spec fn wf(&self) -> bool {
        table_wf(self.tasks@)
    }

    /// An empty store.
    pub fn new() -> (db: Db)
        ensures
            db.wf(),
            db.users@.len() == 0,
            db.lists@.len() == 0,
            db.tasks@.len() == 0,
    {
        let db = Db { users: Vec::new(), lists: Vec::new(), tasks: Vec::new() };
        proof {
            assert forall|l: u128| #[trigger] dense(db.tasks@, l) by {}
        }
        db
    }
}

/// Relies on uuid::Uuid::new_v4: a random version-4 identifier, as its 128-bit value.
#[verifier::external_body]
fn new_id() -> (r: u128) {
    uuid::Uuid::new_v4().as_u128()
}

/// Gives row `i` of the task table the rank `rank`.
fn set_rank(tasks: &mut Vec<FullTaskInfo>, i: usize, rank: i32)
    requires
        i < old(tasks)@.len(),
    ensures
        final(tasks)@ == old(tasks)@.update(i as int, with_rank(old(tasks)@[i as int], rank as int)),
{
    let t = &tasks[i];
    let r = FullTaskInfo {
        id: t.id,
        todo_list_id: t.todo_list_id,
        description: t.description.clone(),
        order: rank,
    };
    tasks.set(i, r);
}

/// Rank store primitive: every task of list `todo_list_id` with rank at least
/// `order` moves by `offset`.
pub fn offset_add_or_remove_space(todo_list_id: u128, order: i32, offset: i32, db: &mut Db)
    requires
        forall|i: int|
            0 <= i < old(db).tasks@.len() && old(db).tasks@[i].todo_list_id == todo_list_id
                && old(db).tasks@[i].order >= order ==> i32::MIN <= old(db).tasks@[i].order + offset
                <= i32::MAX,
    ensures
        final(db).tasks@ == shift_from_all(old(db).tasks@, todo_list_id, order as int, offset as int),
        final(db).users@ == old(db).users@,
        final(db).lists@ == old(db).lists@,
{
    let n = db.tasks.len();
    let mut i: usize = 0;
    while i < n
        invariant
            n == db.tasks@.len(),
            n == old(db).tasks@.len(),
            0 <= i <= n,
            db.users@ == old(db).users@,
            db.lists@ == old(db).lists@,
            forall|k: int|
                0 <= k < i ==> db.tasks@[k] == shifted_from(
                    old(db).tasks@[k],
                    todo_list_id,
                    order as int,
                    offset as int,
                ),
            forall|k: int| i <= k < n ==> db.tasks@[k] == old(db).tasks@[k],
            forall|k: int|
                0 <= k < old(db).tasks@.len() && old(db).tasks@[k].todo_list_id == todo_list_id
                    && old(db).tasks@[k].order >= order ==> i32::MIN <= old(db).tasks@[k].order
                    + offset <= i32::MAX,
        decreases n - i,
    {
        if db.tasks[i].todo_list_id == todo_list_id && db.tasks[i].order >= order {
            let rank = db.tasks[i].order + offset;
            set_rank(&mut db.tasks, i, rank);
        }
        i += 1;
    }
    assert(db.tasks@ =~= shift_from_all(old(db).tasks@, todo_list_id, order as int, offset as int));
}

/// Rank store primitive: every task of list `todo_list_id` with rank in
/// `[bottom, top]` moves by `offset`.
pub fn offset_range(todo_list_id: u128, bottom: i32, top: i32, offset: i32, db: &mut Db)
    requires
        forall|i: int|
            0 <= i < old(db).tasks@.len() && old(db).tasks@[i].todo_list_id == todo_list_id
                && bottom <= old(db).tasks@[i].order <= top ==> i32::MIN <= old(db).tasks@[i].order
                + offset <= i32::MAX,
    ensures
        final(db).tasks@ == shift_range_all(
            old(db).tasks@,
            todo_list_id,
            bottom as int,
            top as int,
            offset as int,
        ),
        final(db).users@ == old(db).users@,
        final(db).lists@ == old(db).lists@,
{
    let n = db.tasks.len();
    let mut i: usize = 0;
    while i < n
        invariant
            n == db.tasks@.len(),
            n == old(db).tasks@.len(),
            0 <= i <= n,
            db.users@ == old(db).users@,
            db.lists@ == old(db).lists@,
            forall|k: int|
                0 <= k < i ==> db.tasks@[k] == shifted_range(
                    old(db).tasks@[k],
                    todo_list_id,
                    bottom as int,
                    top as int,
                    offset as int,
                ),
            forall|k: int| i <= k < n ==> db.tasks@[k] == old(db).tasks@[k],
            forall|k: int|
                0 <= k < old(db).tasks@.len() && old(db).tasks@[k].todo_list_id == todo_list_id
                    && bottom <= old(db).tasks@[k].order <= top ==> i32::MIN <= old(
                    db,
                ).tasks@[k].order + offset <= i32::MAX,
        decreases n - i,
    {
        if db.tasks[i].todo_list_id == todo_list_id && bottom <= db.tasks[i].order
            && db.tasks[i].order <= top {
            let rank = db.tasks[i].order + offset;
            set_rank(&mut db.tasks, i, rank);
        }
        i += 1;
    }
    assert(db.tasks@ =~= shift_range_all(
        old(db).tasks@,
        todo_list_id,
        bottom as int,
        top as int,
        offset as int,
    ));
}

/// Number of tasks in list `todo_list_id`.
pub fn select_task_count(todo_list_id: u128, db: &Db) -> (r: i64)
    requires
        db.wf(),
    ensures
        r == count_in(db.tasks@, todo_list_id),
        r <= i32::MAX,
{
    let ghost s = db.tasks@;
    proof {
        assert(dense(s, todo_list_id));
        lemma_count_fits(s, todo_list_id);
    }
    let mut c: i64 = 0;
    let mut i: usize = 0;
    while i < db.tasks.len()
        invariant
            s == db.tasks@,
            0 <= i <= s.len(),
            c == count_in(s.take(i as int), todo_list_id),
            count_in(s, todo_list_id) <= i32::MAX,
        decreases s.len() - i,
    {
        proof {
            lemma_count_prefix(s, i + 1, todo_list_id);
            assert(s.take(i + 1).drop_last() =~= s.take(i as int));
        }
        if db.tasks[i].todo_list_id == todo_list_id {
            c += 1;
        }
        i += 1;
    }
    assert(s.take(s.len() as int) =~= s);
    c
}

/// Index of the row of task `task_id` in list `todo_list_id`, if any.
fn find_task(tasks: &Vec<FullTaskInfo>, todo_list_id: u128, task_id: u128) -> (r: Option<usize>)
    ensures
        match r {
            Some(k) => is_task(tasks@, k as int, todo_list_id, task_id),
            None => forall|k: int| !is_task(tasks@, k, todo_list_id, task_id),
        },
{
    let mut i: usize = 0;
    while i < tasks.len()
        invariant
            0 <= i <= tasks@.len(),
            forall|k: int| 0 <= k < i ==> !is_task(tasks@, k, todo_list_id, task_id),
        decreases tasks@.len() - i,
    {
        if tasks[i].todo_list_id == todo_list_id && tasks[i].id == task_id {
            return Some(i);
        }
        i += 1;
    }
    None
}

/// Task `task_id` of list `todo_list_id`, if the list holds it.
pub fn select_task(todo_list_id: u128, task_id: u128, db: &Db) -> (r: Option<FullTaskInfo>)
    ensures
        match r {
            Some(t) => exists|k: int| is_task(db.tasks@, k, todo_list_id, task_id) && t == db.tasks@[k],
            None => forall|k: int| !is_task(db.tasks@, k, todo_list_id, task_id),
        },
{
    match find_task(&db.tasks, todo_list_id, task_id) {
        Some(k) => Some(db.tasks[k].snapshot()),
        None => None,
    }
}

/// Places task `id` in list `todo_list_id` at rank `order`: opens the rank by
/// shifting every rank from `order` up by one, then adds the row. Refused,
/// with nothing changed, when the id is taken, the rank lies outside
/// `1..=n + 1`, or the list has no rank left.
pub fn insert_task_as(
    id: u128,
    todo_list_id: u128,
    description: String,
    order: i32,
    db: &mut Db,
) -> (r: Result<u128, ServiceError>)
    requires
        old(db).wf(),
    ensures
        final(db).wf(),
        r is Ok <==> insert_allowed(old(db).tasks@, id, todo_list_id, order as int),
        match r {
            Ok(x) => {
                &&& x == id
                &&& final(db).tasks@ == inserted(
                    old(db).tasks@,
                    FullTaskInfo { id, todo_list_id, description, order },
                )
                &&& count_in(final(db).tasks@, todo_list_id) == count_in(old(db).tasks@, todo_list_id)
                    + 1
                &&& order_kept(
                    old(db).tasks@,
                    final(db).tasks@,
                    todo_list_id,
                    old(db).tasks@.len() as int,
                    -1,
                )
                &&& final(db).users@ == old(db).users@
                &&& final(db).lists@ == old(db).lists@
            },
            Err(e) => e.status_code == StatusCode::InternalError && *final(db) == *old(db),
        },
{
    let count = select_task_count(todo_list_id, db);
    if count >= i32::MAX as i64 || order < 1 || order as i64 > count + 1 {
        return Err(ServiceError::with_detail(StatusCode::InternalError, "rank out of range"));
    }
    let mut i: usize = 0;
    while i < db.tasks.len()
        invariant
            0 <= i <= db.tasks@.len(),
            *db == *old(db),
            db.wf(),
            count == count_in(db.tasks@, todo_list_id),
            1 <= order <= count + 1,
            count < i32::MAX,
            forall|k: int| 0 <= k < i ==> db.tasks@[k].id != id,
        decreases db.tasks@.len() - i,
    {
        if db.tasks[i].id == id {
            return Err(ServiceError::with_detail(StatusCode::InternalError, "task id already in use"));
        }
        i += 1;
    }
    let ghost s = db.tasks@;
    let ghost t = FullTaskInfo { id, todo_list_id, description, order };
    proof {
        assert(dense(s, todo_list_id));
    }
    offset_add_or_remove_space(todo_list_id, order, 1, db);
    db.tasks.push(FullTaskInfo { id, todo_list_id, description, order });
    proof {
        lemma_insert(s, t);
        assert(db.tasks@ =~= inserted(s, t));
    }
    Ok(id)
}

/// Places a new task, under a fresh random id, in list `todo_list_id` at rank
/// `order`, as `insert_task_as` does.
pub fn insert_task(todo_list_id: u128, description: String, order: i32, db: &mut Db) -> (r: Result<
    u128,
    ServiceError,
>)
    requires
        old(db).wf(),
    ensures
        final(db).wf(),
        match r {
            Ok(x) => {
                &&& insert_allowed(old(db).tasks@, x, todo_list_id, order as int)
                &&& final(db).tasks@ == inserted(
                    old(db).tasks@,
                    FullTaskInfo { id: x, todo_list_id, description, order },
                )
                &&& count_in(final(db).tasks@, todo_list_id) == count_in(old(db).tasks@, todo_list_id)
                    + 1
                &&& order_kept(
                    old(db).tasks@,
                    final(db).tasks@,
                    todo_list_id,
                    old(db).tasks@.len() as int,
                    -1,
                )
                &&& final(db).users@ == old(db).users@
                &&& final(db).lists@ == old(db).lists@
            },
            Err(e) => e.status_code == StatusCode::InternalError && *final(db) == *old(db),
        },
        !(1 <= order <= count_in(old(db).tasks@, todo_list_id) + 1 && count_in(
            old(db).tasks@,
            todo_list_id,
        ) < i32::MAX) ==> r is Err,
        r is Err && 1 <= order <= count_in(old(db).tasks@, todo_list_id) + 1 ==> old(
            db,
        ).tasks@.len() > 0,
{
    let id = new_id();
    insert_task_as(id, todo_list_id, description, order, db)
}

/// Places a new task at the end of list `todo_list_id`: it takes rank `n + 1`.
pub fn insert_task_to_end(todo_list_id: u128, description: String, db: &mut Db) -> (r: Result<
    u128,
    ServiceError,
>)
    requires
        old(db).wf(),
    ensures
        final(db).wf(),
        match r {
            Ok(x) => {
                &&& !id_used(old(db).tasks@, x)
                &&& final(db).tasks@ == old(db).tasks@.push(
                    FullTaskInfo {
                        id: x,
                        todo_list_id,
                        description,
                        order: (count_in(old(db).tasks@, todo_list_id) + 1) as i32,
                    },
                )
                &&& count_in(final(db).tasks@, todo_list_id) == count_in(old(db).tasks@, todo_list_id)
                    + 1
                &&& final(db).users@ == old(db).users@
                &&& final(db).lists@ == old(db).lists@
            },
            Err(e) => e.status_code == StatusCode::InternalError && *final(db) == *old(db),
        },
        count_in(old(db).tasks@, todo_list_id) == i32::MAX ==> r is Err,
        r is Err ==> old(db).tasks@.len() > 0,
        r is Ok ==> insert_allowed(
            old(db).tasks@,
            r->Ok_0,
            todo_list_id,
            count_in(old(db).tasks@, todo_list_id) as int + 1,
        ) && final(db).tasks@ == inserted(
            old(db).tasks@,
            FullTaskInfo {
                id: r->Ok_0,
                todo_list_id,
                description,
                order: (count_in(old(db).tasks@, todo_list_id) + 1) as i32,
            },
        ),
{
    let count = select_task_count(todo_list_id, db);
    if count >= i32::MAX as i64 {
        return Err(ServiceError::with_detail(StatusCode::InternalError, "list is full"));
    }
    let order = (count + 1) as i32;
    let ghost s = db.tasks@;
    let r = insert_task(todo_list_id, description, order, db);
    proof {
        if r is Ok {
            assert(dense(s, todo_list_id));
            assert(shift_from_all(s, todo_list_id, order as int, 1) =~= s);
        }
    }
    r
}

/// The row `t` with its text replaced by `d`.
pub open spec fn with_description(t: FullTaskInfo, d: String) -> FullTaskInfo {
    FullTaskInfo { id: t.id, todo_list_id: t.todo_list_id, description: d, order: t.order }
}

/// Removes task `task_id` from list `todo_list_id` and closes its rank: every
/// rank above it moves down by one. Returns the removed row, or `None`, with
/// nothing changed, when the list holds no such task.
pub fn delete_task(todo_list_id: u128, task_id: u128, db: &mut Db) -> (r: Option<FullTaskInfo>)
    requires
        old(db).wf(),
    ensures
        final(db).wf(),
        final(db).users@ == old(db).users@,
        final(db).lists@ == old(db).lists@,
        match r {
            Some(t) => exists|k: int|
                {
                    &&& is_task(old(db).tasks@, k, todo_list_id, task_id)
                    &&& t == old(db).tasks@[k]
                    &&& final(db).tasks@ == deleted(old(db).tasks@, k)
                    &&& count_in(final(db).tasks@, todo_list_id) + 1 == count_in(
                        old(db).tasks@,
                        todo_list_id,
                    )
                    &&& order_kept(
                        old(db).tasks@.remove(k),
                        final(db).tasks@,
                        todo_list_id,
                        old(db).tasks@.len() - 1,
                        -1,
                    )
                },
            None => (forall|k: int| !is_task(old(db).tasks@, k, todo_list_id, task_id)) && *final(db)
                == *old(db),
        },
{
    let k = match find_task(&db.tasks, todo_list_id, task_id) {
        Some(k) => k,
        None => {
            return None;
        },
    };
    let ghost s = db.tasks@;
    proof {
        assert(dense(s, todo_list_id));
    }
    let t = db.tasks.remove(k);
    assert(db.tasks@ == s.remove(k as int));
    offset_add_or_remove_space(todo_list_id, t.order, -1, db);
    proof {
        lemma_delete(s, k as int);
    }
    Some(t)
}

/// Gives task `task_id` of list `todo_list_id` the text `description`; its
/// rank stays. Returns the updated row, or `None`, with nothing changed, when
/// the list holds no such task.
pub fn update_task(todo_list_id: u128, task_id: u128, description: String, db: &mut Db) -> (r:
    Option<FullTaskInfo>)
    requires
        old(db).wf(),
    ensures
        final(db).wf(),
        final(db).users@ == old(db).users@,
        final(db).lists@ == old(db).lists@,
        match r {
            Some(t) => exists|k: int|
                #![trigger is_task(old(db).tasks@, k, todo_list_id, task_id)]
                {
                    &&& is_task(old(db).tasks@, k, todo_list_id, task_id)
                    &&& t == with_description(old(db).tasks@[k], description)
                    &&& final(db).tasks@ == old(db).tasks@.update(k, t)
                },
            None => (forall|k: int| !is_task(old(db).tasks@, k, todo_list_id, task_id)) && *final(db)
                == *old(db),
        },
{
    let k = match find_task(&db.tasks, todo_list_id, task_id) {
        Some(k) => k,
        None => {
            return None;
        },
    };
    let ghost s = db.tasks@;
    let ghost d = description;
    let t = FullTaskInfo {
        id: db.tasks[k].id,
        todo_list_id: db.tasks[k].todo_list_id,
        description,
        order: db.tasks[k].order,
    };
    let r = t.snapshot();
    db.tasks.set(k, t);
    proof {
        assert(is_task(s, k as int, todo_list_id, task_id));
        assert(r == with_description(s[k as int], d));
        assert(db.tasks@ == s.update(k as int, r));
        let s2 = db.tasks@;
        assert forall|m: u128| #[trigger] dense(s2, m) by {
            crate::ranks::lemma_count_same_lists(s, s2, m);
            assert(dense(s, m));
        }
    }
    Some(r)
}

/// Moves task `task_id` of list `todo_list_id` from rank `old_order` to rank
/// `new_order`: the ranks between them shift by one toward the vacated rank,
/// then the task takes its new rank. A move to the task's own rank is refused
/// as a bad request, with nothing changed.
pub fn move_task(
    todo_list_id: u128,
    task_id: u128,
    old_order: i32,
    new_order: i32,
    db: &mut Db,
) -> (r: Result<FullTaskInfo, ServiceError>)
    requires
        old(db).wf(),
        exists|k: int|
            is_task(old(db).tasks@, k, todo_list_id, task_id) && old(db).tasks@[k].order
                == old_order,
        1 <= new_order <= count_in(old(db).tasks@, todo_list_id),
    ensures
        final(db).wf(),
        final(db).users@ == old(db).users@,
        final(db).lists@ == old(db).lists@,
        r is Err <==> old_order == new_order,
        match r {
            Ok(t) => exists|k: int|
                {
                    &&& is_task(old(db).tasks@, k, todo_list_id, task_id)
                    &&& final(db).tasks@ == moved(old(db).tasks@, k, new_order as int)
                    &&& t == with_rank(old(db).tasks@[k], new_order as int)
                    &&& order_kept(
                        old(db).tasks@,
                        final(db).tasks@,
                        todo_list_id,
                        old(db).tasks@.len() as int,
                        k,
                    )
                },
            Err(e) => e.status_code == StatusCode::BadRequest && *final(db) == *old(db),
        },
        forall|m: u128| count_in(final(db).tasks@, m) == count_in(old(db).tasks@, m),
{
    if old_order == new_order {
        return Err(
            ServiceError::with_detail(StatusCode::BadRequest, "Source and destination rank are the same"),
        );
    }
    let ghost s = db.tasks@;
    let k = match find_task(&db.tasks, todo_list_id, task_id) {
        Some(k) => k,
        None => {
            // The precondition names this row, so this arm is never taken.
            proof {
                let j = choose|j: int|
                    is_task(s, j, todo_list_id, task_id) && s[j].order == old_order;
                assert(!is_task(s, j, todo_list_id, task_id));
            }
            return Err(ServiceError::with_detail(StatusCode::BadRequest, "Task not found"));
        },
    };
    proof {
        let j = choose|j: int| is_task(s, j, todo_list_id, task_id) && s[j].order == old_order;
        assert(s[j].id == s[k as int].id);
        assert(j == k);
        assert(dense(s, todo_list_id));
        lemma_count_fits(s, todo_list_id);
    }
    let plan = move_shift_plan(old_order, new_order);
    offset_range(todo_list_id, plan.0, plan.1, plan.2, db);
    set_rank(&mut db.tasks, k, new_order);
    proof {
        lemma_move(s, k as int, new_order as int);
        assert(db.tasks@ =~= moved(s, k as int, new_order as int));
    }
    Ok(db.tasks[k].snapshot())
}

/// The rows of list `l` whose ranks run from `from` onward, one per rank, in
/// rank order: row `j` of `r` is the task at rank `from + j`.
pub open spec fn by_rank(s: Seq<FullTaskInfo>, l: u128, r: Seq<FullTaskInfo>, from: int) -> bool {
    forall|j: int|
        0 <= j < r.len() ==> #[trigger] r[j].todo_list_id == l && r[j].order == from + j
            && s.contains(r[j])
}

/// Index of the row of list `l` at rank `rank`, which must exist.
fn find_rank(tasks: &Vec<FullTaskInfo>, l: u128, rank: i32) -> (r: usize)
    requires
        exists|k: int| at_rank(tasks@, k, l, rank as int),
    ensures
        at_rank(tasks@, r as int, l, rank as int),
{
    let mut i: usize = 0;
    while i < tasks.len()
        invariant
            0 <= i <= tasks@.len(),
            exists|k: int| at_rank(tasks@, k, l, rank as int),
            forall|k: int| 0 <= k < i ==> !at_rank(tasks@, k, l, rank as int),
        decreases tasks@.len() - i,
    {
        if tasks[i].todo_list_id == l && tasks[i].order == rank {
            return i;
        }
        i += 1;
    }
    proof {
        let k = choose|k: int| at_rank(tasks@, k, l, rank as int);
        assert(!at_rank(tasks@, k, l, rank as int));
    }
    0
}

/// The tasks of list `l` at ranks `from..=to`, in rank order.
fn tasks_by_rank(l: u128, from: i32, to: i32, db: &Db) -> (r: Vec<FullTaskInfo>)
    requires
        db.wf(),
        1 <= from,
        to <= count_in(db.tasks@, l),
    ensures
        r@.len() == (if to >= from {
            to - from + 1
        } else {
            0
        }),
        by_rank(db.tasks@, l, r@, from as int),
{
    let mut r: Vec<FullTaskInfo> = Vec::new();
    if to < from {
        return r;
    }
    let mut rank: i32 = from;
    while rank <= to
        invariant
            db.wf(),
            1 <= from <= rank,
            to <= count_in(db.tasks@, l),
            rank <= to + 1,
            r@.len() == rank - from,
            by_rank(db.tasks@, l, r@, from as int),
        decreases to - rank,
    {
        proof {
            assert(dense(db.tasks@, l));
            lemma_rank_held(db.tasks@, l, rank as int);
        }
        let k = find_rank(&db.tasks, l, rank);
        let ghost r_old = r@;
        r.push(db.tasks[k].snapshot());
        proof {
            assert(by_rank(db.tasks@, l, r@, from as int)) by {
                assert forall|j: int| 0 <= j < r@.len() implies #[trigger] r@[j].todo_list_id == l
                    && r@[j].order == from + j && db.tasks@.contains(r@[j]) by {
                    if j == r@.len() - 1 {
                        assert(at_rank(db.tasks@, k as int, l, from + j));
                        assert(r@[j] == db.tasks@[k as int]);
                    } else {
                        assert(r_old[j] == r@[j]);
                    }
                }
            }
        }
        if rank == to {
            return r;
        }
        rank += 1;
    }
    r
}

/// All tasks of list `todo_list_id`, in ascending rank order.
pub fn select_tasks(todo_list_id: u128, db: &Db) -> (r: Vec<FullTaskInfo>)
    requires
        db.wf(),
    ensures
        r@.len() == count_in(db.tasks@, todo_list_id),
        by_rank(db.tasks@, todo_list_id, r@, 1),
{
    let n = select_task_count(todo_list_id, db);
    tasks_by_rank(todo_list_id, 1, n as i32, db)
}

/// The window of list `todo_list_id`'s rank-sorted tasks that skips
/// `range.offset` of them and takes at most `range.count`.
pub fn select_tasks_range(todo_list_id: u128, range: TaskRange, db: &Db) -> (r: Vec<FullTaskInfo>)
    requires
        db.wf(),
    ensures
        r@.len() == (if range.offset >= count_in(db.tasks@, todo_list_id) {
            0
        } else if range.count <= count_in(db.tasks@, todo_list_id) - range.offset {
            range.count as int
        } else {
            count_in(db.tasks@, todo_list_id) - range.offset
        }),
        by_rank(db.tasks@, todo_list_id, r@, range.offset + 1),
{
    let n = select_task_count(todo_list_id, db);
    let offset = range.offset as i64;
    if offset >= n {
        return Vec::new();
    }
    let end = if range.count as i64 <= n - offset {
        offset + range.count as i64
    } else {
        n
    };
    tasks_by_rank(todo_list_id, (offset + 1) as i32, end as i32, db)
}

/// Keeps the rows that do not belong to list `l`.
pub open spec fn outside_list(l: u128) -> spec_fn(FullTaskInfo) -> bool {
    |t: FullTaskInfo| t.todo_list_id != l
}

/// Removes every task of list `todo_list_id` and returns how many there were.
pub fn delete_tasks_by_list_id(todo_list_id: u128, db: &mut Db) -> (r: i64)
    requires
        old(db).wf(),
    ensures
        final(db).wf(),
        r == count_in(old(db).tasks@, todo_list_id),
        final(db).tasks@ == old(db).tasks@.filter(outside_list(todo_list_id)),
        count_in(final(db).tasks@, todo_list_id) == 0,
        final(db).users@ == old(db).users@,
        final(db).lists@ == old(db).lists@,
{
    let ghost s = db.tasks@;
    proof {
        assert(dense(s, todo_list_id));
        lemma_count_fits(s, todo_list_id);
    }
    let mut kept: Vec<FullTaskInfo> = Vec::new();
    let ghost mut idx: Seq<int> = Seq::empty();
    let mut c: i64 = 0;
    let mut i: usize = 0;
    while i < db.tasks.len()
        invariant
            db.tasks@ == s,
            table_wf(s),
            0 <= i <= s.len(),
            kept@ == s.take(i as int).filter(outside_list(todo_list_id)),
            c == count_in(s.take(i as int), todo_list_id),
            count_in(s, todo_list_id) <= i32::MAX,
            idx.len() == kept@.len(),
            forall|j: int| 0 <= j < idx.len() ==> 0 <= #[trigger] idx[j] < i,
            forall|j: int| 0 <= j < idx.len() ==> #[trigger] kept@[j] == s[idx[j]],
            forall|j1: int, j2: int| 0 <= j1 < j2 < idx.len() ==> idx[j1] < idx[j2],
            forall|j: int| 0 <= j < kept@.len() ==> kept@[j].todo_list_id != todo_list_id,
            forall|m: u128| m != todo_list_id ==> count_in(kept@, m) == count_in(s.take(i as int), m),
            count_in(kept@, todo_list_id) == 0,
        decreases s.len() - i,
    {
        let ghost k0 = kept@;
        proof {
            lemma_count_prefix(s, i + 1, todo_list_id);
            assert(s.take(i + 1).drop_last() =~= s.take(i as int));
            assert(s.take(i + 1).last() == s[i as int]);
            assert(s.take(i + 1) =~= s.take(i as int).push(s[i as int]));
            s.take(i as int).lemma_filter_push(s[i as int], outside_list(todo_list_id));
        }
        if db.tasks[i].todo_list_id == todo_list_id {
            c += 1;
        } else {
            kept.push(db.tasks[i].snapshot());
            proof {
                let i0 = idx;
                idx = idx.push(i as int);
                assert(kept@.drop_last() =~= k0);
                assert forall|j: int| 0 <= j < idx.len() implies 0 <= #[trigger] idx[j] < i + 1 && kept@[j]
                    == s[idx[j]] by {
                    if j < i0.len() {
                        assert(idx[j] == i0[j] && kept@[j] == k0[j]);
                    }
                }
            }
        }
        proof {
            assert forall|m: u128| m != todo_list_id implies count_in(kept@, m) == count_in(
                s.take(i + 1),
                m,
            ) by {
                assert(count_in(s.take(i + 1), m) == count_in(s.take(i as int), m) + if s[i as int].todo_list_id
                    == m {
                    1nat
                } else {
                    0nat
                });
                assert(count_in(k0, m) == count_in(s.take(i as int), m));
            }
        }
        i += 1;
    }
    proof {
        assert(s.take(s.len() as int) =~= s);
        let k = kept@;
        assert forall|m: u128| #[trigger] dense(k, m) by {
            assert(dense(s, m));
            assert forall|j1: int, j2: int|
                0 <= j1 < k.len() && 0 <= j2 < k.len() && j1 != j2 && k[j1].todo_list_id == m
                    && k[j2].todo_list_id == m implies k[j1].order != k[j2].order by {
                assert(idx[j1] != idx[j2]);
            }
        }
        assert forall|j1: int, j2: int| 0 <= j1 < k.len() && 0 <= j2 < k.len() && j1 != j2 implies k[j1].id
            != k[j2].id by {
            assert(idx[j1] != idx[j2]);
        }
    }
    db.tasks = kept;
    c
}

/// Some list row has id `id`.
pub open spec fn list_id_used(lists: Seq<FullTodoListInfo>, id: u128) -> bool {
    exists|i: int| 0 <= i < lists.len() && lists[i].id == id
}

/// Row `i` is the first list owned by `user_id`.
pub open spec fn first_list_of(lists: Seq<FullTodoListInfo>, user_id: u128, i: int) -> bool {
    &&& 0 <= i < lists.len()
    &&& lists[i].user_id == user_id
    &&& forall|j: int| 0 <= j < i ==> lists[j].user_id != user_id
}

/// No list is owned by `user_id`.
pub open spec fn owns_no_list(lists: Seq<FullTodoListInfo>, user_id: u128) -> bool {
    forall|i: int| 0 <= i < lists.len() ==> lists[i].user_id != user_id
}

/// Keeps the list rows that `user_id` does not own.
pub open spec fn not_owned_by(user_id: u128) -> spec_fn(FullTodoListInfo) -> bool {
    |x: FullTodoListInfo| x.user_id != user_id
}

/// The list row `x`, renamed to `name` when its id is `id`.
pub open spec fn renamed(x: FullTodoListInfo, id: u128, name: String) -> FullTodoListInfo {
    if x.id == id {
        FullTodoListInfo { id: x.id, user_id: x.user_id, name }
    } else {
        x
    }
}

/// Adds list `id`, owned by `user_id` and named as `todo_list` says. Refused,
/// with nothing changed, when a list already has that id.
pub fn insert_todo_list_as(id: u128, user_id: u128, todo_list: &NewTodoList, db: &mut Db) -> (r:
    Result<u128, ServiceError>)
    requires
        old(db).wf(),
    ensures
        final(db).wf(),
        r is Ok <==> !list_id_used(old(db).lists@, id),
        match r {
            Ok(x) => {
                &&& x == id
                &&& final(db).lists@ == old(db).lists@.push(
                    FullTodoListInfo { id, user_id, name: todo_list.name },
                )
                &&& final(db).tasks@ == old(db).tasks@
                &&& final(db).users@ == old(db).users@
            },
            Err(e) => e.status_code == StatusCode::InternalError && *final(db) == *old(db),
        },
{
    let mut i: usize = 0;
    while i < db.lists.len()
        invariant
            0 <= i <= db.lists@.len(),
            forall|k: int| 0 <= k < i ==> db.lists@[k].id != id,
            *db == *old(db),
            old(db).wf(),
        decreases db.lists@.len() - i,
    {
        if db.lists[i].id == id {
            return Err(ServiceError::with_detail(StatusCode::InternalError, "list id already in use"));
        }
        i += 1;
    }
    db.lists.push(FullTodoListInfo { id, user_id, name: todo_list.name.clone() });
    Ok(id)
}

/// Adds a list under a fresh random id, as `insert_todo_list_as` does.
pub fn insert_todo_list(user_id: u128, todo_list: &NewTodoList, db: &mut Db) -> (r: Result<
    u128,
    ServiceError,
>)
    requires
        old(db).wf(),
    ensures
        final(db).wf(),
        match r {
            Ok(x) => {
                &&& !list_id_used(old(db).lists@, x)
                &&& final(db).lists@ == old(db).lists@.push(
                    FullTodoListInfo { id: x, user_id, name: todo_list.name },
                )
                &&& final(db).tasks@ == old(db).tasks@
                &&& final(db).users@ == old(db).users@
            },
            Err(e) => e.status_code == StatusCode::InternalError && *final(db) == *old(db),
        },
        r is Err ==> old(db).lists@.len() > 0,
{
    let id = new_id();
    insert_todo_list_as(id, user_id, todo_list, db)
}

/// Index of the first list owned by `user_id`, if any.
fn find_list_of(lists: &Vec<FullTodoListInfo>, user_id: u128) -> (r: Option<usize>)
    ensures
        match r {
            Some(i) => first_list_of(lists@, user_id, i as int),
            None => owns_no_list(lists@, user_id),
        },
{
    let mut i: usize = 0;
    while i < lists.len()
        invariant
            0 <= i <= lists@.len(),
            forall|j: int| 0 <= j < i ==> lists@[j].user_id != user_id,
        decreases lists@.len() - i,
    {
        if lists[i].user_id == user_id {
            return Some(i);
        }
        i += 1;
    }
    None
}

/// Id of the list that `user_id` owns (the first, should there be several).
pub fn select_todo_list_id(user_id: u128, db: &Db) -> (r: Option<u128>)
    ensures
        match r {
            Some(x) => exists|i: int| first_list_of(db.lists@, user_id, i) && db.lists@[i].id == x,
            None => owns_no_list(db.lists@, user_id),
        },
{
    match find_list_of(&db.lists, user_id) {
        Some(i) => Some(db.lists[i].id),
        None => None,
    }
}

/// The list that `user_id` owns (the first, should there be several).
pub fn select_todo_list(user_id: u128, db: &Db) -> (r: Option<FullTodoListInfo>)
    ensures
        match r {
            Some(x) => exists|i: int| first_list_of(db.lists@, user_id, i) && db.lists@[i] == x,
            None => owns_no_list(db.lists@, user_id),
        },
{
    match find_list_of(&db.lists, user_id) {
        Some(i) => Some(db.lists[i].snapshot()),
        None => None,
    }
}

/// Removes every list that `user_id` owns.
pub fn delete_todo_list(user_id: u128, db: &mut Db)
    requires
        old(db).wf(),
    ensures
        final(db).wf(),
        final(db).lists@ == old(db).lists@.filter(not_owned_by(user_id)),
        final(db).tasks@ == old(db).tasks@,
        final(db).users@ == old(db).users@,
{
    let ghost s = db.lists@;
    let mut kept: Vec<FullTodoListInfo> = Vec::new();
    let mut i: usize = 0;
    while i < db.lists.len()
        invariant
            db.lists@ == s,
            0 <= i <= s.len(),
            kept@ == s.take(i as int).filter(not_owned_by(user_id)),
        decreases s.len() - i,
    {
        proof {
            assert(s.take(i + 1).drop_last() =~= s.take(i as int));
            assert(s.take(i + 1) =~= s.take(i as int).push(s[i as int]));
            s.take(i as int).lemma_filter_push(s[i as int], not_owned_by(user_id));
        }
        if db.lists[i].user_id != user_id {
            kept.push(db.lists[i].snapshot());
        }
        i += 1;
    }
    assert(s.take(s.len() as int) =~= s);
    db.lists = kept;
}

/// Renames list `todo_list_id` to the name that `update_list` gives.
pub fn update_todo_list(todo_list_id: u128, update_list: &UpdateTodoList, db: &mut Db)
    requires
        old(db).wf(),
    ensures
        final(db).wf(),
        final(db).lists@ == old(db).lists@.map_values(
            |x: FullTodoListInfo| renamed(x, todo_list_id, update_list.name),
        ),
        final(db).tasks@ == old(db).tasks@,
        final(db).users@ == old(db).users@,
{
    let n = db.lists.len();
    let mut i: usize = 0;
    while i < n
        invariant
            n == db.lists@.len(),
            n == old(db).lists@.len(),
            0 <= i <= n,
            db.tasks@ == old(db).tasks@,
            db.users@ == old(db).users@,
            table_wf(db.tasks@),
            forall|k: int|
                0 <= k < i ==> db.lists@[k] == renamed(
                    old(db).lists@[k],
                    todo_list_id,
                    update_list.name,
                ),
            forall|k: int| i <= k < n ==> db.lists@[k] == old(db).lists@[k],
        decreases n - i,
    {
        if db.lists[i].id == todo_list_id {
            let x = FullTodoListInfo {
                id: db.lists[i].id,
                user_id: db.lists[i].user_id,
                name: update_list.name.clone(),
            };
            db.lists.set(i, x);
        }
        i += 1;
    }
    assert(db.lists@ =~= old(db).lists@.map_values(
        |x: FullTodoListInfo| renamed(x, todo_list_id, update_list.name),
    ));
}

/// Some user row has id `id`.
pub open spec fn user_id_used(users: Seq<User>, id: u128) -> bool {
    exists|i: int| 0 <= i < users.len() && users[i].id == id
}

/// Some user is registered under `login`.
pub open spec fn login_taken(users: Seq<User>, login: Seq<char>) -> bool {
    exists|i: int| 0 <= i < users.len() && users[i].login@ == login
}

/// Row `i` is the first user with these credentials.
pub open spec fn first_user_with(users: Seq<User>, login: Seq<char>, password: Seq<char>, i: int) -> bool {
    &&& 0 <= i < users.len()
    &&& users[i].login@ == login && users[i].password@ == password
    &&& forall|j: int| 0 <= j < i ==> !(users[j].login@ == login && users[j].password@ == password)
}

/// Adds user `id` with the credentials of `user`. Refused, with nothing
/// changed, when a user already has that id.
pub fn insert_user_as(id: u128, user: &NewUser, db: &mut Db) -> (r: Result<u128, ServiceError>)
    requires
        old(db).wf(),
    ensures
        final(db).wf(),
        r is Ok <==> !user_id_used(old(db).users@, id),
        match r {
            Ok(x) => {
                &&& x == id
                &&& final(db).users@ == old(db).users@.push(
                    User { id, login: user.login, password: user.password },
                )
                &&& final(db).tasks@ == old(db).tasks@
                &&& final(db).lists@ == old(db).lists@
            },
            Err(e) => e.status_code == StatusCode::InternalError && *final(db) == *old(db),
        },
{
    let mut i: usize = 0;
    while i < db.users.len()
        invariant
            0 <= i <= db.users@.len(),
            forall|k: int| 0 <= k < i ==> db.users@[k].id != id,
            *db == *old(db),
            old(db).wf(),
        decreases db.users@.len() - i,
    {
        if db.users[i].id == id {
            return Err(ServiceError::with_detail(StatusCode::InternalError, "user id already in use"));
        }
        i += 1;
    }
    db.users.push(User { id, login: user.login.clone(), password: user.password.clone() });
    Ok(id)
}

/// Adds a user under a fresh random id, as `insert_user_as` does.
pub fn insert_user(user: &NewUser, db: &mut Db) -> (r: Result<u128, ServiceError>)
    requires
        old(db).wf(),
    ensures
        final(db).wf(),
        match r {
            Ok(x) => {
                &&& !user_id_used(old(db).users@, x)
                &&& final(db).users@ == old(db).users@.push(
                    User { id: x, login: user.login, password: user.password },
                )
                &&& final(db).tasks@ == old(db).tasks@
                &&& final(db).lists@ == old(db).lists@
            },
            Err(e) => e.status_code == StatusCode::InternalError && *final(db) == *old(db),
        },
        r is Err ==> old(db).users@.len() > 0,
{
    let id = new_id();
    insert_user_as(id, user, db)
}

/// Id of the first user whose login and password are these.
pub fn select_user_id(login: &String, password: &String, db: &Db) -> (r: Option<u128>)
    ensures
        match r {
            Some(x) => exists|i: int|
                first_user_with(db.users@, login@, password@, i) && db.users@[i].id == x,
            None => forall|i: int|
                0 <= i < db.users@.len() ==> !(db.users@[i].login@ == login@
                    && db.users@[i].password@ == password@),
        },
{
    let mut i: usize = 0;
    while i < db.users.len()
        invariant
            0 <= i <= db.users@.len(),
            forall|j: int|
                0 <= j < i ==> !(db.users@[j].login@ == login@ && db.users@[j].password@
                    == password@),
        decreases db.users@.len() - i,
    {
        if db.users[i].login == *login && db.users[i].password == *password {
            proof {
                assert(first_user_with(db.users@, login@, password@, i as int));
            }
            return Some(db.users[i].id);
        }
        i += 1;
    }
    None
}

/// Whether a user is registered under `login`.
pub fn is_user_exist(login: &String, db: &Db) -> (r: bool)
    ensures
        r == login_taken(db.users@, login@),
{
    let mut i: usize = 0;
    while i < db.users.len()
        invariant
            0 <= i <= db.users@.len(),
            forall|j: int| 0 <= j < i ==> db.users@[j].login@ != login@,
        decreases db.users@.len() - i,
    {
        if db.users[i].login == *login {
            return true;
        }
        i += 1;
    }
    false
}

} // verus!
