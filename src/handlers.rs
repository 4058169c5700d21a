//! The list and task service: resolves the caller's list, checks anchors and
//! targets, and runs each request against the store as one step.
use vstd::prelude::*;
use vstd::string::StringExecFns;
use vstd::arithmetic::power2::pow2;
use crate::db::{
    delete_task, delete_todo_list, delete_tasks_by_list_id, first_list_of, insert_task,
    insert_task_to_end, insert_todo_list, insert_user, is_user_exist, login_taken, not_owned_by,
    outside_list, renamed, select_task, select_task_count, select_tasks,
    select_tasks_range, select_todo_list, select_todo_list_id, select_user_id, by_rank,
    first_user_with, with_description, Db,
};
use crate::model::{
    BearerAuth, FullTaskInfo, FullTodoListInfo, Login, MoveTask, NewTask, NewTodoList, NewUser,
    ServiceError, StatusCode, TaskPosition, TaskRange, UpdateTask, UpdateTodoList, User,
};
use crate::ordering::{
    after_rank, before_rank, insert_after_rank, insert_before_rank, move_after_destination,
    move_after_rank, move_before_destination, move_before_rank,
};
use crate::ranks::{
    count_in, deleted, ids_unique, insert_allowed, inserted, is_task, moved, table_wf, with_rank,
};

verus! {

/// The id of the list that `user_id` owns: the first such list, if any.
pub open spec fn list_of(lists: Seq<FullTodoListInfo>, user_id: u128) -> Option<u128> {
    if exists|i: int| first_list_of(lists, user_id, i) {
        Some(lists[choose|i: int| first_list_of(lists, user_id, i)].id)
    } else {
        None
    }
}

/// The row of task `id` of list `l`, if the list holds it.
pub open spec fn task_at(s: Seq<FullTaskInfo>, l: u128, id: u128) -> Option<int> {
    if exists|k: int| is_task(s, k, l, id) {
        Some(choose|k: int| is_task(s, k, l, id))
    } else {
        None
    }
}

/// The rank a new task takes in list `l` at `position`, or `None` when the
/// anchor task is not in the list.
pub open spec fn placement(s: Seq<FullTaskInfo>, l: u128, position: TaskPosition) -> Option<int> {
    match position {
        TaskPosition::End => Some(count_in(s, l) as int + 1),
        TaskPosition::After { task_id } => match task_at(s, l, task_id) {
            Some(k) => Some(after_rank(s[k].order as int)),
            None => None,
        },
        TaskPosition::Before { task_id } => match task_at(s, l, task_id) {
            Some(k) => Some(before_rank(s[k].order as int)),
            None => None,
        },
    }
}

/// The rank that task `id`, now at rank `source` of list `l`, moves to at
/// `position`, or the class of the error: a move relative to the task itself
/// is a bad request, a missing target is not found.
pub open spec fn move_destination(
    s: Seq<FullTaskInfo>,
    l: u128,
    id: u128,
    source: int,
    position: TaskPosition,
) -> Result<int, StatusCode> {
    match position {
        TaskPosition::End => Ok(count_in(s, l) as int),
        TaskPosition::After { task_id } => if task_id == id {
            Err(StatusCode::BadRequest)
        } else {
            match task_at(s, l, task_id) {
                Some(k) => Ok(move_after_rank(source, s[k].order as int)),
                None => Err(StatusCode::NotFound),
            }
        },
        TaskPosition::Before { task_id } => if task_id == id {
            Err(StatusCode::BadRequest)
        } else {
            match task_at(s, l, task_id) {
                Some(k) => Ok(move_before_rank(source, s[k].order as int)),
                None => Err(StatusCode::NotFound),
            }
        },
    }
}

/// The first list that a user owns is the one `list_of` names.
proof fn lemma_list_of(lists: Seq<FullTodoListInfo>, user_id: u128, i: int)
    requires
        first_list_of(lists, user_id, i),
    ensures
        list_of(lists, user_id) == Some(lists[i].id),
{
    let c = choose|c: int| first_list_of(lists, user_id, c);
    if c < i {
        assert(lists[c].user_id != user_id);
    } else if c > i {
        assert(lists[i].user_id != user_id);
    }
}

/// With unique ids, the row holding a task is the one `task_at` names.
proof fn lemma_task_at(s: Seq<FullTaskInfo>, l: u128, id: u128, k: int)
    requires
        ids_unique(s),
        is_task(s, k, l, id),
    ensures
        task_at(s, l, id) == Some(k),
{
    let c = choose|c: int| is_task(s, c, l, id);
    assert(s[c].id == s[k].id);
}

/// The caller's list id, or a not-found error.
fn caller_list(db: &Db, auth: BearerAuth) -> (r: Result<u128, ServiceError>)
    ensures
        match list_of(db.lists@, auth.user_id) {
            Some(l) => r == Ok::<u128, ServiceError>(l),
            None => r is Err && r->Err_0.status_code == StatusCode::NotFound,
        },
{
    match select_todo_list_id(auth.user_id, db) {
        Some(l) => {
            proof {
                let i = choose|i: int| first_list_of(db.lists@, auth.user_id, i) && db.lists@[i].id == l;
                lemma_list_of(db.lists@, auth.user_id, i);
            }
            Ok(l)
        },
        None => {
            proof {
                if exists|i: int| first_list_of(db.lists@, auth.user_id, i) {
                    let i = choose|i: int| first_list_of(db.lists@, auth.user_id, i);
                    assert(db.lists@[i].user_id == auth.user_id);
                }
            }
            Err(ServiceError::with_detail(StatusCode::NotFound, "TO-DO list not found"))
        },
    }
}

/// Task `task_id` of list `l`, or a not-found error.
fn list_task(l: u128, task_id: u128, db: &Db) -> (r: Result<FullTaskInfo, ServiceError>)
    requires
        db.wf(),
    ensures
        match task_at(db.tasks@, l, task_id) {
            Some(k) => r == Ok::<FullTaskInfo, ServiceError>(db.tasks@[k]),
            None => r is Err && r->Err_0.status_code == StatusCode::NotFound,
        },
{
    match select_task(l, task_id, db) {
        Some(t) => {
            proof {
                let k = choose|k: int| is_task(db.tasks@, k, l, task_id) && t == db.tasks@[k];
                lemma_task_at(db.tasks@, l, task_id, k);
            }
            Ok(t)
        },
        None => Err(ServiceError::with_detail(StatusCode::NotFound, "Task not found")),
    }
}

/// Places a new task in the caller's list at the position the request names:
/// at the end (rank `n + 1`), after an anchor (its rank plus one), or before an
/// anchor (its rank minus one, at least 1). The ranks from there up move up
/// by one.
pub fn new_task(new_task_info: NewTask, db: &mut Db, auth: BearerAuth) -> (r: Result<
    u128,
    ServiceError,
>)
    requires
        old(db).wf(),
    ensures
        final(db).wf(),
        final(db).users@ == old(db).users@,
        final(db).lists@ == old(db).lists@,
        match list_of(old(db).lists@, auth.user_id) {
            None => r is Err && r->Err_0.status_code == StatusCode::NotFound && *final(db) == *old(
                db,
            ),
            Some(l) => match placement(old(db).tasks@, l, new_task_info.position) {
                None => r is Err && r->Err_0.status_code == StatusCode::NotFound && *final(db)
                    == *old(db),
                Some(rank) => match r {
                    Ok(x) => insert_allowed(old(db).tasks@, x, l, rank) && final(db).tasks@
                        == inserted(
                        old(db).tasks@,
                        FullTaskInfo {
                            id: x,
                            todo_list_id: l,
                            description: new_task_info.description,
                            order: rank as i32,
                        },
                    ),
                    Err(e) => e.status_code == StatusCode::InternalError && *final(db) == *old(db),
                },
            },
        },
        match list_of(old(db).lists@, auth.user_id) {
            Some(l) => match placement(old(db).tasks@, l, new_task_info.position) {
                Some(rank) => r is Err ==> old(db).tasks@.len() > 0 || !(1 <= rank <= count_in(
                    old(db).tasks@,
                    l,
                ) + 1 && count_in(old(db).tasks@, l) < i32::MAX),
                None => true,
            },
            None => true,
        },
{
    let l = match caller_list(db, auth) {
        Ok(l) => l,
        Err(e) => {
            return Err(e);
        },
    };
    let description = new_task_info.description;
    let anchor_id = match new_task_info.position {
        TaskPosition::End => {
            return insert_task_to_end(l, description, db);
        },
        TaskPosition::After { task_id } => task_id,
        TaskPosition::Before { task_id } => task_id,
    };
    let anchor = match list_task(l, anchor_id, db) {
        Ok(t) => t,
        Err(e) => {
            return Err(e);
        },
    };
    let order = match new_task_info.position {
        TaskPosition::After { .. } => {
            if anchor.order == i32::MAX {
                proof {
                    let k = task_at(db.tasks@, l, anchor_id)->0;
                    assert(table_wf(db.tasks@));
                    assert(crate::ranks::dense(db.tasks@, l));
                    crate::ranks::lemma_count_fits(db.tasks@, l);
                }
                return Err(ServiceError::with_detail(StatusCode::InternalError, "list is full"));
            }
            insert_after_rank(anchor.order)
        },
        _ => insert_before_rank(anchor.order),
    };
    insert_task(l, description, order, db)
}

/// Moves a task of the caller's list to the end, after a target task, or
/// before one; the ranks between the old and the new place shift by one.
/// A move relative to the task itself, or to the rank it already has, is a
/// bad request and changes nothing.
pub fn move_task(task_id: u128, new_task_info: MoveTask, db: &mut Db, auth: BearerAuth) -> (r:
    Result<FullTaskInfo, ServiceError>)
    requires
        old(db).wf(),
    ensures
        final(db).wf(),
        final(db).users@ == old(db).users@,
        final(db).lists@ == old(db).lists@,
        match list_of(old(db).lists@, auth.user_id) {
            None => r is Err && r->Err_0.status_code == StatusCode::NotFound && *final(db) == *old(
                db,
            ),
            Some(l) => match task_at(old(db).tasks@, l, task_id) {
                None => r is Err && r->Err_0.status_code == StatusCode::NotFound && *final(db)
                    == *old(db),
                Some(k) => match move_destination(
                    old(db).tasks@,
                    l,
                    task_id,
                    old(db).tasks@[k].order as int,
                    new_task_info.position,
                ) {
                    Err(code) => r is Err && r->Err_0.status_code == code && *final(db) == *old(db),
                    Ok(dest) => if dest == old(db).tasks@[k].order {
                        r is Err && r->Err_0.status_code == StatusCode::BadRequest && *final(db)
                            == *old(db)
                    } else {
                        r == Ok::<FullTaskInfo, ServiceError>(with_rank(old(db).tasks@[k], dest))
                            && final(db).tasks@ == moved(old(db).tasks@, k, dest)
                    },
                },
            },
        },
{
    let l = match caller_list(db, auth) {
        Ok(l) => l,
        Err(e) => {
            return Err(e);
        },
    };
    let source = match list_task(l, task_id, db) {
        Ok(t) => t,
        Err(e) => {
            return Err(e);
        },
    };
    let ghost s = db.tasks@;
    let ghost k = task_at(s, l, task_id)->0;
    proof {
        assert(crate::ranks::dense(s, l));
        assert(is_task(s, k, l, task_id));
    }
    let src = source.order;
    let dest = match new_task_info.position {
        TaskPosition::End => select_task_count(l, db) as i32,
        TaskPosition::After { task_id: target_id } => {
            if target_id == task_id {
                return Err(
                    ServiceError::with_detail(
                        StatusCode::BadRequest,
                        "Source and destination task id is the same",
                    ),
                );
            }
            let target = match list_task(l, target_id, db) {
                Ok(t) => t,
                Err(e) => {
                    return Err(e);
                },
            };
            proof {
                let j = task_at(s, l, target_id)->0;
                assert(is_task(s, j, l, target_id));
                assert(j != k);
            }
            move_after_destination(src, target.order)
        },
        TaskPosition::Before { task_id: target_id } => {
            if target_id == task_id {
                return Err(
                    ServiceError::with_detail(
                        StatusCode::BadRequest,
                        "Source and destination task id is the same",
                    ),
                );
            }
            let target = match list_task(l, target_id, db) {
                Ok(t) => t,
                Err(e) => {
                    return Err(e);
                },
            };
            proof {
                let j = task_at(s, l, target_id)->0;
                assert(is_task(s, j, l, target_id));
                assert(j != k);
            }
            move_before_destination(src, target.order)
        },
    };
    let r = crate::db::move_task(l, task_id, src, dest, db);
    proof {
        if r is Ok {
            let k2 = choose|k2: int|
                {
                    &&& is_task(s, k2, l, task_id)
                    &&& db.tasks@ == moved(s, k2, dest as int)
                    &&& r->Ok_0 == with_rank(s[k2], dest as int)
                    &&& crate::ranks::order_kept(s, db.tasks@, l, s.len() as int, k2)
                };
            lemma_task_at(s, l, task_id, k2);
        }
    }
    r
}

/// Removes a task of the caller's list and closes its rank.
pub fn delete_tasks(task_id: u128, db: &mut Db, auth: BearerAuth) -> (r: Result<
    FullTaskInfo,
    ServiceError,
>)
    requires
        old(db).wf(),
    ensures
        final(db).wf(),
        final(db).users@ == old(db).users@,
        final(db).lists@ == old(db).lists@,
        match list_of(old(db).lists@, auth.user_id) {
            None => r is Err && r->Err_0.status_code == StatusCode::NotFound && *final(db) == *old(
                db,
            ),
            Some(l) => match task_at(old(db).tasks@, l, task_id) {
                None => r is Err && r->Err_0.status_code == StatusCode::NotFound && *final(db)
                    == *old(db),
                Some(k) => r == Ok::<FullTaskInfo, ServiceError>(old(db).tasks@[k])
                    && final(db).tasks@ == deleted(old(db).tasks@, k),
            },
        },
{
    let l = match caller_list(db, auth) {
        Ok(l) => l,
        Err(e) => {
            return Err(e);
        },
    };
    let ghost s = db.tasks@;
    match delete_task(l, task_id, db) {
        Some(t) => {
            proof {
                let k = choose|k: int|
                    {
                        &&& is_task(s, k, l, task_id)
                        &&& t == s[k]
                        &&& db.tasks@ == deleted(s, k)
                        &&& count_in(db.tasks@, l) + 1 == count_in(s, l)
                        &&& crate::ranks::order_kept(s.remove(k), db.tasks@, l, s.len() - 1, -1)
                    };
                lemma_task_at(s, l, task_id, k);
            }
            Ok(t)
        },
        None => {
            proof {
                if exists|k: int| is_task(s, k, l, task_id) {
                    let k = choose|k: int| is_task(s, k, l, task_id);
                    assert(!is_task(s, k, l, task_id));
                }
            }
            Err(ServiceError::with_detail(StatusCode::NotFound, "Task not found"))
        },
    }
}

/// Changes the text of a task of the caller's list; ranks stay.
pub fn update_task(task_id: u128, new_task_info: UpdateTask, db: &mut Db, auth: BearerAuth) -> (r:
    Result<FullTaskInfo, ServiceError>)
    requires
        old(db).wf(),
    ensures
        final(db).wf(),
        final(db).users@ == old(db).users@,
        final(db).lists@ == old(db).lists@,
        match list_of(old(db).lists@, auth.user_id) {
            None => r is Err && r->Err_0.status_code == StatusCode::NotFound && *final(db) == *old(
                db,
            ),
            Some(l) => match task_at(old(db).tasks@, l, task_id) {
                None => r is Err && r->Err_0.status_code == StatusCode::NotFound && *final(db)
                    == *old(db),
                Some(k) => r == Ok::<FullTaskInfo, ServiceError>(
                    with_description(old(db).tasks@[k], new_task_info.description),
                ) && final(db).tasks@ == old(db).tasks@.update(
                    k,
                    with_description(old(db).tasks@[k], new_task_info.description),
                ),
            },
        },
{
    let l = match caller_list(db, auth) {
        Ok(l) => l,
        Err(e) => {
            return Err(e);
        },
    };
    let ghost s = db.tasks@;
    match crate::db::update_task(l, task_id, new_task_info.description, db) {
        Some(t) => {
            proof {
                let k = choose|k: int|
                    #![trigger is_task(s, k, l, task_id)]
                    {
                        &&& is_task(s, k, l, task_id)
                        &&& t == with_description(s[k], new_task_info.description)
                        &&& db.tasks@ == s.update(k, t)
                    };
                lemma_task_at(s, l, task_id, k);
            }
            Ok(t)
        },
        None => {
            proof {
                if exists|k: int| is_task(s, k, l, task_id) {
                    let k = choose|k: int| is_task(s, k, l, task_id);
                    assert(!is_task(s, k, l, task_id));
                }
            }
            Err(ServiceError::with_detail(StatusCode::NotFound, "Task not found"))
        },
    }
}

/// All tasks of the caller's list, in ascending rank order.
pub fn get_tasks(db: &Db, auth: BearerAuth) -> (r: Result<Vec<FullTaskInfo>, ServiceError>)
    requires
        db.wf(),
    ensures
        match list_of(db.lists@, auth.user_id) {
            None => r is Err && r->Err_0.status_code == StatusCode::NotFound,
            Some(l) => r is Ok && r->Ok_0@.len() == count_in(db.tasks@, l) && by_rank(
                db.tasks@,
                l,
                r->Ok_0@,
                1,
            ),
        },
{
    let l = match caller_list(db, auth) {
        Ok(l) => l,
        Err(e) => {
            return Err(e);
        },
    };
    Ok(select_tasks(l, db))
}

/// A window of the caller's rank-sorted tasks: skip `range.offset`, take at
/// most `range.count`.
pub fn get_tasks_range(range: TaskRange, db: &Db, auth: BearerAuth) -> (r: Result<
    Vec<FullTaskInfo>,
    ServiceError,
>)
    requires
        db.wf(),
    ensures
        match list_of(db.lists@, auth.user_id) {
            None => r is Err && r->Err_0.status_code == StatusCode::NotFound,
            Some(l) => r is Ok && r->Ok_0@.len() == (if range.offset >= count_in(db.tasks@, l) {
                0
            } else if range.count <= count_in(db.tasks@, l) - range.offset {
                range.count as int
            } else {
                count_in(db.tasks@, l) - range.offset
            }) && by_rank(db.tasks@, l, r->Ok_0@, range.offset + 1),
        },
{
    let l = match caller_list(db, auth) {
        Ok(l) => l,
        Err(e) => {
            return Err(e);
        },
    };
    Ok(select_tasks_range(l, range, db))
}

/// The lower-case hexadecimal digit for `n`, `0 <= n < 16`.
pub open spec fn hex_digit(n: int) -> char {
    seq!['0', '1', '2', '3', '4', '5', '6', '7', '8', '9', 'a', 'b', 'c', 'd', 'e', 'f'][n]
}

/// The 32 hexadecimal digits of `id`, most significant first.
pub open spec fn hex_digits(id: u128) -> Seq<char> {
    Seq::new(32, |i: int| hex_digit((id as int / pow2((4 * (31 - i)) as nat) as int) % 16))
}

/// The hyphenated text of an id: its 32 digits in groups of 8, 4, 4, 4 and 12.
pub open spec fn uuid_text(id: u128) -> Seq<char> {
    let h = hex_digits(id);
    h.subrange(0, 8) + seq!['-'] + h.subrange(8, 12) + seq!['-'] + h.subrange(12, 16) + seq!['-']
        + h.subrange(16, 20) + seq!['-'] + h.subrange(20, 32)
}

/// Relies on uuid::Uuid's `Display` (through `to_string`): the id in its
/// hyphenated lower-case form.
#[verifier::external_body]
fn uuid_string(id: u128) -> (r: String)
    ensures
        r@ == uuid_text(id),
{
    uuid::Uuid::from_u128(id).to_string()
}

/// `head`, then `middle`, then `tail`, as one string.
pub fn joined(head: &str, middle: &str, tail: &str) -> (r: String)
    ensures
        r@ == head@ + middle@ + tail@,
{
    let mut m = head.to_string();
    m.append(middle);
    m.append(tail);
    m
}

/// Creates the caller's list; refused as a bad request when the caller
/// already owns one, whose id the detail then names.
pub fn new_list(db: &mut Db, new_list_info: &NewTodoList, auth: BearerAuth) -> (r: Result<
    u128,
    ServiceError,
>)
    requires
        old(db).wf(),
    ensures
        final(db).wf(),
        final(db).users@ == old(db).users@,
        final(db).tasks@ == old(db).tasks@,
        match list_of(old(db).lists@, auth.user_id) {
            Some(l) => {
                &&& r is Err
                &&& r->Err_0.status_code == StatusCode::BadRequest
                &&& r->Err_0.detail is Some
                &&& r->Err_0.detail->0@ == "You have already TO-DO list with id = "@ + uuid_text(l)
                &&& *final(db) == *old(db)
            },
            None => match r {
                Ok(x) => final(db).lists@ == old(db).lists@.push(
                    FullTodoListInfo { id: x, user_id: auth.user_id, name: new_list_info.name },
                ),
                Err(e) => e.status_code == StatusCode::InternalError && *final(db) == *old(db),
            },
        },
        list_of(old(db).lists@, auth.user_id) is None && r is Err ==> old(db).lists@.len() > 0,
{
    match caller_list(db, auth) {
        Ok(l) => {
            let id_text = uuid_string(l);
            let detail = joined("You have already TO-DO list with id = ", id_text.as_str(), "");
            proof {
                reveal_strlit("");
                assert(detail@ =~= "You have already TO-DO list with id = "@ + uuid_text(l));
            }
            Err(ServiceError { status_code: StatusCode::BadRequest, detail: Some(detail) })
        },
        Err(_) => insert_todo_list(auth.user_id, new_list_info, db),
    }
}

/// Deletes the caller's list and its tasks; returns how many tasks went.
pub fn delete_list(db: &mut Db, auth: BearerAuth) -> (r: Result<i64, ServiceError>)
    requires
        old(db).wf(),
    ensures
        final(db).wf(),
        final(db).users@ == old(db).users@,
        match list_of(old(db).lists@, auth.user_id) {
            None => r is Err && r->Err_0.status_code == StatusCode::NotFound && *final(db) == *old(
                db,
            ),
            Some(l) => {
                &&& r == Ok::<i64, ServiceError>(count_in(old(db).tasks@, l) as i64)
                &&& final(db).tasks@ == old(db).tasks@.filter(outside_list(l))
                &&& final(db).lists@ == old(db).lists@.filter(not_owned_by(auth.user_id))
            },
        },
{
    let l = match caller_list(db, auth) {
        Ok(l) => l,
        Err(e) => {
            return Err(e);
        },
    };
    let count = delete_tasks_by_list_id(l, db);
    delete_todo_list(auth.user_id, db);
    Ok(count)
}

/// Renames the caller's list; returns its id.
pub fn update_list(db: &mut Db, list_info: &UpdateTodoList, auth: BearerAuth) -> (r: Result<
    u128,
    ServiceError,
>)
    requires
        old(db).wf(),
    ensures
        final(db).wf(),
        final(db).users@ == old(db).users@,
        final(db).tasks@ == old(db).tasks@,
        match list_of(old(db).lists@, auth.user_id) {
            None => r is Err && r->Err_0.status_code == StatusCode::NotFound && *final(db) == *old(
                db,
            ),
            Some(l) => r == Ok::<u128, ServiceError>(l) && final(db).lists@ == old(
                db,
            ).lists@.map_values(|x: FullTodoListInfo| renamed(x, l, list_info.name)),
        },
{
    let l = match caller_list(db, auth) {
        Ok(l) => l,
        Err(e) => {
            return Err(e);
        },
    };
    crate::db::update_todo_list(l, list_info, db);
    Ok(l)
}

/// The caller's list.
pub fn get_list(db: &Db, auth: BearerAuth) -> (r: Result<FullTodoListInfo, ServiceError>)
    ensures
        match list_of(db.lists@, auth.user_id) {
            None => r is Err && r->Err_0.status_code == StatusCode::NotFound,
            Some(l) => r is Ok && r->Ok_0.id == l && exists|i: int|
                first_list_of(db.lists@, auth.user_id, i) && db.lists@[i] == r->Ok_0,
        },
{
    match select_todo_list(auth.user_id, db) {
        Some(x) => {
            proof {
                let i = choose|i: int| first_list_of(db.lists@, auth.user_id, i) && db.lists@[i] == x;
                lemma_list_of(db.lists@, auth.user_id, i);
            }
            Ok(x)
        },
        None => {
            proof {
                if exists|i: int| first_list_of(db.lists@, auth.user_id, i) {
                    let i = choose|i: int| first_list_of(db.lists@, auth.user_id, i);
                    assert(db.lists@[i].user_id == auth.user_id);
                }
            }
            Err(ServiceError::with_detail(StatusCode::NotFound, "TO-DO list not found"))
        },
    }
}

/// Registers a user; refused as a bad request when the login is taken.
pub fn register(db: &mut Db, new_user_info: &NewUser) -> (r: Result<u128, ServiceError>)
    requires
        old(db).wf(),
    ensures
        final(db).wf(),
        final(db).tasks@ == old(db).tasks@,
        final(db).lists@ == old(db).lists@,
        login_taken(old(db).users@, new_user_info.login@) ==> {
            &&& r is Err
            &&& r->Err_0.status_code == StatusCode::BadRequest
            &&& r->Err_0.detail is Some
            &&& r->Err_0.detail->0@ == "User with login name \""@ + new_user_info.login@
                + "\" already exists"@
            &&& *final(db) == *old(db)
        },
        !login_taken(old(db).users@, new_user_info.login@) ==> match r {
            Ok(x) => final(db).users@ == old(db).users@.push(
                User { id: x, login: new_user_info.login, password: new_user_info.password },
            ),
            Err(e) => e.status_code == StatusCode::InternalError && *final(db) == *old(db),
        },
        !login_taken(old(db).users@, new_user_info.login@) && r is Err ==> old(db).users@.len() > 0,
{
    if is_user_exist(&new_user_info.login, db) {
        let detail = joined(
            "User with login name \"",
            new_user_info.login.as_str(),
            "\" already exists",
        );
        return Err(ServiceError { status_code: StatusCode::BadRequest, detail: Some(detail) });
    }
    insert_user(new_user_info, db)
}

/// Checks credentials: the id of the first user with this login and password.
pub fn login(db: &Db, login_info: &Login) -> (r: Result<u128, ServiceError>)
    ensures
        match r {
            Ok(x) => exists|i: int|
                first_user_with(db.users@, login_info.login@, login_info.password@, i)
                    && db.users@[i].id == x,
            Err(e) => {
                &&& e.status_code == StatusCode::BadRequest
                &&& e.detail is Some
                &&& e.detail->0@ == "User with login name \""@ + login_info.login@ + "\" not found"@
                &&& forall|i: int|
                    0 <= i < db.users@.len() ==> !(db.users@[i].login@ == login_info.login@
                        && db.users@[i].password@ == login_info.password@)
            },
        },
{
    match select_user_id(&login_info.login, &login_info.password, db) {
        Some(id) => Ok(id),
        None => {
            let detail = joined(
                "User with login name \"",
                login_info.login.as_str(),
                "\" not found",
            );
            Err(ServiceError { status_code: StatusCode::BadRequest, detail: Some(detail) })
        },
    }
}

/// Reading back a placed task finds it at the rank it was placed at: once
/// `t` is inserted, the row of `t.id` in its list holds rank `t.order`.
pub proof fn lemma_read_back(s: Seq<FullTaskInfo>, t: FullTaskInfo)
    requires
        table_wf(s),
        insert_allowed(s, t.id, t.todo_list_id, t.order as int),
    ensures
        task_at(inserted(s, t), t.todo_list_id, t.id) == Some(s.len() as int),
        inserted(s, t)[s.len() as int].order == t.order,
{
    crate::ranks::lemma_insert(s, t);
    lemma_task_at(inserted(s, t), t.todo_list_id, t.id, s.len() as int);
}

/// Round trip of insert-after: a task placed after anchor X, read back,
/// has rank `rank(X) + 1`.
pub proof fn lemma_insert_after_round_trip(
    s: Seq<FullTaskInfo>,
    l: u128,
    anchor: u128,
    id: u128,
    description: String,
)
    requires
        table_wf(s),
        task_at(s, l, anchor) is Some,
        insert_allowed(
            s,
            id,
            l,
            placement(s, l, TaskPosition::After { task_id: anchor })->0,
        ),
    ensures
        ({
            let rank = placement(s, l, TaskPosition::After { task_id: anchor })->0;
            let s2 = inserted(s, FullTaskInfo { id, todo_list_id: l, description, order: rank as i32 });
            &&& task_at(s2, l, id) is Some
            &&& s2[task_at(s2, l, id)->0].order == s[task_at(s, l, anchor)->0].order + 1
        }),
{
    let rank = placement(s, l, TaskPosition::After { task_id: anchor })->0;
    let t = FullTaskInfo { id, todo_list_id: l, description, order: rank as i32 };
    lemma_read_back(s, t);
}

/// Round trip of insert-before: a task placed before anchor X, read back,
/// has rank `max(rank(X) - 1, 1)`.
pub proof fn lemma_insert_before_round_trip(
    s: Seq<FullTaskInfo>,
    l: u128,
    anchor: u128,
    id: u128,
    description: String,
)
    requires
        table_wf(s),
        task_at(s, l, anchor) is Some,
        insert_allowed(
            s,
            id,
            l,
            placement(s, l, TaskPosition::Before { task_id: anchor })->0,
        ),
    ensures
        ({
            let rank = placement(s, l, TaskPosition::Before { task_id: anchor })->0;
            let s2 = inserted(s, FullTaskInfo { id, todo_list_id: l, description, order: rank as i32 });
            let x = s[task_at(s, l, anchor)->0].order as int;
            &&& task_at(s2, l, id) is Some
            &&& s2[task_at(s2, l, id)->0].order == if x - 1 >= 1 {
                x - 1
            } else {
                1
            }
        }),
{
    let rank = placement(s, l, TaskPosition::Before { task_id: anchor })->0;
    let t = FullTaskInfo { id, todo_list_id: l, description, order: rank as i32 };
    lemma_read_back(s, t);
}

} // verus!
