use todo_ranks::db::{select_task, select_task_count, Db};
use todo_ranks::handlers::{
    delete_list, delete_tasks, get_list, get_tasks, get_tasks_range, login, move_task, new_list,
    new_task, register, update_list, update_task,
};
use todo_ranks::{
    BearerAuth, FullTaskInfo, Login, MoveTask, NewTask, NewTodoList, NewUser, StatusCode,
    TaskPosition, TaskRange, UpdateTask, UpdateTodoList,
};

const OWNER: u128 = 7;

fn auth() -> BearerAuth {
    BearerAuth { user_id: OWNER }
}

fn store_with_list() -> (Db, u128) {
    let mut db = Db::new();
    let l = new_list(&mut db, &NewTodoList { name: "chores".to_string() }, auth()).unwrap();
    (db, l)
}

fn add(db: &mut Db, text: &str, position: TaskPosition) -> u128 {
    new_task(NewTask { description: text.to_string(), position }, db, auth()).unwrap()
}

fn store_with_tasks(n: usize) -> (Db, u128, Vec<u128>) {
    let (mut db, l) = store_with_list();
    let mut ids = Vec::new();
    for i in 0..n {
        ids.push(add(&mut db, &format!("task {}", i + 1), TaskPosition::End));
    }
    (db, l, ids)
}

fn ids_in_order(db: &Db) -> Vec<u128> {
    get_tasks(db, auth()).unwrap().iter().map(|t| t.id).collect()
}

fn ranks_in_order(db: &Db) -> Vec<i32> {
    get_tasks(db, auth()).unwrap().iter().map(|t| t.order).collect()
}

fn rank_of(db: &Db, l: u128, id: u128) -> i32 {
    select_task(l, id, db).unwrap().order
}

fn dense(db: &Db) -> bool {
    let ranks = ranks_in_order(db);
    ranks.iter().enumerate().all(|(i, r)| *r == i as i32 + 1)
}

#[test]
fn insert_at_end_of_empty_list_gets_rank_one() {
    let (mut db, l) = store_with_list();
    let id = add(&mut db, "first", TaskPosition::End);
    assert_eq!(rank_of(&db, l, id), 1);
    assert_eq!(select_task_count(l, &db), 1);
}

#[test]
fn insert_at_end_appends() {
    let (db, l, ids) = store_with_tasks(3);
    assert_eq!(rank_of(&db, l, ids[2]), 3);
    assert_eq!(ranks_in_order(&db), vec![1, 2, 3]);
}

#[test]
fn insert_before_first_takes_rank_one() {
    let (mut db, l, ids) = store_with_tasks(4);
    let id = add(&mut db, "new", TaskPosition::Before { task_id: ids[0] });
    assert_eq!(rank_of(&db, l, id), 1);
    assert_eq!(rank_of(&db, l, ids[0]), 2);
    assert_eq!(rank_of(&db, l, ids[1]), 3);
    assert_eq!(rank_of(&db, l, ids[2]), 4);
    assert_eq!(rank_of(&db, l, ids[3]), 5);
    assert!(dense(&db));
}

#[test]
fn insert_after_reads_back_anchor_rank_plus_one() {
    let (mut db, l, ids) = store_with_tasks(5);
    let id = add(&mut db, "new", TaskPosition::After { task_id: ids[2] });
    assert_eq!(rank_of(&db, l, id), 4);
    assert_eq!(rank_of(&db, l, ids[2]), 3);
    assert_eq!(rank_of(&db, l, ids[3]), 5);
    assert_eq!(ids_in_order(&db), vec![ids[0], ids[1], ids[2], id, ids[3], ids[4]]);
    assert!(dense(&db));
}

#[test]
fn insert_before_reads_back_anchor_rank_minus_one() {
    let (mut db, l, ids) = store_with_tasks(5);
    let id = add(&mut db, "new", TaskPosition::Before { task_id: ids[2] });
    assert_eq!(rank_of(&db, l, id), 2);
    assert_eq!(ids_in_order(&db), vec![ids[0], id, ids[1], ids[2], ids[3], ids[4]]);
    assert!(dense(&db));
}

#[test]
fn insert_with_missing_anchor_is_not_found() {
    let (mut db, _l, _ids) = store_with_tasks(2);
    let e = new_task(
        NewTask { description: "x".to_string(), position: TaskPosition::After { task_id: 999 } },
        &mut db,
        auth(),
    )
    .unwrap_err();
    assert_eq!(e.status_code, StatusCode::NotFound);
    assert_eq!(e.detail.as_deref(), Some("Task not found"));
    assert_eq!(ranks_in_order(&db), vec![1, 2]);
}

#[test]
fn task_request_without_list_is_not_found() {
    let mut db = Db::new();
    let e = new_task(
        NewTask { description: "x".to_string(), position: TaskPosition::End },
        &mut db,
        auth(),
    )
    .unwrap_err();
    assert_eq!(e.status_code, StatusCode::NotFound);
    assert_eq!(e.detail.as_deref(), Some("TO-DO list not found"));
    assert!(get_tasks(&db, auth()).is_err());
}

#[test]
fn delete_rank_three_of_five_compacts() {
    let (mut db, l, ids) = store_with_tasks(5);
    let removed = delete_tasks(ids[2], &mut db, auth()).unwrap();
    assert_eq!(removed.id, ids[2]);
    assert_eq!(removed.order, 3);
    assert_eq!(ranks_in_order(&db), vec![1, 2, 3, 4]);
    assert_eq!(rank_of(&db, l, ids[0]), 1);
    assert_eq!(rank_of(&db, l, ids[1]), 2);
    assert_eq!(rank_of(&db, l, ids[3]), 3);
    assert_eq!(rank_of(&db, l, ids[4]), 4);
    assert!(select_task(l, ids[2], &db).is_none());
}

#[test]
fn delete_missing_task_is_not_found() {
    let (mut db, _l, _ids) = store_with_tasks(3);
    let e = delete_tasks(12345, &mut db, auth()).unwrap_err();
    assert_eq!(e.status_code, StatusCode::NotFound);
    assert_eq!(ranks_in_order(&db), vec![1, 2, 3]);
}

#[test]
fn move_last_after_second() {
    let (mut db, _l, ids) = store_with_tasks(6);
    let moved = move_task(
        ids[5],
        MoveTask { position: TaskPosition::After { task_id: ids[1] } },
        &mut db,
        auth(),
    )
    .unwrap();
    assert_eq!(moved.id, ids[5]);
    assert_eq!(moved.order, 3);
    assert_eq!(ids_in_order(&db), vec![ids[0], ids[1], ids[5], ids[2], ids[3], ids[4]]);
    assert_eq!(ranks_in_order(&db), vec![1, 2, 3, 4, 5, 6]);
}

#[test]
fn move_second_after_last() {
    let (mut db, _l, ids) = store_with_tasks(6);
    let moved = move_task(
        ids[1],
        MoveTask { position: TaskPosition::After { task_id: ids[5] } },
        &mut db,
        auth(),
    )
    .unwrap();
    assert_eq!(moved.order, 6);
    assert_eq!(ids_in_order(&db), vec![ids[0], ids[2], ids[3], ids[4], ids[5], ids[1]]);
}

#[test]
fn move_before_targets() {
    let (mut db, _l, ids) = store_with_tasks(6);
    let moved = move_task(
        ids[5],
        MoveTask { position: TaskPosition::Before { task_id: ids[1] } },
        &mut db,
        auth(),
    )
    .unwrap();
    assert_eq!(moved.order, 2);
    assert_eq!(ids_in_order(&db), vec![ids[0], ids[5], ids[1], ids[2], ids[3], ids[4]]);
    let moved = move_task(
        ids[0],
        MoveTask { position: TaskPosition::Before { task_id: ids[4] } },
        &mut db,
        auth(),
    )
    .unwrap();
    assert_eq!(moved.order, 5);
    assert_eq!(ids_in_order(&db), vec![ids[5], ids[1], ids[2], ids[3], ids[0], ids[4]]);
    assert!(dense(&db));
}

#[test]
fn move_to_end() {
    let (mut db, _l, ids) = store_with_tasks(4);
    let moved =
        move_task(ids[0], MoveTask { position: TaskPosition::End }, &mut db, auth()).unwrap();
    assert_eq!(moved.order, 4);
    assert_eq!(ids_in_order(&db), vec![ids[1], ids[2], ids[3], ids[0]]);
}

#[test]
fn move_to_own_rank_is_rejected_without_change() {
    let (mut db, _l, ids) = store_with_tasks(4);
    let e = move_task(ids[3], MoveTask { position: TaskPosition::End }, &mut db, auth())
        .unwrap_err();
    assert_eq!(e.status_code, StatusCode::BadRequest);
    let e = move_task(
        ids[2],
        MoveTask { position: TaskPosition::After { task_id: ids[1] } },
        &mut db,
        auth(),
    )
    .unwrap_err();
    assert_eq!(e.status_code, StatusCode::BadRequest);
    assert_eq!(ids_in_order(&db), ids);
}

#[test]
fn move_relative_to_itself_is_bad_request() {
    let (mut db, _l, ids) = store_with_tasks(3);
    let e = move_task(
        ids[1],
        MoveTask { position: TaskPosition::Before { task_id: ids[1] } },
        &mut db,
        auth(),
    )
    .unwrap_err();
    assert_eq!(e.status_code, StatusCode::BadRequest);
    assert_eq!(e.detail.as_deref(), Some("Source and destination task id is the same"));
    assert_eq!(ids_in_order(&db), ids);
}

#[test]
fn move_to_missing_target_is_not_found() {
    let (mut db, _l, ids) = store_with_tasks(3);
    let e = move_task(
        ids[1],
        MoveTask { position: TaskPosition::After { task_id: 4242 } },
        &mut db,
        auth(),
    )
    .unwrap_err();
    assert_eq!(e.status_code, StatusCode::NotFound);
    let e = move_task(4242, MoveTask { position: TaskPosition::End }, &mut db, auth()).unwrap_err();
    assert_eq!(e.status_code, StatusCode::NotFound);
}

#[test]
fn other_tasks_keep_their_relative_order() {
    let (mut db, _l, ids) = store_with_tasks(5);
    let new = add(&mut db, "x", TaskPosition::After { task_id: ids[1] });
    move_task(ids[4], MoveTask { position: TaskPosition::Before { task_id: ids[0] } }, &mut db, auth())
        .unwrap();
    delete_tasks(ids[2], &mut db, auth()).unwrap();
    let order = ids_in_order(&db);
    let pos = |id: u128| order.iter().position(|x| *x == id).unwrap();
    assert!(pos(ids[0]) < pos(ids[1]));
    assert!(pos(ids[1]) < pos(ids[3]));
    assert!(pos(ids[1]) < pos(new));
    assert!(pos(new) < pos(ids[3]));
    assert!(dense(&db));
}

#[test]
fn ranks_stay_dense_and_unique_through_mixed_operations() {
    let (mut db, _l, ids) = store_with_tasks(3);
    let a = add(&mut db, "a", TaskPosition::Before { task_id: ids[0] });
    let b = add(&mut db, "b", TaskPosition::After { task_id: ids[2] });
    delete_tasks(ids[1], &mut db, auth()).unwrap();
    move_task(b, MoveTask { position: TaskPosition::After { task_id: a } }, &mut db, auth())
        .unwrap();
    add(&mut db, "c", TaskPosition::End);
    delete_tasks(a, &mut db, auth()).unwrap();
    assert!(dense(&db));
    assert_eq!(ranks_in_order(&db).len(), 4);
}

#[test]
fn update_keeps_rank() {
    let (mut db, l, ids) = store_with_tasks(3);
    let t = update_task(ids[1], UpdateTask { description: "renamed".to_string() }, &mut db, auth())
        .unwrap();
    assert_eq!(t.description, "renamed");
    assert_eq!(t.order, 2);
    assert_eq!(select_task(l, ids[1], &db).unwrap().description, "renamed");
    let e = update_task(31337, UpdateTask { description: "x".to_string() }, &mut db, auth())
        .unwrap_err();
    assert_eq!(e.status_code, StatusCode::NotFound);
}

#[test]
fn range_window_is_rank_sorted() {
    let (mut db, _l, ids) = store_with_tasks(5);
    move_task(ids[4], MoveTask { position: TaskPosition::Before { task_id: ids[0] } }, &mut db, auth())
        .unwrap();
    let w: Vec<FullTaskInfo> =
        get_tasks_range(TaskRange { offset: 1, count: 2 }, &db, auth()).unwrap();
    assert_eq!(w.iter().map(|t| t.id).collect::<Vec<_>>(), vec![ids[0], ids[1]]);
    assert_eq!(w.iter().map(|t| t.order).collect::<Vec<_>>(), vec![2, 3]);
    let tail = get_tasks_range(TaskRange { offset: 3, count: 10 }, &db, auth()).unwrap();
    assert_eq!(tail.iter().map(|t| t.order).collect::<Vec<_>>(), vec![4, 5]);
    assert!(get_tasks_range(TaskRange { offset: 5, count: 1 }, &db, auth()).unwrap().is_empty());
}

#[test]
fn second_list_is_refused_with_its_id() {
    let (mut db, l) = store_with_list();
    let e = new_list(&mut db, &NewTodoList { name: "again".to_string() }, auth()).unwrap_err();
    assert_eq!(e.status_code, StatusCode::BadRequest);
    let detail = e.detail.unwrap();
    let expected = format!("You have already TO-DO list with id = {}", uuid::Uuid::from_u128(l));
    assert_eq!(detail, expected);
    assert_eq!(detail.len(), "You have already TO-DO list with id = ".len() + 36);
}

#[test]
fn list_lifecycle() {
    let (mut db, l, _ids) = store_with_tasks(3);
    assert_eq!(get_list(&db, auth()).unwrap().name, "chores");
    assert_eq!(
        update_list(&mut db, &UpdateTodoList { name: "errands".to_string() }, auth()).unwrap(),
        l
    );
    let info = get_list(&db, auth()).unwrap();
    assert_eq!(info.id, l);
    assert_eq!(info.user_id, OWNER);
    assert_eq!(info.name, "errands");
    assert_eq!(delete_list(&mut db, auth()).unwrap(), 3);
    assert_eq!(get_list(&db, auth()).unwrap_err().status_code, StatusCode::NotFound);
    assert_eq!(delete_list(&mut db, auth()).unwrap_err().status_code, StatusCode::NotFound);
    assert_eq!(select_task_count(l, &db), 0);
}

#[test]
fn lists_of_other_owners_are_untouched() {
    let (mut db, l, ids) = store_with_tasks(2);
    let other = BearerAuth { user_id: 8 };
    let m = new_list(&mut db, &NewTodoList { name: "theirs".to_string() }, other).unwrap();
    new_task(NewTask { description: "t".to_string(), position: TaskPosition::End }, &mut db, other)
        .unwrap();
    delete_tasks(ids[0], &mut db, auth()).unwrap();
    assert_eq!(select_task_count(m, &db), 1);
    assert_eq!(select_task_count(l, &db), 1);
    assert_eq!(get_tasks(&db, other).unwrap()[0].order, 1);
    let e = delete_tasks(ids[1], &mut db, other).unwrap_err();
    assert_eq!(e.status_code, StatusCode::NotFound);
}

#[test]
fn register_and_login() {
    let mut db = Db::new();
    let id = register(
        &mut db,
        &NewUser { login: "ann".to_string(), password: "pw".to_string() },
    )
    .unwrap();
    let e = register(&mut db, &NewUser { login: "ann".to_string(), password: "other".to_string() })
        .unwrap_err();
    assert_eq!(e.status_code, StatusCode::BadRequest);
    assert_eq!(e.detail.as_deref(), Some("User with login name \"ann\" already exists"));
    assert_eq!(
        login(&db, &Login { login: "ann".to_string(), password: "pw".to_string() }).unwrap(),
        id
    );
    let e = login(&db, &Login { login: "ann".to_string(), password: "nope".to_string() })
        .unwrap_err();
    assert_eq!(e.status_code, StatusCode::BadRequest);
    assert_eq!(e.detail.as_deref(), Some("User with login name \"ann\" not found"));
}
