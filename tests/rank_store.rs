use todo_ranks::db::{
    delete_task, delete_tasks_by_list_id, insert_task, insert_task_as, insert_task_to_end,
    insert_todo_list_as, insert_user_as, is_user_exist, move_task, offset_add_or_remove_space,
    offset_range, select_task, select_task_count, select_tasks, select_todo_list_id,
    select_user_id, update_task, Db,
};
use todo_ranks::{NewTodoList, NewUser, StatusCode};

fn ranks(db: &Db, l: u128) -> Vec<(u128, i32)> {
    select_tasks(l, db).iter().map(|t| (t.id, t.order)).collect()
}

#[test]
fn insert_as_places_and_shifts() {
    let mut db = Db::new();
    assert_eq!(insert_task_as(10, 1, "a".to_string(), 1, &mut db).unwrap(), 10);
    assert_eq!(insert_task_as(11, 1, "b".to_string(), 2, &mut db).unwrap(), 11);
    assert_eq!(insert_task_as(12, 1, "c".to_string(), 1, &mut db).unwrap(), 12);
    assert_eq!(ranks(&db, 1), vec![(12, 1), (10, 2), (11, 3)]);
}

#[test]
fn insert_as_refuses_taken_id_and_bad_rank() {
    let mut db = Db::new();
    insert_task_as(10, 1, "a".to_string(), 1, &mut db).unwrap();
    let e = insert_task_as(10, 1, "again".to_string(), 1, &mut db).unwrap_err();
    assert_eq!(e.status_code, StatusCode::InternalError);
    let e = insert_task_as(11, 1, "gap".to_string(), 3, &mut db).unwrap_err();
    assert_eq!(e.status_code, StatusCode::InternalError);
    let e = insert_task(1, "zero".to_string(), 0, &mut db).unwrap_err();
    assert_eq!(e.status_code, StatusCode::InternalError);
    assert_eq!(ranks(&db, 1), vec![(10, 1)]);
    assert_eq!(select_task(1, 10, &db).unwrap().description, "a");
}

#[test]
fn lists_count_separately() {
    let mut db = Db::new();
    insert_task_to_end(1, "a".to_string(), &mut db).unwrap();
    insert_task_to_end(2, "b".to_string(), &mut db).unwrap();
    insert_task_to_end(1, "c".to_string(), &mut db).unwrap();
    assert_eq!(select_task_count(1, &db), 2);
    assert_eq!(select_task_count(2, &db), 1);
    assert_eq!(select_task_count(3, &db), 0);
    assert_eq!(select_tasks(2, &db)[0].order, 1);
}

#[test]
fn shift_from_threshold() {
    let mut db = Db::new();
    for (id, r) in [(10u128, 1i32), (11, 2), (12, 3)] {
        insert_task_as(id, 1, "t".to_string(), r, &mut db).unwrap();
    }
    insert_task_as(20, 2, "other".to_string(), 1, &mut db).unwrap();
    offset_add_or_remove_space(1, 2, 5, &mut db);
    let orders: Vec<(u128, i32)> = db.tasks.iter().map(|t| (t.id, t.order)).collect();
    assert_eq!(orders, vec![(10, 1), (11, 7), (12, 8), (20, 1)]);
}

#[test]
fn shift_closed_window() {
    let mut db = Db::new();
    for (id, r) in [(10u128, 1i32), (11, 2), (12, 3), (13, 4)] {
        insert_task_as(id, 1, "t".to_string(), r, &mut db).unwrap();
    }
    offset_range(1, 2, 3, -1, &mut db);
    let orders: Vec<i32> = db.tasks.iter().map(|t| t.order).collect();
    assert_eq!(orders, vec![1, 1, 2, 4]);
}

#[test]
fn store_move_and_self_move() {
    let mut db = Db::new();
    for (id, r) in [(10u128, 1i32), (11, 2), (12, 3), (13, 4)] {
        insert_task_as(id, 1, "t".to_string(), r, &mut db).unwrap();
    }
    let e = move_task(1, 12, 3, 3, &mut db).unwrap_err();
    assert_eq!(e.status_code, StatusCode::BadRequest);
    let t = move_task(1, 10, 1, 4, &mut db).unwrap();
    assert_eq!(t.order, 4);
    assert_eq!(ranks(&db, 1), vec![(11, 1), (12, 2), (13, 3), (10, 4)]);
    let t = move_task(1, 13, 3, 1, &mut db).unwrap();
    assert_eq!(t.order, 1);
    assert_eq!(ranks(&db, 1), vec![(13, 1), (11, 2), (12, 3), (10, 4)]);
}

#[test]
fn store_delete_update_and_bulk_delete() {
    let mut db = Db::new();
    for (id, r) in [(10u128, 1i32), (11, 2), (12, 3)] {
        insert_task_as(id, 1, "t".to_string(), r, &mut db).unwrap();
    }
    insert_task_as(20, 2, "other".to_string(), 1, &mut db).unwrap();
    assert!(delete_task(1, 20, &mut db).is_none());
    let gone = delete_task(1, 10, &mut db).unwrap();
    assert_eq!(gone.order, 1);
    assert_eq!(ranks(&db, 1), vec![(11, 1), (12, 2)]);
    let t = update_task(1, 12, "new text".to_string(), &mut db).unwrap();
    assert_eq!((t.id, t.order, t.description.as_str()), (12, 2, "new text"));
    assert!(update_task(2, 12, "x".to_string(), &mut db).is_none());
    assert_eq!(delete_tasks_by_list_id(1, &mut db), 2);
    assert_eq!(select_task_count(1, &db), 0);
    assert_eq!(ranks(&db, 2), vec![(20, 1)]);
}

#[test]
fn list_and_user_tables() {
    let mut db = Db::new();
    insert_todo_list_as(5, 7, &NewTodoList { name: "a".to_string() }, &mut db).unwrap();
    let e = insert_todo_list_as(5, 8, &NewTodoList { name: "b".to_string() }, &mut db)
        .unwrap_err();
    assert_eq!(e.status_code, StatusCode::InternalError);
    assert_eq!(select_todo_list_id(7, &db), Some(5));
    assert_eq!(select_todo_list_id(8, &db), None);
    let user = NewUser { login: "bob".to_string(), password: "pw".to_string() };
    assert_eq!(insert_user_as(3, &user, &mut db).unwrap(), 3);
    assert_eq!(insert_user_as(3, &user, &mut db).unwrap_err().status_code, StatusCode::InternalError);
    assert!(is_user_exist(&"bob".to_string(), &db));
    assert!(!is_user_exist(&"eve".to_string(), &db));
    assert_eq!(select_user_id(&"bob".to_string(), &"pw".to_string(), &db), Some(3));
    assert_eq!(select_user_id(&"bob".to_string(), &"no".to_string(), &db), None);
}

#[test]
fn existing_list_is_named_by_hyphenated_id() {
    let mut db = Db::new();
    let id: u128 = 0x67e5_5044_10b1_426f_9247_bb68_0e5f_e0c8;
    insert_todo_list_as(id, 7, &NewTodoList { name: "a".to_string() }, &mut db).unwrap();
    let e = todo_ranks::handlers::new_list(
        &mut db,
        &NewTodoList { name: "b".to_string() },
        todo_ranks::BearerAuth { user_id: 7 },
    )
    .unwrap_err();
    assert_eq!(e.status_code, StatusCode::BadRequest);
    assert_eq!(
        e.detail.as_deref(),
        Some("You have already TO-DO list with id = 67e55044-10b1-426f-9247-bb680e5fe0c8")
    );
}

#[test]
fn end_insert_on_empty_store_succeeds_with_rank_one() {
    let mut db = Db::new();
    let list = todo_ranks::handlers::new_list(
        &mut db,
        &NewTodoList { name: "a".to_string() },
        todo_ranks::BearerAuth { user_id: 9 },
    )
    .unwrap();
    let id = todo_ranks::handlers::new_task(
        todo_ranks::NewTask {
            description: "first".to_string(),
            position: todo_ranks::TaskPosition::End,
        },
        &mut db,
        todo_ranks::BearerAuth { user_id: 9 },
    )
    .unwrap();
    assert_eq!(ranks(&db, list), vec![(id, 1)]);
}
