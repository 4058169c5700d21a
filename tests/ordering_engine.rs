use todo_ranks::ordering::{
    insert_after_rank, insert_before_rank, move_after_destination, move_before_destination,
    move_shift_plan,
};

#[test]
fn after_rank_is_one_above_anchor() {
    assert_eq!(insert_after_rank(1), 2);
    assert_eq!(insert_after_rank(5), 6);
}

#[test]
fn before_rank_is_one_below_anchor_but_at_least_one() {
    assert_eq!(insert_before_rank(3), 2);
    assert_eq!(insert_before_rank(2), 1);
    assert_eq!(insert_before_rank(1), 1);
}

#[test]
fn move_after_destination_collapses_when_source_is_below() {
    // 1..6: moving 6 after 2 lands at 3; moving 2 after 6 lands at 6.
    assert_eq!(move_after_destination(6, 2), 3);
    assert_eq!(move_after_destination(2, 6), 6);
}

#[test]
fn move_before_destination_collapses_when_source_is_below() {
    // 1..6: moving 6 before 2 lands at 2; moving 2 before 6 lands at 5.
    assert_eq!(move_before_destination(6, 2), 2);
    assert_eq!(move_before_destination(2, 6), 5);
    assert_eq!(move_before_destination(3, 1), 1);
}

#[test]
fn shift_plan_windows() {
    assert_eq!(move_shift_plan(6, 3), (3, 5, 1));
    assert_eq!(move_shift_plan(2, 5), (3, 5, -1));
}
