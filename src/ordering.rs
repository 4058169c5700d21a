//! The ordering engine: which rank a placed task takes, and which window of
//! ranks shifts, and by how much, when a task moves. Pure arithmetic on ranks.
use vstd::prelude::*;

verus! {

/// Rank of a task inserted after an anchor of rank `anchor`.
pub open spec fn after_rank(anchor: int) -> int {
    anchor + 1
}

/// Rank of a task inserted before an anchor of rank `anchor`: one below it,
/// but never below the first rank.
pub open spec fn before_rank(anchor: int) -> int {
    if anchor - 1 >= 1 {
        anchor - 1
    } else {
        1
    }
}

/// Destination of a task of rank `source` moved after the task of rank `target`.
/// When the source lies below the target, taking it out pulls the target down
/// by one, so the destination is the target's own rank.
pub open spec fn move_after_rank(source: int, target: int) -> int {
    if source < target {
        target
    } else {
        target + 1
    }
}

/// Destination of a task of rank `source` moved before the task of rank
/// `target`, never below the first rank.
pub open spec fn move_before_rank(source: int, target: int) -> int {
    let d = if source < target {
        target - 1
    } else {
        target
    };
    if d >= 1 {
        d
    } else {
        1
    }
}

/// The closed window of ranks that shifts, and the shift, when a task moves
/// from rank `old` to rank `new`: leftward moves push `[new, old - 1]` up by
/// one, rightward moves pull `[old + 1, new]` down by one.
pub open spec fn move_window(old: int, new: int) -> (int, int, int) {
    if new < old {
        (new, old - 1, 1)
    } else {
        (old + 1, new, -1)
    }
}

/// Rank for a task placed after the anchor of rank `anchor`.
pub fn insert_after_rank(anchor: i32) -> (r: i32)
    requires
        anchor < i32::MAX,
    ensures
        r == after_rank(anchor as int),
{
    anchor + 1
}

/// Rank for a task placed before the anchor of rank `anchor`.
pub fn insert_before_rank(anchor: i32) -> (r: i32)
    ensures
        r == before_rank(anchor as int),
{
    if anchor > 1 {
        anchor - 1
    } else {
        1
    }
}

/// Destination rank for moving the task of rank `source` after the task of rank `target`.
pub fn move_after_destination(source: i32, target: i32) -> (r: i32)
    requires
        source != target,
    ensures
        r == move_after_rank(source as int, target as int),
{
    if source < target {
        target
    } else {
        target + 1
    }
}

/// Destination rank for moving the task of rank `source` before the task of rank `target`.
pub fn move_before_destination(source: i32, target: i32) -> (r: i32)
    ensures
        r == move_before_rank(source as int, target as int),
{
    let d = if source < target {
        target - 1
    } else {
        target
    };
    if d >= 1 {
        d
    } else {
        1
    }
}

/// The shift plan `(low, high, delta)` of a move from rank `old` to rank `new`.
pub fn move_shift_plan(old: i32, new: i32) -> (r: (i32, i32, i32))
    requires
        old != new,
    ensures
        r.0 as int == move_window(old as int, new as int).0,
        r.1 as int == move_window(old as int, new as int).1,
        r.2 as int == move_window(old as int, new as int).2,
{
    if new < old {
        (new, old - 1, 1)
    } else {
        (old + 1, new, -1)
    }
}

} // verus!
