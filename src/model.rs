use vstd::prelude::*;

verus! {

/// Outcome class of a failed request.
#[derive(Debug, Clone, Copy, PartialEq, Eq, Structural)]
pub enum StatusCode {
    BadRequest,
    Unauthorized,
    NotFound,
    InternalError,
}

/// A typed failure: its class and an optional human-readable detail.
#[derive(Debug)]
pub struct ServiceError {
    pub status_code: StatusCode,
    pub detail: Option<String>,
}

impl ServiceError {
    /// An error of class `status_code` whose detail is `detail`.
    pub fn with_detail(status_code: StatusCode, detail: &str) -> (e: ServiceError)
        ensures
            e.status_code == status_code,
            e.detail is Some,
            e.detail->0@ == detail@,
    {
        ServiceError { status_code, detail: Some(detail.to_string()) }
    }
}

/// Request body for creating a list.
pub struct NewTodoList {
    pub name: String,
}

/// Request body for renaming a list.
pub struct UpdateTodoList {
    pub name: String,
}

/// A stored list: its id, its owner and its name.
#[derive(Debug)]
pub struct FullTodoListInfo {
    pub id: u128,
    pub user_id: u128,
    pub name: String,
}

impl FullTodoListInfo {
    /// A copy of this row.
    pub fn snapshot(&self) -> (r: FullTodoListInfo)
        ensures
            r == *self,
    {
        FullTodoListInfo { id: self.id, user_id: self.user_id, name: self.name.clone() }
    }
}

/// Where a task goes, relative to the list or to another task of it.
#[derive(Debug, Clone, Copy, PartialEq, Eq, Structural)]
pub enum TaskPosition {
    End,
    After { task_id: u128 },
    Before { task_id: u128 },
}

/// Request body for creating a task.
pub struct NewTask {
    pub description: String,
    pub position: TaskPosition,
}

/// A stored task: its id, its list, its text and its rank in the list.
#[derive(Debug)]
pub struct FullTaskInfo {
    pub id: u128,
    pub todo_list_id: u128,
    pub description: String,
    pub order: i32,
}

impl FullTaskInfo {
    /// A copy of this row.
    pub fn snapshot(&self) -> (r: FullTaskInfo)
        ensures
            r == *self,
    {
        FullTaskInfo {
            id: self.id,
            todo_list_id: self.todo_list_id,
            description: self.description.clone(),
            order: self.order,
        }
    }
}

/// Request body for changing a task's text.
pub struct UpdateTask {
    pub description: String,
}

/// Request body for moving a task.
pub struct MoveTask {
    pub position: TaskPosition,
}

/// A window over the rank-sorted tasks: skip `offset`, take `count`.
#[derive(Debug, Clone, Copy, PartialEq, Eq, Structural)]
pub struct TaskRange {
    pub offset: u32,
    pub count: u32,
}

/// Request body for registering a user.
pub struct NewUser {
    pub login: String,
    pub password: String,
}

/// Request body for logging in.
pub struct Login {
    pub login: String,
    pub password: String,
}

/// A stored user.
#[derive(Debug)]
pub struct User {
    pub id: u128,
    pub login: String,
    pub password: String,
}

/// The identity that a bearer token resolved to.
#[derive(Debug, Clone, Copy, PartialEq, Eq, Structural)]
pub struct BearerAuth {
    pub user_id: u128,
}

/// What a bearer token carries: its expiry (seconds since the epoch) and the user.
#[derive(Debug, Clone, Copy, PartialEq, Eq, Structural)]
pub struct UserClaim {
    pub exp: usize,
    pub user_id: u128,
}

} // verus!
