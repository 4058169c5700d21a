pub mod model;
pub mod ranks;
pub mod ordering;
pub mod db;
pub mod handlers;

pub use model::{
    BearerAuth, FullTaskInfo, FullTodoListInfo, Login, MoveTask, NewTask, NewTodoList, NewUser,
    ServiceError, StatusCode, TaskPosition, TaskRange, UpdateTask, UpdateTodoList, User, UserClaim,
};
