//! What most services use.

pub use crate::api::{PaginatedResponse, Pagination, Request, RequestExt, Response};
pub use crate::auth::{AuthContext, Claims, User};
pub use crate::config::Config;
pub use crate::database::{Migration, MigrationRunner};
pub use crate::http::StatusCode;
pub use crate::server::{MiddlewareResult, Router, Server};
pub use crate::service::Lime;
pub use crate::tasks::{EmailTask, Task, TaskRunner};
