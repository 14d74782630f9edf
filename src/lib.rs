//! A personal task list: an ordered store of tasks with stable ids, the rules for changing
//! it, the repair of records written before ids existed, and the reading of shell input.

pub mod command;
pub mod laws;
pub mod task;
pub mod task_error;
pub mod task_manager;
pub mod text;

pub use task::{Priority, Task};
pub use task_error::TaskError;
pub use task_manager::TaskManager;
