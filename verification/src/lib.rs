//! An in-memory task list: a store of to-do records with unique,
//! monotonically increasing identifiers, supporting creation, completion,
//! removal, listing and filtering by priority.

pub mod store;
pub mod task;

pub use store::TaskManager;
pub use task::Task;
pub use task::TaskView;
