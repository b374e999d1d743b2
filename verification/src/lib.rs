//! A task runner's core: task definitions, their lookup and checking, task trees
//! built from them, and the display of those trees.
pub mod text;
pub mod archy;
pub mod strmap;
pub mod input;
pub mod task_lookup;
pub mod task_lookup_error;
pub mod report;
pub mod paint;
pub mod ids;
pub mod task;
pub mod options;
pub mod parent;
