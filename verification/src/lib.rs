//! A guard for files dropped onto the application: a path is accepted only
//! when it names an existing regular file whose extension, compared without
//! regard to case, is one of a fixed allow-list, and the guard's verdict
//! carries the exact reason for any rejection.

pub mod guard;
pub mod paths;
