//! The storage layer's own logic: how domain values map to and from table
//! rows, the search expression, media naming, and the captured rows an
//! undoable delete keeps. The database itself is driven by the application.

pub mod event;
pub mod maintenance;
pub mod media;
pub mod search;
pub mod source;
pub mod undo;
