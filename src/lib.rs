//! Watches a source tree for new files and moves each one to the same
//! relative place under a destination tree.
//!
//! The library holds the decisions of that pipeline: how an observed path is
//! made relative to the watched root, which creation events are acted on,
//! which relative paths get a relocation worker, and which filesystem step a
//! worker takes next. The filesystem and notification work itself is done by
//! the caller, which hands the outcomes back in.
pub mod path;
pub mod event;
pub mod dispatch;
pub mod worker;
