//! A clipboard history: the entries it keeps, how a new clip is filtered,
//! deduplicated and trimmed, what the watcher records on each poll, and how
//! the picker turns keys into a selection.
pub mod text;
pub mod model;
pub mod clipboard;
pub mod storage;
pub mod daemon;
pub mod picker;
