//! Project-state management core of a tile-asset editor: a versioned
//! load channel for handing a parsed project from a background worker to
//! the interactive loop, a time-coalescing snapshot history for undo, a
//! section-level invalidation policy for derived caches, and a canonical
//! text codec for the project document.

pub mod channel;
pub mod codec;
pub mod document;
pub mod history;
pub mod loader;
pub mod project;
