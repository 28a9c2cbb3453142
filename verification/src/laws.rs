//! What holds of the engine as a whole, whatever happens in whatever order.

mod actions;
pub mod calls;
pub mod content;
pub mod effects;
pub mod order;
pub mod runs;
pub mod settling;
pub mod syncs;
pub mod tables;
