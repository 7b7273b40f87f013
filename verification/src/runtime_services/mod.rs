//! Services that are managed while the server runs.
//!
//! What the changes promise stands in `operations`, `laws` and `target_ids`, that every
//! state that can come about is in its normal form in `operations` and `forms`, and that
//! it is valid in `validity`. What is refused and what passes stands in `rules`.

pub mod types;
pub mod normalize;
pub mod validate;
pub mod state;
pub mod target_ids;
pub mod operations;
pub mod merge;
pub mod forms;
pub mod laws;
pub mod messages;
pub mod registry;
pub mod rules;
pub mod validity;
