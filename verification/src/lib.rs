//! The reactive core of a todo list on a retained-mode scene graph: the
//! domain store and its ordering key, the focus state machine, the click
//! normalizer, the row reconciler, button styling and the text projections.
//!
//! The host engine owns layout, rendering and input dispatch. It hands this
//! crate plain snapshots of what it holds (interaction changes, rows, buttons)
//! and applies the commands and updates that come back.

pub mod ids;
pub mod domain;
pub mod messages;
pub mod store;
pub mod ordinals;
pub mod interaction;
pub mod focus;
pub mod commands;
pub mod todo_row;
pub mod todo_list;
pub mod buttons;
pub mod text;
pub mod todo_footer;
pub mod todo_body;
pub mod todo_input;
