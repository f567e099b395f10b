pub mod input;
pub mod state;

pub use input::{on_cursor_moved, on_escape, on_left_click, on_right_click, InteractionAction};
pub use state::InteractionState;
