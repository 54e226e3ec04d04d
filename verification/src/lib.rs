//! A terminal panel's text model: ANSI-colored output lines, scrollback,
//! line editing with history and completion, command planning and the
//! text layout of the view.
pub mod color;
pub mod text;
pub mod ansi;
pub mod view;
pub mod line;
pub mod state;
pub mod input;
pub mod complete;
pub mod command;
pub mod layout;
pub mod tabbar;
pub mod laws;

pub use line::{Line, LineKind};
pub use ansi::{StyledSpan, parse_ansi};
pub use view::TerminalView;
pub use state::State;

