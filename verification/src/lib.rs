//! Modal-editing core of a PTY wrapper: key matching, scroll event encoding,
//! output filtering, a virtual terminal screen and the statusline text.

pub mod input;
pub mod modal;
pub mod pty;
pub mod scroll;
pub mod statusline;
pub mod text;
pub mod screen;
