//! Command handlers: each takes the editor state, performs one command and
//! reports success.
pub mod cursor;
