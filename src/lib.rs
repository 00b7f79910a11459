//! A countdown timer core: a parser for compact duration strings such as
//! `1h15m30s`, and the countdown value that is ticked once per second and
//! rendered as text.
pub mod blocks;
pub mod cmd;
pub mod parse;
pub mod session;
pub mod text;
pub mod timer;
