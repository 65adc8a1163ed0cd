//! Keyboard input expansion.
//!
//! A daemon watches the keyboard for tags such as `<now/>` or
//! `<greet>you</greet>`, runs the command that is configured for the tag, and
//! puts the command's output in the tag's place. This library holds what the
//! daemon decides; reading devices, running processes and waiting are left to
//! the program around it, which does what it is told and reports what came of
//! it.
//!
//! - [`tag`] parses tags as they are typed; [`engine`] turns key events and
//!   copied text into commands to run.
//! - [`config`] and [`triggers`] are the configuration; [`command`] fills in a
//!   command's arguments and [`process`] judges how its run ended.
//! - [`injection`] puts the output into the focused application, by way of the
//!   [`clipboard`] and the virtual keyboard in [`device`].
//! - [`event`] and [`keycode`] are the keyboard's own terms, [`error`] is what
//!   can go wrong, and [`text`], [`number`] and [`path`] are what the others
//!   are made of.
pub mod clipboard;
pub mod command;
pub mod config;
pub mod device;
pub mod engine;
pub mod error;
pub mod event;
pub mod injection;
pub mod keycode;
pub mod number;
pub mod path;
pub mod process;
pub mod tag;
pub mod text;
pub mod triggers;
