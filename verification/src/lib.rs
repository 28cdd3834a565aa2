//! A remote shell for a phone, over a Bluetooth serial link.
//!
//! The phone is the RFCOMM server. A paired computer connects and sends command lines in
//! length-prefixed frames; the shell answers each with any number of data frames and one frame
//! that says how it went. This crate is all of it that can be computed: the wire format, the
//! commands, the searches, and the state machine that ties them together. The radio, the file
//! server and the clock are asked for through [`work::Action`] and [`platform::Query`], and what
//! they say comes back through [`work::Event`] and [`work::Outcome`].
//!
//! - [`shell::Shell`] is the state machine. [`model`] says what each event and each step makes of
//!   it. What holds of it as a whole stands in [`session`], [`laws`], [`intake`], [`replies`],
//!   [`published`] and [`ending`].
//! - [`command`] begins the commands and [`job`] goes on with them; [`verbs`] says what each does.
//!   [`scan`] holds the two searches, and [`completeness`] says what they find.
//! - [`wire`], [`path`], [`args`], [`number`], [`search`], [`listing`], [`lines`] and [`text`] are
//!   what the commands are made of.
//! - [`viewer::Viewer`] is the panel that shows what the shell is doing, and [`probe::RfProbe`]
//!   the answer to whether a phone can run it at all. [`screen`] lays them out.

pub mod args;
pub mod command;
pub mod completeness;
pub mod ending;
pub mod intake;
pub mod job;
pub mod laws;
pub mod lines;
pub mod listing;
pub mod model;
pub mod number;
pub mod path;
pub mod platform;
pub mod probe;
pub mod published;
pub mod pubsub;
pub mod replies;
pub mod reply;
pub mod scan;
pub mod screen;
pub mod search;
pub mod session;
pub mod shell;
pub mod text;
pub mod utf8;
pub mod verbs;
pub mod viewer;
pub mod wire;
pub mod work;
