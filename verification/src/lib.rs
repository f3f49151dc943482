//! The server side of `pane.stream_output`: one pane's raw terminal output,
//! streamed to a client as newline-delimited JSON frames.
//!
//! - [`session`] decides what the thread that serves a client does next.
//! - [`channel`] gathers what the pane broadcasts.
//! - [`subscription`] and [`output_stream`] hand a subscription over from the
//!   app to that thread.
//! - [`wire`] turns frames into lines of text, with [`json`] and [`encoding`].
//! - [`steps`] states what each event makes a session do, and [`laws`] what holds
//!   of every stream.

pub mod channel;
pub mod encoding;
pub mod json;
pub mod laws;
pub mod output_stream;
pub mod session;
pub mod steps;
pub mod subscription;
pub mod wire;
