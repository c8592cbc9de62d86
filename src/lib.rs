//! Writes commit messages from a staged diff through a locally hosted chat model: composes
//! the prompt and the request, assembles the streamed JSON reply, erases the live transcript,
//! and parses and renders the structured message.

pub mod cli;
pub mod commit;
pub mod error;
pub mod message;
pub mod prompt;
pub mod redraw;
pub mod stream;
pub mod text;
