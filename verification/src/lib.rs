//! Decision logic for clearing one author's messages out of a chat channel.
//!
//! The crate performs no I/O. It says which requests to send, what their
//! replies mean and what to do next; a driver sends the requests, waits, and
//! reports back what happened.
//!
//! - [`controller`] drives a run: fetch a page, select, delete, rest, repeat.
//! - [`batch`] runs the deletions of one page, a bounded number at a time.
//! - [`message`] holds messages, the selection by author and the cursor.
//! - [`request`] builds the two requests; [`outcome`] judges their replies.
//! - [`order`] orders ids; [`settings`] holds the fixed numbers.

pub mod batch;
pub mod controller;
pub mod message;
pub mod order;
pub mod outcome;
pub mod request;
pub mod settings;
