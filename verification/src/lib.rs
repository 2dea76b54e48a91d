//! The core of a chat bot for currency rates: the grammar of its arguments, the calls to the
//! pricing service that they lead to, and the replies that its answers are shown as.
//!
//! Nothing here talks to a chat or to a network. A command arrives as text and leaves as a
//! plan of calls or as a complaint; the answers arrive as plain values and leave as text.
//!
//! - [`text`] cuts character sequences: trimming, splitting, words, order.
//! - [`currency`], [`amount`] and [`date`] judge the three kinds of token in an argument.
//! - [`forex`] and [`convert`] are the two commands: grammar, calls, replies.
//! - [`query`] and [`response`] are what goes to the pricing service and what comes back.
//! - [`laws`] states what holds of all of them, whatever the input.
//! - [`spongebob`], [`reply`], [`sample`], [`money`], [`model`] and [`config`] are the small
//!   commands and the values around them.
//!
//! Calendar days and instants are read and printed by `chrono`, amounts in other scripts than
//! ASCII are judged by `regex`, and money is shown by `rust_decimal` and `accounting`. What
//! these crates give is taken on trust and named, never guessed: see the `uninterp`
//! functions in [`date`], [`amount`], [`money`] and [`sample`].

pub mod amount;
pub mod commands;
pub mod config;
pub mod convert;
pub mod currency;
pub mod date;
pub mod error;
pub mod forex;
pub mod laws;
pub mod model;
pub mod money;
pub mod query;
pub mod reply;
pub mod response;
pub mod sample;
pub mod spongebob;
pub mod text;
