//! Building blocks for spacecraft communication links.
//!
//! The larger part is a chunked file-transfer protocol for a slow and lossy link:
//!
//! * [`value`] and [`codec`]: the self-describing value tree and its CBOR encoding;
//! * [`message`], [`parsers`] and [`wire`]: the messages, their recognition in a value
//!   tree, and messages as bytes;
//! * [`ranges`], [`entry`], [`store`] and [`meta`]: the content store, which keeps the
//!   chunks of each file under the file's hash, and the ranges of chunks that are
//!   missing;
//! * [`session`], [`receiver`], [`sender`] and [`engine`]: the two sides of a transfer
//!   as state machines, and the sessions of one peer side by side.
//!
//! The smaller part is framing for two on-board devices: [`mai400`] for the serial link
//! to the MAI-400 attitude control board, and [`novatel`] for the LOG command of the
//! NovAtel OEM6 receiver, with [`little_endian`] beneath both.
//!
//! Everything here works on plain values. Reading files, devices and the clock, and
//! computing digests, is left to the caller.

pub mod little_endian;
pub mod value;
pub mod codec;
pub mod message;
pub mod parsers;
pub mod wire;
pub mod ranges;
pub mod error;
pub mod entry;
pub mod store;
pub mod meta;
pub mod session;
pub mod receiver;
pub mod sender;
pub mod engine;
pub mod novatel;
pub mod mai400;
