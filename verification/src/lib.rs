//! Decoding of logic-analyzer captures into protocol events.
//!
//! A capture is a stream of timestamped samples. Each decoding stage owns the
//! events of the stage before it and turns them, one `next` at a time, into
//! events of a richer kind: samples into serial bytes or USB line states, line
//! states into bytes, bytes into packets, packets into transactions, and
//! transactions into device-level events.
pub mod bytes;
pub mod error;
pub mod pipeline;
pub mod serial;
pub mod source;
pub mod spi;
pub mod spif;
pub mod time;
pub mod usb;
pub mod wizfi310;
