//! USB 1.x low- and full-speed decoding, after the USB 2.0 specification.
pub mod byte;
pub mod device;
pub mod packet;
pub mod protocol;
pub mod signal;
pub mod types;
