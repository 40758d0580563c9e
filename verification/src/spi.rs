//! What an SPI decoder reports of the bus.
use vstd::prelude::*;

verus! {

/// A change of the chip select line, or one byte in each direction.
#[derive(Debug, Clone, Copy, PartialEq, Eq, Structural)]
pub enum SpiEvent {
    /// The level of the chip select line; the chip is selected while it is low.
    ChipSelect(bool),
    /// Eight clocks: the byte that the controller sent and the byte that came back.
    Data { mosi: u8, miso: u8 },
}

} // verus!
