//! Commands of an SPI NOR flash, put together from the bytes on the bus
//! between the selection of the chip and its release.
use vstd::prelude::*;
use std::collections::VecDeque;
use crate::error::DecodeError;
use crate::error::FlashError;
use crate::pipeline::build_result;
use crate::pipeline::drain;
use crate::pipeline::Event;
use crate::pipeline::EventIterator;
use crate::pipeline::EventType;
use crate::pipeline::kind_of;
use crate::pipeline::next_view;
use crate::pipeline::not_before;
use crate::pipeline::ordered;
use crate::pipeline::PipelineError;
use crate::pipeline::pop_top;
use crate::pipeline::push_top;
use crate::pipeline::replaced;
use crate::pipeline::StageKind;
use crate::pipeline::Stream;
use crate::pipeline::StreamView;
use crate::pipeline::views;
use crate::spi::SpiEvent;
use crate::time::Timestamp;

verus! {

/// An address and the bytes read from it or written to it.
pub struct BlockView {
    pub addr: u32,
    pub data: Seq<u8>,
}

#[derive(Debug, Clone, PartialEq, Eq)]
pub struct Read {
    pub addr: u32,
    pub data: Vec<u8>,
}

impl Read {
    pub fn new() -> (r: Read)
        ensures
            r@ == (BlockView { addr: 0, data: Seq::empty() }),
    {
        Read { addr: 0, data: Vec::new() }
    }
}

impl View for Read {
    type V = BlockView;

    open spec fn view(&self) -> BlockView {
        BlockView { addr: self.addr, data: self.data@ }
    }
}

#[derive(Debug, Clone, PartialEq, Eq)]
pub struct PageProgram {
    pub addr: u32,
    pub data: Vec<u8>,
}

impl PageProgram {
    pub fn new() -> (r: PageProgram)
        ensures
            r@ == (BlockView { addr: 0, data: Seq::empty() }),
    {
        PageProgram { addr: 0, data: Vec::new() }
    }
}

impl View for PageProgram {
    type V = BlockView;

    open spec fn view(&self) -> BlockView {
        BlockView { addr: self.addr, data: self.data@ }
    }
}

#[derive(Debug, Clone, PartialEq, Eq)]
pub struct SFDP {
    pub addr: u32,
    pub data: Vec<u8>,
}

impl SFDP {
    pub fn new() -> (r: Self)
        ensures
            r@ == (BlockView { addr: 0, data: Seq::empty() }),
    {
        SFDP { addr: 0, data: Vec::new() }
    }
}

impl View for SFDP {
    type V = BlockView;

    open spec fn view(&self) -> BlockView {
        BlockView { addr: self.addr, data: self.data@ }
    }
}

#[derive(Debug, Copy, Clone, PartialEq, Eq, Structural)]
pub struct DeviceId {
    pub manufacturer: u8,
    pub device_id: u16,
}

#[derive(Debug, Copy, Clone, PartialEq, Eq, Structural)]
pub struct StatusRegister(pub u8);

#[derive(Debug, Clone, PartialEq, Eq)]
pub enum Command {
    Read(Read),
    WriteEnable,
    ResetEnable,
    Reset,
    PageProgram(PageProgram),
    BlockErase(u32),
    BlockErase32(u32),
    SectorErase(u32),
    ReadSFDP(SFDP),
    ReadStatusRegister(StatusRegister),
    ReadDeviceId(DeviceId),
}

/// What a command is, apart from where its bytes are stored.
pub enum CommandView {
    Read(BlockView),
    WriteEnable,
    ResetEnable,
    Reset,
    PageProgram(BlockView),
    BlockErase(u32),
    BlockErase32(u32),
    SectorErase(u32),
    ReadSFDP(BlockView),
    ReadStatusRegister(StatusRegister),
    ReadDeviceId(DeviceId),
}

impl View for Command {
    type V = CommandView;

    open spec fn view(&self) -> CommandView {
        match *self {
            Command::Read(r) => CommandView::Read(r@),
            Command::WriteEnable => CommandView::WriteEnable,
            Command::ResetEnable => CommandView::ResetEnable,
            Command::Reset => CommandView::Reset,
            Command::PageProgram(p) => CommandView::PageProgram(p@),
            Command::BlockErase(a) => CommandView::BlockErase(a),
            Command::BlockErase32(a) => CommandView::BlockErase32(a),
            Command::SectorErase(a) => CommandView::SectorErase(a),
            Command::ReadSFDP(s) => CommandView::ReadSFDP(s@),
            Command::ReadStatusRegister(s) => CommandView::ReadStatusRegister(s),
            Command::ReadDeviceId(d) => CommandView::ReadDeviceId(d),
        }
    }
}

/// A command whose bytes are still coming in, with the time of its first byte.
#[derive(Debug, Clone, PartialEq, Eq)]
pub enum PartialCommand {
    Read(Timestamp, Read),
    ReadStatusRegister(Timestamp),
    PageProgram(Timestamp, PageProgram),
    BlockErase(Timestamp, u32),
    BlockErase32(Timestamp, u32),
    SectorErase(Timestamp, u32),
    ReadSFDP(Timestamp, SFDP),
    ReadDeviceId(Timestamp, DeviceId),
    Nothing,
}

/// What a command in progress is, apart from where its bytes are stored.
pub enum PartialView {
    Read(Timestamp, BlockView),
    ReadStatusRegister(Timestamp),
    PageProgram(Timestamp, BlockView),
    BlockErase(Timestamp, u32),
    BlockErase32(Timestamp, u32),
    SectorErase(Timestamp, u32),
    ReadSFDP(Timestamp, BlockView),
    ReadDeviceId(Timestamp, DeviceId),
    Nothing,
}

impl View for PartialCommand {
    type V = PartialView;

    open spec fn view(&self) -> PartialView {
        match *self {
            PartialCommand::Read(t, r) => PartialView::Read(t, r@),
            PartialCommand::ReadStatusRegister(t) => PartialView::ReadStatusRegister(t),
            PartialCommand::PageProgram(t, p) => PartialView::PageProgram(t, p@),
            PartialCommand::BlockErase(t, a) => PartialView::BlockErase(t, a),
            PartialCommand::BlockErase32(t, a) => PartialView::BlockErase32(t, a),
            PartialCommand::SectorErase(t, a) => PartialView::SectorErase(t, a),
            PartialCommand::ReadSFDP(t, s) => PartialView::ReadSFDP(t, s@),
            PartialCommand::ReadDeviceId(t, d) => PartialView::ReadDeviceId(t, d),
            PartialCommand::Nothing => PartialView::Nothing,
        }
    }
}

/// Where the decoder stands: the level of the chip select line, how many
/// bytes of the address or the identifier have come in, and the command in progress.
pub struct FlashState {
    pub cs: bool,
    pub idx: u32,
    pub partial: PartialView,
}

/// What the first byte of a command starts, at the time `ts`: the command
/// itself where it has no further bytes, or a command in progress. The byte
/// that came back with it is kept for the diagnostic only.
///
/// `0x02` page program, `0x03` read, `0x05` read status register, `0x06`
/// write enable, `0x20` sector erase, `0x52` block erase of 32 KiB, `0x5A`
/// read SFDP, `0x66` reset enable, `0x99` reset, `0x9F` read device
/// identifier, `0xD8` block erase of 64 KiB.
pub open spec fn command_start(ts: Timestamp, mosi: u8, miso: u8) -> (
    PartialView,
    Option<Result<CommandView, DecodeError>>,
) {
    let empty = BlockView { addr: 0, data: Seq::empty() };
    if mosi == 0x02 {
        (PartialView::PageProgram(ts, empty), None)
    } else if mosi == 0x03 {
        (PartialView::Read(ts, empty), None)
    } else if mosi == 0x05 {
        (PartialView::ReadStatusRegister(ts), None)
    } else if mosi == 0x06 {
        (PartialView::Nothing, Some(Ok(CommandView::WriteEnable)))
    } else if mosi == 0x20 {
        (PartialView::SectorErase(ts, 0), None)
    } else if mosi == 0x52 {
        (PartialView::BlockErase32(ts, 0), None)
    } else if mosi == 0x5A {
        (PartialView::ReadSFDP(ts, empty), None)
    } else if mosi == 0x66 {
        (PartialView::Nothing, Some(Ok(CommandView::ResetEnable)))
    } else if mosi == 0x99 {
        (PartialView::Nothing, Some(Ok(CommandView::Reset)))
    } else if mosi == 0x9F {
        (PartialView::ReadDeviceId(ts, DeviceId { manufacturer: 0, device_id: 0 }), None)
    } else if mosi == 0xD8 {
        (PartialView::BlockErase(ts, 0), None)
    } else {
        (
            PartialView::Nothing,
            Some(Err(DecodeError::Flash(FlashError::UnsupportedCommand { mosi, miso }))),
        )
    }
}

/// An address with one more byte at its low end.
pub open spec fn extended(addr: u32, byte: u8) -> u32 {
    (addr << 8) | (byte as u32)
}

/// A block after one more byte on the bus: the first three bytes are its
/// address, the highest first, and those after them its data.
pub open spec fn block_after(block: BlockView, idx: u32, address_byte: u8, data_byte: u8) -> (
    BlockView,
    u32,
) {
    if idx < 3 {
        (BlockView { addr: extended(block.addr, address_byte), data: block.data }, (idx + 1) as u32)
    } else {
        (BlockView { addr: block.addr, data: block.data.push(data_byte) }, idx)
    }
}

/// What one event of the bus does to the decoder: the state after it, and
/// the command or diagnostic that it gives, if any, with its time.
///
/// The release of the chip ends the command in progress; a read, a page
/// program and a read of the SFDP come out then, with the time of their first
/// byte. While the chip is selected, the first byte starts a command and the
/// bytes after it go to the command in progress: address bytes come from the
/// controller, as do the data of a page program, and the data that are read
/// come from the flash. An erase comes out with the third byte of its
/// address, a status register with the byte after the command, and a device
/// identifier with its third byte. A byte while the chip is not selected is an error.
pub open spec fn flash_step(state: FlashState, ts: Timestamp, ev: SpiEvent) -> (
    FlashState,
    Option<Event<CommandView>>,
) {
    match ev {
        SpiEvent::ChipSelect(false) => (FlashState { cs: false, ..state }, None),
        SpiEvent::ChipSelect(true) => (
            FlashState { cs: true, idx: state.idx, partial: PartialView::Nothing },
            match state.partial {
                PartialView::Read(sts, r) => Some((sts, Ok(CommandView::Read(r)))),
                PartialView::PageProgram(sts, pp) => Some((sts, Ok(CommandView::PageProgram(pp)))),
                PartialView::ReadSFDP(sts, sfdp) => Some((sts, Ok(CommandView::ReadSFDP(sfdp)))),
                _ => None,
            },
        ),
        SpiEvent::Data { mosi, miso } => if state.cs {
            (state, Some((ts, Err(DecodeError::Flash(FlashError::Ignored { mosi, miso })))))
        } else {
            match state.partial {
                PartialView::Nothing => {
                    let (partial, out) = command_start(ts, mosi, miso);
                    (
                        FlashState { cs: state.cs, idx: 0, partial },
                        match out {
                            Some(r) => Some((ts, r)),
                            None => None,
                        },
                    )
                },
                PartialView::Read(sts, r) => {
                    let (block, idx) = block_after(r, state.idx, mosi, miso);
                    (FlashState { cs: state.cs, idx, partial: PartialView::Read(sts, block) }, None)
                },
                PartialView::PageProgram(sts, pp) => {
                    let (block, idx) = block_after(pp, state.idx, mosi, mosi);
                    (
                        FlashState {
                            cs: state.cs,
                            idx,
                            partial: PartialView::PageProgram(sts, block),
                        },
                        None,
                    )
                },
                PartialView::ReadSFDP(sts, sfdp) => {
                    let (block, idx) = block_after(sfdp, state.idx, mosi, miso);
                    (
                        FlashState { cs: state.cs, idx, partial: PartialView::ReadSFDP(sts, block) },
                        None,
                    )
                },
                PartialView::ReadStatusRegister(sts) => (
                    FlashState { partial: PartialView::Nothing, ..state },
                    Some((sts, Ok(CommandView::ReadStatusRegister(StatusRegister(miso))))),
                ),
                PartialView::BlockErase(sts, addr) => if state.idx < 2 {
                    (
                        FlashState {
                            cs: state.cs,
                            idx: (state.idx + 1) as u32,
                            partial: PartialView::BlockErase(sts, extended(addr, mosi)),
                        },
                        None,
                    )
                } else {
                    (
                        FlashState { partial: PartialView::Nothing, ..state },
                        Some((sts, Ok(CommandView::BlockErase(extended(addr, mosi))))),
                    )
                },
                PartialView::BlockErase32(sts, addr) => if state.idx < 2 {
                    (
                        FlashState {
                            cs: state.cs,
                            idx: (state.idx + 1) as u32,
                            partial: PartialView::BlockErase32(sts, extended(addr, mosi)),
                        },
                        None,
                    )
                } else {
                    (
                        FlashState { partial: PartialView::Nothing, ..state },
                        Some((sts, Ok(CommandView::BlockErase32(extended(addr, mosi))))),
                    )
                },
                PartialView::SectorErase(sts, addr) => if state.idx < 2 {
                    (
                        FlashState {
                            cs: state.cs,
                            idx: (state.idx + 1) as u32,
                            partial: PartialView::SectorErase(sts, extended(addr, mosi)),
                        },
                        None,
                    )
                } else {
                    (
                        FlashState { partial: PartialView::Nothing, ..state },
                        Some((sts, Ok(CommandView::SectorErase(extended(addr, mosi))))),
                    )
                },
                PartialView::ReadDeviceId(sts, rdid) => if state.idx == 0 {
                    (
                        FlashState {
                            cs: state.cs,
                            idx: 1,
                            partial: PartialView::ReadDeviceId(
                                sts,
                                DeviceId { manufacturer: miso, device_id: rdid.device_id },
                            ),
                        },
                        None,
                    )
                } else if state.idx == 1 {
                    (
                        FlashState {
                            cs: state.cs,
                            idx: 2,
                            partial: PartialView::ReadDeviceId(
                                sts,
                                DeviceId {
                                    manufacturer: rdid.manufacturer,
                                    device_id: (miso as u16) << 8,
                                },
                            ),
                        },
                        None,
                    )
                } else {
                    (
                        FlashState { partial: PartialView::Nothing, ..state },
                        Some(
                            (
                                sts,
                                Ok(
                                    CommandView::ReadDeviceId(
                                        DeviceId {
                                            manufacturer: rdid.manufacturer,
                                            device_id: rdid.device_id | (miso as u16),
                                        },
                                    ),
                                ),
                            ),
                        ),
                    )
                },
            }
        },
    }
}

/// What one call of `next` makes of the events in `input`: the event handed
/// out, if any, the state reached, and the input left for later calls. A
/// diagnostic from upstream comes out unchanged and leaves the state alone.
pub open spec fn next_command(state: FlashState, input: Seq<Event<SpiEvent>>) -> (
    Option<Event<CommandView>>,
    FlashState,
    Seq<Event<SpiEvent>>,
)
    decreases input.len(),
{
    if input.len() == 0 {
        (None, state, input)
    } else {
        let rest = input.subrange(1, input.len() as int);
        let ts = input[0].0;
        match input[0].1 {
            Err(e) => (Some((ts, Err(e))), state, rest),
            Ok(ev) => {
                let (after, out) = flash_step(state, ts, ev);
                match out {
                    Some(res) => (Some(res), after, rest),
                    None => next_command(after, rest),
                }
            },
        }
    }
}

/// The flash stage: it owns the SPI events still to be read.
pub struct Spif {
    it: VecDeque<Event<SpiEvent>>,
    cs: bool,
    idx: u32,
    partial: PartialCommand,
}

impl Spif {
    /// The SPI events that no call of `next` has read yet.
    pub closed spec fn pending(&self) -> Seq<Event<SpiEvent>> {
        self.it@
    }

    /// Where the decoder stands.
    pub closed spec fn state(&self) -> FlashState {
        FlashState { cs: self.cs, idx: self.idx, partial: self.partial@ }
    }

    pub fn new(input: VecDeque<Event<SpiEvent>>) -> (r: Spif)
        ensures
            r.pending() == input@,
            r.state() == (FlashState { cs: false, idx: 0, partial: PartialView::Nothing }),
    {
        Self { it: input, cs: false, idx: 0, partial: PartialCommand::Nothing }
    }

    /// Starts the command whose first byte is `mosi`.
    fn new_cmd(&mut self, ts: Timestamp, mosi: u8, miso: u8) -> (r: Result<
        Option<Command>,
        DecodeError,
    >)
        requires
            old(self).partial@ is Nothing,
        ensures
            final(self).it@ == old(self).it@,
            final(self).cs == old(self).cs,
            final(self).idx == 0,
            (final(self).partial@, match r {
                Ok(Some(c)) => Some(Ok(c@)),
                Ok(None) => None,
                Err(e) => Some(Err(e)),
            }) == command_start(ts, mosi, miso),
    {
        self.idx = 0;
        if mosi == 0x02 {
            self.partial = PartialCommand::PageProgram(ts, PageProgram::new());
            Ok(None)
        } else if mosi == 0x03 {
            self.partial = PartialCommand::Read(ts, Read::new());
            Ok(None)
        } else if mosi == 0x05 {
            self.partial = PartialCommand::ReadStatusRegister(ts);
            Ok(None)
        } else if mosi == 0x06 {
            Ok(Some(Command::WriteEnable))
        } else if mosi == 0x20 {
            self.partial = PartialCommand::SectorErase(ts, 0);
            Ok(None)
        } else if mosi == 0x52 {
            self.partial = PartialCommand::BlockErase32(ts, 0);
            Ok(None)
        } else if mosi == 0x5A {
            self.partial = PartialCommand::ReadSFDP(ts, SFDP::new());
            Ok(None)
        } else if mosi == 0x66 {
            Ok(Some(Command::ResetEnable))
        } else if mosi == 0x99 {
            Ok(Some(Command::Reset))
        } else if mosi == 0x9F {
            self.partial = PartialCommand::ReadDeviceId(
                ts,
                DeviceId { manufacturer: 0, device_id: 0 },
            );
            Ok(None)
        } else if mosi == 0xD8 {
            self.partial = PartialCommand::BlockErase(ts, 0);
            Ok(None)
        } else {
            Err(DecodeError::Flash(FlashError::UnsupportedCommand { mosi, miso }))
        }
    }

    /// Takes one event of the bus into the decoder and hands back the
    /// command or the diagnostic that it gives, if any.
    pub fn update(&mut self, ts: Timestamp, ev: SpiEvent) -> (r: Option<Event<Command>>)
        ensures
            (final(self).state(), next_view(r)) == flash_step(old(self).state(), ts, ev),
            final(self).pending() == old(self).pending(),
    {
        match ev {
            SpiEvent::ChipSelect(false) => {
                self.cs = false;
                None
            },
            SpiEvent::ChipSelect(true) => {
                self.cs = true;
                let mut partial = PartialCommand::Nothing;
                core::mem::swap(&mut partial, &mut self.partial);
                match partial {
                    PartialCommand::Read(sts, r) => Some((sts, Ok(Command::Read(r)))),
                    PartialCommand::PageProgram(sts, pp) => Some(
                        (sts, Ok(Command::PageProgram(pp))),
                    ),
                    PartialCommand::ReadSFDP(sts, sfdp) => Some((sts, Ok(Command::ReadSFDP(sfdp)))),
                    _ => None,
                }
            },
            SpiEvent::Data { mosi, miso } => {
                if self.cs {
                    return Some((ts, Err(DecodeError::Flash(FlashError::Ignored { mosi, miso }))));
                }
                let mut partial = PartialCommand::Nothing;
                core::mem::swap(&mut partial, &mut self.partial);
                match partial {
                    PartialCommand::Nothing => match self.new_cmd(ts, mosi, miso) {
                        Ok(Some(cmd)) => Some((ts, Ok(cmd))),
                        Ok(None) => None,
                        Err(msg) => Some((ts, Err(msg))),
                    },
                    PartialCommand::Read(sts, r) => {
                        let mut r = r;
                        if self.idx < 3 {
                            r.addr = (r.addr << 8) | (mosi as u32);
                            self.idx = self.idx + 1;
                        } else {
                            r.data.push(miso);
                        }
                        self.partial = PartialCommand::Read(sts, r);
                        None
                    },
                    PartialCommand::ReadStatusRegister(sts) => {
                        Some((sts, Ok(Command::ReadStatusRegister(StatusRegister(miso)))))
                    },
                    PartialCommand::BlockErase(sts, addr) => {
                        if self.idx < 2 {
                            self.partial = PartialCommand::BlockErase(
                                sts,
                                (addr << 8) | (mosi as u32),
                            );
                            self.idx = self.idx + 1;
                            None
                        } else {
                            Some((sts, Ok(Command::BlockErase((addr << 8) | (mosi as u32)))))
                        }
                    },
                    PartialCommand::BlockErase32(sts, addr) => {
                        if self.idx < 2 {
                            self.partial = PartialCommand::BlockErase32(
                                sts,
                                (addr << 8) | (mosi as u32),
                            );
                            self.idx = self.idx + 1;
                            None
                        } else {
                            Some((sts, Ok(Command::BlockErase32((addr << 8) | (mosi as u32)))))
                        }
                    },
                    PartialCommand::SectorErase(sts, addr) => {
                        if self.idx < 2 {
                            self.partial = PartialCommand::SectorErase(
                                sts,
                                (addr << 8) | (mosi as u32),
                            );
                            self.idx = self.idx + 1;
                            None
                        } else {
                            Some((sts, Ok(Command::SectorErase((addr << 8) | (mosi as u32)))))
                        }
                    },
                    PartialCommand::PageProgram(sts, pp) => {
                        let mut pp = pp;
                        if self.idx < 3 {
                            pp.addr = (pp.addr << 8) | (mosi as u32);
                            self.idx = self.idx + 1;
                        } else {
                            pp.data.push(mosi);
                        }
                        self.partial = PartialCommand::PageProgram(sts, pp);
                        None
                    },
                    PartialCommand::ReadSFDP(sts, sfdp) => {
                        let mut sfdp = sfdp;
                        if self.idx < 3 {
                            sfdp.addr = (sfdp.addr << 8) | (mosi as u32);
                            self.idx = self.idx + 1;
                        } else {
                            sfdp.data.push(miso);
                        }
                        self.partial = PartialCommand::ReadSFDP(sts, sfdp);
                        None
                    },
                    PartialCommand::ReadDeviceId(sts, rdid) => {
                        if self.idx == 0 {
                            self.partial = PartialCommand::ReadDeviceId(
                                sts,
                                DeviceId { manufacturer: miso, device_id: rdid.device_id },
                            );
                            self.idx = 1;
                            None
                        } else if self.idx == 1 {
                            self.partial = PartialCommand::ReadDeviceId(
                                sts,
                                DeviceId {
                                    manufacturer: rdid.manufacturer,
                                    device_id: (miso as u16) << 8,
                                },
                            );
                            self.idx = 2;
                            None
                        } else {
                            Some(
                                (
                                    sts,
                                    Ok(
                                        Command::ReadDeviceId(
                                            DeviceId {
                                                manufacturer: rdid.manufacturer,
                                                device_id: rdid.device_id | (miso as u16),
                                            },
                                        ),
                                    ),
                                ),
                            )
                        }
                    },
                }
            },
        }
    }

    /// Reads SPI events until one of them gives a command or a diagnostic
    /// and hands that out; `None` once the input is used up.
    pub fn next(&mut self) -> (r: Option<Event<Command>>)
        ensures
            (next_view(r), final(self).state(), final(self).pending()) == next_command(
                old(self).state(),
                old(self).pending(),
            ),
    {
        loop
            invariant
                next_command(self.state(), self.it@) == next_command(
                    old(self).state(),
                    old(self).it@,
                ),
            decreases self.it@.len(),
        {
            let (ts, ev) = match self.it.pop_front() {
                None => {
                    return None;
                },
                Some((ts, Err(e))) => {
                    return Some((ts, Err(e)));
                },
                Some((ts, Ok(event))) => (ts, event),
            };
            if let Some(res) = self.update(ts, ev) {
                return Some(res);
            }
        }
    }
}

/// The time of the first byte of the command in progress, if there is one.
pub open spec fn started(partial: PartialView) -> Option<Timestamp> {
    match partial {
        PartialView::Read(t, _) => Some(t),
        PartialView::ReadStatusRegister(t) => Some(t),
        PartialView::PageProgram(t, _) => Some(t),
        PartialView::BlockErase(t, _) => Some(t),
        PartialView::BlockErase32(t, _) => Some(t),
        PartialView::SectorErase(t, _) => Some(t),
        PartialView::ReadSFDP(t, _) => Some(t),
        PartialView::ReadDeviceId(t, _) => Some(t),
        PartialView::Nothing => None,
    }
}

/// No event of the input is a diagnostic.
pub open spec fn all_ok<T>(input: Seq<Event<T>>) -> bool {
    forall|i: int| 0 <= i < input.len() ==> (#[trigger] input[i]).1 is Ok
}

/// A state that the decoder can be in before the events of `input`: no
/// command is in progress while the chip is released, and the command in
/// progress began no later than the input does.
pub open spec fn anchored(state: FlashState, input: Seq<Event<SpiEvent>>) -> bool {
    &&& state.cs ==> state.partial is Nothing
    &&& started(state.partial) matches Some(t) ==> not_before(input, t)
}

/// No event that the decoder can still hand out is earlier than this: the
/// start of the command in progress, or else the first event of the input.
pub open spec fn earliest(state: FlashState, input: Seq<Event<SpiEvent>>) -> Option<Timestamp> {
    match started(state.partial) {
        Some(t) => Some(t),
        None => if input.len() > 0 {
            Some(input[0].0)
        } else {
            None
        },
    }
}

/// An event that `next_command` hands out is not earlier than what was the
/// earliest possible before it, and nothing that can follow is earlier than it.
pub proof fn lemma_next_command_bounds(state: FlashState, input: Seq<Event<SpiEvent>>)
    requires
        ordered(input),
        all_ok(input),
        anchored(state, input),
    ensures
        ({
            let (out, after, rest) = next_command(state, input);
            &&& ordered(rest)
            &&& all_ok(rest)
            &&& anchored(after, rest)
            &&& out matches Some(event) ==> {
                &&& earliest(state, input) matches Some(t) && t <= event.0
                &&& earliest(after, rest) matches Some(t) ==> event.0 <= t
            }
        }),
    decreases input.len(),
{
    if input.len() > 0 {
        let rest = input.subrange(1, input.len() as int);
        let ts = input[0].0;
        assert(input[0].1 is Ok);
        assert forall|i: int, j: int| 0 <= i <= j < rest.len() implies rest[i].0 <= rest[j].0 by {
            assert(rest[i] == input[i + 1] && rest[j] == input[j + 1]);
        }
        assert forall|i: int| 0 <= i < rest.len() implies (#[trigger] rest[i]).1 is Ok by {
            assert(rest[i] == input[i + 1]);
        }
        assert forall|i: int| 0 <= i < rest.len() implies ts <= (#[trigger] rest[i]).0 by {
            assert(rest[i] == input[i + 1]);
        }
        let ev = input[0].1.unwrap();
        let (after, out) = flash_step(state, ts, ev);
        if let Some(t) = started(state.partial) {
            assert(t <= input[0].0);
            assert forall|i: int| 0 <= i < rest.len() implies t <= (#[trigger] rest[i]).0 by {
                assert(rest[i] == input[i + 1]);
            }
        }
        assert(anchored(after, rest));
        if out is None {
            lemma_next_command_bounds(after, rest);
            let (o2, a2, r2) = next_command(after, rest);
            if let Some(event) = o2 {
                if started(state.partial) is None {
                    if started(after.partial) is None {
                        assert(rest.len() > 0);
                        assert(rest[0] == input[1]);
                    }
                }
            }
        } else {
            if rest.len() > 0 {
                assert(rest[0] == input[1]);
            }
        }
    }
}

/// Commands leave the stage in the order of time: where the SPI events come
/// in with timestamps that never decrease and without diagnostics among
/// them, two events handed out one after the other carry timestamps that do
/// not decrease either.
pub proof fn lemma_commands_in_order(state: FlashState, input: Seq<Event<SpiEvent>>)
    requires
        ordered(input),
        all_ok(input),
        anchored(state, input),
    ensures
        ({
            let first = next_command(state, input);
            let second = next_command(first.1, first.2);
            first.0 is Some && second.0 is Some ==> first.0.unwrap().0 <= second.0.unwrap().0
        }),
{
    let first = next_command(state, input);
    lemma_next_command_bounds(state, input);
    lemma_next_command_bounds(first.1, first.2);
}

/// A call of `next` that hands out an event has read at least one event of
/// the input, and what it leaves is what the input held after the events read.
pub proof fn lemma_next_command_progress(state: FlashState, input: Seq<Event<SpiEvent>>)
    ensures
        ({
            let (out, _, rest) = next_command(state, input);
            &&& rest.len() <= input.len()
            &&& out is Some ==> rest.len() < input.len()
            &&& out is None ==> rest.len() == 0
        }),
    decreases input.len(),
{
    if input.len() > 0 {
        if let Ok(ev) = input[0].1 {
            let (after, out) = flash_step(state, input[0].0, ev);
            if out is None {
                lemma_next_command_progress(after, input.subrange(1, input.len() as int));
            }
        }
    }
}

/// All the events that the stage hands out from here on.
pub open spec fn all_commands(state: FlashState, input: Seq<Event<SpiEvent>>) -> Seq<Event<CommandView>>
    decreases input.len(),
{
    let r = next_command(state, input);
    match r.0 {
        Some(e) => if r.2.len() < input.len() {
            seq![e] + all_commands(r.1, r.2)
        } else {
            seq![e]
        },
        None => Seq::empty(),
    }
}

impl EventIterator for Spif {
    type Item = Command;

    open spec fn ready(&self) -> bool {
        true
    }

    open spec fn upcoming(&self) -> Seq<Event<CommandView>> {
        all_commands(self.state(), self.pending())
    }

    fn next(&mut self) -> (r: Option<Event<Command>>) {
        proof {
            lemma_next_command_progress(self.state(), self.pending());
        }
        let r = Spif::next(self);
        proof {
            let before = old(self).upcoming();
            if r is Some {
                assert(before.subrange(1, before.len() as int) =~= self.upcoming());
            }
        }
        r
    }

    fn event_type(&self) -> (r: EventType)
        ensures
            r == EventType::FlashCommand,
    {
        EventType::FlashCommand
    }

    fn event_type_name(&self) -> (r: &'static str)
        ensures
            r@ == "spif::Command"@,
    {
        "spif::Command"
    }
}

/// What the flash stage makes of the stream at the top of a pipeline: the
/// commands of its SPI events, where it holds SPI events.
pub open spec fn flash_output(top: StreamView) -> Result<StreamView, PipelineError> {
    match top {
        StreamView::SpiEvent(events) => Ok(StreamView::FlashCommand(all_commands(
            FlashState { cs: false, idx: 0, partial: PartialView::Nothing },
            events,
        ))),
        other => Err(
            PipelineError::TypeMismatch {
                stage: StageKind::Spif,
                expected: EventType::SpiEvent,
                actual: kind_of(other),
            },
        ),
    }
}

/// Puts the flash stage onto a pipeline: the stage takes the place of the
/// stream of SPI events at the top.
pub fn build(pipeline: &mut Vec<Stream>) -> (r: Result<(), PipelineError>)
    ensures
        build_result(
            old(pipeline)@,
            final(pipeline)@,
            r,
            replaced(
                views(old(pipeline)@),
                StageKind::Spif,
                flash_output(views(old(pipeline)@).last()),
            ),
        ),
{
    if pipeline.len() == 0 {
        return Err(PipelineError::MissingSource(StageKind::Spif));
    }
    let ghost before = views(pipeline@);
    let top = pop_top(pipeline);
    proof {
        assert(views(pipeline@) =~= before.drop_last());
        assert(before.drop_last().push(top@) =~= before);
    }
    match top {
        Stream::SpiEvent(events) => {

            let mut stage = Spif::new(events);
            let out = drain(&mut stage);
            push_top(pipeline, Stream::FlashCommand(out));
            Ok(())
        },
        other => {
            let actual = other.event_type();
            push_top(pipeline, other);
            Err(
                PipelineError::TypeMismatch {
                    stage: StageKind::Spif,
                    expected: EventType::SpiEvent,
                    actual,
                },
            )
        },
    }
}

} // verus!
