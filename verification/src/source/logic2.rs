//! The multi-file digital format: one file of transition times per channel.
//!
//! Each file begins with a common header of 16 bytes and a digital header of
//! 28 bytes. The times after them, 8 bytes each, say when the channel changes
//! level. The source merges the channels into one timeline and lets channels
//! that change within a nanosecond of each other change in one sample.
use vstd::prelude::*;
use vstd::array::array_as_slice;
use vstd::slice::slice_subrange;
use vstd::string::StringSliceAdditionalSpecFns;
use crate::bytes::decimal;
use crate::bytes::ends_with;
use crate::bytes::le32_at;
use crate::bytes::le64_at;
use crate::bytes::matches_at;
use crate::bytes::parse_decimal;
use crate::bytes::read_le32;
use crate::bytes::read_le64;
use crate::bytes::starts_with;
use crate::error::DecodeError;
use crate::error::SourceError;
use crate::pipeline::drain;
use crate::pipeline::Event;
use crate::pipeline::EventIterator;
use crate::pipeline::EventType;
use crate::pipeline::PipelineError;
use crate::pipeline::push_top;
use crate::pipeline::Stream;
use crate::pipeline::stream_view;
use crate::pipeline::StreamView;
use crate::pipeline::views;
use crate::time::Timestamp;
use crate::time::timestamp_from_seconds;
use crate::time::timestamp_of_seconds;
use super::Sample;

verus! {

/// The eight bytes that every file begins with: `<SALEAE>`.
pub open spec fn tag() -> Seq<u8> {
    seq![60u8, 83, 65, 76, 69, 65, 69, 62]
}

/// What a common header of 16 bytes says: the version of the format and the
/// type of the file, both 32 bits with the lowest byte first, after the tag.
pub open spec fn common_header(buf: Seq<u8>) -> Result<(u32, u32), SourceError> {
    if buf.len() != 16 {
        Err(SourceError::IncompleteHeader)
    } else if !starts_with(buf, tag()) {
        Err(SourceError::InvalidPrefix)
    } else {
        Ok((le32_at(buf, 8), le32_at(buf, 12)))
    }
}

/// Reads the common header: version and file type.
pub fn parse_common_header(buf: &[u8]) -> (r: Result<(u32, u32), SourceError>)
    ensures
        r == common_header(buf@),
{
    if buf.len() != 16 {
        return Err(SourceError::IncompleteHeader);
    }
    let magic: [u8; 8] = [60, 83, 65, 76, 69, 65, 69, 62];
    proof {
        assert(magic@ =~= tag());
    }
    if !matches_at(buf, 0, array_as_slice(&magic)) {
        return Err(SourceError::InvalidPrefix);
    }
    let version: u32 = read_le32(buf, 8);
    let file_type: u32 = read_le32(buf, 12);
    Ok((version, file_type))
}

/// What a digital header of 28 bytes says: the initial level of the channel,
/// the times at which the capture begins and ends, and the number of
/// transitions. The two times are 64-bit binary floating-point numbers of
/// seconds, given here by their bits.
pub open spec fn digital_header(buf: Seq<u8>) -> Result<(u32, u64, u64, u64), SourceError> {
    if buf.len() != 28 {
        Err(SourceError::IncompleteHeader)
    } else {
        Ok((le32_at(buf, 0), le64_at(buf, 4), le64_at(buf, 12), le64_at(buf, 20)))
    }
}

/// Reads the digital header: initial state, begin and end time as the bits
/// of floating-point seconds, and the number of transitions.
pub fn parse_digital_header(buf: &[u8]) -> (r: Result<(u32, u64, u64, u64), SourceError>)
    ensures
        r == digital_header(buf@),
{
    if buf.len() != 28 {
        return Err(SourceError::IncompleteHeader);
    }
    let initial_state: u32 = read_le32(buf, 0);
    let begin_time: u64 = read_le64(buf, 4);
    let end_time: u64 = read_le64(buf, 12);
    let num_transitions: u64 = read_le64(buf, 20);
    Ok((initial_state, begin_time, end_time, num_transitions))
}

/// One channel of a capture: its number, its level at the start, and the
/// times at which the level changes.
#[derive(Debug, Clone, PartialEq, Eq)]
pub struct Channel {
    pub id: u32,
    pub initial_state: bool,
    pub transitions: Vec<Timestamp>,
}

/// What a channel is, apart from where its times are stored.
pub struct ChannelView {
    pub id: u32,
    pub initial_state: bool,
    pub transitions: Seq<Timestamp>,
}

impl View for Channel {
    type V = ChannelView;

    open spec fn view(&self) -> ChannelView {
        ChannelView {
            id: self.id,
            initial_state: self.initial_state,
            transitions: self.transitions@,
        }
    }
}

/// The text `digital_`.
pub open spec fn name_prefix() -> Seq<u8> {
    seq![100u8, 105, 103, 105, 116, 97, 108, 95]
}

/// The text `.bin`.
pub open spec fn name_suffix() -> Seq<u8> {
    seq![46u8, 98, 105, 110]
}

/// The channel number in a file name of the form `digital_<number>.bin`.
pub open spec fn channel_of_name(name: Seq<u8>) -> Option<u32> {
    if name.len() >= 12 && starts_with(name, name_prefix()) && ends_with(name, name_suffix()) {
        match decimal(name.subrange(8, name.len() - 4), 0xFFFF_FFFF) {
            Some(v) => Some(v as u32),
            None => None,
        }
    } else {
        None
    }
}

/// Reads the channel number out of a file name.
pub fn channel_id(name: &str) -> (r: Option<u32>)
    ensures
        r == channel_of_name(name.spec_bytes()),
{
    let bytes: &[u8] = name.as_bytes();
    let n: usize = bytes.len();
    if n < 12 {
        return None;
    }
    let prefix: [u8; 8] = [100, 105, 103, 105, 116, 97, 108, 95];
    let suffix: [u8; 4] = [46, 98, 105, 110];
    proof {
        assert(prefix@ =~= name_prefix());
        assert(suffix@ =~= name_suffix());
    }
    if !matches_at(bytes, 0, array_as_slice(&prefix)) {
        return None;
    }
    if !matches_at(bytes, n - 4, array_as_slice(&suffix)) {
        return None;
    }
    match parse_decimal(slice_subrange(bytes, 8, n - 4), 0xFFFF_FFFF) {
        Some(v) => Some(v as u32),
        None => None,
    }
}

/// The time in the `i`-th 8-byte field of `payload`, if it is one that a
/// timestamp can hold.
pub open spec fn time_at(payload: Seq<u8>, i: int) -> Option<Timestamp> {
    timestamp_of_seconds(le64_at(payload, 8 * i))
}

/// Every 8-byte field of `payload` holds a time that a timestamp can hold.
pub open spec fn times_valid(payload: Seq<u8>) -> bool {
    forall|i: int| 0 <= i < payload.len() / 8 ==> (#[trigger] time_at(payload, i)) is Some
}

/// The times in the 8-byte fields of `payload`.
pub open spec fn times_of(payload: Seq<u8>) -> Seq<Timestamp> {
    Seq::new((payload.len() / 8) as nat, |i: int| time_at(payload, i).unwrap())
}

/// The first `n` bytes of `s`, or all of it where it is shorter.
pub open spec fn head(s: Seq<u8>, n: int) -> Seq<u8> {
    if s.len() < n {
        s
    } else {
        s.subrange(0, n)
    }
}

/// What is left of `s` after its first `n` bytes.
pub open spec fn tail(s: Seq<u8>, n: int) -> Seq<u8> {
    if s.len() < n {
        Seq::empty()
    } else {
        s.subrange(n, s.len() as int)
    }
}

/// The channel that a file with the name `name` and the contents `contents`
/// holds.
///
/// The name gives the channel number, which is below 64. The common header
/// says version 0 and file type 0. The digital header says the initial
/// level, which is high where the field is 1. The rest of the file is the
/// transition times, 8 bytes each.
pub open spec fn channel_of_file(name: Seq<u8>, contents: Seq<u8>) -> Result<
    ChannelView,
    SourceError,
> {
    match channel_of_name(name) {
        None => Err(SourceError::InvalidFilename),
        Some(id) => if id >= 64 {
            Err(SourceError::InvalidChannel(id))
        } else {
            match common_header(head(contents, 16)) {
                Err(e) => Err(e),
                Ok((version, file_type)) => if version != 0 {
                    Err(SourceError::UnsupportedVersion(version))
                } else if file_type != 0 {
                    Err(SourceError::UnexpectedFileType(file_type))
                } else {
                    match digital_header(head(tail(contents, 16), 28)) {
                        Err(e) => Err(e),
                        Ok((initial_state, _, _, _)) => {
                            let payload = tail(contents, 44);
                            if payload.len() % 8 != 0 {
                                Err(SourceError::Corrupted)
                            } else if !times_valid(payload) {
                                Err(SourceError::InvalidTime)
                            } else {
                                Ok(
                                    ChannelView {
                                        id,
                                        initial_state: initial_state == 1,
                                        transitions: times_of(payload),
                                    },
                                )
                            }
                        },
                    }
                },
            }
        },
    }
}

/// The view of a channel that was read, or why it was not.
pub open spec fn channel_view(r: Result<Channel, SourceError>) -> Result<ChannelView, SourceError> {
    match r {
        Ok(c) => Ok(c@),
        Err(e) => Err(e),
    }
}

impl Channel {
    /// Reads one channel from the name and the contents of its file.
    #[verifier::loop_isolation(false)]
    pub fn parse(name: &str, contents: &[u8]) -> (r: Result<Channel, SourceError>)
        ensures
            channel_view(r) == channel_of_file(name.spec_bytes(), contents@),
            r is Ok ==> r.unwrap().id < 64,
    {
        let id: u32 = match channel_id(name) {
            Some(id) => id,
            None => {
                return Err(SourceError::InvalidFilename);
            },
        };
        if id >= 64 {
            return Err(SourceError::InvalidChannel(id));
        }
        let n: usize = contents.len();
        let first: &[u8] = if n < 16 {
            contents
        } else {
            slice_subrange(contents, 0, 16)
        };
        match parse_common_header(first) {
            Err(e) => {
                return Err(e);
            },
            Ok((version, file_type)) => {
                if version != 0 {
                    return Err(SourceError::UnsupportedVersion(version));
                }
                if file_type != 0 {
                    return Err(SourceError::UnexpectedFileType(file_type));
                }
            },
        }
        let after: &[u8] = slice_subrange(contents, 16, n);
        let second: &[u8] = if after.len() < 28 {
            after
        } else {
            slice_subrange(after, 0, 28)
        };
        let initial_state: u32 = match parse_digital_header(second) {
            Err(e) => {
                return Err(e);
            },
            Ok(header) => header.0,
        };
        let payload: &[u8] = slice_subrange(contents, 44, n);
        proof {
            assert(payload@ =~= tail(contents@, 44));
        }
        if payload.len() % 8 != 0 {
            return Err(SourceError::Corrupted);
        }
        let count: usize = payload.len() / 8;
        let mut transitions: Vec<Timestamp> = Vec::new();
        let mut i: usize = 0;
        while i < count
            invariant
                i <= count,
                count == payload@.len() / 8,
                payload@.len() <= usize::MAX,
                forall|k: int| 0 <= k < i ==> (#[trigger] time_at(payload@, k)) is Some,
                transitions@.len() == i,
                forall|k: int| 0 <= k < i ==> transitions@[k] == time_at(payload@, k).unwrap(),
            decreases count - i,
        {
            match timestamp_from_seconds(read_le64(payload, 8 * i)) {
                Some(t) => {
                    transitions.push(t);
                },
                None => {
                    proof {
                        assert(time_at(payload@, i as int) is None);
                    }
                    return Err(SourceError::InvalidTime);
                },
            }
            i = i + 1;
        }
        proof {
            assert(transitions@ =~= times_of(payload@));
        }
        Ok(Channel { id, initial_state: initial_state == 1, transitions })
    }
}

/// Transitions that lie less than this apart, a nanosecond, become one sample.
pub const COALESCE_WINDOW: i64 = 1000;

/// A transition: the channel that changes, and when.
pub type Transition = (u32, Timestamp);

/// The times of `s` never decrease.
pub open spec fn in_time_order(s: Seq<Transition>) -> bool {
    forall|i: int, j: int| 0 <= i <= j < s.len() ==> s[i].1 <= s[j].1
}

/// The transitions of each of the channels in `v`.
pub open spec fn lanes_of(v: Seq<Vec<Transition>>) -> Seq<Seq<Transition>> {
    Seq::new(v.len(), |i: int| v[i]@)
}

/// Whether `a` comes before `b` in time.
pub fn earlier(a: &Transition, b: &Transition) -> (r: bool)
    ensures
        r == (a.1 < b.1),
{
    a.1 < b.1
}

/// The one timeline that `itertools::kmerge_by` makes of the transitions of
/// several channels, with `earlier` as its order.
pub uninterp spec fn kmerge_by_time(lanes: Seq<Seq<Transition>>) -> Seq<Transition>;

/// `itertools::kmerge_by`, with `earlier` as the order, gathered into a
/// vector. What comes out depends on the transitions alone, and is what
/// `kmerge_by_time` names. It holds every transition that went in, as often
/// as it went in. Where the transitions of every channel are in the order of
/// time, so is what comes out.
#[verifier::external_body]
fn merge_by_time(lanes: Vec<Vec<Transition>>) -> (r: Vec<Transition>)
    ensures
        r@ == kmerge_by_time(lanes_of(lanes@)),
        r@.to_multiset() == lanes_of(lanes@).flatten().to_multiset(),
        (forall|c: int| 0 <= c < lanes@.len() ==> in_time_order(#[trigger] lanes_of(lanes@)[c]))
            ==> in_time_order(r@),
{
    itertools::kmerge_by(lanes, |a: &Transition, b: &Transition| earlier(a, b)).collect()
}

/// The bit of a channel in a sample.
pub open spec fn channel_bit(id: u32) -> u64 {
    1u64 << id
}

/// Where the group of transitions that begins at `start` ends, and the bits
/// of the channels in it, with the transitions before `i` looked at already
/// and `mask` gathered from them.
///
/// A transition joins the group if its channel is not in it yet and its time
/// is less than a nanosecond after that of the first. One that is earlier
/// than the first is an error, and so is one of a channel that a sample has
/// no bit for.
pub open spec fn scan_group(merged: Seq<Transition>, start: int, i: int, mask: u64) -> Result<
    (int, u64),
    SourceError,
>
    decreases merged.len() - i,
{
    if i >= merged.len() || i < 0 {
        Ok((i, mask))
    } else {
        let bit = channel_bit(merged[i].0);
        if merged[i].0 >= 64 {
            Err(SourceError::InvalidChannel(merged[i].0))
        } else if merged[i].1 < merged[start].1 {
            Err(SourceError::OutOfOrder)
        } else if (mask & bit) != bit && merged[i].1 - merged[start].1 < COALESCE_WINDOW {
            scan_group(merged, start, i + 1, mask | bit)
        } else {
            Ok((i, mask))
        }
    }
}

/// Samples already made, followed by what the rest of the timeline gives.
pub open spec fn then(done: Seq<(Timestamp, u64)>, more: Result<Seq<(Timestamp, u64)>, SourceError>)
    -> Result<Seq<(Timestamp, u64)>, SourceError> {
    match more {
        Ok(items) => Ok(done + items),
        Err(e) => Err(e),
    }
}

/// The samples that the transitions from `start` on make, beginning in `state`.
///
/// Each group of transitions gives one sample, at the time of the first
/// transition of the group; in it every channel of the group has changed level.
pub open spec fn coalesce_from(merged: Seq<Transition>, start: int, state: u64) -> Result<
    Seq<(Timestamp, u64)>,
    SourceError,
>
    decreases merged.len() - start,
{
    if start >= merged.len() || start < 0 {
        Ok(Seq::empty())
    } else {
        match scan_group(merged, start, start, 0) {
            Err(e) => Err(e),
            Ok((end, mask)) => if start < end <= merged.len() {
                then(
                    seq![(merged[start].1, state ^ mask)],
                    coalesce_from(merged, end, state ^ mask),
                )
            } else {
                Err(SourceError::OutOfOrder)
            },
        }
    }
}

/// Turns a timeline of transitions into samples, beginning in the state
/// `initial`: transitions of different channels that lie within a nanosecond
/// of the first of them change level in one sample.
#[verifier::loop_isolation(false)]
pub fn coalesce(merged: &Vec<Transition>, initial: u64) -> (r: Result<
    Vec<(Timestamp, u64)>,
    SourceError,
>)
    ensures
        match coalesce_from(merged@, 0, initial) {
            Ok(samples) => r is Ok && r.unwrap()@ == samples,
            Err(e) => r == Err::<Vec<(Timestamp, u64)>, SourceError>(e),
        },
{
    let n: usize = merged.len();
    let mut out: Vec<(Timestamp, u64)> = Vec::new();
    let mut state: u64 = initial;
    let mut start: usize = 0;
    while start < n
        invariant
            start <= n,
            n == merged@.len(),
            then(out@, coalesce_from(merged@, start as int, state)) == coalesce_from(
                merged@,
                0,
                initial,
            ),
        decreases n - start,
    {
        let first: Timestamp = merged[start].1;
        let mut mask: u64 = 0;
        let mut i: usize = start;
        let mut open: bool = true;
        while open && i < n
            invariant
                start <= i <= n,
                i == start ==> mask == 0 && open,
                open ==> scan_group(merged@, start as int, i as int, mask) == scan_group(
                    merged@,
                    start as int,
                    start as int,
                    0,
                ),
                !open ==> scan_group(merged@, start as int, start as int, 0) == Ok::<
                    (int, u64),
                    SourceError,
                >((i as int, mask)),
            decreases n - i + if open { 1int } else { 0int },
        {
            let (id, ts) = merged[i];
            if id >= 64 {
                return Err(SourceError::InvalidChannel(id));
            }
            let bit: u64 = 1u64 << id;
            assert((0u64 & bit) != bit) by (bit_vector)
                requires
                    bit == 1u64 << id,
                    id < 64,
            ;
            if ts < first {
                return Err(SourceError::OutOfOrder);
            }
            if (mask & bit) != bit && (ts as i128) - (first as i128) < (COALESCE_WINDOW as i128) {
                mask = mask | bit;
                i = i + 1;
            } else {
                open = false;
            }
        }
        proof {
            let more = coalesce_from(merged@, i as int, state ^ mask);
            if let Ok(items) = more {
                assert(out@.push((first, state ^ mask)) + items =~= out@ + (seq![
                    (first, state ^ mask),
                ] + items));
            }
        }
        state = state ^ mask;
        out.push((first, state));
        start = i;
    }
    proof {
        assert(out@ + Seq::<(Timestamp, u64)>::empty() =~= out@);
    }
    Ok(out)
}

/// The views of a list of channels.
pub open spec fn channel_views(v: Seq<Channel>) -> Seq<ChannelView> {
    Seq::new(v.len(), |i: int| v[i]@)
}

/// The number of the first channel that a sample has no bit for, if there is one.
pub open spec fn first_invalid(channels: Seq<ChannelView>) -> Option<u32>
    decreases channels.len(),
{
    if channels.len() == 0 {
        None
    } else {
        match first_invalid(channels.drop_last()) {
            Some(id) => Some(id),
            None => if channels.last().id >= 64 {
                Some(channels.last().id)
            } else {
                None
            },
        }
    }
}

/// The sample at the start of the capture: the bit of every channel that
/// begins high.
pub open spec fn initial_state_of(channels: Seq<ChannelView>) -> u64
    decreases channels.len(),
{
    if channels.len() == 0 {
        0
    } else {
        initial_state_of(channels.drop_last()) | if channels.last().initial_state {
            channel_bit(channels.last().id)
        } else {
            0
        }
    }
}

/// Some channel holds a transition.
pub open spec fn has_sample(channels: Seq<ChannelView>) -> bool {
    exists|c: int| 0 <= c < channels.len() && (#[trigger] channels[c]).transitions.len() > 0
}

/// The transitions of a channel, each with the number of the channel.
pub open spec fn labelled(channel: ChannelView) -> Seq<Transition> {
    Seq::new(channel.transitions.len(), |i: int| (channel.id, channel.transitions[i]))
}

/// The transitions of each channel, each with the number of its channel.
pub open spec fn lanes_of_channels(channels: Seq<ChannelView>) -> Seq<Seq<Transition>> {
    Seq::new(channels.len(), |c: int| labelled(channels[c]))
}

/// The samples of a capture with the channels `channels`.
///
/// The first sample, at time zero, is the initial state. The others come
/// from the transitions of all channels, merged into one timeline and
/// gathered into groups. A capture without any transition has no samples.
pub open spec fn samples_of(channels: Seq<ChannelView>) -> Result<
    Seq<(Timestamp, u64)>,
    SourceError,
> {
    match first_invalid(channels) {
        Some(id) => Err(SourceError::InvalidChannel(id)),
        None => if !has_sample(channels) {
            Err(SourceError::NoSample)
        } else {
            then(
                seq![(0i64, initial_state_of(channels))],
                coalesce_from(
                    kmerge_by_time(lanes_of_channels(channels)),
                    0,
                    initial_state_of(channels),
                ),
            )
        },
    }
}

/// The channels that a list of files holds, each file given by its name and
/// its contents, or what is wrong with the first file that is not a channel.
pub open spec fn channels_of_files(files: Seq<(String, Vec<u8>)>) -> Result<
    Seq<ChannelView>,
    SourceError,
>
    decreases files.len(),
{
    if files.len() == 0 {
        Ok(Seq::empty())
    } else {
        match channels_of_files(files.drop_last()) {
            Err(e) => Err(e),
            Ok(channels) => match channel_of_file(
                vstd::utf8::encode_utf8(files.last().0@),
                files.last().1@,
            ) {
                Err(e) => Err(e),
                Ok(channel) => Ok(channels.push(channel)),
            },
        }
    }
}

/// Files that give samples: every file is a channel, some channel holds a
/// transition, and the transitions of every channel are in the order of time.
pub open spec fn files_readable(files: Seq<(String, Vec<u8>)>) -> bool {
    channels_of_files(files) matches Ok(channels) && has_sample(channels) && channels_ascending(
        channels,
    )
}

/// Files whose channels have their transitions in the order of time, none
/// of them before the start of the capture.
pub open spec fn files_in_order(files: Seq<(String, Vec<u8>)>) -> bool {
    channels_of_files(files) matches Ok(channels) && channels_in_order(channels)
}

/// Files in whose channels no channel changes twice within a nanosecond, and
/// no two of which are the same channel.
pub open spec fn files_spaced(files: Seq<(String, Vec<u8>)>) -> bool {
    channels_of_files(files) matches Ok(channels) && channels_spaced(channels)
        && channels_distinct(channels)
}

/// The samples of the capture that a list of files holds.
pub open spec fn samples_of_files(files: Seq<(String, Vec<u8>)>) -> Result<
    Seq<(Timestamp, u64)>,
    SourceError,
> {
    match channels_of_files(files) {
        Err(e) => Err(e),
        Ok(channels) => samples_of(channels),
    }
}

/// The source of a multi-file capture: all its samples, and how many of
/// them were handed out.
pub struct LogicData {
    transitions: Vec<(Timestamp, u64)>,
    rptr: usize,
}

/// The samples of a source that was made, or why it was not.
pub open spec fn source_view(r: Result<LogicData, SourceError>) -> Result<
    Seq<(Timestamp, u64)>,
    SourceError,
> {
    match r {
        Ok(d) => Ok(d.remaining()),
        Err(e) => Err(e),
    }
}

impl LogicData {
    /// The samples that no call of `next` has handed out yet.
    pub closed spec fn remaining(&self) -> Seq<(Timestamp, u64)> {
        if self.rptr <= self.transitions@.len() {
            self.transitions@.subrange(self.rptr as int, self.transitions@.len() as int)
        } else {
            Seq::empty()
        }
    }

    /// Makes the source of the capture whose files are given by name and contents.
    pub fn new(files: &Vec<(String, Vec<u8>)>) -> (r: Result<Self, SourceError>)
        ensures
            source_view(r) == samples_of_files(files@),
            files_readable(files@) ==> r is Ok,
            files_in_order(files@) && r is Ok ==> samples_in_order(r.unwrap().remaining()),
            r is Ok ==> samples_differ(r.unwrap().remaining()),
            files_spaced(files@) && r is Ok ==> samples_follow_channels(
                channels_of_files(files@).unwrap(),
                r.unwrap().remaining(),
            ),
    {
        new_parser(files)
    }

    /// Makes the source of a capture from its channels: computes the initial
    /// state, merges the transitions of all channels by time, and gathers
    /// them into samples.
    #[verifier::loop_isolation(false)]
    pub fn parse_data(channels: Vec<Channel>) -> (r: Result<Self, SourceError>)
        ensures
            source_view(r) == samples_of(channel_views(channels@)),
            readable(channel_views(channels@)) ==> r is Ok,
            channels_in_order(channel_views(channels@)) && r is Ok ==> samples_in_order(
                r.unwrap().remaining(),
            ),
            r is Ok ==> samples_differ(r.unwrap().remaining()),
            channels_spaced(channel_views(channels@)) && channels_distinct(
                channel_views(channels@),
            ) && r is Ok ==> samples_follow_channels(
                channel_views(channels@),
                r.unwrap().remaining(),
            ),
    {
        let ghost views = channel_views(channels@);
        let mut current_state: u64 = 0;
        let mut found: bool = false;
        let mut lanes: Vec<Vec<Transition>> = Vec::new();
        let mut c: usize = 0;
        while c < channels.len()
            invariant
                c <= channels@.len(),
                first_invalid(views.take(c as int)) is None,
                current_state == initial_state_of(views.take(c as int)),
                found == has_sample(views.take(c as int)),
                lanes_of(lanes@) == lanes_of_channels(views.take(c as int)),
            decreases channels@.len() - c,
        {
            let channel: &Channel = &channels[c];
            proof {
                assert(views.take(c + 1).drop_last() =~= views.take(c as int));
                assert(views.take(c + 1).last() == channel@);
            }
            if channel.id >= 64 {
                proof {
                    lemma_first_invalid_prefix(views, c + 1);
                }
                return Err(SourceError::InvalidChannel(channel.id));
            }
            if channel.initial_state {
                current_state = current_state | (1u64 << channel.id);
            } else {
                assert(current_state | 0 == current_state) by (bit_vector);
            }
            let mut lane: Vec<Transition> = Vec::new();
            let mut i: usize = 0;
            while i < channel.transitions.len()
                invariant
                    i <= channel.transitions@.len(),
                    lane@ == labelled(channel@).take(i as int),
                decreases channel.transitions@.len() - i,
            {
                lane.push((channel.id, channel.transitions[i]));
                proof {
                    assert(lane@ =~= labelled(channel@).take(i + 1));
                }
                i = i + 1;
            }
            proof {
                assert(lane@ =~= labelled(channel@));
                assert forall|k: int| 0 <= k <= c implies lanes_of(lanes@.push(lane))[k]
                    == lanes_of_channels(views.take(c + 1))[k] by {
                    if k < c {
                        assert(lanes_of(lanes@)[k] == lanes_of_channels(views.take(c as int))[k]);
                    }
                }
                assert(lanes_of(lanes@.push(lane)) =~= lanes_of_channels(views.take(c + 1)));
                let shorter = views.take(c as int);
                let longer = views.take(c + 1);
                if has_sample(shorter) {
                    let w = choose|w: int|
                        0 <= w < shorter.len() && (#[trigger] shorter[w]).transitions.len() > 0;
                    assert(longer[w] == shorter[w]);
                }
                if has_sample(longer) && !has_sample(shorter) {
                    let w = choose|w: int|
                        0 <= w < longer.len() && (#[trigger] longer[w]).transitions.len() > 0;
                    if w < c {
                        assert(shorter[w] == longer[w]);
                    }
                }
                if channel.transitions@.len() > 0 {
                    assert(longer[c as int].transitions.len() > 0);
                }
            }
            if channel.transitions.len() > 0 {
                found = true;
            }
            lanes.push(lane);
            c = c + 1;
        }
        proof {
            assert(views.take(channels@.len() as int) =~= views);
        }
        if !found {
            return Err(SourceError::NoSample);
        }
        let ghost all_lanes = lanes_of(lanes@);
        let merged: Vec<Transition> = merge_by_time(lanes);
        proof {
            if channels_spaced(views) {
                lemma_spaced_ascending(views);
            }
            if channels_ascending(views) {
                assert forall|c: int| 0 <= c < all_lanes.len() implies in_time_order(
                    #[trigger] all_lanes[c],
                ) by {
                    assert(all_lanes[c] == labelled(views[c]));
                }
                assert forall|i: int| 0 <= i < merged@.len() implies (#[trigger] merged@[i]).0
                    < 64 by {
                    lemma_merged_from_lanes(all_lanes, merged@, i);
                    let (c, k) = choose|c: int, k: int|
                        0 <= c < all_lanes.len() && 0 <= k < all_lanes[c].len()
                            && all_lanes[c][k] == merged@[i];
                    assert(all_lanes[c] == labelled(views[c]));
                    lemma_ids_in_range(views, c);
                }
                lemma_coalesce_ok(merged@, 0, current_state);
                if channels_spaced(views) && channels_distinct(views) {
                    lemma_capture_follows_channels(views, merged@);
                }
            }
            lemma_coalesce_differ(merged@, 0, current_state);
        }
        match coalesce(&merged, current_state) {
            Err(e) => Err(e),
            Ok(samples) => {
                let mut transitions: Vec<(Timestamp, u64)> = Vec::new();
                transitions.push((0, current_state));
                let mut samples = samples;
                let ghost rest = samples@;
                transitions.append(&mut samples);
                proof {
                    assert(transitions@ =~= seq![(0i64, current_state)] + rest);
                    assert(transitions@.subrange(0, transitions@.len() as int) =~= transitions@);
                    assert forall|k: int| 0 < k < transitions@.len() implies (
                    #[trigger] transitions@[k]).1 != transitions@[k - 1].1 by {
                        assert(transitions@[k] == rest[k - 1]);
                        if k > 1 {
                            assert(transitions@[k - 1] == rest[k - 2]);
                        }
                    }
                    if channels_in_order(views) {
                        lemma_coalesce_in_order(merged@, 0, current_state);
                        if rest.len() > 0 {
                            lemma_merged_from_lanes(all_lanes, merged@, 0);
                            let (c, k) = choose|c: int, k: int|
                                0 <= c < all_lanes.len() && 0 <= k < all_lanes[c].len()
                                    && all_lanes[c][k] == merged@[0];
                            assert(all_lanes[c] == labelled(views[c]));
                            assert(views[c].transitions[k] >= 0);
                        }
                        assert forall|i: int, j: int|
                            0 <= i <= j < transitions@.len() implies transitions@[i].0
                            <= transitions@[j].0 by {
                            if i > 0 {
                                assert(transitions@[i] == rest[i - 1] && transitions@[j] == rest[j
                                    - 1]);
                            } else if j > 0 {
                                assert(transitions@[j] == rest[j - 1]);
                            }
                        }
                    }
                }
                Ok(LogicData { transitions, rptr: 0 })
            },
        }
    }

    /// Hands out the next sample with its time; `None` once all were handed out.
    pub fn next(&mut self) -> (r: Option<Event<Sample>>)
        ensures
            old(self).remaining().len() == 0 ==> r is None && final(self).remaining()
                == old(self).remaining(),
            old(self).remaining().len() > 0 ==> r == Some(
                (
                    old(self).remaining()[0].0,
                    Ok::<Sample, DecodeError>(Sample(old(self).remaining()[0].1)),
                ),
            ) && final(self).remaining() == old(self).remaining().subrange(
                1,
                old(self).remaining().len() as int,
            ),
    {
        if self.rptr >= self.transitions.len() {
            return None;
        }
        let (ts, sample) = self.transitions[self.rptr];
        self.rptr = self.rptr + 1;
        proof {
            assert(self.remaining() =~= old(self).remaining().subrange(
                1,
                old(self).remaining().len() as int,
            ));
        }
        Some((ts, Ok(Sample(sample))))
    }
}

/// A channel without a bit that shows up among the first channels shows up
/// among all of them.
pub proof fn lemma_first_invalid_prefix(channels: Seq<ChannelView>, n: int)
    requires
        0 <= n <= channels.len(),
        first_invalid(channels.take(n)) is Some,
    ensures
        first_invalid(channels) == first_invalid(channels.take(n)),
    decreases channels.len() - n,
{
    if n < channels.len() {
        assert(channels.take(n + 1).drop_last() =~= channels.take(n));
        lemma_first_invalid_prefix(channels, n + 1);
    } else {
        assert(channels.take(n) =~= channels);
    }
}

/// Makes the source of the capture whose files are given by name and
/// contents: reads every file as a channel, then makes the samples.
pub fn new_parser(files: &Vec<(String, Vec<u8>)>) -> (r: Result<LogicData, SourceError>)
    ensures
        source_view(r) == samples_of_files(files@),
        files_readable(files@) ==> r is Ok,
        files_in_order(files@) && r is Ok ==> samples_in_order(r.unwrap().remaining()),
        r is Ok ==> samples_differ(r.unwrap().remaining()),
        files_spaced(files@) && r is Ok ==> samples_follow_channels(
            channels_of_files(files@).unwrap(),
            r.unwrap().remaining(),
        ),
{
    let mut channels: Vec<Channel> = Vec::new();
    let mut i: usize = 0;
    proof {
        assert(channel_views(channels@) =~= Seq::<ChannelView>::empty());
    }
    while i < files.len()
        invariant
            i <= files@.len(),
            channels_of_files(files@.take(i as int)) == Ok::<Seq<ChannelView>, SourceError>(
                channel_views(channels@),
            ),
            forall|k: int| 0 <= k < channels@.len() ==> (#[trigger] channels@[k]).id < 64,
        decreases files@.len() - i,
    {
        proof {
            assert(files@.take(i + 1).drop_last() =~= files@.take(i as int));
        }
        match Channel::parse(files[i].0.as_str(), files[i].1.as_slice()) {
            Err(e) => {
                proof {
                    lemma_files_prefix_error(files@, i + 1);
                }
                return Err(e);
            },
            Ok(channel) => {
                proof {
                    assert(channel_views(channels@.push(channel)) =~= channel_views(
                        channels@,
                    ).push(channel@));
                }
                channels.push(channel);
            },
        }
        i = i + 1;
    }
    proof {
        assert(files@.take(files@.len() as int) =~= files@);
        let views = channel_views(channels@);
        assert forall|c: int| 0 <= c < views.len() implies (#[trigger] views[c]).id < 64 by {
            assert(views[c] == channels@[c]@);
        }
        lemma_none_invalid(views);
    }
    LogicData::parse_data(channels)
}

/// A file that is no channel among the first files is the first such file
/// among all of them.
pub proof fn lemma_files_prefix_error(files: Seq<(String, Vec<u8>)>, n: int)
    requires
        0 <= n <= files.len(),
        channels_of_files(files.take(n)) is Err,
    ensures
        channels_of_files(files) == channels_of_files(files.take(n)),
    decreases files.len() - n,
{
    if n < files.len() {
        assert(files.take(n + 1).drop_last() =~= files.take(n));
        lemma_files_prefix_error(files, n + 1);
    } else {
        assert(files.take(n) =~= files);
    }
}

/// The times of the samples never decrease.
pub open spec fn samples_in_order(s: Seq<(Timestamp, u64)>) -> bool {
    forall|i: int, j: int| 0 <= i <= j < s.len() ==> s[i].0 <= s[j].0
}

/// Samples come out of a timeline in the order of time: where the times of
/// the transitions never decrease, neither do those of the samples, and none
/// of the samples is earlier than the transition that they start from.
pub proof fn lemma_coalesce_in_order(merged: Seq<Transition>, start: int, state: u64)
    requires
        in_time_order(merged),
        0 <= start <= merged.len(),
    ensures
        coalesce_from(merged, start, state) matches Ok(out) ==> samples_in_order(out) && forall|
            i: int,
        |
            0 <= i < out.len() ==> start < merged.len() && merged[start].1 <= (#[trigger] out[i]).0,
    decreases merged.len() - start,
{
    if start < merged.len() {
        if let Ok((end, mask)) = scan_group(merged, start, start, 0) {
            if start < end <= merged.len() {
                lemma_coalesce_in_order(merged, end, state ^ mask);
                if let Ok(rest) = coalesce_from(merged, end, state ^ mask) {
                    let out = seq![(merged[start].1, state ^ mask)] + rest;
                    assert forall|i: int| 0 <= i < out.len() implies merged[start].1 <= (
                    #[trigger] out[i]).0 by {
                        if i > 0 {
                            assert(out[i] == rest[i - 1]);
                        }
                    }
                    assert forall|i: int, j: int| 0 <= i <= j < out.len() implies out[i].0
                        <= out[j].0 by {
                        if i > 0 {
                            assert(out[i] == rest[i - 1] && out[j] == rest[j - 1]);
                        } else if j > 0 {
                            assert(out[j] == rest[j - 1]);
                        }
                    }
                }
            }
        }
    }
}

/// No channel changes twice within a nanosecond.
pub open spec fn spaced(merged: Seq<Transition>) -> bool {
    forall|i: int, j: int|
        0 <= i < j < merged.len() && (#[trigger] merged[i]).0 == (#[trigger] merged[j]).0
            ==> merged[j].1 - merged[i].1 >= COALESCE_WINDOW
}

/// Every transition is one of a channel below 64.
pub open spec fn channels_in_range(merged: Seq<Transition>) -> bool {
    forall|i: int| 0 <= i < merged.len() ==> (#[trigger] merged[i]).0 < 64
}

/// Whether the bit of `channel` is set in `mask`.
pub open spec fn toggles(mask: u64, channel: u32) -> bool {
    mask & channel_bit(channel) == channel_bit(channel)
}

/// Whether `channel` changes between the places `from` and `to` of the timeline.
pub open spec fn changes_between(merged: Seq<Transition>, from: int, to: int, channel: u32) -> bool {
    exists|k: int| from <= k < to && 0 <= k < merged.len() && (#[trigger] merged[k]).0 == channel
}

/// Whether `channel` changes at `t` or less than a nanosecond after it.
pub open spec fn changes_within(merged: Seq<Transition>, t: Timestamp, channel: u32) -> bool {
    exists|k: int|
        0 <= k < merged.len() && (#[trigger] merged[k]).0 == channel && t <= merged[k].1 < t
            + COALESCE_WINDOW
}

/// The bit of a channel joins a mask without touching the bits of the others.
pub proof fn lemma_toggles_joined(mask: u64, a: u32, b: u32)
    requires
        a < 64,
        b < 64,
    ensures
        toggles(mask | channel_bit(a), b) == (toggles(mask, b) || a == b),
        !toggles(0, b),
{
    assert(((mask | (1u64 << a)) & (1u64 << b) == (1u64 << b)) == ((mask & (1u64 << b) == (1u64
        << b)) || a == b)) by (bit_vector)
        requires
            a < 64,
            b < 64,
    ;
    assert((0u64 & (1u64 << b)) != (1u64 << b)) by (bit_vector)
        requires
            b < 64,
    ;
}

/// A group gathers the transitions from its first on for as long as they
/// lie within a nanosecond of the first.
pub proof fn lemma_scan_group_window(merged: Seq<Transition>, start: int, i: int, mask: u64)
    requires
        in_time_order(merged),
        spaced(merged),
        channels_in_range(merged),
        0 <= start < merged.len(),
        start <= i <= merged.len(),
        forall|k: int| start <= k < i ==> (#[trigger] merged[k]).1 - merged[start].1 < COALESCE_WINDOW,
        forall|c: u32| c < 64 ==> (toggles(mask, c) <==> changes_between(merged, start, i, c)),
    ensures
        scan_group(merged, start, i, mask) matches Ok((end, m)) && {
            &&& i <= end <= merged.len()
            &&& forall|k: int|
                start <= k < end ==> (#[trigger] merged[k]).1 - merged[start].1 < COALESCE_WINDOW
            &&& end < merged.len() ==> merged[end].1 - merged[start].1 >= COALESCE_WINDOW
            &&& forall|c: u32| c < 64 ==> (toggles(m, c) <==> changes_between(merged, start, end, c))
        },
    decreases merged.len() - i,
{
    if i < merged.len() {
        let id = merged[i].0;
        let bit = channel_bit(id);
        assert(merged[start].1 <= merged[i].1);
        if merged[i].1 - merged[start].1 < COALESCE_WINDOW {
            if toggles(mask, id) {
                let k = choose|k: int|
                    start <= k < i && 0 <= k < merged.len() && (#[trigger] merged[k]).0 == id;
                assert(merged[start].1 <= merged[k].1);
                assert(merged[i].1 - merged[k].1 >= COALESCE_WINDOW);
            }
            let joined = mask | bit;
            assert forall|c: u32| c < 64 implies (toggles(joined, c) <==> changes_between(
                merged,
                start,
                i + 1,
                c,
            )) by {
                lemma_toggles_joined(mask, id, c);
                if changes_between(merged, start, i + 1, c) {
                    let k = choose|k: int|
                        start <= k < i + 1 && 0 <= k < merged.len() && (#[trigger] merged[k]).0
                            == c;
                    if k < i {
                        assert(changes_between(merged, start, i, c));
                    }
                }
                if changes_between(merged, start, i, c) {
                    let k = choose|k: int|
                        start <= k < i && 0 <= k < merged.len() && (#[trigger] merged[k]).0 == c;
                    assert(start <= k < i + 1 && merged[k].0 == c);
                }
                if id == c {
                    assert(start <= i < i + 1 && merged[i].0 == c);
                }
            }
            lemma_scan_group_window(merged, start, i + 1, joined);
        }
    }
}

/// The bits that change in a sample are those of the channels that change
/// within a nanosecond of the time of the sample.
///
/// This holds of the group that begins at the place `start` of a timeline in
/// which time never goes back and no channel changes twice within a
/// nanosecond, where `start` is the first place of its time: the group ends
/// with the timeline or a nanosecond or more after it began, so that the next
/// group begins at the first place of its time too, every transition of the
/// group lies less than a nanosecond after the first, and its mask has the
/// bit of a channel if and only if the channel changes at the time of the
/// group or less than a nanosecond after it.
pub proof fn lemma_group_is_window(merged: Seq<Transition>, start: int)
    requires
        in_time_order(merged),
        spaced(merged),
        channels_in_range(merged),
        0 <= start < merged.len(),
        start == 0 || merged[start - 1].1 < merged[start].1,
    ensures
        scan_group(merged, start, start, 0) matches Ok((end, mask)) && {
            &&& start < end <= merged.len()
            &&& end < merged.len() ==> merged[end - 1].1 < merged[end].1
            &&& end < merged.len() ==> merged[end].1 - merged[start].1 >= COALESCE_WINDOW
            &&& forall|k: int|
                start <= k < end ==> (#[trigger] merged[k]).1 - merged[start].1 < COALESCE_WINDOW
            &&& forall|c: u32|
                c < 64 ==> (toggles(mask, c) <==> changes_within(merged, merged[start].1, c))
        },
{
    assert forall|c: u32| c < 64 implies (toggles(0, c) <==> changes_between(
        merged,
        start,
        start,
        c,
    )) by {
        lemma_toggles_joined(0, c, c);
    }
    lemma_scan_group_window(merged, start, start, 0);
    let (end, mask) = scan_group(merged, start, start, 0).unwrap();
    assert(end > start) by {
        if end == start {
            assert(merged[end].1 - merged[start].1 >= COALESCE_WINDOW);
        }
    }
    let t = merged[start].1;
    assert forall|c: u32| c < 64 implies (toggles(mask, c) <==> changes_within(merged, t, c)) by {
        if changes_between(merged, start, end, c) {
            let k = choose|k: int|
                start <= k < end && 0 <= k < merged.len() && (#[trigger] merged[k]).0 == c;
            assert(t <= merged[k].1);
            assert(merged[k].0 == c && t <= merged[k].1 < t + COALESCE_WINDOW);
        }
        if changes_within(merged, t, c) {
            let k = choose|k: int|
                0 <= k < merged.len() && (#[trigger] merged[k]).0 == c && t <= merged[k].1 < t
                    + COALESCE_WINDOW;
            if k < start {
                assert(merged[k].1 <= merged[start - 1].1);
            }
            if k >= end {
                assert(merged[end].1 <= merged[k].1);
            }
            assert(start <= k < end);
        }
    }
    if end < merged.len() {
        assert(merged[end - 1].1 - merged[start].1 < COALESCE_WINDOW);
    }
}

/// The bits in which the `k`-th sample differs from the sample before it;
/// the sample before the first is `state`.
pub open spec fn changed_bits(out: Seq<(Timestamp, u64)>, state: u64, k: int) -> u64 {
    out[k].1 ^ if k == 0 {
        state
    } else {
        out[k - 1].1
    }
}

/// The bits that change in the `k`-th sample are those of the channels that
/// change at the time of the sample or less than a nanosecond after it.
pub open spec fn sample_is_window(
    merged: Seq<Transition>,
    out: Seq<(Timestamp, u64)>,
    state: u64,
    k: int,
) -> bool {
    forall|c: u32|
        c < 64 ==> (toggles(changed_bits(out, state, k), c) <==> changes_within(
            merged,
            out[k].0,
            c,
        ))
}

/// In every sample of a capture, the bits that change are those of the
/// channels that change within a nanosecond of the time of the sample.
///
/// This holds of the samples that a timeline gives from the place `start`
/// on, where time never goes back in the timeline, no channel changes twice
/// within a nanosecond, and `start` is the first place of its time.
pub proof fn lemma_samples_are_windows(merged: Seq<Transition>, start: int, state: u64)
    requires
        in_time_order(merged),
        spaced(merged),
        channels_in_range(merged),
        0 <= start <= merged.len(),
        start == 0 || start == merged.len() || merged[start - 1].1 < merged[start].1,
    ensures
        coalesce_from(merged, start, state) matches Ok(out) && forall|k: int|
            0 <= k < out.len() ==> #[trigger] sample_is_window(merged, out, state, k),
    decreases merged.len() - start,
{
    if start < merged.len() {
        lemma_group_is_window(merged, start);
        let (end, mask) = scan_group(merged, start, start, 0).unwrap();
        let after = state ^ mask;
        lemma_samples_are_windows(merged, end, after);
        let rest = coalesce_from(merged, end, after).unwrap();
        let out = seq![(merged[start].1, after)] + rest;
        assert(coalesce_from(merged, start, state) == Ok::<Seq<(Timestamp, u64)>, SourceError>(out));
        assert forall|k: int| 0 <= k < out.len() implies #[trigger] sample_is_window(
            merged,
            out,
            state,
            k,
        ) by {
            if k == 0 {
                assert((state ^ mask) ^ state == mask) by (bit_vector);
                assert(changed_bits(out, state, 0) == mask);
            } else {
                assert(sample_is_window(merged, rest, after, k - 1));
                assert(out[k] == rest[k - 1]);
                if k > 1 {
                    assert(out[k - 1] == rest[k - 2]);
                }
                assert(changed_bits(out, state, k) == changed_bits(rest, after, k - 1));
            }
        }
    }
}

/// The samples as events.
pub open spec fn sample_events(samples: Seq<(Timestamp, u64)>) -> Seq<Event<Sample>> {
    Seq::new(samples.len(), |i: int| (samples[i].0, Ok::<Sample, DecodeError>(Sample(samples[i].1))))
}

impl EventIterator for LogicData {
    type Item = Sample;

    open spec fn ready(&self) -> bool {
        true
    }

    open spec fn upcoming(&self) -> Seq<Event<Sample>> {
        sample_events(self.remaining())
    }

    fn next(&mut self) -> (r: Option<Event<Sample>>) {
        let r = LogicData::next(self);
        proof {
            let before = old(self).upcoming();
            if r is Some {
                assert(before.subrange(1, before.len() as int) =~= self.upcoming());
            }
        }
        r
    }

    fn event_type(&self) -> (r: EventType)
        ensures
            r == EventType::Sample,
    {
        EventType::Sample
    }

    fn event_type_name(&self) -> (r: &'static str)
        ensures
            r@ == "source::Sample"@,
    {
        "source::Sample"
    }
}

/// Puts the source of a multi-file capture onto a pipeline: the samples of
/// the channels that the files hold. A capture that cannot be read leaves the
/// pipeline as it is.
pub fn build(pipeline: &mut Vec<Stream>, files: &Vec<(String, Vec<u8>)>) -> (r: Result<
    (),
    PipelineError,
>)
    ensures
        match samples_of_files(files@) {
            Ok(samples) => r is Ok && views(final(pipeline)@) == views(old(pipeline)@).push(
                StreamView::Sample(sample_events(samples)),
            ),
            Err(e) => r == Err::<(), PipelineError>(PipelineError::Source(e)) && final(pipeline)@
                == old(pipeline)@,
        },
        files_readable(files@) ==> r is Ok,
        files_spaced(files@) && r is Ok ==> samples_follow_channels(
            channels_of_files(files@).unwrap(),
            samples_of_files(files@).unwrap(),
        ),
{
    match new_parser(files) {
        Err(e) => Err(PipelineError::Source(e)),
        Ok(source) => {
            let mut source = source;
            let out = drain(&mut source);
            proof {
                assert(stream_view(out@) =~= out@);
            }
            push_top(pipeline, Stream::Sample(out));
            Ok(())
        },
    }
}

/// The transitions of every channel are in the order of time.
pub open spec fn channels_ascending(channels: Seq<ChannelView>) -> bool {
    forall|c: int|
        0 <= c < channels.len() ==> {
            let t = (#[trigger] channels[c]).transitions;
            forall|i: int, j: int| 0 <= i <= j < t.len() ==> t[i] <= t[j]
        }
}

/// No transition of any channel lies before the start of the capture.
pub open spec fn channels_after_start(channels: Seq<ChannelView>) -> bool {
    forall|c: int|
        0 <= c < channels.len() ==> {
            let t = (#[trigger] channels[c]).transitions;
            forall|i: int| 0 <= i < t.len() ==> 0 <= t[i]
        }
}

/// The transitions of every channel are in the order of time, and none of
/// them lies before the start of the capture.
pub open spec fn channels_in_order(channels: Seq<ChannelView>) -> bool {
    channels_ascending(channels) && channels_after_start(channels)
}

/// A capture that gives samples: every channel is one that a sample has a
/// bit for, some channel holds a transition, and the transitions of every
/// channel are in the order of time.
pub open spec fn readable(channels: Seq<ChannelView>) -> bool {
    first_invalid(channels) is None && has_sample(channels) && channels_ascending(channels)
}

/// No sample is the sample before it once more.
pub open spec fn samples_differ(s: Seq<(Timestamp, u64)>) -> bool {
    forall|k: int| 0 < k < s.len() ==> (#[trigger] s[k]).1 != s[k - 1].1
}

/// Where no channel is out of range, each of them is in range.
pub proof fn lemma_ids_in_range(channels: Seq<ChannelView>, c: int)
    requires
        first_invalid(channels) is None,
        0 <= c < channels.len(),
    ensures
        channels[c].id < 64,
    decreases channels.len(),
{
    if c < channels.len() - 1 {
        lemma_ids_in_range(channels.drop_last(), c);
    }
}

/// Where each channel is in range, none is out of range.
pub proof fn lemma_none_invalid(channels: Seq<ChannelView>)
    requires
        forall|c: int| 0 <= c < channels.len() ==> (#[trigger] channels[c]).id < 64,
    ensures
        first_invalid(channels) is None,
    decreases channels.len(),
{
    if channels.len() > 0 {
        let front = channels.drop_last();
        assert forall|c: int| 0 <= c < front.len() implies (#[trigger] front[c]).id < 64 by {
            assert(front[c] == channels[c]);
        }
        lemma_none_invalid(front);
    }
}

/// A group of a timeline in the order of time, whose channels are in range,
/// has an end within the timeline, after its first transition, and its mask
/// is not empty.
pub proof fn lemma_scan_group_ok(merged: Seq<Transition>, start: int, i: int, mask: u64)
    requires
        in_time_order(merged),
        channels_in_range(merged),
        0 <= start <= i <= merged.len(),
        start < merged.len(),
    ensures
        scan_group(merged, start, i, mask) matches Ok((end, _)) && i <= end <= merged.len() && (i
            == start && mask == 0 ==> end > start),
    decreases merged.len() - i,
{
    if i < merged.len() {
        let id = merged[i].0;
        let bit = channel_bit(id);
        assert(merged[start].1 <= merged[i].1);
        lemma_toggles_joined(mask, id, id);
        if (mask & bit) != bit && merged[i].1 - merged[start].1 < COALESCE_WINDOW {
            lemma_scan_group_ok(merged, start, i + 1, mask | bit);
        }
    }
}

/// A timeline in the order of time, whose channels are in range, gives samples.
pub proof fn lemma_coalesce_ok(merged: Seq<Transition>, start: int, state: u64)
    requires
        in_time_order(merged),
        channels_in_range(merged),
        0 <= start <= merged.len(),
    ensures
        coalesce_from(merged, start, state) is Ok,
    decreases merged.len() - start,
{
    if start < merged.len() {
        lemma_scan_group_ok(merged, start, start, 0);
        let (end, mask) = scan_group(merged, start, start, 0).unwrap();
        lemma_coalesce_ok(merged, end, state ^ mask);
    }
}

/// The mask of a group that holds a transition is not empty.
pub proof fn lemma_scan_group_mask(merged: Seq<Transition>, start: int, i: int, mask: u64)
    requires
        0 <= start <= i,
    ensures
        scan_group(merged, start, i, mask) matches Ok((end, m)) ==> i <= end && (mask != 0 || end
            > i ==> m != 0),
    decreases merged.len() - i,
{
    if i < merged.len() {
        let id = merged[i].0;
        let bit = channel_bit(id);
        if id < 64 && merged[i].1 >= merged[start].1 && (mask & bit) != bit && merged[i].1
            - merged[start].1 < COALESCE_WINDOW {
            assert(mask | (1u64 << id) != 0) by (bit_vector)
                requires
                    id < 64,
            ;
            lemma_scan_group_mask(merged, start, i + 1, mask | bit);
        }
    }
}

/// Consecutive samples differ: every sample that a timeline gives differs
/// from the sample before it, the first of them from the state that the
/// timeline began in.
pub proof fn lemma_coalesce_differ(merged: Seq<Transition>, start: int, state: u64)
    requires
        0 <= start,
    ensures
        coalesce_from(merged, start, state) matches Ok(out) ==> samples_differ(out) && (out.len()
            > 0 ==> out[0].1 != state),
    decreases merged.len() - start,
{
    if start < merged.len() {
        if let Ok((end, mask)) = scan_group(merged, start, start, 0) {
            if start < end <= merged.len() {
                lemma_scan_group_mask(merged, start, start, 0);
                let after = state ^ mask;
                assert(state ^ mask != state) by (bit_vector)
                    requires
                        mask != 0,
                ;
                lemma_coalesce_differ(merged, end, after);
                if let Ok(rest) = coalesce_from(merged, end, after) {
                    let out = seq![(merged[start].1, after)] + rest;
                    assert forall|k: int| 0 < k < out.len() implies (#[trigger] out[k]).1 != out[k
                        - 1].1 by {
                        assert(out[k] == rest[k - 1]);
                        if k > 1 {
                            assert(out[k - 1] == rest[k - 2]);
                        }
                    }
                }
            }
        }
    }
}

/// What stands in the channels put one behind the other stands in one of them.
pub proof fn lemma_flatten_from_lane(lanes: Seq<Seq<Transition>>, x: Transition)
    requires
        lanes.flatten().contains(x),
    ensures
        exists|c: int, k: int|
            0 <= c < lanes.len() && 0 <= k < lanes[c].len() && (#[trigger] lanes[c][k]) == x,
    decreases lanes.len(),
{
    if lanes.len() > 0 {
        let first = lanes.first();
        let others = lanes.drop_first();
        let flat = lanes.flatten();
        assert(flat == first + others.flatten());
        let i = choose|i: int| 0 <= i < flat.len() && flat[i] == x;
        if i < first.len() {
            assert(lanes[0][i] == x);
        } else {
            assert(others.flatten()[i - first.len()] == x);
            lemma_flatten_from_lane(others, x);
            let (c, k) = choose|c: int, k: int|
                0 <= c < others.len() && 0 <= k < others[c].len() && (#[trigger] others[c][k]) == x;
            assert(lanes[c + 1][k] == x);
        }
    }
}

/// A transition of a timeline that holds the transitions of the channels,
/// each as often as the channels hold it, stands in one of the channels.
pub proof fn lemma_merged_from_lanes(lanes: Seq<Seq<Transition>>, merged: Seq<Transition>, i: int)
    requires
        merged.to_multiset() == lanes.flatten().to_multiset(),
        0 <= i < merged.len(),
    ensures
        exists|c: int, k: int|
            0 <= c < lanes.len() && 0 <= k < lanes[c].len() && (#[trigger] lanes[c][k])
                == merged[i],
{
    vstd::seq_lib::to_multiset_contains(merged, merged[i]);
    vstd::seq_lib::to_multiset_contains(lanes.flatten(), merged[i]);
    assert(merged.contains(merged[i]));
    lemma_flatten_from_lane(lanes, merged[i]);
}

/// Whether the time `t` is that of the `k`-th sample or less than a
/// nanosecond after it.
pub open spec fn in_window(out: Seq<(Timestamp, u64)>, k: int, t: Timestamp) -> bool {
    out[k].0 <= t < out[k].0 + COALESCE_WINDOW
}

/// Whether one of the samples from the place `from` on has the time `t` in
/// its window.
pub open spec fn covered_from(out: Seq<(Timestamp, u64)>, from: int, t: Timestamp) -> bool {
    exists|k: int| from <= k < out.len() && #[trigger] in_window(out, k, t)
}

/// Every transition of a capture goes into one sample, and no two samples
/// share a transition.
///
/// Of the samples that a timeline gives from the place `start` on, the first
/// has the time of the transition at `start`, each lies a nanosecond or more
/// after the one before it, and every transition from `start` on lies in the
/// window of one of them. This holds where time never goes back in the
/// timeline, no channel changes twice within a nanosecond, and `start` is the
/// first place of its time.
pub proof fn lemma_samples_partition(merged: Seq<Transition>, start: int, state: u64)
    requires
        in_time_order(merged),
        spaced(merged),
        channels_in_range(merged),
        0 <= start <= merged.len(),
        start == 0 || start == merged.len() || merged[start - 1].1 < merged[start].1,
    ensures
        coalesce_from(merged, start, state) matches Ok(out) && {
            &&& start < merged.len() ==> out.len() > 0 && out[0].0 == merged[start].1
            &&& forall|k: int| 0 < k < out.len() ==> (#[trigger] out[k]).0 - out[k - 1].0 >= COALESCE_WINDOW
            &&& forall|p: int|
                start <= p < merged.len() ==> covered_from(out, 0, (#[trigger] merged[p]).1)
        },
    decreases merged.len() - start,
{
    if start < merged.len() {
        lemma_group_is_window(merged, start);
        let (end, mask) = scan_group(merged, start, start, 0).unwrap();
        let after = state ^ mask;
        lemma_samples_partition(merged, end, after);
        let rest = coalesce_from(merged, end, after).unwrap();
        let out = seq![(merged[start].1, after)] + rest;
        assert(coalesce_from(merged, start, state) == Ok::<Seq<(Timestamp, u64)>, SourceError>(out));
        assert forall|k: int| 0 < k < out.len() implies (#[trigger] out[k]).0 - out[k - 1].0
            >= COALESCE_WINDOW by {
            assert(out[k] == rest[k - 1]);
            if k > 1 {
                assert(out[k - 1] == rest[k - 2]);
            }
        }
        assert forall|p: int| start <= p < merged.len() implies covered_from(
            out,
            0,
            (#[trigger] merged[p]).1,
        ) by {
            if p < end {
                assert(merged[start].1 <= merged[p].1);
                assert(in_window(out, 0, merged[p].1));
            } else {
                assert(covered_from(rest, 0, merged[p].1));
                let k = choose|k: int| 0 <= k < rest.len() && #[trigger] in_window(rest, k, merged[p].1);
                assert(out[k + 1] == rest[k]);
                assert(in_window(out, k + 1, merged[p].1));
            }
        }
    }
}

/// No channel changes twice within a nanosecond.
pub open spec fn channels_spaced(channels: Seq<ChannelView>) -> bool {
    forall|c: int|
        0 <= c < channels.len() ==> {
            let t = (#[trigger] channels[c]).transitions;
            forall|i: int, j: int| 0 <= i < j < t.len() ==> t[j] - t[i] >= COALESCE_WINDOW
        }
}

/// Where no channel changes twice within a nanosecond, the transitions of
/// every channel are in the order of time.
pub proof fn lemma_spaced_ascending(channels: Seq<ChannelView>)
    requires
        channels_spaced(channels),
    ensures
        channels_ascending(channels),
{
    assert forall|c: int| 0 <= c < channels.len() implies {
        let t = (#[trigger] channels[c]).transitions;
        forall|i: int, j: int| 0 <= i <= j < t.len() ==> t[i] <= t[j]
    } by {
        let t = channels[c].transitions;
        assert forall|i: int, j: int| 0 <= i <= j < t.len() implies t[i] <= t[j] by {
            if i < j {
                assert(t[j] - t[i] >= COALESCE_WINDOW);
            }
        }
    }
}

/// No two channels have the same number.
pub open spec fn channels_distinct(channels: Seq<ChannelView>) -> bool {
    forall|a: int, b: int|
        0 <= a < b < channels.len() ==> (#[trigger] channels[a]).id != (#[trigger] channels[b]).id
}

/// Whether the channel with the number `id` changes at `t` or less than a
/// nanosecond after it.
pub open spec fn channel_changes_within(channels: Seq<ChannelView>, t: Timestamp, id: u32) -> bool {
    exists|c: int, i: int|
        0 <= c < channels.len() && 0 <= i < channels[c].transitions.len() && channels[c].id == id
            && t <= #[trigger] channels[c].transitions[i] < t + COALESCE_WINDOW
}

/// The bits in which the `k`-th sample differs from the sample before it.
pub open spec fn change_at(out: Seq<(Timestamp, u64)>, k: int) -> u64 {
    out[k].1 ^ out[k - 1].1
}

/// The bits that change in the `k`-th sample are those of the channels that
/// change at the time of the sample or less than a nanosecond after it.
pub open spec fn sample_follows_channels(
    channels: Seq<ChannelView>,
    out: Seq<(Timestamp, u64)>,
    k: int,
) -> bool {
    forall|c: u32|
        c < 64 ==> (toggles(change_at(out, k), c) <==> channel_changes_within(
            channels,
            out[k].0,
            c,
        ))
}

/// The samples of a capture are what its channels do: in every sample after
/// the first, the bits that change are those of the channels that change
/// within a nanosecond of the time of the sample; each of these samples lies
/// a nanosecond or more after the one before it, so that their windows do
/// not meet; and every transition of every channel lies in the window of one
/// of them.
pub open spec fn samples_follow_channels(
    channels: Seq<ChannelView>,
    out: Seq<(Timestamp, u64)>,
) -> bool {
    &&& forall|k: int| 1 <= k < out.len() ==> #[trigger] sample_follows_channels(channels, out, k)
    &&& forall|k: int| 1 < k < out.len() ==> (#[trigger] out[k]).0 - out[k - 1].0 >= COALESCE_WINDOW
    &&& forall|c: int, i: int|
        0 <= c < channels.len() && 0 <= i < channels[c].transitions.len() ==> covered_from(
            out,
            1,
            #[trigger] channels[c].transitions[i],
        )
}

/// Whether the timeline holds the transition of the channel `id` at the time `t`.
pub open spec fn in_timeline(merged: Seq<Transition>, id: u32, t: Timestamp) -> bool {
    exists|p: int| 0 <= p < merged.len() && (#[trigger] merged[p]).0 == id && merged[p].1 == t
}

/// No transition stands twice in the channels.
pub open spec fn lanes_apart(lanes: Seq<Seq<Transition>>) -> bool {
    forall|a: int, i: int, b: int, j: int|
        0 <= a < lanes.len() && 0 <= i < lanes[a].len() && 0 <= b < lanes.len() && 0 <= j
            < lanes[b].len() && (a != b || i != j) ==> #[trigger] lanes[a][i] != #[trigger] lanes[b][j]
}

/// What stands in one of the channels stands in the channels put one behind
/// the other.
pub proof fn lemma_lane_in_flatten(lanes: Seq<Seq<Transition>>, c: int, k: int)
    requires
        0 <= c < lanes.len(),
        0 <= k < lanes[c].len(),
    ensures
        lanes.flatten().contains(lanes[c][k]),
    decreases lanes.len(),
{
    let first = lanes.first();
    let others = lanes.drop_first();
    let flat = lanes.flatten();
    assert(flat == first + others.flatten());
    if c == 0 {
        assert(flat[k] == lanes[c][k]);
    } else {
        assert(others[c - 1] == lanes[c]);
        lemma_lane_in_flatten(others, c - 1, k);
        let p = choose|p: int| 0 <= p < others.flatten().len() && others.flatten()[p] == lanes[c][k];
        assert(flat[first.len() + p] == lanes[c][k]);
    }
}

/// Where no transition stands twice in the channels, none stands twice in
/// the channels put one behind the other.
pub proof fn lemma_flatten_apart(lanes: Seq<Seq<Transition>>)
    requires
        lanes_apart(lanes),
    ensures
        lanes.flatten().no_duplicates(),
    decreases lanes.len(),
{
    if lanes.len() > 0 {
        let first = lanes.first();
        let others = lanes.drop_first();
        let flat = lanes.flatten();
        assert(flat == first + others.flatten());
        assert forall|a: int, i: int, b: int, j: int|
            0 <= a < others.len() && 0 <= i < others[a].len() && 0 <= b < others.len() && 0 <= j
                < others[b].len() && (a != b || i != j) implies #[trigger] others[a][i]
            != #[trigger] others[b][j] by {
            assert(others[a][i] == lanes[a + 1][i]);
            assert(others[b][j] == lanes[b + 1][j]);
        }
        lemma_flatten_apart(others);
        assert forall|i: int, j: int| 0 <= i < first.len() && 0 <= j < first.len() && i != j implies first[i] != first[j] by {
            assert(lanes[0][i] != lanes[0][j]);
        }
        assert forall|i: int, j: int|
            0 <= i < first.len() && 0 <= j < others.flatten().len() implies first[i]
            != others.flatten()[j] by {
            let x = others.flatten()[j];
            assert(others.flatten().contains(x));
            lemma_flatten_from_lane(others, x);
            let (c, k) = choose|c: int, k: int|
                0 <= c < others.len() && 0 <= k < others[c].len() && (#[trigger] others[c][k]) == x;
            assert(others[c][k] == lanes[c + 1][k]);
            assert(lanes[0][i] != lanes[c + 1][k]);
        }
        vstd::seq_lib::lemma_no_dup_in_concat(first, others.flatten());
    }
}

/// The timeline of a capture in which no channel changes twice within a
/// nanosecond and no two channels have the same number: no channel changes
/// twice within a nanosecond in it, every channel in it has a bit in a
/// sample, a channel changes in it when it changes in the capture, and it
/// holds every transition of every channel.
pub proof fn lemma_timeline_of_channels(channels: Seq<ChannelView>, merged: Seq<Transition>)
    requires
        first_invalid(channels) is None,
        channels_spaced(channels),
        channels_distinct(channels),
        merged.to_multiset() == lanes_of_channels(channels).flatten().to_multiset(),
        in_time_order(merged),
    ensures
        channels_in_range(merged),
        spaced(merged),
        forall|t: Timestamp, id: u32| #[trigger]
            changes_within(merged, t, id) <==> channel_changes_within(channels, t, id),
        forall|c: int, i: int|
            0 <= c < channels.len() && 0 <= i < channels[c].transitions.len() ==> in_timeline(
                merged,
                channels[c].id,
                #[trigger] channels[c].transitions[i],
            ),
{
    let lanes = lanes_of_channels(channels);
    assert forall|a: int, i: int, b: int, j: int|
        0 <= a < lanes.len() && 0 <= i < lanes[a].len() && 0 <= b < lanes.len() && 0 <= j
            < lanes[b].len() && (a != b || i != j) implies #[trigger] lanes[a][i]
        != #[trigger] lanes[b][j] by {
        assert(lanes[a] == labelled(channels[a]) && lanes[b] == labelled(channels[b]));
        if a < b {
            assert(channels[a].id != channels[b].id);
        } else if b < a {
            assert(channels[b].id != channels[a].id);
        } else if i < j {
            assert(channels[a].transitions[j] - channels[a].transitions[i] >= COALESCE_WINDOW);
        } else {
            assert(channels[a].transitions[i] - channels[a].transitions[j] >= COALESCE_WINDOW);
        }
    }
    lemma_flatten_apart(lanes);
    lanes.flatten().lemma_multiset_has_no_duplicates();
    merged.lemma_multiset_has_no_duplicates_conv();
    assert forall|p: int| 0 <= p < merged.len() implies (#[trigger] merged[p]).0 < 64 by {
        lemma_merged_from_lanes(lanes, merged, p);
        let (c, k) = choose|c: int, k: int|
            0 <= c < lanes.len() && 0 <= k < lanes[c].len() && (#[trigger] lanes[c][k]) == merged[p];
        assert(lanes[c] == labelled(channels[c]));
        lemma_ids_in_range(channels, c);
    }
    assert forall|p: int, q: int|
        0 <= p < q < merged.len() && (#[trigger] merged[p]).0 == (#[trigger] merged[q]).0 implies merged[q].1
        - merged[p].1 >= COALESCE_WINDOW by {
        lemma_merged_from_lanes(lanes, merged, p);
        let (a, i) = choose|c: int, k: int|
            0 <= c < lanes.len() && 0 <= k < lanes[c].len() && (#[trigger] lanes[c][k]) == merged[p];
        lemma_merged_from_lanes(lanes, merged, q);
        let (b, j) = choose|c: int, k: int|
            0 <= c < lanes.len() && 0 <= k < lanes[c].len() && (#[trigger] lanes[c][k]) == merged[q];
        assert(lanes[a] == labelled(channels[a]) && lanes[b] == labelled(channels[b]));
        assert(merged[p] != merged[q]);
        assert(merged[p].1 <= merged[q].1);
        if a < b {
            assert(channels[a].id != channels[b].id);
        } else if b < a {
            assert(channels[b].id != channels[a].id);
        } else if i < j {
            assert(channels[a].transitions[j] - channels[a].transitions[i] >= COALESCE_WINDOW);
        } else if j < i {
            assert(channels[a].transitions[i] - channels[a].transitions[j] >= COALESCE_WINDOW);
        }
    }
    assert forall|c: int, i: int|
        0 <= c < channels.len() && 0 <= i < channels[c].transitions.len() implies in_timeline(
        merged,
        channels[c].id,
        #[trigger] channels[c].transitions[i],
    ) by {
        assert(lanes[c] == labelled(channels[c]));
        let x = lanes[c][i];
        lemma_lane_in_flatten(lanes, c, i);
        vstd::seq_lib::to_multiset_contains(lanes.flatten(), x);
        vstd::seq_lib::to_multiset_contains(merged, x);
        let p = choose|p: int| 0 <= p < merged.len() && merged[p] == x;
        assert(merged[p].0 == channels[c].id && merged[p].1 == channels[c].transitions[i]);
    }
    assert forall|t: Timestamp, id: u32| #[trigger]
        changes_within(merged, t, id) <==> channel_changes_within(channels, t, id) by {
        if changes_within(merged, t, id) {
            let p = choose|p: int|
                0 <= p < merged.len() && (#[trigger] merged[p]).0 == id && t <= merged[p].1 < t
                    + COALESCE_WINDOW;
            lemma_merged_from_lanes(lanes, merged, p);
            let (c, k) = choose|c: int, k: int|
                0 <= c < lanes.len() && 0 <= k < lanes[c].len() && (#[trigger] lanes[c][k])
                    == merged[p];
            assert(lanes[c] == labelled(channels[c]));
            assert(channels[c].id == id && t <= channels[c].transitions[k] < t + COALESCE_WINDOW);
        }
        if channel_changes_within(channels, t, id) {
            let (c, i) = choose|c: int, i: int|
                0 <= c < channels.len() && 0 <= i < channels[c].transitions.len() && channels[c].id
                    == id && t <= #[trigger] channels[c].transitions[i] < t + COALESCE_WINDOW;
            assert(in_timeline(merged, channels[c].id, channels[c].transitions[i]));
            let p = choose|p: int|
                0 <= p < merged.len() && (#[trigger] merged[p]).0 == channels[c].id && merged[p].1
                    == channels[c].transitions[i];
            assert(merged[p].0 == id && t <= merged[p].1 < t + COALESCE_WINDOW);
        }
    }
}

/// Coalescing, stated of a capture: the sample at the start of the capture,
/// followed by the samples that the timeline of the capture gives, are what
/// the channels do. This holds where no channel changes twice within a
/// nanosecond, no two channels have the same number, and the timeline holds
/// the transitions of the channels in the order of time.
pub proof fn lemma_capture_follows_channels(channels: Seq<ChannelView>, merged: Seq<Transition>)
    requires
        first_invalid(channels) is None,
        channels_spaced(channels),
        channels_distinct(channels),
        merged.to_multiset() == lanes_of_channels(channels).flatten().to_multiset(),
        in_time_order(merged),
    ensures
        coalesce_from(merged, 0, initial_state_of(channels)) matches Ok(rest)
            && samples_follow_channels(channels, seq![(0i64, initial_state_of(channels))] + rest),
{
    let state = initial_state_of(channels);
    lemma_timeline_of_channels(channels, merged);
    lemma_samples_are_windows(merged, 0, state);
    lemma_samples_partition(merged, 0, state);
    let rest = coalesce_from(merged, 0, state).unwrap();
    let out = seq![(0i64, state)] + rest;
    assert forall|k: int| 1 <= k < out.len() implies #[trigger] sample_follows_channels(
        channels,
        out,
        k,
    ) by {
        assert(sample_is_window(merged, rest, state, k - 1));
        assert(out[k] == rest[k - 1]);
        if k > 1 {
            assert(out[k - 1] == rest[k - 2]);
        }
        assert(change_at(out, k) == changed_bits(rest, state, k - 1));
        assert forall|c: u32| c < 64 implies (toggles(change_at(out, k), c)
            <==> channel_changes_within(channels, out[k].0, c)) by {
            assert(toggles(changed_bits(rest, state, k - 1), c) <==> changes_within(
                merged,
                rest[k - 1].0,
                c,
            ));
        }
    }
    assert forall|k: int| 1 < k < out.len() implies (#[trigger] out[k]).0 - out[k - 1].0
        >= COALESCE_WINDOW by {
        assert(out[k] == rest[k - 1]);
        assert(out[k - 1] == rest[k - 2]);
    }
    assert forall|c: int, i: int|
        0 <= c < channels.len() && 0 <= i < channels[c].transitions.len() implies covered_from(
        out,
        1,
        #[trigger] channels[c].transitions[i],
    ) by {
        let t = channels[c].transitions[i];
        assert(in_timeline(merged, channels[c].id, t));
        let p = choose|p: int|
            0 <= p < merged.len() && (#[trigger] merged[p]).0 == channels[c].id && merged[p].1 == t;
        assert(covered_from(rest, 0, merged[p].1));
        let k = choose|k: int| 0 <= k < rest.len() && #[trigger] in_window(rest, k, t);
        assert(out[k + 1] == rest[k]);
        assert(in_window(out, k + 1, t));
    }
}

} // verus!
