//! The decisions of the two stages of the bridge. The reading stage turns what
//! a read of the serial source gave into the next thing to do; the publishing
//! stage turns a frame into a record worth publishing, or not.
//!
//! The stages themselves, with their reads, waits and sends, belong to the
//! program around this library.

use vstd::prelude::*;
use vstd::slice::slice_to_vec;
use crate::assembler::{cache_after, emitted, get_msg};
use crate::dispatch::StateStore;
use crate::numeric::{read_unsigned, unsigned_of};
use crate::parser::{parse, record_of};
use crate::record::{ParseError, TelemetryRecord};

verus! {

/// How long one read of the serial source waits for bytes, in milliseconds.
pub const READ_TIMEOUT_MILLIS: u64 = 10;

/// How long the reading stage rests after a failed read, in milliseconds.
pub const READ_PAUSE_MILLIS: u64 = 1000;

/// The size of the buffer that one read fills, in bytes.
pub const READ_BUFFER_LEN: usize = 1000;

/// How many frames wait between the two stages at most.
pub const HANDOFF_CAPACITY: usize = 1;

/// How long to wait before connecting to the bus is tried again, in seconds.
pub const CONNECT_RETRY_SECS: u64 = 10;

/// The keep-alive interval of the bus connection, in seconds.
pub const KEEP_ALIVE_SECS: u16 = 10;

/// How long the bus client waits before it reconnects after a drop, in
/// seconds.
pub const RECONNECT_AFTER_SECS: u64 = 10;

/// What one read of the serial source gave.
pub enum ReadEvent<'a> {
    /// The bytes that arrived.
    Bytes(&'a [u8]),
    /// Nothing arrived in time.
    TimedOut,
    /// The read failed for another reason.
    Failed,
}

/// What the reading stage does next.
#[derive(Debug, PartialEq, Eq)]
pub enum ReaderAction {
    /// Hand this frame to the publishing stage, then read again.
    Forward(Vec<u8>),
    /// Read again at once.
    ReadAgain,
    /// Rest for so many milliseconds, then read again.
    PauseThenRead(u64),
}

/// What the publishing stage makes of a frame.
#[derive(Clone, Copy, Debug, PartialEq, Eq, Structural)]
pub enum FrameOutcome {
    /// The frame gave no record.
    Rejected(ParseError),
    /// The record equals the one stored for its kind: nothing to publish.
    Unchanged(TelemetryRecord),
    /// The record differs from the one stored for its kind: encode it and
    /// dispatch it.
    Changed(TelemetryRecord),
}

/// What the program does after an attempt to connect to the bus.
#[derive(Clone, Copy, Debug, PartialEq, Eq, Structural)]
pub enum ConnectAction {
    /// The connection stands.
    Proceed,
    /// Wait for so many seconds, then try again.
    RetryAfter(u64),
}

/// The cache after a read: bytes go through the assembler, and a read that
/// gave none leaves the cache as it is.
pub open spec fn cache_after_read(event: ReadEvent, cache: Seq<u8>) -> Seq<u8> {
    match event {
        ReadEvent::Bytes(chunk) => cache_after(cache, chunk@),
        ReadEvent::TimedOut => cache,
        ReadEvent::Failed => cache,
    }
}

/// The frame that a read completes, if it completes one.
pub open spec fn frame_after_read(event: ReadEvent, cache: Seq<u8>) -> Option<Seq<u8>> {
    match event {
        ReadEvent::Bytes(chunk) => emitted(cache_after(cache, chunk@)),
        ReadEvent::TimedOut => None,
        ReadEvent::Failed => None,
    }
}

/// How long the reading stage rests after a read, in milliseconds: only a
/// failure other than a timeout makes it rest.
pub open spec fn pause_after_read(event: ReadEvent) -> u64 {
    match event {
        ReadEvent::Bytes(_) => 0,
        ReadEvent::TimedOut => 0,
        ReadEvent::Failed => READ_PAUSE_MILLIS,
    }
}

/// Decides what the reading stage does after one read.
///
/// Bytes go through the assembler, and a completed frame is forwarded. A
/// timeout is idle time: the stage reads again. Any other failure makes the
/// stage rest before it reads again. The cache changes only when bytes
/// arrived.
pub fn on_read(event: ReadEvent, cache: &mut Vec<u8>) -> (action: ReaderAction)
    ensures
        final(cache)@ == cache_after_read(event, old(cache)@),
        match frame_after_read(event, old(cache)@) {
            Some(frame) => action matches ReaderAction::Forward(bytes) && bytes@ == frame,
            None => if pause_after_read(event) == 0 {
                action == ReaderAction::ReadAgain
            } else {
                action == ReaderAction::PauseThenRead(pause_after_read(event))
            },
        },
{
    match event {
        ReadEvent::Bytes(chunk) => match get_msg(chunk, cache) {
            Some(frame) => ReaderAction::Forward(slice_to_vec(frame)),
            None => ReaderAction::ReadAgain,
        },
        ReadEvent::TimedOut => ReaderAction::ReadAgain,
        ReadEvent::Failed => ReaderAction::PauseThenRead(READ_PAUSE_MILLIS),
    }
}

/// What the publishing stage makes of a frame, given the store.
pub open spec fn outcome_of(frame: Seq<u8>, store: StateStore) -> FrameOutcome {
    match record_of(frame) {
        Err(error) => FrameOutcome::Rejected(error),
        Ok(record) => if store.slot(record.kind_spec()) == record {
            FrameOutcome::Unchanged(record)
        } else {
            FrameOutcome::Changed(record)
        },
    }
}

/// Parses a frame and compares its record with the one stored for its kind.
pub fn examine(frame: &[u8], store: &StateStore) -> (outcome: FrameOutcome)
    ensures
        outcome == outcome_of(frame@, *store),
{
    match parse(frame) {
        Err(error) => FrameOutcome::Rejected(error),
        Ok(record) => if store.is_changed(&record) {
            FrameOutcome::Changed(record)
        } else {
            FrameOutcome::Unchanged(record)
        },
    }
}

/// Decides what follows an attempt to connect to the bus: a failed attempt is
/// tried again after a fixed delay, without limit.
pub fn on_connect(connected: bool) -> (action: ConnectAction)
    ensures
        action == if connected {
            ConnectAction::Proceed
        } else {
            ConnectAction::RetryAfter(CONNECT_RETRY_SECS)
        },
{
    if connected {
        ConnectAction::Proceed
    } else {
        ConnectAction::RetryAfter(CONNECT_RETRY_SECS)
    }
}

/// Reads the configured baud rate: `None` where the text is no unsigned
/// number of 32 bits.
pub fn read_baud_rate(text: &[u8]) -> (rate: Option<u32>)
    ensures
        rate == unsigned_of(text@),
{
    read_unsigned(text)
}

} // verus!
