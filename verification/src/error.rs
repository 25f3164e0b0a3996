//! What goes wrong with a frame, a run of cycles or an exchange.

use vstd::prelude::*;

use crate::text;

verus! {

/// Why a frame, a run of cycles or an exchange was refused.
#[derive(Clone, Copy, Debug, PartialEq, Eq)]
pub enum Error {
    /// A payload too short to name its `FrameID`.
    FrameIdMissing,
    /// A DCP frame shorter than its header.
    HeaderShort,
    /// A DCP service that is not one of the three.
    ServiceUnknown(u8),
    /// A DCP data length past the end of the frame.
    DataPastEnd,
    /// A DCP block shorter than its header.
    BlockShort,
    /// A DCP block length past the end of the data.
    BlockPastEnd,
    /// A payload of this many bytes, which is not one cycle's.
    CycleLength(usize),
    /// A `FrameID` that is not real-time class 1.
    NotClassOne(u16),
    /// A prologue naming more than the IO data holds.
    ChunkTooLong,
    /// A cycle counter that is not one step past the one before.
    CycleMissed,
    /// A data status that is not good.
    StatusNotGood(u8),
    /// A run of cycles with no last flag.
    NoLastCycle,
    /// A device that did not answer a set.
    SetUnanswered,
    /// A run of cycles that stopped before its last.
    CyclesStopped,
    /// A device that mirrored nothing.
    NothingBack,
}

impl Error {
    /// What the message of the error says.
    pub open spec fn text(self) -> Seq<char> {
        match self {
            Error::FrameIdMissing => "shorter than a FrameID"@,
            Error::HeaderShort => "a DCP frame shorter than its header"@,
            Error::ServiceUnknown(code) => "DCP service "@ + text::decimal_of(code as nat)
                + " is not one"@,
            Error::DataPastEnd => "a DCP data length past the end"@,
            Error::BlockShort => "a DCP block shorter than its header"@,
            Error::BlockPastEnd => "a DCP block length past the end"@,
            Error::CycleLength(length) => text::decimal_of(length as nat)
                + " bytes is not one cycle of 40 bytes of IO data"@,
            Error::NotClassOne(frame_id) => "FrameID 0x"@ + text::hex4_of(frame_id)
                + " is not real-time class 1"@,
            Error::ChunkTooLong => "a chunk longer than the IO data"@,
            Error::CycleMissed => "a cycle was missed"@,
            Error::StatusNotGood(status) => "a data status of 0x"@ + text::hex2_of(status)
                + " is not good"@,
            Error::NoLastCycle => "the cycles ended before the last flag"@,
            Error::SetUnanswered => "the device did not answer the set"@,
            Error::CyclesStopped => "the cycles stopped before the last"@,
            Error::NothingBack => "no cycle came back from the device"@,
        }
    }

    /// The message of the error.
    #[must_use]
    pub fn message(&self) -> (message: String)
        ensures
            message@ == self.text(),
    {
        let mut message: String = String::new();
        match *self {
            Error::FrameIdMissing => message.append("shorter than a FrameID"),
            Error::HeaderShort => message.append("a DCP frame shorter than its header"),
            Error::ServiceUnknown(code) => {
                message.append("DCP service ");
                text::push_decimal(&mut message, code as usize);
                message.append(" is not one");
            },
            Error::DataPastEnd => message.append("a DCP data length past the end"),
            Error::BlockShort => message.append("a DCP block shorter than its header"),
            Error::BlockPastEnd => message.append("a DCP block length past the end"),
            Error::CycleLength(length) => {
                text::push_decimal(&mut message, length);
                message.append(" bytes is not one cycle of 40 bytes of IO data");
            },
            Error::NotClassOne(frame_id) => {
                message.append("FrameID 0x");
                text::push_hex4(&mut message, frame_id);
                message.append(" is not real-time class 1");
            },
            Error::ChunkTooLong => message.append("a chunk longer than the IO data"),
            Error::CycleMissed => message.append("a cycle was missed"),
            Error::StatusNotGood(status) => {
                message.append("a data status of 0x");
                text::push_hex2(&mut message, status);
                message.append(" is not good");
            },
            Error::NoLastCycle => message.append("the cycles ended before the last flag"),
            Error::SetUnanswered => message.append("the device did not answer the set"),
            Error::CyclesStopped => message.append("the cycles stopped before the last"),
            Error::NothingBack => message.append("no cycle came back from the device"),
        }
        assert(message@ =~= self.text());
        message
    }
}

} // verus!
