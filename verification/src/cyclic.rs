//! The real-time class 1 cyclic frame: a `FrameID` in the class's range, the
//! IO data, and the APDU status trailer — cycle counter, data status,
//! transfer status. Every cycle, whether or not anything changed.
//!
//! The IO data is what the application layer laid out; here it carries one
//! chunk of a Stream under a four-byte prologue — the chunk's length, and a
//! flag on the last — so a Stream rides across as many cycles as it takes
//! and the far end knows where it ends. The cycle counter wraps, so no length
//! is too long for it.

use vstd::prelude::*;

use crate::error::Error;
use crate::wire;

verus! {

/// The first and last `FrameID` of real-time class 1.
pub const RT_CLASS_1_FIRST: u16 = 0x8000;
pub const RT_CLASS_1_LAST: u16 = 0xbbff;

/// The IO data one cycle carries: the smallest `C_SDU` the class allows.
pub const IO_DATA: usize = 40;
/// The length, the flag and two reserved bytes before a chunk.
pub const PROLOGUE: usize = 4;
/// The bytes of a Stream one cycle carries.
pub const CHUNK: usize = IO_DATA - PROLOGUE;
/// The bytes of one cycle: `FrameID`, IO data, APDU status.
pub const CYCLE: usize = 2 + IO_DATA + 4;

/// How far the cycle counter moves each cycle: a send clock of one
/// millisecond in units of 31.25 microseconds.
pub const CYCLE_STEP: u16 = 32;

/// A data status that says primary, valid, run, and nothing to report.
pub const DATA_STATUS_GOOD: u8 = 0x35;

/// One cyclic frame.
#[derive(Clone, Debug, PartialEq, Eq)]
pub struct Cyclic {
    pub frame_id: u16,
    pub io_data: Vec<u8>,
    pub cycle_counter: u16,
    pub data_status: u8,
    pub transfer_status: u8,
}

/// What a cyclic frame says.
#[verifier::ext_equal]
pub struct CyclicView {
    pub frame_id: u16,
    pub io_data: Seq<u8>,
    pub cycle_counter: u16,
    pub data_status: u8,
    pub transfer_status: u8,
}

impl View for Cyclic {
    type V = CyclicView;

    open spec fn view(&self) -> CyclicView {
        CyclicView {
            frame_id: self.frame_id,
            io_data: self.io_data@,
            cycle_counter: self.cycle_counter,
            data_status: self.data_status,
            transfer_status: self.transfer_status,
        }
    }
}

/// What each frame of a run says.
pub open spec fn run_view(run: Seq<Cyclic>) -> Seq<CyclicView> {
    Seq::new(run.len(), |i: int| run[i]@)
}

/// Whether `frame_id` is one of real-time class 1.
pub open spec fn is_class_1(frame_id: u16) -> bool {
    RT_CLASS_1_FIRST <= frame_id <= RT_CLASS_1_LAST
}

impl CyclicView {
    /// The bytes of the frame: `FrameID`, IO data in its field, APDU status.
    pub open spec fn payload(self) -> Seq<u8> {
        wire::be16(self.frame_id) + wire::fitted(self.io_data, IO_DATA as nat) + wire::be16(
            self.cycle_counter,
        ) + seq![self.data_status, self.transfer_status]
    }

    /// Whether the IO data reaches as far as the last flag.
    pub open spec fn has_prologue(self) -> bool {
        self.io_data.len() >= 3
    }

    /// The length of the chunk, as the prologue names it.
    pub open spec fn chunk_length(self) -> nat {
        wire::from_be16(self.io_data[0], self.io_data[1]) as nat
    }

    /// Whether the prologue flags the last cycle of a run.
    pub open spec fn is_last(self) -> bool {
        self.io_data[2] & 0x01 != 0
    }

    /// Whether the IO data holds the chunk that the prologue names.
    pub open spec fn holds_chunk(self) -> bool {
        PROLOGUE + self.chunk_length() <= self.io_data.len()
    }

    /// The chunk behind the prologue.
    pub open spec fn chunk(self) -> Seq<u8> {
        self.io_data.subrange(PROLOGUE as int, PROLOGUE + self.chunk_length())
    }
}

/// How many cycles a Stream of `length` bytes takes: at least one.
pub open spec fn cycle_count(length: nat) -> nat {
    if length == 0 {
        1
    } else {
        ((length - 1) / CHUNK as int + 1) as nat
    }
}

/// The bytes of `stream` that cycle `n` of its run carries.
pub open spec fn chunk_at(stream: Seq<u8>, n: int) -> Seq<u8> {
    stream.subrange(
        CHUNK * n,
        if CHUNK * (n + 1) < stream.len() {
            CHUNK * (n + 1)
        } else {
            stream.len() as int
        },
    )
}

/// The cycle counter `n` steps past `counter`, which wraps.
pub open spec fn counter_after(counter: u16, n: int) -> u16 {
    ((counter + CYCLE_STEP * n) % 0x1_0000) as u16
}

/// The IO data that carries `chunk`: the prologue, the chunk, zeros.
pub open spec fn io_data_of(chunk: Seq<u8>, last: bool) -> Seq<u8> {
    wire::fitted(
        wire::be16(wire::length_field(chunk.len())) + seq![
            if last {
                1u8
            } else {
                0u8
            },
            0u8,
        ] + chunk,
        IO_DATA as nat,
    )
}

/// Cycle `n` of the run that carries `stream`.
pub open spec fn cycle_at(
    frame_id: u16,
    stream: Seq<u8>,
    first_counter: u16,
    n: int,
) -> CyclicView {
    CyclicView {
        frame_id,
        io_data: io_data_of(chunk_at(stream, n), n + 1 == cycle_count(stream.len())),
        cycle_counter: counter_after(first_counter, n),
        data_status: DATA_STATUS_GOOD,
        transfer_status: 0,
    }
}

/// The run of cycles that carries `stream` under `frame_id`.
pub open spec fn run_of(frame_id: u16, stream: Seq<u8>, first_counter: u16) -> Seq<CyclicView> {
    Seq::new(cycle_count(stream.len()), |n: int| cycle_at(frame_id, stream, first_counter, n))
}

/// The Stream that `run` carries, its first counter the one that is
/// `expected`, where one is; or what breaks it first. Nothing behind the last
/// flag is looked at.
pub open spec fn stream_of(run: Seq<CyclicView>, expected: Option<u16>) -> Result<Seq<u8>, Error>
    decreases run.len(),
{
    if run.len() == 0 {
        Err(Error::NoLastCycle)
    } else {
        let cycle = run[0];
        if expected is Some && cycle.cycle_counter != expected->0 {
            Err(Error::CycleMissed)
        } else if cycle.data_status != DATA_STATUS_GOOD {
            Err(Error::StatusNotGood(cycle.data_status))
        } else if !cycle.holds_chunk() {
            Err(Error::ChunkTooLong)
        } else if cycle.is_last() {
            Ok(cycle.chunk())
        } else {
            match stream_of(run.drop_first(), Some(counter_after(cycle.cycle_counter, 1))) {
                Ok(rest) => Ok(cycle.chunk() + rest),
                Err(error) => Err(error),
            }
        }
    }
}

/// Whether every cycle of `run` whose chunk is read has a prologue to read.
pub open spec fn is_readable(run: Seq<CyclicView>, expected: Option<u16>) -> bool
    decreases run.len(),
{
    run.len() == 0 || {
        let cycle = run[0];
        ||| expected is Some && cycle.cycle_counter != expected->0
        ||| cycle.data_status != DATA_STATUS_GOOD
        ||| cycle.has_prologue() && (!cycle.holds_chunk() || cycle.is_last() || is_readable(
            run.drop_first(),
            Some(counter_after(cycle.cycle_counter, 1)),
        ))
    }
}

/// Where the chunk of cycle `n` stands in a Stream of `length` bytes: before
/// the end, a whole chunk's width from the next, and reaching the end in the
/// last cycle alone.
pub proof fn lemma_chunk_place(length: nat, n: int)
    requires
        0 <= n < cycle_count(length),
    ensures
        CHUNK * n == 36 * n,
        CHUNK * (n + 1) == 36 * n + 36,
        36 * n <= length,
        n + 1 == cycle_count(length) ==> length <= 36 * n + 36,
        n + 1 < cycle_count(length) ==> 36 * n + 36 < length,
{
    assert(CHUNK * n == 36 * n) by (nonlinear_arith)
        requires
            CHUNK == 36,
    ;
    assert(CHUNK * (n + 1) == 36 * n + 36) by (nonlinear_arith)
        requires
            CHUNK == 36,
    ;
    assert((length - 1) / CHUNK as int == (length - 1) / 36);
}

/// A step of the counter is one step, wherever it starts.
pub proof fn lemma_counter_steps(counter: u16, n: int)
    requires
        0 <= n,
    ensures
        counter_after(counter_after(counter, n), 1) == counter_after(counter, n + 1),
        counter_after(counter, n) != counter_after(counter, n + 1),
        counter_after(counter, 0) == counter,
{
    assert(CYCLE_STEP * n == 32 * n) by (nonlinear_arith)
        requires
            CYCLE_STEP == 32,
    ;
    assert(CYCLE_STEP * (n + 1) == 32 * n + 32) by (nonlinear_arith)
        requires
            CYCLE_STEP == 32,
    ;
    assert(CYCLE_STEP * 1 == 32 && CYCLE_STEP * 0 == 0) by (nonlinear_arith)
        requires
            CYCLE_STEP == 32,
    ;
}

/// The cyclic frame that `payload` carries, or why it carries none.
pub open spec fn decoded(payload: Seq<u8>) -> Result<CyclicView, Error> {
    if payload.len() != CYCLE {
        Err(Error::CycleLength(payload.len() as usize))
    } else if !is_class_1(wire::from_be16(payload[0], payload[1])) {
        Err(Error::NotClassOne(wire::from_be16(payload[0], payload[1])))
    } else {
        Ok(
            CyclicView {
                frame_id: wire::from_be16(payload[0], payload[1]),
                io_data: payload.subrange(2, 2 + IO_DATA),
                cycle_counter: wire::from_be16(payload[2 + IO_DATA], payload[3 + IO_DATA]),
                data_status: payload[4 + IO_DATA],
                transfer_status: payload[5 + IO_DATA],
            },
        )
    }
}

impl Cyclic {
    /// The frame's payload: `FrameID`, IO data, APDU status.
    #[must_use]
    pub fn encode(&self) -> (payload: Vec<u8>)
        ensures
            payload@ == self@.payload(),
            payload@.len() == CYCLE,
    {
        let mut out: Vec<u8> = Vec::with_capacity(CYCLE);
        wire::push_be16(&mut out, self.frame_id);
        wire::push_bytes(&mut out, &self.io_data);
        wire::fit(&mut out, 2 + IO_DATA);
        assert(out@ =~= wire::be16(self.frame_id) + wire::fitted(self.io_data@, IO_DATA as nat));
        wire::push_be16(&mut out, self.cycle_counter);
        out.push(self.data_status);
        out.push(self.transfer_status);
        assert(out@ =~= self@.payload());
        out
    }

    /// The cyclic frame `payload` carries.
    ///
    /// # Errors
    /// A `FrameID` outside class 1, or a length that is not one cycle's.
    pub fn decode(payload: &[u8]) -> (cycle: Result<Self, Error>)
        ensures
            match cycle {
                Ok(cycle) => decoded(payload@) == Ok::<CyclicView, Error>(cycle@),
                Err(error) => decoded(payload@) == Err::<CyclicView, Error>(error),
            },
    {
        if payload.len() != CYCLE {
            return Err(Error::CycleLength(payload.len()));
        }
        let frame_id: u16 = wire::read_be16(payload[0], payload[1]);
        if frame_id < RT_CLASS_1_FIRST || frame_id > RT_CLASS_1_LAST {
            return Err(Error::NotClassOne(frame_id));
        }
        let io_data = vstd::slice::slice_to_vec(
            vstd::slice::slice_subrange(payload, 2, 2 + IO_DATA),
        );
        Ok(
            Cyclic {
                frame_id,
                io_data,
                cycle_counter: wire::read_be16(payload[2 + IO_DATA], payload[3 + IO_DATA]),
                data_status: payload[4 + IO_DATA],
                transfer_status: payload[5 + IO_DATA],
            },
        )
    }

    /// The chunk of a Stream this cycle's IO data carries, and whether it
    /// is the last.
    ///
    /// # Errors
    /// A prologue naming more than the IO data holds.
    pub fn chunk(&self) -> (chunk: Result<(&[u8], bool), Error>)
        requires
            self@.has_prologue(),
        ensures
            match chunk {
                Ok((chunk, last)) => self@.holds_chunk() && chunk@ == self@.chunk() && last
                    == self@.is_last(),
                Err(error) => !self@.holds_chunk() && error == Error::ChunkTooLong,
            },
    {
        let length: usize = wire::read_be16(self.io_data[0], self.io_data[1]) as usize;
        let last = self.io_data[2] & 0x01 != 0;
        if self.io_data.len() < PROLOGUE + length {
            return Err(Error::ChunkTooLong);
        }
        let chunk = vstd::slice::slice_subrange(
            self.io_data.as_slice(),
            PROLOGUE,
            PROLOGUE + length,
        );
        Ok((chunk, last))
    }
}

/// The cycle counter `count` steps past `counter`, which wraps.
pub(crate) fn advance(counter: u16, count: usize) -> (after: u16)
    ensures
        after == counter_after(counter, count as int),
{
    // The counter comes round after 2048 steps.
    let steps: u16 = (count % 2048) as u16;
    proof {
        assert(CYCLE_STEP * count == 32 * count) by (nonlinear_arith)
            requires
                CYCLE_STEP == 32,
        ;
        assert(count == 2048 * (count / 2048) + count % 2048);
    }
    counter.wrapping_add(CYCLE_STEP * steps)
}

/// `payload` as the cycles that carry it under `frame_id`, counting from
/// `first_counter`: at least one, so an empty Stream is one empty cycle
/// with the last flag set.
#[must_use]
pub fn cycles(frame_id: u16, payload: &[u8], first_counter: u16) -> (run: Vec<Cyclic>)
    ensures
        run_view(run@) == run_of(frame_id, payload@, first_counter),
{
    let total: usize = if payload.is_empty() {
        1
    } else {
        (payload.len() - 1) / CHUNK + 1
    };
    let mut run: Vec<Cyclic> = Vec::with_capacity(total);
    let mut counter: u16 = first_counter;
    let mut n: usize = 0;
    proof {
        lemma_counter_steps(first_counter, 0);
    }
    while n < total
        invariant
            n <= total,
            total == cycle_count(payload@.len()),
            counter == counter_after(first_counter, n as int),
            run@.len() == n,
            forall|i: int|
                0 <= i < n ==> (#[trigger] run@[i])@ == cycle_at(
                    frame_id,
                    payload@,
                    first_counter,
                    i,
                ),
        decreases total - n,
    {
        let length: usize = payload.len();
        proof {
            lemma_chunk_place(payload@.len(), n as int);
            lemma_counter_steps(first_counter, n as int);
        }
        let start: usize = CHUNK * n;
        let end: usize = if length - start > CHUNK {
            start + CHUNK
        } else {
            length
        };
        let chunk = vstd::slice::slice_subrange(payload, start, end);
        let last = n + 1 == total;
        let mut io_data: Vec<u8> = Vec::with_capacity(IO_DATA);
        wire::push_be16(&mut io_data, wire::to_length_field(chunk.len()));
        io_data.push(
            if last {
                1
            } else {
                0
            },
        );
        io_data.push(0);
        wire::push_bytes(&mut io_data, chunk);
        wire::fit(&mut io_data, IO_DATA);
        let cycle = Cyclic {
            frame_id,
            io_data,
            cycle_counter: counter,
            data_status: DATA_STATUS_GOOD,
            transfer_status: 0,
        };
        assert(cycle@ =~= cycle_at(frame_id, payload@, first_counter, n as int));
        run.push(cycle);
        counter = counter.wrapping_add(CYCLE_STEP);
        n += 1;
    }
    assert(run_view(run@) =~= run_of(frame_id, payload@, first_counter));
    run
}

/// The Stream a run of cycles carries, checked for continuity: each cycle
/// counter one step past the last, and the run ending on a last flag.
///
/// # Errors
/// A cycle missed, a data status that is not good, or a run with no end.
pub fn assemble(cycles: Vec<Cyclic>) -> (stream: Result<Vec<u8>, Error>)
    requires
        is_readable(run_view(cycles@), None),
    ensures
        match stream {
            Ok(bytes) => stream_of(run_view(cycles@), None) == Ok::<Seq<u8>, Error>(bytes@),
            Err(error) => stream_of(run_view(cycles@), None) == Err::<Seq<u8>, Error>(error),
        },
{
    let ghost run = run_view(cycles@);
    let mut bytes: Vec<u8> = Vec::new();
    let mut expected: Option<u16> = None;
    let mut n: usize = 0;
    assert(run.skip(0) =~= run);
    while n < cycles.len()
        invariant
            n <= cycles@.len(),
            run == run_view(cycles@),
            is_readable(run.skip(n as int), expected),
            stream_of(run, None) == (match stream_of(run.skip(n as int), expected) {
                Ok(rest) => Ok::<Seq<u8>, Error>(bytes@ + rest),
                Err(error) => Err(error),
            }),
        decreases cycles@.len() - n,
    {
        let cycle = &cycles[n];
        assert(run.skip(n as int)[0] == cycle@);
        assert(run.skip(n as int).drop_first() =~= run.skip(n + 1));
        if let Some(counter) = expected {
            if cycle.cycle_counter != counter {
                return Err(Error::CycleMissed);
            }
        }
        if cycle.data_status != DATA_STATUS_GOOD {
            return Err(Error::StatusNotGood(cycle.data_status));
        }
        let (chunk, last) = match cycle.chunk() {
            Ok(chunk) => chunk,
            Err(error) => return Err(error),
        };
        let ghost before = bytes@;
        wire::push_bytes(&mut bytes, chunk);
        if last {
            return Ok(bytes);
        }
        proof {
            lemma_counter_steps(cycle.cycle_counter, 0);
        }
        expected = Some(cycle.cycle_counter.wrapping_add(CYCLE_STEP));
        n += 1;
        proof {
            if let Ok(rest) = stream_of(run.skip(n as int), expected) {
                assert(before + (chunk@ + rest) =~= bytes@ + rest);
            }
        }
    }
    Err(Error::NoLastCycle)
}

} // verus!
