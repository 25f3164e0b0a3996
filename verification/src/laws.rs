//! What holds of the library as a whole.

use vstd::prelude::*;

pub mod assembly;
pub mod exchange;
pub mod layout;
pub mod station;
pub mod writing;

use crate::controller;
use crate::controller::{ArrivedView, Counters, CyclesView, IdentifyView, TransportView};
use crate::cyclic;
use crate::cyclic::CyclicView;
use crate::dcp;
use crate::dcp::{BlockView, DcpView};
use crate::device::DeviceView;
use crate::error::Error;
use crate::frame;
use crate::frame::{FrameView, Mac};
use crate::in_process;
use crate::wire;

verus! {

/// A cycle of a run reads back as it was laid out: its chunk, its flag, its
/// counter.
pub proof fn a_cycle_reads_back(frame_id: u16, stream: Seq<u8>, first_counter: u16, n: int)
    requires
        0 <= n < cyclic::cycle_count(stream.len()),
    ensures
        cyclic::cycle_at(frame_id, stream, first_counter, n).has_prologue(),
        cyclic::cycle_at(frame_id, stream, first_counter, n).holds_chunk(),
        cyclic::cycle_at(frame_id, stream, first_counter, n).chunk() == cyclic::chunk_at(stream, n),
        cyclic::cycle_at(frame_id, stream, first_counter, n).is_last() <==> n + 1
            == cyclic::cycle_count(stream.len()),
        cyclic::chunk_at(stream, n).len() <= cyclic::CHUNK,
{
    let cycle = cyclic::cycle_at(frame_id, stream, first_counter, n);
    let chunk = cyclic::chunk_at(stream, n);
    cyclic::lemma_chunk_place(stream.len(), n);
    wire::lemma_be16(chunk.len() as u16);
    assert(1u8 & 0x01 != 0 && 0u8 & 0x01 == 0) by (bit_vector);
    assert(cycle.io_data[0] == wire::be16(chunk.len() as u16)[0]);
    assert(cycle.io_data[1] == wire::be16(chunk.len() as u16)[1]);
    assert(cycle.chunk() =~= chunk);
}

/// What is left of a run from cycle `n` on carries what is left of the
/// Stream.
proof fn lemma_rest_of_run(
    frame_id: u16,
    stream: Seq<u8>,
    first_counter: u16,
    n: int,
    expected: Option<u16>,
)
    requires
        0 <= n < cyclic::cycle_count(stream.len()),
        expected is Some ==> expected->0 == cyclic::counter_after(first_counter, n),
    ensures
        cyclic::is_readable(
            cyclic::run_of(frame_id, stream, first_counter).skip(n),
            expected,
        ),
        cyclic::stream_of(
            cyclic::run_of(frame_id, stream, first_counter).skip(n),
            expected,
        ) == Ok::<Seq<u8>, Error>(stream.skip(cyclic::CHUNK * n)),
    decreases cyclic::cycle_count(stream.len()) - n,
{
    let run = cyclic::run_of(frame_id, stream, first_counter);
    a_cycle_reads_back(frame_id, stream, first_counter, n);
    assert(run.skip(n)[0] == run[n]);
    assert(run.skip(n).drop_first() =~= run.skip(n + 1));
    cyclic::lemma_chunk_place(stream.len(), n);
    if n + 1 == run.len() {
        assert(cyclic::chunk_at(stream, n) =~= stream.skip(cyclic::CHUNK * n));
    } else {
        let next = cyclic::counter_after(run[n].cycle_counter, 1);
        cyclic::lemma_counter_steps(first_counter, n);
        lemma_rest_of_run(frame_id, stream, first_counter, n + 1, Some(next));
        assert(cyclic::chunk_at(stream, n) + stream.skip(cyclic::CHUNK * (n + 1)) =~= stream.skip(
            cyclic::CHUNK * n,
        ));
    }
}

/// A Stream of any length rides its run of cycles and assembles back whole.
pub proof fn a_stream_assembles_back(frame_id: u16, stream: Seq<u8>, first_counter: u16)
    ensures
        cyclic::is_readable(cyclic::run_of(frame_id, stream, first_counter), None),
        cyclic::stream_of(cyclic::run_of(frame_id, stream, first_counter), None) == Ok::<
            Seq<u8>,
            Error,
        >(stream),
{
    let run = cyclic::run_of(frame_id, stream, first_counter);
    lemma_rest_of_run(frame_id, stream, first_counter, 0, None);
    assert(run.skip(0) =~= run);
    assert(stream.skip(cyclic::CHUNK * 0) =~= stream);
}

/// A class 1 frame whose IO data fills its field is decoded as it was
/// encoded.
pub proof fn a_cycle_survives_the_wire(cycle: CyclicView)
    requires
        cyclic::is_class_1(cycle.frame_id),
        cycle.io_data.len() == cyclic::IO_DATA,
    ensures
        cyclic::decoded(cycle.payload()) == Ok::<CyclicView, Error>(cycle),
{
    wire::lemma_be16(cycle.frame_id);
    wire::lemma_be16(cycle.cycle_counter);
    assert(cyclic::decoded(cycle.payload())->Ok_0 =~= cycle);
}

/// What decodes as a cycle encodes to the same bytes again.
pub proof fn a_decoded_cycle_encodes_back(payload: Seq<u8>)
    requires
        cyclic::decoded(payload) is Ok,
    ensures
        cyclic::decoded(payload)->Ok_0.payload() == payload,
{
    wire::lemma_from_be16(payload[0], payload[1]);
    wire::lemma_from_be16(payload[42], payload[43]);
    assert(cyclic::decoded(payload)->Ok_0.payload() =~= payload);
}

/// A run cut anywhere before its last cycle is refused for want of an end.
pub proof fn a_cut_run_is_refused(frame_id: u16, stream: Seq<u8>, first_counter: u16, length: int)
    requires
        0 <= length < cyclic::cycle_count(stream.len()),
    ensures
        cyclic::stream_of(cyclic::run_of(frame_id, stream, first_counter).take(length), None)
            == Err::<Seq<u8>, Error>(Error::NoLastCycle),
{
    let run = cyclic::run_of(frame_id, stream, first_counter);
    lemma_cut_run(frame_id, stream, first_counter, 0, length, None);
    assert(run.subrange(0, length) =~= run.take(length));
}

proof fn lemma_cut_run(
    frame_id: u16,
    stream: Seq<u8>,
    first_counter: u16,
    n: int,
    length: int,
    expected: Option<u16>,
)
    requires
        0 <= n <= length < cyclic::cycle_count(stream.len()),
        expected is Some ==> expected->0 == cyclic::counter_after(first_counter, n),
    ensures
        cyclic::stream_of(
            cyclic::run_of(frame_id, stream, first_counter).subrange(n, length),
            expected,
        ) == Err::<Seq<u8>, Error>(Error::NoLastCycle),
    decreases length - n,
{
    let run = cyclic::run_of(frame_id, stream, first_counter);
    if n < length {
        a_cycle_reads_back(frame_id, stream, first_counter, n);
        assert(run.subrange(n, length)[0] == run[n]);
        assert(run.subrange(n, length).drop_first() =~= run.subrange(n + 1, length));
        let next = cyclic::counter_after(run[n].cycle_counter, 1);
        cyclic::lemma_counter_steps(first_counter, n);
        lemma_cut_run(frame_id, stream, first_counter, n + 1, length, Some(next));
    }
}

/// A run that misses a cycle between its first and its last is refused.
pub proof fn a_missed_cycle_is_refused(
    frame_id: u16,
    stream: Seq<u8>,
    first_counter: u16,
    missed: int,
)
    requires
        0 < missed < cyclic::cycle_count(stream.len()) - 1,
    ensures
        cyclic::stream_of(cyclic::run_of(frame_id, stream, first_counter).remove(missed), None)
            == Err::<Seq<u8>, Error>(Error::CycleMissed),
{
    let run = cyclic::run_of(frame_id, stream, first_counter).remove(missed);
    lemma_missed_cycle(frame_id, stream, first_counter, 0, missed, None);
    assert(run.skip(0) =~= run);
}

proof fn lemma_missed_cycle(
    frame_id: u16,
    stream: Seq<u8>,
    first_counter: u16,
    n: int,
    missed: int,
    expected: Option<u16>,
)
    requires
        0 <= n <= missed < cyclic::cycle_count(stream.len()) - 1,
        0 < missed,
        n == 0 ==> expected is None,
        n > 0 ==> expected == Some(cyclic::counter_after(first_counter, n)),
    ensures
        cyclic::stream_of(
            cyclic::run_of(frame_id, stream, first_counter).remove(missed).skip(n),
            expected,
        ) == Err::<Seq<u8>, Error>(Error::CycleMissed),
    decreases missed - n,
{
    let whole = cyclic::run_of(frame_id, stream, first_counter);
    let run = whole.remove(missed);
    assert(run.skip(n)[0] == run[n]);
    if n < missed {
        a_cycle_reads_back(frame_id, stream, first_counter, n);
        assert(run[n] == whole[n]);
        assert(run.skip(n).drop_first() =~= run.skip(n + 1));
        let next = cyclic::counter_after(run[n].cycle_counter, 1);
        cyclic::lemma_counter_steps(first_counter, n);
        lemma_missed_cycle(frame_id, stream, first_counter, n + 1, missed, Some(next));
    } else {
        assert(run[n] == whole[n + 1]);
        cyclic::lemma_counter_steps(first_counter, n);
    }
}

/// Nothing that follows the last cycle of a run changes what it carries.
pub proof fn what_follows_the_last_cycle_is_not_read(
    run: Seq<CyclicView>,
    expected: Option<u16>,
    more: Seq<CyclicView>,
)
    requires
        cyclic::stream_of(run, expected) is Ok,
    ensures
        cyclic::stream_of(run + more, expected) == cyclic::stream_of(run, expected),
    decreases run.len(),
{
    assert((run + more)[0] == run[0]);
    if !run[0].is_last() {
        let next = cyclic::counter_after(run[0].cycle_counter, 1);
        assert((run + more).drop_first() =~= run.drop_first() + more);
        what_follows_the_last_cycle_is_not_read(run.drop_first(), Some(next), more);
    }
}

/// Every block takes an even number of bytes, and so do any number of them.
pub proof fn blocks_are_padded_to_even(blocks: Seq<BlockView>)
    ensures
        forall|i: int| 0 <= i < blocks.len() ==> #[trigger] blocks[i].bytes().len() % 2 == 0,
        dcp::blocks_bytes(blocks).len() % 2 == 0,
    decreases blocks.len(),
{
    if blocks.len() > 0 {
        blocks_are_padded_to_even(blocks.drop_first());
    }
}

/// Blocks that a length field can count are read back as they were written.
pub proof fn blocks_survive_the_wire(blocks: Seq<BlockView>)
    requires
        dcp::blocks_bytes(blocks).len() <= 0xffff,
    ensures
        dcp::blocks_of(dcp::blocks_bytes(blocks)) == Ok::<Seq<BlockView>, Error>(blocks),
    decreases blocks.len(),
{
    let bytes = dcp::blocks_bytes(blocks);
    if blocks.len() == 0 {
        assert(blocks =~= Seq::empty());
    } else {
        let block = blocks[0];
        let rest = dcp::blocks_bytes(blocks.drop_first());
        let length = block.data.len() as int;
        wire::lemma_be16(length as u16);
        assert(bytes[2] == wire::be16(length as u16)[0]);
        assert(bytes[3] == wire::be16(length as u16)[1]);
        assert(bytes.subrange(4, 4 + length) =~= block.data);
        assert(dcp::past(bytes, 4 + length + length % 2) =~= rest);
        blocks_survive_the_wire(blocks.drop_first());
        assert(seq![block] + blocks.drop_first() =~= blocks);
    }
}

/// A DCP frame whose blocks a length field can count is decoded as it was
/// encoded, whatever pads it.
pub proof fn a_dcp_frame_survives_the_wire(frame: DcpView, padding: Seq<u8>)
    requires
        frame.fits(),
    ensures
        dcp::decoded(frame.payload()) == Ok::<Option<DcpView>, Error>(Some(frame)),
        dcp::decoded(frame.payload() + padding) == Ok::<Option<DcpView>, Error>(Some(frame)),
{
    let payload = frame.payload();
    let blocks = dcp::blocks_bytes(frame.blocks);
    let frame_id = dcp::frame_id_of(frame.service, frame.response);
    wire::lemma_be16(frame_id);
    wire::lemma_be32(frame.xid);
    wire::lemma_be16(blocks.len() as u16);
    assert(payload.subrange(0, 2) =~= wire::be16(frame_id));
    assert(payload.subrange(4, 8) =~= wire::be32(frame.xid));
    assert(payload.subrange(10, 12) =~= wire::be16(blocks.len() as u16));
    assert(payload.subrange(12, payload.len() as int) =~= blocks);
    blocks_survive_the_wire(frame.blocks);
    what_pads_a_dcp_frame_is_not_read(payload, padding);
}

/// Nothing that follows the data of a DCP frame changes what it says.
pub proof fn what_pads_a_dcp_frame_is_not_read(payload: Seq<u8>, padding: Seq<u8>)
    requires
        dcp::decoded(payload) is Ok,
    ensures
        dcp::decoded(payload + padding) == dcp::decoded(payload),
{
    let length = wire::from_be16(payload[10], payload[11]) as int;
    if dcp::is_dcp(wire::from_be16(payload[0], payload[1])) {
        assert((payload + padding).subrange(12, 12 + length) =~= payload.subrange(12, 12 + length));
    }
}

/// No payload is both a cycle and a DCP frame, sound or broken: what decodes
/// as a cycle is none of DCP's, and what is under one of DCP's `FrameID`s does
/// not decode as a cycle.
pub proof fn no_cycle_is_dcp(payload: Seq<u8>)
    ensures
        cyclic::decoded(payload) is Ok ==> dcp::decoded(payload) == Ok::<Option<DcpView>, Error>(
            None,
        ),
        payload.len() >= 2 && dcp::decoded(payload) != Ok::<Option<DcpView>, Error>(None)
            ==> cyclic::decoded(payload) is Err,
{
}

/// A frame that begins with a name block carries the name, whatever info or
/// qualifier stands before it.
pub proof fn a_name_block_carries_its_name(frame: DcpView, info: Seq<u8>, name: Seq<char>)
    requires
        info.len() == 2,
        frame.blocks.len() > 0,
        frame.blocks[0] == dcp::name_block(info, name),
    ensures
        frame.name_bytes() == Some(vstd::utf8::encode_utf8(name)),
        frame.name() == Some(name),
{
    let bytes = vstd::utf8::encode_utf8(name);
    assert((info + bytes).skip(2) =~= bytes);
    vstd::utf8::encode_utf8_valid_utf8(name);
    vstd::utf8::encode_utf8_decode_utf8(name);
}

/// A set names the station it was made for, and an identify request names
/// none.
pub proof fn a_set_carries_its_name(xid: u32, name: Seq<char>)
    ensures
        dcp::set_name(xid, name).name() == Some(name),
        dcp::identify_all(xid).name() is None,
{
    a_name_block_carries_its_name(dcp::set_name(xid, name), seq![0x00u8, 0x01u8], name);
    reveal_with_fuel(dcp::name_data, 2);
}

/// A run with a cycle whose data status is not good is refused for it.
pub proof fn a_bad_status_is_refused(
    frame_id: u16,
    stream: Seq<u8>,
    first_counter: u16,
    bad: int,
    status: u8,
)
    requires
        0 <= bad < cyclic::cycle_count(stream.len()),
        status != cyclic::DATA_STATUS_GOOD,
    ensures
        ({
            let run = cyclic::run_of(frame_id, stream, first_counter);
            let cycle = CyclicView { data_status: status, ..run[bad] };
            cyclic::stream_of(run.update(bad, cycle), None) == Err::<Seq<u8>, Error>(
                Error::StatusNotGood(status),
            )
        }),
{
    let whole = cyclic::run_of(frame_id, stream, first_counter);
    let run = whole.update(bad, CyclicView { data_status: status, ..whole[bad] });
    lemma_bad_status(frame_id, stream, first_counter, 0, bad, status, None);
    assert(run.skip(0) =~= run);
}

proof fn lemma_bad_status(
    frame_id: u16,
    stream: Seq<u8>,
    first_counter: u16,
    n: int,
    bad: int,
    status: u8,
    expected: Option<u16>,
)
    requires
        0 <= n <= bad < cyclic::cycle_count(stream.len()),
        status != cyclic::DATA_STATUS_GOOD,
        expected is Some ==> expected->0 == cyclic::counter_after(first_counter, n),
    ensures
        ({
            let run = cyclic::run_of(frame_id, stream, first_counter);
            let cycle = CyclicView { data_status: status, ..run[bad] };
            cyclic::stream_of(run.update(bad, cycle).skip(n), expected) == Err::<Seq<u8>, Error>(
                Error::StatusNotGood(status),
            )
        }),
    decreases bad - n,
{
    let whole = cyclic::run_of(frame_id, stream, first_counter);
    let run = whole.update(bad, CyclicView { data_status: status, ..whole[bad] });
    assert(run.skip(n)[0] == run[n]);
    if n < bad {
        a_cycle_reads_back(frame_id, stream, first_counter, n);
        assert(run.skip(n).drop_first() =~= run.skip(n + 1));
        let next = cyclic::counter_after(run[n].cycle_counter, 1);
        cyclic::lemma_counter_steps(first_counter, n);
        lemma_bad_status(frame_id, stream, first_counter, n + 1, bad, status, Some(next));
    }
}

/// The payload of every cycle of a class 1 run decodes to that cycle, and to
/// nothing of DCP's.
proof fn lemma_cycle_payload(frame_id: u16, stream: Seq<u8>, first_counter: u16, n: int)
    requires
        cyclic::is_class_1(frame_id),
        0 <= n < cyclic::cycle_count(stream.len()),
    ensures
        ({
            let cycle = cyclic::cycle_at(frame_id, stream, first_counter, n);
            &&& cyclic::decoded(cycle.payload()) == Ok::<CyclicView, Error>(cycle)
            &&& dcp::decoded(cycle.payload()) == Ok::<Option<DcpView>, Error>(None)
        }),
{
    let cycle = cyclic::cycle_at(frame_id, stream, first_counter, n);
    a_cycle_survives_the_wire(cycle);
    no_cycle_is_dcp(cycle.payload());
}

/// A device sends a class 1 run that was meant for it back to where it came
/// from, cycle by cycle, behind what waits already, and keeps its name.
pub proof fn a_device_mirrors_a_run(
    device: DeviceView,
    source: Mac,
    frame_id: u16,
    stream: Seq<u8>,
    first_counter: u16,
)
    requires
        cyclic::is_class_1(frame_id),
    ensures
        ({
            let run = cyclic::run_of(frame_id, stream, first_counter);
            device.after_all(controller::run_frames(device.mac, source, run))
                == in_process::holding(
                device,
                device.to_controller + controller::run_frames(source, device.mac, run),
            )
        }),
{
    let run = cyclic::run_of(frame_id, stream, first_counter);
    let out = controller::run_frames(device.mac, source, run);
    let back = controller::run_frames(source, device.mac, run);
    assert forall|i: int| 0 <= i < out.len() implies is_mirrored(
        #[trigger] out[i],
        back[i],
        device.mac,
    ) by {
        lemma_cycle_payload(frame_id, stream, first_counter, i);
    }
    lemma_mirrors_all(device, out, back);
}

/// Whether a device at `mac` sends `back` for `out`, whatever its state.
spec fn is_mirrored(out: FrameView, back: FrameView, mac: Mac) -> bool {
    &&& out.ethertype == dcp::ETHERTYPE
    &&& out.destination == mac
    &&& dcp::decoded(out.payload) == Ok::<Option<DcpView>, Error>(None)
    &&& back == controller::framed(out.source, mac, out.payload)
}

proof fn lemma_mirrors_one(device: DeviceView, out: FrameView, back: FrameView)
    requires
        is_mirrored(out, back, device.mac),
    ensures
        device.after(out) == in_process::holding(device, device.to_controller.push(back)),
{
    assert(device.request_in(out) is None);
    assert(device.mirrors(out));
}

proof fn lemma_mirrors_all(device: DeviceView, out: Seq<FrameView>, back: Seq<FrameView>)
    requires
        out.len() == back.len(),
        forall|i: int|
            0 <= i < out.len() ==> is_mirrored(#[trigger] out[i], back[i], device.mac),
    ensures
        device.after_all(out) == in_process::holding(device, device.to_controller + back),
    decreases out.len(),
{
    if out.len() == 0 {
        assert(device.to_controller + back =~= device.to_controller);
    } else {
        let next = device.after(out[0]);
        assert(is_mirrored(out[0], back[0], device.mac));
        lemma_mirrors_one(device, out[0], back[0]);
        assert forall|i: int| 0 <= i < out.drop_first().len() implies is_mirrored(
            #[trigger] out.drop_first()[i],
            back.drop_first()[i],
            next.mac,
        ) by {
            assert(is_mirrored(out[i + 1], back[i + 1], device.mac));
        }
        lemma_mirrors_all(next, out.drop_first(), back.drop_first());
        assert(next.to_controller + back.drop_first() =~= device.to_controller + back);
    }
}

/// A class 1 run that comes in to its controller brings the Stream and its
/// sender, and what comes behind it is left.
pub proof fn a_run_arrives(
    destination: Mac,
    source: Mac,
    frame_id: u16,
    stream: Seq<u8>,
    first_counter: u16,
    more: Seq<FrameView>,
)
    requires
        cyclic::is_class_1(frame_id),
    ensures
        ({
            let run = cyclic::run_of(frame_id, stream, first_counter);
            in_process::stream_in(
                CyclesView { controller: destination, run: Seq::empty() },
                controller::run_frames(destination, source, run) + more,
            ) == (
                Ok::<Option<ArrivedView>, Error>(Some(ArrivedView { source, bytes: stream })),
                more,
            )
        }),
{
    let run = cyclic::run_of(frame_id, stream, first_counter);
    let frames = controller::run_frames(destination, source, run);
    assert forall|i: int| 0 <= i < run.len() implies is_brought(
        #[trigger] frames[i],
        destination,
        source,
        run[i],
    ) by {
        lemma_cycle_payload(frame_id, stream, first_counter, i);
    }
    assert forall|i: int| 0 <= i < run.len() implies (#[trigger] run[i]).holds_chunk() && (
    run[i].is_last() <==> i + 1 == run.len()) by {
        a_cycle_reads_back(frame_id, stream, first_counter, i);
    }
    a_stream_assembles_back(frame_id, stream, first_counter);
    assert(run.take(0) =~= Seq::empty());
    assert(frames.skip(0) =~= frames);
    lemma_run_comes_in(destination, source, run, frames, stream, more, 0);
}

/// Whether `frame` brings `cycle` from `source` to `destination`.
spec fn is_brought(frame: FrameView, destination: Mac, source: Mac, cycle: CyclicView) -> bool {
    &&& frame.ethertype == dcp::ETHERTYPE
    &&& frame.destination == destination
    &&& frame.source == source
    &&& cyclic::decoded(frame.payload) == Ok::<CyclicView, Error>(cycle)
}

proof fn lemma_run_comes_in(
    destination: Mac,
    source: Mac,
    run: Seq<CyclicView>,
    frames: Seq<FrameView>,
    stream: Seq<u8>,
    more: Seq<FrameView>,
    n: int,
)
    requires
        0 <= n < run.len(),
        frames.len() == run.len(),
        forall|i: int|
            0 <= i < run.len() ==> is_brought(#[trigger] frames[i], destination, source, run[i]),
        forall|i: int|
            0 <= i < run.len() ==> (#[trigger] run[i]).holds_chunk() && (run[i].is_last() <==> i + 1
                == run.len()),
        cyclic::stream_of(run, None) == Ok::<Seq<u8>, Error>(stream),
    ensures
        in_process::stream_in(
            CyclesView { controller: destination, run: run.take(n) },
            frames.skip(n) + more,
        ) == (
            Ok::<Option<ArrivedView>, Error>(Some(ArrivedView { source, bytes: stream })),
            more,
        ),
    decreases run.len() - n,
{
    let left = frames.skip(n) + more;
    let exchange = CyclesView { controller: destination, run: run.take(n) };
    assert(left[0] == frames[n]);
    assert(is_brought(frames[n], destination, source, run[n]));
    assert(run[n].holds_chunk());
    assert(exchange.cycle_in(left[0]) == Some(run[n]));
    assert(exchange.with(run[n]).run =~= run.take(n + 1));
    if n + 1 == run.len() {
        assert(run.take(n + 1) =~= run);
        assert(left.drop_first() =~= more);
    } else {
        assert(left.drop_first() =~= frames.skip(n + 1) + more);
        lemma_run_comes_in(destination, source, run, frames, stream, more, n + 1);
    }
}

/// A Stream of any length cycled out to a device on a quiet link comes back
/// whole, from that device, and leaves the link quiet and the device as it
/// was.
pub proof fn a_stream_comes_back(
    transport: TransportView,
    counters: Counters,
    device: DeviceView,
    stream: Seq<u8>,
)
    requires
        cyclic::is_class_1(transport.frame_id),
        device.to_controller.len() == 0,
    ensures
        ({
            let after = device.after_all(
                in_process::cycle_frames(transport, counters, device.mac, stream),
            );
            let (arrived, left) = in_process::stream_in(
                in_process::waiting(transport),
                after.to_controller,
            );
            &&& arrived == Ok::<Option<ArrivedView>, Error>(
                Some(ArrivedView { source: device.mac, bytes: stream }),
            )
            &&& in_process::holding(after, left) == device
        }),
{
    let run = transport.next_run(counters, stream);
    let back = controller::run_frames(transport.controller, device.mac, run);
    a_device_mirrors_a_run(
        device,
        transport.controller,
        transport.frame_id,
        stream,
        counters.cycle,
    );
    a_run_arrives(
        transport.controller,
        device.mac,
        transport.frame_id,
        stream,
        counters.cycle,
        Seq::empty(),
    );
    assert(device.to_controller + back =~= back + Seq::<FrameView>::empty());
    assert(device.to_controller =~= Seq::empty());
}

/// The counter runs on from one Stream to the next: the first cycle of the
/// next run is one step past the last of this one, however long it was.
pub proof fn the_counter_runs_on(
    transport: TransportView,
    counters: Counters,
    stream: Seq<u8>,
    next: Seq<u8>,
)
    ensures
        transport.next_run(counters.after_cycles(stream), next)[0].cycle_counter
            == cyclic::counter_after(
            transport.next_run(counters, stream).last().cycle_counter,
            1,
        ),
{
    let count = cyclic::cycle_count(stream.len()) as int;
    cyclic::lemma_counter_steps(counters.cycle, count - 1);
    cyclic::lemma_counter_steps(counters.after_cycles(stream).cycle, 0);
}

/// A frame for another station, or not under PROFINET's `EtherType`, leaves a
/// device as it is.
pub proof fn what_is_not_for_a_device_is_dropped(device: DeviceView, frame: FrameView)
    requires
        frame.ethertype != dcp::ETHERTYPE || frame.destination != device.mac
            && !frame::names_group(frame.destination),
    ensures
        device.after(frame) == device,
{
    assert(device.after(frame) =~= device);
}

/// An identify request goes to a group, so every device takes it.
pub proof fn an_identify_request_reaches_every_device(
    transport: TransportView,
    counters: Counters,
    device: DeviceView,
)
    ensures
        device.takes(in_process::identify_frame(transport, counters)),
        device.request_in(in_process::identify_frame(transport, counters)) == Some(
            dcp::identify_all(counters.xid),
        ),
{
    let request = dcp::identify_all(counters.xid);
    reveal_with_fuel(dcp::blocks_bytes, 2);
    assert(0x01u8 & 0x01 != 0) by (bit_vector);
    a_dcp_frame_survives_the_wire(request, Seq::empty());
}

/// What an identify exchange has found once one more frame came in.
proof fn lemma_found_behind(exchange: IdentifyView, frames: Seq<FrameView>, frame: FrameView)
    ensures
        in_process::found_in(exchange, frames.push(frame)) == (IdentifyView {
            found: in_process::found_in(exchange, frames),
            ..exchange
        }).after(frame).found,
    decreases frames.len(),
{
    if frames.len() == 0 {
        reveal_with_fuel(in_process::found_in, 2);
        assert(frames.push(frame).drop_first() =~= Seq::empty());
    } else {
        assert(frames.push(frame)[0] == frames[0]);
        assert(frames.push(frame).drop_first() =~= frames.drop_first().push(frame));
        lemma_found_behind(exchange.after(frames[0]), frames.drop_first(), frame);
    }
}

/// A device is found by an identify request, with its name of station, as
/// long as the length fields of the answer can count the name. On a quiet
/// link it is all that is found, and the device is then as it was.
pub proof fn identify_finds_the_device(
    transport: TransportView,
    counters: Counters,
    device: DeviceView,
)
    requires
        vstd::utf8::encode_utf8(device.name).len() <= 65528,
    ensures
        ({
            let after = device.after(in_process::identify_frame(transport, counters));
            let found = in_process::found_in(
                IdentifyView { xid: counters.xid, found: Seq::empty() },
                after.to_controller,
            );
            &&& found.len() > 0 && found.last() == (device.mac, device.name)
            &&& device.to_controller.len() == 0 ==> found == seq![(device.mac, device.name)]
            &&& device.to_controller.len() == 0 ==> in_process::holding(after, Seq::empty())
                == device
        }),
{
    let request = dcp::identify_all(counters.xid);
    let answer = request.answered_with(device.answer_blocks(request.service));
    let after = device.after(in_process::identify_frame(transport, counters));
    let exchange = IdentifyView { xid: counters.xid, found: Seq::empty() };
    an_identify_request_reaches_every_device(transport, counters, device);
    reveal_with_fuel(dcp::blocks_bytes, 2);
    a_dcp_frame_survives_the_wire(answer, Seq::empty());
    a_name_block_carries_its_name(answer, seq![0u8, 0u8], device.name);
    lemma_found_behind(exchange, device.to_controller, after.to_controller.last());
    if device.to_controller.len() == 0 {
        assert(in_process::found_in(exchange, device.to_controller) =~= Seq::empty());
        assert(in_process::found_in(exchange, after.to_controller) =~= seq![
            (device.mac, device.name),
        ]);
        assert(device.to_controller =~= Seq::empty());
    }
}

/// Only the device that is set a name can say that it has it: where no frame
/// that came in is from the device, the set is unanswered, whatever others
/// sent.
pub proof fn only_the_device_answers_a_set(frames: Seq<FrameView>, xid: u32, device: Mac)
    requires
        forall|i: int| 0 <= i < frames.len() ==> (#[trigger] frames[i]).source != device,
    ensures
        in_process::past_answer(frames, xid, device) is None,
    decreases frames.len(),
{
    if frames.len() > 0 {
        assert(frames[0].source != device);
        only_the_device_answers_a_set(frames.drop_first(), xid, device);
    }
}

/// An answer is found behind whatever else came in.
proof fn lemma_answer_behind(frames: Seq<FrameView>, frame: FrameView, xid: u32, device: Mac)
    requires
        controller::is_answered_by(frame, xid, device),
    ensures
        in_process::past_answer(frames.push(frame), xid, device) is Some,
        frames.len() == 0 ==> in_process::past_answer(frames.push(frame), xid, device) == Some(
            Seq::<FrameView>::empty(),
        ),
    decreases frames.len(),
{
    if frames.len() == 0 {
        assert(frames.push(frame).drop_first() =~= Seq::empty());
    } else {
        assert(frames.push(frame).drop_first() =~= frames.drop_first().push(frame));
        lemma_answer_behind(frames.drop_first(), frame, xid, device);
    }
}

/// A device that is set a name takes it and answers, as long as the length
/// fields of the request can count the name; on a quiet link nothing else is
/// left.
pub proof fn a_set_names_the_device(
    transport: TransportView,
    counters: Counters,
    device: DeviceView,
    name: Seq<char>,
)
    requires
        vstd::utf8::encode_utf8(name).len() <= 65528,
    ensures
        ({
            let after = device.after(
                in_process::naming_frame(transport, counters, device.mac, name),
            );
            &&& after.name == name
            &&& in_process::past_answer(after.to_controller, counters.xid, device.mac) is Some
            &&& device.to_controller.len() == 0 ==> in_process::past_answer(
                after.to_controller,
                counters.xid,
                device.mac,
            ) == Some(Seq::<FrameView>::empty())
        }),
{
    let request = dcp::set_name(counters.xid, name);
    let answer = request.answered_with(Seq::empty());
    let after = device.after(in_process::naming_frame(transport, counters, device.mac, name));
    reveal_with_fuel(dcp::blocks_bytes, 2);
    a_dcp_frame_survives_the_wire(request, Seq::empty());
    a_set_carries_its_name(counters.xid, name);
    a_dcp_frame_survives_the_wire(answer, Seq::empty());
    lemma_answer_behind(
        device.to_controller,
        after.to_controller.last(),
        counters.xid,
        device.mac,
    );
}

/// A name that a device was set is the one that it is found with, whatever
/// the controller left waiting in between.
pub proof fn a_set_name_is_found(
    transport: TransportView,
    counters: Counters,
    device: DeviceView,
    name: Seq<char>,
    left: Seq<FrameView>,
)
    requires
        vstd::utf8::encode_utf8(name).len() <= 65528,
    ensures
        ({
            let named = in_process::holding(
                device.after(in_process::naming_frame(transport, counters, device.mac, name)),
                left,
            );
            let later = counters.after_request();
            let found = in_process::found_in(
                IdentifyView { xid: later.xid, found: Seq::empty() },
                named.after(in_process::identify_frame(transport, later)).to_controller,
            );
            &&& found.len() > 0 && found.last() == (device.mac, name)
            &&& left.len() == 0 ==> found == seq![(device.mac, name)]
        }),
{
    let named = in_process::holding(
        device.after(in_process::naming_frame(transport, counters, device.mac, name)),
        left,
    );
    a_set_names_the_device(transport, counters, device, name);
    identify_finds_the_device(transport, counters.after_request(), named);
}

/// A set for a station that is not on the link changes nothing there and gets
/// no answer, unless a frame of that station's waited already.
pub proof fn a_set_for_another_is_not_answered(
    transport: TransportView,
    counters: Counters,
    device: DeviceView,
    other: Mac,
    name: Seq<char>,
)
    requires
        forall|i: int|
            0 <= i < device.to_controller.len() ==> (#[trigger] device.to_controller[i]).source
                != other,
        other != device.mac,
        !frame::names_group(other),
    ensures
        device.after(in_process::naming_frame(transport, counters, other, name)) == device,
        in_process::past_answer(
            device.after(in_process::naming_frame(transport, counters, other, name)).to_controller,
            counters.xid,
            other,
        ) is None,
{
    what_is_not_for_a_device_is_dropped(
        device,
        in_process::naming_frame(transport, counters, other, name),
    );
    only_the_device_answers_a_set(device.to_controller, counters.xid, other);
}

} // verus!
