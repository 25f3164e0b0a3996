//! What a controller makes of the frames that come in, whatever else is on
//! the link.

use vstd::prelude::*;

use crate::controller;
use crate::controller::{
    Arrived, ArrivedView, Counters, CyclesStep, CyclesStepView, CyclesView, IdentifyView, NamingStep,
    TransportView,
};
use crate::cyclic;
use crate::cyclic::CyclicView;
use crate::dcp;
use crate::device::DeviceView;
use crate::error::Error;
use crate::frame::{Frame, FrameView, Mac};
use crate::in_process;
use crate::laws;
use crate::laws::assembly::chunk_end;
use crate::laws::layout;
use crate::laws::layout::number;

verus! {

/// Whether `frame` brings no cycle to `controller`: it is not PROFINET, goes
/// to another station, or holds anything but a cycle of class 1.
pub open spec fn is_stray(frame: FrameView, controller: Mac) -> bool {
    ||| frame.ethertype != 0x8892
    ||| frame.destination != controller
    ||| frame.payload.len() != 46
    ||| !(0x8000 <= number(frame.payload[0], frame.payload[1]) <= 0xbbff)
}

/// The frames that bring a cycle to `controller`, in order.
pub open spec fn cycles_among(frames: Seq<FrameView>, controller: Mac) -> Seq<FrameView> {
    frames.filter(|frame: FrameView| !is_stray(frame, controller))
}

/// Whether `frame` brings `cycle` to `controller`.
pub open spec fn brings(frame: FrameView, controller: Mac, cycle: CyclicView) -> bool {
    &&& frame.ethertype == 0x8892
    &&& frame.destination == controller
    &&& frame.payload == cycle.payload()
    &&& cycle.io_data.len() == 40
    &&& 0x8000 <= cycle.frame_id <= 0xbbff
}

/// A frame either is a stray or brings one cycle.
pub proof fn a_frame_is_a_stray_or_brings_a_cycle(
    frame: FrameView,
    controller: Mac,
    cycle: CyclicView,
    other: CyclicView,
)
    ensures
        brings(frame, controller, cycle) ==> !is_stray(frame, controller),
        brings(frame, controller, cycle) && brings(frame, controller, other) ==> cycle == other,
        !is_stray(frame, controller) ==> exists|brought: CyclicView|
            #[trigger] brings(frame, controller, brought),
{
    layout::a_cycle_is_decoded_from_its_bytes_alone(frame.payload, cycle);
    layout::a_cycle_is_decoded_from_its_bytes_alone(frame.payload, other);
    if !is_stray(frame, controller) {
        let brought = cyclic::decoded(frame.payload)->Ok_0;
        layout::a_cycle_is_decoded_from_its_bytes_alone(frame.payload, brought);
        assert(brings(frame, controller, brought));
    }
}

/// A stray frame leaves the exchange as it was, whatever came in before.
pub proof fn a_stray_frame_changes_nothing(exchange: CyclesView, frame: FrameView, expired: bool)
    requires
        is_stray(frame, exchange.controller),
    ensures
        exchange.step(Some(frame), expired) == Ok::<CyclesStepView, Error>(
            CyclesStepView::Receive(exchange),
        ),
{
}

/// A cycle goes behind those that came in before it. One whose chunk runs past
/// its IO data breaks the run; the one that is flagged as the last ends it,
/// and what the cycles carry then has come in from its sender.
pub proof fn a_cycle_joins_the_run(
    exchange: CyclesView,
    frame: FrameView,
    cycle: CyclicView,
    expired: bool,
)
    requires
        brings(frame, exchange.controller, cycle),
    ensures
        chunk_end(cycle) > 40 ==> exchange.step(Some(frame), expired) == Err::<
            CyclesStepView,
            Error,
        >(Error::ChunkTooLong),
        chunk_end(cycle) <= 40 && cycle.io_data[2] % 2 == 0 ==> exchange.step(Some(frame), expired)
            == Ok::<CyclesStepView, Error>(
            CyclesStepView::Receive(
                CyclesView { controller: exchange.controller, run: exchange.run.push(cycle) },
            ),
        ),
        chunk_end(cycle) <= 40 && cycle.io_data[2] % 2 == 1 ==> exchange.step(Some(frame), expired)
            == match cyclic::stream_of(exchange.run.push(cycle), None) {
            Ok(bytes) => Ok::<CyclesStepView, Error>(
                CyclesStepView::Arrived(ArrivedView { source: frame.source, bytes }),
            ),
            Err(error) => Err(error),
        },
{
    layout::a_cycle_is_decoded_from_its_bytes_alone(frame.payload, cycle);
    layout::a_chunk_stands_behind_its_prologue(cycle);
}

/// A quiet link ends an exchange in which no run began, stops a run once its
/// time is over, and otherwise leaves it as it was.
pub proof fn a_quiet_link_is_waited_for(exchange: CyclesView, expired: bool)
    ensures
        exchange.run.len() == 0 ==> exchange.step(None, expired) == Ok::<CyclesStepView, Error>(
            CyclesStepView::Quiet,
        ),
        exchange.run.len() > 0 && expired ==> exchange.step(None, expired) == Err::<
            CyclesStepView,
            Error,
        >(Error::CyclesStopped),
        exchange.run.len() > 0 && !expired ==> exchange.step(None, expired) == Ok::<
            CyclesStepView,
            Error,
        >(CyclesStepView::Yield(exchange)),
{
}

proof fn lemma_filter_first(frames: Seq<FrameView>, keeps: spec_fn(FrameView) -> bool)
    requires
        frames.len() > 0,
    ensures
        frames.filter(keeps) == if keeps(frames[0]) {
            seq![frames[0]] + frames.drop_first().filter(keeps)
        } else {
            frames.drop_first().filter(keeps)
        },
{
    let first = seq![frames[0]];
    assert(frames =~= first + frames.drop_first());
    Seq::filter_distributes_over_add(first, frames.drop_first(), keeps);
    reveal_with_fuel(Seq::filter, 2);
    assert(first.drop_last() =~= Seq::empty());
    assert(first.filter(keeps) =~= if keeps(frames[0]) {
        first
    } else {
        Seq::empty()
    });
    assert(Seq::<FrameView>::empty() + frames.drop_first().filter(keeps)
        =~= frames.drop_first().filter(keeps));
}

/// Strays among the frames, however many and wherever, change nothing: what
/// comes in is what the frames between them bring on their own, and so is
/// what is left.
pub proof fn strays_do_not_matter(exchange: CyclesView, frames: Seq<FrameView>)
    ensures
        ({
            let (stream, left) = in_process::stream_in(exchange, frames);
            let (alone, rest) = in_process::stream_in(
                exchange,
                cycles_among(frames, exchange.controller),
            );
            &&& stream == alone
            &&& cycles_among(left, exchange.controller) == rest
        }),
    decreases frames.len(),
{
    let keeps = |frame: FrameView| !is_stray(frame, exchange.controller);
    if frames.len() == 0 {
        reveal(Seq::filter);
    } else {
        let rest = frames.drop_first();
        let kept = frames.filter(keeps);
        lemma_filter_first(frames, keeps);
        if is_stray(frames[0], exchange.controller) {
            a_stray_frame_changes_nothing(exchange, frames[0], true);
            strays_do_not_matter(exchange, rest);
        } else {
            assert(kept[0] == frames[0]);
            assert(kept.drop_first() =~= rest.filter(keeps));
            match exchange.step(Some(frames[0]), true) {
                Ok(CyclesStepView::Receive(next)) => {
                    assert(next.controller == exchange.controller);
                    strays_do_not_matter(next, rest);
                },
                _ => {},
            }
        }
    }
}

/// A run arrives whole past any frames that bring no cycle to its
/// destination, wherever they stand between its own.
pub proof fn a_run_arrives_past_strays(
    destination: Mac,
    source: Mac,
    frame_id: u16,
    stream: Seq<u8>,
    first_counter: u16,
    frames: Seq<FrameView>,
)
    requires
        0x8000 <= frame_id <= 0xbbff,
        cycles_among(frames, destination) == controller::run_frames(
            destination,
            source,
            cyclic::run_of(frame_id, stream, first_counter),
        ),
    ensures
        in_process::stream_in(
            CyclesView { controller: destination, run: Seq::empty() },
            frames,
        ).0 == Ok::<Option<ArrivedView>, Error>(Some(ArrivedView { source, bytes: stream })),
{
    let run = cyclic::run_of(frame_id, stream, first_counter);
    let alone = controller::run_frames(destination, source, run);
    strays_do_not_matter(CyclesView { controller: destination, run: Seq::empty() }, frames);
    laws::a_run_arrives(destination, source, frame_id, stream, first_counter, Seq::empty());
    assert(alone + Seq::<FrameView>::empty() =~= alone);
}

/// Where the frames bring `cycles`, the first behind which the exchange does
/// not go on ends it, with the frames behind that one left: a chunk too long
/// breaks it, the last flag has the whole run read, and a link that falls
/// quiet first has brought nothing, or stopped.
pub proof fn the_first_cycle_that_ends_an_exchange_decides(
    exchange: CyclesView,
    frames: Seq<FrameView>,
    cycles: Seq<CyclicView>,
    k: int,
)
    requires
        frames.len() == cycles.len(),
        forall|i: int|
            0 <= i < frames.len() ==> brings(
                #[trigger] frames[i],
                exchange.controller,
                cycles[i],
            ),
        0 <= k <= frames.len(),
        forall|i: int|
            0 <= i < k ==> chunk_end(#[trigger] cycles[i]) <= 40 && cycles[i].io_data[2] % 2 == 0,
    ensures
        k == frames.len() ==> in_process::stream_in(exchange, frames) == (
            if exchange.run.len() + k == 0 {
                Ok::<Option<ArrivedView>, Error>(None)
            } else {
                Err(Error::CyclesStopped)
            },
            Seq::<FrameView>::empty(),
        ),
        k < frames.len() && chunk_end(cycles[k]) > 40 ==> in_process::stream_in(exchange, frames)
            == (Err::<Option<ArrivedView>, Error>(Error::ChunkTooLong), frames.skip(k + 1)),
        k < frames.len() && chunk_end(cycles[k]) <= 40 && cycles[k].io_data[2] % 2 == 1
            ==> in_process::stream_in(exchange, frames) == (
            match cyclic::stream_of(exchange.run + cycles.take(k + 1), None) {
                Ok(bytes) => Ok::<Option<ArrivedView>, Error>(
                    Some(ArrivedView { source: frames[k].source, bytes }),
                ),
                Err(error) => Err(error),
            },
            frames.skip(k + 1),
        ),
    decreases k,
{
    if frames.len() > 0 {
        assert(brings(frames[0], exchange.controller, cycles[0]));
        a_cycle_joins_the_run(exchange, frames[0], cycles[0], true);
        let rest = frames.drop_first();
        if k == 0 {
            assert(rest =~= frames.skip(1));
            assert(exchange.run + cycles.take(1) =~= exchange.run.push(cycles[0]));
        } else {
            let next = CyclesView {
                controller: exchange.controller,
                run: exchange.run.push(cycles[0]),
            };
            let later = cycles.drop_first();
            assert forall|i: int| 0 <= i < rest.len() implies brings(
                #[trigger] rest[i],
                next.controller,
                later[i],
            ) by {
                assert(brings(frames[i + 1], exchange.controller, cycles[i + 1]));
            }
            the_first_cycle_that_ends_an_exchange_decides(next, rest, later, k - 1);
            if k < frames.len() {
                assert(rest.skip(k) =~= frames.skip(k + 1));
                assert(next.run + later.take(k) =~= exchange.run + cycles.take(k + 1));
            }
        }
    } else {
        assert(frames =~= Seq::empty());
    }
}

/// Whether `frame` answers the request under `xid`.
pub open spec fn is_answer(frame: FrameView, xid: u32) -> bool {
    dcp::decoded(frame.payload) matches Ok(Some(message)) && message.response && message.xid == xid
}

/// The frames that answer the request under `xid`, in order.
pub open spec fn answers_among(frames: Seq<FrameView>, xid: u32) -> Seq<FrameView> {
    frames.filter(|frame: FrameView| is_answer(frame, xid))
}

/// Who sent `frame`, under the name of station that it gives, or none.
pub open spec fn sender(frame: FrameView) -> (Mac, Seq<char>) {
    (
        frame.source,
        match dcp::decoded(frame.payload)->Ok_0->0.name() {
            Some(name) => name,
            None => Seq::empty(),
        },
    )
}

/// A frame that answers the request puts its sender behind those found before
/// it, all of which stay; any other frame changes nothing.
pub proof fn what_was_found_stays_found(exchange: IdentifyView, frame: FrameView)
    ensures
        exchange.after(frame).xid == exchange.xid,
        is_answer(frame, exchange.xid) ==> exchange.after(frame).found == exchange.found.push(
            sender(frame),
        ),
        !is_answer(frame, exchange.xid) ==> exchange.after(frame).found == exchange.found,
        exchange.found.is_prefix_of(exchange.after(frame).found),
{
}

/// Once any frames came in, what is found is what was found before them and,
/// in order, the sender of each frame that answers the request: as many
/// devices as there are answers.
pub proof fn every_answer_is_found(exchange: IdentifyView, frames: Seq<FrameView>)
    ensures
        in_process::found_in(exchange, frames) == exchange.found + answers_among(
            frames,
            exchange.xid,
        ).map_values(|frame: FrameView| sender(frame)),
        exchange.found.is_prefix_of(in_process::found_in(exchange, frames)),
        in_process::found_in(exchange, frames).len() == exchange.found.len() + answers_among(
            frames,
            exchange.xid,
        ).len(),
    decreases frames.len(),
{
    let answers = |frame: FrameView| is_answer(frame, exchange.xid);
    let senders = |frame: FrameView| sender(frame);
    if frames.len() == 0 {
        reveal(Seq::filter);
        assert(exchange.found + frames.filter(answers).map_values(senders) =~= exchange.found);
    } else {
        let rest = frames.drop_first();
        let next = exchange.after(frames[0]);
        lemma_filter_first(frames, answers);
        what_was_found_stays_found(exchange, frames[0]);
        every_answer_is_found(next, rest);
        assert(next.found + rest.filter(answers).map_values(senders) =~= exchange.found
            + frames.filter(answers).map_values(senders));
    }
}

/// The devices of a link that each answer once, under names that their
/// answers give, are found one and all, in the order of their answers.
pub proof fn devices_are_found_in_order(xid: u32, frames: Seq<FrameView>)
    requires
        forall|i: int| 0 <= i < frames.len() ==> is_answer(#[trigger] frames[i], xid),
    ensures
        ({
            let found = in_process::found_in(IdentifyView { xid, found: Seq::empty() }, frames);
            &&& found.len() == frames.len()
            &&& forall|i: int| 0 <= i < frames.len() ==> #[trigger] found[i] == sender(frames[i])
        }),
    decreases frames.len(),
{
    let begun = IdentifyView { xid, found: Seq::empty() };
    if frames.len() > 0 {
        let before = frames.drop_last();
        assert forall|i: int| 0 <= i < before.len() implies is_answer(#[trigger] before[i], xid) by {
            assert(is_answer(frames[i], xid));
        }
        devices_are_found_in_order(xid, before);
        laws::lemma_found_behind(begun, before, frames.last());
        assert(before.push(frames.last()) =~= frames);
        assert(is_answer(frames[frames.len() - 1], xid));
    }
}

/// A set is answered by a frame of the device itself that answers its
/// transaction, and by no other; without one it waits until its time is over.
pub proof fn a_set_waits_for_its_device(xid: u32, device: Mac, frame: FrameView, expired: bool)
    ensures
        frame.source == device && is_answer(frame, xid) ==> controller::naming_step(
            xid,
            device,
            Some(frame),
            expired,
        ) == Ok::<NamingStep, Error>(NamingStep::Named),
        !(frame.source == device && is_answer(frame, xid)) ==> controller::naming_step(
            xid,
            device,
            Some(frame),
            expired,
        ) == Ok::<NamingStep, Error>(NamingStep::Receive),
        controller::naming_step(xid, device, None, true) == Err::<NamingStep, Error>(
            Error::SetUnanswered,
        ),
        controller::naming_step(xid, device, None, false) == Ok::<NamingStep, Error>(
            NamingStep::Yield,
        ),
{
}

/// The first answer of the device itself ends a set, with the frames behind it
/// left, whatever came in before it.
pub proof fn the_first_answer_of_the_device_ends_a_set(
    frames: Seq<FrameView>,
    xid: u32,
    device: Mac,
    i: int,
)
    requires
        0 <= i < frames.len(),
        frames[i].source == device && is_answer(frames[i], xid),
        forall|j: int|
            0 <= j < i ==> !((#[trigger] frames[j]).source == device && is_answer(frames[j], xid)),
    ensures
        in_process::past_answer(frames, xid, device) == Some(frames.skip(i + 1)),
    decreases i,
{
    if i == 0 {
        assert(frames.drop_first() =~= frames.skip(1));
    } else {
        let rest = frames.drop_first();
        assert(!(frames[0].source == device && is_answer(frames[0], xid)));
        the_first_answer_of_the_device_ends_a_set(rest, xid, device, i - 1);
        assert(rest.skip(i) =~= frames.skip(i + 1));
    }
}

/// A set that its device does not answer is not answered.
pub proof fn a_set_without_its_answer_goes_on(frames: Seq<FrameView>, xid: u32, device: Mac)
    requires
        forall|j: int|
            0 <= j < frames.len() ==> !((#[trigger] frames[j]).source == device && is_answer(
                frames[j],
                xid,
            )),
    ensures
        in_process::past_answer(frames, xid, device) is None,
    decreases frames.len(),
{
    if frames.len() > 0 {
        assert(!(frames[0].source == device && is_answer(frames[0], xid)));
        a_set_without_its_answer_goes_on(frames.drop_first(), xid, device);
    }
}

/// A request takes one transaction and no cycle; a Stream takes a step of
/// thirty-two for each of its cycles and no transaction. Both wrap.
pub proof fn counters_move_on(counters: Counters, bytes: Seq<u8>)
    ensures
        counters.after_request().xid == (counters.xid + 1) % 0x1_0000_0000,
        counters.after_request().cycle == counters.cycle,
        counters.after_cycles(bytes).cycle == (counters.cycle + 32 * cyclic::cycle_count(
            bytes.len(),
        )) % 65536,
        counters.after_cycles(bytes).xid == counters.xid,
{
    layout::the_counter_moves_by_a_step(counters.cycle, cyclic::cycle_count(bytes.len()) as int);
}

/// What a controller transmits is PROFINET, from itself: an identify request
/// to the group of every device, a set to the device it names, and a frame for
/// each cycle of a Stream to the device that it is for.
pub proof fn frames_say_where_they_go(
    transport: TransportView,
    counters: Counters,
    device: Mac,
    name: Seq<char>,
    bytes: Seq<u8>,
)
    ensures
        ({
            let frame = in_process::identify_frame(transport, counters);
            &&& frame.destination.0@ == seq![0x01u8, 0x0e, 0xcf, 0x00, 0x00, 0x00]
            &&& frame.source == transport.controller
            &&& frame.ethertype == 0x8892
            &&& frame.payload == dcp::identify_all(counters.xid).payload()
        }),
        ({
            let frame = in_process::naming_frame(transport, counters, device, name);
            &&& frame.destination == device
            &&& frame.source == transport.controller
            &&& frame.ethertype == 0x8892
            &&& frame.payload == dcp::set_name(counters.xid, name).payload()
        }),
        ({
            let frames = in_process::cycle_frames(transport, counters, device, bytes);
            let run = cyclic::run_of(transport.frame_id, bytes, counters.cycle);
            &&& frames.len() == run.len()
            &&& forall|i: int|
                0 <= i < run.len() ==> {
                    &&& (#[trigger] frames[i]).destination == device
                    &&& frames[i].source == transport.controller
                    &&& frames[i].ethertype == 0x8892
                    &&& frames[i].payload == run[i].payload()
                }
        }),
{
    let group = in_process::identify_frame(transport, counters).destination.0@;
    assert(group =~= seq![0x01u8, 0x0e, 0xcf, 0x00, 0x00, 0x00]);
}

/// An exchange begins with no cycle, at the address of its controller; and
/// frames that are handed over leave the rest of a device as it was.
pub proof fn exchanges_begin_empty(
    transport: TransportView,
    device: DeviceView,
    frames: Seq<FrameView>,
)
    ensures
        in_process::waiting(transport).controller == transport.controller,
        in_process::waiting(transport).run.len() == 0,
        in_process::holding(device, frames).mac == device.mac,
        in_process::holding(device, frames).name == device.name,
        in_process::holding(device, frames).to_controller == frames,
{
}

/// What came in, and what was found, is said whole.
pub proof fn views_of_what_came_in(
    received: Option<&Frame>,
    arrived: Option<Arrived>,
    found: Seq<(Mac, String)>,
    step: CyclesStep,
)
    ensures
        controller::received_view(received) is Some <==> received is Some,
        received is Some ==> controller::received_view(received)->0 == received->0@,
        in_process::arrival_view(arrived) is Some <==> arrived is Some,
        arrived is Some ==> in_process::arrival_view(arrived)->0.source == arrived->0.source,
        arrived is Some ==> in_process::arrival_view(arrived)->0.bytes == arrived->0.bytes@,
        step is Quiet <==> step@ is Quiet,
        step is Receive <==> step@ is Receive,
        step is Receive ==> step@->Receive_0 == step->Receive_0@,
        step is Yield <==> step@ is Yield,
        step is Yield ==> step@->Yield_0 == step->Yield_0@,
        step is Arrived <==> step@ is Arrived,
        step is Arrived ==> step@->Arrived_0 == step->Arrived_0@,
        controller::found_view(found).len() == found.len(),
        forall|i: int|
            0 <= i < found.len() ==> #[trigger] controller::found_view(found)[i] == (
                found[i].0,
                found[i].1@,
            ),
{
}

} // verus!
