//! What a device does with each frame that reaches its port.

use vstd::prelude::*;

use crate::dcp;
use crate::dcp::{BlockView, DcpView, Service};
use crate::device::DeviceView;
use crate::error::Error;
use crate::frame::{FrameView, Mac};
use crate::laws::layout;

verus! {

/// Whether `frame` is PROFINET and goes to `mac` or to a group.
pub open spec fn reaches(frame: FrameView, mac: Mac) -> bool {
    frame.ethertype == 0x8892 && (frame.destination == mac || frame.destination.0[0] % 2 == 1)
}

/// The frame in which a device at `mac` answers `frame` with `payload`.
pub open spec fn reply(frame: FrameView, mac: Mac, payload: Seq<u8>) -> FrameView {
    FrameView { destination: frame.source, source: mac, ethertype: 0x8892, payload }
}

/// A frame that does not reach a device leaves it as it was.
pub proof fn what_does_not_reach_a_device_is_dropped(device: DeviceView, frame: FrameView)
    requires
        !reaches(frame, device.mac),
    ensures
        device.after(frame) == device,
        device.answer_to(frame) is None,
        device.name_after(frame) == device.name,
{
    layout::an_odd_first_octet_names_a_group(frame.destination);
}

/// So does a broken DCP frame, and the response of another station.
pub proof fn what_asks_nothing_is_not_answered(device: DeviceView, frame: FrameView)
    requires
        match dcp::decoded(frame.payload) {
            Ok(Some(message)) => message.response,
            Ok(None) => false,
            Err(_) => true,
        },
    ensures
        device.after(frame) == device,
        device.answer_to(frame) is None,
        device.name_after(frame) == device.name,
{
}

/// A payload under any `FrameID` but DCP's is sent back as it came, by the
/// device it goes to; a group that it goes to does not send it back.
pub proof fn what_is_not_dcp_is_sent_back(device: DeviceView, frame: FrameView)
    requires
        reaches(frame, device.mac),
        frame.payload.len() >= 2,
        !(frame.payload[0] == 0xfe && 0xfd <= frame.payload[1]),
    ensures
        device.after(frame).mac == device.mac,
        device.after(frame).name == device.name,
        frame.destination == device.mac ==> device.after(frame).to_controller
            == device.to_controller.push(reply(frame, device.mac, frame.payload)),
        frame.destination == device.mac ==> device.answer_to(frame) == Some(
            reply(frame, device.mac, frame.payload),
        ),
        frame.destination != device.mac ==> device.after(frame) == device,
        frame.destination != device.mac ==> device.answer_to(frame) is None,
{
    layout::an_odd_first_octet_names_a_group(frame.destination);
    layout::a_broken_dcp_header_is_refused(frame.payload);
}

/// An identify or a get that reaches a device is answered, under its own
/// service and transaction, with one block: the name of station behind two
/// zeros. The device stays what it was.
pub proof fn a_device_tells_its_name(device: DeviceView, frame: FrameView, request: DcpView)
    requires
        reaches(frame, device.mac),
        dcp::decoded(frame.payload) == Ok::<Option<DcpView>, Error>(Some(request)),
        !request.response,
        request.service is Identify || request.service is Get,
    ensures
        ({
            let name = BlockView {
                option: 2,
                suboption: 2,
                data: seq![0u8, 0u8] + vstd::utf8::encode_utf8(device.name),
            };
            let answer = DcpView {
                service: request.service,
                response: true,
                xid: request.xid,
                blocks: seq![name],
            };
            let back = reply(frame, device.mac, answer.payload());
            &&& device.after(frame).mac == device.mac
            &&& device.after(frame).name == device.name
            &&& device.after(frame).to_controller == device.to_controller.push(back)
            &&& device.answer_to(frame) == Some(back)
        }),
{
    layout::an_odd_first_octet_names_a_group(frame.destination);
}

/// A set that reaches a device gives it the name of station that the set
/// carries, if any, and is answered under its own transaction with no blocks.
pub proof fn a_device_takes_its_name(device: DeviceView, frame: FrameView, request: DcpView)
    requires
        reaches(frame, device.mac),
        dcp::decoded(frame.payload) == Ok::<Option<DcpView>, Error>(Some(request)),
        !request.response,
        request.service is Assign,
    ensures
        ({
            let answer = DcpView {
                service: Service::Assign,
                response: true,
                xid: request.xid,
                blocks: Seq::empty(),
            };
            let back = reply(frame, device.mac, answer.payload());
            &&& device.after(frame).mac == device.mac
            &&& request.name() is Some ==> device.after(frame).name == request.name()->0
            &&& request.name() is None ==> device.after(frame).name == device.name
            &&& device.after(frame).to_controller == device.to_controller.push(back)
            &&& device.answer_to(frame) == Some(back)
        }),
{
    layout::an_odd_first_octet_names_a_group(frame.destination);
}

/// Whatever comes, a device keeps its address and every frame that waits, in
/// order, and puts at most one answer behind them.
pub proof fn a_device_keeps_what_waits(device: DeviceView, frame: FrameView)
    ensures
        device.after(frame).mac == device.mac,
        device.after(frame).name == device.name_after(frame),
        device.answer_to(frame) is None ==> device.after(frame).to_controller
            == device.to_controller,
        device.answer_to(frame) is Some ==> device.after(frame).to_controller
            == device.to_controller.push(device.answer_to(frame)->0),
        device.answer_to(frame) is Some ==> device.answer_to(frame)->0.destination == frame.source,
        device.answer_to(frame) is Some ==> device.answer_to(frame)->0.source == device.mac,
        device.answer_to(frame) is Some ==> device.answer_to(frame)->0.ethertype == 0x8892,
        device.name_after(frame) != device.name ==> device.answer_to(frame) is Some,
{
}

/// Frames are taken one after the other: none changes nothing, one is taken
/// as it comes, and what follows meets the device as what went before left it.
pub proof fn frames_are_taken_in_turn(
    device: DeviceView,
    frame: FrameView,
    before: Seq<FrameView>,
    after: Seq<FrameView>,
)
    ensures
        device.after_all(Seq::empty()) == device,
        device.after_all(seq![frame]) == device.after(frame),
        device.after_all(before + after) == device.after_all(before).after_all(after),
    decreases before.len(),
{
    reveal_with_fuel(DeviceView::after_all, 2);
    assert(seq![frame].drop_first() =~= Seq::empty());
    if before.len() == 0 {
        assert(before + after =~= after);
    } else {
        assert((before + after).drop_first() =~= before.drop_first() + after);
        frames_are_taken_in_turn(device.after(before[0]), frame, before.drop_first(), after);
    }
}

/// However many frames come, a device keeps its address and what waits, and
/// answers no more of them than there are.
pub proof fn a_device_answers_each_frame_at_most_once(device: DeviceView, frames: Seq<FrameView>)
    ensures
        device.after_all(frames).mac == device.mac,
        device.to_controller.is_prefix_of(device.after_all(frames).to_controller),
        device.after_all(frames).to_controller.len() <= device.to_controller.len() + frames.len(),
    decreases frames.len(),
{
    if frames.len() > 0 {
        a_device_keeps_what_waits(device, frames[0]);
        a_device_answers_each_frame_at_most_once(device.after(frames[0]), frames.drop_first());
    }
}

} // verus!
