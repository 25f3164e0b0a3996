//! Both ends on one link, in one process.

use std::time::Duration;

use vstd::prelude::*;

use crate::controller;
use crate::controller::{
    Arrived, ArrivedView, Counters, CyclesStep, CyclesStepView, CyclesView, IdentifyStep,
    IdentifyView, NamingStep, ProfinetTransport, TransportView,
};
use crate::cyclic;
use crate::dcp;
use crate::device::{Device, DeviceView};
use crate::error::Error;
use crate::frame;
use crate::frame::{FrameView, Mac};
use crate::laws;

verus! {

/// A controller and a device on one in-process link. The device answers as
/// the controller transmits, and nobody else is on the link: once it is
/// quiet it stays quiet, and what the controller still waits for then has
/// run out of time.
pub struct InProcess {
    pub controller: ProfinetTransport,
    pub counters: Counters,
    pub device: Device,
}

/// The devices that an identify exchange has found once `frames` came in.
pub open spec fn found_in(exchange: IdentifyView, frames: Seq<FrameView>) -> Seq<(Mac, Seq<char>)>
    decreases frames.len(),
{
    if frames.len() == 0 {
        exchange.found
    } else {
        found_in(exchange.after(frames[0]), frames.drop_first())
    }
}

/// What is left of `frames` behind the first with which the station at
/// `device` answers the request under `xid`, where one does.
pub open spec fn past_answer(
    frames: Seq<FrameView>,
    xid: u32,
    device: Mac,
) -> Option<Seq<FrameView>>
    decreases frames.len(),
{
    if frames.len() == 0 {
        None
    } else if controller::is_answered_by(frames[0], xid, device) {
        Some(frames.drop_first())
    } else {
        past_answer(frames.drop_first(), xid, device)
    }
}

/// The Stream that `frames` bring to an exchange, none where they bring no
/// cycle, or what breaks it; and the frames that are left.
pub open spec fn stream_in(exchange: CyclesView, frames: Seq<FrameView>) -> (
    Result<Option<ArrivedView>, Error>,
    Seq<FrameView>,
)
    decreases frames.len(),
{
    if frames.len() == 0 {
        if exchange.run.len() == 0 {
            (Ok(None), frames)
        } else {
            (Err(Error::CyclesStopped), frames)
        }
    } else {
        match exchange.step(Some(frames[0]), true) {
            Ok(CyclesStepView::Receive(next)) => stream_in(next, frames.drop_first()),
            Ok(CyclesStepView::Arrived(arrived)) => (Ok(Some(arrived)), frames.drop_first()),
            Ok(_) => (Ok(None), frames.drop_first()),
            Err(error) => (Err(error), frames.drop_first()),
        }
    }
}

/// What a received Stream says, where there is one.
pub open spec fn arrival_view(arrived: Option<Arrived>) -> Option<ArrivedView> {
    match arrived {
        Some(arrived) => Some(arrived@),
        None => None,
    }
}

/// The identify request that a controller makes next.
pub open spec fn identify_frame(transport: TransportView, counters: Counters) -> FrameView {
    controller::framed(
        Mac(dcp::MULTICAST),
        transport.controller,
        dcp::identify_all(counters.xid).payload(),
    )
}

/// The set request that a controller makes next.
pub open spec fn naming_frame(
    transport: TransportView,
    counters: Counters,
    device: Mac,
    name: Seq<char>,
) -> FrameView {
    controller::framed(
        device,
        transport.controller,
        dcp::set_name(counters.xid, name).payload(),
    )
}

/// The frames that a controller cycles `bytes` out in next.
pub open spec fn cycle_frames(
    transport: TransportView,
    counters: Counters,
    device: Mac,
    bytes: Seq<u8>,
) -> Seq<FrameView> {
    controller::run_frames(device, transport.controller, transport.next_run(counters, bytes))
}

/// The exchange in which a controller waits for a Stream.
pub open spec fn waiting(transport: TransportView) -> CyclesView {
    CyclesView { controller: transport.controller, run: Seq::empty() }
}

/// `device` with `frames` left to receive.
pub open spec fn holding(device: DeviceView, frames: Seq<FrameView>) -> DeviceView {
    DeviceView { to_controller: frames, ..device }
}

impl ProfinetTransport {
    /// Both ends on one in-process link: a controller that waits `timeout`
    /// and one device named `loopback`.
    #[must_use]
    pub fn loopback(timeout: Duration) -> (link: InProcess)
        ensures
            link.controller@ == (TransportView {
                link: "loopback"@,
                controller: Mac([0x02, 0, 0, 0, 0, 1]),
                device: Mac([0x02, 0, 0, 0, 0, 2]),
                frame_id: cyclic::RT_CLASS_1_FIRST,
                timeout,
            }),
            link.counters == (Counters { cycle: 0, xid: 1 }),
            link.device@ == (DeviceView {
                mac: Mac([0x02, 0, 0, 0, 0, 2]),
                name: "loopback"@,
                to_controller: Seq::empty(),
            }),
    {
        let device = Mac([0x02, 0, 0, 0, 0, 2]);
        let controller = ProfinetTransport::new(
            "loopback",
            Mac([0x02, 0, 0, 0, 0, 1]),
            device,
        ).timing_out_after(timeout);
        InProcess {
            controller,
            counters: Counters::new(),
            device: Device::new(device, "loopback"),
        }
    }
}

impl InProcess {
    /// Who is on the link: every device that answers an identify, with
    /// its name of station, until the link is quiet. The device that is there
    /// is among them, the last of all, as long as its answer can count its
    /// name; on a quiet link it is the only one.
    pub fn identify(&mut self) -> (found: Vec<(Mac, String)>)
        ensures
            controller::found_view(found@) == found_in(
                (IdentifyView { xid: old(self).counters.xid, found: Seq::empty() }),
                old(self).device@.after(
                    identify_frame(old(self).controller@, old(self).counters),
                ).to_controller,
            ),
            final(self).controller@ == old(self).controller@,
            final(self).counters == old(self).counters.after_request(),
            final(self).device@ == holding(
                old(self).device@.after(identify_frame(old(self).controller@, old(self).counters)),
                Seq::empty(),
            ),
            vstd::utf8::encode_utf8(old(self).device@.name).len() <= 65528 ==> found@.len() > 0
                && found@.last().0 == old(self).device@.mac && found@.last().1@
                == old(self).device@.name,
            vstd::utf8::encode_utf8(old(self).device@.name).len() <= 65528 && old(
                self,
            ).device@.to_controller.len() == 0 ==> found@.len() == 1 && final(self).device@ == old(
                self,
            ).device@,
    {
        proof {
            if vstd::utf8::encode_utf8(self.device@.name).len() <= 65528 {
                laws::identify_finds_the_device(self.controller@, self.counters, self.device@);
            }
        }
        let (request, mut exchange) = self.controller.identify(&mut self.counters);
        self.device.transmit(&request);
        let ghost device = self.device@;
        let ghost begun = exchange@;
        let ghost all = found_in(begun, device.to_controller);
        let ghost controller = self.controller@;
        let ghost counters = self.counters;
        loop
            invariant
                found_in(exchange@, self.device@.to_controller) == all,
                all == found_in(begun, device.to_controller),
                vstd::utf8::encode_utf8(old(self).device@.name).len() <= 65528 ==> all.len() > 0
                    && all.last() == (old(self).device@.mac, old(self).device@.name),
                vstd::utf8::encode_utf8(old(self).device@.name).len() <= 65528 && old(
                    self,
                ).device@.to_controller.len() == 0 ==> all.len() == 1 && holding(
                    device,
                    Seq::empty(),
                ) == old(self).device@,
                self.device@ == holding(device, self.device@.to_controller),
                self.controller@ == controller,
                self.counters == counters,
                begun == (IdentifyView { xid: old(self).counters.xid, found: Seq::empty() }),
                device == old(self).device@.after(
                    identify_frame(old(self).controller@, old(self).counters),
                ),
                controller == old(self).controller@,
                counters == old(self).counters.after_request(),
            decreases self.device@.to_controller.len(),
        {
            let received = self.device.receive();
            match exchange.step(received.as_ref()) {
                IdentifyStep::Receive(next) => {
                    exchange = next;
                },
                IdentifyStep::Found(found) => {
                    assert(self.device@.to_controller =~= Seq::empty());
                    assert(found@.len() > 0 ==> controller::found_view(found@).last() == (
                        found@.last().0,
                        found@.last().1@,
                    ));
                    return found;
                },
            }
        }
    }

    /// Name the device at `device` `name`, and wait for it to say so. The one
    /// that is there does, and takes the name, as long as the request can
    /// count it.
    ///
    /// # Errors
    /// A device that does not answer, whoever else does.
    pub fn set_name(&mut self, device: Mac, name: &str) -> (named: Result<(), Error>)
        ensures
            ({
                let after = old(self).device@.after(
                    naming_frame(old(self).controller@, old(self).counters, device, name@),
                );
                match past_answer(after.to_controller, old(self).counters.xid, device) {
                    Some(left) => named is Ok && final(self).device@ == holding(after, left),
                    None => named == Err::<(), Error>(Error::SetUnanswered) && final(self).device@
                        == holding(after, Seq::empty()),
                }
            }),
            final(self).controller@ == old(self).controller@,
            final(self).counters == old(self).counters.after_request(),
            device == old(self).device@.mac && vstd::utf8::encode_utf8(name@).len() <= 65528
                ==> named is Ok && final(self).device@.name == name@,
    {
        proof {
            if vstd::utf8::encode_utf8(name@).len() <= 65528 {
                laws::a_set_names_the_device(
                    self.controller@,
                    self.counters,
                    self.device@,
                    name@,
                );
            }
        }
        let (request, exchange) = self.controller.set_name(&mut self.counters, device, name);
        self.device.transmit(&request);
        let ghost after = self.device@;
        let ghost controller = self.controller@;
        let ghost counters = self.counters;
        loop
            invariant
                device == old(self).device@.mac && vstd::utf8::encode_utf8(name@).len() <= 65528
                    ==> after.name == name@ && past_answer(
                    after.to_controller,
                    exchange.xid(),
                    device,
                ) is Some,
                past_answer(self.device@.to_controller, exchange.xid(), device) == past_answer(
                    after.to_controller,
                    exchange.xid(),
                    device,
                ),
                self.device@ == holding(after, self.device@.to_controller),
                self.controller@ == controller,
                self.counters == counters,
                exchange.xid() == old(self).counters.xid,
                exchange.device() == device,
                after == old(self).device@.after(
                    naming_frame(old(self).controller@, old(self).counters, device, name@),
                ),
                controller == old(self).controller@,
                counters == old(self).counters.after_request(),
            decreases self.device@.to_controller.len(),
        {
            let received = self.device.receive();
            assert(received is None ==> self.device@.to_controller =~= Seq::empty());
            match exchange.step(received.as_ref(), true) {
                Ok(NamingStep::Named) => return Ok(()),
                Ok(_) => {},
                Err(error) => return Err(error),
            }
        }
    }

    /// `bytes` to `device` as cycles of output data.
    pub fn cycle_out(&mut self, device: Mac, bytes: &[u8])
        ensures
            final(self).device@ == old(self).device@.after_all(
                cycle_frames(old(self).controller@, old(self).counters, device, bytes@),
            ),
            final(self).controller@ == old(self).controller@,
            final(self).counters == old(self).counters.after_cycles(bytes@),
    {
        let frames = self.controller.cycle_out(&mut self.counters, device, bytes);
        let ghost said = frame::frames_view(frames@);
        let ghost end = self.device@.after_all(said);
        let ghost controller = self.controller@;
        let ghost counters = self.counters;
        let mut n: usize = 0;
        assert(said.skip(0) =~= said);
        while n < frames.len()
            invariant
                n <= frames@.len(),
                said == frame::frames_view(frames@),
                self.device@.after_all(said.skip(n as int)) == end,
                self.controller@ == controller,
                self.counters == counters,
            decreases frames@.len() - n,
        {
            assert(said.skip(n as int)[0] == frames@[n as int]@);
            assert(said.skip(n as int).drop_first() =~= said.skip(n + 1));
            self.device.transmit(&frames[n]);
            n += 1;
        }
    }

    /// The next Stream the cycles on the link carry to the controller, or
    /// `None` when the link is quiet.
    ///
    /// # Errors
    /// A run of cycles that misses one or never ends.
    pub fn cycle_in(&mut self) -> (arrived: Result<Option<Arrived>, Error>)
        ensures
            ({
                let (stream, left) = stream_in(
                    waiting(old(self).controller@),
                    old(self).device@.to_controller,
                );
                &&& match arrived {
                    Ok(arrived) => stream == Ok::<Option<ArrivedView>, Error>(
                        arrival_view(arrived),
                    ),
                    Err(error) => stream == Err::<Option<ArrivedView>, Error>(error),
                }
                &&& final(self).device@ == holding(old(self).device@, left)
            }),
            final(self).controller@ == old(self).controller@,
            final(self).counters == old(self).counters,
    {
        let ghost device = self.device@;
        let ghost controller = self.controller@;
        let ghost counters = self.counters;
        let mut exchange = self.controller.cycle_in();
        loop
            invariant
                stream_in(exchange@, self.device@.to_controller) == stream_in(
                    waiting(controller),
                    device.to_controller,
                ),
                self.device@ == holding(device, self.device@.to_controller),
                self.controller@ == controller,
                self.counters == counters,
                device == old(self).device@,
                controller == old(self).controller@,
                counters == old(self).counters,
            decreases self.device@.to_controller.len(),
        {
            let received = self.device.receive();
            match exchange.step(received.as_ref(), true) {
                Ok(CyclesStep::Receive(next)) => {
                    exchange = next;
                },
                Ok(CyclesStep::Arrived(arrived)) => return Ok(Some(arrived)),
                Ok(_) => return Ok(None),
                Err(error) => return Err(error),
            }
        }
    }

    /// A Stream out to the controller's device and back, in order: the device
    /// mirrors as the controller transmits, so the cycles go out first and
    /// the read-back takes them. On a quiet link, under a class 1 `FrameID`,
    /// the Stream comes back whole from the device that is there.
    ///
    /// # Errors
    /// A run of cycles that misses one or never ends, or a device that
    /// mirrored nothing.
    pub fn round(&mut self, payload: &[u8]) -> (arrived: Result<Arrived, Error>)
        ensures
            ({
                let transport = old(self).controller@;
                let device = old(self).device@.after_all(
                    cycle_frames(transport, old(self).counters, transport.device, payload@),
                );
                let (stream, left) = stream_in(waiting(transport), device.to_controller);
                &&& match arrived {
                    Ok(arrived) => stream == Ok::<Option<ArrivedView>, Error>(Some(arrived@)),
                    Err(error) => stream == Err::<Option<ArrivedView>, Error>(error) || stream
                        == Ok::<Option<ArrivedView>, Error>(None) && error == Error::NothingBack,
                }
                &&& final(self).device@ == holding(device, left)
                &&& final(self).controller@ == transport
                &&& final(self).counters == old(self).counters.after_cycles(payload@)
            }),
            cyclic::is_class_1(old(self).controller@.frame_id) && old(self).controller@.device
                == old(self).device@.mac && old(self).device@.to_controller.len() == 0 ==> (
            arrived matches Ok(arrived) && arrived@ == (ArrivedView {
                source: old(self).device@.mac,
                bytes: payload@,
            }) && final(self).device@ == old(self).device@),
    {
        proof {
            if cyclic::is_class_1(self.controller@.frame_id) && self.controller@.device
                == self.device@.mac && self.device@.to_controller.len() == 0 {
                laws::a_stream_comes_back(
                    self.controller@,
                    self.counters,
                    self.device@,
                    payload@,
                );
            }
        }
        let device = self.controller.device();
        self.cycle_out(device, payload);
        match self.cycle_in() {
            Ok(Some(arrived)) => Ok(arrived),
            Ok(None) => Err(Error::NothingBack),
            Err(error) => Err(error),
        }
    }
}

} // verus!
