//! An IO device on an in-process link.

use std::collections::VecDeque;

use vstd::prelude::*;

use crate::dcp;
use crate::dcp::{Block, Dcp, Service};
use crate::frame;
use crate::frame::{Frame, FrameView, Mac};
use crate::wire;

verus! {

/// An IO device on an in-process link: it answers DCP with its name, takes
/// a name it is set, and mirrors every cycle of outputs it is sent back to
/// the controller as its inputs.
pub struct Device {
    mac: Mac,
    name: String,
    to_controller: VecDeque<Frame>,
}

/// What a device is: its address, its name of station, and the frames that
/// wait for the controller, the oldest first.
#[verifier::ext_equal]
pub struct DeviceView {
    pub mac: Mac,
    pub name: Seq<char>,
    pub to_controller: Seq<FrameView>,
}

impl View for Device {
    type V = DeviceView;

    closed spec fn view(&self) -> DeviceView {
        DeviceView {
            mac: self.mac,
            name: self.name@,
            to_controller: frame::frames_view(self.to_controller@),
        }
    }
}

impl DeviceView {
    /// Whether the port takes `frame`: PROFINET, for this device or a group.
    pub open spec fn takes(self, frame: FrameView) -> bool {
        &&& frame.ethertype == dcp::ETHERTYPE
        &&& frame.destination == self.mac || frame::names_group(frame.destination)
    }

    /// The DCP request that `frame` brings to the device.
    pub open spec fn request_in(self, frame: FrameView) -> Option<dcp::DcpView> {
        if self.takes(frame) {
            match dcp::decoded(frame.payload) {
                Ok(Some(request)) if !request.response => Some(request),
                _ => None,
            }
        } else {
            None
        }
    }

    /// Whether `frame` is one to mirror: taken by the port, none of DCP's,
    /// and for this device alone.
    pub open spec fn mirrors(self, frame: FrameView) -> bool {
        &&& self.takes(frame)
        &&& dcp::decoded(frame.payload) == Ok::<Option<dcp::DcpView>, crate::Error>(None)
        &&& frame.destination == self.mac
    }

    /// The name of station once `frame` is taken.
    pub open spec fn name_after(self, frame: FrameView) -> Seq<char> {
        match self.request_in(frame) {
            Some(request) if request.service == Service::Assign && request.name() is Some =>
                request.name()->0,
            _ => self.name,
        }
    }

    /// The blocks that answer a request of `service`: the name of station for
    /// an identify or a get, none for a set.
    pub open spec fn answer_blocks(self, service: Service) -> Seq<dcp::BlockView> {
        if service == Service::Assign {
            Seq::empty()
        } else {
            seq![dcp::name_block(seq![0u8, 0u8], self.name)]
        }
    }

    /// What the device answers to `frame`: a response to a DCP request, and
    /// the same payload to a cycle.
    pub open spec fn answer_to(self, frame: FrameView) -> Option<FrameView> {
        match self.request_in(frame) {
            Some(request) => Some(
                FrameView {
                    destination: frame.source,
                    source: self.mac,
                    ethertype: dcp::ETHERTYPE,
                    payload: request.answered_with(self.answer_blocks(request.service)).payload(),
                },
            ),
            None => if self.mirrors(frame) {
                Some(
                    FrameView {
                        destination: frame.source,
                        source: self.mac,
                        ethertype: dcp::ETHERTYPE,
                        payload: frame.payload,
                    },
                )
            } else {
                None
            },
        }
    }

    /// The device once `frame` is taken and its answer waits.
    pub open spec fn after(self, frame: FrameView) -> DeviceView {
        DeviceView {
            mac: self.mac,
            name: self.name_after(frame),
            to_controller: match self.answer_to(frame) {
                Some(answer) => self.to_controller.push(answer),
                None => self.to_controller,
            },
        }
    }

    /// The device once each of `frames` is taken in turn.
    pub open spec fn after_all(self, frames: Seq<FrameView>) -> DeviceView
        decreases frames.len(),
    {
        if frames.len() == 0 {
            self
        } else {
            self.after(frames[0]).after_all(frames.drop_first())
        }
    }
}

impl Device {
    /// A device at `mac` whose name of station is `name`.
    #[must_use]
    pub fn new(mac: Mac, name: &str) -> (device: Self)
        ensures
            device@ == (DeviceView { mac, name: name@, to_controller: Seq::empty() }),
    {
        let device = Device { mac, name: name.to_string(), to_controller: VecDeque::new() };
        assert(device@.to_controller =~= Seq::empty());
        device
    }

    /// The device's name of station, as it is now.
    #[must_use]
    pub fn name(&self) -> (name: String)
        ensures
            name@ == self@.name,
    {
        self.name.clone()
    }

    /// Take `frame` the way a port does and give the answer, which is not
    /// queued: a carrier that can refuse a frame hands what it accepted to
    /// [`Device::queue`].
    pub fn take(&mut self, frame: &Frame) -> (answer: Option<Frame>)
        ensures
            final(self)@ == (DeviceView { name: old(self)@.name_after(frame@), ..old(self)@ }),
            match answer {
                Some(answer) => old(self)@.answer_to(frame@) == Some(answer@),
                None => old(self)@.answer_to(frame@) is None,
            },
    {
        if frame.ethertype != dcp::ETHERTYPE || !(frame.destination == self.mac
            || frame.destination.is_group()) {
            return None;
        }
        match Dcp::decode(&frame.payload) {
            Ok(Some(request)) => self.take_dcp(frame, &request),
            Ok(None) => {
                if frame.destination == self.mac {
                    Some(
                        self.answer(frame.source, vstd::slice::slice_to_vec(&frame.payload)),
                    )
                } else {
                    None
                }
            },
            Err(_) => None,
        }
    }

    /// The frame that carries `payload` from this device to `to`.
    fn answer(&self, to: Mac, payload: Vec<u8>) -> (answer: Frame)
        ensures
            answer@ == (FrameView {
                destination: to,
                source: self@.mac,
                ethertype: dcp::ETHERTYPE,
                payload: payload@,
            }),
    {
        Frame { destination: to, source: self.mac, ethertype: dcp::ETHERTYPE, payload }
    }

    /// Take the DCP frame `request`, which `frame` brought.
    fn take_dcp(&mut self, frame: &Frame, request: &Dcp) -> (answer: Option<Frame>)
        requires
            old(self)@.takes(frame@),
            dcp::decoded(frame@.payload) == Ok::<Option<dcp::DcpView>, crate::Error>(
                Some(request@),
            ),
        ensures
            final(self)@ == (DeviceView { name: old(self)@.name_after(frame@), ..old(self)@ }),
            match answer {
                Some(answer) => old(self)@.answer_to(frame@) == Some(answer@),
                None => old(self)@.answer_to(frame@) is None,
            },
    {
        if request.response {
            return None;
        }
        let mut blocks: Vec<Block> = Vec::new();
        match request.service {
            Service::Identify | Service::Get => {
                let mut data: Vec<u8> = vec![0, 0];
                wire::push_bytes(&mut data, self.name.as_str().as_bytes());
                blocks.push(
                    Block { option: dcp::OPTION_DEVICE, suboption: dcp::SUBOPTION_NAME, data },
                );
                assert(data@ =~= dcp::name_block(seq![0u8, 0u8], self.name@).data);
            },
            Service::Assign => {
                if let Some(name) = request.name() {
                    self.name = name;
                }
            },
        }
        assert(dcp::blocks_view(blocks@) =~= old(self)@.answer_blocks(request.service));
        Some(self.answer(frame.source, request.answered_with(blocks).encode()))
    }

    /// Let `frame` wait for the controller behind those that wait already.
    pub fn queue(&mut self, frame: Frame)
        ensures
            final(self)@ == (DeviceView {
                to_controller: old(self)@.to_controller.push(frame@),
                ..old(self)@
            }),
    {
        self.to_controller.push_back(frame);
        assert(self@.to_controller =~= old(self)@.to_controller.push(frame@));
    }

    /// The oldest frame that waits for the controller.
    pub fn receive(&mut self) -> (frame: Option<Frame>)
        ensures
            match frame {
                Some(frame) => old(self)@.to_controller.len() > 0 && frame@
                    == old(self)@.to_controller[0] && final(self)@ == (DeviceView {
                    to_controller: old(self)@.to_controller.drop_first(),
                    ..old(self)@
                }),
                None => old(self)@.to_controller.len() == 0 && final(self)@ == old(self)@,
            },
    {
        let frame = self.to_controller.pop_front();
        assert(frame is Some ==> self@.to_controller =~= old(self)@.to_controller.drop_first());
        frame
    }

    /// Take `frame` and let the answer wait for the controller. A frame that
    /// is not PROFINET, or not for this device, is dropped the way a port
    /// drops it.
    pub fn transmit(&mut self, frame: &Frame)
        ensures
            final(self)@ == old(self)@.after(frame@),
    {
        if let Some(answer) = self.take(frame) {
            self.queue(answer);
        }
    }
}

} // verus!
