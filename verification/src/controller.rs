//! The controller's side of one link.
//!
//! The link itself is the caller's: a controller hands out the frames to
//! transmit, and each of its exchanges takes what the link received, one
//! event at a time, and says what comes next.

use std::time::Duration;

use vstd::prelude::*;

use crate::cyclic;
use crate::cyclic::{Cyclic, CyclicView, RT_CLASS_1_FIRST};
use crate::dcp;
use crate::dcp::{Dcp, DcpView, ETHERTYPE, MULTICAST};
use crate::error::Error;
use crate::frame;
use crate::frame::{Frame, FrameView, Mac};
use crate::text;

verus! {

/// The controller's side of one link, exchanging cycles with one device.
pub struct ProfinetTransport {
    link: String,
    controller: Mac,
    device: Mac,
    frame_id: u16,
    timeout: Duration,
}

/// What a controller counts, for itself and all its copies: the cycle counter
/// and the transaction identifier that come next.
#[derive(Clone, Copy, Debug, PartialEq, Eq)]
pub struct Counters {
    pub cycle: u16,
    pub xid: u32,
}

/// What a controller is: the name of its link, its own address and its
/// device's, the `FrameID` it cycles under, and how long it waits.
pub struct TransportView {
    pub link: Seq<char>,
    pub controller: Mac,
    pub device: Mac,
    pub frame_id: u16,
    pub timeout: Duration,
}

impl View for ProfinetTransport {
    type V = TransportView;

    closed spec fn view(&self) -> TransportView {
        TransportView {
            link: self.link@,
            controller: self.controller,
            device: self.device,
            frame_id: self.frame_id,
            timeout: self.timeout,
        }
    }
}

impl Clone for ProfinetTransport {
    fn clone(&self) -> (transport: Self)
        ensures
            transport@ == self@,
    {
        ProfinetTransport {
            link: self.link.clone(),
            controller: self.controller,
            device: self.device,
            frame_id: self.frame_id,
            timeout: self.timeout,
        }
    }
}

/// A span of whole seconds, as `Duration::from_secs` gives it.
pub uninterp spec fn span_of_seconds(seconds: u64) -> Duration;

/// `Duration::from_secs`: the span of `seconds` whole seconds.
#[verifier::external_body]
fn from_secs(seconds: u64) -> (span: Duration)
    ensures
        span == span_of_seconds(seconds),
{
    Duration::from_secs(seconds)
}

/// The frame that carries `payload` under PROFINET's `EtherType`.
pub open spec fn framed(destination: Mac, source: Mac, payload: Seq<u8>) -> FrameView {
    FrameView { destination, source, ethertype: ETHERTYPE, payload }
}

/// The frames that carry `run`, one cycle each.
pub open spec fn run_frames(
    destination: Mac,
    source: Mac,
    run: Seq<CyclicView>,
) -> Seq<FrameView> {
    Seq::new(run.len(), |i: int| framed(destination, source, run[i].payload()))
}

impl Counters {
    /// The counters once a request was made: the next transaction, which
    /// wraps.
    pub open spec fn after_request(self) -> Counters {
        Counters { xid: ((self.xid + 1) % 0x1_0000_0000) as u32, ..self }
    }

    /// The counters once `bytes` were cycled out: a step for each cycle.
    pub open spec fn after_cycles(self, bytes: Seq<u8>) -> Counters {
        Counters {
            cycle: cyclic::counter_after(self.cycle, cyclic::cycle_count(bytes.len()) as int),
            ..self
        }
    }

    /// The counters of a new controller.
    #[must_use]
    pub fn new() -> (counters: Self)
        ensures
            counters == (Counters { cycle: 0, xid: 1 }),
    {
        Counters { cycle: 0, xid: 1 }
    }

    /// Take the next transaction identifier.
    fn take_xid(&mut self) -> (xid: u32)
        ensures
            xid == old(self).xid,
            *final(self) == old(self).after_request(),
    {
        let xid: u32 = self.xid;
        self.xid = xid.wrapping_add(1);
        xid
    }
}

impl TransportView {
    /// The run of cycles that carries `bytes` next.
    pub open spec fn next_run(self, counters: Counters, bytes: Seq<u8>) -> Seq<CyclicView> {
        cyclic::run_of(self.frame_id, bytes, counters.cycle)
    }

    /// `profinet://<link>/<device>`.
    pub open spec fn address(self, device: Seq<char>) -> Seq<char> {
        "profinet://"@ + self.link + "/"@ + device
    }

    /// `profinet://<link>/<device>?frame=0x<frame id>`.
    pub open spec fn origin(self, device: Seq<char>) -> Seq<char> {
        self.address(device) + "?frame=0x"@ + text::hex4_of(self.frame_id)
    }
}

/// The answer to the request under `xid` that `frame` brings.
pub open spec fn answer_in(frame: FrameView, xid: u32) -> Option<DcpView> {
    match dcp::decoded(frame.payload) {
        Ok(Some(answer)) if answer.response && answer.xid == xid => Some(answer),
        _ => None,
    }
}

/// The answer to the request under `xid` that `frame` brings.
fn read_answer(frame: &Frame, xid: u32) -> (answer: Option<Dcp>)
    ensures
        match answer {
            Some(answer) => answer_in(frame@, xid) == Some(answer@),
            None => answer_in(frame@, xid) is None,
        },
{
    match Dcp::decode(&frame.payload) {
        Ok(Some(answer)) => {
            if answer.response && answer.xid == xid {
                Some(answer)
            } else {
                None
            }
        },
        _ => None,
    }
}

/// Which device a Stream goes to.
pub enum Addressed<'a> {
    /// The one whose address this text gives.
    Named(&'a str),
    /// The transport's own.
    Configured(Mac),
}

impl ProfinetTransport {
    /// A controller at `controller` on the link called `link`, cycling with
    /// `device` under the first class 1 `FrameID`.
    #[must_use]
    pub fn new(link: &str, controller: Mac, device: Mac) -> (transport: Self)
        ensures
            transport@ == (TransportView {
                link: link@,
                controller,
                device,
                frame_id: RT_CLASS_1_FIRST,
                timeout: span_of_seconds(1),
            }),
    {
        ProfinetTransport {
            link: link.to_string(),
            controller,
            device,
            frame_id: RT_CLASS_1_FIRST,
            timeout: from_secs(1),
        }
    }

    /// Cycle under another class 1 `FrameID`.
    #[must_use]
    pub fn under(self, frame_id: u16) -> (transport: Self)
        ensures
            transport@ == (TransportView { frame_id, ..self@ }),
    {
        let mut transport = self;
        transport.frame_id = frame_id;
        transport
    }

    /// Give up on a device that stops cycling.
    #[must_use]
    pub fn timing_out_after(self, timeout: Duration) -> (transport: Self)
        ensures
            transport@ == (TransportView { timeout, ..self@ }),
    {
        let mut transport = self;
        transport.timeout = timeout;
        transport
    }

    /// The name of the transport.
    #[must_use]
    pub fn name(&self) -> (name: &'static str)
        ensures
            name@ == "profinet"@,
    {
        "profinet"
    }

    /// How long to wait for the link.
    #[must_use]
    pub fn timeout(&self) -> (timeout: Duration)
        ensures
            timeout == self@.timeout,
    {
        self.timeout
    }

    /// The device the transport cycles with.
    #[must_use]
    pub fn device(&self) -> (device: Mac)
        ensures
            device == self@.device,
    {
        self.device
    }

    /// `profinet://<link>/<device>`, where `device` is the text of an address.
    #[must_use]
    pub fn address(&self, device: &str) -> (address: String)
        ensures
            address@ == self@.address(device@),
    {
        let mut address: String = String::new();
        address.append("profinet://");
        address.append(self.link.as_str());
        address.append("/");
        address.append(device);
        assert(address@ =~= self@.address(device@));
        address
    }

    /// `profinet://<link>/<device>?frame=0x<frame id>`, where `device` is the
    /// text of an address.
    #[must_use]
    pub fn origin(&self, device: &str) -> (origin: String)
        ensures
            origin@ == self@.origin(device@),
    {
        let mut origin = self.address(device);
        origin.append("?frame=0x");
        text::push_hex4(&mut origin, self.frame_id);
        origin
    }

    /// Which device a target names: the one whose address stands in it where
    /// one does, the transport's where none does or it is empty.
    #[must_use]
    pub fn addressed<'a>(&self, named: Option<&'a str>) -> (device: Addressed<'a>)
        ensures
            match device {
                Addressed::Named(text) => named == Some(text) && text@.len() > 0,
                Addressed::Configured(mac) => (named is None || named->0@.len() == 0) && mac
                    == self@.device,
            },
    {
        match named {
            Some(text) => {
                if text.is_empty() {
                    Addressed::Configured(self.device)
                } else {
                    Addressed::Named(text)
                }
            },
            None => Addressed::Configured(self.device),
        }
    }

    /// Ask who is on the wire: the request to transmit, and the exchange that
    /// takes the answers.
    #[must_use]
    pub fn identify(&self, counters: &mut Counters) -> (exchange: (Frame, Identify))
        ensures
            exchange.0@ == framed(
                Mac(MULTICAST),
                self@.controller,
                dcp::identify_all(old(counters).xid).payload(),
            ),
            exchange.1@ == (IdentifyView { xid: old(counters).xid, found: Seq::empty() }),
            *final(counters) == old(counters).after_request(),
    {
        let xid: u32 = counters.take_xid();
        let request = Frame {
            destination: Mac(MULTICAST),
            source: self.controller,
            ethertype: ETHERTYPE,
            payload: Dcp::identify_all(xid).encode(),
        };
        let identify = Identify { xid, found: Vec::new() };
        assert(identify@.found =~= Seq::empty());
        (request, identify)
    }

    /// Name the device at `device` `name`: the request to transmit, and the
    /// exchange that waits for the device to say so.
    #[must_use]
    pub fn set_name(&self, counters: &mut Counters, device: Mac, name: &str) -> (exchange: (
        Frame,
        Naming,
    ))
        ensures
            exchange.0@ == framed(
                device,
                self@.controller,
                dcp::set_name(old(counters).xid, name@).payload(),
            ),
            exchange.1.xid() == old(counters).xid,
            exchange.1.device() == device,
            *final(counters) == old(counters).after_request(),
    {
        let xid: u32 = counters.take_xid();
        let request = Frame {
            destination: device,
            source: self.controller,
            ethertype: ETHERTYPE,
            payload: Dcp::set_name(xid, name).encode(),
        };
        (request, Naming { xid, device })
    }

    /// `bytes` to `device` as cycles of output data: the frames to transmit,
    /// in order.
    #[must_use]
    pub fn cycle_out(&self, counters: &mut Counters, device: Mac, bytes: &[u8]) -> (frames: Vec<
        Frame,
    >)
        ensures
            frame::frames_view(frames@) == run_frames(
                device,
                self@.controller,
                self@.next_run(*old(counters), bytes@),
            ),
            *final(counters) == old(counters).after_cycles(bytes@),
    {
        let run = cyclic::cycles(self.frame_id, bytes, counters.cycle);
        let ghost said = self@.next_run(*counters, bytes@);
        assert(said.len() == run@.len());
        counters.cycle = cyclic::advance(counters.cycle, run.len());
        let mut frames: Vec<Frame> = Vec::with_capacity(run.len());
        let mut n: usize = 0;
        while n < run.len()
            invariant
                n <= run@.len(),
                cyclic::run_view(run@) == said,
                frames@.len() == n,
                forall|i: int|
                    0 <= i < n ==> (#[trigger] frames@[i])@ == framed(
                        device,
                        self@.controller,
                        said[i].payload(),
                    ),
            decreases run@.len() - n,
        {
            assert(run@[n as int]@ == said[n as int]);
            frames.push(
                Frame {
                    destination: device,
                    source: self.controller,
                    ethertype: ETHERTYPE,
                    payload: run[n].encode(),
                },
            );
            n += 1;
        }
        assert(frame::frames_view(frames@) =~= run_frames(device, self@.controller, said));
        frames
    }

    /// Wait for the next Stream the cycles on the link carry to this
    /// controller.
    #[must_use]
    pub fn cycle_in(&self) -> (exchange: CyclesIn)
        ensures
            exchange@ == (CyclesView { controller: self@.controller, run: Seq::empty() }),
    {
        let exchange = CyclesIn { controller: self.controller, run: Vec::new() };
        assert(exchange@.run =~= Seq::empty());
        exchange
    }
}

/// An identify request that takes its answers until the link is quiet.
pub struct Identify {
    xid: u32,
    found: Vec<(Mac, String)>,
}

/// What an identify exchange is: its transaction, and the devices that
/// answered so far, each with its name of station.
#[verifier::ext_equal]
pub struct IdentifyView {
    pub xid: u32,
    pub found: Seq<(Mac, Seq<char>)>,
}

/// The address and the name of each of `found`.
pub open spec fn found_view(found: Seq<(Mac, String)>) -> Seq<(Mac, Seq<char>)> {
    Seq::new(found.len(), |i: int| (found[i].0, found[i].1@))
}

impl View for Identify {
    type V = IdentifyView;

    closed spec fn view(&self) -> IdentifyView {
        IdentifyView { xid: self.xid, found: found_view(self.found@) }
    }
}

impl IdentifyView {
    /// The exchange once the link received `frame`: a device more where it
    /// answers the request, nameless where it gives no name.
    pub open spec fn after(self, frame: FrameView) -> IdentifyView {
        match answer_in(frame, self.xid) {
            Some(answer) => IdentifyView {
                found: self.found.push(
                    (
                        frame.source,
                        match answer.name() {
                            Some(name) => name,
                            None => Seq::empty(),
                        },
                    ),
                ),
                ..self
            },
            None => self,
        }
    }
}

/// What comes next in an identify exchange.
pub enum IdentifyStep {
    /// Receive again.
    Receive(Identify),
    /// The link is quiet: these are the devices on it.
    Found(Vec<(Mac, String)>),
}

impl Identify {
    /// Take what the link received, which is nothing where it is quiet.
    #[must_use]
    pub fn step(self, received: Option<&Frame>) -> (step: IdentifyStep)
        ensures
            match step {
                IdentifyStep::Receive(next) => received is Some && next@ == self@.after(
                    received->0@,
                ),
                IdentifyStep::Found(found) => received is None && found_view(found@) == self@.found,
            },
    {
        match received {
            Some(frame) => {
                let mut found = self.found;
                let ghost before = self@;
                if let Some(answer) = read_answer(frame, self.xid) {
                    let name = match answer.name() {
                        Some(name) => name,
                        None => String::new(),
                    };
                    found.push((frame.source, name));
                }
                let next = Identify { xid: self.xid, found };
                assert(next@ =~= before.after(frame@));
                IdentifyStep::Receive(next)
            },
            None => IdentifyStep::Found(self.found),
        }
    }
}

/// A set request that waits for the device it went to to answer it.
pub struct Naming {
    xid: u32,
    device: Mac,
}

/// What comes next in a set exchange.
pub enum NamingStep {
    /// Receive again.
    Receive,
    /// Let others run, then receive again.
    Yield,
    /// The device itself answered.
    Named,
}

/// Whether `frame` is the answer of the station at `device` to the request
/// under `xid`, and not another's.
pub open spec fn is_answered_by(frame: FrameView, xid: u32, device: Mac) -> bool {
    frame.source == device && answer_in(frame, xid) is Some
}

/// What comes next in the set exchange with `device` under `xid`: nobody but
/// the device ends it.
pub open spec fn naming_step(
    xid: u32,
    device: Mac,
    received: Option<FrameView>,
    expired: bool,
) -> Result<NamingStep, Error> {
    match received {
        Some(frame) => if is_answered_by(frame, xid, device) {
            Ok(NamingStep::Named)
        } else {
            Ok(NamingStep::Receive)
        },
        None => if expired {
            Err(Error::SetUnanswered)
        } else {
            Ok(NamingStep::Yield)
        },
    }
}

/// What a received frame says, where there is one.
pub open spec fn received_view(received: Option<&Frame>) -> Option<FrameView> {
    match received {
        Some(frame) => Some(frame@),
        None => None,
    }
}

impl Naming {
    /// The transaction of the request.
    pub closed spec fn xid(self) -> u32 {
        self.xid
    }

    /// The device the request went to.
    pub closed spec fn device(self) -> Mac {
        self.device
    }

    /// Take what the link received, which is nothing where it is quiet, and
    /// whether the time to answer is over.
    ///
    /// # Errors
    /// A device that does not answer in time.
    pub fn step(&self, received: Option<&Frame>, expired: bool) -> (step: Result<
        NamingStep,
        Error,
    >)
        ensures
            step == naming_step(self.xid(), self.device(), received_view(received), expired),
    {
        match received {
            Some(frame) => {
                if frame.source == self.device && read_answer(frame, self.xid).is_some() {
                    Ok(NamingStep::Named)
                } else {
                    Ok(NamingStep::Receive)
                }
            },
            None => {
                if expired {
                    Err(Error::SetUnanswered)
                } else {
                    Ok(NamingStep::Yield)
                }
            },
        }
    }
}

/// A Stream that came in, and the device it came from.
#[derive(Clone, Debug, PartialEq, Eq)]
pub struct Arrived {
    pub source: Mac,
    pub bytes: Vec<u8>,
}

/// What came in, and from where.
#[verifier::ext_equal]
pub struct ArrivedView {
    pub source: Mac,
    pub bytes: Seq<u8>,
}

impl View for Arrived {
    type V = ArrivedView;

    open spec fn view(&self) -> ArrivedView {
        ArrivedView { source: self.source, bytes: self.bytes@ }
    }
}

/// A run of cycles that is coming in.
pub struct CyclesIn {
    controller: Mac,
    run: Vec<Cyclic>,
}

/// What a run that is coming in is: the controller it comes to, and its
/// cycles so far.
#[verifier::ext_equal]
pub struct CyclesView {
    pub controller: Mac,
    pub run: Seq<CyclicView>,
}

impl View for CyclesIn {
    type V = CyclesView;

    closed spec fn view(&self) -> CyclesView {
        CyclesView { controller: self.controller, run: cyclic::run_view(self.run@) }
    }
}

/// What comes next while a run comes in.
pub enum CyclesStep {
    /// Receive again.
    Receive(CyclesIn),
    /// Let others run, then receive again.
    Yield(CyclesIn),
    /// The link is quiet and no run began.
    Quiet,
    /// The run is whole.
    Arrived(Arrived),
}

/// What a [`CyclesStep`] says.
pub enum CyclesStepView {
    Receive(CyclesView),
    Yield(CyclesView),
    Quiet,
    Arrived(ArrivedView),
}

impl View for CyclesStep {
    type V = CyclesStepView;

    open spec fn view(&self) -> CyclesStepView {
        match *self {
            CyclesStep::Receive(next) => CyclesStepView::Receive(next@),
            CyclesStep::Yield(next) => CyclesStepView::Yield(next@),
            CyclesStep::Quiet => CyclesStepView::Quiet,
            CyclesStep::Arrived(arrived) => CyclesStepView::Arrived(arrived@),
        }
    }
}

impl CyclesView {
    /// The cycle that `frame` brings to this controller.
    pub open spec fn cycle_in(self, frame: FrameView) -> Option<CyclicView> {
        if frame.ethertype == ETHERTYPE && frame.destination == self.controller {
            match cyclic::decoded(frame.payload) {
                Ok(cycle) => Some(cycle),
                Err(_) => None,
            }
        } else {
            None
        }
    }

    /// The run with `cycle` behind it.
    pub open spec fn with(self, cycle: CyclicView) -> CyclesView {
        CyclesView { run: self.run.push(cycle), ..self }
    }

    /// What comes next once the link received this, or was quiet.
    pub open spec fn step(self, received: Option<FrameView>, expired: bool) -> Result<
        CyclesStepView,
        Error,
    > {
        match received {
            Some(frame) => match self.cycle_in(frame) {
                Some(cycle) => if !cycle.holds_chunk() {
                    Err(Error::ChunkTooLong)
                } else if !cycle.is_last() {
                    Ok(CyclesStepView::Receive(self.with(cycle)))
                } else {
                    match cyclic::stream_of(self.with(cycle).run, None) {
                        Ok(bytes) => Ok(
                            CyclesStepView::Arrived(ArrivedView { source: frame.source, bytes }),
                        ),
                        Err(error) => Err(error),
                    }
                },
                None => Ok(CyclesStepView::Receive(self)),
            },
            None => if self.run.len() == 0 {
                Ok(CyclesStepView::Quiet)
            } else if expired {
                Err(Error::CyclesStopped)
            } else {
                Ok(CyclesStepView::Yield(self))
            },
        }
    }
}

/// A run whose cycles all fill their IO data can be read.
proof fn lemma_full_run_is_readable(run: Seq<CyclicView>, expected: Option<u16>)
    requires
        forall|i: int| 0 <= i < run.len() ==> (#[trigger] run[i]).io_data.len() == cyclic::IO_DATA,
    ensures
        cyclic::is_readable(run, expected),
    decreases run.len(),
{
    if run.len() > 0 {
        assert(run[0].io_data.len() == cyclic::IO_DATA);
        lemma_full_run_is_readable(
            run.drop_first(),
            Some(cyclic::counter_after(run[0].cycle_counter, 1)),
        );
    }
}

impl CyclesIn {
    /// Every cycle of the run came off the wire, its IO data full.
    #[verifier::type_invariant]
    closed spec fn is_full(self) -> bool {
        forall|i: int|
            0 <= i < self.run@.len() ==> (#[trigger] self.run@[i]).io_data@.len()
                == cyclic::IO_DATA
    }

    /// Take what the link received, which is nothing where it is quiet, and
    /// whether the time for the run is over.
    ///
    /// # Errors
    /// A run of cycles that misses one or never ends.
    pub fn step(self, received: Option<&Frame>, expired: bool) -> (step: Result<CyclesStep, Error>)
        ensures
            match step {
                Ok(step) => self@.step(received_view(received), expired) == Ok::<
                    CyclesStepView,
                    Error,
                >(step@),
                Err(error) => self@.step(received_view(received), expired) == Err::<
                    CyclesStepView,
                    Error,
                >(error),
            },
    {
        proof {
            use_type_invariant(&self);
        }
        let ghost before = self@;
        let frame = match received {
            Some(frame) => frame,
            None => {
                return if self.run.len() == 0 {
                    Ok(CyclesStep::Quiet)
                } else if expired {
                    Err(Error::CyclesStopped)
                } else {
                    Ok(CyclesStep::Yield(self))
                };
            },
        };
        if frame.ethertype != ETHERTYPE || frame.destination != self.controller {
            return Ok(CyclesStep::Receive(self));
        }
        let cycle = match Cyclic::decode(&frame.payload) {
            Ok(cycle) => cycle,
            Err(_) => return Ok(CyclesStep::Receive(self)),
        };
        let last = match cycle.chunk() {
            Ok((_, last)) => last,
            Err(error) => return Err(error),
        };
        let controller = self.controller;
        let mut run = self.run;
        run.push(cycle);
        assert(cyclic::run_view(run@) =~= before.with(cycle@).run);
        if !last {
            return Ok(CyclesStep::Receive(CyclesIn { controller, run }));
        }
        proof {
            lemma_full_run_is_readable(cyclic::run_view(run@), None);
        }
        match cyclic::assemble(run) {
            Ok(bytes) => Ok(CyclesStep::Arrived(Arrived { source: frame.source, bytes })),
            Err(error) => Err(error),
        }
    }
}

} // verus!
