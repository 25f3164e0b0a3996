//! The discovery and configuration protocol: how a controller finds the
//! devices on the wire and gives each its name, before any cyclic frame goes.
//!
//! An identify request goes to the DCP multicast address under `FrameID`
//! `0xfefe`; every device answers under `0xfeff` with the blocks the
//! selector asked for, its name of station among them. A get or set goes
//! to one device under `0xfefd`. Every DCP frame is a service, a request or
//! a response, a transaction identifier the response echoes, and blocks of
//! option, suboption, length and data, each padded to an even length.

use vstd::prelude::*;

use crate::error::Error;
use crate::text;
use crate::wire;

verus! {

/// The `EtherType` every PROFINET frame carries, DCP and cyclic alike.
pub const ETHERTYPE: u16 = 0x8892;

/// The multicast address an identify request goes to.
pub const MULTICAST: [u8; 6] = [0x01, 0x0e, 0xcf, 0x00, 0x00, 0x00];

/// The `FrameID` of an identify request, of an identify response, and of a
/// get or set and its response.
pub const IDENTIFY_REQUEST: u16 = 0xfefe;
pub const IDENTIFY_RESPONSE: u16 = 0xfeff;
pub const GET_SET: u16 = 0xfefd;

/// The device properties option, and its name of station suboption.
pub const OPTION_DEVICE: u8 = 0x02;
pub const SUBOPTION_NAME: u8 = 0x02;
/// The all selector: every option, every suboption.
pub const OPTION_ALL: u8 = 0xff;

/// The bytes of a payload before its blocks: `FrameID` and header.
pub const HEADER: usize = 12;
/// The bytes of a block before its data: option, suboption and length.
pub const BLOCK_HEADER: usize = 4;

/// What a DCP frame asks or answers.
#[derive(Clone, Copy, Debug, PartialEq, Eq, Structural)]
pub enum Service {
    Get,
    /// The set service.
    Assign,
    Identify,
}

/// One block: an option, a suboption, and its data — the block info of a
/// response or the qualifier of a set included, where the block has one.
#[derive(Clone, Debug, PartialEq, Eq)]
pub struct Block {
    pub option: u8,
    pub suboption: u8,
    pub data: Vec<u8>,
}

/// One DCP frame.
#[derive(Clone, Debug, PartialEq, Eq)]
pub struct Dcp {
    pub service: Service,
    pub response: bool,
    pub xid: u32,
    pub blocks: Vec<Block>,
}

/// What a block says.
#[verifier::ext_equal]
pub struct BlockView {
    pub option: u8,
    pub suboption: u8,
    pub data: Seq<u8>,
}

/// What a DCP frame says.
#[verifier::ext_equal]
pub struct DcpView {
    pub service: Service,
    pub response: bool,
    pub xid: u32,
    pub blocks: Seq<BlockView>,
}

impl View for Block {
    type V = BlockView;

    open spec fn view(&self) -> BlockView {
        BlockView { option: self.option, suboption: self.suboption, data: self.data@ }
    }
}

/// What each of `blocks` says.
pub open spec fn blocks_view(blocks: Seq<Block>) -> Seq<BlockView> {
    Seq::new(blocks.len(), |i: int| blocks[i]@)
}

impl View for Dcp {
    type V = DcpView;

    open spec fn view(&self) -> DcpView {
        DcpView {
            service: self.service,
            response: self.response,
            xid: self.xid,
            blocks: blocks_view(self.blocks@),
        }
    }
}

impl BlockView {
    /// The bytes of the block, padded to an even length.
    pub open spec fn bytes(self) -> Seq<u8> {
        seq![self.option, self.suboption] + wire::be16(wire::length_field(self.data.len()))
            + self.data + self.padding()
    }

    /// The byte that pads data of an odd length.
    pub open spec fn padding(self) -> Seq<u8> {
        if self.data.len() % 2 == 1 {
            seq![0u8]
        } else {
            Seq::empty()
        }
    }

    /// Whether the block holds a name of station.
    pub open spec fn is_name(self) -> bool {
        self.option == OPTION_DEVICE && self.suboption == SUBOPTION_NAME
    }
}

/// The bytes of `blocks`, one after the other.
pub open spec fn blocks_bytes(blocks: Seq<BlockView>) -> Seq<u8>
    decreases blocks.len(),
{
    if blocks.len() == 0 {
        Seq::empty()
    } else {
        blocks[0].bytes() + blocks_bytes(blocks.drop_first())
    }
}

/// The data of the first block among `blocks` that holds a name of station.
pub open spec fn name_data(blocks: Seq<BlockView>) -> Option<Seq<u8>>
    decreases blocks.len(),
{
    if blocks.len() == 0 {
        None
    } else if blocks[0].is_name() {
        Some(blocks[0].data)
    } else {
        name_data(blocks.drop_first())
    }
}

/// The `FrameID` that a request or response of `service` goes under.
pub open spec fn frame_id_of(service: Service, response: bool) -> u16 {
    if service == Service::Identify && !response {
        IDENTIFY_REQUEST
    } else if service == Service::Identify {
        IDENTIFY_RESPONSE
    } else {
        GET_SET
    }
}

/// The number of a service on the wire.
pub open spec fn service_code(service: Service) -> u8 {
    match service {
        Service::Get => 3,
        Service::Assign => 4,
        Service::Identify => 5,
    }
}

/// The service of a number on the wire.
pub open spec fn service_of(code: u8) -> Option<Service> {
    if code == 3 {
        Some(Service::Get)
    } else if code == 4 {
        Some(Service::Assign)
    } else if code == 5 {
        Some(Service::Identify)
    } else {
        None
    }
}

impl DcpView {
    /// The bytes of the frame: `FrameID`, header, blocks.
    pub open spec fn payload(self) -> Seq<u8> {
        wire::be16(frame_id_of(self.service, self.response)) + seq![
            service_code(self.service),
            if self.response {
                1u8
            } else {
                0u8
            },
        ] + wire::be32(self.xid) + wire::be16(0) + wire::be16(
            wire::length_field(blocks_bytes(self.blocks).len()),
        ) + blocks_bytes(self.blocks)
    }

    /// Whether the length fields of the frame can say how long its blocks are.
    pub open spec fn fits(self) -> bool {
        blocks_bytes(self.blocks).len() <= 0xffff
    }

    /// The bytes of the name of station, past its info or qualifier.
    pub open spec fn name_bytes(self) -> Option<Seq<u8>> {
        match name_data(self.blocks) {
            Some(data) => if data.len() >= 2 {
                Some(data.skip(2))
            } else {
                None
            },
            None => None,
        }
    }

    /// The name of station.
    pub open spec fn name(self) -> Option<Seq<char>> {
        match self.name_bytes() {
            Some(bytes) => Some(text::text_of(bytes)),
            None => None,
        }
    }

    /// The response to this request carrying `blocks`.
    pub open spec fn answered_with(self, blocks: Seq<BlockView>) -> DcpView {
        DcpView { service: self.service, response: true, xid: self.xid, blocks }
    }
}

/// An identify request for everything.
pub open spec fn identify_all(xid: u32) -> DcpView {
    DcpView {
        service: Service::Identify,
        response: false,
        xid,
        blocks: seq![
            BlockView { option: OPTION_ALL, suboption: OPTION_ALL, data: Seq::empty() },
        ],
    }
}

/// The block that holds the name of station `name` behind `info`, two bytes
/// of block info or qualifier.
pub open spec fn name_block(info: Seq<u8>, name: Seq<char>) -> BlockView {
    BlockView {
        option: OPTION_DEVICE,
        suboption: SUBOPTION_NAME,
        data: info + vstd::utf8::encode_utf8(name),
    }
}

/// A set of the name of station to `name`, permanently.
pub open spec fn set_name(xid: u32, name: Seq<char>) -> DcpView {
    DcpView {
        service: Service::Assign,
        response: false,
        xid,
        blocks: seq![name_block(seq![0x00u8, 0x01u8], name)],
    }
}

/// Whether `frame_id` is one of DCP's.
pub open spec fn is_dcp(frame_id: u16) -> bool {
    frame_id == IDENTIFY_REQUEST || frame_id == IDENTIFY_RESPONSE || frame_id == GET_SET
}

/// What is left of `body` past its first `length` bytes.
pub open spec fn past(body: Seq<u8>, length: int) -> Seq<u8> {
    if length < body.len() {
        body.skip(length)
    } else {
        Seq::empty()
    }
}

/// The blocks that `body` holds, or what is wrong with the first that it
/// does not.
pub open spec fn blocks_of(body: Seq<u8>) -> Result<Seq<BlockView>, Error>
    decreases body.len(),
{
    if body.len() == 0 {
        Ok(Seq::empty())
    } else if body.len() < BLOCK_HEADER {
        Err(Error::BlockShort)
    } else {
        let length = wire::from_be16(body[2], body[3]) as int;
        if body.len() < BLOCK_HEADER + length {
            Err(Error::BlockPastEnd)
        } else {
            let block = BlockView {
                option: body[0],
                suboption: body[1],
                data: body.subrange(BLOCK_HEADER as int, BLOCK_HEADER + length),
            };
            match blocks_of(past(body, BLOCK_HEADER + length + length % 2)) {
                Ok(rest) => Ok(seq![block] + rest),
                Err(error) => Err(error),
            }
        }
    }
}

/// The DCP frame that `payload` carries, none where its `FrameID` is not
/// DCP's, or what is wrong with it.
pub open spec fn decoded(payload: Seq<u8>) -> Result<Option<DcpView>, Error> {
    if payload.len() < 2 {
        Err(Error::FrameIdMissing)
    } else if !is_dcp(wire::from_be16(payload[0], payload[1])) {
        Ok(None)
    } else if payload.len() < HEADER {
        Err(Error::HeaderShort)
    } else if service_of(payload[2]) is None {
        Err(Error::ServiceUnknown(payload[2]))
    } else {
        let length = wire::from_be16(payload[10], payload[11]) as int;
        if payload.len() < HEADER + length {
            Err(Error::DataPastEnd)
        } else {
            match blocks_of(payload.subrange(HEADER as int, HEADER + length)) {
                Ok(blocks) => Ok(
                    Some(
                        DcpView {
                            service: service_of(payload[2])->0,
                            response: payload[3] == 1,
                            xid: wire::from_be32(payload[4], payload[5], payload[6], payload[7]),
                            blocks,
                        },
                    ),
                ),
                Err(error) => Err(error),
            }
        }
    }
}

impl Service {
    /// The number of the service on the wire.
    pub fn code(self) -> (code: u8)
        ensures
            code == service_code(self),
    {
        match self {
            Service::Get => 3,
            Service::Assign => 4,
            Service::Identify => 5,
        }
    }

    /// The service of a number on the wire, where it is one of the three.
    pub fn from_code(code: u8) -> (service: Option<Self>)
        ensures
            service == service_of(code),
    {
        if code == 3 {
            Some(Service::Get)
        } else if code == 4 {
            Some(Service::Assign)
        } else if code == 5 {
            Some(Service::Identify)
        } else {
            None
        }
    }
}

impl Dcp {
    /// An identify request for everything, under `xid`.
    #[must_use]
    pub fn identify_all(xid: u32) -> (request: Self)
        ensures
            request@ == identify_all(xid),
    {
        let mut blocks: Vec<Block> = Vec::new();
        blocks.push(Block { option: OPTION_ALL, suboption: OPTION_ALL, data: Vec::new() });
        let request = Dcp { service: Service::Identify, response: false, xid, blocks };
        assert(request@.blocks =~= identify_all(xid).blocks);
        request
    }

    /// A set of the name of station to `name`, permanently, under `xid`.
    #[must_use]
    pub fn set_name(xid: u32, name: &str) -> (request: Self)
        ensures
            request@ == set_name(xid, name@),
    {
        let mut data: Vec<u8> = vec![0x00, 0x01];
        wire::push_bytes(&mut data, name.as_bytes());
        let mut blocks: Vec<Block> = Vec::new();
        blocks.push(Block { option: OPTION_DEVICE, suboption: SUBOPTION_NAME, data });
        let request = Dcp { service: Service::Assign, response: false, xid, blocks };
        assert(data@ =~= name_block(seq![0x00u8, 0x01u8], name@).data);
        assert(request@.blocks =~= set_name(xid, name@).blocks);
        request
    }

    /// The response to this request carrying `blocks`.
    #[must_use]
    pub fn answered_with(&self, blocks: Vec<Block>) -> (response: Self)
        ensures
            response@ == self@.answered_with(blocks_view(blocks@)),
    {
        Dcp { service: self.service, response: true, xid: self.xid, blocks }
    }

    /// The bytes of the name of station this frame carries, past its info or
    /// qualifier.
    #[must_use]
    pub fn name_bytes(&self) -> (bytes: Option<&[u8]>)
        ensures
            match bytes {
                Some(bytes) => self@.name_bytes() == Some(bytes@),
                None => self@.name_bytes() is None,
            },
    {
        let ghost blocks = self@.blocks;
        let mut n: usize = 0;
        assert(blocks.skip(0) =~= blocks);
        while n < self.blocks.len()
            invariant
                n <= self.blocks@.len(),
                blocks == blocks_view(self.blocks@),
                name_data(blocks) == name_data(blocks.skip(n as int)),
            decreases self.blocks@.len() - n,
        {
            let block = &self.blocks[n];
            assert(blocks.skip(n as int)[0] == block@);
            assert(blocks.skip(n as int).drop_first() =~= blocks.skip(n + 1));
            if block.option == OPTION_DEVICE && block.suboption == SUBOPTION_NAME {
                if block.data.len() < 2 {
                    return None;
                }
                return Some(
                    vstd::slice::slice_subrange(block.data.as_slice(), 2, block.data.len()),
                );
            }
            n += 1;
        }
        None
    }

    /// The name of station this frame carries, past its info or qualifier.
    #[must_use]
    pub fn name(&self) -> (name: Option<String>)
        ensures
            match name {
                Some(name) => self@.name() == Some(name@),
                None => self@.name() is None,
            },
    {
        match self.name_bytes() {
            Some(bytes) => Some(text::from_utf8_lossy(bytes)),
            None => None,
        }
    }

    /// The frame's payload: `FrameID`, header, blocks.
    #[must_use]
    pub fn encode(&self) -> (payload: Vec<u8>)
        ensures
            payload@ == self@.payload(),
    {
        let ghost said = self@.blocks;
        let mut blocks: Vec<u8> = Vec::new();
        let mut n: usize = 0;
        assert(said.skip(0) =~= said);
        assert(blocks@ + blocks_bytes(said) =~= blocks_bytes(said));
        while n < self.blocks.len()
            invariant
                n <= self.blocks@.len(),
                said == blocks_view(self.blocks@),
                blocks@ + blocks_bytes(said.skip(n as int)) == blocks_bytes(said),
            decreases self.blocks@.len() - n,
        {
            let block = &self.blocks[n];
            let ghost before = blocks@;
            blocks.push(block.option);
            blocks.push(block.suboption);
            wire::push_be16(&mut blocks, wire::to_length_field(block.data.len()));
            wire::push_bytes(&mut blocks, &block.data);
            if block.data.len() % 2 != 0 {
                blocks.push(0);
            }
            proof {
                let left = said.skip(n as int);
                assert(left[0] == block@);
                assert(left.drop_first() =~= said.skip(n + 1));
                assert(blocks@ =~= before + block@.bytes());
                assert(blocks@ + blocks_bytes(left.drop_first()) =~= before + (block@.bytes()
                    + blocks_bytes(left.drop_first())));
            }
            n += 1;
        }
        assert(blocks@ =~= blocks_bytes(said));
        let frame_id: u16 = match (self.service, self.response) {
            (Service::Identify, false) => IDENTIFY_REQUEST,
            (Service::Identify, true) => IDENTIFY_RESPONSE,
            _ => GET_SET,
        };
        let mut out: Vec<u8> = Vec::new();
        wire::push_be16(&mut out, frame_id);
        out.push(self.service.code());
        out.push(
            if self.response {
                1
            } else {
                0
            },
        );
        wire::push_be32(&mut out, self.xid);
        wire::push_be16(&mut out, 0);
        wire::push_be16(&mut out, wire::to_length_field(blocks.len()));
        wire::push_bytes(&mut out, &blocks);
        assert(out@ =~= self@.payload());
        out
    }

    /// The DCP frame `payload` carries, or `None` where the `FrameID` is not
    /// DCP's — a cyclic frame, say.
    ///
    /// # Errors
    /// A DCP frame shorter than its header, a service that is not one of
    /// the three, or a block length past the end.
    pub fn decode(payload: &[u8]) -> (frame: Result<Option<Self>, Error>)
        ensures
            match frame {
                Ok(Some(frame)) => decoded(payload@) == Ok::<Option<DcpView>, Error>(Some(frame@)),
                Ok(None) => decoded(payload@) == Ok::<Option<DcpView>, Error>(None),
                Err(error) => decoded(payload@) == Err::<Option<DcpView>, Error>(error),
            },
    {
        if payload.len() < 2 {
            return Err(Error::FrameIdMissing);
        }
        let frame_id: u16 = wire::read_be16(payload[0], payload[1]);
        if frame_id != IDENTIFY_REQUEST && frame_id != IDENTIFY_RESPONSE && frame_id != GET_SET {
            return Ok(None);
        }
        if payload.len() < HEADER {
            return Err(Error::HeaderShort);
        }
        let service = match Service::from_code(payload[2]) {
            Some(service) => service,
            None => return Err(Error::ServiceUnknown(payload[2])),
        };
        let response = payload[3] == 1;
        let xid: u32 = wire::read_be32(payload[4], payload[5], payload[6], payload[7]);
        let length: usize = wire::read_be16(payload[10], payload[11]) as usize;
        if payload.len() < HEADER + length {
            return Err(Error::DataPastEnd);
        }
        let body = vstd::slice::slice_subrange(payload, HEADER, HEADER + length);
        match decode_blocks(body) {
            Ok(blocks) => Ok(Some(Dcp { service, response, xid, blocks })),
            Err(error) => Err(error),
        }
    }
}

/// The blocks that `body` holds.
fn decode_blocks(body: &[u8]) -> (blocks: Result<Vec<Block>, Error>)
    requires
        body@.len() <= 0xffff,
    ensures
        match blocks {
            Ok(blocks) => blocks_of(body@) == Ok::<Seq<BlockView>, Error>(blocks_view(blocks@)),
            Err(error) => blocks_of(body@) == Err::<Seq<BlockView>, Error>(error),
        },
{
    let mut blocks: Vec<Block> = Vec::new();
    let mut at: usize = 0;
    assert(past(body@, 0) =~= body@);
    while at < body.len()
        invariant
            at <= body@.len() + 1,
            body@.len() <= 0xffff,
            blocks_of(body@) == (match blocks_of(past(body@, at as int)) {
                Ok(rest) => Ok::<Seq<BlockView>, Error>(blocks_view(blocks@) + rest),
                Err(error) => Err(error),
            }),
        decreases body@.len() + 1 - at,
    {
        let ghost left = past(body@, at as int);
        if body.len() - at < BLOCK_HEADER {
            return Err(Error::BlockShort);
        }
        let block_length: usize = wire::read_be16(body[at + 2], body[at + 3]) as usize;
        if body.len() - at < BLOCK_HEADER + block_length {
            return Err(Error::BlockPastEnd);
        }
        let data = vstd::slice::slice_to_vec(
            vstd::slice::slice_subrange(
                body,
                at + BLOCK_HEADER,
                at + BLOCK_HEADER + block_length,
            ),
        );
        let block = Block { option: body[at], suboption: body[at + 1], data };
        let ghost before = blocks_view(blocks@);
        blocks.push(block);
        let step: usize = BLOCK_HEADER + block_length + block_length % 2;
        proof {
            assert(data@ =~= left.subrange(
                BLOCK_HEADER as int,
                BLOCK_HEADER + block_length,
            ));
            assert(past(left, step as int) =~= past(body@, at + step));
            assert(blocks_view(blocks@) =~= before.push(block@));
            if let Ok(rest) = blocks_of(past(body@, at + step)) {
                assert(before + (seq![block@] + rest) =~= blocks_view(blocks@) + rest);
            }
        }
        at += step;
    }
    assert(blocks_view(blocks@) + Seq::<BlockView>::empty() =~= blocks_view(blocks@));
    Ok(blocks)
}

} // verus!
