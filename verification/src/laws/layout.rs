//! Where everything stands in the bytes: of a cycle, of a run of cycles, of
//! a DCP frame.

use vstd::prelude::*;

use crate::cyclic;
use crate::cyclic::{Cyclic, CyclicView};
use crate::dcp;
use crate::dcp::{Block, BlockView, Dcp, DcpView, Service};
use crate::error::Error;
use crate::frame;
use crate::frame::{Frame, Mac};
use crate::text;
use crate::wire;

verus! {

/// The number that two bytes make, the high one first.
pub open spec fn number(high: u8, low: u8) -> int {
    high * 256 + low
}

/// The high byte of an integer goes first, and the bytes add up to it, both
/// on the way out and on the way in.
pub proof fn integers_are_big_endian(short: u16, long: u32, a: u8, b: u8, c: u8, d: u8)
    ensures
        wire::be16(short).len() == 2,
        wire::be16(short)[0] * 256 + wire::be16(short)[1] == short,
        wire::from_be16(a, b) == a * 256 + b,
        wire::be32(long).len() == 4,
        wire::be32(long)[0] * 16777216 + wire::be32(long)[1] * 65536 + wire::be32(long)[2] * 256
            + wire::be32(long)[3] == long,
        wire::from_be32(a, b, c, d) == a * 16777216 + b * 65536 + c * 256 + d,
{
    wire::lemma_be32(long);
}

/// A field keeps the bytes that fit, in their places, and has zeros behind
/// them.
pub proof fn a_field_is_cut_or_filled(bytes: Seq<u8>, width: nat)
    ensures
        wire::fitted(bytes, width).len() == width,
        forall|i: int|
            0 <= i < width && i < bytes.len() ==> #[trigger] wire::fitted(bytes, width)[i]
                == bytes[i],
        forall|i: int|
            bytes.len() <= i < width ==> #[trigger] wire::fitted(bytes, width)[i] == 0,
{
}

/// A length field says the length as long as sixteen bits can, and zero of
/// any longer.
pub proof fn a_length_field_counts_what_it_can(length: nat)
    ensures
        length < 65536 ==> wire::length_field(length) == length,
        length >= 65536 ==> wire::length_field(length) == 0,
{
}

/// The view of a frame, a block or a list of them leaves nothing out and puts
/// nothing in another's place.
pub proof fn views_say_what_is_there(
    cycle: Cyclic,
    run: Seq<Cyclic>,
    block: Block,
    blocks: Seq<Block>,
    message: Dcp,
    frame: Frame,
    frames: Seq<Frame>,
)
    ensures
        cycle@.frame_id == cycle.frame_id,
        cycle@.io_data == cycle.io_data@,
        cycle@.cycle_counter == cycle.cycle_counter,
        cycle@.data_status == cycle.data_status,
        cycle@.transfer_status == cycle.transfer_status,
        cyclic::run_view(run).len() == run.len(),
        forall|i: int| 0 <= i < run.len() ==> #[trigger] cyclic::run_view(run)[i] == run[i]@,
        block@.option == block.option,
        block@.suboption == block.suboption,
        block@.data == block.data@,
        dcp::blocks_view(blocks).len() == blocks.len(),
        forall|i: int|
            0 <= i < blocks.len() ==> #[trigger] dcp::blocks_view(blocks)[i] == blocks[i]@,
        message@.service == message.service,
        message@.response == message.response,
        message@.xid == message.xid,
        message@.blocks == dcp::blocks_view(message.blocks@),
        frame@.destination == frame.destination,
        frame@.source == frame.source,
        frame@.ethertype == frame.ethertype,
        frame@.payload == frame.payload@,
        frame::frames_view(frames).len() == frames.len(),
        forall|i: int|
            0 <= i < frames.len() ==> #[trigger] frame::frames_view(frames)[i] == frames[i]@,
{
}

/// An address is a group's exactly where its first octet is odd.
pub proof fn an_odd_first_octet_names_a_group(mac: Mac)
    ensures
        frame::names_group(mac) <==> mac.0[0] % 2 == 1,
{
    let octet = mac.0[0];
    assert(octet & 0x01 != 0 <==> octet % 2 == 1) by (bit_vector);
}

/// A cycle takes forty-six bytes: two of `FrameID`, forty of IO data, cut or
/// filled up with zeros, two of counter, one of each status.
pub proof fn a_cycle_stands_in_its_bytes(cycle: CyclicView)
    ensures
        cycle.payload().len() == 46,
        number(cycle.payload()[0], cycle.payload()[1]) == cycle.frame_id,
        forall|i: int|
            0 <= i < 40 && i < cycle.io_data.len() ==> #[trigger] cycle.payload()[2 + i]
                == cycle.io_data[i],
        forall|i: int| cycle.io_data.len() <= i < 40 ==> #[trigger] cycle.payload()[2 + i] == 0,
        number(cycle.payload()[42], cycle.payload()[43]) == cycle.cycle_counter,
        cycle.payload()[44] == cycle.data_status,
        cycle.payload()[45] == cycle.transfer_status,
{
    wire::lemma_be16(cycle.frame_id);
    wire::lemma_be16(cycle.cycle_counter);
    assert(cycle.payload()[0] == wire::be16(cycle.frame_id)[0]);
    assert(cycle.payload()[1] == wire::be16(cycle.frame_id)[1]);
    assert(cycle.payload()[42] == wire::be16(cycle.cycle_counter)[0]);
    assert(cycle.payload()[43] == wire::be16(cycle.cycle_counter)[1]);
    assert forall|i: int| 0 <= i < 40 implies #[trigger] cycle.payload()[2 + i] == wire::fitted(
        cycle.io_data,
        40,
    )[i] by {}
}

/// A payload is decoded to a cycle exactly where that cycle has full IO data,
/// a `FrameID` of class 1, and these bytes.
pub proof fn a_cycle_is_decoded_from_its_bytes_alone(payload: Seq<u8>, cycle: CyclicView)
    ensures
        cyclic::decoded(payload) == Ok::<CyclicView, Error>(cycle) <==> {
            &&& cycle.io_data.len() == 40
            &&& 0x8000 <= cycle.frame_id <= 0xbbff
            &&& cycle.payload() == payload
        },
{
    if cyclic::decoded(payload) == Ok::<CyclicView, Error>(cycle) {
        crate::laws::a_decoded_cycle_encodes_back(payload);
    }
    if cycle.io_data.len() == 40 && 0x8000 <= cycle.frame_id <= 0xbbff && cycle.payload()
        == payload {
        crate::laws::a_cycle_survives_the_wire(cycle);
    }
}

/// Bytes of any other number are refused for it, and a `FrameID` below or
/// above class 1 for itself; whatever is left is a cycle.
pub proof fn what_is_no_cycle_is_refused(payload: Seq<u8>)
    requires
        payload.len() <= usize::MAX,
    ensures
        payload.len() != 46 ==> cyclic::decoded(payload) == Err::<CyclicView, Error>(
            Error::CycleLength(payload.len() as usize),
        ),
        payload.len() == 46 && !(0x8000 <= number(payload[0], payload[1]) <= 0xbbff)
            ==> cyclic::decoded(payload) == Err::<CyclicView, Error>(
            Error::NotClassOne(number(payload[0], payload[1]) as u16),
        ),
        payload.len() == 46 && 0x8000 <= number(payload[0], payload[1]) <= 0xbbff
            ==> cyclic::decoded(payload) is Ok,
{
}

/// The first two bytes of IO data say how long the chunk is, the third is odd
/// in the last cycle, and the chunk starts at the fifth.
pub proof fn a_chunk_stands_behind_its_prologue(cycle: CyclicView)
    requires
        cycle.io_data.len() >= 3,
    ensures
        cycle.has_prologue(),
        cycle.holds_chunk() <==> 4 + number(cycle.io_data[0], cycle.io_data[1])
            <= cycle.io_data.len(),
        cycle.holds_chunk() ==> cycle.chunk().len() == number(cycle.io_data[0], cycle.io_data[1]),
        cycle.holds_chunk() ==> (forall|i: int|
            0 <= i < cycle.chunk().len() ==> #[trigger] cycle.chunk()[i] == cycle.io_data[4 + i]),
        cycle.is_last() <==> cycle.io_data[2] % 2 == 1,
{
    let flag = cycle.io_data[2];
    assert(flag & 0x01 != 0 <==> flag % 2 == 1) by (bit_vector);
}

/// IO data too short for a last flag has no prologue.
pub proof fn a_prologue_reaches_the_flag(cycle: CyclicView)
    ensures
        cycle.has_prologue() <==> cycle.io_data.len() > 2,
{
}

/// A Stream takes as many cycles as thirty-six bytes each make necessary, and
/// never none.
pub proof fn a_stream_takes_no_cycle_too_many(length: nat)
    ensures
        cyclic::cycle_count(length) >= 1,
        length <= 36 * cyclic::cycle_count(length),
        cyclic::cycle_count(length) > 1 ==> 36 * (cyclic::cycle_count(length) - 1) < length,
{
    let count = cyclic::cycle_count(length) as int;
    cyclic::lemma_chunk_place(length, count - 1);
    if count > 1 {
        cyclic::lemma_chunk_place(length, count - 2);
    }
}

/// The counter moves by thirty-two for each cycle and comes round at 65536.
pub proof fn the_counter_moves_by_a_step(counter: u16, n: int)
    requires
        0 <= n,
    ensures
        cyclic::counter_after(counter, n) == (counter + 32 * n) % 65536,
{
    assert(cyclic::CYCLE_STEP * n == 32 * n) by (nonlinear_arith)
        requires
            cyclic::CYCLE_STEP == 32,
    ;
}

/// Cycle `n` of the run that carries a Stream has the run's `FrameID`, a
/// counter of `n` steps, a good status, and in its forty bytes of IO data the
/// length of its chunk, the last flag, a zero, the bytes of the Stream from
/// the thirty-sixth times `n` on, and zeros.
pub proof fn a_stream_stands_in_its_cycles(
    frame_id: u16,
    stream: Seq<u8>,
    first_counter: u16,
    n: int,
)
    requires
        0 <= n < cyclic::run_of(frame_id, stream, first_counter).len(),
    ensures
        ({
            let run = cyclic::run_of(frame_id, stream, first_counter);
            let data = run[n].io_data;
            let left = stream.len() - 36 * n;
            let held = if left < 36 {
                left
            } else {
                36
            };
            &&& run.len() == cyclic::cycle_count(stream.len())
            &&& run[n].frame_id == frame_id
            &&& run[n].cycle_counter == (first_counter + 32 * n) % 65536
            &&& run[n].data_status == 0x35
            &&& run[n].transfer_status == 0
            &&& data.len() == 40
            &&& number(data[0], data[1]) == held
            &&& data[2] == if n + 1 == run.len() {
                1u8
            } else {
                0u8
            }
            &&& data[3] == 0
            &&& forall|i: int| 0 <= i < held ==> #[trigger] data[4 + i] == stream[36 * n + i]
            &&& forall|i: int| held <= i < 36 ==> #[trigger] data[4 + i] == 0
        }),
{
    let chunk = cyclic::chunk_at(stream, n);
    let data = cyclic::run_of(frame_id, stream, first_counter)[n].io_data;
    cyclic::lemma_chunk_place(stream.len(), n);
    the_counter_moves_by_a_step(first_counter, n);
    wire::lemma_be16(chunk.len() as u16);
    assert(data[0] == wire::be16(chunk.len() as u16)[0]);
    assert(data[1] == wire::be16(chunk.len() as u16)[1]);
    assert forall|i: int| 0 <= i < chunk.len() implies #[trigger] data[4 + i] == chunk[i] by {}
}

/// A block is its option, its suboption, the length of its data, its data,
/// and a zero more where the length is odd.
pub proof fn a_block_stands_in_its_bytes(block: BlockView)
    ensures
        ({
            let bytes = block.bytes();
            let length = block.data.len() as int;
            &&& bytes.len() == 4 + length + length % 2
            &&& bytes[0] == block.option
            &&& bytes[1] == block.suboption
            &&& number(bytes[2], bytes[3]) == if length < 65536 {
                length
            } else {
                0
            }
            &&& forall|i: int| 0 <= i < length ==> #[trigger] bytes[4 + i] == block.data[i]
            &&& length % 2 == 1 ==> bytes[4 + length] == 0
        }),
{
    let field = wire::length_field(block.data.len());
    wire::lemma_be16(field);
    assert(block.bytes()[2] == wire::be16(field)[0]);
    assert(block.bytes()[3] == wire::be16(field)[1]);
}

/// Blocks follow one another with nothing before, between or behind them.
pub proof fn blocks_follow_one_another(blocks: Seq<BlockView>)
    ensures
        dcp::blocks_bytes(blocks) == Seq::new(
            blocks.len(),
            |i: int| blocks[i].bytes(),
        ).flatten(),
    decreases blocks.len(),
{
    let parts = Seq::new(blocks.len(), |i: int| blocks[i].bytes());
    if blocks.len() > 0 {
        let rest = blocks.drop_first();
        blocks_follow_one_another(rest);
        assert(parts.drop_first() =~= Seq::new(rest.len(), |i: int| rest[i].bytes()));
    }
}

/// A DCP frame goes under `0xfefe` exactly where it asks to identify, under
/// `0xfeff` exactly where it answers that, and under `0xfefd` in every get
/// and set, request and response alike.
pub proof fn a_service_goes_under_its_frame_id(message: DcpView)
    ensures
        message.payload().len() >= 2,
        message.payload()[0] == 0xfe,
        message.payload()[1] == 0xfe <==> message.service is Identify && !message.response,
        message.payload()[1] == 0xff <==> message.service is Identify && message.response,
        message.payload()[1] == 0xfd <==> message.service is Get || message.service is Assign,
{
    let frame_id = dcp::frame_id_of(message.service, message.response);
    assert(message.payload()[0] == wire::be16(frame_id)[0]);
    assert(message.payload()[1] == wire::be16(frame_id)[1]);
}

/// Behind its `FrameID` a DCP frame has the number of its service, whether it
/// is a response, its transaction, two zeros, the length of its blocks, and
/// the blocks.
pub proof fn a_dcp_frame_stands_in_its_bytes(message: DcpView)
    ensures
        ({
            let payload = message.payload();
            let blocks = dcp::blocks_bytes(message.blocks);
            &&& payload.len() == 12 + blocks.len()
            &&& payload[2] == match message.service {
                Service::Get => 3u8,
                Service::Assign => 4u8,
                Service::Identify => 5u8,
            }
            &&& payload[3] == if message.response {
                1u8
            } else {
                0u8
            }
            &&& payload[4] * 16777216 + payload[5] * 65536 + payload[6] * 256 + payload[7]
                == message.xid
            &&& payload[8] == 0
            &&& payload[9] == 0
            &&& number(payload[10], payload[11]) == if blocks.len() < 65536 {
                blocks.len() as int
            } else {
                0
            }
            &&& payload.skip(12) == blocks
        }),
{
    let payload = message.payload();
    let blocks = dcp::blocks_bytes(message.blocks);
    let field = wire::length_field(blocks.len());
    wire::lemma_be16(field);
    wire::lemma_be32(message.xid);
    assert(payload.subrange(4, 8) =~= wire::be32(message.xid));
    assert(payload[4] == payload.subrange(4, 8)[0]);
    assert(payload[5] == payload.subrange(4, 8)[1]);
    assert(payload[6] == payload.subrange(4, 8)[2]);
    assert(payload[7] == payload.subrange(4, 8)[3]);
    assert(payload[10] == wire::be16(field)[0]);
    assert(payload[11] == wire::be16(field)[1]);
    assert(payload.skip(12) =~= blocks);
}

/// The blocks of a frame fit as long as sixteen bits can count their bytes.
pub proof fn a_frame_fits_what_it_can_count(message: DcpView)
    ensures
        message.fits() <==> dcp::blocks_bytes(message.blocks).len() < 65536,
{
}

/// A block at the head of a body is read whatever pads it to even, and what
/// follows it is read as if it stood alone.
pub proof fn a_block_is_read_before_the_rest(
    option: u8,
    suboption: u8,
    data: Seq<u8>,
    padding: Seq<u8>,
    rest: Seq<u8>,
)
    requires
        data.len() < 65536,
        padding.len() == data.len() as int % 2,
    ensures
        ({
            let head = seq![
                option,
                suboption,
                (data.len() / 256) as u8,
                (data.len() % 256) as u8,
            ];
            let block = BlockView { option, suboption, data };
            dcp::blocks_of(head + data + padding + rest) == match dcp::blocks_of(rest) {
                Ok(blocks) => Ok::<Seq<BlockView>, Error>(seq![block] + blocks),
                Err(error) => Err(error),
            }
        }),
{
    let length = data.len() as int;
    let head = seq![option, suboption, (length / 256) as u8, (length % 256) as u8];
    let body = head + data + padding + rest;
    assert(wire::from_be16(body[2], body[3]) == length);
    assert(body.subrange(4, 4 + length) =~= data);
    assert(dcp::past(body, 4 + length + length % 2) =~= rest);
}

/// No bytes are no blocks, and the byte that pads the last block may be
/// missing.
pub proof fn a_body_may_end_without_padding(option: u8, suboption: u8, data: Seq<u8>)
    requires
        data.len() < 65536,
    ensures
        dcp::blocks_of(Seq::empty()) == Ok::<Seq<BlockView>, Error>(Seq::empty()),
        ({
            let head = seq![
                option,
                suboption,
                (data.len() / 256) as u8,
                (data.len() % 256) as u8,
            ];
            dcp::blocks_of(head + data) == Ok::<Seq<BlockView>, Error>(
                seq![BlockView { option, suboption, data }],
            )
        }),
{
    let length = data.len() as int;
    let head = seq![option, suboption, (length / 256) as u8, (length % 256) as u8];
    let body = head + data;
    let block = BlockView { option, suboption, data };
    assert(wire::from_be16(body[2], body[3]) == length);
    assert(body.subrange(4, 4 + length) =~= data);
    assert(dcp::past(body, 4 + length + length % 2) =~= Seq::empty());
    assert(seq![block] + Seq::<BlockView>::empty() =~= seq![block]);
}

/// A block that does not have its four bytes of header is short, and one that
/// says it is longer than what is left is past the end.
pub proof fn a_broken_block_is_refused(body: Seq<u8>)
    ensures
        0 < body.len() < 4 ==> dcp::blocks_of(body) == Err::<Seq<BlockView>, Error>(
            Error::BlockShort,
        ),
        body.len() >= 4 && 4 + number(body[2], body[3]) > body.len() ==> dcp::blocks_of(body)
            == Err::<Seq<BlockView>, Error>(Error::BlockPastEnd),
{
}

/// Under each of DCP's three `FrameID`s a payload says the service of its
/// number, a response where the next byte is one, its transaction, and the
/// blocks of as many bytes as it counts, whatever stands in the two reserved
/// bytes and behind the blocks.
pub proof fn a_dcp_header_is_read(
    low: u8,
    service: Service,
    flag: u8,
    xid: Seq<u8>,
    reserved: Seq<u8>,
    body: Seq<u8>,
    more: Seq<u8>,
)
    requires
        low == 0xfe || low == 0xff || low == 0xfd,
        xid.len() == 4,
        reserved.len() == 2,
        body.len() < 65536,
    ensures
        ({
            let code = match service {
                Service::Get => 3u8,
                Service::Assign => 4u8,
                Service::Identify => 5u8,
            };
            let count = seq![(body.len() / 256) as u8, (body.len() % 256) as u8];
            let payload = seq![0xfeu8, low, code, flag] + xid + reserved + count + body + more;
            match dcp::decoded(payload) {
                Ok(Some(message)) => {
                    &&& dcp::blocks_of(body) == Ok::<Seq<BlockView>, Error>(message.blocks)
                    &&& message.service == service
                    &&& message.response == (flag == 1)
                    &&& message.xid == xid[0] * 16777216 + xid[1] * 65536 + xid[2] * 256 + xid[3]
                },
                Ok(None) => false,
                Err(error) => dcp::blocks_of(body) == Err::<Seq<BlockView>, Error>(error),
            }
        }),
{
    let code = match service {
        Service::Get => 3u8,
        Service::Assign => 4u8,
        Service::Identify => 5u8,
    };
    let count = seq![(body.len() / 256) as u8, (body.len() % 256) as u8];
    let payload = seq![0xfeu8, low, code, flag] + xid + reserved + count + body + more;
    assert(wire::from_be16(payload[0], payload[1]) == 0xfe00 + low);
    assert(payload[2] == code && payload[3] == flag);
    assert(payload.subrange(4, 8) =~= xid);
    assert(payload[4] == xid[0] && payload[5] == xid[1] && payload[6] == xid[2] && payload[7]
        == xid[3]);
    assert(wire::from_be16(payload[10], payload[11]) == body.len());
    assert(payload.subrange(12, 12 + body.len() as int) =~= body);
}

/// A payload without a `FrameID` is refused; one that is not DCP's is none of
/// its frames; and under DCP's a short header, an unknown service and a
/// length past the end are each refused, in this order.
pub proof fn a_broken_dcp_header_is_refused(payload: Seq<u8>)
    ensures
        payload.len() < 2 ==> dcp::decoded(payload) == Err::<Option<DcpView>, Error>(
            Error::FrameIdMissing,
        ),
        payload.len() >= 2 && !(payload[0] == 0xfe && 0xfd <= payload[1]) ==> dcp::decoded(payload)
            == Ok::<Option<DcpView>, Error>(None),
        payload.len() >= 2 && payload[0] == 0xfe && 0xfd <= payload[1] ==> {
            let code = payload[2];
            &&& payload.len() < 12 ==> dcp::decoded(payload) == Err::<Option<DcpView>, Error>(
                Error::HeaderShort,
            )
            &&& payload.len() >= 12 && !(3 <= code <= 5) ==> dcp::decoded(payload) == Err::<
                Option<DcpView>,
                Error,
            >(Error::ServiceUnknown(code))
            &&& payload.len() >= 12 && 3 <= code <= 5 && 12 + number(payload[10], payload[11])
                > payload.len() ==> dcp::decoded(payload) == Err::<Option<DcpView>, Error>(
                Error::DataPastEnd,
            )
        },
{
}

/// The three services have three numbers, and no other number is a service's.
pub proof fn services_have_their_numbers(service: Service, code: u8)
    ensures
        dcp::service_of(dcp::service_code(service)) == Some(service),
        dcp::service_of(code) is Some <==> 3 <= code <= 5,
        dcp::service_code(Service::Get) == 3,
        dcp::service_code(Service::Assign) == 4,
        dcp::service_code(Service::Identify) == 5,
{
}

/// The first block of option two and suboption two holds the name of station,
/// behind two bytes of info or qualifier, whatever blocks stand before it; one
/// too short for those two gives no name.
pub proof fn the_first_name_block_holds_the_name(message: DcpView, i: int)
    requires
        0 <= i < message.blocks.len(),
        message.blocks[i].option == 2 && message.blocks[i].suboption == 2,
        forall|j: int|
            0 <= j < i ==> (#[trigger] message.blocks[j]).option != 2
                || message.blocks[j].suboption != 2,
    ensures
        message.blocks[i].data.len() >= 2 ==> message.name_bytes() == Some(
            message.blocks[i].data.skip(2),
        ),
        message.blocks[i].data.len() < 2 ==> message.name_bytes() is None,
{
    lemma_first_name_block(message.blocks, i);
}

proof fn lemma_first_name_block(blocks: Seq<BlockView>, i: int)
    requires
        0 <= i < blocks.len(),
        blocks[i].option == 2 && blocks[i].suboption == 2,
        forall|j: int|
            0 <= j < i ==> (#[trigger] blocks[j]).option != 2 || blocks[j].suboption != 2,
    ensures
        dcp::name_data(blocks) == Some(blocks[i].data),
    decreases i,
{
    if i > 0 {
        assert(blocks[0].option != 2 || blocks[0].suboption != 2);
        lemma_first_name_block(blocks.drop_first(), i - 1);
    }
}

/// A frame without a block of option two and suboption two has no name of
/// station.
pub proof fn without_a_name_block_there_is_no_name(message: DcpView)
    requires
        forall|j: int|
            0 <= j < message.blocks.len() ==> (#[trigger] message.blocks[j]).option != 2
                || message.blocks[j].suboption != 2,
    ensures
        message.name_bytes() is None,
        message.name() is None,
{
    lemma_no_name_block(message.blocks);
}

proof fn lemma_no_name_block(blocks: Seq<BlockView>)
    requires
        forall|j: int|
            0 <= j < blocks.len() ==> (#[trigger] blocks[j]).option != 2 || blocks[j].suboption
                != 2,
    ensures
        dcp::name_data(blocks) is None,
    decreases blocks.len(),
{
    if blocks.len() > 0 {
        assert(blocks[0].option != 2 || blocks[0].suboption != 2);
        lemma_no_name_block(blocks.drop_first());
    }
}

/// The name of station is the text that its bytes encode, or the repaired text
/// of bytes that encode none; it is there where the bytes are, and the same
/// bytes give the same name.
pub proof fn a_name_is_the_text_of_its_bytes(message: DcpView, other: DcpView, name: Seq<char>)
    ensures
        message.name() is Some <==> message.name_bytes() is Some,
        message.name_bytes() == Some(vstd::utf8::encode_utf8(name)) ==> message.name() == Some(
            name,
        ),
        message.name_bytes() is Some && !vstd::utf8::valid_utf8(message.name_bytes()->0)
            ==> message.name() == Some(text::repaired_utf8(message.name_bytes()->0)),
        message.name_bytes() == other.name_bytes() ==> message.name() == other.name(),
{
    vstd::utf8::encode_utf8_valid_utf8(name);
    vstd::utf8::encode_utf8_decode_utf8(name);
}

/// An identify request asks for every option; a set gives the name behind the
/// qualifier that makes it permanent; both are requests under the transaction
/// they were given.
pub proof fn requests_say_what_they_ask(xid: u32, name: Seq<char>)
    ensures
        dcp::identify_all(xid).service is Identify,
        !dcp::identify_all(xid).response,
        dcp::identify_all(xid).xid == xid,
        dcp::identify_all(xid).blocks.len() == 1,
        dcp::identify_all(xid).blocks[0].option == 0xff,
        dcp::identify_all(xid).blocks[0].suboption == 0xff,
        dcp::identify_all(xid).blocks[0].data.len() == 0,
        dcp::set_name(xid, name).service is Assign,
        !dcp::set_name(xid, name).response,
        dcp::set_name(xid, name).xid == xid,
        dcp::set_name(xid, name).blocks.len() == 1,
        dcp::set_name(xid, name).blocks[0].option == 2,
        dcp::set_name(xid, name).blocks[0].suboption == 2,
        dcp::set_name(xid, name).blocks[0].data == seq![0u8, 1u8] + vstd::utf8::encode_utf8(name),
{
}

/// A response echoes the service and the transaction of its request and
/// carries the blocks it was given.
pub proof fn a_response_echoes_its_request(request: DcpView, blocks: Seq<BlockView>)
    ensures
        request.answered_with(blocks).response,
        request.answered_with(blocks).service == request.service,
        request.answered_with(blocks).xid == request.xid,
        request.answered_with(blocks).blocks == blocks,
{
}

} // verus!
