//! What texts tell: numbers, addresses, errors.

use vstd::prelude::*;

use crate::controller::TransportView;
use crate::error::Error;
use crate::text;

verus! {

/// The value of a digit, decimal or hexadecimal in lower case.
pub open spec fn value_of(digit: char) -> int {
    if '0' <= digit <= '9' {
        digit as int - '0' as int
    } else if 'a' <= digit <= 'f' {
        digit as int - 'a' as int + 10
    } else {
        -1
    }
}

/// The number that `digits` write to `base`, the highest first.
pub open spec fn value_in(base: int, digits: Seq<char>) -> int
    decreases digits.len(),
{
    if digits.len() == 0 {
        0
    } else {
        value_in(base, digits.drop_last()) * base + value_of(digits.last())
    }
}

/// A number in decimal reads back as itself, is written in decimal digits
/// alone, and starts with a zero only where it is one.
pub proof fn a_decimal_reads_back(value: nat)
    ensures
        value_in(10, text::decimal_of(value)) == value,
        text::decimal_of(value).len() > 0,
        forall|i: int|
            0 <= i < text::decimal_of(value).len() ==> '0' <= #[trigger] text::decimal_of(value)[i]
                <= '9',
        text::decimal_of(value)[0] == '0' ==> value == 0,
    decreases value,
{
    let digits = text::decimal_of(value);
    if value < 10 {
        assert(digits.drop_last() =~= Seq::empty());
        assert(value_in(10, Seq::empty()) == 0);
    } else {
        a_decimal_reads_back(value / 10);
        assert(digits.drop_last() =~= text::decimal_of(value / 10));
    }
}

/// A byte is written in two hexadecimal digits that read back as itself, and
/// a number of sixteen bits in four.
pub proof fn a_hexadecimal_reads_back(short: u8, long: u16)
    ensures
        text::hex2_of(short).len() == 2,
        value_in(16, text::hex2_of(short)) == short,
        forall|i: int|
            0 <= i < 2 ==> 0 <= value_of(#[trigger] text::hex2_of(short)[i]) < 16,
        text::hex4_of(long).len() == 4,
        value_in(16, text::hex4_of(long)) == long,
        forall|i: int|
            0 <= i < 4 ==> 0 <= value_of(#[trigger] text::hex4_of(long)[i]) < 16,
{
    let two = text::hex2_of(short);
    let four = text::hex4_of(long);
    reveal_with_fuel(value_in, 5);
    assert(two.drop_last().drop_last() =~= Seq::empty());
    assert(four.drop_last().drop_last().drop_last().drop_last() =~= Seq::empty());
}

/// An address is `profinet://`, the link, a slash, and the device; an origin
/// is the address and, behind `?frame=0x`, four digits of the `FrameID`.
pub proof fn an_origin_tells_where_from(transport: TransportView, device: Seq<char>)
    ensures
        ({
            let address = transport.address(device);
            let slash = 11 + transport.link.len() as int;
            &&& address.len() == slash + 1 + device.len()
            &&& address.take(11) == "profinet://"@
            &&& address.subrange(11, slash) == transport.link
            &&& address[slash] == '/'
            &&& address.skip(slash + 1) == device
        }),
        ({
            let address = transport.address(device);
            let origin = transport.origin(device);
            let digits = address.len() as int + 9;
            &&& origin.len() == digits + 4
            &&& origin.take(address.len() as int) == address
            &&& origin.subrange(address.len() as int, digits) == "?frame=0x"@
            &&& value_in(16, origin.skip(digits)) == transport.frame_id
        }),
{
    reveal_strlit("profinet://");
    reveal_strlit("/");
    reveal_strlit("?frame=0x");
    let address = transport.address(device);
    let origin = transport.origin(device);
    let slash = 11 + transport.link.len() as int;
    let digits = address.len() as int + 9;
    a_hexadecimal_reads_back(0, transport.frame_id);
    assert(address.take(11) =~= "profinet://"@);
    assert(address.subrange(11, slash) =~= transport.link);
    assert(address.skip(slash + 1) =~= device);
    assert(origin.take(address.len() as int) =~= address);
    assert(origin.subrange(address.len() as int, digits) =~= "?frame=0x"@);
    assert(origin.skip(digits) =~= text::hex4_of(transport.frame_id));
}

/// The number of the kind of error that a message tells, by what it starts
/// with.
spec fn kind_told(message: Seq<char>) -> int {
    if message[0] == 's' {
        0
    } else if message[0] == 'D' {
        2
    } else if '0' <= message[0] <= '9' {
        6
    } else if message[0] == 'F' {
        7
    } else if message[0] == 'n' {
        14
    } else if message[0] == 't' {
        if message[4] == 'd' {
            12
        } else if message[11] == 'e' {
            11
        } else {
            13
        }
    } else if message[2] == 'D' {
        if message[6] == 'f' {
            1
        } else if message[6] == 'd' {
            3
        } else if message[12] == 's' {
            4
        } else {
            5
        }
    } else if message[2] == 'c' {
        if message[3] == 'h' {
            8
        } else {
            9
        }
    } else {
        10
    }
}

/// The number of the kind of `error`.
spec fn kind_of(error: Error) -> int {
    match error {
        Error::FrameIdMissing => 0,
        Error::HeaderShort => 1,
        Error::ServiceUnknown(_) => 2,
        Error::DataPastEnd => 3,
        Error::BlockShort => 4,
        Error::BlockPastEnd => 5,
        Error::CycleLength(_) => 6,
        Error::NotClassOne(_) => 7,
        Error::ChunkTooLong => 8,
        Error::CycleMissed => 9,
        Error::StatusNotGood(_) => 10,
        Error::NoLastCycle => 11,
        Error::SetUnanswered => 12,
        Error::CyclesStopped => 13,
        Error::NothingBack => 14,
    }
}

/// The digits that stand in a message of `kind`.
spec fn digits_told(kind: int, message: Seq<char>) -> Seq<char> {
    if kind == 2 {
        message.subrange(12, message.len() - 11)
    } else if kind == 6 {
        message.take(message.len() - 46)
    } else if kind == 7 {
        message.subrange(10, 14)
    } else {
        message.subrange(19, 21)
    }
}

proof fn lemma_kind_told(error: Error)
    ensures
        kind_told(error.text()) == kind_of(error),
{
    match error {
        Error::FrameIdMissing => reveal_strlit("shorter than a FrameID"),
        Error::HeaderShort => reveal_strlit("a DCP frame shorter than its header"),
        Error::ServiceUnknown(_) => reveal_strlit("DCP service "),
        Error::DataPastEnd => reveal_strlit("a DCP data length past the end"),
        Error::BlockShort => reveal_strlit("a DCP block shorter than its header"),
        Error::BlockPastEnd => reveal_strlit("a DCP block length past the end"),
        Error::CycleLength(length) => {
            a_decimal_reads_back(length as nat);
            assert(error.text()[0] == text::decimal_of(length as nat)[0]);
        },
        Error::NotClassOne(_) => reveal_strlit("FrameID 0x"),
        Error::ChunkTooLong => reveal_strlit("a chunk longer than the IO data"),
        Error::CycleMissed => reveal_strlit("a cycle was missed"),
        Error::StatusNotGood(_) => reveal_strlit("a data status of 0x"),
        Error::NoLastCycle => reveal_strlit("the cycles ended before the last flag"),
        Error::SetUnanswered => reveal_strlit("the device did not answer the set"),
        Error::CyclesStopped => reveal_strlit("the cycles stopped before the last"),
        Error::NothingBack => reveal_strlit("no cycle came back from the device"),
    }
}

proof fn lemma_digits_told(error: Error)
    ensures
        ({
            let digits = digits_told(kind_of(error), error.text());
            match error {
                Error::ServiceUnknown(code) => value_in(10, digits) == code,
                Error::CycleLength(length) => value_in(10, digits) == length,
                Error::NotClassOne(frame_id) => value_in(16, digits) == frame_id,
                Error::StatusNotGood(status) => value_in(16, digits) == status,
                _ => true,
            }
        }),
{
    let digits = digits_told(kind_of(error), error.text());
    match error {
        Error::ServiceUnknown(code) => {
            reveal_strlit("DCP service ");
            reveal_strlit(" is not one");
            a_decimal_reads_back(code as nat);
            assert(digits =~= text::decimal_of(code as nat));
        },
        Error::CycleLength(length) => {
            reveal_strlit(" bytes is not one cycle of 40 bytes of IO data");
            a_decimal_reads_back(length as nat);
            assert(digits =~= text::decimal_of(length as nat));
        },
        Error::NotClassOne(frame_id) => {
            reveal_strlit("FrameID 0x");
            a_hexadecimal_reads_back(0, frame_id);
            assert(digits =~= text::hex4_of(frame_id));
        },
        Error::StatusNotGood(status) => {
            reveal_strlit("a data status of 0x");
            a_hexadecimal_reads_back(status, 0);
            assert(digits =~= text::hex2_of(status));
        },
        _ => {},
    }
}

/// No two errors have one message: it tells which it is, and the number that
/// is wrong where there is one.
pub proof fn a_message_tells_its_error(error: Error, other: Error)
    ensures
        error.text() == other.text() <==> error == other,
{
    if error.text() == other.text() {
        lemma_kind_told(error);
        lemma_kind_told(other);
        lemma_digits_told(error);
        lemma_digits_told(other);
    }
}

} // verus!
