use profinet::dcp::{OPTION_ALL, OPTION_DEVICE, SUBOPTION_NAME};
use profinet::{Block, Cyclic, Dcp, Error, Service};

#[test]
fn an_identify_request_and_its_response_round_trip() {
    let request = Dcp::identify_all(0x0102_0304);
    let payload = request.encode();
    assert_eq!(&payload[..2], &[0xfe, 0xfe]);
    assert_eq!(&payload[2..12], &[5, 0, 1, 2, 3, 4, 0, 0, 0, 4]);
    assert_eq!(&payload[12..], &[0xff, 0xff, 0, 0]);
    assert_eq!(
        Dcp::decode(&payload).expect("decode"),
        Some(request.clone())
    );
    let mut data = vec![0, 0];
    data.extend_from_slice(b"valve");
    let response = request.answered_with(vec![Block {
        option: OPTION_DEVICE,
        suboption: SUBOPTION_NAME,
        data,
    }]);
    let payload = response.encode();
    assert_eq!(&payload[..2], &[0xfe, 0xff]);
    assert_eq!(payload.len(), 12 + 4 + 8, "padded to even");
    let back = Dcp::decode(&payload).expect("decode").expect("dcp");
    assert_eq!(back, response);
    assert_eq!(back.name().as_deref(), Some("valve"));
    assert!(request.name().is_none());
}

#[test]
fn a_set_names_the_station_and_a_cyclic_frame_is_not_dcp() {
    let set = Dcp::set_name(7, "drive-1");
    let payload = set.encode();
    assert_eq!(&payload[..2], &[0xfe, 0xfd]);
    assert_eq!(&payload[12..16], &[2, 2, 0, 9]);
    assert_eq!(&payload[16..18], &[0, 1], "permanent");
    assert_eq!(
        Dcp::decode(&payload)
            .expect("decode")
            .expect("dcp")
            .name()
            .as_deref(),
        Some("drive-1")
    );
    assert_eq!(Dcp::decode(&[0x80, 0x00, 1, 2]).expect("cyclic"), None);
}

#[test]
fn what_is_not_dcp_is_refused() {
    assert!(Dcp::decode(&[0xfe]).is_err(), "no FrameID");
    assert!(Dcp::decode(&[0xfe, 0xfe, 5, 0]).is_err(), "short header");
    assert!(
        Dcp::decode(&[0xfe, 0xfe, 9, 0, 0, 0, 0, 0, 0, 0, 0, 0]).is_err(),
        "service 9"
    );
    assert!(
        Dcp::decode(&[0xfe, 0xfe, 5, 0, 0, 0, 0, 0, 0, 0, 0, 8]).is_err(),
        "past the end"
    );
    assert!(
        Dcp::decode(&[0xfe, 0xfe, 5, 0, 0, 0, 0, 0, 0, 0, 0, 4, 2, 2, 0, 9]).is_err(),
        "block past"
    );
}

#[test]
fn each_fault_of_a_dcp_frame_has_its_error() {
    assert_eq!(Dcp::decode(&[]), Err(Error::FrameIdMissing));
    assert_eq!(Dcp::decode(&[0xfe, 0xfd, 4]), Err(Error::HeaderShort));
    assert_eq!(
        Dcp::decode(&[0xfe, 0xfe, 9, 0, 0, 0, 0, 0, 0, 0, 0, 0]),
        Err(Error::ServiceUnknown(9))
    );
    assert_eq!(
        Dcp::decode(&[0xfe, 0xfe, 5, 0, 0, 0, 0, 0, 0, 0, 0, 8]),
        Err(Error::DataPastEnd)
    );
    assert_eq!(
        Dcp::decode(&[0xfe, 0xfe, 5, 0, 0, 0, 0, 0, 0, 0, 0, 3, 2, 2, 0]),
        Err(Error::BlockShort)
    );
    assert_eq!(
        Dcp::decode(&[0xfe, 0xfe, 5, 0, 0, 0, 0, 0, 0, 0, 0, 4, 2, 2, 0, 9]),
        Err(Error::BlockPastEnd)
    );
}

#[test]
fn the_messages_say_what_is_wrong() {
    let messages = [
        (Error::FrameIdMissing, "shorter than a FrameID"),
        (Error::HeaderShort, "a DCP frame shorter than its header"),
        (Error::ServiceUnknown(9), "DCP service 9 is not one"),
        (Error::ServiceUnknown(207), "DCP service 207 is not one"),
        (Error::DataPastEnd, "a DCP data length past the end"),
        (Error::BlockShort, "a DCP block shorter than its header"),
        (Error::BlockPastEnd, "a DCP block length past the end"),
        (
            Error::CycleLength(1500),
            "1500 bytes is not one cycle of 40 bytes of IO data",
        ),
        (
            Error::NotClassOne(0x00fe),
            "FrameID 0x00fe is not real-time class 1",
        ),
        (
            Error::NotClassOne(0xc0da),
            "FrameID 0xc0da is not real-time class 1",
        ),
        (Error::ChunkTooLong, "a chunk longer than the IO data"),
        (Error::CycleMissed, "a cycle was missed"),
        (
            Error::StatusNotGood(0x05),
            "a data status of 0x05 is not good",
        ),
        (Error::NoLastCycle, "the cycles ended before the last flag"),
        (Error::SetUnanswered, "the device did not answer the set"),
        (Error::CyclesStopped, "the cycles stopped before the last"),
        (Error::NothingBack, "no cycle came back from the device"),
    ];
    for (error, message) in messages {
        assert_eq!(error.message(), message);
    }
}

#[test]
fn blocks_of_every_length_come_back_in_order() {
    let mut blocks = Vec::new();
    for length in 0..6u8 {
        blocks.push(Block {
            option: length,
            suboption: 0x40 + length,
            data: (0..length).collect(),
        });
    }
    let frame = Dcp {
        service: Service::Get,
        response: true,
        xid: 0xfedc_ba98,
        blocks,
    };
    let payload = frame.encode();
    assert_eq!(&payload[..4], &[0xfe, 0xfd, 3, 1]);
    assert_eq!(&payload[4..8], &[0xfe, 0xdc, 0xba, 0x98]);
    assert_eq!(payload.len() % 2, 0);
    assert_eq!(Dcp::decode(&payload).expect("decode"), Some(frame.clone()));
    let mut padded = payload.clone();
    padded.resize(60, 0xaa);
    assert_eq!(Dcp::decode(&padded).expect("padded"), Some(frame));
    assert!(Cyclic::decode(&payload).is_err());
}

#[test]
fn the_last_block_may_go_without_its_padding() {
    let payload = [
        0xfe, 0xff, 5, 1, 0, 0, 0, 1, 0, 0, 0, 7, 2, 2, 0, 3, 0, 0, b'x',
    ];
    let frame = Dcp::decode(&payload).expect("decode").expect("dcp");
    assert_eq!(frame.blocks.len(), 1);
    assert_eq!(frame.name().as_deref(), Some("x"));
    assert_eq!(frame.name_bytes(), Some(&b"x"[..]));
}

#[test]
fn the_first_name_block_decides() {
    let mut frame = Dcp::identify_all(1);
    assert_eq!(frame.blocks[0].option, OPTION_ALL);
    frame.blocks.push(Block {
        option: OPTION_DEVICE,
        suboption: SUBOPTION_NAME,
        data: vec![0, 0, b'a'],
    });
    frame.blocks.push(Block {
        option: OPTION_DEVICE,
        suboption: SUBOPTION_NAME,
        data: vec![0, 0, b'b'],
    });
    assert_eq!(frame.name().as_deref(), Some("a"));
    frame.blocks[1].data = vec![0];
    assert!(frame.name().is_none(), "too short for its info");
    frame.blocks[1].data = vec![0, 0];
    assert_eq!(frame.name().as_deref(), Some(""));
}

#[test]
fn a_name_that_is_not_utf_8_is_repaired() {
    let mut frame = Dcp::set_name(1, "ventil-\u{e5}");
    assert_eq!(frame.name().as_deref(), Some("ventil-\u{e5}"));
    frame.blocks[0].data = vec![0, 1, b'v', 0xff, b'7'];
    assert_eq!(frame.name().as_deref(), Some("v\u{fffd}7"));
    assert_eq!(frame.name_bytes(), Some(&[b'v', 0xff, b'7'][..]));
}

#[test]
fn what_a_length_field_cannot_count_is_said_to_be_nothing() {
    let longest = "n".repeat(65_528);
    let set = Dcp::set_name(1, &longest);
    let back = Dcp::decode(&set.encode()).expect("decode").expect("dcp");
    assert_eq!(back, set);
    let set = Dcp::set_name(1, &"n".repeat(65_529));
    let payload = set.encode();
    assert_eq!(&payload[10..16], &[0, 0, 2, 2, 0xff, 0xfb]);
    assert!(Dcp::decode(&payload)
        .expect("decode")
        .expect("dcp")
        .blocks
        .is_empty());
    let set = Dcp::set_name(1, &"n".repeat(70_000));
    assert_eq!(&set.encode()[10..16], &[0, 0, 2, 2, 0, 0]);
}

#[test]
fn services_have_their_numbers() {
    for (service, code) in [
        (Service::Get, 3),
        (Service::Assign, 4),
        (Service::Identify, 5),
    ] {
        assert_eq!(service.code(), code);
        assert_eq!(Service::from_code(code), Some(service));
    }
    assert_eq!(Service::from_code(6), None);
}
