use std::time::Duration;

use profinet::controller::{Addressed, CyclesStep, IdentifyStep, NamingStep};
use profinet::cyclic::cycles;
use profinet::dcp::{ETHERTYPE, MULTICAST};
use profinet::{Counters, Dcp, Device, Error, Frame, InProcess, Mac, ProfinetTransport};

const TIMEOUT: Duration = Duration::from_millis(100);

/// The text of an address, as a carrier writes it.
fn text(mac: Mac) -> String {
    let octets: Vec<String> = mac.0.iter().map(|octet| format!("{octet:02x}")).collect();
    octets.join(":")
}

/// The address of a text, as a carrier reads it.
fn address(text: &str) -> Option<Mac> {
    let octets: Vec<u8> = text
        .split(':')
        .map(|octet| u8::from_str_radix(octet, 16).ok())
        .collect::<Option<_>>()?;
    Some(Mac(octets.try_into().ok()?))
}

/// Cycle `bytes` out to the device that `target` names.
fn send(link: &mut InProcess, target: &str, bytes: &[u8]) -> Option<()> {
    let named = target
        .strip_prefix("profinet://")
        .and_then(|rest| rest.split_once('/'))
        .map(|(_, mac)| mac);
    let device = match link.controller.addressed(named) {
        Addressed::Named(mac) => address(mac)?,
        Addressed::Configured(mac) => mac,
    };
    link.cycle_out(device, bytes);
    Some(())
}

fn on_link(mac: Mac, name: &str, device: Mac) -> InProcess {
    InProcess {
        controller: ProfinetTransport::new("loopback", Mac([2, 0, 0, 0, 0, 1]), device)
            .timing_out_after(TIMEOUT),
        counters: Counters::new(),
        device: Device::new(mac, name),
    }
}

#[test]
fn a_loopback_round_cycles_a_stream_out_and_mirrors_it_back() {
    let mut loopback = ProfinetTransport::loopback(TIMEOUT);
    let arrived = loopback.round(b"one cycle").expect("round");
    assert_eq!(arrived.bytes, b"one cycle");
    assert_eq!(
        loopback.controller.origin(&text(arrived.source)),
        "profinet://loopback/02:00:00:00:00:02?frame=0x8000"
    );
    let long = vec![0x2a; 1000];
    assert_eq!(loopback.round(&long).expect("28 cycles").bytes, long);
    assert_eq!(loopback.controller.name(), "profinet");
}

#[test]
fn the_loopback_returns_the_edges_whole() {
    let mut loopback = ProfinetTransport::loopback(TIMEOUT);
    let edges: Vec<(&str, Vec<u8>)> = vec![
        ("empty", Vec::new()),
        ("one zero", vec![0]),
        ("every octet", (0..=255).collect()),
        ("one chunk", vec![0xff; 36]),
        ("one past a chunk", vec![0xff; 37]),
        ("a megabyte", vec![0x5a; 1 << 20]),
    ];
    for (name, bytes) in edges {
        let arrived = loopback
            .round(&bytes)
            .unwrap_or_else(|error| panic!("{name}: {error:?}"));
        assert_eq!(arrived.bytes, bytes, "{name}");
    }
}

#[test]
fn dcp_finds_the_device_and_names_it() {
    let mut link = on_link(
        Mac([2, 0, 0, 0, 0, 9]),
        "unnamed",
        Mac([2, 0, 0, 0, 0, 9]),
    );
    assert_eq!(
        link.identify(),
        vec![(Mac([2, 0, 0, 0, 0, 9]), "unnamed".to_string())]
    );
    link.set_name(Mac([2, 0, 0, 0, 0, 9]), "valve-7")
        .expect("set");
    assert_eq!(link.device.name(), "valve-7");
    assert_eq!(link.identify()[0].1, "valve-7");
    let error = link
        .set_name(Mac([2, 0, 0, 0, 0, 8]), "nobody")
        .expect_err("another device");
    assert!(error.message().contains("did not answer"), "{error:?}");
    assert!(link.cycle_in().expect("quiet").is_none());
}

#[test]
fn a_target_names_the_device_and_a_broken_run_is_refused() {
    let mut link = on_link(Mac([2, 0, 0, 0, 0, 2]), "d", Mac([2, 0, 0, 0, 0, 3]));
    link.controller = link
        .controller
        .under(0x8010)
        .timing_out_after(Duration::from_millis(50));
    assert_eq!(link.controller.timeout(), Duration::from_millis(50));
    send(&mut link, "profinet://loopback/02:00:00:00:00:02", &[1, 2, 3]).expect("named");
    let arrived = link.cycle_in().expect("in").expect("one");
    assert_eq!(arrived.bytes, [1, 2, 3]);
    assert_eq!(
        link.controller.origin(&text(arrived.source)),
        "profinet://loopback/02:00:00:00:00:02?frame=0x8010"
    );
    send(&mut link, "", &[4]).expect("the configured device, which is not there");
    assert!(link.cycle_in().expect("quiet").is_none());
    assert!(send(&mut link, "profinet://loopback/nope", &[]).is_none());
    // Two cycles of a run, the last never sent: the read-back times out.
    let run = cycles(0x8010, &[9; 100], 0);
    for cycle in &run[..2] {
        link.device.transmit(&Frame {
            destination: Mac([2, 0, 0, 0, 0, 2]),
            source: Mac([2, 0, 0, 0, 0, 1]),
            ethertype: ETHERTYPE,
            payload: cycle.encode(),
        });
    }
    assert_eq!(
        link.cycle_in(),
        Err(Error::CyclesStopped),
        "stopped before the last"
    );
}

#[test]
fn a_new_controller_waits_one_second() {
    let controller = ProfinetTransport::new("eth0", Mac([1; 6]), Mac([2; 6]));
    assert_eq!(controller.timeout(), Duration::from_secs(1));
    assert_eq!(controller.device(), Mac([2; 6]));
    assert_eq!(controller.address("there"), "profinet://eth0/there");
    assert_eq!(
        controller.under(0x80ab).origin("there"),
        "profinet://eth0/there?frame=0x80ab"
    );
}

#[test]
fn a_round_with_nobody_there_brings_nothing_back() {
    let mut link = on_link(Mac([2, 0, 0, 0, 0, 2]), "d", Mac([2, 0, 0, 0, 0, 3]));
    assert_eq!(link.round(&[1]), Err(Error::NothingBack));
    link.controller = link.controller.under(0xc000);
    assert_eq!(link.round(&[1]), Err(Error::NothingBack));
}

#[test]
fn requests_go_out_under_new_transactions() {
    let mut counters = Counters::new();
    let controller = ProfinetTransport::new("eth0", Mac([4; 6]), Mac([6; 6]));
    let (first, _) = controller.identify(&mut counters);
    let (second, _) = controller.set_name(&mut counters, Mac([6; 6]), "x");
    assert_eq!(first.destination, Mac(MULTICAST));
    assert_eq!(first.source, Mac([4; 6]));
    assert_eq!(first.ethertype, ETHERTYPE);
    assert_eq!(second.destination, Mac([6; 6]));
    assert_eq!(Dcp::decode(&first.payload).expect("dcp").expect("dcp").xid, 1);
    assert_eq!(
        Dcp::decode(&second.payload).expect("dcp"),
        Some(Dcp::set_name(2, "x"))
    );
}

#[test]
fn the_counter_runs_on_from_stream_to_stream() {
    let mut counters = Counters::new();
    let controller = ProfinetTransport::new("eth0", Mac([4; 6]), Mac([6; 6]));
    let first = controller.cycle_out(&mut counters, Mac([6; 6]), &[0; 80]);
    let second = controller.cycle_out(&mut counters, Mac([6; 6]), &[1]);
    assert_eq!(first.len(), 3);
    assert_eq!(first[2].payload[42..44], [0, 64]);
    assert_eq!(second[0].payload[42..44], [0, 96]);
    assert!(first.iter().all(|frame| frame.destination == Mac([6; 6])
        && frame.source == Mac([4; 6])
        && frame.ethertype == ETHERTYPE));
}

#[test]
fn a_device_drops_what_is_not_for_it() {
    let mut device = Device::new(Mac([2, 0, 0, 0, 0, 9]), "d");
    let mut frame = Frame {
        destination: Mac([2, 0, 0, 0, 0, 9]),
        source: Mac([2, 0, 0, 0, 0, 1]),
        ethertype: 0x0800,
        payload: Dcp::identify_all(1).encode(),
    };
    device.transmit(&frame);
    assert!(device.receive().is_none(), "not PROFINET");
    frame.ethertype = ETHERTYPE;
    frame.destination = Mac([2, 0, 0, 0, 0, 8]);
    device.transmit(&frame);
    assert!(device.receive().is_none(), "another's");
    frame.destination = Mac([2, 0, 0, 0, 0, 9]);
    frame.payload = Dcp::identify_all(1).answered_with(Vec::new()).encode();
    device.transmit(&frame);
    assert!(device.receive().is_none(), "a response");
    frame.payload = vec![0xfe, 0xfe, 5];
    device.transmit(&frame);
    assert!(device.receive().is_none(), "broken");
    frame.destination = Mac(MULTICAST);
    assert!(frame.destination.is_group());
    frame.payload = cycles(0x8000, &[], 0)[0].encode();
    device.transmit(&frame);
    assert!(device.receive().is_none(), "a cycle for a group");
    frame.destination = Mac([2, 0, 0, 0, 0, 9]);
    device.transmit(&frame);
    let mirrored = device.receive().expect("mirrored");
    assert_eq!(mirrored.payload, frame.payload);
    assert_eq!(mirrored.destination, frame.source);
    assert_eq!(mirrored.source, frame.destination);
}

#[test]
fn a_get_is_answered_with_the_name() {
    let mut device = Device::new(Mac([2, 0, 0, 0, 0, 9]), "pump");
    let mut request = Dcp::identify_all(77);
    request.service = profinet::Service::Get;
    let frame = Frame {
        destination: Mac([2, 0, 0, 0, 0, 9]),
        source: Mac([2, 0, 0, 0, 0, 1]),
        ethertype: ETHERTYPE,
        payload: request.encode(),
    };
    let answer = device.take(&frame).expect("answered");
    assert!(device.receive().is_none(), "not queued yet");
    device.queue(answer.clone());
    assert_eq!(device.receive(), Some(answer.clone()));
    let answer = Dcp::decode(&answer.payload).expect("dcp").expect("dcp");
    assert!(answer.response);
    assert_eq!(answer.xid, 77);
    assert_eq!(answer.name().as_deref(), Some("pump"));
}

#[test]
fn exchanges_go_step_by_step() {
    let mut counters = Counters::new();
    let controller = ProfinetTransport::new("eth0", Mac([4; 6]), Mac([6; 6]));
    let mut stray = Frame {
        destination: Mac([4; 6]),
        source: Mac([6; 6]),
        ethertype: ETHERTYPE,
        payload: vec![1, 2, 3],
    };

    let (request, naming) = controller.set_name(&mut counters, Mac([6; 6]), "x");
    assert!(matches!(
        naming.step(Some(&stray), true),
        Ok(NamingStep::Receive)
    ));
    assert!(matches!(naming.step(None, false), Ok(NamingStep::Yield)));
    assert!(matches!(
        naming.step(None, true),
        Err(Error::SetUnanswered)
    ));
    let set = Dcp::decode(&request.payload).expect("dcp").expect("dcp");
    stray.payload = set.answered_with(Vec::new()).encode();
    assert!(matches!(
        naming.step(Some(&stray), false),
        Ok(NamingStep::Named)
    ));

    let (_, identify) = controller.identify(&mut counters);
    let identify = match identify.step(Some(&stray)) {
        IdentifyStep::Receive(identify) => identify,
        IdentifyStep::Found(_) => panic!("not quiet"),
    };
    stray.payload = Dcp::identify_all(2).answered_with(Vec::new()).encode();
    let identify = match identify.step(Some(&stray)) {
        IdentifyStep::Receive(identify) => identify,
        IdentifyStep::Found(_) => panic!("not quiet"),
    };
    match identify.step(None) {
        IdentifyStep::Found(found) => assert_eq!(found, vec![(Mac([6; 6]), String::new())]),
        IdentifyStep::Receive(_) => panic!("quiet"),
    }

    let run = cycles(0x8000, &[9; 40], 0);
    let incoming = controller.cycle_in();
    assert!(matches!(incoming.step(None, false), Ok(CyclesStep::Quiet)));
    stray.payload = run[0].encode();
    let incoming = match controller.cycle_in().step(Some(&stray), false) {
        Ok(CyclesStep::Receive(incoming)) => incoming,
        _ => panic!("one more"),
    };
    let incoming = match incoming.step(None, false) {
        Ok(CyclesStep::Yield(incoming)) => incoming,
        _ => panic!("not yet"),
    };
    stray.payload = run[1].encode();
    match incoming.step(Some(&stray), true) {
        Ok(CyclesStep::Arrived(arrived)) => {
            assert_eq!(arrived.source, Mac([6; 6]));
            assert_eq!(arrived.bytes, [9; 40]);
        }
        _ => panic!("the last"),
    }
    let mut lying = run[1].clone();
    lying.io_data[1] = 99;
    stray.payload = lying.encode();
    assert!(matches!(
        controller.cycle_in().step(Some(&stray), false),
        Err(Error::ChunkTooLong)
    ));
}

#[test]
fn a_strangers_response_does_not_answer_a_set() {
    let mut link = on_link(Mac([2, 0, 0, 0, 0, 9]), "d", Mac([2, 0, 0, 0, 0, 9]));
    let stranger = Frame {
        destination: Mac([2, 0, 0, 0, 0, 1]),
        source: Mac([2, 0, 0, 0, 0, 7]),
        ethertype: ETHERTYPE,
        payload: Dcp::set_name(1, "x").answered_with(Vec::new()).encode(),
    };
    link.device.queue(stranger.clone());
    assert_eq!(
        link.set_name(Mac([2, 0, 0, 0, 0, 8]), "x"),
        Err(Error::SetUnanswered)
    );
    assert!(link.device.receive().is_none(), "all of it was read");
    assert_eq!(link.device.name(), "d");

    let mut stranger = stranger;
    stranger.payload = Dcp::set_name(2, "x").answered_with(Vec::new()).encode();
    link.device.queue(stranger);
    link.set_name(Mac([2, 0, 0, 0, 0, 9]), "x")
        .expect("the device, behind the stranger");
    assert_eq!(link.device.name(), "x");

    let mut counters = Counters::new();
    let (_, naming) = link
        .controller
        .set_name(&mut counters, Mac([2, 0, 0, 0, 0, 8]), "x");
    let mut response = Frame {
        destination: Mac([2, 0, 0, 0, 0, 1]),
        source: Mac([2, 0, 0, 0, 0, 7]),
        ethertype: ETHERTYPE,
        payload: Dcp::set_name(1, "x").answered_with(Vec::new()).encode(),
    };
    assert!(matches!(
        naming.step(Some(&response), true),
        Ok(NamingStep::Receive)
    ));
    response.source = Mac([2, 0, 0, 0, 0, 8]);
    assert!(matches!(
        naming.step(Some(&response), true),
        Ok(NamingStep::Named)
    ));
}

#[test]
fn the_counter_runs_on_past_a_stream_of_many_cycles() {
    let mut counters = Counters::new();
    let controller = ProfinetTransport::new("eth0", Mac([4; 6]), Mac([6; 6]));
    let first = controller.cycle_out(&mut counters, Mac([6; 6]), &vec![0; 36 * 65_537]);
    assert_eq!(first.len(), 65_537);
    assert_eq!(first[65_536].payload[42..44], [0, 0]);
    assert_eq!(counters.cycle, 32);
    let second = controller.cycle_out(&mut counters, Mac([6; 6]), &[1]);
    assert_eq!(second[0].payload[42..44], [0, 32]);
}

#[test]
fn a_missed_cycle_on_the_link_is_refused() {
    let mut link = on_link(Mac([2, 0, 0, 0, 0, 2]), "d", Mac([2, 0, 0, 0, 0, 2]));
    let run = cycles(0x8000, &[9; 100], 0);
    for cycle in [&run[0], &run[2]] {
        link.device.transmit(&Frame {
            destination: Mac([2, 0, 0, 0, 0, 2]),
            source: Mac([2, 0, 0, 0, 0, 1]),
            ethertype: ETHERTYPE,
            payload: cycle.encode(),
        });
    }
    assert_eq!(link.cycle_in(), Err(Error::CycleMissed));
}
