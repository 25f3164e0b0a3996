use profinet::cyclic::{assemble, cycles, Cyclic, CHUNK, CYCLE_STEP, DATA_STATUS_GOOD, IO_DATA};
use profinet::Error;

#[test]
fn a_stream_rides_as_many_cycles_as_it_takes_and_assembles_back() {
    let payload: Vec<u8> = (0..100u8).collect();
    let run = cycles(0x8000, &payload, 64);
    assert_eq!(run.len(), 3, "36 + 36 + 28");
    assert_eq!(run[0].cycle_counter, 64);
    assert_eq!(run[2].cycle_counter, 128);
    assert_eq!(run[2].chunk().expect("chunk"), (&payload[72..], true));
    assert!(!run[0].chunk().expect("chunk").1);
    let wire = run[0].encode();
    assert_eq!(wire.len(), 46);
    assert_eq!(&wire[..2], &[0x80, 0x00]);
    assert_eq!(&wire[42..], &[0, 64, DATA_STATUS_GOOD, 0]);
    assert_eq!(Cyclic::decode(&wire).expect("decode"), run[0]);
    assert_eq!(assemble(run).expect("assemble"), payload);
    let empty = cycles(0x8001, &[], 0);
    assert_eq!(empty.len(), 1);
    assert_eq!(assemble(empty).expect("empty"), Vec::<u8>::new());
}

#[test]
fn a_missed_cycle_a_bad_status_and_no_end_are_refused() {
    let payload = [7u8; 80];
    let mut run = cycles(0x8000, &payload, 0);
    run.remove(1);
    assert!(assemble(run).is_err(), "a cycle was missed");
    let mut run = cycles(0x8000, &payload, 0);
    run[0].data_status = 0x15;
    assert!(assemble(run).is_err(), "not valid");
    let mut run = cycles(0x8000, &payload, 0);
    run.pop();
    assert!(assemble(run).is_err(), "no end");
    let mut lying = cycles(0x8000, &[1], 0);
    lying[0].io_data[1] = 200;
    assert!(assemble(lying).is_err(), "a chunk longer than the IO data");
}

#[test]
fn what_is_not_a_class_1_cycle_is_refused() {
    assert!(Cyclic::decode(&[0x80, 0x00, 1]).is_err(), "short");
    let mut wire = cycles(0x8000, &[], 0)[0].encode();
    wire[0] = 0xc0;
    assert!(Cyclic::decode(&wire).is_err(), "class 3");
    wire[0] = 0xfe;
    wire[1] = 0xfe;
    assert!(Cyclic::decode(&wire).is_err(), "DCP");
}

#[test]
fn each_fault_of_a_run_has_its_error() {
    let payload = [7u8; 80];
    let mut run = cycles(0x8000, &payload, 0);
    run.remove(1);
    assert_eq!(assemble(run), Err(Error::CycleMissed));
    let mut run = cycles(0x8000, &payload, 0);
    run[2].data_status = 0x15;
    assert_eq!(assemble(run), Err(Error::StatusNotGood(0x15)));
    let mut run = cycles(0x8000, &payload, 0);
    run.pop();
    assert_eq!(assemble(run), Err(Error::NoLastCycle));
    let mut lying = cycles(0x8000, &[1], 0);
    lying[0].io_data[1] = 200;
    assert_eq!(lying[0].chunk(), Err(Error::ChunkTooLong));
    assert_eq!(assemble(lying), Err(Error::ChunkTooLong));
    assert_eq!(assemble(Vec::new()), Err(Error::NoLastCycle));
    assert_eq!(Cyclic::decode(&[0x80, 0x00, 1]), Err(Error::CycleLength(3)));
    let mut wire = cycles(0x8000, &[], 0)[0].encode();
    wire[0] = 0xbc;
    assert_eq!(Cyclic::decode(&wire), Err(Error::NotClassOne(0xbc00)));
    wire[0] = 0x7f;
    wire[1] = 0xff;
    assert_eq!(Cyclic::decode(&wire), Err(Error::NotClassOne(0x7fff)));
    wire[0] = 0xbb;
    assert_eq!(Cyclic::decode(&wire).expect("the last of the class").frame_id, 0xbbff);
}

#[test]
fn a_missed_first_cycle_is_not_seen() {
    let payload: Vec<u8> = (0..80u8).collect();
    let mut run = cycles(0x8000, &payload, 0);
    run.remove(0);
    assert_eq!(assemble(run).expect("the rest"), payload[36..]);
}

#[test]
fn what_comes_behind_the_last_cycle_is_not_looked_at() {
    let mut run = cycles(0x8000, &[1, 2, 3], 0);
    let mut stray = run[0].clone();
    stray.data_status = 0;
    stray.io_data.clear();
    run.push(stray);
    assert_eq!(assemble(run).expect("the run"), [1, 2, 3]);
}

#[test]
fn io_data_is_cut_or_filled_to_its_field() {
    let mut cycle = cycles(0x8000, &[], 0).remove(0);
    cycle.io_data = vec![1; 50];
    let wire = cycle.encode();
    assert_eq!(wire.len(), 46);
    assert_eq!(&wire[2..42], &[1; 40]);
    assert_eq!(&wire[42..], &[0, 0, DATA_STATUS_GOOD, 0]);
    cycle.io_data = vec![2; 3];
    let wire = cycle.encode();
    assert_eq!(&wire[2..5], &[2; 3]);
    assert_eq!(&wire[5..42], &[0; 37]);
}

#[test]
fn a_chunk_boundary_takes_no_cycle_more() {
    for (length, count) in [(0, 1), (1, 1), (35, 1), (36, 1), (37, 2), (72, 2), (73, 3)] {
        let payload = vec![0x5a; length];
        let run = cycles(0x8000, &payload, 0);
        assert_eq!(run.len(), count, "{length}");
        assert!(run.iter().all(|cycle| cycle.io_data.len() == IO_DATA));
        assert_eq!(run[count - 1].chunk().expect("chunk").1, true);
        assert_eq!(assemble(run).expect("assemble"), payload);
    }
}

#[test]
fn the_counter_wraps_and_the_run_goes_on() {
    let run = cycles(0x8000, &[0; 80], 0xffe0);
    assert_eq!(run[0].cycle_counter, 0xffe0);
    assert_eq!(run[1].cycle_counter, 0);
    assert_eq!(run[2].cycle_counter, CYCLE_STEP);
    assert_eq!(assemble(run).expect("assemble"), [0; 80]);
}

#[test]
fn a_stream_of_more_cycles_than_a_counter_has_values_comes_back_whole() {
    let payload: Vec<u8> = (0..CHUNK * 65_540).map(|n| n as u8).collect();
    let run = cycles(0x8000, &payload, 5);
    assert_eq!(run.len(), 65_540);
    assert_eq!(run[65_536].cycle_counter, 5);
    assert_eq!(run[65_537].cycle_counter, 5 + CYCLE_STEP);
    assert_eq!(assemble(run).expect("assemble"), payload);
}

#[test]
fn a_decoded_cycle_encodes_to_the_same_bytes() {
    let mut wire: Vec<u8> = (0..46u8).collect();
    wire[0] = 0x81;
    let cycle = Cyclic::decode(&wire).expect("decode");
    assert_eq!(cycle.frame_id, 0x8101);
    assert_eq!(cycle.cycle_counter, 0x2a2b);
    assert_eq!(cycle.data_status, 0x2c);
    assert_eq!(cycle.transfer_status, 0x2d);
    assert_eq!(cycle.encode(), wire);
}
