//! When a run of cycles carries a Stream, and which.

use vstd::prelude::*;

use crate::cyclic;
use crate::cyclic::CyclicView;
use crate::error::Error;
use crate::laws::layout;
use crate::laws::layout::number;

verus! {

/// Whether the counter of cycle `i` is the expected one: of the first, the
/// one that is given, where one is; of any other, one step past the cycle
/// before.
pub open spec fn is_in_step(run: Seq<CyclicView>, expected: Option<u16>, i: int) -> bool {
    if i == 0 {
        expected is None || run[0].cycle_counter == expected->0
    } else {
        run[i].cycle_counter == (run[i - 1].cycle_counter + 32) % 65536
    }
}

/// Where the chunk of `cycle` ends in its IO data.
pub open spec fn chunk_end(cycle: CyclicView) -> int {
    4 + number(cycle.io_data[0], cycle.io_data[1])
}

/// Whether cycle `i` carries a chunk of the Stream: in step, of good status,
/// its chunk within its IO data.
pub open spec fn is_sound(run: Seq<CyclicView>, expected: Option<u16>, i: int) -> bool {
    &&& is_in_step(run, expected, i)
    &&& run[i].data_status == 0x35
    &&& run[i].io_data.len() >= 3
    &&& chunk_end(run[i]) <= run[i].io_data.len()
}

/// Whether each of the first `k` cycles is sound and none is the last.
pub open spec fn goes_on(run: Seq<CyclicView>, expected: Option<u16>, k: int) -> bool {
    forall|i: int|
        0 <= i < k ==> #[trigger] is_sound(run, expected, i) && run[i].io_data[2] % 2 == 0
}

/// The chunks of the first `k` cycles, joined.
pub open spec fn joined(run: Seq<CyclicView>, k: int) -> Seq<u8> {
    Seq::new(
        k as nat,
        |i: int| run[i].io_data.subrange(4, chunk_end(run[i])),
    ).flatten()
}

/// The first cycle behind which a run does not go on decides what comes of
/// it: out of step, a cycle was missed; of another status, that is not good;
/// with a chunk past its IO data, that is too long; flagged as the last, the
/// Stream is the chunks up to it, joined; and where there is no such cycle,
/// the run has no end.
pub proof fn the_first_cycle_that_ends_a_run_decides(
    run: Seq<CyclicView>,
    expected: Option<u16>,
    k: int,
)
    requires
        0 <= k <= run.len(),
        goes_on(run, expected, k),
    ensures
        k == run.len() ==> cyclic::stream_of(run, expected) == Err::<Seq<u8>, Error>(
            Error::NoLastCycle,
        ),
        k < run.len() && !is_in_step(run, expected, k) ==> cyclic::stream_of(run, expected)
            == Err::<Seq<u8>, Error>(Error::CycleMissed),
        k < run.len() && is_in_step(run, expected, k) && run[k].data_status != 0x35
            ==> cyclic::stream_of(run, expected) == Err::<Seq<u8>, Error>(
            Error::StatusNotGood(run[k].data_status),
        ),
        k < run.len() && is_in_step(run, expected, k) && run[k].data_status == 0x35
            && run[k].io_data.len() >= 3 && chunk_end(run[k]) > run[k].io_data.len()
            ==> cyclic::stream_of(run, expected) == Err::<Seq<u8>, Error>(Error::ChunkTooLong),
        k < run.len() && is_sound(run, expected, k) && run[k].io_data[2] % 2 == 1
            ==> cyclic::stream_of(run, expected) == Ok::<Seq<u8>, Error>(joined(run, k + 1)),
        k == run.len() ==> cyclic::is_readable(run, expected),
        k < run.len() ==> (cyclic::is_readable(run, expected) <==> {
            ||| !is_in_step(run, expected, k)
            ||| run[k].data_status != 0x35
            ||| run[k].io_data.len() >= 3 && {
                ||| chunk_end(run[k]) > run[k].io_data.len()
                ||| run[k].io_data[2] % 2 == 1
                ||| cyclic::is_readable(
                    run.skip(k + 1),
                    Some(((run[k].cycle_counter + 32) % 65536) as u16),
                )
            }
        }),
    decreases k,
{
    if run.len() == 0 {
    } else {
        let next = Some(((run[0].cycle_counter + 32) % 65536) as u16);
        let rest = run.drop_first();
        layout::the_counter_moves_by_a_step(run[0].cycle_counter, 1);
        if run[0].io_data.len() >= 3 {
            layout::a_chunk_stands_behind_its_prologue(run[0]);
        }
        if k == 0 {
            assert(run.skip(1) =~= rest);
            if is_sound(run, expected, 0) {
                let parts = Seq::new(
                    1,
                    |i: int| run[i].io_data.subrange(4, chunk_end(run[i])),
                );
                assert(parts.drop_first() =~= Seq::empty());
                assert(parts.drop_first().flatten() =~= Seq::empty());
                assert(joined(run, 1) =~= parts[0]);
                assert(run[0].chunk() =~= parts[0]);
            }
        } else {
            assert(is_sound(run, expected, 0));
            assert forall|i: int| 0 <= i < k - 1 implies #[trigger] is_sound(rest, next, i)
                && rest[i].io_data[2] % 2 == 0 by {
                assert(is_sound(run, expected, i + 1));
            }
            the_first_cycle_that_ends_a_run_decides(rest, next, k - 1);
            if k < run.len() {
                assert(rest.skip(k) =~= run.skip(k + 1));
                assert(is_in_step(rest, next, k - 1) == is_in_step(run, expected, k));
                assert(rest[k - 1] == run[k]);
                let parts = Seq::new(
                    (k + 1) as nat,
                    |i: int| run[i].io_data.subrange(4, chunk_end(run[i])),
                );
                let later = Seq::new(
                    k as nat,
                    |i: int| rest[i].io_data.subrange(4, chunk_end(rest[i])),
                );
                assert(parts.drop_first() =~= later);
                assert(joined(run, k + 1) =~= parts[0] + joined(rest, k));
                assert(run[0].chunk() =~= parts[0]);
            }
        }
    }
}

/// A run that carries a Stream has no hole in it: every cycle up to the one
/// that is flagged as the last is sound, each counter exactly one step past
/// the one before, and the Stream is their chunks and nothing else.
pub proof fn a_stream_has_no_hole(run: Seq<CyclicView>, expected: Option<u16>) -> (last: int)
    requires
        cyclic::is_readable(run, expected),
        cyclic::stream_of(run, expected) is Ok,
    ensures
        0 <= last < run.len(),
        goes_on(run, expected, last),
        is_sound(run, expected, last),
        run[last].io_data[2] % 2 == 1,
        forall|i: int|
            0 < i <= last ==> (#[trigger] run[i]).cycle_counter == (run[i - 1].cycle_counter + 32)
                % 65536,
        cyclic::stream_of(run, expected)->Ok_0 == joined(run, last + 1),
{
    let last = lemma_run_end(run, expected, 0);
    the_first_cycle_that_ends_a_run_decides(run, expected, last);
    assert forall|i: int| 0 < i <= last implies (#[trigger] run[i]).cycle_counter == (run[i
        - 1].cycle_counter + 32) % 65536 by {
        assert(is_sound(run, expected, i));
    }
    last
}

proof fn lemma_run_end(run: Seq<CyclicView>, expected: Option<u16>, k: int) -> (last: int)
    requires
        0 <= k <= run.len(),
        goes_on(run, expected, k),
        cyclic::is_readable(run, expected),
        cyclic::stream_of(run, expected) is Ok,
    ensures
        0 <= last < run.len(),
        goes_on(run, expected, last),
        is_sound(run, expected, last),
        run[last].io_data[2] % 2 == 1,
    decreases run.len() - k,
{
    the_first_cycle_that_ends_a_run_decides(run, expected, k);
    assert(is_sound(run, expected, k));
    if run[k].io_data[2] % 2 == 1 {
        k
    } else {
        assert(goes_on(run, expected, k + 1));
        lemma_run_end(run, expected, k + 1)
    }
}

/// Cycles of a run that come in another order, or with some left out or
/// repeated, are refused at the first that does not follow the one before
/// it. A counter comes round after 2048 cycles, so it cannot tell a cycle
/// from one that many away.
pub proof fn a_run_out_of_order_is_refused(
    frame_id: u16,
    stream: Seq<u8>,
    first_counter: u16,
    order: Seq<int>,
    at: int,
)
    requires
        forall|i: int|
            0 <= i < order.len() ==> 0 <= #[trigger] order[i] < cyclic::cycle_count(stream.len()),
        0 < at < order.len(),
        forall|i: int|
            0 <= i < at ==> (#[trigger] order[i]) + 1 < cyclic::cycle_count(stream.len()),
        forall|i: int| 0 < i < at ==> (#[trigger] order[i]) == order[i - 1] + 1,
        (order[at] - order[at - 1] - 1) % 2048 != 0,
    ensures
        ({
            let run = cyclic::run_of(frame_id, stream, first_counter);
            cyclic::stream_of(Seq::new(order.len(), |i: int| run[order[i]]), None) == Err::<
                Seq<u8>,
                Error,
            >(Error::CycleMissed)
        }),
{
    let run = cyclic::run_of(frame_id, stream, first_counter);
    let taken = Seq::new(order.len(), |i: int| run[order[i]]);
    assert forall|i: int| 0 <= i < at implies #[trigger] is_sound(taken, None, i)
        && taken[i].io_data[2] % 2 == 0 by {
        lemma_middle_cycle(frame_id, stream, first_counter, order[i]);
        if i > 0 {
            lemma_next_in_step(frame_id, stream, first_counter, order[i - 1], order[i]);
        }
    }
    lemma_next_in_step(frame_id, stream, first_counter, order[at - 1], order[at]);
    assert(!is_in_step(taken, None, at));
    the_first_cycle_that_ends_a_run_decides(taken, None, at);
}

proof fn lemma_middle_cycle(frame_id: u16, stream: Seq<u8>, first_counter: u16, n: int)
    requires
        0 <= n,
        n + 1 < cyclic::cycle_count(stream.len()),
    ensures
        ({
            let cycle = cyclic::run_of(frame_id, stream, first_counter)[n];
            &&& cycle.data_status == 0x35
            &&& cycle.io_data.len() == 40
            &&& chunk_end(cycle) <= 40
            &&& cycle.io_data[2] % 2 == 0
        }),
{
    layout::a_stream_stands_in_its_cycles(frame_id, stream, first_counter, n);
}

proof fn lemma_next_in_step(
    frame_id: u16,
    stream: Seq<u8>,
    first_counter: u16,
    before: int,
    after: int,
)
    requires
        0 <= before < cyclic::cycle_count(stream.len()),
        0 <= after < cyclic::cycle_count(stream.len()),
    ensures
        ({
            let run = cyclic::run_of(frame_id, stream, first_counter);
            run[after].cycle_counter == (run[before].cycle_counter + 32) % 65536 <==> (after
                - before - 1) % 2048 == 0
        }),
{
    layout::a_stream_stands_in_its_cycles(frame_id, stream, first_counter, before);
    layout::a_stream_stands_in_its_cycles(frame_id, stream, first_counter, after);
    lemma_step_apart(first_counter as int, before, after);
}

proof fn lemma_step_apart(first: int, before: int, after: int)
    ensures
        (first + 32 * after) % 65536 == ((first + 32 * before) % 65536 + 32) % 65536 <==> (after
            - before - 1) % 2048 == 0,
{
}

/// A run with cycles left out of its middle is refused, unless as many are
/// left out as bring the counter round.
pub proof fn a_gap_in_a_run_is_refused(
    frame_id: u16,
    stream: Seq<u8>,
    first_counter: u16,
    from: int,
    to: int,
)
    requires
        0 < from < to < cyclic::cycle_count(stream.len()),
        (to - from) % 2048 != 0,
    ensures
        ({
            let run = cyclic::run_of(frame_id, stream, first_counter);
            cyclic::stream_of(run.take(from) + run.skip(to), None) == Err::<Seq<u8>, Error>(
                Error::CycleMissed,
            )
        }),
{
    let run = cyclic::run_of(frame_id, stream, first_counter);
    let order = Seq::new(
        (run.len() - (to - from)) as nat,
        |i: int| if i < from {
            i
        } else {
            i + (to - from)
        },
    );
    a_run_out_of_order_is_refused(frame_id, stream, first_counter, order, from);
    assert(Seq::new(order.len(), |i: int| run[order[i]]) =~= run.take(from) + run.skip(to));
}

/// So is a run in which two cycles stand in each other's place. A last cycle
/// that comes first of all is the exception: it ends the run there.
pub proof fn a_run_with_two_cycles_swapped_is_refused(
    frame_id: u16,
    stream: Seq<u8>,
    first_counter: u16,
    i: int,
    j: int,
)
    requires
        0 <= i < j < cyclic::cycle_count(stream.len()),
        (j - i) % 2048 != 0,
        i == 0 ==> j + 1 < cyclic::cycle_count(stream.len()),
    ensures
        ({
            let run = cyclic::run_of(frame_id, stream, first_counter);
            cyclic::stream_of(run.update(i, run[j]).update(j, run[i]), None) == Err::<
                Seq<u8>,
                Error,
            >(Error::CycleMissed)
        }),
{
    let run = cyclic::run_of(frame_id, stream, first_counter);
    let order = Seq::new(
        run.len(),
        |n: int| if n == i {
            j
        } else if n == j {
            i
        } else {
            n
        },
    );
    let at = if i == 0 {
        1
    } else {
        i
    };
    a_run_out_of_order_is_refused(frame_id, stream, first_counter, order, at);
    assert(Seq::new(order.len(), |n: int| run[order[n]]) =~= run.update(i, run[j]).update(
        j,
        run[i],
    ));
}

/// And so is a run in which any cycle but the last comes twice.
pub proof fn a_run_with_a_cycle_repeated_is_refused(
    frame_id: u16,
    stream: Seq<u8>,
    first_counter: u16,
    i: int,
)
    requires
        0 <= i,
        i + 1 < cyclic::cycle_count(stream.len()),
    ensures
        ({
            let run = cyclic::run_of(frame_id, stream, first_counter);
            cyclic::stream_of(run.take(i + 1) + run.skip(i), None) == Err::<Seq<u8>, Error>(
                Error::CycleMissed,
            )
        }),
{
    let run = cyclic::run_of(frame_id, stream, first_counter);
    let order = Seq::new(
        run.len() + 1,
        |n: int| if n <= i {
            n
        } else {
            n - 1
        },
    );
    a_run_out_of_order_is_refused(frame_id, stream, first_counter, order, i + 1);
    assert(Seq::new(order.len(), |n: int| run[order[n]]) =~= run.take(i + 1) + run.skip(i));
}

/// Cycles that are each one step past the one before, sound, and flagged only
/// at the end carry the chunks of all of them.
pub proof fn a_sound_run_carries_all_its_chunks(run: Seq<CyclicView>)
    requires
        run.len() > 0,
        goes_on(run, None, run.len() - 1),
        is_sound(run, None, run.len() - 1),
        run.last().io_data[2] % 2 == 1,
    ensures
        cyclic::stream_of(run, None) == Ok::<Seq<u8>, Error>(joined(run, run.len() as int)),
{
    the_first_cycle_that_ends_a_run_decides(run, None, run.len() - 1);
}

} // verus!
