//! Running a program fragment on a machine, as far as it goes without the host.

use crate::err::Error;
use crate::io::InOuter;
use crate::model::count_more;
use crate::model::Machine;
use crate::model::Pause;
use crate::model::Streams;
use crate::state::State;
use vstd::prelude::*;

verus! {

/// A run's first move done and served, the run goes on from where that led.
pub proof fn lemma_run_unfolds(
    m: Machine,
    io: Streams,
    src: Seq<u8>,
    stop: bool,
    polls: Seq<bool>,
)
    requires
        !m.finished(src),
    ensures
        m.run(io, src, seq![stop] + polls) == ({
            let (next, r, fed) = m.step(src, stop);
            match r {
                Err(e) => (next, io, Err::<(nat, Pause), Error>(e)),
                Ok(effect) => match next.serve(io, effect) {
                    None => (next, io, Ok::<(nat, Pause), Error>((fed, Pause::Starved))),
                    Some((served, streams)) => (
                        served.run(streams, src.skip(fed as int), polls).0,
                        served.run(streams, src.skip(fed as int), polls).1,
                        count_more(served.run(streams, src.skip(fed as int), polls).2, fed),
                    ),
                },
            }
        }),
{
    let all = seq![stop] + polls;
    assert(all.drop_first() =~= polls);
}

/// A run's result with the number of bytes as a natural number.
pub open spec fn as_counted(r: Result<(usize, Pause), Error>) -> Result<(nat, Pause), Error> {
    match r {
        Ok((n, pause)) => Ok((n as nat, pause)),
        Err(e) => Err(e),
    }
}

/// Runs the program bytes `src` on the machine for at most `moves` moves.
///
/// A move takes in the next byte of `src` or, while a loop is under replay,
/// advances the replay; before each move the stop slot is polled. What a
/// move writes goes to the sink of `io`, what it reads comes from the source
/// of `io`. The run comes back when `src` is used up and no replay is left,
/// after `moves` moves, when a move fails, or when a `,` finds the source
/// empty. Without a failure it gives the number of bytes of `src` that were
/// taken in, for the host to go on with the rest, and why it came back.
///
/// The polls are the one thing here that the arguments do not decide: the
/// result is that of [`Machine::run`] for the polls as they came out, one
/// for each move that was made. A run is suspended only when it has made
/// all the moves it was granted.
pub fn run_with_state(src: &[u8], state: &mut State, io: &mut InOuter, moves: usize) -> (r: Result<
    (usize, Pause),
    Error,
>)
    requires
        old(state)@.wf(),
    ensures
        final(state)@.wf(),
        final(state)@.slot == old(state)@.slot,
        exists|polls: Seq<bool>|
            {
                &&& polls.len() <= moves
                &&& r matches Ok((_, Pause::Suspended)) ==> polls.len() == moves
                &&& #[trigger] old(state)@.run(old(io)@, src@, polls) == (
                    final(state)@,
                    final(io)@,
                    as_counted(r),
                )
            },
        r matches Ok((n, _)) ==> n <= src@.len(),
        r matches Ok((_, Pause::Starved)) ==> final(state)@.writable(),
{
    let mut pos: usize = 0;
    let mut left: usize = moves;
    let ghost mut polls: Seq<bool> = Seq::empty();
    proof {
        assert(src@.skip(0) =~= src@);
        assert forall|more: Seq<bool>| polls + more == more by {
            assert(polls + more =~= more);
        }
    }
    while left > 0 && !(state.is_idle() && pos == src.len())
        invariant
            state@.wf(),
            state@.slot == old(state)@.slot,
            pos <= src@.len(),
            polls.len() + left == moves,
            forall|more: Seq<bool>| #[trigger]
                old(state)@.run(old(io)@, src@, polls + more) == (
                    state@.run(io@, src@.skip(pos as int), more).0,
                    state@.run(io@, src@.skip(pos as int), more).1,
                    count_more(state@.run(io@, src@.skip(pos as int), more).2, pos as nat),
                ),
        decreases left,
    {
        let ghost before = state@;
        let ghost streams = io@;
        let ghost rest = src@.skip(pos as int);
        let ghost seen = polls;
        let stop = state.stop_requested();
        let r = if state.is_idle() {
            let byte = src[pos];
            pos = pos + 1;
            state.feed_given(byte, stop)
        } else {
            state.resume_given(stop)
        };
        left = left - 1;
        proof {
            polls = seen.push(stop);
            let fed = before.step(rest, stop).2;
            assert(rest.skip(fed as int) =~= src@.skip(pos as int));
        }
        match r {
            Err(e) => {
                proof {
                    let last = seq![stop] + Seq::<bool>::empty();
                    lemma_run_unfolds(before, streams, rest, stop, Seq::empty());
                    assert(old(state)@.run(old(io)@, src@, seen + last) == (
                        state@,
                        io@,
                        Err::<(nat, Pause), Error>(e),
                    ));
                }
                return Err(e);
            },
            Ok(effect) => {
                if !io.serve(state, effect) {
                    proof {
                        let last = seq![stop] + Seq::<bool>::empty();
                        lemma_run_unfolds(before, streams, rest, stop, Seq::empty());
                        assert(old(state)@.run(old(io)@, src@, seen + last) == (
                            state@,
                            io@,
                            Ok::<(nat, Pause), Error>((pos as nat, Pause::Starved)),
                        ));
                    }
                    return Ok((pos, Pause::Starved));
                }
                proof {
                    assert forall|more: Seq<bool>| #[trigger]
                        old(state)@.run(old(io)@, src@, polls + more) == (
                            state@.run(io@, src@.skip(pos as int), more).0,
                            state@.run(io@, src@.skip(pos as int), more).1,
                            count_more(
                                state@.run(io@, src@.skip(pos as int), more).2,
                                pos as nat,
                            ),
                        ) by {
                        assert(seen + (seq![stop] + more) =~= polls + more);
                        lemma_run_unfolds(before, streams, rest, stop, more);
                    }
                }
            },
        }
    }
    let r = if state.is_idle() && pos == src.len() {
        Ok((pos, Pause::Finished))
    } else {
        Ok((pos, Pause::Suspended))
    };
    proof {
        let none = Seq::<bool>::empty();
        assert(old(state)@.run(old(io)@, src@, polls + none) == (state@, io@, as_counted(r)));
    }
    r
}

} // verus!
