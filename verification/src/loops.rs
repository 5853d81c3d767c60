//! The loop engine as the recursion that it unfolds.
//!
//! Said in one breath, a loop runs its body while the current cell is not
//! zero, and a body that holds a loop runs that loop in turn. The machine
//! does this move by move, with a stack of replays where the one breath has
//! its recursion. This file writes the recursion down and proves that the
//! moves of a replay come to the same end.

use crate::command::Command;
use crate::err::Error;
use crate::model::count_more;
use crate::model::Effect;
use crate::model::Machine;
use crate::model::Pause;
use crate::model::Replay;
use crate::model::Streams;
use vstd::prelude::*;

verus! {

/// How a piece of a program ends.
pub enum Outcome {
    /// It ran to its end, and left the machine and the streams like this.
    Done(Machine, Streams),
    /// An instruction failed, with the machine and the streams like this.
    Failed(Machine, Streams, Error),
    /// A `,` found the source empty.
    Starved,
    /// It would take more passes through loop bodies than were granted.
    Unfinished,
}

impl Outcome {
    /// The outcome with `replays` as the replays of the machine that a piece
    /// run to its end has left.
    pub open spec fn under(self, replays: Seq<Replay>) -> Outcome {
        match self {
            Outcome::Done(m, io) => Outcome::Done(Machine { replays, ..m }, io),
            _ => self,
        }
    }
}

impl Machine {
    /// One instruction, run in one go with its effect served on the streams.
    /// A close that matches the outermost open loop runs that whole loop, on
    /// what was collected since the open. `passes` bounds the passes through
    /// loop bodies, nested ones included.
    pub open spec fn perform(self, io: Streams, cmd: Command, passes: nat) -> Outcome
        decreases passes, 1nat, 0nat,
    {
        if cmd == Command::LoopEnd && self.nesting == 1 {
            (Machine { nesting: 0, pending: Seq::empty(), ..self }).perform_loop(
                io,
                self.pending,
                passes,
            )
        } else {
            match self.dispatch(cmd).1 {
                Err(e) => Outcome::Failed(self.dispatch(cmd).0, io, e),
                Ok(effect) => match self.dispatch(cmd).0.serve(io, effect) {
                    Some((m, streams)) => Outcome::Done(m, streams),
                    None => Outcome::Starved,
                },
            }
        }
    }

    /// A loop with the body `body`: while the current cell is not zero, the
    /// instructions of `body` are run, in order.
    pub open spec fn perform_loop(self, io: Streams, body: Seq<Command>, passes: nat) -> Outcome
        decreases passes, 0nat, 0nat,
    {
        if self.current() == 0 {
            Outcome::Done(self, io)
        } else if passes == 0 {
            Outcome::Unfinished
        } else {
            match self.perform_all(io, body, (passes - 1) as nat) {
                Outcome::Done(m, streams) => m.perform_loop(streams, body, (passes - 1) as nat),
                other => other,
            }
        }
    }

    /// The instructions of `cmds`, run in order up to the first that does
    /// not run to its end.
    pub open spec fn perform_all(self, io: Streams, cmds: Seq<Command>, passes: nat) -> Outcome
        decreases passes, 2nat, cmds.len(),
    {
        if cmds.len() == 0 {
            Outcome::Done(self, io)
        } else {
            match self.perform(io, cmds.first(), passes) {
                Outcome::Done(m, streams) => m.perform_all(streams, cmds.drop_first(), passes),
                other => other,
            }
        }
    }

    /// `moves` moves of the replays, the stop slot never found set, with
    /// each move's effect served on the streams.
    pub open spec fn replay(self, io: Streams, moves: nat) -> Outcome
        decreases moves,
    {
        if moves == 0 {
            Outcome::Done(self, io)
        } else {
            match self.resume(false).1 {
                Err(e) => Outcome::Failed(self.resume(false).0, io, e),
                Ok(effect) => match self.resume(false).0.serve(io, effect) {
                    Some((m, streams)) => m.replay(streams, (moves - 1) as nat),
                    None => Outcome::Starved,
                },
            }
        }
    }
}

/// Moves of a replay add up.
pub proof fn lemma_replay_adds(m: Machine, io: Streams, a: nat, b: nat)
    ensures
        m.replay(io, a + b) == (match m.replay(io, a) {
            Outcome::Done(mid, streams) => mid.replay(streams, b),
            other => other,
        }),
    decreases a,
{
    if a > 0 {
        match m.resume(false).1 {
            Err(e) => {},
            Ok(effect) => match m.resume(false).0.serve(io, effect) {
                Some((next, streams)) => {
                    lemma_replay_adds(next, streams, (a - 1) as nat, b);
                },
                None => {},
            },
        }
    }
}

/// An instruction that runs to its end leaves the replays alone.
pub proof fn lemma_perform_keeps_replays(m: Machine, io: Streams, cmd: Command, passes: nat)
    ensures
        m.perform(io, cmd, passes) matches Outcome::Done(end, _) ==> end.replays == m.replays,
    decreases passes, 1nat, 0nat,
{
    if cmd == Command::LoopEnd && m.nesting == 1 {
        lemma_loop_keeps_replays(
            Machine { nesting: 0, pending: Seq::empty(), ..m },
            io,
            m.pending,
            passes,
        );
    }
}

/// A loop that runs to its end leaves the replays alone.
pub proof fn lemma_loop_keeps_replays(m: Machine, io: Streams, body: Seq<Command>, passes: nat)
    ensures
        m.perform_loop(io, body, passes) matches Outcome::Done(end, _) ==> end.replays
            == m.replays,
    decreases passes, 0nat, 0nat,
{
    if m.current() != 0 && passes > 0 {
        lemma_all_keeps_replays(m, io, body, (passes - 1) as nat);
        match m.perform_all(io, body, (passes - 1) as nat) {
            Outcome::Done(mid, streams) => {
                lemma_loop_keeps_replays(mid, streams, body, (passes - 1) as nat);
            },
            _ => {},
        }
    }
}

/// Instructions that run to their end leave the replays alone.
pub proof fn lemma_all_keeps_replays(m: Machine, io: Streams, cmds: Seq<Command>, passes: nat)
    ensures
        m.perform_all(io, cmds, passes) matches Outcome::Done(end, _) ==> end.replays
            == m.replays,
    decreases passes, 2nat, cmds.len(),
{
    if cmds.len() > 0 {
        lemma_perform_keeps_replays(m, io, cmds.first(), passes);
        match m.perform(io, cmds.first(), passes) {
            Outcome::Done(mid, streams) => {
                lemma_all_keeps_replays(mid, streams, cmds.drop_first(), passes);
            },
            _ => {},
        }
    }
}

/// A replay that stands at its test does what the loop does.
///
/// Let the innermost replay of `m` be at its test. If the loop with that
/// replay's body, begun on the machine as it is, comes to an end within
/// `passes` passes, then so many moves as this lemma gives bring the machine
/// to the same end: the same failure; or the same cells, pointer and loop
/// state, the same streams, and that replay gone from the replays.
pub proof fn lemma_replay_is_the_loop(m: Machine, io: Streams, passes: nat) -> (moves: nat)
    requires
        !m.idle(),
        m.replays.last().next >= m.replays.last().body.len(),
        !(m.unwound().perform_loop(io, m.replays.last().body, passes) is Unfinished),
    ensures
        m.replay(io, moves) == m.unwound().perform_loop(io, m.replays.last().body, passes).under(
            m.replays.drop_last(),
        ),
    decreases passes, 0nat, 0nat,
{
    reveal_with_fuel(Machine::replay, 2);
    let body = m.replays.last().body;
    if m.current() == 0 {
        1
    } else {
        let started = m.seek(0);
        assert(body.skip(0) =~= body);
        let k1 = lemma_replay_is_the_body(started, io, (passes - 1) as nat);
        lemma_replay_adds(m, io, 1, k1);
        match m.unwound().perform_all(io, body, (passes - 1) as nat) {
            Outcome::Done(mid, streams) => {
                lemma_all_keeps_replays(m.unwound(), io, body, (passes - 1) as nat);
                let at_test = Machine { replays: started.seek(body.len()).replays, ..mid };
                assert(at_test.replays.drop_last() =~= m.replays.drop_last());
                let k2 = lemma_replay_is_the_loop(at_test, streams, (passes - 1) as nat);
                lemma_replay_adds(m, io, 1 + k1, k2);
                1 + k1 + k2
            },
            _ => 1 + k1,
        }
    }
}

/// One move inside a body, on an instruction that starts no replay, does
/// what the instruction does: it ends as the instruction ends, and where the
/// instruction runs to its end the replay has gone on by one.
pub proof fn lemma_move_is_the_instruction(m: Machine, io: Streams, passes: nat)
    requires
        !m.idle(),
        m.replays.last().next < m.replays.last().body.len(),
        !(m.replays.last().body[m.replays.last().next as int] == Command::LoopEnd && m.nesting
            == 1),
    ensures
        m.replay(io, 1) == m.unwound().perform(
            io,
            m.replays.last().body[m.replays.last().next as int],
            passes,
        ).under(m.seek(m.replays.last().next + 1).replays),
{
    reveal_with_fuel(Machine::replay, 2);
}

/// One move inside a body, on the close that matches the outermost open
/// loop, puts what was collected on top of the replays, at its test, and
/// closes the loop.
pub proof fn lemma_move_starts_inner_loop(m: Machine)
    requires
        !m.idle(),
        m.replays.last().next < m.replays.last().body.len(),
        m.replays.last().body[m.replays.last().next as int] == Command::LoopEnd,
        m.nesting == 1,
    ensures
        m.resume(false) == (
            Machine {
                nesting: 0,
                pending: Seq::empty(),
                replays: m.seek(m.replays.last().next + 1).replays.push(
                    Replay { body: m.pending, next: m.pending.len() },
                ),
                ..m
            },
            Ok::<Effect, Error>(Effect::Nothing),
        ),
{
}

/// A replay that stands inside its body does what the rest of the body does.
///
/// If the instructions from the replay's next one to the body's end, begun
/// on the machine as it is, come to an end within `passes` passes, then so
/// many moves as this lemma gives bring the machine to the same end: the
/// same failure; or the same cells, pointer and loop state, the same
/// streams, and that replay at its test.
pub proof fn lemma_replay_is_the_body(m: Machine, io: Streams, passes: nat) -> (moves: nat)
    requires
        !m.idle(),
        m.replays.last().next <= m.replays.last().body.len(),
        !(m.unwound().perform_all(
            io,
            m.replays.last().body.skip(m.replays.last().next as int),
            passes,
        ) is Unfinished),
    ensures
        m.replay(io, moves) == m.unwound().perform_all(
            io,
            m.replays.last().body.skip(m.replays.last().next as int),
            passes,
        ).under(m.seek(m.replays.last().body.len()).replays),
    decreases passes, 1nat, m.replays.last().body.len() - m.replays.last().next,
{
    let top = m.replays.last();
    let rest = top.body.skip(top.next as int);
    if top.next == top.body.len() {
        assert(m.seek(top.body.len()).replays =~= m.replays);
        0
    } else {
        let cmd = top.body[top.next as int];
        let sought = m.seek(top.next + 1);
        assert(rest.drop_first() =~= top.body.skip((top.next + 1) as int));
        assert(sought.seek(top.body.len()).replays =~= m.seek(top.body.len()).replays);
        let k1 = if cmd == Command::LoopEnd && m.nesting == 1 {
            lemma_move_starts_inner_loop(m);
            let inner = m.resume(false).0;
            assert(inner.replays.drop_last() =~= sought.replays);
            let k = lemma_replay_is_the_loop(inner, io, passes);
            assert(m.replay(io, 1) == Outcome::Done(inner, io)) by {
                reveal_with_fuel(Machine::replay, 2);
            }
            lemma_replay_adds(m, io, 1, k);
            1 + k
        } else {
            lemma_move_is_the_instruction(m, io, passes);
            1
        };
        match m.unwound().perform(io, cmd, passes) {
            Outcome::Done(mid, streams) => {
                lemma_perform_keeps_replays(m.unwound(), io, cmd, passes);
                let back = Machine { replays: sought.replays, ..mid };
                let k2 = lemma_replay_is_the_body(back, streams, passes);
                lemma_replay_adds(m, io, k1, k2);
                k1 + k2
            },
            _ => k1,
        }
    }
}

/// The instructions of a program text, in order. Bytes that are no
/// instruction are left out.
pub open spec fn program(src: Seq<u8>) -> Seq<Command>
    decreases src.len(),
{
    if src.len() == 0 {
        Seq::empty()
    } else {
        match Command::decode(src.first()) {
            Some(cmd) => seq![cmd] + program(src.drop_first()),
            None => program(src.drop_first()),
        }
    }
}

/// The bytes of a program text that are instructions, in order.
pub open spec fn stripped(src: Seq<u8>) -> Seq<u8> {
    src.filter(|byte: u8| Command::decode(byte) is Some)
}

/// Bytes that are no instruction are inert: a text and the same text with
/// those bytes taken out hold the same instructions. So by
/// [`lemma_run_is_the_program`] runs over the two, begun alike and never
/// stopped, come to the same end.
pub proof fn lemma_comments_are_inert(src: Seq<u8>)
    ensures
        program(stripped(src)) == program(src),
    decreases src.len(),
{
    let is_instruction = |byte: u8| Command::decode(byte) is Some;
    reveal_with_fuel(Seq::filter, 2);
    if src.len() > 0 {
        let head = seq![src.first()];
        let rest = src.drop_first();
        lemma_comments_are_inert(rest);
        assert(src =~= head + rest);
        Seq::filter_distributes_over_add(head, rest, is_instruction);
        assert(head.drop_last() =~= Seq::<u8>::empty());
        if Command::decode(src.first()) is Some {
            assert(head.filter(is_instruction) =~= head);
            assert(stripped(src).drop_first() =~= stripped(rest));
        } else {
            assert(head.filter(is_instruction) =~= Seq::<u8>::empty());
            assert(stripped(src) =~= stripped(rest));
        }
    }
}

/// `n` polls that do not find the stop slot set.
pub open spec fn quiet(n: nat) -> Seq<bool> {
    Seq::new(n, |i: int| false)
}

/// With nothing to replay, moves of the replays do nothing.
pub proof fn lemma_idle_replay(m: Machine, io: Streams, moves: nat)
    requires
        m.idle(),
    ensures
        m.replay(io, moves) == Outcome::Done(m, io),
    decreases moves,
{
    if moves > 0 {
        lemma_idle_replay(m, io, (moves - 1) as nat);
    }
}

/// A run does the moves of the replays before it takes in a byte.
///
/// Where `moves` moves of the replays come to a failure, to an empty source
/// or to the end of all replays, a run over `src` comes to the same point
/// after `n` polls that do not find the stop slot set, for the `n` that this
/// lemma gives; and having come to the end of all replays it goes on over
/// `src` from there.
pub proof fn lemma_run_follows_replay(m: Machine, io: Streams, src: Seq<u8>, moves: nat) -> (n:
    nat)
    requires
        m.replay(io, moves) matches Outcome::Done(end, _) ==> end.idle(),
    ensures
        m.replay(io, moves) matches Outcome::Done(end, out) ==> forall|more: Seq<bool>| #[trigger]
            m.run(io, src, quiet(n) + more) == end.run(out, src, more),
        m.replay(io, moves) matches Outcome::Failed(end, out, e) ==> forall|more: Seq<bool>|
            #[trigger] m.run(io, src, quiet(n) + more) == (
                end,
                out,
                Err::<(nat, Pause), Error>(e),
            ),
        m.replay(io, moves) is Starved ==> forall|more: Seq<bool>| #[trigger]
            m.run(io, src, quiet(n) + more).2 == Ok::<(nat, Pause), Error>((0, Pause::Starved)),
    decreases moves,
{
    if m.idle() {
        lemma_idle_replay(m, io, moves);
        assert forall|more: Seq<bool>| quiet(0) + more == more by {}
        0
    } else {
        assert(src.skip(0) =~= src);
        match m.resume(false).1 {
            Err(e) => {
                assert forall|more: Seq<bool>| #[trigger]
                    m.run(io, src, quiet(1) + more) == (
                        m.resume(false).0,
                        io,
                        Err::<(nat, Pause), Error>(e),
                    ) by {}
                1
            },
            Ok(effect) => match m.resume(false).0.serve(io, effect) {
                None => {
                    assert forall|more: Seq<bool>| #[trigger]
                        m.run(io, src, quiet(1) + more).2 == Ok::<(nat, Pause), Error>(
                            (0, Pause::Starved),
                        ) by {}
                    1
                },
                Some((next, streams)) => {
                    let k = lemma_run_follows_replay(next, streams, src, (moves - 1) as nat);
                    assert forall|more: Seq<bool>| #[trigger]
                        m.run(io, src, quiet(k + 1) + more) == next.run(
                            streams,
                            src,
                            quiet(k) + more,
                        ) by {
                        let polls = quiet(k + 1) + more;
                        assert(polls.drop_first() =~= quiet(k) + more);
                    }
                    k + 1
                },
            },
        }
    }
}

/// A run does what the program does.
///
/// Let no loop be under replay. If the instructions of the program text
/// `src`, run in one go, come to an end within `passes` passes through loop
/// bodies, then a run over `src` whose polls never find the stop slot set
/// comes to the same end, given `n` moves for the `n` that this lemma gives:
/// it is finished with the same cells, pointer, loop state and streams; or
/// it fails with the same error in the same state; or it is starved.
pub proof fn lemma_run_is_the_program(m: Machine, io: Streams, src: Seq<u8>, passes: nat) -> (n:
    nat)
    requires
        m.idle(),
        !(m.perform_all(io, program(src), passes) is Unfinished),
    ensures
        match m.perform_all(io, program(src), passes) {
            Outcome::Done(end, out) => m.run(io, src, quiet(n)) == (
                end,
                out,
                Ok::<(nat, Pause), Error>((src.len(), Pause::Finished)),
            ),
            Outcome::Failed(end, out, e) => m.run(io, src, quiet(n)) == (
                end,
                out,
                Err::<(nat, Pause), Error>(e),
            ),
            _ => m.run(io, src, quiet(n)).2 is Ok && m.run(io, src, quiet(n)).2->Ok_0.1
                == Pause::Starved,
        },
    decreases src.len(),
{
    if src.len() == 0 {
        0
    } else {
        let byte = src.first();
        let rest = src.drop_first();
        match Command::decode(byte) {
            None => {
                let k = lemma_run_is_the_program(m, io, rest, passes);
                assert(quiet(k + 1).drop_first() =~= quiet(k));
                k + 1
            },
            Some(cmd) => {
                let cmds = program(src);
                assert(cmds.drop_first() =~= program(rest));
                lemma_perform_keeps_replays(m, io, cmd, passes);
                if cmd == Command::LoopEnd && m.nesting == 1 {
                    let inner = m.dispatch(cmd).0;
                    assert(inner.unwound() == (Machine {
                        nesting: 0,
                        pending: Seq::empty(),
                        ..m
                    }));
                    assert(inner.replays.drop_last() =~= m.replays);
                    let moves = lemma_replay_is_the_loop(inner, io, passes);
                    let j = lemma_run_follows_replay(inner, io, rest, moves);
                    let k = match m.perform(io, cmd, passes) {
                        Outcome::Done(mid, streams) => {
                            lemma_run_is_the_program(mid, streams, rest, passes)
                        },
                        _ => 0,
                    };
                    let polls = quiet(1 + j + k);
                    assert(polls.drop_first() =~= quiet(j) + quiet(k));
                    assert(m.run(io, src, polls) == (
                        inner.run(io, rest, quiet(j) + quiet(k)).0,
                        inner.run(io, rest, quiet(j) + quiet(k)).1,
                        count_more(inner.run(io, rest, quiet(j) + quiet(k)).2, 1),
                    ));
                    1 + j + k
                } else {
                    match m.perform(io, cmd, passes) {
                        Outcome::Done(mid, streams) => {
                            let k = lemma_run_is_the_program(mid, streams, rest, passes);
                            assert(quiet(k + 1).drop_first() =~= quiet(k));
                            k + 1
                        },
                        _ => 1,
                    }
                }
            },
        }
    }
}

} // verus!
