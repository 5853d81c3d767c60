//! The machine as a mathematical value, and what each move does to it.
//!
//! Everything the executable machine does is stated against the functions of
//! this file: the contracts of [`crate::state::State`] say that the machine's
//! view moves as they prescribe.

use crate::command::Command;
use crate::err::Error;
use crate::limit::Bounds;
use crate::stop::StopSender;
use vstd::prelude::*;

verus! {

/// What the host has to do after a move of the machine.
#[derive(Copy, Clone, PartialEq, Eq, Structural, Debug)]
pub enum Effect {
    /// Nothing.
    Nothing,
    /// Write this byte to the sink.
    Emit(u8),
    /// Read one byte from the source and store it in the current cell.
    Consume,
}

/// Why a run came back to the host without a failure.
#[derive(Copy, Clone, PartialEq, Eq, Structural, Debug)]
pub enum Pause {
    /// The program bytes are used up and no loop is under replay.
    Finished,
    /// The moves that the host granted are used up.
    Suspended,
    /// A `,` found the source empty. The host reads a byte and hands it to
    /// the machine, which stores it in the current cell, or gives the run up.
    Starved,
}

/// The two byte streams of a run: what was written, and what is still to be read.
#[verifier::ext_equal]
pub struct Streams {
    /// The bytes emitted so far, oldest first.
    pub sink: Seq<u8>,
    /// The bytes that wait to be consumed, next first.
    pub source: Seq<u8>,
}

impl Streams {
    /// The streams after `byte` was emitted.
    pub open spec fn emitted(self, byte: u8) -> Streams {
        Streams { sink: self.sink.push(byte), ..self }
    }

    /// The streams after the next byte was consumed.
    pub open spec fn consumed(self) -> Streams {
        Streams { source: self.source.drop_first(), ..self }
    }
}

/// A loop body that is being replayed. `next` is the index of the instruction
/// to dispatch next; at the body's length the loop's test is due.
#[verifier::ext_equal]
pub struct Replay {
    pub body: Seq<Command>,
    pub next: nat,
}

/// The machine's state.
#[verifier::ext_equal]
pub struct Machine {
    /// The cells visited so far, from index 0; every cell beyond them holds 0.
    pub cells: Seq<u8>,
    /// The index of the current cell.
    pub pointer: nat,
    /// The pointer's bounds policy.
    pub bounds: Bounds,
    /// How many loop opens are waiting for their close.
    pub nesting: nat,
    /// The instructions collected since the outermost of those opens.
    pub pending: Seq<Command>,
    /// The loops being replayed, outermost first.
    pub replays: Seq<Replay>,
    /// The stop slot that the machine polls, as a handle on it. What a poll
    /// of it gives is no part of the machine: the moves take it as `stop`.
    pub slot: StopSender,
}

/// `n` cells that hold 0.
pub open spec fn zeros(n: nat) -> Seq<u8> {
    Seq::new(n, |i: int| 0u8)
}

impl Machine {
    /// The invariant of every machine that the library hands out.
    pub open spec fn wf(self) -> bool {
        &&& self.bounds.wf()
        &&& self.bounds.admits(self.pointer)
        &&& 1 <= self.cells.len() <= self.bounds.extent()
        &&& self.nesting <= self.pending.len() + 1
        &&& self.nesting == 0 ==> self.pending.len() == 0
    }

    /// A fresh machine with the stop slot `slot`: one cell, the pointer on
    /// it, no loop open.
    pub open spec fn fresh(bounds: Bounds, slot: StopSender) -> Machine {
        Machine {
            cells: zeros(1),
            pointer: 0,
            bounds,
            nesting: 0,
            pending: Seq::empty(),
            replays: Seq::empty(),
            slot,
        }
    }

    /// Whether the current cell can be written. A tape has fewer than
    /// `usize::MAX + 1` cells, so the cell at index `usize::MAX`, where only
    /// a pointer without limit can stand, is on no tape: it reads as 0 and
    /// cannot be written.
    pub open spec fn writable(self) -> bool {
        self.pointer < usize::MAX
    }

    /// The value of the current cell.
    pub open spec fn current(self) -> u8 {
        if self.pointer < self.cells.len() {
            self.cells[self.pointer as int]
        } else {
            0
        }
    }

    /// The value of cell `index`, visited or not.
    pub open spec fn cell(self, index: nat) -> u8 {
        if index < self.cells.len() {
            self.cells[index as int]
        } else {
            0
        }
    }

    /// The visited cells, extended with zeros so that they include the current cell.
    pub open spec fn grown(self) -> Seq<u8> {
        if self.pointer < self.cells.len() {
            self.cells
        } else {
            self.cells + zeros((self.pointer + 1 - self.cells.len()) as nat)
        }
    }

    /// The machine after `value` was stored in the current cell.
    pub open spec fn written(self, value: u8) -> Machine {
        Machine { cells: self.grown().update(self.pointer as int, value), ..self }
    }

    /// Where the pointer stands after one step to the right, or `None` where
    /// the bounds policy forbids the step.
    pub open spec fn right_of(self) -> Option<nat> {
        match self.bounds {
            Bounds::Unbounded => if self.pointer < usize::MAX {
                Some(self.pointer + 1)
            } else {
                None
            },
            Bounds::FixedWrap(n) => Some((self.pointer + 1) % n),
            Bounds::FixedStrict(n) => if self.pointer + 1 < n {
                Some(self.pointer + 1)
            } else {
                None
            },
        }
    }

    /// Where the pointer stands after one step to the left, or `None` where
    /// the bounds policy forbids the step.
    pub open spec fn left_of(self) -> Option<nat> {
        if self.pointer > 0 {
            Some((self.pointer - 1) as nat)
        } else {
            match self.bounds {
                Bounds::FixedWrap(n) => Some((n - 1) as nat),
                _ => None,
            }
        }
    }

    /// Where the pointer stands after `steps` steps to the right, or `None`
    /// where the bounds policy forbids one of them.
    pub open spec fn right_by(self, steps: nat) -> Option<nat>
        decreases steps,
    {
        if steps == 0 {
            Some(self.pointer)
        } else {
            match self.right_of() {
                Some(p) => (Machine { pointer: p, ..self }).right_by((steps - 1) as nat),
                None => None,
            }
        }
    }

    /// The whole tape: the visited cells, and under a fixed capacity the
    /// zeros that fill it up.
    pub open spec fn tape(self) -> Seq<u8> {
        match self.bounds.capacity() {
            Some(n) => self.cells + zeros((n - self.cells.len()) as nat),
            None => self.cells,
        }
    }

    /// The machine with every replay dropped, as after a failure.
    pub open spec fn unwound(self) -> Machine {
        Machine { replays: Seq::empty(), ..self }
    }

    /// Whether no loop is being replayed.
    pub open spec fn idle(self) -> bool {
        self.replays.len() == 0
    }

    /// One instruction, dispatched.
    ///
    /// While a loop is open, instructions are collected, not executed; the
    /// close that matches the outermost open turns what was collected into a
    /// replay, whose test is due first. A failure drops every replay.
    pub open spec fn dispatch(self, cmd: Command) -> (Machine, Result<Effect, Error>) {
        match cmd {
            Command::LoopEnd => if self.nesting == 0 {
                (self.unwound(), Err(Error::NoLoopStarted))
            } else if self.nesting == 1 {
                (
                    Machine {
                        nesting: 0,
                        pending: Seq::empty(),
                        replays: self.replays.push(
                            Replay { body: self.pending, next: self.pending.len() },
                        ),
                        ..self
                    },
                    Ok(Effect::Nothing),
                )
            } else {
                (
                    Machine {
                        nesting: (self.nesting - 1) as nat,
                        pending: self.pending.push(cmd),
                        ..self
                    },
                    Ok(Effect::Nothing),
                )
            },
            Command::LoopBegin => if self.nesting == 0 {
                (Machine { nesting: 1, ..self }, Ok(Effect::Nothing))
            } else {
                (
                    Machine { nesting: self.nesting + 1, pending: self.pending.push(cmd), ..self },
                    Ok(Effect::Nothing),
                )
            },
            _ => if self.nesting > 0 {
                (Machine { pending: self.pending.push(cmd), ..self }, Ok(Effect::Nothing))
            } else {
                self.execute(cmd)
            },
        }
    }

    /// The machine after each of `cmds` was dispatched, in order.
    pub open spec fn dispatch_all(self, cmds: Seq<Command>) -> Machine
        decreases cmds.len(),
    {
        if cmds.len() == 0 {
            self
        } else {
            self.dispatch(cmds.first()).0.dispatch_all(cmds.drop_first())
        }
    }

    /// One instruction other than a loop bracket, executed. An instruction
    /// that writes the current cell fails where that cell cannot be written;
    /// `,` fails there before a byte is asked for.
    pub open spec fn execute(self, cmd: Command) -> (Machine, Result<Effect, Error>) {
        match cmd {
            Command::PtrIncr => match self.right_of() {
                Some(p) => (Machine { pointer: p, ..self }, Ok(Effect::Nothing)),
                None => (self.unwound(), Err(Error::CellPointerOverflow)),
            },
            Command::PtrDecr => match self.left_of() {
                Some(p) => (Machine { pointer: p, ..self }, Ok(Effect::Nothing)),
                None => (self.unwound(), Err(Error::CellPointerOverflow)),
            },
            Command::Out => (self, Ok(Effect::Emit(self.current()))),
            Command::Incr | Command::Decr | Command::In => if !self.writable() {
                (self.unwound(), Err(Error::OutOfBounds))
            } else if cmd == Command::Incr {
                (self.written(((self.current() + 1) % 256) as u8), Ok(Effect::Nothing))
            } else if cmd == Command::Decr {
                (self.written(((self.current() - 1) % 256) as u8), Ok(Effect::Nothing))
            } else {
                (self, Ok(Effect::Consume))
            },
            _ => (self, Ok(Effect::Nothing)),
        }
    }

    /// The innermost replay with its `next` set to `next`.
    pub open spec fn seek(self, next: nat) -> Machine {
        Machine {
            replays: self.replays.drop_last().push(
                Replay { body: self.replays.last().body, next },
            ),
            ..self
        }
    }

    /// One move of the innermost replay.
    ///
    /// Inside the body, the next instruction is dispatched. At the body's end
    /// the loop's test is due: on a zero cell the loop is over; otherwise the
    /// stop slot is polled, and if it is not set the body starts again.
    /// `stop` is what the poll gives; it is looked at nowhere else.
    pub open spec fn resume(self, stop: bool) -> (Machine, Result<Effect, Error>) {
        if self.idle() {
            (self, Ok(Effect::Nothing))
        } else {
            let top = self.replays.last();
            if top.next < top.body.len() {
                self.seek(top.next + 1).dispatch(top.body[top.next as int])
            } else if self.current() == 0 {
                (Machine { replays: self.replays.drop_last(), ..self }, Ok(Effect::Nothing))
            } else if stop {
                (self.unwound(), Err(Error::Stopped))
            } else {
                (self.seek(0), Ok(Effect::Nothing))
            }
        }
    }

    /// One move of a run over the program bytes `src`: with a replay on, a
    /// move of the replay; else the first byte of `src`, fed. Beside the
    /// machine and the move's result stands the number of bytes taken from
    /// `src`, 0 or 1. `stop` is what the move's poll of the stop slot gives.
    pub open spec fn step(self, src: Seq<u8>, stop: bool) -> (Machine, Result<Effect, Error>, nat) {
        if self.idle() {
            (self.feed(src.first(), stop).0, self.feed(src.first(), stop).1, 1)
        } else {
            (self.resume(stop).0, self.resume(stop).1, 0)
        }
    }

    /// Whether a run over `src` has nothing left to do.
    pub open spec fn finished(self, src: Seq<u8>) -> bool {
        self.idle() && src.len() == 0
    }

    /// What the host has to do, done on the streams: a byte emitted goes to
    /// the end of the sink, a byte consumed comes from the front of the
    /// source into the current cell. `None` where a byte is to be consumed
    /// and the source holds none.
    pub open spec fn serve(self, io: Streams, effect: Effect) -> Option<(Machine, Streams)> {
        match effect {
            Effect::Nothing => Some((self, io)),
            Effect::Emit(byte) => Some((self, io.emitted(byte))),
            Effect::Consume => if io.source.len() > 0 {
                Some((self.written(io.source.first()), io.consumed()))
            } else {
                None
            },
        }
    }

    /// A run over the program bytes `src` of at most as many moves as there
    /// are `polls`, the i-th of which is what the i-th move's poll of the
    /// stop slot gives.
    ///
    /// The run goes on, move by move, each move's effect served on the
    /// streams, until the program is finished, the polls are used up, a move
    /// fails, or a byte is to be consumed and the source holds none. It
    /// gives the machine and the streams at that point, and either the
    /// failure or the number of bytes taken from `src` with the reason for
    /// the pause.
    pub open spec fn run(self, io: Streams, src: Seq<u8>, polls: Seq<bool>) -> (
        Machine,
        Streams,
        Result<(nat, Pause), Error>,
    )
        decreases polls.len(),
    {
        if self.finished(src) {
            (self, io, Ok((0, Pause::Finished)))
        } else if polls.len() == 0 {
            (self, io, Ok((0, Pause::Suspended)))
        } else {
            let (m, r, fed) = self.step(src, polls.first());
            match r {
                Err(e) => (m, io, Err(e)),
                Ok(effect) => match m.serve(io, effect) {
                    None => (m, io, Ok((fed, Pause::Starved))),
                    Some((served, streams)) => {
                        let (end, out, rest) = served.run(
                            streams,
                            src.skip(fed as int),
                            polls.drop_first(),
                        );
                        (end, out, count_more(rest, fed))
                    },
                },
            }
        }
    }

    /// The machine after `moves` moves of its replays during which the stop
    /// slot is never found set. What the moves hand to the host is left
    /// aside: this follows the machine, not the host.
    pub open spec fn after(self, moves: nat) -> Machine
        decreases moves,
    {
        if moves == 0 {
            self
        } else {
            self.resume(false).0.after((moves - 1) as nat)
        }
    }

    /// Whether the machine is in a state of `mark` again `moves` moves of
    /// its replays later, with a replay left at every move on the way.
    pub open spec fn comes_back(self, mark: spec_fn(Machine) -> bool, moves: nat) -> bool {
        &&& moves > 0
        &&& mark(self.after(moves))
        &&& forall|j: nat| j < moves ==> !(#[trigger] self.after(j)).idle()
    }

    /// One byte of the program, taken in. The stop slot is polled first;
    /// `stop` is what the poll gives. A byte that is no instruction changes
    /// nothing.
    pub open spec fn feed(self, byte: u8, stop: bool) -> (Machine, Result<Effect, Error>) {
        if stop {
            (self.unwound(), Err(Error::Stopped))
        } else {
            match Command::decode(byte) {
                Some(cmd) => self.dispatch(cmd),
                None => (self, Ok(Effect::Nothing)),
            }
        }
    }
}

/// The result of a run's remainder, with the `fed` bytes counted in that
/// were taken before it.
pub open spec fn count_more(rest: Result<(nat, Pause), Error>, fed: nat) -> Result<
    (nat, Pause),
    Error,
> {
    match rest {
        Ok((n, pause)) => Ok((n + fed, pause)),
        Err(e) => Err(e),
    }
}

/// The nesting after `cmd`, where it was `depth` before and `depth` is not 0.
pub open spec fn depth_past(cmd: Command, depth: nat) -> nat {
    match cmd {
        Command::LoopBegin => depth + 1,
        Command::LoopEnd => (depth - 1) as nat,
        _ => depth,
    }
}

/// Whether a loop that is open at nesting `depth` is still open after each
/// of `cmds`: none of them is the close that matches the outermost open.
pub open spec fn stays_open(cmds: Seq<Command>, depth: nat) -> bool
    decreases cmds.len(),
{
    &&& depth >= 1
    &&& cmds.len() > 0 ==> stays_open(cmds.drop_first(), depth_past(cmds.first(), depth))
}

/// The nesting after all of `cmds`, where it was `depth` before them.
pub open spec fn depth_after(cmds: Seq<Command>, depth: nat) -> nat
    decreases cmds.len(),
{
    if cmds.len() == 0 {
        depth
    } else {
        depth_after(cmds.drop_first(), depth_past(cmds.first(), depth))
    }
}

} // verus!
