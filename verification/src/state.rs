//! The machine itself: the cell tape, the pointer, and the loops in progress.

use crate::cells::CellsIntoIter;
use crate::cells::CellsIter;
use crate::command::Command;
use crate::err::Error;
use crate::limit::Bounds;
use crate::limit::CellsLimit;
use crate::model::Effect;
use crate::model::Machine;
use crate::model::Replay;
use crate::stop::StopSender;
use vstd::prelude::*;

verus! {

/// A loop body under replay, with the index of its next instruction.
struct Frame {
    body: Vec<Command>,
    next: usize,
}

impl View for Frame {
    type V = Replay;

    closed spec fn view(&self) -> Replay {
        Replay { body: self.body@, next: self.next as nat }
    }
}

/// The state of one interpreter: created once, then driven instruction by
/// instruction, over as many program fragments as the host likes.
pub struct State {
    cells: Vec<u8>,
    cells_limit: CellsLimit,
    cell_pointer: usize,
    ongoing_loops: Vec<Command>,
    /// At most one more than the length of `ongoing_loops`, so wider than a
    /// length: it cannot overflow.
    loop_nesting: u128,
    replays: Vec<Frame>,
    stop: StopSender,
}

impl View for State {
    type V = Machine;

    closed spec fn view(&self) -> Machine {
        Machine {
            cells: self.cells@,
            pointer: self.cell_pointer as nat,
            bounds: self.cells_limit@,
            nesting: self.loop_nesting as nat,
            pending: self.ongoing_loops@,
            replays: Seq::new(self.replays@.len(), |i: int| self.replays@[i]@),
            slot: self.stop,
        }
    }
}

impl Default for State {
    /// A fresh machine with no limit on its tape.
    fn default() -> (r: State)
        ensures
            r@ == Machine::fresh(Bounds::Unbounded, r@.slot),
            r@.wf(),
    {
        State::new(CellsLimit::default())
    }
}

impl State {
    /// A fresh machine: all cells zero, the pointer at 0, no loop open, the
    /// stop slot not set.
    pub fn new(cells_limit: CellsLimit) -> (r: State)
        ensures
            r@ == Machine::fresh(cells_limit@, r@.slot),
            r@.wf(),
    {
        proof {
            use_type_invariant(&cells_limit);
        }
        let mut cells: Vec<u8> = Vec::new();
        cells.push(0);
        State {
            cells,
            cells_limit,
            cell_pointer: 0,
            ongoing_loops: Vec::new(),
            loop_nesting: 0,
            replays: Vec::new(),
            stop: StopSender::new(),
        }
    }

    /// The value of the current cell. A cell that was never visited holds 0;
    /// reading it visits nothing.
    pub fn get_cur(&self) -> (r: u8)
        ensures
            r == self@.current(),
    {
        if self.cell_pointer < self.cells.len() {
            self.cells[self.cell_pointer]
        } else {
            0
        }
    }

    /// The current cell, to be written. The tape is first extended with
    /// zeros so that it includes the cell. The cell at index `usize::MAX` is
    /// on no tape and is left out.
    pub fn get_mut_cur(&mut self) -> (cell: &mut u8)
        requires
            old(self)@.wf(),
            old(self)@.writable(),
        ensures
            *cell == old(self)@.current(),
            final(self)@ == old(self)@.written(*final(cell)),
            final(self)@.wf(),
    {
        if self.cells.len() <= self.cell_pointer {
            self.cells.resize(self.cell_pointer + 1, 0);
        }
        &mut self.cells[self.cell_pointer]
    }

    /// Moves the pointer one cell to the right, as the bounds policy has it:
    /// without a limit the step fails from index `usize::MAX` alone; under
    /// a wrapping limit it leads from the last cell to cell 0; under a strict
    /// limit it fails on the last cell. A failed step moves nothing.
    pub fn pointer_add(&mut self) -> (r: Result<(), Error>)
        requires
            old(self)@.wf(),
        ensures
            final(self)@.wf(),
            match old(self)@.right_of() {
                Some(p) => r is Ok && final(self)@ == (Machine { pointer: p, ..old(self)@ }),
                None => r == Err::<(), Error>(Error::CellPointerOverflow) && final(self)@ == old(
                    self,
                )@,
            },
    {
        match self.cells_limit.limit() {
            None => {
                if self.cell_pointer == usize::MAX {
                    return Err(Error::CellPointerOverflow);
                }
                self.cell_pointer = self.cell_pointer + 1;
            },
            Some(n) => {
                let next: usize = self.cell_pointer + 1;
                if self.cells_limit.wraps() {
                    self.cell_pointer = next % n;
                } else if next >= n {
                    return Err(Error::CellPointerOverflow);
                } else {
                    self.cell_pointer = next;
                }
            },
        }
        Ok(())
    }

    /// Moves the pointer one cell to the left. From cell 0 the step leads to
    /// the last cell under a wrapping limit, and fails otherwise. A failed
    /// step moves nothing.
    pub fn pointer_sub(&mut self) -> (r: Result<(), Error>)
        requires
            old(self)@.wf(),
        ensures
            final(self)@.wf(),
            match old(self)@.left_of() {
                Some(p) => r is Ok && final(self)@ == (Machine { pointer: p, ..old(self)@ }),
                None => r == Err::<(), Error>(Error::CellPointerOverflow) && final(self)@ == old(
                    self,
                )@,
            },
    {
        if self.cell_pointer > 0 {
            self.cell_pointer = self.cell_pointer - 1;
            Ok(())
        } else {
            match self.cells_limit.get_limit_if_wrap() {
                Some(n) => {
                    self.cell_pointer = n - 1;
                    Ok(())
                },
                None => Err(Error::CellPointerOverflow),
            }
        }
    }

    /// Stores in the current cell the byte that the host read for an
    /// [`Effect::Consume`]. After a move that gave that effect the cell can
    /// be written.
    pub fn accept(&mut self, byte: u8)
        requires
            old(self)@.wf(),
            old(self)@.writable(),
        ensures
            final(self)@.wf(),
            final(self)@ == old(self)@.written(byte),
    {
        let cell = self.get_mut_cur();
        *cell = byte;
    }

    /// The limit this machine was made with.
    pub fn cells_limit(&self) -> (r: &CellsLimit)
        ensures
            r@ == self@.bounds,
    {
        &self.cells_limit
    }

    /// The index of the current cell.
    pub fn cell_pointer(&self) -> (r: usize)
        ensures
            r == self@.pointer,
    {
        self.cell_pointer
    }

    /// A snapshot of the whole tape: the visited cells, and under a limit
    /// the zeros that fill the tape up to it.
    pub fn cells(&self) -> (r: CellsIter<'_>)
        requires
            self@.wf(),
        ensures
            r@ == self@.tape(),
    {
        let size = match self.cells_limit.limit() {
            Some(n) => n,
            None => self.cells.len(),
        };
        CellsIter::new(self.cells.as_slice(), size)
    }

    /// Ends the run. With a loop still open the program was not complete;
    /// otherwise the result is the tape, as [`State::cells`] gives it.
    pub fn evaluate(self) -> (r: Result<CellsIntoIter, Error>)
        requires
            self@.wf(),
        ensures
            self@.nesting == 0 ==> r is Ok && r->Ok_0@ == self@.tape(),
            self@.nesting != 0 ==> r == Err::<CellsIntoIter, Error>(Error::UnendedLoop),
    {
        if self.loop_nesting == 0 {
            let size = match self.cells_limit.limit() {
                Some(n) => n,
                None => self.cells.len(),
            };
            Ok(CellsIntoIter::new(self.cells, size))
        } else {
            Err(Error::UnendedLoop)
        }
    }

    /// A write handle to this machine's stop slot: the slot that the moves
    /// of this machine poll, and no other. The handle may be sent to another
    /// thread and used there while the machine runs.
    pub fn get_stop_sender(&self) -> (r: StopSender)
        ensures
            r == self@.slot,
    {
        self.stop.clone()
    }
}

impl State {
    /// How many loop opens are waiting for their close.
    pub fn loop_nesting(&self) -> (r: u128)
        ensures
            r == self@.nesting,
    {
        self.loop_nesting
    }

    /// The instructions collected since the outermost open loop began.
    pub fn ongoing_loops(&self) -> (r: &Vec<Command>)
        ensures
            r@ == self@.pending,
    {
        &self.ongoing_loops
    }

    /// Whether no loop is being replayed: the machine is ready for the next
    /// byte of the program.
    pub fn is_idle(&self) -> (r: bool)
        ensures
            r == self@.idle(),
    {
        self.replays.len() == 0
    }

    /// Drops every replay. A failure inside the machine does this by itself;
    /// a host whose sink or source failed calls it before it goes on.
    pub fn unwind(&mut self)
        ensures
            final(self)@ == old(self)@.unwound(),
            old(self)@.wf() ==> final(self)@.wf(),
    {
        self.replays.clear();
    }

    /// Dispatches one instruction.
    ///
    /// With no loop open, the instruction is executed; `.` and `,` are handed
    /// to the host as an [`Effect`]. A loop open starts the collecting, and
    /// until its close arrives instructions are collected and not executed.
    /// That close turns what was collected into a replay, to be driven with
    /// [`State::resume`]. A close with no loop open is an error, and so are
    /// a pointer move that the bounds policy forbids and a write to the cell
    /// at index `usize::MAX`, which is on no tape; an error drops every
    /// replay and changes nothing else.
    pub fn run_command(&mut self, cmd: Command) -> (r: Result<Effect, Error>)
        requires
            old(self)@.wf(),
        ensures
            final(self)@.wf(),
            final(self)@ == old(self)@.dispatch(cmd).0,
            r == old(self)@.dispatch(cmd).1,
            r == Ok::<Effect, Error>(Effect::Consume) ==> final(self)@.writable(),
    {
        match cmd {
            Command::LoopEnd => {
                if self.loop_nesting == 0 {
                    self.unwind();
                    Err(Error::NoLoopStarted)
                } else if self.loop_nesting == 1 {
                    let mut body: Vec<Command> = Vec::new();
                    std::mem::swap(&mut self.ongoing_loops, &mut body);
                    self.loop_nesting = 0;
                    let next = body.len();
                    self.replays.push(Frame { body, next });
                    Ok(Effect::Nothing)
                } else {
                    self.loop_nesting = self.loop_nesting - 1;
                    self.ongoing_loops.push(cmd);
                    Ok(Effect::Nothing)
                }
            },
            Command::LoopBegin => {
                if self.loop_nesting > 0 {
                    self.ongoing_loops.push(cmd);
                }
                assert(self.loop_nesting <= self.ongoing_loops.len() + 1 <= usize::MAX + 1);
                self.loop_nesting = self.loop_nesting + 1;
                Ok(Effect::Nothing)
            },
            _ => {
                if self.loop_nesting > 0 {
                    self.ongoing_loops.push(cmd);
                    Ok(Effect::Nothing)
                } else {
                    self.execute(cmd)
                }
            },
        }
    }

    /// Executes one instruction that is no loop bracket.
    fn execute(&mut self, cmd: Command) -> (r: Result<Effect, Error>)
        requires
            old(self)@.wf(),
        ensures
            final(self)@.wf(),
            final(self)@ == old(self)@.execute(cmd).0,
            r == old(self)@.execute(cmd).1,
            r == Ok::<Effect, Error>(Effect::Consume) ==> final(self)@.writable(),
    {
        match cmd {
            Command::PtrIncr => match self.pointer_add() {
                Ok(()) => Ok(Effect::Nothing),
                Err(e) => {
                    self.unwind();
                    Err(e)
                },
            },
            Command::PtrDecr => match self.pointer_sub() {
                Ok(()) => Ok(Effect::Nothing),
                Err(e) => {
                    self.unwind();
                    Err(e)
                },
            },
            Command::Out => Ok(Effect::Emit(self.get_cur())),
            Command::Incr | Command::Decr | Command::In => {
                if self.cell_pointer == usize::MAX {
                    self.unwind();
                    return Err(Error::OutOfBounds);
                }
                match cmd {
                    Command::Incr => {
                        let cell = self.get_mut_cur();
                        *cell = cell.wrapping_add(1);
                        Ok(Effect::Nothing)
                    },
                    Command::Decr => {
                        let cell = self.get_mut_cur();
                        *cell = cell.wrapping_sub(1);
                        Ok(Effect::Nothing)
                    },
                    _ => Ok(Effect::Consume),
                }
            },
            _ => Ok(Effect::Nothing),
        }
    }
}

impl State {
    /// Polls the stop slot of this machine, without blocking. The result is
    /// for other threads to decide; [`State::feed_given`] and
    /// [`State::resume_given`] say what a move does with either result.
    pub fn stop_requested(&self) -> bool {
        self.stop.is_set()
    }

    /// One move of the innermost replay, given what a poll of the stop slot
    /// gave.
    ///
    /// Inside the body, the next instruction is dispatched as by
    /// [`State::run_command`]. At the body's end the loop's test is due: on a
    /// zero cell the replay is over; else, if `stop` is set, the run fails
    /// with [`Error::Stopped`], the tape as the last pass left it; else the
    /// body starts again. With nothing to replay, nothing happens.
    pub fn resume_given(&mut self, stop: bool) -> (r: Result<Effect, Error>)
        requires
            old(self)@.wf(),
        ensures
            final(self)@.wf(),
            final(self)@ == old(self)@.resume(stop).0,
            r == old(self)@.resume(stop).1,
            r == Ok::<Effect, Error>(Effect::Consume) ==> final(self)@.writable(),
    {
        match self.replays.pop() {
            None => Ok(Effect::Nothing),
            Some(frame) => {
                let Frame { body, next } = frame;
                if next < body.len() {
                    let cmd = body[next];
                    self.replays.push(Frame { body, next: next + 1 });
                    self.run_command(cmd)
                } else if self.get_cur() == 0 {
                    Ok(Effect::Nothing)
                } else if stop {
                    self.unwind();
                    Err(Error::Stopped)
                } else {
                    self.replays.push(Frame { body, next: 0 });
                    Ok(Effect::Nothing)
                }
            },
        }
    }

    /// Takes in one byte of the program, given what a poll of the stop slot
    /// gave.
    ///
    /// If `stop` is set, the run fails with [`Error::Stopped`] and the byte
    /// has no effect. Else the byte is decoded and, if it is an instruction,
    /// dispatched as by [`State::run_command`]; any other byte is a comment.
    pub fn feed_given(&mut self, byte: u8, stop: bool) -> (r: Result<Effect, Error>)
        requires
            old(self)@.wf(),
        ensures
            final(self)@.wf(),
            final(self)@ == old(self)@.feed(byte, stop).0,
            r == old(self)@.feed(byte, stop).1,
            r == Ok::<Effect, Error>(Effect::Consume) ==> final(self)@.writable(),
    {
        if stop {
            self.unwind();
            return Err(Error::Stopped);
        }
        match Command::from_byte(byte) {
            Some(cmd) => self.run_command(cmd),
            None => Ok(Effect::Nothing),
        }
    }

    /// One move of the innermost replay: polls the stop slot and goes on as
    /// [`State::resume_given`] does with the poll's result.
    pub fn resume(&mut self) -> (r: Result<Effect, Error>)
        requires
            old(self)@.wf(),
        ensures
            final(self)@.wf(),
            exists|stop: bool|
                final(self)@ == old(self)@.resume(stop).0 && r == old(self)@.resume(stop).1,
            r == Ok::<Effect, Error>(Effect::Consume) ==> final(self)@.writable(),
    {
        let stop = self.stop_requested();
        self.resume_given(stop)
    }

    /// Takes in one byte of the program: polls the stop slot and goes on as
    /// [`State::feed_given`] does with the poll's result.
    pub fn feed(&mut self, byte: u8) -> (r: Result<Effect, Error>)
        requires
            old(self)@.wf(),
        ensures
            final(self)@.wf(),
            exists|stop: bool|
                final(self)@ == old(self)@.feed(byte, stop).0 && r == old(self)@.feed(byte, stop).1,
            r == Ok::<Effect, Error>(Effect::Consume) ==> final(self)@.writable(),
    {
        let stop = self.stop_requested();
        self.feed_given(byte, stop)
    }
}

} // verus!
