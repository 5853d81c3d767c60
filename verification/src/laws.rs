//! What holds of the machine beyond the contract of any single function.

use crate::cells::trimmed;
use crate::command::Command;
use crate::command::SYM_LOOP_END;
use crate::err::Error;
use crate::limit::Bounds;
use crate::model::count_more;
use crate::model::depth_after;
use crate::model::depth_past;
use crate::model::stays_open;
use crate::model::Effect;
use crate::model::Machine;
use crate::model::Pause;
use crate::model::Replay;
use crate::model::Streams;
use vstd::prelude::*;

verus! {

/// Storing a value changes the current cell and no other; the pointer stays.
pub proof fn lemma_written_cells(m: Machine, value: u8, index: nat)
    ensures
        m.written(value).current() == value,
        m.written(value).pointer == m.pointer,
        index != m.pointer ==> m.written(value).cell(index) == m.cell(index),
{
}

/// Cell arithmetic is modulo 256: executed on a cell that can be written,
/// `+` turns the current cell `c` into `(c + 1) mod 256` and `-` turns it
/// into `(c - 1) mod 256`, and neither fails. So `+` on 255 gives 0, and `-`
/// on 0 gives 255. The pointer stays, and with no loop open to dispatch the
/// instruction is to execute it.
pub proof fn lemma_cell_arithmetic_wraps(m: Machine)
    requires
        m.writable(),
    ensures
        m.execute(Command::Incr).1 == Ok::<Effect, Error>(Effect::Nothing),
        m.execute(Command::Decr).1 == Ok::<Effect, Error>(Effect::Nothing),
        m.execute(Command::Incr).0.current() == (m.current() + 1) % 256,
        m.execute(Command::Decr).0.current() == (m.current() - 1) % 256,
        m.current() == 255 ==> m.execute(Command::Incr).0.current() == 0,
        m.current() == 0 ==> m.execute(Command::Decr).0.current() == 255,
        m.execute(Command::Incr).0.pointer == m.pointer,
        m.execute(Command::Decr).0.pointer == m.pointer,
        m.nesting == 0 ==> m.dispatch(Command::Incr) == m.execute(Command::Incr),
        m.nesting == 0 ==> m.dispatch(Command::Decr) == m.execute(Command::Decr),
{
}

/// Every cell of a tape with a limit can be written, and so can every cell
/// of a tape without limit but the one at index `usize::MAX`. That cell is
/// on no tape: it reads as 0, and `+`, `-` and `,` fail on it with
/// `OutOfBounds` and change nothing but the replays.
pub proof fn lemma_cell_off_the_tape(m: Machine)
    requires
        m.wf(),
    ensures
        m.bounds.capacity() is Some ==> m.writable(),
        m.writable() <==> m.pointer != usize::MAX,
        !m.writable() ==> {
            &&& m.current() == 0
            &&& m.execute(Command::Incr) == (
                m.unwound(),
                Err::<Effect, Error>(Error::OutOfBounds),
            )
            &&& m.execute(Command::Decr) == (
                m.unwound(),
                Err::<Effect, Error>(Error::OutOfBounds),
            )
            &&& m.execute(Command::In) == (m.unwound(), Err::<Effect, Error>(Error::OutOfBounds))
            &&& m.execute(Command::Out) == (m, Ok::<Effect, Error>(Effect::Emit(0)))
        },
{
}

/// A move asks for a byte only where the byte can be stored: after a move
/// that gave `Consume` the current cell can be written.
pub proof fn lemma_consume_is_writable(m: Machine, cmd: Command, byte: u8, stop: bool)
    ensures
        m.dispatch(cmd).1 == Ok::<Effect, Error>(Effect::Consume) ==> m.dispatch(
            cmd,
        ).0.writable(),
        m.feed(byte, stop).1 == Ok::<Effect, Error>(Effect::Consume) ==> m.feed(
            byte,
            stop,
        ).0.writable(),
        m.resume(stop).1 == Ok::<Effect, Error>(Effect::Consume) ==> m.resume(stop).0.writable(),
{
}

/// Without a limit a step to the right fails from index `usize::MAX` and
/// from no other: from every smaller index it leads one cell on. The failed
/// step leaves the pointer where it was.
pub proof fn lemma_unbounded_step_right(m: Machine)
    requires
        m.wf(),
        m.bounds == Bounds::Unbounded,
    ensures
        m.pointer < usize::MAX ==> m.right_of() == Some(m.pointer + 1),
        m.pointer == usize::MAX ==> m.right_of().is_none(),
        m.pointer == usize::MAX && m.nesting == 0 ==> m.dispatch(Command::PtrIncr) == (
            m.unwound(),
            Err::<Effect, Error>(Error::CellPointerOverflow),
        ),
        m.pointer > 0 ==> m.left_of() == Some((m.pointer - 1) as nat),
        m.pointer == 0 ==> m.left_of().is_none(),
{
}

/// A close that finds no loop open fails at once, and nothing but the
/// replays is touched. The same holds of the byte `]` that is fed while the
/// stop slot is not set.
pub proof fn lemma_unmatched_close_fails(m: Machine)
    requires
        m.nesting == 0,
    ensures
        m.dispatch(Command::LoopEnd) == (m.unwound(), Err::<Effect, Error>(Error::NoLoopStarted)),
        m.feed(SYM_LOOP_END, false) == (
            m.unwound(),
            Err::<Effect, Error>(Error::NoLoopStarted),
        ),
{
}

/// While a loop is open and its matching close has not come, instructions
/// are only collected: none fails, none is executed, none starts a replay.
/// After them the loop is still open, at the nesting that the brackets among
/// them give.
pub proof fn lemma_open_loop_collects(m: Machine, cmds: Seq<Command>)
    requires
        m.wf(),
        stays_open(cmds, m.nesting),
    ensures
        m.dispatch_all(cmds) == (Machine {
            nesting: depth_after(cmds, m.nesting),
            pending: m.pending + cmds,
            ..m
        }),
        m.dispatch_all(cmds).nesting >= 1,
        m.dispatch_all(cmds).wf(),
    decreases cmds.len(),
{
    if cmds.len() > 0 {
        let cmd = cmds.first();
        let rest = cmds.drop_first();
        assert(stays_open(rest, depth_past(cmd, m.nesting)));
        lemma_open_loop_collects(m.dispatch(cmd).0, rest);
    }
}

/// A program fragment that opens a loop and does not close it leaves the
/// loop open: after `[` and any instructions that hold no matching `]`, the
/// nesting is not 0, which is what `State::evaluate` reports as an unended
/// loop.
pub proof fn lemma_unclosed_loop_stays_open(m: Machine, cmds: Seq<Command>)
    requires
        m.wf(),
        stays_open(cmds, m.nesting + 1),
    ensures
        m.dispatch(Command::LoopBegin).1 == Ok::<Effect, Error>(Effect::Nothing),
        m.dispatch(Command::LoopBegin).0.dispatch_all(cmds).nesting != 0,
{
    lemma_open_loop_collects(m.dispatch(Command::LoopBegin).0, cmds);
}

/// The body of a loop is what stands between its open and the close that
/// matches it. With no loop open, `[`, then instructions that leave just
/// that loop open, then `]` change nothing but the replays: the instructions
/// have become a replay whose test is due, and nothing was executed.
pub proof fn lemma_matched_loop_becomes_replay(m: Machine, body: Seq<Command>)
    requires
        m.wf(),
        m.nesting == 0,
        stays_open(body, 1),
        depth_after(body, 1) == 1,
    ensures
        m.dispatch(Command::LoopBegin).0.dispatch_all(body).dispatch(Command::LoopEnd) == (
            Machine { replays: m.replays.push(Replay { body, next: body.len() }), ..m },
            Ok::<Effect, Error>(Effect::Nothing),
        ),
{
    let opened = m.dispatch(Command::LoopBegin).0;
    lemma_open_loop_collects(opened, body);
}

/// Every move keeps a machine well formed: dispatching an instruction,
/// taking in a byte, a move of a replay, a store into a current cell that
/// can be written, and dropping the replays.
pub proof fn lemma_moves_keep_wf(m: Machine, cmd: Command, byte: u8, stop: bool)
    requires
        m.wf(),
    ensures
        m.dispatch(cmd).0.wf(),
        m.feed(byte, stop).0.wf(),
        m.resume(stop).0.wf(),
        m.writable() ==> m.written(byte).wf(),
        m.unwound().wf(),
{
}

/// A machine polls one stop slot for life: no move puts another in its
/// place, and so a handle on the slot that was taken once is a handle on the
/// slot that every later move polls.
pub proof fn lemma_moves_keep_slot(m: Machine, cmd: Command, byte: u8, stop: bool)
    ensures
        m.dispatch(cmd).0.slot == m.slot,
        m.feed(byte, stop).0.slot == m.slot,
        m.resume(stop).0.slot == m.slot,
        m.written(byte).slot == m.slot,
        m.unwound().slot == m.slot,
{
}

/// A run keeps the stop slot of the machine, whatever the polls give.
pub proof fn lemma_run_keeps_slot(m: Machine, io: Streams, src: Seq<u8>, polls: Seq<bool>)
    ensures
        m.run(io, src, polls).0.slot == m.slot,
    decreases polls.len(),
{
    if !m.finished(src) && polls.len() > 0 {
        let (next, r, fed) = m.step(src, polls.first());
        if r is Ok && next.serve(io, r->Ok_0) is Some {
            let (served, streams) = next.serve(io, r->Ok_0)->Some_0;
            lemma_run_keeps_slot(served, streams, src.skip(fed as int), polls.drop_first());
        }
    }
}

/// A run keeps a machine well formed, and it takes no more bytes than the
/// program has.
pub proof fn lemma_run_keeps_wf(m: Machine, io: Streams, src: Seq<u8>, polls: Seq<bool>)
    requires
        m.wf(),
    ensures
        m.run(io, src, polls).0.wf(),
        m.run(io, src, polls).2 is Ok ==> m.run(io, src, polls).2->Ok_0.0 <= src.len(),
    decreases polls.len(),
{
    if !m.finished(src) && polls.len() > 0 {
        let (next, r, fed) = m.step(src, polls.first());
        lemma_moves_keep_wf(m, Command::Incr, src.first(), polls.first());
        match r {
            Err(e) => {},
            Ok(effect) => match next.serve(io, effect) {
                None => {},
                Some((served, streams)) => {
                    lemma_consume_is_writable(m, Command::Incr, src.first(), polls.first());
                    lemma_moves_keep_wf(next, Command::Incr, io.source.first(), false);
                    lemma_run_keeps_wf(served, streams, src.skip(fed as int), polls.drop_first());
                },
            },
        }
    }
}

/// Under a wrapping limit, `steps` steps to the right lead from cell `p` to
/// cell `(p + steps) mod n`.
pub proof fn lemma_wrap_right_by(m: Machine, steps: nat)
    requires
        m.wf(),
        m.bounds is FixedWrap,
    ensures
        m.right_by(steps) == Some((m.pointer + steps) % m.bounds->FixedWrap_0),
    decreases steps,
{
    let n = m.bounds->FixedWrap_0 as int;
    if steps == 0 {
        vstd::arithmetic::div_mod::lemma_small_mod(m.pointer, n as nat);
    } else {
        let p = m.right_of().unwrap();
        lemma_wrap_right_by(Machine { pointer: p, ..m }, (steps - 1) as nat);
        vstd::arithmetic::div_mod::lemma_add_mod_noop_right(steps - 1, (m.pointer + 1) as int, n);
    }
}

/// Under a wrapping limit of `n` cells, `n` steps to the right lead back to
/// the cell they began on, wherever that was.
pub proof fn lemma_wrap_full_circle(m: Machine)
    requires
        m.wf(),
        m.bounds is FixedWrap,
    ensures
        m.right_by(m.bounds->FixedWrap_0) == Some(m.pointer),
{
    let n = m.bounds->FixedWrap_0 as int;
    lemma_wrap_right_by(m, n as nat);
    vstd::arithmetic::div_mod::lemma_mod_add_multiples_vanish(m.pointer as int, n);
    vstd::arithmetic::div_mod::lemma_small_mod(m.pointer, n as nat);
}

/// Under a wrapping limit every step can be undone: a step to the right
/// and then one to the left lead back, and so do a step to the left and
/// then one to the right.
pub proof fn lemma_wrap_steps_undo(m: Machine)
    requires
        m.wf(),
        m.bounds is FixedWrap,
    ensures
        m.right_of() is Some,
        m.left_of() is Some,
        (Machine { pointer: m.right_of().unwrap(), ..m }).left_of() == Some(m.pointer),
        (Machine { pointer: m.left_of().unwrap(), ..m }).right_of() == Some(m.pointer),
{
    let n = m.bounds->FixedWrap_0;
    if m.pointer + 1 < n {
        vstd::arithmetic::div_mod::lemma_small_mod(m.pointer + 1, n);
    } else {
        vstd::arithmetic::div_mod::lemma_mod_self_0(n as int);
    }
    if m.pointer > 0 {
        vstd::arithmetic::div_mod::lemma_small_mod(m.pointer, n);
    } else {
        vstd::arithmetic::div_mod::lemma_mod_self_0(n as int);
    }
}

/// Under a strict limit of `n` cells, steps to the right succeed as long as
/// they stay on the tape and fail as soon as they would pass cell `n - 1`.
pub proof fn lemma_strict_right_by(m: Machine, steps: nat)
    requires
        m.wf(),
        m.bounds is FixedStrict,
    ensures
        m.pointer + steps < m.bounds->FixedStrict_0 ==> m.right_by(steps) == Some(
            m.pointer + steps,
        ),
        m.pointer + steps >= m.bounds->FixedStrict_0 ==> m.right_by(steps).is_none(),
    decreases steps,
{
    if steps > 0 {
        match m.right_of() {
            Some(p) => {
                lemma_strict_right_by(Machine { pointer: p, ..m }, (steps - 1) as nat);
            },
            None => {},
        }
    }
}

/// Under a strict limit, the step to the right from the last cell fails
/// with `CellPointerOverflow`, and the pointer stays where it was.
pub proof fn lemma_strict_last_cell(m: Machine)
    requires
        m.wf(),
        m.nesting == 0,
        m.bounds is FixedStrict,
        m.pointer == m.bounds->FixedStrict_0 - 1,
    ensures
        m.dispatch(Command::PtrIncr) == (
            m.unwound(),
            Err::<Effect, Error>(Error::CellPointerOverflow),
        ),
{
}

/// A stop request that is seen before an instruction is taken in ends the
/// run with `Stopped`, and the machine is as it was: whatever the byte, no
/// cell, pointer or loop state changes.
pub proof fn lemma_stop_before_instruction(m: Machine, byte: u8)
    requires
        m.idle(),
    ensures
        m.feed(byte, true) == (m, Err::<Effect, Error>(Error::Stopped)),
{
}

/// The stop slot matters at a loop's test and nowhere else in a replay.
/// Inside a body a move does the same whether the slot is set or not; at the
/// test, with the current cell not zero, a set slot ends the run with
/// `Stopped` before any instruction of the next pass is dispatched: cells,
/// pointer and loop state are as the last pass left them.
pub proof fn lemma_stop_at_loop_test(m: Machine)
    requires
        !m.idle(),
    ensures
        m.replays.last().next < m.replays.last().body.len() ==> m.resume(true) == m.resume(false),
        m.replays.last().next >= m.replays.last().body.len() && m.current() != 0 ==> m.resume(
            true,
        ) == (m.unwound(), Err::<Effect, Error>(Error::Stopped)),
        m.unwound().cells == m.cells,
        m.unwound().pointer == m.pointer,
        m.unwound().nesting == m.nesting,
        m.unwound().pending == m.pending,
{
}

/// A loop runs its body while the current cell is not zero. At the test, a
/// zero cell ends the replay and leaves everything else as it is; a cell
/// that is not zero starts the body again, unless the stop slot is set.
/// Inside the body the instructions are dispatched one by one, in order.
pub proof fn lemma_loop_runs_while_nonzero(m: Machine)
    requires
        !m.idle(),
    ensures
        ({
            let top = m.replays.last();
            &&& top.next >= top.body.len() && m.current() == 0 ==> m.resume(false) == (
                Machine { replays: m.replays.drop_last(), ..m },
                Ok::<Effect, Error>(Effect::Nothing),
            )
            &&& top.next >= top.body.len() && m.current() != 0 ==> m.resume(false) == (
                m.seek(0),
                Ok::<Effect, Error>(Effect::Nothing),
            )
            &&& top.next < top.body.len() ==> m.resume(false) == m.seek(top.next + 1).dispatch(
                top.body[top.next as int],
            )
        }),
{
}

/// Moves add up: `a + b` moves are `a` moves and then `b` more.
pub proof fn lemma_after_adds(m: Machine, a: nat, b: nat)
    ensures
        m.after(a + b) == m.after(a).after(b),
    decreases a,
{
    if a > 0 {
        lemma_after_adds(m.resume(false).0, (a - 1) as nat, b);
    }
}

/// A loop whose test never finds a zero runs forever, unless the stop slot
/// is set.
///
/// `mark` describes the machine at the loop's test, the current cell not
/// zero. That the body never zeroes the tested cell means: from every state
/// of `mark` the machine comes to a state of `mark` again, the loop still
/// under replay all the way. Then from a state of `mark` the replays never
/// run out, however many moves are made.
pub proof fn lemma_loop_without_zero_never_ends(
    m: Machine,
    mark: spec_fn(Machine) -> bool,
    moves: nat,
)
    requires
        mark(m),
        forall|s: Machine| #[trigger] mark(s) ==> exists|k: nat| s.comes_back(mark, k),
    ensures
        !m.after(moves).idle(),
    decreases moves,
{
    let k = choose|k: nat| m.comes_back(mark, k);
    if moves >= k {
        lemma_after_adds(m, k, (moves - k) as nat);
        lemma_loop_without_zero_never_ends(m.after(k), mark, (moves - k) as nat);
    }
}

/// The loop with an empty body, on a cell that is not zero, is such a loop:
/// each move finds the test, the cell is still not zero, and nothing changes.
pub proof fn lemma_empty_loop_never_ends(m: Machine, moves: nat)
    requires
        !m.idle(),
        m.replays.last().body.len() == 0,
        m.current() != 0,
    ensures
        !m.after(moves).idle(),
        m.after(moves).cells == m.cells,
        m.after(moves).pointer == m.pointer,
    decreases moves,
{
    if moves > 0 {
        lemma_empty_loop_never_ends(m.resume(false).0, (moves - 1) as nat);
    }
}

/// A run may be made in parts. Where a run over `src` was suspended, having
/// taken `n` bytes, a second run over the rest of `src` leads where one run
/// with the polls of both would have led, and the bytes taken add up.
pub proof fn lemma_run_in_parts(
    m: Machine,
    io: Streams,
    src: Seq<u8>,
    first: Seq<bool>,
    second: Seq<bool>,
)
    requires
        m.run(io, src, first).2 is Ok,
        m.run(io, src, first).2->Ok_0.1 == Pause::Suspended,
    ensures
        ({
            let (mid, streams, r) = m.run(io, src, first);
            let n = r->Ok_0.0;
            &&& n <= src.len()
            &&& m.run(io, src, first + second) == (
                mid.run(streams, src.skip(n as int), second).0,
                mid.run(streams, src.skip(n as int), second).1,
                count_more(mid.run(streams, src.skip(n as int), second).2, n),
            )
        }),
    decreases first.len(),
{
    let both = first + second;
    if first.len() == 0 {
        assert(src.skip(0) =~= src);
    } else {
        assert(both.drop_first() =~= first.drop_first() + second);
        let (next, r, fed) = m.step(src, first.first());
        let (served, streams) = next.serve(io, r->Ok_0)->Some_0;
        let rest = src.skip(fed as int);
        lemma_run_in_parts(served, streams, rest, first.drop_first(), second);
        let n1 = served.run(streams, rest, first.drop_first()).2->Ok_0.0;
        assert(rest.skip(n1 as int) =~= src.skip((n1 + fed) as int));
    }
}

/// A program may be run fragment by fragment. Where a run over `a` came
/// back finished, a run over `a` and `b` in one text does the same up to
/// that point, with the polls that the run over `a` used, `used` of them for
/// the `used` that this lemma gives, and then goes on as a second run over
/// `b` does; the bytes taken add up. A loop that `a` leaves open is closed by
/// `b` in either case.
pub proof fn lemma_run_over_fragments(
    m: Machine,
    io: Streams,
    a: Seq<u8>,
    b: Seq<u8>,
    first: Seq<bool>,
    second: Seq<bool>,
) -> (used: nat)
    requires
        m.run(io, a, first).2 is Ok,
        m.run(io, a, first).2->Ok_0.1 == Pause::Finished,
    ensures
        used <= first.len(),
        m.run(io, a, first.take(used as int)) == m.run(io, a, first),
        m.run(io, a, first).2->Ok_0.0 == a.len(),
        m.run(io, a + b, first.take(used as int) + second) == ({
            let (mid, streams, r) = m.run(io, a, first);
            (
                mid.run(streams, b, second).0,
                mid.run(streams, b, second).1,
                count_more(mid.run(streams, b, second).2, a.len()),
            )
        }),
    decreases first.len(),
{
    if m.finished(a) {
        assert(a + b =~= b);
        assert(first.take(0) + second =~= second);
        0
    } else {
        let (next, r, fed) = m.step(a, first.first());
        let (served, streams) = next.serve(io, r->Ok_0)->Some_0;
        let rest = first.drop_first();
        let k = lemma_run_over_fragments(served, streams, a.skip(fed as int), b, rest, second);
        let polls = first.take((k + 1) as int);
        assert(polls.first() == first.first());
        assert(polls.drop_first() =~= rest.take(k as int));
        assert((polls + second).first() == first.first());
        assert((polls + second).drop_first() =~= rest.take(k as int) + second);
        assert((a + b).skip(fed as int) =~= a.skip(fed as int) + b);
        assert(m.idle() ==> (a + b).first() == a.first());
        k + 1
    }
}

/// A run that came back for another reason than that its moves were used up
/// comes back at the same point however many moves it is granted: further
/// polls change nothing.
pub proof fn lemma_run_settled(
    m: Machine,
    io: Streams,
    src: Seq<u8>,
    polls: Seq<bool>,
    more: Seq<bool>,
)
    requires
        !(m.run(io, src, polls).2 is Ok && m.run(io, src, polls).2->Ok_0.1 == Pause::Suspended),
    ensures
        m.run(io, src, polls + more) == m.run(io, src, polls),
    decreases polls.len(),
{
    let both = polls + more;
    if !m.finished(src) {
        assert(both.drop_first() =~= polls.drop_first() + more);
        let (next, r, fed) = m.step(src, polls.first());
        if r is Ok && next.serve(io, r->Ok_0) is Some {
            let (served, streams) = next.serve(io, r->Ok_0)->Some_0;
            lemma_run_settled(served, streams, src.skip(fed as int), polls.drop_first(), more);
        }
    }
}

/// A run that finds the program finished does nothing, whatever the polls.
pub proof fn lemma_run_finished(m: Machine, io: Streams, polls: Seq<bool>)
    requires
        m.idle(),
    ensures
        m.run(io, Seq::empty(), polls) == (
            m,
            io,
            Ok::<(nat, Pause), Error>((0, Pause::Finished)),
        ),
{
}

/// A run whose first poll finds the stop slot set ends with `Stopped`
/// before anything is done: the machine and both streams are as they were.
pub proof fn lemma_run_stopped_at_once(m: Machine, io: Streams, src: Seq<u8>, polls: Seq<bool>)
    requires
        m.idle(),
        src.len() > 0,
        polls.len() > 0,
        polls.first(),
    ensures
        m.run(io, src, polls) == (m, io, Err::<(nat, Pause), Error>(Error::Stopped)),
{
}

/// A run that meets a `]` with no loop open fails there with
/// `NoLoopStarted`, whatever follows the `]` in the program.
pub proof fn lemma_run_unmatched_close(m: Machine, io: Streams, src: Seq<u8>, polls: Seq<bool>)
    requires
        m.idle(),
        m.nesting == 0,
        src.len() > 0,
        src.first() == SYM_LOOP_END,
        polls.len() > 0,
        !polls.first(),
    ensures
        m.run(io, src, polls) == (m, io, Err::<(nat, Pause), Error>(Error::NoLoopStarted)),
{
}

/// The tape that a snapshot shows holds every cell of the machine: under a
/// limit it has as many cells as the limit says, without one as many as
/// were visited, in either case at least one, and each of them holds what
/// the machine's cell holds.
pub proof fn lemma_tape_shows_the_cells(m: Machine, index: nat)
    requires
        m.wf(),
    ensures
        m.tape().len() == (match m.bounds.capacity() {
            Some(n) => n,
            None => m.cells.len(),
        }),
        m.tape().len() >= 1,
        index < m.tape().len() ==> m.tape()[index as int] == m.cell(index),
{
}

/// A trimmed sequence is a prefix of the sequence, does not end in zero, and
/// what was cut off holds only zeros.
pub proof fn lemma_trimmed_is_prefix(s: Seq<u8>)
    ensures
        trimmed(s).len() <= s.len(),
        trimmed(s) == s.subrange(0, trimmed(s).len() as int),
        trimmed(s).len() > 0 ==> trimmed(s).last() != 0,
        forall|i: int| trimmed(s).len() <= i < s.len() ==> s[i] == 0,
    decreases s.len(),
{
    if s.len() > 0 && s.last() == 0 {
        lemma_trimmed_is_prefix(s.drop_last());
        assert forall|i: int| trimmed(s).len() <= i < s.len() implies s[i] == 0 by {
            if i < s.len() - 1 {
                assert(s[i] == s.drop_last()[i]);
            }
        }
    }
}

} // verus!
