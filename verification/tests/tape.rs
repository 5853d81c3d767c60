use brainfuck::CellsIter;
use brainfuck::CellsLimit;
use brainfuck::Command;
use brainfuck::Effect;
use brainfuck::Error;
use brainfuck::State;

fn tape_of(mut cells: CellsIter<'_>) -> Vec<u8> {
    let mut all = Vec::new();
    while let Some(cell) = cells.next() {
        all.push(cell);
    }
    all
}

#[test]
fn limit_none_is_unbounded() {
    let limit = CellsLimit::new(None);
    assert_eq!(limit.limit(), None);
    assert!(!limit.wraps());
    assert_eq!(limit.get_limit_if_wrap(), None);
    assert_eq!(limit, CellsLimit::default());
}

#[test]
fn limit_wrapping() {
    let limit = CellsLimit::new(Some((5, true)));
    assert_eq!(limit.limit(), Some(5));
    assert!(limit.wraps());
    assert_eq!(limit.get_limit_if_wrap(), Some(5));
}

#[test]
fn limit_strict() {
    let limit = CellsLimit::new(Some((7, false)));
    assert_eq!(limit.limit(), Some(7));
    assert!(!limit.wraps());
    assert_eq!(limit.get_limit_if_wrap(), None);
}

#[test]
fn fresh_state_is_all_zero() {
    let state = State::new(CellsLimit::default());
    assert_eq!(state.get_cur(), 0);
    assert_eq!(state.cell_pointer(), 0);
    assert_eq!(state.loop_nesting(), 0);
    assert!(state.ongoing_loops().is_empty());
    assert!(state.is_idle());
    assert!(!state.stop_requested());
    assert_eq!(tape_of(state.cells()), vec![0]);
    assert_eq!(state.cells_limit().limit(), None);
}

#[test]
fn default_state_has_no_limit() {
    let state = State::default();
    assert_eq!(state.cells_limit().limit(), None);
    assert_eq!(state.cell_pointer(), 0);
    assert_eq!(tape_of(state.cells()), vec![0]);
}

#[test]
fn state_keeps_its_limit() {
    let state = State::new(CellsLimit::new(Some((4, true))));
    assert_eq!(state.cells_limit().limit(), Some(4));
    assert!(state.cells_limit().wraps());
}

#[test]
fn increment_of_255_yields_0() {
    let mut state = State::default();
    *state.get_mut_cur() = 255;
    assert!(matches!(state.run_command(Command::Incr), Ok(Effect::Nothing)));
    assert_eq!(state.get_cur(), 0);
}

#[test]
fn decrement_of_0_yields_255() {
    let mut state = State::default();
    assert!(matches!(state.run_command(Command::Decr), Ok(Effect::Nothing)));
    assert_eq!(state.get_cur(), 255);
}

#[test]
fn cell_arithmetic_goes_round_after_256_steps() {
    let mut state = State::default();
    *state.get_mut_cur() = 77;
    for k in 1..=256u32 {
        state.run_command(Command::Incr).unwrap();
        assert_eq!(state.get_cur() as u32, (77 + k) % 256);
    }
    assert_eq!(state.get_cur(), 77);
    for k in 1..=256u32 {
        state.run_command(Command::Decr).unwrap();
        assert_eq!(state.get_cur() as u32, (77 + 256 - k) % 256);
    }
    assert_eq!(state.get_cur(), 77);
}

#[test]
fn reading_an_unvisited_cell_visits_nothing() {
    let mut state = State::default();
    for _ in 0..5 {
        state.pointer_add().unwrap();
    }
    assert_eq!(state.cell_pointer(), 5);
    assert_eq!(state.get_cur(), 0);
    assert_eq!(state.cells().len(), 1);
    assert_eq!(tape_of(state.cells()), vec![0]);
}

#[test]
fn writing_grows_the_tape_up_to_the_pointer() {
    let mut state = State::default();
    for _ in 0..3 {
        state.pointer_add().unwrap();
    }
    {
        let cell = state.get_mut_cur();
        assert_eq!(*cell, 0);
        *cell = 9;
    }
    assert_eq!(state.get_cur(), 9);
    assert_eq!(tape_of(state.cells()), vec![0, 0, 0, 9]);
    state.pointer_sub().unwrap();
    assert_eq!(state.get_cur(), 0);
    state.accept(4);
    assert_eq!(tape_of(state.cells()), vec![0, 0, 4, 9]);
}

#[test]
fn get_mut_cur_without_a_write_still_grows() {
    let mut state = State::default();
    state.pointer_add().unwrap();
    state.pointer_add().unwrap();
    let _ = state.get_mut_cur();
    assert_eq!(tape_of(state.cells()), vec![0, 0, 0]);
}

#[test]
fn unbounded_pointer_moves_right_and_left() {
    let mut state = State::default();
    assert!(state.pointer_add().is_ok());
    assert_eq!(state.cell_pointer(), 1);
    assert!(state.pointer_add().is_ok());
    assert_eq!(state.cell_pointer(), 2);
    assert!(state.pointer_sub().is_ok());
    assert_eq!(state.cell_pointer(), 1);
    assert!(state.pointer_sub().is_ok());
    assert_eq!(state.cell_pointer(), 0);
}

#[test]
fn unbounded_pointer_cannot_go_below_zero() {
    let mut state = State::default();
    assert!(matches!(state.pointer_sub(), Err(Error::CellPointerOverflow)));
    assert_eq!(state.cell_pointer(), 0);
}

#[test]
fn wrapping_pointer_returns_after_n_steps_from_any_start() {
    for n in 1..=6usize {
        for start in 0..n {
            let mut state = State::new(CellsLimit::new(Some((n, true))));
            for _ in 0..start {
                state.pointer_add().unwrap();
            }
            assert_eq!(state.cell_pointer(), start);
            for _ in 0..n {
                assert!(state.pointer_add().is_ok());
            }
            assert_eq!(state.cell_pointer(), start);
        }
    }
}

#[test]
fn wrapping_pointer_steps_modulo_the_capacity() {
    let mut state = State::new(CellsLimit::new(Some((3, true))));
    let mut seen = Vec::new();
    for _ in 0..7 {
        state.pointer_add().unwrap();
        seen.push(state.cell_pointer());
    }
    assert_eq!(seen, vec![1, 2, 0, 1, 2, 0, 1]);
}

#[test]
fn wrapping_pointer_steps_left_from_zero_to_the_last_cell() {
    let mut state = State::new(CellsLimit::new(Some((4, true))));
    assert!(state.pointer_sub().is_ok());
    assert_eq!(state.cell_pointer(), 3);
    assert!(state.pointer_sub().is_ok());
    assert_eq!(state.cell_pointer(), 2);
    assert!(state.pointer_add().is_ok());
    assert!(state.pointer_add().is_ok());
    assert_eq!(state.cell_pointer(), 0);
}

#[test]
fn wrapping_tape_of_one_cell() {
    let mut state = State::new(CellsLimit::new(Some((1, true))));
    assert!(state.pointer_add().is_ok());
    assert_eq!(state.cell_pointer(), 0);
    assert!(state.pointer_sub().is_ok());
    assert_eq!(state.cell_pointer(), 0);
}

#[test]
fn strict_pointer_fails_past_the_last_cell() {
    let n = 4usize;
    let mut state = State::new(CellsLimit::new(Some((n, false))));
    for k in 1..n {
        assert!(state.pointer_add().is_ok());
        assert_eq!(state.cell_pointer(), k);
    }
    assert!(matches!(state.pointer_add(), Err(Error::CellPointerOverflow)));
    assert_eq!(state.cell_pointer(), n - 1);
    assert!(matches!(state.pointer_add(), Err(Error::CellPointerOverflow)));
    assert_eq!(state.cell_pointer(), n - 1);
}

#[test]
fn strict_pointer_fails_below_zero() {
    let mut state = State::new(CellsLimit::new(Some((4, false))));
    assert!(matches!(state.pointer_sub(), Err(Error::CellPointerOverflow)));
    assert_eq!(state.cell_pointer(), 0);
}

#[test]
fn strict_tape_of_one_cell_admits_no_move() {
    let mut state = State::new(CellsLimit::new(Some((1, false))));
    assert!(matches!(state.pointer_add(), Err(Error::CellPointerOverflow)));
    assert!(matches!(state.pointer_sub(), Err(Error::CellPointerOverflow)));
    assert_eq!(state.cell_pointer(), 0);
}

#[test]
fn bounded_snapshot_is_filled_up_with_zeros() {
    let mut state = State::new(CellsLimit::new(Some((5, false))));
    state.accept(3);
    state.pointer_add().unwrap();
    state.accept(1);
    assert_eq!(state.cells().len(), 5);
    assert_eq!(tape_of(state.cells()), vec![3, 1, 0, 0, 0]);
}

#[test]
fn io_error_converts_into_the_io_variant() {
    let cause = std::io::Error::from(std::io::ErrorKind::BrokenPipe);
    match Error::from(cause) {
        Error::IoError(e) => assert_eq!(e.kind(), std::io::ErrorKind::BrokenPipe),
        other => panic!("{:?}", other),
    }
}

#[test]
fn error_variants_print_their_names() {
    assert_eq!(format!("{:?}", Error::Stopped), "Stopped");
    assert_eq!(format!("{:?}", Error::OutOfBounds), "OutOfBounds");
    assert_eq!(format!("{:?}", Error::NoLoopStarted), "NoLoopStarted");
    assert_eq!(format!("{:?}", Error::UnendedLoop), "UnendedLoop");
    assert_eq!(format!("{:?}", Error::CellPointerOverflow), "CellPointerOverflow");
}
