use brainfuck::CellsLimit;
use brainfuck::Error;
use brainfuck::InOuter;
use brainfuck::State;

fn state_with(cells: &[u8], limit: CellsLimit) -> State {
    let mut state = State::new(limit);
    for (k, &cell) in cells.iter().enumerate() {
        if k > 0 {
            state.pointer_add().unwrap();
        }
        state.accept(cell);
    }
    state
}

#[test]
fn cells_are_read_from_the_front() {
    let state = state_with(&[1, 2, 3], CellsLimit::default());
    let mut cells = state.cells();
    assert_eq!(cells.len(), 3);
    assert_eq!(cells.next(), Some(1));
    assert_eq!(cells.len(), 2);
    assert_eq!(cells.next(), Some(2));
    assert_eq!(cells.next(), Some(3));
    assert_eq!(cells.len(), 0);
    assert_eq!(cells.next(), None);
    assert_eq!(cells.next(), None);
    assert_eq!(cells.next_back(), None);
}

#[test]
fn cells_are_read_from_the_back() {
    let state = state_with(&[1, 2, 3], CellsLimit::default());
    let mut cells = state.cells();
    assert_eq!(cells.next_back(), Some(3));
    assert_eq!(cells.len(), 2);
    assert_eq!(cells.next(), Some(1));
    assert_eq!(cells.next_back(), Some(2));
    assert_eq!(cells.next_back(), None);
    assert_eq!(cells.next(), None);
}

#[test]
fn bounded_cells_end_in_the_zeros_that_fill_the_tape() {
    let state = state_with(&[4, 5], CellsLimit::new(Some((4, true))));
    let mut cells = state.cells();
    assert_eq!(cells.len(), 4);
    assert_eq!(cells.next_back(), Some(0));
    assert_eq!(cells.next_back(), Some(0));
    assert_eq!(cells.len(), 2);
    assert_eq!(cells.next_back(), Some(5));
    assert_eq!(cells.next(), Some(4));
    assert_eq!(cells.next(), None);
}

#[test]
fn bounded_cells_from_the_front_reach_the_zeros() {
    let state = state_with(&[4], CellsLimit::new(Some((3, false))));
    let mut cells = state.cells();
    assert_eq!(cells.next(), Some(4));
    assert_eq!(cells.len(), 2);
    assert_eq!(cells.next(), Some(0));
    assert_eq!(cells.next(), Some(0));
    assert_eq!(cells.next(), None);
}

#[test]
fn trim_end_drops_the_zeros_at_the_end() {
    let state = state_with(&[1, 0, 2, 0, 0], CellsLimit::default());
    let mut cells = state.cells();
    assert_eq!(cells.len(), 5);
    cells.trim_end();
    assert_eq!(cells.len(), 3);
    assert_eq!(cells.next(), Some(1));
    assert_eq!(cells.next(), Some(0));
    assert_eq!(cells.next(), Some(2));
    assert_eq!(cells.next(), None);
}

#[test]
fn trim_end_drops_the_filling_zeros_too() {
    let state = state_with(&[6, 0], CellsLimit::new(Some((5, true))));
    let mut cells = state.cells();
    assert_eq!(cells.len(), 5);
    cells.trim_end();
    assert_eq!(cells.len(), 1);
    assert_eq!(cells.next_back(), Some(6));
    assert_eq!(cells.next_back(), None);
}

#[test]
fn trim_end_of_an_all_zero_tape_leaves_nothing() {
    let state = state_with(&[0, 0, 0], CellsLimit::default());
    let mut cells = state.cells();
    cells.trim_end();
    assert_eq!(cells.len(), 0);
    assert_eq!(cells.next(), None);
}

#[test]
fn trim_end_keeps_a_tape_that_ends_in_a_value() {
    let state = state_with(&[0, 0, 1], CellsLimit::default());
    let mut cells = state.cells();
    cells.trim_end();
    assert_eq!(cells.len(), 3);
    cells.trim_end();
    assert_eq!(cells.len(), 3);
}

#[test]
fn trim_end_after_reading_looks_at_what_is_left() {
    let state = state_with(&[3, 0, 0], CellsLimit::default());
    let mut cells = state.cells();
    assert_eq!(cells.next(), Some(3));
    cells.trim_end();
    assert_eq!(cells.len(), 0);
    assert_eq!(cells.next(), None);
}

#[test]
fn evaluate_gives_the_tape() {
    let state = state_with(&[1, 2, 0], CellsLimit::default());
    let mut cells = state.evaluate().unwrap();
    assert_eq!(cells.len(), 3);
    assert_eq!(cells.next(), Some(1));
    assert_eq!(cells.next_back(), Some(0));
    assert_eq!(cells.next_back(), Some(2));
    assert_eq!(cells.next(), None);
}

#[test]
fn evaluate_gives_the_bounded_tape_filled_up() {
    let state = state_with(&[1, 2], CellsLimit::new(Some((4, false))));
    let mut cells = state.evaluate().unwrap();
    assert_eq!(cells.len(), 4);
    let mut all = Vec::new();
    while let Some(cell) = cells.next() {
        all.push(cell);
    }
    assert_eq!(all, vec![1, 2, 0, 0]);
}

#[test]
fn evaluate_trimmed() {
    let state = state_with(&[0, 9, 0, 0], CellsLimit::new(Some((6, false))));
    let mut cells = state.evaluate().unwrap();
    cells.trim_end();
    assert_eq!(cells.len(), 2);
    assert_eq!(cells.next(), Some(0));
    assert_eq!(cells.next(), Some(9));
    assert_eq!(cells.next(), None);
}

#[test]
fn evaluate_with_an_open_loop_fails() {
    let mut state = State::default();
    state.feed(b'[').unwrap();
    state.feed(b'[').unwrap();
    state.feed(b']').unwrap();
    assert!(matches!(state.evaluate(), Err(Error::UnendedLoop)));
}

#[test]
fn as_ref_borrows_the_same_cells() {
    let state = state_with(&[5, 6, 0], CellsLimit::new(Some((4, false))));
    let mut owned = state.evaluate().unwrap();
    assert_eq!(owned.next(), Some(5));
    {
        let mut borrowed = owned.as_ref();
        assert_eq!(borrowed.len(), 3);
        assert_eq!(borrowed.next(), Some(6));
        borrowed.trim_end();
        assert_eq!(borrowed.len(), 0);
    }
    assert_eq!(owned.len(), 3);
    assert_eq!(owned.next(), Some(6));
    assert_eq!(owned.next_back(), Some(0));
    assert_eq!(owned.next_back(), Some(0));
    assert_eq!(owned.next_back(), None);
}

#[test]
fn streams_hold_what_they_were_made_with() {
    let io = InOuter::new(vec![1, 2], vec![3, 4, 5]);
    let (out, rest) = io.extract();
    assert_eq!(out, vec![1, 2]);
    assert_eq!(rest, vec![3, 4, 5]);
}

#[test]
fn emit_appends_to_the_sink() {
    let mut io = InOuter::new(vec![1], Vec::new());
    io.emit(2);
    io.emit(3);
    assert_eq!(io.extract().0, vec![1, 2, 3]);
}

#[test]
fn consume_takes_from_the_front_of_the_source() {
    let mut io = InOuter::new(Vec::new(), vec![7, 8]);
    assert_eq!(io.consume(), Some(7));
    assert_eq!(io.consume(), Some(8));
    assert_eq!(io.consume(), None);
    assert_eq!(io.consume(), None);
    io.supply(&[9]);
    assert_eq!(io.consume(), Some(9));
    let (out, rest) = io.extract();
    assert!(out.is_empty());
    assert!(rest.is_empty());
}

#[test]
fn supply_appends_to_the_source() {
    let mut io = InOuter::new(Vec::new(), vec![1]);
    io.supply(&[2, 3]);
    io.supply(&[]);
    io.supply(&[4]);
    assert_eq!(io.consume(), Some(1));
    assert_eq!(io.extract().1, vec![2, 3, 4]);
}

#[test]
fn take_output_empties_the_sink() {
    let mut io = InOuter::new(vec![1, 2], vec![5]);
    assert_eq!(io.take_output(), vec![1, 2]);
    assert_eq!(io.take_output(), Vec::<u8>::new());
    io.emit(3);
    assert_eq!(io.take_output(), vec![3]);
    assert_eq!(io.extract(), (Vec::new(), vec![5]));
}

#[test]
fn serve_carries_out_an_effect() {
    let mut state = State::default();
    let mut io = InOuter::new(Vec::new(), vec![42]);
    assert!(io.serve(&mut state, brainfuck::Effect::Nothing));
    assert!(io.serve(&mut state, brainfuck::Effect::Emit(1)));
    assert!(io.serve(&mut state, brainfuck::Effect::Consume));
    assert_eq!(state.get_cur(), 42);
    assert!(!io.serve(&mut state, brainfuck::Effect::Consume));
    assert_eq!(state.get_cur(), 42);
    assert_eq!(io.extract(), (vec![1], Vec::new()));
}
