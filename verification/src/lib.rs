//! A tape machine for the eight-instruction language: decoding, the cell tape
//! with its bounds policy, and the loop engine that buffers and replays bodies.
//!
//! The machine never waits and never loops without bound. A host makes a
//! [`State`] and the byte streams of an [`InOuter`], and calls
//! [`run_with_state`] on a program fragment with a number of moves that it
//! grants. The run comes back with the number of program bytes it took and a
//! [`Pause`]: the host empties the sink, goes on with the rest of the
//! fragment, reads a byte where the machine waits for one, and at the end
//! calls [`State::evaluate`]. Another thread may hold a [`StopSender`] and
//! end the run through it.
//!
//! What each call does is stated over [`model::Machine`], the machine as a
//! mathematical value. [`laws`] holds what follows from that, and [`loops`]
//! shows that the moves of the machine do what the loops of a program say.

pub mod cells;
pub mod command;
pub mod engine;
pub mod err;
pub mod io;
pub mod laws;
pub mod limit;
pub mod loops;
pub mod model;
pub mod state;
pub mod stop;

pub use crate::cells::CellsIntoIter;
pub use crate::cells::CellsIter;
pub use crate::command::Command;
pub use crate::engine::run_with_state;
pub use crate::err::Error;
pub use crate::io::InOuter;
pub use crate::limit::CellsLimit;
pub use crate::model::Effect;
pub use crate::model::Pause;
pub use crate::state::State;
pub use crate::stop::StopSender;
