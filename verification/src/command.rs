//! The instruction set and its byte decoding.

use vstd::prelude::*;

verus! {

/// `+`
pub const SYM_INCR: u8 = 0x2B;

/// `-`
pub const SYM_DECR: u8 = 0x2D;

/// `>`
pub const SYM_PTR_INCR: u8 = 0x3E;

/// `<`
pub const SYM_PTR_DECR: u8 = 0x3C;

/// `.`
pub const SYM_OUT: u8 = 0x2E;

/// `,`
pub const SYM_IN: u8 = 0x2C;

/// `[`
pub const SYM_LOOP_BEGIN: u8 = 0x5B;

/// `]`
pub const SYM_LOOP_END: u8 = 0x5D;

/// One of the eight instructions.
#[derive(Copy, Clone, PartialEq, Eq, Structural, Debug)]
pub enum Command {
    PtrIncr,
    PtrDecr,
    Incr,
    Decr,
    Out,
    In,
    LoopBegin,
    LoopEnd,
}

impl Command {
    /// The instruction that a source byte stands for, if any.
    pub open spec fn decode(byte: u8) -> Option<Command> {
        if byte == SYM_INCR {
            Some(Command::Incr)
        } else if byte == SYM_DECR {
            Some(Command::Decr)
        } else if byte == SYM_PTR_INCR {
            Some(Command::PtrIncr)
        } else if byte == SYM_PTR_DECR {
            Some(Command::PtrDecr)
        } else if byte == SYM_OUT {
            Some(Command::Out)
        } else if byte == SYM_IN {
            Some(Command::In)
        } else if byte == SYM_LOOP_BEGIN {
            Some(Command::LoopBegin)
        } else if byte == SYM_LOOP_END {
            Some(Command::LoopEnd)
        } else {
            None
        }
    }

    /// The source byte that is written for an instruction.
    pub open spec fn spec_symbol(self) -> u8 {
        match self {
            Command::Incr => SYM_INCR,
            Command::Decr => SYM_DECR,
            Command::PtrIncr => SYM_PTR_INCR,
            Command::PtrDecr => SYM_PTR_DECR,
            Command::Out => SYM_OUT,
            Command::In => SYM_IN,
            Command::LoopBegin => SYM_LOOP_BEGIN,
            Command::LoopEnd => SYM_LOOP_END,
        }
    }

    /// Decodes one source byte. Bytes outside the alphabet `+ - > < . , [ ]`
    /// decode to `None`: they are comments.
    pub fn from_byte(cmd: u8) -> (r: Option<Command>)
        ensures
            r == Command::decode(cmd),
    {
        if cmd == SYM_INCR {
            Some(Command::Incr)
        } else if cmd == SYM_DECR {
            Some(Command::Decr)
        } else if cmd == SYM_PTR_INCR {
            Some(Command::PtrIncr)
        } else if cmd == SYM_PTR_DECR {
            Some(Command::PtrDecr)
        } else if cmd == SYM_OUT {
            Some(Command::Out)
        } else if cmd == SYM_IN {
            Some(Command::In)
        } else if cmd == SYM_LOOP_BEGIN {
            Some(Command::LoopBegin)
        } else if cmd == SYM_LOOP_END {
            Some(Command::LoopEnd)
        } else {
            None
        }
    }

    /// The byte that is written for this instruction; it decodes back to it.
    #[verifier::when_used_as_spec(spec_symbol)]
    pub fn symbol(self) -> (b: u8)
        ensures
            b == self.spec_symbol(),
            Command::decode(b) == Some(self),
    {
        match self {
            Command::Incr => SYM_INCR,
            Command::Decr => SYM_DECR,
            Command::PtrIncr => SYM_PTR_INCR,
            Command::PtrDecr => SYM_PTR_DECR,
            Command::Out => SYM_OUT,
            Command::In => SYM_IN,
            Command::LoopBegin => SYM_LOOP_BEGIN,
            Command::LoopEnd => SYM_LOOP_END,
        }
    }
}

} // verus!
