//! The byte sink and the buffered byte source of a run.

use crate::model::Effect;
use crate::model::Streams;
use crate::state::State;
use std::collections::VecDeque;
use vstd::prelude::*;

verus! {

/// A sink that collects the bytes a program writes, and a buffer of the
/// bytes it has still to read. The host fills the one and empties the other.
pub struct InOuter {
    o: Vec<u8>,
    i: VecDeque<u8>,
}

impl View for InOuter {
    type V = Streams;

    closed spec fn view(&self) -> Streams {
        Streams { sink: self.o@, source: self.i@ }
    }
}

impl InOuter {
    /// Streams with `o` already in the sink and `i` waiting in the source.
    pub fn new(o: Vec<u8>, i: Vec<u8>) -> (r: InOuter)
        ensures
            r@ == (Streams { sink: o@, source: i@ }),
    {
        let mut r = InOuter { o, i: VecDeque::new() };
        r.supply(i.as_slice());
        r
    }

    /// The sink's bytes, and the bytes that were not consumed.
    pub fn extract(self) -> (r: (Vec<u8>, Vec<u8>))
        ensures
            r.0@ == self@.sink,
            r.1@ == self@.source,
    {
        let InOuter { o, i } = self;
        let mut i = i;
        let mut rest: Vec<u8> = Vec::new();
        let ghost all = i@;
        while i.len() > 0
            invariant
                rest@ + i@ == all,
            decreases i.len(),
        {
            if let Some(byte) = i.pop_front() {
                rest.push(byte);
            }
        }
        (o, rest)
    }

    /// Writes one byte to the sink.
    pub fn emit(&mut self, byte: u8)
        ensures
            final(self)@ == old(self)@.emitted(byte),
    {
        self.o.push(byte);
    }

    /// Reads one byte from the source; `None` if it holds none.
    pub fn consume(&mut self) -> (r: Option<u8>)
        ensures
            old(self)@.source.len() == 0 ==> r.is_none() && final(self)@ == old(self)@,
            old(self)@.source.len() > 0 ==> r == Some(old(self)@.source.first()) && final(self)@
                == old(self)@.consumed(),
    {
        self.i.pop_front()
    }

    /// Puts `bytes` at the end of the source.
    pub fn supply(&mut self, bytes: &[u8])
        ensures
            final(self)@ == (Streams { source: old(self)@.source + bytes@, ..old(self)@ }),
    {
        let mut k: usize = 0;
        while k < bytes.len()
            invariant
                k <= bytes@.len(),
                self.o@ == old(self).o@,
                self.i@ == old(self).i@ + bytes@.subrange(0, k as int),
            decreases bytes@.len() - k,
        {
            self.i.push_back(bytes[k]);
            k = k + 1;
        }
    }

    /// Takes the bytes out of the sink, which is empty afterwards.
    pub fn take_output(&mut self) -> (out: Vec<u8>)
        ensures
            out@ == old(self)@.sink,
            final(self)@ == (Streams { sink: Seq::empty(), ..old(self)@ }),
    {
        let mut out: Vec<u8> = Vec::new();
        std::mem::swap(&mut self.o, &mut out);
        out
    }

    /// Does on these streams what a move of `state` left to be done. Where
    /// a byte is to be consumed and the source holds none, nothing is done
    /// and the result is `false`. A byte is consumed into a cell that can be
    /// written: after the move that asked for the byte it can.
    pub fn serve(&mut self, state: &mut State, effect: Effect) -> (served: bool)
        requires
            old(state)@.wf(),
            effect == Effect::Consume ==> old(state)@.writable(),
        ensures
            final(state)@.wf(),
            match old(state)@.serve(old(self)@, effect) {
                Some((machine, streams)) => served && final(state)@ == machine && final(self)@
                    == streams,
                None => !served && final(state)@ == old(state)@ && final(self)@ == old(self)@,
            },
    {
        match effect {
            Effect::Nothing => true,
            Effect::Emit(byte) => {
                self.emit(byte);
                true
            },
            Effect::Consume => match self.consume() {
                Some(byte) => {
                    state.accept(byte);
                    true
                },
                None => false,
            },
        }
    }
}

} // verus!
