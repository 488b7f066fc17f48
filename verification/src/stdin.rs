//! Standard input as the host supplies it: a buffer installed ahead of time and read
//! through a cursor.
use vstd::prelude::*;

use crate::error::{Fault, VfsError};

verus! {

/// The installed input, if any, and how much of it has been read.
#[derive(Debug)]
pub struct StdinState {
    buffer: Option<Vec<u8>>,
    position: usize,
}

/// The installed bytes and the read position, or nothing installed.
pub struct StdinView {
    pub bytes: Option<Seq<u8>>,
    pub position: int,
}

impl View for StdinState {
    type V = StdinView;

    closed spec fn view(&self) -> StdinView {
        StdinView {
            bytes: match self.buffer {
                Some(b) => Some(b@),
                None => None,
            },
            position: self.position as int,
        }
    }
}

impl StdinState {
    /// Nothing installed.
    pub fn new() -> (s: StdinState)
        ensures
            s@.bytes is None,
            s@.position == 0,
    {
        StdinState { buffer: None, position: 0 }
    }

    /// The position never passes the end of what is installed.
    pub closed spec fn wf(&self) -> bool {
        match self.buffer {
            Some(b) => self.position <= b.len(),
            None => self.position == 0,
        }
    }
}

/// Installs `bytes` as standard input, to be read from the start.
pub fn set(state: &mut StdinState, bytes: Vec<u8>)
    ensures
        final(state).wf(),
        final(state)@.bytes == Some(bytes@),
        final(state)@.position == 0,
{
    state.buffer = Some(bytes);
    state.position = 0;
}

/// Removes the installed input.
pub fn reset(state: &mut StdinState)
    ensures
        final(state).wf(),
        final(state)@.bytes is None,
        final(state)@.position == 0,
{
    state.buffer = None;
    state.position = 0;
}

/// Whether input is installed (an empty buffer counts).
pub fn is_set(state: &StdinState) -> (r: bool)
    ensures
        r == state@.bytes is Some,
{
    state.buffer.is_some()
}

/// A handle on standard input.
#[derive(Debug, Clone, Copy)]
pub struct Stdin {
    marker: (),
}

/// The handle on standard input.
pub fn stdin() -> Stdin {
    Stdin { marker: () }
}

/// How far a line read goes from `at`: through the first newline, or to the end.
pub open spec fn line_end(bytes: Seq<u8>, at: int) -> int
    decreases bytes.len() - at,
{
    if at >= bytes.len() {
        bytes.len() as int
    } else if bytes[at] == 10u8 {
        at + 1
    } else {
        line_end(bytes, at + 1)
    }
}

impl Stdin {
    /// Appends the rest of the input to `buffer` and reports how many bytes it appended;
    /// without installed input there is nothing to read from.
    pub fn read_to_end(&self, state: &mut StdinState, buffer: &mut Vec<u8>) -> (r: Result<usize, VfsError>)
        requires
            old(state).wf(),
        ensures
            final(state).wf(),
            match old(state)@.bytes {
                None => r matches Err(e) && e@ == Fault::NoInput && *final(state) == *old(state)
                    && final(buffer)@ == old(buffer)@,
                Some(b) => r matches Ok(n) && n == b.len() - old(state)@.position && final(buffer)@
                    == old(buffer)@ + b.subrange(old(state)@.position, b.len() as int)
                    && final(state)@.bytes == Some(b) && final(state)@.position == b.len(),
            },
    {
        let pos = self.position_of(state);
        match &state.buffer {
            None => Err(VfsError::NoInput),
            Some(bytes) => {
                let mut i = pos;
                let ghost start = buffer@;
                while i < bytes.len()
                    invariant
                        pos <= i <= bytes.len(),
                        buffer@ == start + bytes@.subrange(pos as int, i as int),
                    decreases bytes.len() - i,
                {
                    buffer.push(bytes[i]);
                    assert(bytes@.subrange(pos as int, i + 1) =~= bytes@.subrange(pos as int, i as int).push(bytes@[i as int]));
                    i = i + 1;
                }
                let n = bytes.len() - pos;
                state.position = bytes.len();
                Ok(n)
            },
        }
    }

    fn position_of(&self, state: &StdinState) -> (p: usize)
        requires
            state.wf(),
        ensures
            p == state@.position,
            state@.bytes matches Some(b) ==> p <= b.len(),
    {
        state.position
    }

    /// Appends the rest of the input to `buffer` as text; input that is not UTF-8 fails and
    /// nothing is read.
    pub fn read_to_string(&self, state: &mut StdinState, buffer: &mut String) -> (r: Result<usize, VfsError>)
        requires
            old(state).wf(),
        ensures
            final(state).wf(),
            match old(state)@.bytes {
                None => r matches Err(e) && e@ == Fault::NoInput && *final(state) == *old(state)
                    && final(buffer)@ == old(buffer)@,
                Some(b) => {
                    let rest = b.subrange(old(state)@.position, b.len() as int);
                    if vstd::utf8::valid_utf8(rest) {
                        r matches Ok(n) && n == rest.len() && final(buffer)@ == old(buffer)@
                            + vstd::utf8::decode_utf8(rest) && final(state)@.bytes == Some(b)
                            && final(state)@.position == b.len()
                    } else {
                        r matches Err(e) && e@ == Fault::InvalidInput && *final(state) == *old(state)
                            && final(buffer)@ == old(buffer)@
                    }
                },
            },
    {
        let pos = self.position_of(state);
        let rest = match &state.buffer {
            None => {
                return Err(VfsError::NoInput);
            },
            Some(bytes) => copy_range(bytes, pos, bytes.len()),
        };
        let n = rest.len();
        match crate::text::utf8_text(rest) {
            Some(text) => {
                buffer.append(text.as_str());
                let end = pos + n;
                state.position = end;
                Ok(n)
            },
            None => Err(VfsError::InvalidInput),
        }
    }

    /// Appends the next line (through its newline, or to the end) to `buffer` and reports
    /// how many bytes it took; a line that is not UTF-8 fails once it has been read.
    pub fn read_line(&self, state: &mut StdinState, buffer: &mut String) -> (r: Result<usize, VfsError>)
        requires
            old(state).wf(),
        ensures
            final(state).wf(),
            match old(state)@.bytes {
                None => r matches Err(e) && e@ == Fault::NoInput && *final(state) == *old(state)
                    && final(buffer)@ == old(buffer)@,
                Some(b) => {
                    let end = line_end(b, old(state)@.position);
                    let line = b.subrange(old(state)@.position, end);
                    &&& final(state)@.bytes == Some(b)
                    &&& final(state)@.position == end
                    &&& if vstd::utf8::valid_utf8(line) {
                        r matches Ok(n) && n == line.len() && final(buffer)@ == old(buffer)@
                            + vstd::utf8::decode_utf8(line)
                    } else {
                        r matches Err(e) && e@ == Fault::InvalidInput && final(buffer)@ == old(buffer)@
                    }
                },
            },
    {
        let pos = self.position_of(state);
        let line = match &state.buffer {
            None => {
                return Err(VfsError::NoInput);
            },
            Some(bytes) => {
                let mut end = pos;
                while end < bytes.len() && bytes[end] != 10u8
                    invariant
                        pos <= end <= bytes.len(),
                        line_end(bytes@, pos as int) == line_end(bytes@, end as int),
                    decreases bytes.len() - end,
                {
                    end = end + 1;
                }
                if end < bytes.len() {
                    end = end + 1;
                }
                copy_range(bytes, pos, end)
            },
        };
        let n = line.len();
        let end = pos + n;
        state.position = end;
        match crate::text::utf8_text(line) {
            Some(text) => {
                buffer.append(text.as_str());
                Ok(n)
            },
            None => Err(VfsError::InvalidInput),
        }
    }
}

/// The bytes `lo..hi` of `bytes`.
fn copy_range(bytes: &Vec<u8>, lo: usize, hi: usize) -> (r: Vec<u8>)
    requires
        lo <= hi <= bytes.len(),
    ensures
        r@ == bytes@.subrange(lo as int, hi as int),
{
    let mut out: Vec<u8> = Vec::new();
    let mut i = lo;
    while i < hi
        invariant
            lo <= i <= hi <= bytes.len(),
            out@ == bytes@.subrange(lo as int, i as int),
        decreases hi - i,
    {
        out.push(bytes[i]);
        assert(bytes@.subrange(lo as int, i + 1) =~= bytes@.subrange(lo as int, i as int).push(bytes@[i as int]));
        i = i + 1;
    }
    out
}

} // verus!
