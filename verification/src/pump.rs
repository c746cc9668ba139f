//! Moving data through the three pipes of the interpreter in turns, so
//! that no pipe is waited for while another could be served.
//!
//! The pump decides; its caller acts. The caller asks for the next
//! action, performs it on the pipe, and reports what came of it. Pipes
//! are served in the order input, output, errors, and a pipe that is
//! closed is passed over. The input is closed as soon as all of it is
//! written; the other two are read until each reports its end.

use vstd::prelude::*;
use crate::error::Error;

verus! {

/// Takes a pipe of the interpreter, which must be there.
pub fn take_child_io<I>(from: &mut Option<I>) -> (r: Result<I, Error>)
    ensures
        *final(from) is None,
        match *old(from) {
            Some(io) => r matches Ok(taken) && taken == io,
            None => r matches Err(e) && e == Error::ChildStdioIncomplete,
        },
{
    match from.take() {
        Some(taken) => Ok(taken),
        None => Err(Error::ChildStdioIncomplete),
    }
}

/// One of the three pipes of the interpreter.
#[derive(Debug, Clone, Copy, PartialEq, Eq, Structural)]
pub enum Pipe {
    /// What the interpreter reads.
    Stdin,
    /// What the interpreter prints.
    Stdout,
    /// What the interpreter complains of.
    Stderr,
}

impl Pipe {
    /// The pipe that is served after this one.
    pub open spec fn next(self) -> Pipe {
        match self {
            Pipe::Stdin => Pipe::Stdout,
            Pipe::Stdout => Pipe::Stderr,
            Pipe::Stderr => Pipe::Stdin,
        }
    }

    /// The pipe that is served after this one.
    pub fn successor(self) -> (r: Pipe)
        ensures
            r == self.next(),
    {
        match self {
            Pipe::Stdin => Pipe::Stdout,
            Pipe::Stdout => Pipe::Stderr,
            Pipe::Stderr => Pipe::Stdin,
        }
    }
}

/// What the caller is to do next.
#[derive(Debug, Clone, Copy, PartialEq, Eq, Structural)]
pub enum Action {
    /// Write `input[start..end]`, or as much of it as the pipe takes.
    Write { start: usize, end: usize },
    /// Close the input: all of it is written.
    CloseStdin,
    /// Read what the output has, up to one chunk.
    ReadStdout,
    /// Read what the errors have, up to one chunk.
    ReadStderr,
    /// Stop: every pipe is closed.
    Finish,
}

/// The state of the three pipes, and what was read so far.
#[derive(Debug)]
pub struct Pump {
    /// Length of the input.
    pub total: usize,
    /// The most that is written at once.
    pub chunk: usize,
    /// How much of the input is written.
    pub written: usize,
    /// The pipe whose turn it is.
    pub turn: Pipe,
    /// Whether the input is open.
    pub stdin_open: bool,
    /// Whether the output is open.
    pub stdout_open: bool,
    /// Whether the errors are open.
    pub stderr_open: bool,
    /// What the interpreter printed so far.
    pub stdout: Vec<u8>,
    /// What the interpreter complained of so far.
    pub stderr: Vec<u8>,
}

impl Pump {
    /// No more is written than there is, and a chunk is not empty.
    pub open spec fn wf(&self) -> bool {
        self.written <= self.total && self.chunk > 0
    }

    /// Whether a pipe is open.
    pub open spec fn is_open(&self, pipe: Pipe) -> bool {
        match pipe {
            Pipe::Stdin => self.stdin_open,
            Pipe::Stdout => self.stdout_open,
            Pipe::Stderr => self.stderr_open,
        }
    }

    /// The pipe that is served next: the first open one, from the one
    /// whose turn it is on.
    pub open spec fn current(&self) -> Option<Pipe> {
        if self.is_open(self.turn) {
            Some(self.turn)
        } else if self.is_open(self.turn.next()) {
            Some(self.turn.next())
        } else if self.is_open(self.turn.next().next()) {
            Some(self.turn.next().next())
        } else {
            None
        }
    }

    /// What the caller is to do next.
    pub open spec fn next_action(&self) -> Action {
        match self.current() {
            None => Action::Finish,
            Some(Pipe::Stdin) => if self.written >= self.total {
                Action::CloseStdin
            } else if self.total - self.written <= self.chunk {
                Action::Write { start: self.written, end: self.total }
            } else {
                Action::Write { start: self.written, end: (self.written + self.chunk) as usize }
            },
            Some(Pipe::Stdout) => Action::ReadStdout,
            Some(Pipe::Stderr) => Action::ReadStderr,
        }
    }

    /// A pump for an input of `total` bytes, written at most `chunk`
    /// bytes at once. All pipes are open, and the input is served first.
    pub fn new(total: usize, chunk: usize) -> (r: Pump)
        requires
            chunk > 0,
        ensures
            r.wf(),
            r.total == total,
            r.chunk == chunk,
            r.written == 0,
            r.turn == Pipe::Stdin,
            r.stdin_open && r.stdout_open && r.stderr_open,
            r.stdout@.len() == 0,
            r.stderr@.len() == 0,
    {
        Pump {
            total,
            chunk,
            written: 0,
            turn: Pipe::Stdin,
            stdin_open: true,
            stdout_open: true,
            stderr_open: true,
            stdout: Vec::new(),
            stderr: Vec::new(),
        }
    }

    /// Whether a pipe is open.
    fn open(&self, pipe: Pipe) -> (r: bool)
        ensures
            r == self.is_open(pipe),
    {
        match pipe {
            Pipe::Stdin => self.stdin_open,
            Pipe::Stdout => self.stdout_open,
            Pipe::Stderr => self.stderr_open,
        }
    }

    /// The pipe that is served next, if one is open.
    pub fn pipe(&self) -> (r: Option<Pipe>)
        ensures
            r == self.current(),
    {
        let first = self.turn;
        let second = first.successor();
        let third = second.successor();
        if self.open(first) {
            Some(first)
        } else if self.open(second) {
            Some(second)
        } else if self.open(third) {
            Some(third)
        } else {
            None
        }
    }

    /// What the caller is to do next.
    pub fn action(&self) -> (r: Action)
        requires
            self.wf(),
        ensures
            r == self.next_action(),
            r matches Action::Write { start, end } ==> start < end <= self.total && end - start
                <= self.chunk,
    {
        match self.pipe() {
            None => Action::Finish,
            Some(Pipe::Stdin) => {
                if self.written >= self.total {
                    Action::CloseStdin
                } else if self.total - self.written <= self.chunk {
                    Action::Write { start: self.written, end: self.total }
                } else {
                    Action::Write { start: self.written, end: self.written + self.chunk }
                }
            },
            Some(Pipe::Stdout) => Action::ReadStdout,
            Some(Pipe::Stderr) => Action::ReadStderr,
        }
    }

    /// The pipe took `count` bytes of what it was given to write. The
    /// turn passes on.
    pub fn wrote(&mut self, count: usize)
        requires
            old(self).wf(),
            old(self).next_action() matches Action::Write { start, end } && count <= end - start,
        ensures
            final(self).wf(),
            final(self).written == old(self).written + count,
            final(self).turn == Pipe::Stdout,
            final(self).same_but_progress(*old(self)),
    {
        self.written = self.written + count;
        self.turn = Pipe::Stdout;
    }

    /// The input was closed. The turn passes on.
    pub fn closed_stdin(&mut self)
        requires
            old(self).wf(),
            old(self).next_action() is CloseStdin,
        ensures
            final(self).wf(),
            !final(self).stdin_open,
            final(self).stdout_open == old(self).stdout_open,
            final(self).stderr_open == old(self).stderr_open,
            final(self).written == old(self).written,
            final(self).turn == Pipe::Stdout,
            final(self).total == old(self).total,
            final(self).chunk == old(self).chunk,
            final(self).stdout@ == old(self).stdout@,
            final(self).stderr@ == old(self).stderr@,
    {
        self.stdin_open = false;
        self.turn = Pipe::Stdout;
    }

    /// The pipe that was to be served is not ready. The turn passes on,
    /// and nothing else changes.
    pub fn blocked(&mut self)
        requires
            old(self).wf(),
            old(self).current() is Some,
        ensures
            final(self).wf(),
            final(self).turn == old(self).current().unwrap().next(),
            final(self).written == old(self).written,
            final(self).same_but_progress(*old(self)),
    {
        match self.pipe() {
            Some(pipe) => {
                self.turn = pipe.successor();
            },
            None => {},
        }
    }

    /// Everything but the turn and what is written is as in `other`.
    pub open spec fn same_but_progress(&self, other: Pump) -> bool {
        &&& self.total == other.total
        &&& self.chunk == other.chunk
        &&& self.stdin_open == other.stdin_open
        &&& self.stdout_open == other.stdout_open
        &&& self.stderr_open == other.stderr_open
        &&& self.stdout@ == other.stdout@
        &&& self.stderr@ == other.stderr@
    }

    /// The pipe that was to be read gave `data`; no data means that the
    /// pipe has reached its end, and it counts as closed. The turn passes
    /// on.
    pub fn read(&mut self, data: &[u8])
        requires
            old(self).wf(),
            old(self).current() == Some(Pipe::Stdout) || old(self).current() == Some(Pipe::Stderr),
        ensures
            final(self).wf(),
            final(self).total == old(self).total,
            final(self).chunk == old(self).chunk,
            final(self).written == old(self).written,
            final(self).stdin_open == old(self).stdin_open,
            final(self).turn == old(self).current().unwrap().next(),
            old(self).current() == Some(Pipe::Stdout) ==> {
                &&& final(self).stdout@ == old(self).stdout@ + data@
                &&& final(self).stdout_open == (data@.len() > 0)
                &&& final(self).stderr@ == old(self).stderr@
                &&& final(self).stderr_open == old(self).stderr_open
            },
            old(self).current() == Some(Pipe::Stderr) ==> {
                &&& final(self).stderr@ == old(self).stderr@ + data@
                &&& final(self).stderr_open == (data@.len() > 0)
                &&& final(self).stdout@ == old(self).stdout@
                &&& final(self).stdout_open == old(self).stdout_open
            },
    {
        match self.pipe() {
            Some(Pipe::Stdout) => {
                self.stdout.extend_from_slice(data);
                self.stdout_open = data.len() > 0;
                self.turn = Pipe::Stderr;
            },
            Some(Pipe::Stderr) => {
                self.stderr.extend_from_slice(data);
                self.stderr_open = data.len() > 0;
                self.turn = Pipe::Stdin;
            },
            _ => {},
        }
    }

    /// What the interpreter printed and what it complained of, once
    /// every pipe is closed.
    pub fn finish(self) -> (r: (Vec<u8>, Vec<u8>))
        requires
            self.next_action() is Finish,
        ensures
            r.0 == self.stdout,
            r.1 == self.stderr,
    {
        (self.stdout, self.stderr)
    }

    /// After a pipe has had its turn, another pipe is served next if
    /// another pipe is open.
    pub proof fn lemma_takes_turns(&self, served: Pipe)
        requires
            self.turn == served.next(),
            self.is_open(served.next()) || self.is_open(served.next().next()),
        ensures
            self.current() is Some,
            self.current() != Some(served),
    {
    }

    /// The pump stops only when every pipe is closed.
    pub proof fn lemma_finish_means_closed(&self)
        ensures
            self.next_action() is Finish <==> !self.stdin_open && !self.stdout_open
                && !self.stderr_open,
    {
    }
}

} // verus!
