//! File-related system calls on the console.

use vstd::prelude::*;

use crate::userbuf;

verus! {

pub const FD_STDIN: usize = 0;

pub const FD_STDOUT: usize = 1;

/// Whether programs can write to a file descriptor.
pub fn can_write(fd: usize) -> (r: bool)
    ensures
        r == (fd == FD_STDOUT),
{
    fd == FD_STDOUT
}

/// Whether programs can read `len` bytes from a file descriptor: one byte at a
/// time, from the standard input.
pub fn can_read(fd: usize, len: usize) -> (r: bool)
    ensures
        r == (fd == FD_STDIN && len == 1),
{
    fd == FD_STDIN && len == 1
}

/// A write of `len` bytes, which the process has in `buffers`, each of them
/// UTF-8: returns the bytes to print, and what the call returns.
pub fn sys_write(fd: usize, buffers: &Vec<Vec<u8>>, len: usize) -> (r: (Vec<u8>, isize))
    requires
        fd == FD_STDOUT,
        forall|i: int|
            0 <= i < buffers@.len() ==> vstd::utf8::valid_utf8((#[trigger] buffers@[i])@),
    ensures
        r.0@ == userbuf::flat(buffers@),
        r.1 == len as isize,
{
    (userbuf::gather(buffers), len as isize)
}

/// Whether the UART has a character: bit 0 of its line status register.
pub fn try_getchar(line_status: u8) -> (r: bool)
    ensures
        r == (line_status % 2 == 1),
{
    line_status % 2 == 1
}

/// What a read does next.
#[derive(Debug, Clone, Copy, PartialEq, Eq, Structural)]
pub enum ReadConsole {
    /// Let other tasks run, then look for a character again.
    Suspend,
    /// Return this.
    Done(isize),
}

/// Looks for a character: stores it at the start of the program's buffer, or
/// lets other tasks run.
pub fn sys_read(fd: usize, len: usize, received: Option<u8>, buffer: &mut [u8]) -> (r: ReadConsole)
    requires
        fd == FD_STDIN,
        len == 1,
        old(buffer)@.len() >= 1,
    ensures
        match received {
            Some(c) => r == ReadConsole::Done(1) && final(buffer)@ == old(buffer)@.update(0, c),
            None => r == ReadConsole::Suspend && final(buffer)@ == old(buffer)@,
        },
{
    match received {
        Some(c) => {
            buffer[0] = c;
            ReadConsole::Done(1)
        },
        None => ReadConsole::Suspend,
    }
}

} // verus!
