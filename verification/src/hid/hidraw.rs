//! `/dev/hidraw*` as a report channel: the rules.
//!
//! Output reports are sent with `write(2)`; the kernel forwards them to the
//! device (falling back to a SET_REPORT control transfer when the interface
//! has no interrupt OUT endpoint, which is the case for the Razer dongles).
//! Input reports are received with `poll(2)` + `read(2)`.

use crate::error::{always_gone, shutdown_somewhere, Error, ErrorView, IoError};
use crate::text::{dec, decimal};
use vstd::prelude::*;
use vstd::string::*;

verus! {

/// What kept a node from being opened.
#[derive(Debug, Clone, Copy, PartialEq, Eq)]
pub enum OpenFailure {
    PermissionDenied,
    NotFound,
    Other,
}

/// A node that could not be opened as an error. One that is not there
/// belongs to a device that was unplugged.
pub fn open_error(failure: OpenFailure, path: &str, io: IoError) -> (r: Error)
    ensures
        failure == OpenFailure::PermissionDenied ==> r@ == (ErrorView::PermissionDenied { path: path@ }),
        failure == OpenFailure::NotFound ==> r == Error::Disconnected,
        failure == OpenFailure::Other ==> r == Error::Disconnected || r == Error::Io(io),
        failure == OpenFailure::Other && io.os_code is None ==> r == Error::Io(io),
        failure == OpenFailure::Other ==> (io.os_code matches Some(code) ==> (always_gone(code) ==> r
            == Error::Disconnected)),
        failure == OpenFailure::Other ==> (io.os_code matches Some(code) ==> (!always_gone(code)
            && !shutdown_somewhere(code) ==> r == Error::Io(io))),
{
    match failure {
        OpenFailure::PermissionDenied => Error::PermissionDenied { path: path.to_owned() },
        OpenFailure::NotFound => Error::Disconnected,
        OpenFailure::Other => Error::from_io(io),
    }
}

/// Time to wait in milliseconds as `poll(2)` takes it. Rounded up, so that a
/// sub-millisecond remainder still waits.
pub fn poll_timeout_ms(remaining_us: u64) -> (ms: i32)
    ensures
        ms == if (remaining_us + 999) / 1000 > i32::MAX {
            i32::MAX as int
        } else {
            (remaining_us + 999) / 1000
        },
        ms == 0 <==> remaining_us == 0,
        ms < i32::MAX ==> 1000 * ms >= remaining_us && 1000 * ms < remaining_us + 1000,
{
    let ms: u64 = remaining_us / 1000 + if remaining_us % 1000 == 0 {
        0
    } else {
        1
    };
    if ms > 0x7FFF_FFFF {
        i32::MAX
    } else {
        ms as i32
    }
}

/// How a `poll(2)` ended.
#[derive(Debug, Clone, Copy, PartialEq, Eq)]
pub enum Polled {
    Interrupted,
    Failed,
    TimedOut,
    /// The descriptor has something to report: input, trouble or both.
    Ready { input: bool, trouble: bool },
}

/// What to do after a `poll(2)`.
#[derive(Debug, Clone, Copy, PartialEq, Eq)]
pub enum PollStep {
    Again,
    /// Give up with the system's own error.
    Fail,
    Quiet,
    Readable,
    Gone,
}

/// A hang-up counts only when no input is left to read.
pub fn poll_step(polled: Polled) -> (step: PollStep)
    ensures
        step == match polled {
            Polled::Interrupted => PollStep::Again,
            Polled::Failed => PollStep::Fail,
            Polled::TimedOut => PollStep::Quiet,
            Polled::Ready { input, trouble } => if trouble && !input {
                PollStep::Gone
            } else {
                PollStep::Readable
            },
        },
        step is Again <==> polled is Interrupted,
        step is Quiet <==> polled is TimedOut,
        (polled matches Polled::Ready { input, .. } && input) ==> step is Readable,
        step is Gone <==> (polled matches Polled::Ready { input, trouble } && trouble && !input),
{
    match polled {
        Polled::Interrupted => PollStep::Again,
        Polled::Failed => PollStep::Fail,
        Polled::TimedOut => PollStep::Quiet,
        Polled::Ready { input, trouble } => {
            if trouble && !input {
                PollStep::Gone
            } else {
                PollStep::Readable
            }
        },
    }
}

/// How a `read(2)` or `write(2)` ended.
#[derive(Debug, Clone, Copy, PartialEq, Eq)]
pub enum Transfer {
    Bytes(usize),
    Interrupted,
    WouldBlock,
    Failed,
}

/// What to do after a `write(2)`.
#[derive(Debug, Clone, Copy, PartialEq, Eq)]
pub enum WriteStep {
    Done,
    Again,
    Short(usize),
    /// Give up with the system's own error.
    Fail,
}

/// A report goes out whole or not at all.
pub fn write_step(transfer: Transfer, len: usize) -> (step: WriteStep)
    ensures
        step == match transfer {
            Transfer::Bytes(n) => if n == len {
                WriteStep::Done
            } else {
                WriteStep::Short(n)
            },
            Transfer::Interrupted => WriteStep::Again,
            Transfer::WouldBlock | Transfer::Failed => WriteStep::Fail,
        },
        step is Done <==> transfer == Transfer::Bytes(len),
        step is Again <==> transfer is Interrupted,
        step matches WriteStep::Short(n) ==> n != len && transfer == Transfer::Bytes(n),
{
    match transfer {
        Transfer::Bytes(n) => {
            if n == len {
                WriteStep::Done
            } else {
                WriteStep::Short(n)
            }
        },
        Transfer::Interrupted => WriteStep::Again,
        Transfer::WouldBlock | Transfer::Failed => WriteStep::Fail,
    }
}

/// What a report of which only `n` of `len` bytes went out is reported as.
pub fn short_write(path: &str, n: usize, len: usize) -> (r: Error)
    ensures
        r@ == ErrorView::Protocol(
            "short write to "@ + path@ + ": "@ + dec(n as nat) + " of "@ + dec(len as nat) + " bytes"@,
        ),
{
    let mut text = "short write to ".to_owned();
    text.append(path);
    text.append(": ");
    text.append(decimal(n as u64).as_str());
    text.append(" of ");
    text.append(decimal(len as u64).as_str());
    text.append(" bytes");
    Error::Protocol(text)
}

/// What to do after a `read(2)`.
#[derive(Debug, Clone, Copy, PartialEq, Eq)]
pub enum ReadStep {
    Report(usize),
    Again,
    /// Wait until the descriptor is readable, then read once more.
    Wait,
    Quiet,
    /// Give up with the system's own error.
    Fail,
    Gone,
}

/// hidraw never returns 0 bytes for a live device: that is a hang-up. A read
/// that finds nothing waits once if there is time; `waited` says that it
/// already did, and then a spurious wakeup ends the read.
pub fn read_step(transfer: Transfer, waited: bool, timeout_us: u64) -> (step: ReadStep)
    ensures
        step == match transfer {
            Transfer::Bytes(n) => if n == 0 {
                ReadStep::Gone
            } else {
                ReadStep::Report(n)
            },
            Transfer::Interrupted => if waited {
                ReadStep::Fail
            } else {
                ReadStep::Again
            },
            Transfer::WouldBlock => if waited || timeout_us == 0 {
                ReadStep::Quiet
            } else {
                ReadStep::Wait
            },
            Transfer::Failed => ReadStep::Fail,
        },
        step matches ReadStep::Report(n) ==> n > 0 && transfer == Transfer::Bytes(n),
        step is Gone <==> transfer == Transfer::Bytes(0),
        step is Wait <==> transfer is WouldBlock && !waited && timeout_us > 0,
        step is Again <==> transfer is Interrupted && !waited,
        step is Quiet <==> transfer is WouldBlock && (waited || timeout_us == 0),
{
    match transfer {
        Transfer::Bytes(n) => {
            if n == 0 {
                ReadStep::Gone
            } else {
                ReadStep::Report(n)
            }
        },
        Transfer::Interrupted => {
            if waited {
                ReadStep::Fail
            } else {
                ReadStep::Again
            }
        },
        Transfer::WouldBlock => {
            if waited || timeout_us == 0 {
                ReadStep::Quiet
            } else {
                ReadStep::Wait
            }
        },
        Transfer::Failed => ReadStep::Fail,
    }
}

} // verus!
