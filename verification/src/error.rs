//! Errors produced while talking to a device.

use crate::text::{dec, decimal, digit_char, digits_value, push_upper_hex2, upper_hex2};
use vstd::prelude::*;
use vstd::string::*;

verus! {

/// What is known of a failed system call.
#[derive(Debug, Clone, PartialEq, Eq)]
pub struct IoError {
    /// The operating system's error number, where it gave one.
    pub os_code: Option<i32>,
    /// The call gave up waiting.
    pub timed_out: bool,
    pub message: String,
}

pub struct IoErrorView {
    pub os_code: Option<i32>,
    pub timed_out: bool,
    pub message: Seq<char>,
}

impl View for IoError {
    type V = IoErrorView;

    open spec fn view(&self) -> IoErrorView {
        IoErrorView { os_code: self.os_code, timed_out: self.timed_out, message: self.message@ }
    }
}

#[derive(Debug, Clone, PartialEq, Eq)]
pub enum Error {
    NoDevice,
    PermissionDenied { path: String },
    Disconnected,
    Timeout { cmd: u8, timeout_ms: u64 },
    EmptyResponse { cmd: u8 },
    /// The headset is powered off or out of range.
    HeadsetOffline,
    InvalidArgument(String),
    Protocol(String),
    Io(IoError),
}

pub enum ErrorView {
    NoDevice,
    PermissionDenied { path: Seq<char> },
    Disconnected,
    Timeout { cmd: u8, timeout_ms: u64 },
    EmptyResponse { cmd: u8 },
    HeadsetOffline,
    InvalidArgument(Seq<char>),
    Protocol(Seq<char>),
    Io(IoErrorView),
}

impl View for Error {
    type V = ErrorView;

    open spec fn view(&self) -> ErrorView {
        match self {
            Error::NoDevice => ErrorView::NoDevice,
            Error::PermissionDenied { path } => ErrorView::PermissionDenied { path: path@ },
            Error::Disconnected => ErrorView::Disconnected,
            Error::Timeout { cmd, timeout_ms } => ErrorView::Timeout { cmd: *cmd, timeout_ms: *timeout_ms },
            Error::EmptyResponse { cmd } => ErrorView::EmptyResponse { cmd: *cmd },
            Error::HeadsetOffline => ErrorView::HeadsetOffline,
            Error::InvalidArgument(text) => ErrorView::InvalidArgument(text@),
            Error::Protocol(text) => ErrorView::Protocol(text@),
            Error::Io(io) => ErrorView::Io(io@),
        }
    }
}

/// The operating system's numbers for a device that is gone.
#[derive(Debug, Clone, Copy, PartialEq, Eq)]
pub struct GoneCodes {
    pub enodev: i32,
    pub eshutdown: i32,
    pub enxio: i32,
    pub eio: i32,
}

impl GoneCodes {
    pub open spec fn has(self, code: i32) -> bool {
        code == self.enodev || code == self.eshutdown || code == self.enxio || code == self.eio
    }
}

/// Does `code` stand for a device that is gone on every Linux machine? These
/// are `EIO`, `ENXIO` and `ENODEV`.
pub open spec fn always_gone(code: i32) -> bool {
    code == 5 || code == 6 || code == 19
}

/// Is `code` the number of `ESHUTDOWN` on some Linux machine? It is 143 on
/// mips, 58 on sparc and 108 elsewhere.
pub open spec fn shutdown_somewhere(code: i32) -> bool {
    code == 108 || code == 143 || code == 58
}

/// The constants `ENODEV`, `ESHUTDOWN`, `ENXIO` and `EIO` of the `libc`
/// crate. On every Linux target, Android among them, `EIO` is 5, `ENXIO` is 6
/// and `ENODEV` is 19, while `ESHUTDOWN` depends on the architecture. hidraw is
/// part of Linux: systems that number them otherwise do not have it.
#[verifier::external_body]
fn gone_codes() -> (codes: GoneCodes)
    ensures
        codes.eio == 5,
        codes.enxio == 6,
        codes.enodev == 19,
        shutdown_somewhere(codes.eshutdown),
{
    GoneCodes { enodev: libc::ENODEV, eshutdown: libc::ESHUTDOWN, enxio: libc::ENXIO, eio: libc::EIO }
}

/// A duration of `ms` milliseconds in words: whole milliseconds below one
/// second, seconds with up to three decimals from there on.
pub open spec fn duration_text(ms: u64) -> Seq<char> {
    if ms == 0 {
        "0ns"@
    } else if ms < 1000 {
        dec(ms as nat) + "ms"@
    } else {
        dec((ms / 1000) as nat) + fraction_text(ms % 1000) + "s"@
    }
}

/// `thousandths` after a decimal point, without zeros at the end.
pub open spec fn fraction_text(thousandths: u64) -> Seq<char> {
    let (a, b, c) = (
        digit_char((thousandths / 100) as int),
        digit_char((thousandths / 10 % 10) as int),
        digit_char((thousandths % 10) as int),
    );
    if thousandths == 0 {
        seq![]
    } else if thousandths % 100 == 0 {
        seq!['.', a]
    } else if thousandths % 10 == 0 {
        seq!['.', a, b]
    } else {
        seq!['.', a, b, c]
    }
}

fn duration_words(ms: u64) -> (r: String)
    ensures
        r@ == duration_text(ms),
{
    if ms == 0 {
        return "0ns".to_owned();
    }
    if ms < 1000 {
        let mut out = decimal(ms);
        out.append("ms");
        return out;
    }
    let mut out = decimal(ms / 1000);
    let ghost whole = out@;
    let rest: u64 = ms % 1000;
    if rest != 0 {
        out.push('.');
        out.push((0x30 + (rest / 100) as u8) as char);
        if rest % 100 != 0 {
            out.push((0x30 + (rest / 10 % 10) as u8) as char);
            if rest % 10 != 0 {
                out.push((0x30 + (rest % 10) as u8) as char);
            }
        }
    }
    assert(out@ =~= whole + fraction_text(rest));
    out.append("s");
    out
}

impl ErrorView {
    pub open spec fn is_timeout(self) -> bool {
        self is Timeout || self is EmptyResponse
    }

    pub open spec fn text(self) -> Seq<char> {
        match self {
            ErrorView::NoDevice => "no supported Razer device found"@,
            ErrorView::PermissionDenied { path } => "permission denied opening "@ + path
                + " (the udev rule is not installed, see README)"@,
            ErrorView::Disconnected => "device disconnected"@,
            ErrorView::Timeout { cmd, timeout_ms } => "no response to command 0x"@ + upper_hex2(cmd) + " within "@
                + duration_text(timeout_ms),
            ErrorView::EmptyResponse { cmd } => "empty response to command 0x"@ + upper_hex2(cmd),
            ErrorView::HeadsetOffline => "the headset is not connected to the dongle (powered off or out of range)"@,
            ErrorView::InvalidArgument(text) => "invalid argument: "@ + text,
            ErrorView::Protocol(text) => "protocol error: "@ + text,
            ErrorView::Io(io) => io.message,
        }
    }
}

/// A device is gone exactly if the system says so with one of four numbers,
/// three of which are the same on every machine.
pub proof fn gone_devices_are_told_by_number(codes: GoneCodes, code: i32)
    ensures
        codes.has(codes.enodev) && codes.has(codes.eshutdown) && codes.has(codes.enxio) && codes.has(codes.eio),
        codes.has(code) ==> code == codes.enodev || code == codes.eshutdown || code == codes.enxio || code == codes.eio,
        always_gone(code) <==> code == 5 || code == 6 || code == 19,
        shutdown_somewhere(code) <==> code == 108 || code == 143 || code == 58,
{
}

/// A command that went unanswered is one without a reply or with an empty
/// one, and only that.
pub proof fn unanswered_is_told_apart(e: ErrorView)
    ensures
        e.is_timeout() <==> (e matches ErrorView::Timeout { .. }) || (e matches ErrorView::EmptyResponse { .. }),
{
}

/// Times are told in the unit that fits: nothing, milliseconds below a second,
/// seconds from there on, with the rest behind the point unless it is zero.
pub proof fn times_are_told_in_their_unit(ms: u64)
    ensures
        0 < ms < 1000 ==> duration_text(ms) == dec(ms as nat) + "ms"@,
        ms >= 1000 && ms % 1000 == 0 ==> duration_text(ms) == dec((ms / 1000) as nat) + "s"@,
        ms >= 1000 && ms % 1000 != 0 ==> fraction_text(ms % 1000).len() >= 2 && fraction_text(ms % 1000)[0] == '.'
            && fraction_text(ms % 1000).last() != '0' && duration_text(ms) == dec((ms / 1000) as nat)
            + fraction_text(ms % 1000) + "s"@,
{
    if ms >= 1000 && ms % 1000 == 0 {
        assert(dec((ms / 1000) as nat) + fraction_text(ms % 1000) =~= dec((ms / 1000) as nat));
    }
}

/// The digits behind the point are the thousandths, without zeros at the end.
pub proof fn fractions_read_back(thousandths: u64)
    requires
        0 < thousandths < 1000,
    ensures
        ({
            let digits = fraction_text(thousandths).skip(1);
            &&& digits.len() == 1 ==> digits_value(digits, 10) == Some((thousandths / 100) as nat) && thousandths % 100
                == 0
            &&& digits.len() == 2 ==> digits_value(digits, 10) == Some((thousandths / 10) as nat) && thousandths % 10
                == 0
            &&& digits.len() == 3 ==> digits_value(digits, 10) == Some(thousandths as nat)
            &&& 1 <= digits.len() <= 3
        }),
{
    let text = fraction_text(thousandths);
    let digits = text.skip(1);
    reveal_with_fuel(digits_value, 4);
    let a = digit_char((thousandths / 100) as int);
    let b = digit_char((thousandths / 10 % 10) as int);
    let c = digit_char((thousandths % 10) as int);
    if digits.len() == 1 {
        assert(digits =~= seq![a]);
        assert(digits.drop_last() =~= seq![]);
    } else if digits.len() == 2 {
        assert(digits =~= seq![a, b]);
        assert(digits.drop_last() =~= seq![a]);
        assert(digits.drop_last().drop_last() =~= seq![]);
    } else {
        assert(digits =~= seq![a, b, c]);
        assert(digits.drop_last() =~= seq![a, b]);
        assert(digits.drop_last().drop_last() =~= seq![a]);
        assert(digits.drop_last().drop_last().drop_last() =~= seq![]);
    }
}

impl Error {
    /// A failed system call as an error, given the numbers that stand for a
    /// device that is gone: the node vanished (unplugged) or the USB link
    /// went down. hidraw's read() reports a removed device as EIO, write()
    /// as ENODEV.
    pub fn from_io_with(io: IoError, codes: GoneCodes) -> (r: Error)
        ensures
            match io.os_code {
                Some(code) if codes.has(code) => r == Error::Disconnected,
                _ => r == Error::Io(io),
            },
    {
        match io.os_code {
            Some(code) => {
                if code == codes.enodev || code == codes.eshutdown || code == codes.enxio || code == codes.eio {
                    Error::Disconnected
                } else {
                    Error::Io(io)
                }
            },
            None => Error::Io(io),
        }
    }

    /// A failed system call as an error, by the numbers of this machine. Which
    /// of the numbers that `ESHUTDOWN` can have is the one here is left open.
    pub fn from_io(io: IoError) -> (r: Error)
        ensures
            io.os_code is None ==> r == Error::Io(io),
            io.os_code matches Some(code) ==> (always_gone(code) ==> r == Error::Disconnected),
            io.os_code matches Some(code) ==> (!always_gone(code) && !shutdown_somewhere(code) ==> r == Error::Io(
                io,
            )),
            r == Error::Disconnected || r == Error::Io(io),
    {
        Error::from_io_with(io, gone_codes())
    }

    /// True when retrying later (e.g. after re-plugging) could help.
    pub fn is_disconnect(&self) -> (r: bool)
        ensures
            r == (self@ is Disconnected),
    {
        matches!(self, Error::Disconnected)
    }

    /// True when the command simply went unanswered.
    pub fn is_timeout(&self) -> (r: bool)
        ensures
            r == self@.is_timeout(),
    {
        matches!(self, Error::Timeout { .. } | Error::EmptyResponse { .. })
    }

    /// The error in words.
    pub fn message(&self) -> (r: String)
        ensures
            r@ == self@.text(),
    {
        match self {
            Error::NoDevice => "no supported Razer device found".to_owned(),
            Error::PermissionDenied { path } => {
                let mut out = "permission denied opening ".to_owned();
                out.append(path.as_str());
                out.append(" (the udev rule is not installed, see README)");
                out
            },
            Error::Disconnected => "device disconnected".to_owned(),
            Error::Timeout { cmd, timeout_ms } => {
                let mut out = "no response to command 0x".to_owned();
                push_upper_hex2(&mut out, *cmd);
                out.append(" within ");
                out.append(duration_words(*timeout_ms).as_str());
                out
            },
            Error::EmptyResponse { cmd } => {
                let mut out = "empty response to command 0x".to_owned();
                push_upper_hex2(&mut out, *cmd);
                out
            },
            Error::HeadsetOffline => {
                "the headset is not connected to the dongle (powered off or out of range)".to_owned()
            },
            Error::InvalidArgument(text) => {
                let mut out = "invalid argument: ".to_owned();
                out.append(text.as_str());
                out
            },
            Error::Protocol(text) => {
                let mut out = "protocol error: ".to_owned();
                out.append(text.as_str());
                out
            },
            Error::Io(io) => io.message.clone(),
        }
    }
}

} // verus!
