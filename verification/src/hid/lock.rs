//! Cross-process serialization of device transactions: the rules.
//!
//! Every process that opens a hidraw node receives a copy of every input
//! report. The GUI, the tray and `synapsectl` may run at the same time, so a
//! request/response exchange is wrapped in an exclusive `flock(2)` on a small
//! lock file in `$XDG_RUNTIME_DIR`. The kernel drops the lock automatically if
//! a process dies.

use crate::error::{IoError, IoErrorView};
use crate::hid::sysfs::{below, join_path};
use crate::text::{chars_of, dec, decimal};
use vstd::prelude::*;
use vstd::string::*;

verus! {

/// How long to wait for the lock (milliseconds).
pub const LOCK_TIMEOUT_MS: u64 = 3000;

/// How long to wait between two attempts (milliseconds).
pub const RETRY_MS: u64 = 3;

/// May `c` stand in the name of a lock file?
pub open spec fn is_safe(c: char) -> bool {
    let u = c as u32;
    ||| 0x30 <= u <= 0x39
    ||| 0x41 <= u <= 0x5A
    ||| 0x61 <= u <= 0x7A
    ||| c == '-'
    ||| c == '_'
}

/// `key` with everything but ASCII letters, digits, `-` and `_` replaced.
pub open spec fn safe_name(key: Seq<char>) -> Seq<char> {
    key.map_values(
        |c: char|
            if is_safe(c) {
                c
            } else {
                '_'
            },
    )
}

/// Name of the lock file for `key`.
pub fn lock_file_name(key: &str) -> (r: String)
    ensures
        r@ == safe_name(key@) + ".lock"@,
{
    let chars = chars_of(key);
    let mut out = String::new();
    let mut i: usize = 0;
    while i < chars.len()
        invariant
            i <= chars@.len(),
            out@ == safe_name(chars@.take(i as int)),
        decreases chars@.len() - i,
    {
        let c = chars[i];
        let u: u32 = c as u32;
        let safe = (0x30 <= u && u <= 0x39) || (0x41 <= u && u <= 0x5A) || (0x61 <= u && u <= 0x7A) || c == '-'
            || c == '_';
        out.push(
            if safe {
                c
            } else {
                '_'
            },
        );
        i += 1;
        assert(out@ =~= safe_name(chars@.take(i as int)));
    }
    assert(chars@.take(i as int) =~= key@);
    out.append(".lock");
    out
}

/// A lock file's name stays inside its directory: it holds no `/`.
pub proof fn lock_names_have_no_slash(key: Seq<char>)
    ensures
        forall|i: int| 0 <= i < safe_name(key).len() ==> #[trigger] safe_name(key)[i] != '/',
{
}

/// A safe character stays as it is, so two devices with safe names never
/// share a lock; any other character becomes an underscore.
pub proof fn safe_names_stay(key: Seq<char>, i: int, c: char)
    requires
        0 <= i < key.len(),
        key[i] == c,
    ensures
        safe_name(key).len() == key.len(),
        'a' <= c <= 'z' || 'A' <= c <= 'Z' || '0' <= c <= '9' || c == '-' || c == '_' ==> safe_name(key)[i] == c,
        !('a' <= c <= 'z' || 'A' <= c <= 'Z' || '0' <= c <= '9' || c == '-' || c == '_') ==> safe_name(key)[i] == '_',
{
}

/// Where lock files are kept, given `$XDG_RUNTIME_DIR`, the directory for
/// temporary files and the user's number.
pub fn lock_dir(runtime_dir: Option<&str>, temp_dir: &str, uid: u32) -> (r: String)
    ensures
        r@ == match runtime_dir {
            Some(dir) if dir@.len() > 0 => below(dir@, "synapse-linux"@),
            _ => below(temp_dir@, "synapse-linux-"@ + dec(uid as nat)),
        },
        (runtime_dir matches Some(dir) && dir@.len() > 0) ==> r@ == below(runtime_dir->0@, "synapse-linux"@),
        runtime_dir is None ==> r@ == below(temp_dir@, "synapse-linux-"@ + dec(uid as nat)),
{
    match runtime_dir {
        Some(dir) => {
            if !dir.is_empty() {
                return join_path(dir, "synapse-linux");
            }
        },
        None => {},
    }
    let mut name = "synapse-linux-".to_owned();
    name.append(decimal(uid as u64).as_str());
    join_path(temp_dir, name.as_str())
}

/// How an attempt to take the lock ended.
#[derive(Debug, Clone, Copy, PartialEq, Eq)]
pub enum Attempt {
    Locked,
    /// Someone else holds it.
    Busy,
    Interrupted,
    Failed,
}

/// What to do after an attempt.
#[derive(Debug, Clone, Copy, PartialEq, Eq)]
pub enum LockStep {
    Done,
    /// Wait [`RETRY_MS`] and try again.
    Retry,
    /// Give up: the device is busy.
    Busy,
    /// Give up with the system's own error.
    Fail,
}

/// A lock that is held, and an interrupted call, are tried again until the
/// deadline.
pub fn lock_step(attempt: Attempt, before_deadline: bool) -> (step: LockStep)
    ensures
        step == match attempt {
            Attempt::Locked => LockStep::Done,
            Attempt::Busy => if before_deadline {
                LockStep::Retry
            } else {
                LockStep::Busy
            },
            Attempt::Interrupted => if before_deadline {
                LockStep::Retry
            } else {
                LockStep::Fail
            },
            Attempt::Failed => LockStep::Fail,
        },
        step is Done <==> attempt is Locked,
        step is Retry <==> before_deadline && (attempt is Busy || attempt is Interrupted),
        step is Busy <==> !before_deadline && attempt is Busy,
{
    match attempt {
        Attempt::Locked => LockStep::Done,
        Attempt::Busy => {
            if before_deadline {
                LockStep::Retry
            } else {
                LockStep::Busy
            }
        },
        Attempt::Interrupted => {
            if before_deadline {
                LockStep::Retry
            } else {
                LockStep::Fail
            }
        },
        Attempt::Failed => LockStep::Fail,
    }
}

/// What a lock that stays held is reported as.
pub fn busy_error() -> (r: IoError)
    ensures
        r@ == (IoErrorView {
            os_code: None,
            timed_out: true,
            message: "device is busy (locked by another process)"@,
        }),
{
    IoError {
        os_code: None,
        timed_out: true,
        message: "device is busy (locked by another process)".to_owned(),
    }
}

} // verus!
