//! The report channel to a device.

use crate::error::{Error, ErrorView};
use crate::views::err_view;
use vstd::prelude::*;

verus! {

/// One use of a [`Transport`] and what came of it.
#[allow(inconsistent_fields)]
pub enum Event {
    /// The channel was claimed for one exchange.
    Acquired { outcome: Result<(), ErrorView> },
    Released,
    Wrote { report: Seq<u8>, outcome: Result<(), ErrorView> },
    /// A report was waited for; `room` is the longest that fits.
    Read { room: nat, timeout_us: u64, outcome: Result<Option<Seq<u8>>, ErrorView> },
    /// The clock was read.
    Clock { now_us: u64 },
    Paused { ms: u64 },
}

/// What a read into `buf` brought: the first bytes of the buffer, if any.
pub open spec fn read_outcome(r: Result<Option<usize>, Error>, buf: Seq<u8>) -> Result<
    Option<Seq<u8>>,
    ErrorView,
> {
    match r {
        Ok(Some(n)) => Ok(Some(buf.take(n as int))),
        Ok(None) => Ok(None),
        Err(e) => Err(e@),
    }
}

/// A bidirectional HID report channel.
///
/// Reports are exchanged including their leading report ID byte, exactly
/// like `/dev/hidraw*` does for devices with numbered reports.
///
/// What a channel does is up to the device behind it; `history` records
/// every use together with its outcome.
pub trait Transport: Sized {
    /// Everything that was done with the channel so far.
    open spec fn history(&self) -> Seq<Event> {
        Seq::empty()
    }

    /// Can a channel to this device have this history?
    open spec fn admits(&self, history: Seq<Event>) -> bool {
        true
    }

    /// What holds of the channel between any two uses.
    open spec fn wf(&self) -> bool {
        true
    }

    /// Send one output report (first byte = report ID).
    fn write_report(&mut self, report: &[u8]) -> (r: Result<(), Error>)
        requires
            old(self).wf(),
        ensures
            final(self).wf(),
            forall|h: Seq<Event>| #[trigger] final(self).admits(h) == old(self).admits(h),
            final(self).history() == old(self).history().push(
                Event::Wrote { report: report@, outcome: err_view(r) },
            ),
    ;

    /// Wait up to `timeout_us` microseconds for one input report and copy it
    /// into `buf`.
    ///
    /// Returns `Ok(None)` when nothing arrived in time. A zero timeout only
    /// returns reports that are already queued.
    fn read_report(&mut self, buf: &mut [u8], timeout_us: u64) -> (r: Result<Option<usize>, Error>)
        requires
            old(self).wf(),
        ensures
            final(self).wf(),
            forall|h: Seq<Event>| #[trigger] final(self).admits(h) == old(self).admits(h),
            final(buf)@.len() == old(buf)@.len(),
            r matches Ok(Some(n)) ==> n <= final(buf)@.len(),
            final(self).history() == old(self).history().push(
                Event::Read {
                    room: old(buf)@.len(),
                    timeout_us,
                    outcome: read_outcome(r, final(buf)@),
                },
            ),
    ;

    /// A clock that never runs backwards, in microseconds.
    fn now_us(&mut self) -> (now_us: u64)
        requires
            old(self).wf(),
        ensures
            final(self).wf(),
            forall|h: Seq<Event>| #[trigger] final(self).admits(h) == old(self).admits(h),
            final(self).history() == old(self).history().push(Event::Clock { now_us }),
    ;

    /// Give the device `ms` milliseconds.
    fn pause(&mut self, ms: u64)
        requires
            old(self).wf(),
        ensures
            final(self).wf(),
            forall|h: Seq<Event>| #[trigger] final(self).admits(h) == old(self).admits(h),
            final(self).history() == old(self).history().push(Event::Paused { ms }),
    ;

    /// Keep other processes off the device for one exchange.
    fn acquire(&mut self) -> (r: Result<(), Error>)
        requires
            old(self).wf(),
        ensures
            final(self).wf(),
            forall|h: Seq<Event>| #[trigger] final(self).admits(h) == old(self).admits(h),
            final(self).history() == old(self).history().push(Event::Acquired { outcome: err_view(r) }),
    ;

    /// Let other processes use the device again.
    fn release(&mut self)
        requires
            old(self).wf(),
        ensures
            final(self).wf(),
            forall|h: Seq<Event>| #[trigger] final(self).admits(h) == old(self).admits(h),
            final(self).history() == old(self).history().push(Event::Released),
    ;

    /// Name used to serialize access between processes (e.g. `hidraw3`).
    /// `None` disables cross-process locking, and is what a channel says that
    /// does not name itself.
    fn lock_key(&self) -> (key: Option<String>)
        default_ensures
            key is None,
    {
        None
    }
}

} // verus!
