//! An engine that keeps looking for a real one.
//!
//! Discovery used to run once, at startup, and its answer was kept for the
//! life of the process: a device told a synthesiser was not installed kept
//! saying so after it had been installed. This keeps the reason, and looks
//! again — at most once every [`RETRY_MS`] — until something answers. Once
//! an engine is found it is kept: re-probing forever would search the disk
//! on every utterance for no reason.
//!
//! Times are milliseconds on whatever monotonic clock the caller reads.

use vstd::prelude::*;

verus! {

/// How often to look again while there is still nothing, in milliseconds:
/// far below how long it takes a person to install something and try again,
/// far above the cost of looking.
pub const RETRY_MS: u64 = 2000;

/// Reports why it cannot speak, and keeps checking whether that is still so.
pub struct Rediscovering<E> {
    /// Why there is nothing yet, in the words the sender should read.
    reason: String,
    found: Option<E>,
    /// When it is worth looking again.
    next_try: u64,
}

impl<E> Rediscovering<E> {
    /// Why there is nothing yet.
    pub closed spec fn reason_text(&self) -> Seq<char> {
        self.reason@
    }

    /// The engine found so far.
    pub closed spec fn engine_found(&self) -> Option<E> {
        self.found
    }

    /// When it is next worth looking.
    pub closed spec fn due(&self) -> u64 {
        self.next_try
    }

    /// Nothing found yet, for `reason`, worth looking from `now`.
    pub fn new(reason: String, now: u64) -> (r: Self)
        ensures
            r.reason_text() == reason@,
            r.engine_found() is None,
            r.due() == now,
    {
        Rediscovering { reason, found: None, next_try: now }
    }

    /// Look for an engine at `now`, running `probe` only when nothing has
    /// been found and the last look is at least [`RETRY_MS`] old. Whether
    /// an engine is there afterwards.
    pub fn look<F: FnOnce() -> Option<E>>(&mut self, now: u64, probe: F) -> (r: bool)
        requires
            now <= u64::MAX - RETRY_MS,
            old(self).engine_found() is None && now >= old(self).due() ==> call_requires(probe, ()),
        ensures
            final(self).reason_text() == old(self).reason_text(),
            r == final(self).engine_found() is Some,
            old(self).engine_found() is Some ==> final(self).engine_found() == old(self).engine_found()
                && final(self).due() == old(self).due(),
            old(self).engine_found() is None && now < old(self).due() ==> final(self).engine_found() is None
                && final(self).due() == old(self).due(),
            old(self).engine_found() is None && now >= old(self).due() ==> final(self).due() == now + RETRY_MS
                && call_ensures(probe, (), final(self).engine_found()),
    {
        if self.found.is_some() {
            return true;
        }
        if now < self.next_try {
            return false;
        }
        self.next_try = now + RETRY_MS;
        let got = probe();
        let there = got.is_some();
        self.found = got;
        there
    }

    /// The engine, if one has been found.
    pub fn found(&self) -> (r: Option<&E>)
        ensures
            r.is_some() == self.engine_found().is_some(),
            r.is_some() ==> *r.unwrap() == self.engine_found().unwrap(),
    {
        match &self.found {
            Some(e) => Some(e),
            None => None,
        }
    }

    /// Why this device cannot speak yet, in the words a sender reads.
    pub fn reason(&self) -> (r: &str)
        ensures
            r@ == self.reason_text(),
    {
        self.reason.as_str()
    }
}

} // verus!
