//! What this device was asked to say, and what became of it.
//!
//! Recorded whether or not it was spoken. A message that arrived while the
//! device was muted is exactly the one worth keeping: it is the only record
//! that it ever came, and without it muting a device silently discards
//! things people meant you to hear.
//!
//! Held in memory, newest last; reading and writing the file is the
//! caller's.

use vstd::prelude::*;

use crate::proto::{Priority, Status};
use crate::strs::{chars_of, slice, str_eq, string_of};

verus! {

/// How many messages to keep: a day's worth to scroll back through, without
/// becoming a log nobody prunes. The oldest fall off the end.
pub const KEEP: usize = 200;

/// A ceiling on one entry's text, in UTF-8 bytes, so a spoken document
/// cannot grow the file without limit.
pub const MAX_TEXT: usize = 100_000;

/// One message this device was asked to speak.
#[derive(Debug, Clone)]
pub struct Entry {
    /// Identifies the message, and addresses it for replay.
    pub msg_id: String,
    /// What was said, or would have been.
    pub text: String,
    /// The device it came from. This device's own name for a local message.
    pub from: String,
    /// Unix seconds when it arrived.
    pub at: u64,
    /// How it ended. `Muted` and `QuietHours` are the interesting ones.
    pub status: Status,
    /// The urgency it was sent with.
    pub priority: Priority,
    /// Which space it came in, when this device belongs to more than one.
    pub space: Option<String>,
}

/// An outcome that means nobody heard it.
pub open spec fn is_unheard(s: Status) -> bool {
    s is Muted || s is QuietHours || s is Dropped || s is Cancelled
}

impl Entry {
    /// Whether this message was never actually heard.
    ///
    /// The reason history exists: these are the ones someone has to go back
    /// and read.
    pub fn unheard(&self) -> (r: bool)
        ensures
            r == is_unheard(self.status),
    {
        match self.status {
            Status::Muted | Status::QuietHours | Status::Dropped | Status::Cancelled => true,
            _ => false,
        }
    }
}

/// An entry with its text replaced.
pub open spec fn with_text(e: Entry, text: String) -> Entry {
    Entry { text, ..e }
}

/// An entry with its outcome replaced.
pub open spec fn with_status(e: Entry, status: Status) -> Entry {
    Entry { status, ..e }
}

/// A copy of an entry, field for field.
pub fn copy_entry(e: &Entry) -> (r: Entry)
    ensures
        r == *e,
{
    Entry {
        msg_id: e.msg_id.clone(),
        text: e.text.clone(),
        from: e.from.clone(),
        at: e.at,
        status: e.status,
        priority: e.priority,
        space: match &e.space {
            Some(s) => Some(s.clone()),
            None => None,
        },
    }
}

// ------------------------------------------------------------ byte lengths

/// How many bytes UTF-8 spends on one character.
pub open spec fn char_len(c: char) -> nat {
    let u = c as u32;
    if u < 0x80 {
        1
    } else if u < 0x800 {
        2
    } else if u < 0x10000 {
        3
    } else {
        4
    }
}

/// How many bytes UTF-8 spends on a text.
pub open spec fn utf8_len(s: Seq<char>) -> nat
    decreases s.len(),
{
    if s.len() == 0 {
        0
    } else {
        utf8_len(s.drop_last()) + char_len(s.last())
    }
}

/// Whether a text can be cut at exactly `max` bytes, or need not be cut.
pub open spec fn cuttable(s: Seq<char>, max: nat) -> bool {
    utf8_len(s) <= max || exists|k: int| 0 <= k <= s.len() && utf8_len(#[trigger] s.take(k)) == max
}

/// A text cut to at most `max` bytes, which `cuttable` says lands between
/// characters.
pub open spec fn bounded(s: Seq<char>, max: nat) -> Seq<char> {
    if utf8_len(s) <= max {
        s
    } else {
        s.take(choose|k: int| 0 <= k <= s.len() && utf8_len(#[trigger] s.take(k)) == max)
    }
}

proof fn lemma_utf8_len_step(s: Seq<char>, k: int)
    requires
        0 <= k < s.len(),
    ensures
        utf8_len(s.take(k + 1)) == utf8_len(s.take(k)) + char_len(s[k]),
{
    assert(s.take(k + 1).drop_last() =~= s.take(k));
}

proof fn lemma_utf8_len_grows(s: Seq<char>, i: int, j: int)
    requires
        0 <= i < j <= s.len(),
    ensures
        utf8_len(s.take(i)) < utf8_len(s.take(j)),
    decreases j - i,
{
    lemma_utf8_len_step(s, j - 1);
    if i < j - 1 {
        lemma_utf8_len_grows(s, i, j - 1);
    }
}

fn char_bytes(c: char) -> (r: u64)
    ensures
        r == char_len(c),
{
    let u = c as u32;
    if u < 0x80 {
        1
    } else if u < 0x800 {
        2
    } else if u < 0x10000 {
        3
    } else {
        4
    }
}

/// Whether [`History::record`] can take this text: it is at most
/// `MAX_TEXT` bytes, or a character ends exactly there so the cut falls
/// between characters. A text cut would split a character at that point is
/// one the history will not keep.
pub fn can_record(text: &str) -> (r: bool)
    ensures
        r == cuttable(text@, MAX_TEXT as nat),
{
    let cs = chars_of(text);
    let mut k: usize = 0;
    let mut total: u64 = 0;
    assert(cs@.take(0) =~= Seq::<char>::empty());
    while k < cs.len()
        invariant
            cs@ == text@,
            k <= cs@.len(),
            total == utf8_len(cs@.take(k as int)),
            total <= MAX_TEXT,
        decreases cs.len() - k,
    {
        let n = char_bytes(cs[k]);
        proof {
            lemma_utf8_len_step(cs@, k as int);
        }
        if total + n > MAX_TEXT as u64 {
            proof {
                let s = cs@;
                let max = MAX_TEXT as nat;
                assert(s.take(s.len() as int) =~= s);
                if k + 1 < s.len() {
                    lemma_utf8_len_grows(s, k as int + 1, s.len() as int);
                }
                assert(utf8_len(s) > max);
                if total < MAX_TEXT {
                    assert forall|j: int| 0 <= j <= s.len() implies utf8_len(#[trigger] s.take(j)) != max by {
                        if j < k {
                            lemma_utf8_len_grows(s, j, k as int);
                        } else if j > k + 1 {
                            lemma_utf8_len_grows(s, k as int + 1, j);
                        }
                    }
                }
            }
            return total == MAX_TEXT as u64;
        }
        total = total + n;
        k += 1;
    }
    assert(cs@.take(cs@.len() as int) =~= cs@);
    true
}

/// The text cut to at most `MAX_TEXT` bytes.
fn bound_text(t: &String) -> (r: String)
    requires
        cuttable(t@, MAX_TEXT as nat),
    ensures
        r@ == bounded(t@, MAX_TEXT as nat),
{
    let cs = chars_of(t.as_str());
    let mut k: usize = 0;
    let mut total: u64 = 0;
    assert(cs@.take(0) =~= Seq::<char>::empty());
    while k < cs.len()
        invariant
            cs@ == t@,
            cuttable(t@, MAX_TEXT as nat),
            k <= cs@.len(),
            total == utf8_len(cs@.take(k as int)),
            total <= MAX_TEXT,
        decreases cs.len() - k,
    {
        let n = char_bytes(cs[k]);
        proof {
            lemma_utf8_len_step(cs@, k as int);
        }
        if total + n > MAX_TEXT as u64 {
            proof {
                let s = cs@;
                let max = MAX_TEXT as nat;
                assert(s.take(s.len() as int) =~= s);
                if k + 1 < s.len() {
                    lemma_utf8_len_grows(s, k as int + 1, s.len() as int);
                }
                assert(utf8_len(s) > max);
                let j = choose|j: int| 0 <= j <= s.len() && utf8_len(#[trigger] s.take(j)) == max;
                assert(0 <= j <= s.len() && utf8_len(s.take(j)) == max);
                if j < k {
                    lemma_utf8_len_grows(s, j, k as int);
                } else if j > k + 1 {
                    lemma_utf8_len_grows(s, k as int + 1, j);
                }
                assert(j == k);
            }
            let kept = slice(&cs, 0, k);
            assert(kept@ =~= cs@.take(k as int));
            return string_of(&kept);
        }
        total = total + n;
        k += 1;
    }
    assert(cs@.take(cs@.len() as int) =~= cs@);
    t.clone()
}

// ------------------------------------------------------------ the history

/// Recent messages, newest last.
#[derive(Debug)]
pub struct History {
    entries: Vec<Entry>,
}

/// The last `KEEP` of a list.
pub open spec fn kept(s: Seq<Entry>) -> Seq<Entry> {
    if s.len() > KEEP {
        s.skip(s.len() - KEEP)
    } else {
        s
    }
}

/// Where the newest entry with this id sits.
pub open spec fn newest_with(s: Seq<Entry>, msg_id: Seq<char>, i: int) -> bool {
    &&& 0 <= i < s.len()
    &&& s[i].msg_id@ == msg_id
    &&& forall|j: int| i < j < s.len() ==> (#[trigger] s[j]).msg_id@ != msg_id
}

/// Whether any entry has this id.
pub open spec fn holds_id(s: Seq<Entry>, msg_id: Seq<char>) -> bool {
    exists|i: int| 0 <= i < s.len() && (#[trigger] s[i]).msg_id@ == msg_id
}

impl History {
    /// The messages held, oldest first.
    pub closed spec fn items(&self) -> Seq<Entry> {
        self.entries@
    }

    /// Nothing held.
    pub fn new() -> (r: Self)
        ensures
            r.items().len() == 0,
    {
        History { entries: Vec::new() }
    }

    /// Rebuild from stored entries, oldest first.
    pub fn from_entries(entries: Vec<Entry>) -> (r: Self)
        ensures
            r.items() == entries@,
    {
        History { entries }
    }

    /// Every entry held, oldest first, for storing.
    pub fn entries(&self) -> (r: &Vec<Entry>)
        ensures
            r@ == self.items(),
    {
        &self.entries
    }

    /// Add a message, cutting its text to `MAX_TEXT` bytes and dropping the
    /// oldest once more than `KEEP` are held.
    pub fn record(&mut self, entry: Entry)
        requires
            cuttable(entry.text@, MAX_TEXT as nat),
        ensures
            final(self).items().len() == kept(old(self).items().push(entry)).len(),
            forall|i: int|
                0 <= i < final(self).items().len() - 1 ==> #[trigger] final(self).items()[i] == kept(
                    old(self).items().push(entry),
                )[i],
            final(self).items().len() > 0,
            with_text(final(self).items().last(), entry.text) == entry,
            final(self).items().last().text@ == bounded(entry.text@, MAX_TEXT as nat),
    {
        let text = bound_text(&entry.text);
        let mut entry = entry;
        let ghost given = entry;
        entry.text = text;
        let ghost all = self.entries@.push(entry);
        self.entries.push(entry);
        while self.entries.len() > KEEP
            invariant
                self.entries@.len() >= 1,
                all.len() >= self.entries@.len(),
                self.entries@.len() == all.len() || self.entries@.len() >= KEEP,
                self.entries@ == all.skip(all.len() - self.entries@.len()),
            decreases self.entries.len(),
        {
            self.entries.remove(0);
            assert(self.entries@ =~= all.skip(all.len() - self.entries@.len()));
        }
        proof {
            let s = old(self).entries@.push(given);
            assert forall|i: int| 0 <= i < self.entries@.len() - 1 implies #[trigger] self.entries@[i]
                == kept(s)[i] by {
                let off = all.len() - self.entries@.len();
                assert(self.entries@[i] == all[i + off]);
                assert(all[i + off] == s[i + off]);
                if s.len() > KEEP {
                    assert(off == s.len() - KEEP);
                } else {
                    assert(off == 0);
                }
            }
            assert(self.entries@.last() == all.last());
        }
    }

    /// Update how a message ended: the newest entry with this id.
    ///
    /// Separate from recording because most messages are accepted long
    /// before they are spoken. An id that is not held is not an error; it
    /// may have fallen off.
    pub fn set_status(&mut self, msg_id: &str, status: Status)
        ensures
            !holds_id(old(self).items(), msg_id@) ==> final(self).items() == old(self).items(),
            forall|i: int|
                newest_with(old(self).items(), msg_id@, i) ==> final(self).items() == old(
                    self,
                ).items().update(i, with_status(old(self).items()[i], status)),
    {
        let mut i: usize = self.entries.len();
        while i > 0
            invariant
                i <= self.entries@.len(),
                self.entries@ == old(self).entries@,
                forall|j: int| i <= j < self.entries@.len() ==> (#[trigger] self.entries@[j]).msg_id@ != msg_id@,
            decreases i,
        {
            if str_eq(self.entries[i - 1].msg_id.as_str(), msg_id) {
                let ghost before = self.entries@;
                let mut e = self.entries.remove(i - 1);
                e.status = status;
                self.entries.insert(i - 1, e);
                proof {
                    assert(self.entries@ =~= before.update(i - 1, with_status(before[i - 1], status)));
                    assert forall|k: int| newest_with(before, msg_id@, k) implies k == i - 1 by {
                        if k < i - 1 {
                            assert(before[i - 1].msg_id@ == msg_id@);
                        }
                    }
                }
                return;
            }
            i -= 1;
        }
    }

    /// One message, for replaying it: the newest with this id.
    pub fn get(&self, msg_id: &str) -> (r: Option<&Entry>)
        ensures
            r.is_some() == holds_id(self.items(), msg_id@),
            r.is_some() ==> exists|i: int|
                newest_with(self.items(), msg_id@, i) && *r.unwrap() == #[trigger] self.items()[i],
    {
        let mut i: usize = self.entries.len();
        while i > 0
            invariant
                i <= self.entries@.len(),
                forall|j: int| i <= j < self.entries@.len() ==> (#[trigger] self.entries@[j]).msg_id@ != msg_id@,
            decreases i,
        {
            if str_eq(self.entries[i - 1].msg_id.as_str(), msg_id) {
                assert(newest_with(self.entries@, msg_id@, i - 1));
                return Some(&self.entries[i - 1]);
            }
            i -= 1;
        }
        None
    }

    /// Recent messages, newest first, at most `limit`.
    pub fn recent(&self, limit: usize) -> (r: Vec<Entry>)
        ensures
            r@.len() == if limit < self.items().len() {
                limit as int
            } else {
                self.items().len() as int
            },
            forall|i: int| 0 <= i < r@.len() ==> #[trigger] r@[i] == self.items()[self.items().len() - 1 - i],
    {
        let n = self.entries.len();
        let mut r: Vec<Entry> = Vec::new();
        let mut i: usize = 0;
        while i < n && i < limit
            invariant
                n == self.entries@.len(),
                i <= n,
                i <= limit,
                r@.len() == i,
                forall|j: int| 0 <= j < i ==> #[trigger] r@[j] == self.entries@[n - 1 - j],
            decreases n - i,
        {
            r.push(copy_entry(&self.entries[n - 1 - i]));
            i += 1;
        }
        r
    }

    /// Forget everything.
    pub fn clear(&mut self)
        ensures
            final(self).items().len() == 0,
    {
        self.entries.clear();
    }
}

impl Default for History {
    fn default() -> (r: Self)
        ensures
            r.items().len() == 0,
    {
        History::new()
    }
}

/// However much arrives, the history never holds more than `KEEP`, and the
/// newest message is always among what it holds.
pub proof fn law_the_history_is_bounded(held: Seq<Entry>, e: Entry)
    ensures
        kept(held.push(e)).len() <= KEEP,
        kept(held.push(e)).last() == e,
{
}

/// What was recorded last is what its id finds: a message just recorded is
/// the one a replay of that id plays, whatever older message shared the id.
pub proof fn law_the_last_recorded_is_the_one_found(after: Seq<Entry>, e: Entry)
    requires
        after.len() > 0,
        with_text(after.last(), e.text) == e,
    ensures
        holds_id(after, e.msg_id@),
        newest_with(after, e.msg_id@, after.len() - 1),
{
    assert(after[after.len() - 1].msg_id == e.msg_id);
}

/// The one-slot mailbox between whoever records history and the thread
/// that writes it to disk.
///
/// The slot holds the *latest* snapshot rather than a queue of them, which
/// is what makes a burst of outcomes cost one write instead of five: an
/// older snapshot that has not been written yet is not a lost update, it is
/// a state the newer one already contains. Waiting, waking and the write
/// itself belong to whoever holds the slot; every decision about what is
/// written, and when a flush may return, is made here.
pub struct SaveSlot {
    pending: Option<Vec<u8>>,
    stopping: bool,
    queued: u64,
    written: u64,
}

/// What a slot holds, as plain values.
pub struct SlotView {
    /// The newest snapshot not yet taken by the writer.
    pub pending: Option<Seq<u8>>,
    /// Whether the writer has been told to finish.
    pub stopping: bool,
    /// How many snapshots have been handed over.
    pub queued: nat,
    /// The highest count whose snapshot has reached the writer's end.
    ///
    /// Not a count of writes: one write can satisfy several handovers, since
    /// the snapshot taken carries whatever every earlier one contained.
    pub written: nat,
}

/// What the writer does next.
pub enum WriterStep {
    /// Write these bytes, then report the count that goes with them.
    Write(Vec<u8>, u64),
    /// Nothing is pending and the slot is stopping: the writer ends.
    Stop,
    /// Nothing to do yet: wait to be woken.
    Wait,
}

/// Optional bytes as plain values.
pub open spec fn bytes_view(b: Option<Vec<u8>>) -> Option<Seq<u8>> {
    match b {
        Some(v) => Some(v@),
        None => None,
    }
}

/// A slot after a snapshot is handed over: it replaces whatever was pending.
pub open spec fn after_put(s: SlotView, bytes: Seq<u8>) -> SlotView {
    SlotView { pending: Some(bytes), queued: s.queued + 1, ..s }
}

/// A slot after the writer has looked at it: a pending snapshot is taken.
pub open spec fn after_step(s: SlotView) -> SlotView {
    SlotView { pending: None, ..s }
}

/// A slot after the writer reports the count that went with what it wrote.
pub open spec fn after_written(s: SlotView, mark: nat) -> SlotView {
    SlotView { written: if mark > s.written { mark } else { s.written }, ..s }
}

/// A slot after it is told to finish.
pub open spec fn after_stop(s: SlotView) -> SlotView {
    SlotView { stopping: true, ..s }
}

/// What the writer does on looking at a slot, as plain values: the newest
/// pending snapshot with the count so far, or stop, or wait.
pub open spec fn step_of(s: SlotView) -> Option<(Seq<u8>, nat)> {
    match s.pending {
        Some(b) => Some((b, s.queued)),
        None => None,
    }
}

/// The writer is finished with the slot.
pub open spec fn stops(s: SlotView) -> bool {
    s.pending is None && s.stopping
}

/// A flush begun when `want` snapshots had been handed over may return.
pub open spec fn flushed(s: SlotView, want: nat) -> bool {
    s.written >= want
}

impl SaveSlot {
    /// The slot as plain values.
    pub closed spec fn view(&self) -> SlotView {
        SlotView {
            pending: bytes_view(self.pending),
            stopping: self.stopping,
            queued: self.queued as nat,
            written: self.written as nat,
        }
    }

    /// Nothing written can be ahead of what was handed over.
    pub closed spec fn wf(&self) -> bool {
        self.written <= self.queued
    }

    /// An empty slot, with nothing handed over.
    pub fn new() -> (r: Self)
        ensures
            r.wf(),
            r.view() == (SlotView { pending: None, stopping: false, queued: 0, written: 0 }),
    {
        SaveSlot { pending: None, stopping: false, queued: 0, written: 0 }
    }

    /// How many snapshots have been handed over: what a flush waits for.
    pub fn queued(&self) -> (r: u64)
        ensures
            r == self.view().queued,
    {
        self.queued
    }

    /// Hand over the latest snapshot, replacing any not yet written.
    pub fn put(&mut self, bytes: Vec<u8>)
        requires
            old(self).wf(),
            old(self).view().queued < u64::MAX,
        ensures
            final(self).wf(),
            final(self).view() == after_put(old(self).view(), bytes@),
    {
        self.pending = Some(bytes);
        self.queued = self.queued + 1;
    }

    /// Tell the writer to finish once nothing is left pending.
    pub fn stop(&mut self)
        requires
            old(self).wf(),
        ensures
            final(self).wf(),
            final(self).view() == after_stop(old(self).view()),
    {
        self.stopping = true;
    }

    /// The writer's next step: take the pending snapshot with the count it
    /// answers to; with nothing pending, stop if asked to, else wait.
    pub fn next_step(&mut self) -> (r: WriterStep)
        requires
            old(self).wf(),
        ensures
            final(self).wf(),
            final(self).view() == after_step(old(self).view()),
            match r {
                WriterStep::Write(b, mark) => step_of(old(self).view()) == Some((b@, mark as nat)),
                WriterStep::Stop => step_of(old(self).view()) is None && stops(old(self).view()),
                WriterStep::Wait => step_of(old(self).view()) is None && !stops(old(self).view()),
            },
    {
        match self.pending.take() {
            Some(bytes) => WriterStep::Write(bytes, self.queued),
            None => {
                if self.stopping {
                    WriterStep::Stop
                } else {
                    WriterStep::Wait
                }
            },
        }
    }

    /// The writer got to the snapshot that answered to `mark`, written or
    /// not: a failure has been reported already, and waiting longer will not
    /// mend it.
    pub fn wrote(&mut self, mark: u64)
        requires
            old(self).wf(),
            mark <= old(self).view().queued,
        ensures
            final(self).wf(),
            final(self).view() == after_written(old(self).view(), mark as nat),
    {
        if mark > self.written {
            self.written = mark;
        }
    }

    /// Whether a flush begun when `want` snapshots had been handed over may
    /// return.
    pub fn flushed(&self, want: u64) -> (r: bool)
        ensures
            r == flushed(self.view(), want as nat),
    {
        self.written >= want
    }
}

/// A burst of snapshots lands as the last one: of two handed over before
/// the writer looks, the writer takes the newer, with the count of both.
pub proof fn law_a_burst_lands_as_the_last_one(s: SlotView, first: Seq<u8>, second: Seq<u8>)
    ensures
        step_of(after_put(after_put(s, first), second)) == Some((second, s.queued + 2)),
{
}

/// Once the writer reports the snapshot it took, a flush begun at any
/// moment before that snapshot was taken returns.
pub proof fn law_a_flush_returns_once_the_taken_snapshot_is_written(s: SlotView, want: nat)
    requires
        want <= s.queued,
        s.pending is Some,
    ensures
        flushed(after_written(after_step(s), step_of(s)->Some_0.1), want),
{
}

/// What was counted written never goes back.
pub proof fn law_written_never_goes_back(s: SlotView, mark: nat, want: nat)
    requires
        flushed(s, want),
    ensures
        flushed(after_written(s, mark), want),
{
}

/// The writer never stops with a snapshot still pending: stopping the slot
/// after a handover still has the writer write it first.
pub proof fn law_a_stopped_slot_still_writes_what_was_pending(s: SlotView, bytes: Seq<u8>)
    ensures
        !stops(after_stop(after_put(s, bytes))),
        step_of(after_stop(after_put(s, bytes))) == Some((bytes, s.queued + 1)),
        stops(after_step(after_stop(after_put(s, bytes)))),
{
}

/// A message nobody heard is marked unheard, and one that was or is being
/// heard is not: muted, refused in quiet hours, dropped and cancelled
/// messages are the ones someone has to go back and read; spoken, queued
/// and speaking ones are not, nor are those refused for want of an engine,
/// a reachable device or permission, which the sender was told about.
pub proof fn law_what_nobody_heard_is_marked_unheard(e: Entry)
    ensures
        e.status == Status::Muted ==> is_unheard(e.status),
        e.status == Status::QuietHours ==> is_unheard(e.status),
        e.status == Status::Dropped ==> is_unheard(e.status),
        e.status == Status::Cancelled ==> is_unheard(e.status),
        e.status == Status::Spoken ==> !is_unheard(e.status),
        e.status == Status::Queued ==> !is_unheard(e.status),
        e.status == Status::Speaking ==> !is_unheard(e.status),
        e.status == Status::NoEngine ==> !is_unheard(e.status),
        e.status == Status::Unreachable ==> !is_unheard(e.status),
        e.status == Status::Rejected ==> !is_unheard(e.status),
{
}

} // verus!
