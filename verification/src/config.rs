//! Sender-side configuration: defaults and groups.
//!
//! Read by the CLI, never by the node. Groups in particular are deliberately
//! local — they expand to device names before a request is sent, so they
//! never appear in the protocol and two devices need not agree on what
//! "phones" means.

use vstd::prelude::*;

use crate::prefs::Agreement;
use crate::strs::{chars_of, joined, push_joined, split, split_on, str_eq, string_of, trim, trimmed};

verus! {

/// What the config file holds.
#[derive(Debug, Clone)]
pub struct Config {
    /// Where messages go when `--to` is not given.
    pub default_target: Option<String>,
    /// Urgency when `--priority` is not given.
    pub default_priority: Option<String>,
    /// Named sets of devices, each name once (see [`distinct_names`]).
    pub groups: Vec<(String, Vec<String>)>,
    /// How this user wants to be spoken to. See [`crate::prefs`].
    pub agent: Option<Agreement>,
}

/// No two groups share a name, as no two keys of the config's `[groups]`
/// table can.
pub open spec fn distinct_names(groups: Seq<(String, Vec<String>)>) -> bool {
    forall|i: int, j: int| 0 <= i < j < groups.len() ==> (#[trigger] groups[i]).0@ != (#[trigger] groups[j]).0@
}

/// The group called `name`.
pub open spec fn group_index(groups: Seq<(String, Vec<String>)>, name: Seq<char>) -> Option<int> {
    if exists|i: int| 0 <= i < groups.len() && (#[trigger] groups[i]).0@ == name {
        Some(
            choose|i: int|
                0 <= i < groups.len() && (#[trigger] groups[i]).0@ == name && forall|j: int|
                    0 <= j < i ==> (#[trigger] groups[j]).0@ != name,
        )
    } else {
        None
    }
}

/// A group's devices, each trimmed.
pub open spec fn members_of(devices: Seq<String>) -> Seq<Seq<char>> {
    devices.map_values(|d: String| trim(d@))
}

/// What one comma-separated element stands for: nothing if blank, a
/// group's devices if it names one, otherwise itself.
pub open spec fn expand_piece(piece: Seq<char>, groups: Seq<(String, Vec<String>)>) -> Seq<Seq<char>> {
    let name = trim(piece);
    if name.len() == 0 {
        Seq::empty()
    } else {
        match group_index(groups, name) {
            Some(i) => members_of(groups[i].1@),
            None => seq![name],
        }
    }
}

/// Every element's expansion, in order.
pub open spec fn expand_all(pieces: Seq<Seq<char>>, groups: Seq<(String, Vec<String>)>) -> Seq<Seq<char>>
    decreases pieces.len(),
{
    if pieces.len() == 0 {
        Seq::empty()
    } else {
        expand_all(pieces.drop_last(), groups) + expand_piece(pieces.last(), groups)
    }
}

/// The selector with its group names replaced by their devices.
pub open spec fn expansion(selector: Seq<char>, groups: Seq<(String, Vec<String>)>) -> Seq<char> {
    joined(expand_all(split(selector, ','), groups), ","@)
}

fn find_group(groups: &Vec<(String, Vec<String>)>, name: &str) -> (r: Option<usize>)
    ensures
        match (r, group_index(groups@, name@)) {
            (Some(i), Some(j)) => i == j,
            (None, None) => true,
            _ => false,
        },
        r matches Some(i) ==> i < groups@.len(),
{
    let mut i: usize = 0;
    while i < groups.len()
        invariant
            i <= groups@.len(),
            forall|j: int| 0 <= j < i ==> (#[trigger] groups@[j]).0@ != name@,
        decreases groups.len() - i,
    {
        if str_eq(groups[i].0.as_str(), name) {
            proof {
                let k = choose|k: int|
                    0 <= k < groups@.len() && (#[trigger] groups@[k]).0@ == name@ && forall|j: int|
                        0 <= j < k ==> (#[trigger] groups@[j]).0@ != name@;
                assert(groups@[i as int].0@ == name@);
                if k > i {
                    assert(groups@[i as int].0@ != name@);
                }
            }
            return Some(i);
        }
        i += 1;
    }
    None
}

/// Expand any group names in a selector into the devices they stand for.
///
/// One level deep: a group naming another group is left alone rather than
/// followed. Nesting buys little here and a cycle would hang the tool, which
/// is a poor trade for a convenience.
///
/// Unknown names pass through untouched — the node owns the roster, so it is
/// the only thing that can tell a typo from a device this CLI has not heard
/// of yet, and it reports one properly.
pub fn expand(selector: &str, groups: &Vec<(String, Vec<String>)>) -> (r: String)
    requires
        distinct_names(groups@),
    ensures
        r@ == expansion(selector@, groups@),
{
    let chars = chars_of(selector);
    let pieces = split_on(&chars, ',');
    let ghost all = split(selector@, ',');
    let mut out: Vec<String> = Vec::new();
    let mut i: usize = 0;
    while i < pieces.len()
        invariant
            i <= pieces@.len(),
            pieces@.len() == all.len(),
            forall|k: int| 0 <= k < pieces@.len() ==> #[trigger] pieces@[k]@ == all[k],
            out@.map_values(|s: String| s@) == expand_all(all.take(i as int), groups@),
        decreases pieces.len() - i,
    {
        let ghost before = out@.map_values(|s: String| s@);
        assert(all.take(i + 1).drop_last() =~= all.take(i as int));
        let name = trimmed(&pieces[i]);
        if name.len() > 0 {
            let text = string_of(&name);
            match find_group(groups, text.as_str()) {
                Some(g) => {
                    let devices = &groups[g].1;
                    let mut j: usize = 0;
                    while j < devices.len()
                        invariant
                            j <= devices@.len(),
                            out@.map_values(|s: String| s@) == before + members_of(devices@).take(j as int),
                        decreases devices.len() - j,
                    {
                        let d = chars_of(devices[j].as_str());
                        let t = trimmed(&d);
                        let ghost prev = out@;
                        out.push(string_of(&t));
                        assert(out@.map_values(|s: String| s@) =~= prev.map_values(|s: String| s@).push(t@));
                        assert(members_of(devices@).take(j + 1) =~= members_of(devices@).take(j as int).push(trim(devices@[j as int]@)));
                        j += 1;
                    }
                    assert(members_of(devices@).take(devices@.len() as int) =~= members_of(devices@));
                },
                None => {
                    let ghost prev = out@;
                    out.push(text);
                    assert(out@.map_values(|s: String| s@) =~= prev.map_values(|s: String| s@).push(name@));
                    assert(seq![name@] =~= Seq::<Seq<char>>::empty().push(name@));
                },
            }
        } else {
            assert(before + Seq::<Seq<char>>::empty() =~= before);
        }
        i += 1;
    }
    assert(all.take(all.len() as int) =~= all);
    let mut r = String::new();
    push_joined(&mut r, &out, ",");
    r
}

/// How long a writer keeps trying for the config file's lock, in seconds.
pub const LOCK_PATIENCE_SECS: u64 = 3;

/// A lock older than this many seconds is treated as abandoned.
///
/// A process killed between taking the lock and releasing it would
/// otherwise wedge every later write forever. Ten seconds is far longer than
/// a write of a few hundred bytes can honestly take and short enough that
/// nobody waits on a dead process.
pub const LOCK_STALE_SECS: u64 = 10;

/// What a writer does on finding the lock already held.
#[derive(Debug, Clone, Copy, PartialEq, Eq)]
pub enum LockWait {
    /// The holder is gone: remove the lock and try again at once.
    Reclaim,
    /// Wait a moment and try again.
    Retry,
    /// Patience is spent: report the lock and stop.
    GiveUp,
}

/// A lock's age, given as whole seconds and the nanoseconds past them,
/// is past the point where its holder counts as gone.
pub open spec fn is_stale(secs: u64, nanos: u32) -> bool {
    secs * 1_000_000_000 + nanos > LOCK_STALE_SECS * 1_000_000_000
}

/// Whether a lock whose age could be read (`None` when it could not) was
/// abandoned. An age that cannot be read never counts as abandoned, so a
/// lock is only ever taken from a holder known to be long gone.
pub fn abandoned(age: Option<(u64, u32)>) -> (r: bool)
    ensures
        r <==> (age matches Some((s, n)) && is_stale(s, n)),
{
    match age {
        Some((secs, nanos)) => {
            let total: u128 = secs as u128 * 1_000_000_000u128 + nanos as u128;
            total > LOCK_STALE_SECS as u128 * 1_000_000_000u128
        },
        None => false,
    }
}

/// The next step of a writer that found the lock held: an abandoned lock
/// is reclaimed whatever the time, otherwise the writer waits until its
/// patience is spent.
pub fn lock_wait(age: Option<(u64, u32)>, past_deadline: bool) -> (r: LockWait)
    ensures
        r == (if age matches Some((s, n)) && is_stale(s, n) {
            LockWait::Reclaim
        } else if past_deadline {
            LockWait::GiveUp
        } else {
            LockWait::Retry
        }),
{
    if abandoned(age) {
        LockWait::Reclaim
    } else if past_deadline {
        LockWait::GiveUp
    } else {
        LockWait::Retry
    }
}

} // verus!
