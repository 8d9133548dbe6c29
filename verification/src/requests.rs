//! What the node does with a request, once it has what the request needs.
//!
//! The node answers requests from the command line and the window. Reading
//! a frame, locking shared state and saving files stay with the host; what
//! each request decides stands here: which space a name means, what a
//! listing shows, what is refused and in which words.

use vstd::prelude::*;

use crate::history::{copy_entry, holds_id, is_unheard, newest_with, Entry, History};
use crate::node::{
    dests, device_pick, label_in, resolution, resolve, name_objection, name_refusal, opt_text, pick_device, space_labels, space_labels_text, Dest,
    Target,
};
use crate::proto::{no_target_kind, DeviceInfo, HistoryEntry, Member, Response, SpaceRow};
use crate::spaces::{
    after_replace, current_of, keyed, label_refusal, labelled, labels_unique, law_relabelling_keeps_labels_unique,
    lemma_labelled_held, lemma_single_label, lemma_unlabelled, no_space_message, space_id_of, Roster, Space, Spaces,
};
use crate::strs::{chars_of, owned, push_str, str_eq, string_of, trim, trimmed};
use crate::ticket::{life_left, Ticket, TTL_SECS};

verus! {

/// Optional text as text.
pub open spec fn opt_str(a: Option<&str>) -> Option<Seq<char>> {
    match a {
        Some(s) => Some(s@),
        None => None,
    }
}

// ------------------------------------------------------------ naming a space

/// What "no space called ..." says.
pub open spec fn no_label_text(label: Seq<char>) -> Seq<char> {
    "no space called '"@ + label + "'"@
}

/// Which space a request means: none named is the default, a name is the
/// space this device calls that, and an unknown name is refused with every
/// name that would have worked.
pub open spec fn named_space(spaces: Spaces, label: Option<Seq<char>>) -> Result<Seq<char>, Seq<char>> {
    match label {
        None => Ok(spaces.default_spec()),
        Some(l) => match labelled(spaces.listing(), l) {
            Some(id) => Ok(id),
            None => Err(no_label_text(l) + ". Known: "@ + space_labels_text(spaces.listing())),
        },
    }
}

/// Which space a request means, by its local name.
///
/// An unknown name is an error rather than a quiet fallback to the default:
/// acting on the wrong space is the failure worth refusing, and it is
/// exactly what a per-space button would otherwise do.
pub fn space_named(spaces: &Spaces, label: Option<&str>) -> (r: Result<String, String>)
    ensures
        match (r, named_space(*spaces, opt_str(label))) {
            (Ok(a), Ok(b)) => a@ == b,
            (Err(a), Err(b)) => a@ == b,
            _ => false,
        },
{
    match label {
        None => Ok(owned(spaces.default_id())),
        Some(l) => match spaces.by_label(l) {
            Some(id) => Ok(id),
            None => {
                let mut m = owned("no space called '");
                push_str(&mut m, l);
                push_str(&mut m, "'");
                push_str(&mut m, ". Known: ");
                let known = space_labels(spaces);
                push_str(&mut m, known.as_str());
                Err(m)
            },
        },
    }
}

/// The spaces this device belongs to, as rows for a listing.
pub fn space_rows(spaces: &Spaces, me: &str) -> (r: Vec<SpaceRow>)
    ensures
        r@.len() == spaces.listing().len(),
        forall|i: int| 0 <= i < r@.len() ==> {
            let e = #[trigger] spaces.listing()[i];
            let row = r@[i];
            &&& row.label@ == crate::spaces::shown_label(crate::spaces::label_text(e.label))
            &&& row.devices == e.roster.members@.len()
            &&& row.is_default == (e.id@ == spaces.default_spec())
            &&& row.founded_here == crate::strs::is_prefix(me@, e.id@)
        },
{
    let infos = spaces.list(me);
    let mut r: Vec<SpaceRow> = Vec::new();
    let mut i: usize = 0;
    while i < infos.len()
        invariant
            i <= infos@.len(),
            infos@.len() == spaces.listing().len(),
            r@.len() == i,
            forall|j: int| 0 <= j < i ==> {
                let s = #[trigger] infos@[j];
                let row = r@[j];
                &&& row.label@ == s.label@
                &&& row.devices == s.devices
                &&& row.is_default == s.is_default
                &&& row.founded_here == s.founded_here
            },
        decreases infos.len() - i,
    {
        let s = &infos[i];
        r.push(
            SpaceRow {
                label: s.label.clone(),
                devices: s.devices,
                is_default: s.is_default,
                founded_here: s.founded_here,
            },
        );
        i += 1;
    }
    proof {
        assert forall|j: int| 0 <= j < r@.len() implies {
            let e = #[trigger] spaces.listing()[j];
            let row = r@[j];
            &&& row.label@ == crate::spaces::shown_label(crate::spaces::label_text(e.label))
            &&& row.devices == e.roster.members@.len()
            &&& row.is_default == (e.id@ == spaces.default_spec())
            &&& row.founded_here == crate::strs::is_prefix(me@, e.id@)
        } by {
            let s = infos@[j];
        }
    }
    r
}

fn no_label(label: &str) -> (m: String)
    ensures
        m@ == no_label_text(label@),
{
    let mut m = owned("no space called '");
    push_str(&mut m, label);
    push_str(&mut m, "'");
    m
}

/// Choose which space bare device names resolve in, by its local name.
pub fn default_space_in(spaces: &mut Spaces, label: &str) -> (r: Result<(), String>)
    requires
        old(spaces).wf(),
    ensures
        final(spaces).wf(),
        final(spaces).listing() == old(spaces).listing(),
        match labelled(old(spaces).listing(), label@) {
            Some(id) => r is Ok && final(spaces).default_spec() == id,
            None => r matches Err(m) && m@ == no_label_text(label@) && final(spaces).default_spec()
                == old(spaces).default_spec(),
        },
{
    match spaces.by_label(label) {
        None => Err(no_label(label)),
        Some(id) => {
            proof {
                lemma_labelled_held(spaces.listing(), label@);
            }
            spaces.set_default(id.as_str())
        },
    }
}

/// Rename a space locally, found by the name it has now.
pub fn rename_space_in(spaces: &mut Spaces, label: &str, to: &str) -> (r: Result<(), String>)
    requires
        old(spaces).wf(),
    ensures
        final(spaces).wf(),
        final(spaces).default_spec() == old(spaces).default_spec(),
        r is Err ==> final(spaces).listing() == old(spaces).listing(),
        match labelled(old(spaces).listing(), label@) {
            None => r matches Err(m) && m@ == no_label_text(label@),
            Some(id) => {
                let t = trim(to@);
                let before = old(spaces).listing();
                let clash = labelled(before, t) is Some && labelled(before, t)->0 != id;
                &&& label_refusal(t) is Some ==> (r matches Err(m) && m@ == label_refusal(t)->0)
                &&& label_refusal(t) is None && clash ==> (r matches Err(m) && m@
                    == "there is already a space called '"@ + t + "'"@)
                &&& label_refusal(t) is None && !clash ==> r is Ok
                &&& r is Ok ==> final(spaces).map() == old(spaces).map().insert(
                    id,
                    (old(spaces).map()[id].0, Some(t)),
                )
            },
        },
{
    match spaces.by_label(label) {
        None => Err(no_label(label)),
        Some(id) => {
            proof {
                lemma_labelled_held(spaces.listing(), label@);
            }
            spaces.set_label(id.as_str(), to)
        },
    }
}

/// Drop one space, found by its local name, keeping the others. Gives
/// back the id it had, so what was kept for it can be forgotten too.
///
/// The last space is never dropped: a device with no space cannot speak
/// even to itself.
pub fn leave_space_in(spaces: &mut Spaces, label: &str) -> (r: Result<String, String>)
    requires
        old(spaces).wf(),
    ensures
        final(spaces).wf(),
        r is Err ==> final(spaces).listing() == old(spaces).listing() && final(spaces).default_spec()
            == old(spaces).default_spec(),
        match labelled(old(spaces).listing(), label@) {
            None => r matches Err(m) && m@ == no_label_text(label@),
            Some(id) => if old(spaces).listing().len() <= 1 {
                r matches Err(m) && m@ == "this is the only space; use `leave` instead"@
            } else {
                &&& r matches Ok(x) && x@ == id
                &&& final(spaces).map() == old(spaces).map().remove(id)
                &&& final(spaces).listing().len() > 0
                &&& final(spaces).default_spec() == if old(spaces).default_spec() == id {
                    final(spaces).listing()[0].id@
                } else {
                    old(spaces).default_spec()
                }
            },
        },
{
    match spaces.by_label(label) {
        None => Err(no_label(label)),
        Some(id) => {
            proof {
                lemma_labelled_held(spaces.listing(), label@);
            }
            match spaces.remove(id.as_str()) {
                Ok(()) => Ok(id),
                Err(m) => Err(m),
            }
        },
    }
}

// ------------------------------------------------------------ the history

/// Whether a listed message shows a held one.
pub open spec fn shows_entry(h: HistoryEntry, e: Entry) -> bool {
    &&& h.msg_id@ == e.msg_id@
    &&& h.text@ == e.text@
    &&& h.from@ == e.from@
    &&& h.at == e.at
    &&& h.status == e.status
    &&& h.priority == e.priority
    &&& h.unheard == is_unheard(e.status)
}

/// How many messages a listing shows when none is asked for.
pub const HISTORY_LISTED: usize = 50;

/// The history as listed: newest first, at most `limit`, fifty when no
/// limit is given, each marked with whether it was ever heard.
pub fn history_rows(history: &History, limit: Option<usize>) -> (r: Vec<HistoryEntry>)
    ensures
        ({
            let n = match limit {
                Some(l) => l as int,
                None => HISTORY_LISTED as int,
            };
            let held = history.items();
            &&& r@.len() == if n < held.len() {
                n
            } else {
                held.len() as int
            }
            &&& forall|i: int| 0 <= i < r@.len() ==> shows_entry(#[trigger] r@[i], held[held.len() - 1 - i])
        }),
{
    let n = match limit {
        Some(l) => l,
        None => HISTORY_LISTED,
    };
    let picked = history.recent(n);
    let mut r: Vec<HistoryEntry> = Vec::new();
    let mut i: usize = 0;
    while i < picked.len()
        invariant
            i <= picked@.len(),
            r@.len() == i,
            forall|j: int| 0 <= j < i ==> shows_entry(#[trigger] r@[j], picked@[j]),
        decreases picked.len() - i,
    {
        let e = &picked[i];
        r.push(
            HistoryEntry {
                msg_id: e.msg_id.clone(),
                text: e.text.clone(),
                from: e.from.clone(),
                at: e.at,
                status: e.status,
                priority: e.priority,
                unheard: e.unheard(),
            },
        );
        i += 1;
    }
    r
}

/// The message a replay would speak: the newest with this id.
pub fn replay_entry(history: &History, msg_id: &str) -> (r: Result<Entry, String>)
    ensures
        match r {
            Ok(e) => exists|i: int| newest_with(history.items(), msg_id@, i) && e == #[trigger] history.items()[i],
            Err(m) => !holds_id(history.items(), msg_id@) && m@ == "no message "@ + msg_id@
                + " in the history"@,
        },
{
    match history.get(msg_id) {
        Some(e) => Ok(copy_entry(e)),
        None => {
            let mut m = owned("no message ");
            push_str(&mut m, msg_id);
            push_str(&mut m, " in the history");
            Err(m)
        },
    }
}

// ------------------------------------------------------------ answers

/// What previewing an invite answers: what it would join and for how much
/// longer, or why the text is no invite. Nothing is contacted and the
/// single-use token is not spent.
pub fn preview_of(parsed: Result<Ticket, String>, now: u64) -> (r: Response)
    ensures
        match parsed {
            Ok(t) => r matches Response::Preview { label, expires_in, endpoint_id } && opt_text(label)
                == opt_text(t.label) && expires_in == life_left(t.expires_at, now) && endpoint_id@
                == t.endpoint_id@,
            Err(why) => r matches Response::Error { message, kind: None } && message@ == why@,
        },
{
    match parsed {
        Ok(t) => {
            let expires_in = t.remaining(now);
            Response::Preview { label: t.label, expires_in, endpoint_id: t.endpoint_id }
        },
        Err(why) => Response::error(why),
    }
}

/// The name a resolved destination is listed under: this device's own name
/// for itself, a peer's label for a peer.
pub open spec fn listed_as(d: Dest, my_name: Seq<char>) -> Seq<char> {
    match d {
        Dest::Here(_) => my_name,
        Dest::Peer(name, _, _) => name,
    }
}

/// What asking which devices a selector reaches answers: their names, or a
/// refusal marked as matching nothing, so the caller can tell a typo from a
/// failure.
pub fn targets_reply(resolved: Result<Vec<Target>, String>, my_name: &str) -> (r: Response)
    ensures
        match resolved {
            Ok(ts) => r matches Response::Targets { devices } && devices@.len() == ts@.len() && forall|i: int|
                0 <= i < ts@.len() ==> (#[trigger] devices@[i])@ == listed_as(ts@[i]@, my_name@),
            Err(m) => r matches Response::Error { message, kind: Some(k) } && message@ == m@ && k@
                == no_target_kind(),
        },
{
    match resolved {
        Ok(ts) => {
            let mut devices: Vec<String> = Vec::new();
            let mut i: usize = 0;
            while i < ts.len()
                invariant
                    i <= ts@.len(),
                    devices@.len() == i,
                    forall|j: int| 0 <= j < i ==> (#[trigger] devices@[j])@ == listed_as(ts@[j]@, my_name@),
                decreases ts.len() - i,
            {
                let name = match &ts[i] {
                    Target::Here { .. } => owned(my_name),
                    Target::Peer { name, .. } => name.clone(),
                };
                devices.push(name);
                i += 1;
            }
            Response::Targets { devices }
        },
        Err(m) => Response::no_target(m),
    }
}

/// What the status line calls the voice in use.
///
/// The voice the engine has selected, by name. Failing that, no guess at the
/// first of many: "default voice" where there are voices, "unavailable"
/// where the engine cannot speak, and "starting…" only where it might yet.
pub open spec fn voice_text(voices: Seq<(Seq<char>, Seq<char>)>, current: Option<Seq<char>>, ready: bool) -> Seq<char> {
    if current is Some && exists|i: int| first_voice(voices, current->0, i) {
        voices[choose|i: int| first_voice(voices, current->0, i)].1
    } else if voices.len() > 0 {
        "default voice"@
    } else if !ready {
        "unavailable"@
    } else {
        "starting…"@
    }
}

/// The first voice with this id.
pub open spec fn first_voice(voices: Seq<(Seq<char>, Seq<char>)>, id: Seq<char>, i: int) -> bool {
    &&& 0 <= i < voices.len()
    &&& voices[i].0 == id
    &&& forall|j: int| 0 <= j < i ==> (#[trigger] voices[j]).0 != id
}

/// Pairs of strings as text.
pub open spec fn pair_texts(v: Seq<(String, String)>) -> Seq<(Seq<char>, Seq<char>)> {
    v.map_values(|p: (String, String)| (p.0@, p.1@))
}

/// The name of the voice actually in use, from the engine's voices as
/// `(id, name)`, the id it has selected, and whether it can speak.
pub fn voice_label(voices: &Vec<(String, String)>, current: Option<String>, ready: bool) -> (r: String)
    ensures
        r@ == voice_text(pair_texts(voices@), opt_text(current), ready),
{
    let ghost vs = pair_texts(voices@);
    let ghost cur = opt_text(current);
    match &current {
        Some(id) => {
            let mut i: usize = 0;
            while i < voices.len()
                invariant
                    i <= voices@.len(),
                    vs == pair_texts(voices@),
                    cur == Some(id@),
                    cur == opt_text(current),
                    forall|j: int| 0 <= j < i ==> (#[trigger] vs[j]).0 != id@,
                decreases voices.len() - i,
            {
                if str_eq(voices[i].0.as_str(), id.as_str()) {
                    proof {
                        assert(vs[i as int] == (voices@[i as int].0@, voices@[i as int].1@));
                        assert(first_voice(vs, id@, i as int));
                        assert(vs[i as int].0 == id@);
                        let k = choose|k: int| first_voice(vs, id@, k);
                        if k < i {
                            assert(vs[k].0 != id@);
                        } else if k > i {
                            assert(vs[i as int].0 != id@);
                        }
                        assert(k == i);
                    }
                    let out = voices[i].1.clone();
                    assert(out@ == vs[i as int].1);
                    assert(cur is Some && cur->0 == id@);
                    assert(exists|k: int| first_voice(vs, cur->0, k));
                    assert(out@ == voice_text(vs, cur, ready));
                    return out;
                }
                i += 1;
            }
            assert(!exists|k: int| first_voice(vs, id@, k));
        },
        None => {},
    }
    if voices.len() > 0 {
        owned("default voice")
    } else if !ready {
        owned("unavailable")
    } else {
        owned("starting…")
    }
}

// ------------------------------------------------------------ the devices

/// The first record of when this device was last heard from.
pub open spec fn first_seen(seen: Seq<(String, u64)>, id: Seq<char>, i: int) -> bool {
    &&& 0 <= i < seen.len()
    &&& seen[i].0@ == id
    &&& forall|j: int| 0 <= j < i ==> (#[trigger] seen[j]).0@ != id
}

/// When a device was last heard from, as the node keeps it: one time per
/// device, read from its first record.
pub open spec fn seen_at(seen: Seq<(String, u64)>, id: Seq<char>) -> Option<u64> {
    if exists|i: int| first_seen(seen, id, i) {
        Some(seen[choose|i: int| first_seen(seen, id, i)].1)
    } else {
        None
    }
}

/// How long ago a device was last heard from: this device always now,
/// another by its record, saturating at zero when the clock went back.
pub open spec fn ago(m: Member, me: Seq<char>, seen: Seq<(String, u64)>, now: u64) -> Option<u64> {
    if m.endpoint_id@ == me {
        Some(0)
    } else {
        match seen_at(seen, m.endpoint_id@) {
            Some(t) => Some(if now >= t {
                (now - t) as u64
            } else {
                0
            }),
            None => None,
        }
    }
}

/// Whether a listed device shows a member of the space with this label.
pub open spec fn shows_device(
    row: DeviceInfo,
    m: Member,
    space: Option<Seq<char>>,
    me: Seq<char>,
    seen: Seq<(String, u64)>,
    now: u64,
) -> bool {
    &&& row.name@ == m.name@
    &&& row.endpoint_id@ == m.endpoint_id@
    &&& row.is_self == (m.endpoint_id@ == me)
    &&& row.last_seen_secs == ago(m, me, seen, now)
    &&& opt_text(row.space) == space
}

/// A roster's members, each with the id of the space it is in.
pub open spec fn roster_rows(r: Roster, id: Seq<char>) -> Seq<(Member, Seq<char>)> {
    r.members@.map_values(|m: Member| (m, id))
}

/// The default space's members, when the default is held.
pub open spec fn head_rows(s: Seq<Space>, d: Seq<char>) -> Seq<(Member, Seq<char>)> {
    if keyed(s).dom().contains(d) {
        roster_rows(keyed(s)[d].0, d)
    } else {
        Seq::empty()
    }
}

/// Every other space's members, in id order.
pub open spec fn rest_rows(s: Seq<Space>, d: Seq<char>) -> Seq<(Member, Seq<char>)>
    decreases s.len(),
{
    if s.len() == 0 {
        Seq::empty()
    } else {
        rest_rows(s.drop_last(), d) + if s.last().id@ == d {
            Seq::<(Member, Seq<char>)>::empty()
        } else {
            roster_rows(s.last().roster, s.last().id@)
        }
    }
}

/// Every member listed, with its space: the default space first, so the
/// devices a bare name reaches are at the top, then the rest in id order.
pub open spec fn device_order(s: Seq<Space>, d: Seq<char>) -> Seq<(Member, Seq<char>)> {
    head_rows(s, d) + rest_rows(s, d)
}

/// The space column: a label only when there is more than one space, since
/// with one it would always read the same.
pub open spec fn space_column(s: Seq<Space>, id: Seq<char>) -> Option<Seq<char>> {
    if s.len() > 1 {
        Some(label_in(s, id))
    } else {
        None
    }
}

fn seen_of(seen: &Vec<(String, u64)>, id: &str) -> (r: Option<u64>)
    ensures
        r == seen_at(seen@, id@),
{
    let mut i: usize = 0;
    while i < seen.len()
        invariant
            i <= seen@.len(),
            forall|j: int| 0 <= j < i ==> (#[trigger] seen@[j]).0@ != id@,
        decreases seen.len() - i,
    {
        if str_eq(seen[i].0.as_str(), id) {
            proof {
                assert(first_seen(seen@, id@, i as int));
                let k = choose|k: int| first_seen(seen@, id@, k);
                if k < i {
                    assert(seen@[k].0@ != id@);
                } else if k > i {
                    assert(seen@[i as int].0@ != id@);
                }
            }
            return Some(seen[i].1);
        }
        i += 1;
    }
    assert(!exists|k: int| first_seen(seen@, id@, k));
    None
}

fn push_members(
    out: &mut Vec<DeviceInfo>,
    roster: &Roster,
    id: &str,
    space: Option<String>,
    me: &str,
    seen: &Vec<(String, u64)>,
    now: u64,
)
    ensures
        final(out)@.len() == old(out)@.len() + roster.members@.len(),
        forall|i: int| 0 <= i < old(out)@.len() ==> #[trigger] final(out)@[i] == old(out)@[i],
        forall|i: int|
            0 <= i < roster.members@.len() ==> shows_device(
                #[trigger] final(out)@[old(out)@.len() + i],
                roster_rows(*roster, id@)[i].0,
                opt_text(space),
                me@,
                seen@,
                now,
            ),
{
    let ghost start = out@;
    let mut k: usize = 0;
    while k < roster.members.len()
        invariant
            k <= roster.members@.len(),
            out@.len() == start.len() + k,
            forall|i: int| 0 <= i < start.len() ==> #[trigger] out@[i] == start[i],
            forall|i: int|
                0 <= i < k ==> shows_device(
                    #[trigger] out@[start.len() + i],
                    roster.members@[i],
                    opt_text(space),
                    me@,
                    seen@,
                    now,
                ),
        decreases roster.members.len() - k,
    {
        let m = &roster.members[k];
        let is_self = str_eq(m.endpoint_id.as_str(), me);
        let last_seen_secs = if is_self {
            Some(0u64)
        } else {
            match seen_of(seen, m.endpoint_id.as_str()) {
                Some(t) => Some(now.saturating_sub(t)),
                None => None,
            }
        };
        let column = match &space {
            Some(l) => Some(l.clone()),
            None => None,
        };
        out.push(
            DeviceInfo {
                name: m.name.clone(),
                endpoint_id: m.endpoint_id.clone(),
                is_self,
                last_seen_secs,
                space: column,
            },
        );
        proof {
            assert(out@[start.len() + k] == out@.last());
        }
        k += 1;
    }
}

fn column_of(spaces: &Spaces, id: &str) -> (r: Option<String>)
    requires
        spaces.wf(),
    ensures
        opt_text(r) == space_column(spaces.listing(), id@),
{
    if spaces.held().len() > 1 {
        Some(owned(spaces.label(id)))
    } else {
        None
    }
}

/// Every device in every space, as the devices listing shows them.
///
/// `seen` holds when each device was last heard from, one record per
/// device; this device is always heard from now.
pub fn device_rows(spaces: &Spaces, me: &str, seen: &Vec<(String, u64)>, now: u64) -> (r: Vec<DeviceInfo>)
    requires
        spaces.wf(),
    ensures
        ({
            let s = spaces.listing();
            let order = device_order(s, spaces.default_spec());
            &&& r@.len() == order.len()
            &&& forall|i: int|
                0 <= i < r@.len() ==> shows_device(
                    #[trigger] r@[i],
                    order[i].0,
                    space_column(s, order[i].1),
                    me@,
                    seen@,
                    now,
                )
        }),
{
    let ghost s = spaces.listing();
    let d = spaces.default_id();
    let mut rows: Vec<DeviceInfo> = Vec::new();
    let ghost head = head_rows(s, d@);
    match spaces.get(d) {
        Some(roster) => {
            let column = column_of(spaces, d);
            push_members(&mut rows, roster, d, column, me, seen, now);
            proof {
                assert forall|j: int| 0 <= j < rows@.len() implies shows_device(
                    #[trigger] rows@[j],
                    head[j].0,
                    space_column(s, head[j].1),
                    me@,
                    seen@,
                    now,
                ) by {
                    assert(head[j] == roster_rows(*roster, d@)[j]);
                    assert(head[j] == (roster.members@[j], d@));
                    assert(rows@[j] == rows@[0 + j]);
                }
            }
        },
        None => {},
    }
    assert(rest_rows(s.take(0), d@) =~= Seq::<(Member, Seq<char>)>::empty());
    assert(head + rest_rows(s.take(0), d@) =~= head);
    assert(rows@.len() == head.len());
    let held = spaces.held();
    let mut i: usize = 0;
    while i < held.len()
        invariant
            spaces.wf(),
            held@ == s,
            s == spaces.listing(),
            d@ == spaces.default_spec(),
            head == head_rows(s, d@),
            i <= s.len(),
            rows@.len() == head.len() + rest_rows(s.take(i as int), d@).len(),
            forall|j: int|
                0 <= j < rows@.len() ==> shows_device(
                    #[trigger] rows@[j],
                    (head + rest_rows(s.take(i as int), d@))[j].0,
                    space_column(s, (head + rest_rows(s.take(i as int), d@))[j].1),
                    me@,
                    seen@,
                    now,
                ),
        decreases held.len() - i,
    {
        let e = &held[i];
        let ghost before = rows@;
        let ghost done = rest_rows(s.take(i as int), d@);
        assert(s.take(i + 1).drop_last() =~= s.take(i as int));
        assert(s.take(i + 1).last() == s[i as int]);
        if !str_eq(e.id.as_str(), d) {
            let column = column_of(spaces, e.id.as_str());
            push_members(&mut rows, &e.roster, e.id.as_str(), column, me, seen, now);
            proof {
                let more = roster_rows(e.roster, e.id@);
                assert(rest_rows(s.take(i + 1), d@) == done + more);
                assert forall|j: int| 0 <= j < rows@.len() implies shows_device(
                    #[trigger] rows@[j],
                    (head + rest_rows(s.take(i + 1), d@))[j].0,
                    space_column(s, (head + rest_rows(s.take(i + 1), d@))[j].1),
                    me@,
                    seen@,
                    now,
                ) by {
                    let all = head + rest_rows(s.take(i + 1), d@);
                    if j < before.len() {
                        assert(all[j] == (head + done)[j]);
                        assert(rows@[j] == before[j]);
                    } else {
                        let k = j - before.len();
                        assert(rows@[j] == rows@[before.len() + k]);
                        assert(all[j] == more[k]);
                        assert(more[k] == (e.roster.members@[k], e.id@));
                        assert(roster_rows(e.roster, e.id@)[k] == more[k]);
                    }
                }
            }
        } else {
            proof {
                assert(rest_rows(s.take(i + 1), d@) =~= done);
            }
        }
        i += 1;
    }
    assert(s.take(s.len() as int) =~= s);
    rows
}

/// What refusing a name already in use says.
pub open spec fn taken_text(label: Seq<char>) -> Seq<char> {
    "there is already a space called '"@ + label + "'"@
}

/// Hold a space this device has just founded, under the name asked for,
/// and make it the default so the invites that follow land in it. Gives
/// back its id.
///
/// Additive: the spaces already held are untouched. A name already in use
/// is refused before anything changes.
pub fn new_space_in(spaces: &mut Spaces, roster: Roster, label: &str) -> (r: Result<String, String>)
    requires
        old(spaces).wf(),
    ensures
        final(spaces).wf(),
        labelled(old(spaces).listing(), label@) is Some ==> (r matches Err(m) && m@ == taken_text(label@))
            && final(spaces).listing() == old(spaces).listing() && final(spaces).default_spec() == old(
            spaces,
        ).default_spec(),
        r matches Ok(id) ==> id@ == space_id_of(roster) && final(spaces).map() == old(spaces).map().insert(
            id@,
            (roster, Some(trim(label@))),
        ) && final(spaces).default_spec() == id@,
        labelled(old(spaces).listing(), label@) is None && r is Err ==> ({
            let t = trim(label@);
            &&& label_refusal(t) is Some ==> (r matches Err(m) && m@ == label_refusal(t)->0)
            &&& label_refusal(t) is None ==> (r matches Err(m) && m@ == taken_text(t))
        }),
        labelled(old(spaces).listing(), label@) is None && label_refusal(trim(label@)) is None
            && labelled(old(spaces).listing(), trim(label@)) is None && !old(spaces).map().dom().contains(
            space_id_of(roster),
        ) ==> r is Ok,
{
    if spaces.by_label(label).is_some() {
        let mut m = owned("there is already a space called '");
        push_str(&mut m, label);
        push_str(&mut m, "'");
        return Err(m);
    }
    let ghost before = spaces.map();
    let ghost t = trim(label@);
    proof {
        if labelled(spaces.listing(), t) is None {
            lemma_unlabelled(spaces.listing(), t);
        }
    }
    let id = spaces.insert(roster, label);
    let ghost mid = spaces.map();
    proof {
        if labelled(spaces.listing(), t) is Some {
            lemma_labelled_held(spaces.listing(), t);
        }
    }
    match spaces.set_label(id.as_str(), label) {
        Ok(()) => {},
        Err(m) => return Err(m),
    }
    match spaces.set_default(id.as_str()) {
        Ok(()) => {},
        Err(m) => return Err(m),
    }
    assert(spaces.map() =~= before.insert(id@, (roster, Some(t))));
    Ok(id)
}

// ------------------------------------------------------------ devices and leaving

/// The name a rename asks for, trimmed, or why it cannot be one.
pub open spec fn wanted_name(name: Seq<char>) -> Result<Seq<char>, Seq<char>> {
    match name_refusal(trim(name)) {
        Some(why) => Err(why),
        None => Ok(trim(name)),
    }
}

/// The name this device will go by after a rename, or why it refuses: the
/// same rule a selector needs, since these names are what `--to` parses.
pub fn device_name_for(name: &str) -> (r: Result<String, String>)
    ensures
        match (r, wanted_name(name@)) {
            (Ok(a), Ok(b)) => a@ == b,
            (Err(a), Err(b)) => a@ == b,
            _ => false,
        },
{
    let raw = chars_of(name);
    let t = string_of(&trimmed(&raw));
    match name_objection(t.as_str()) {
        Some(why) => Err(why),
        None => Ok(t),
    }
}

/// Each member as the `(name, id)` pair a selector is matched against.
pub open spec fn name_id_pairs(ms: Seq<Member>) -> Seq<(String, String)> {
    ms.map_values(|m: Member| (m.name, m.endpoint_id))
}

fn pairs_of(ms: &Vec<Member>) -> (r: Vec<(String, String)>)
    ensures
        r@ == name_id_pairs(ms@),
{
    let mut r: Vec<(String, String)> = Vec::new();
    let mut i: usize = 0;
    while i < ms.len()
        invariant
            i <= ms@.len(),
            r@ == name_id_pairs(ms@.take(i as int)),
        decreases ms.len() - i,
    {
        r.push((ms[i].name.clone(), ms[i].endpoint_id.clone()));
        proof {
            assert(name_id_pairs(ms@.take(i + 1)) =~= name_id_pairs(ms@.take(i as int)).push(
                (ms@[i as int].name, ms@[i as int].endpoint_id),
            ));
        }
        i += 1;
    }
    assert(ms@.take(ms@.len() as int) =~= ms@);
    r
}

/// Which device a removal means in a space, or why it means none.
pub open spec fn removal_target(spaces: Spaces, space: Seq<char>, name: Seq<char>, me: Seq<char>) -> Result<
    Seq<char>,
    Seq<char>,
> {
    if !spaces.map().dom().contains(space) {
        Err("no device named '"@ + name + "' in this space"@)
    } else {
        match device_pick(name_id_pairs(spaces.map()[space].0.members@), name) {
            Err(why) => Err(why),
            Ok(id) => if id == me {
                Err("that is this device — use `clispeak leave` instead"@)
            } else {
                Ok(id)
            },
        }
    }
}

/// The device a removal names: found by name or id among the space's
/// members, never this device, which leaves rather than removing itself.
pub fn removal_of(spaces: &Spaces, space: &str, name: &str, me: &str) -> (r: Result<String, String>)
    requires
        spaces.wf(),
    ensures
        match (r, removal_target(*spaces, space@, name@, me@)) {
            (Ok(a), Ok(b)) => a@ == b,
            (Err(a), Err(b)) => a@ == b,
            _ => false,
        },
{
    let roster = match spaces.get(space) {
        Some(r) => r,
        None => {
            let mut m = owned("no device named '");
            push_str(&mut m, name);
            push_str(&mut m, "' in this space");
            return Err(m);
        },
    };
    let pairs = pairs_of(&roster.members);
    match pick_device(&pairs, name) {
        Err(why) => Err(why),
        Ok(id) => if str_eq(id.as_str(), me) {
            Err(owned("that is this device — use `clispeak leave` instead"))
        } else {
            Ok(id)
        },
    }
}

/// Every member but this device, in roster order.
pub open spec fn others_of(ms: Seq<Member>, me: Seq<char>) -> Seq<Seq<char>>
    decreases ms.len(),
{
    if ms.len() == 0 {
        Seq::empty()
    } else {
        others_of(ms.drop_last(), me) + if ms.last().endpoint_id@ == me {
            Seq::<Seq<char>>::empty()
        } else {
            seq![ms.last().endpoint_id@]
        }
    }
}

/// What leaving a space needs before anything changes: its name here, for
/// the answer, and every other member, to be told.
pub fn leave_plan(spaces: &Spaces, space: &str, me: &str) -> (r: Result<(String, Vec<String>), String>)
    requires
        spaces.wf(),
    ensures
        match r {
            Ok((label, peers)) => spaces.map().dom().contains(space@) && label@ == label_in(
                spaces.listing(),
                space@,
            ) && peers@.map_values(|p: String| p@) == others_of(spaces.map()[space@].0.members@, me@),
            Err(m) => !spaces.map().dom().contains(space@) && m@ == "that space is no longer held"@,
        },
{
    let roster = match spaces.get(space) {
        Some(r) => r,
        None => return Err(owned("that space is no longer held")),
    };
    let label = owned(spaces.label(space));
    let ms = &roster.members;
    let mut peers: Vec<String> = Vec::new();
    let mut i: usize = 0;
    while i < ms.len()
        invariant
            i <= ms@.len(),
            peers@.map_values(|p: String| p@) == others_of(ms@.take(i as int), me@),
        decreases ms.len() - i,
    {
        proof {
            assert(ms@.take(i + 1).drop_last() =~= ms@.take(i as int));
        }
        if !str_eq(ms[i].endpoint_id.as_str(), me) {
            let ghost before = peers@;
            peers.push(ms[i].endpoint_id.clone());
            proof {
                assert(peers@.map_values(|p: String| p@) =~= before.map_values(|p: String| p@).push(
                    ms@[i as int].endpoint_id@,
                ));
            }
        }
        proof {
            let t = ms@.take(i + 1);
            assert(t.last() == ms@[i as int]);
        }
        i += 1;
    }
    assert(ms@.take(ms@.len() as int) =~= ms@);
    Ok((label, peers))
}

/// Drop a space this device is leaving, once the others have been told.
///
/// The last space is never simply dropped: a device with no space cannot
/// speak even to itself, so the default is replaced by `fresh`, an empty
/// space founded here. Says whether that happened.
pub fn leave_in(spaces: &mut Spaces, space: &str, fresh: Roster) -> (r: Result<bool, String>)
    requires
        old(spaces).wf(),
    ensures
        final(spaces).wf(),
        old(spaces).listing().len() <= 1 ==> r == Ok::<bool, String>(true) && (if old(spaces).map().dom().contains(
            old(spaces).default_spec(),
        ) {
            final(spaces).map() == after_replace(old(spaces).map(), old(spaces).default_spec(), fresh)
                && final(spaces).default_spec() == space_id_of(fresh)
        } else {
            final(spaces).listing() == old(spaces).listing() && final(spaces).default_spec() == old(
                spaces,
            ).default_spec()
        }),
        old(spaces).listing().len() > 1 ==> if old(spaces).map().dom().contains(space@) {
            r == Ok::<bool, String>(false) && final(spaces).map() == old(spaces).map().remove(space@)
        } else {
            r matches Err(m) && m@ == no_space_message(space@) && final(spaces).listing() == old(
                spaces,
            ).listing()
        },
{
    if spaces.held().len() <= 1 {
        spaces.replace_current(fresh);
        Ok(true)
    } else {
        match spaces.remove(space) {
            Ok(()) => Ok(false),
            Err(m) => Err(m),
        }
    }
}

/// The invite a request asks for: a fresh ticket from this device, naming
/// the space by id and, for the joiner to read, by this device's name for
/// it.
pub fn invite_ticket(spaces: &Spaces, space: Option<&str>, me: &str, now: u64) -> (r: Result<Ticket, String>)
    requires
        spaces.wf(),
        now + TTL_SECS <= u64::MAX,
    ensures
        match (r, named_space(*spaces, opt_str(space))) {
            (Ok(t), Ok(id)) => t.endpoint_id@ == me@ && opt_text(t.space) == Some(id) && opt_text(t.label)
                == Some(label_in(spaces.listing(), id)) && t.expires_at == now + TTL_SECS,
            (Err(a), Err(b)) => a@ == b,
            _ => false,
        },
{
    let id = match space_named(spaces, space) {
        Ok(id) => id,
        Err(m) => return Err(m),
    };
    let label = owned(spaces.label(id.as_str()));
    Ok(Ticket::mint(owned(me), Some(id), Some(label), now))
}

// ------------------------------------------------------------ rotating

/// Every member's name but this device's, in roster order.
pub open spec fn other_names(ms: Seq<Member>, me: Seq<char>) -> Seq<Seq<char>>
    decreases ms.len(),
{
    if ms.len() == 0 {
        Seq::empty()
    } else {
        other_names(ms.drop_last(), me) + if ms.last().endpoint_id@ == me {
            Seq::<Seq<char>>::empty()
        } else {
            seq![ms.last().name@]
        }
    }
}

/// Replace a space outright with `fresh`, founded here, which locks every
/// other device out at once. Gives back its name here and the names of the
/// devices that were in it, so whoever rotated is told who has to be
/// invited again.
///
/// The space asked for, never whichever is the default: replacing the wrong
/// one would leave the untrusted device in the space it was meant to lose.
pub fn rotate_in(spaces: &mut Spaces, space: &str, me: &str, fresh: Roster) -> (r: Result<(String, Vec<String>), String>)
    requires
        old(spaces).wf(),
    ensures
        final(spaces).wf(),
        match r {
            Ok((label, devices)) => {
                &&& old(spaces).map().dom().contains(space@)
                &&& label@ == label_in(old(spaces).listing(), space@)
                &&& devices@.map_values(|d: String| d@) == other_names(old(spaces).map()[space@].0.members@, me@)
                &&& final(spaces).map() == after_replace(old(spaces).map(), space@, fresh)
                &&& final(spaces).default_spec() == if old(spaces).default_spec() == space@ {
                    space_id_of(fresh)
                } else {
                    old(spaces).default_spec()
                }
            },
            Err(m) => !old(spaces).map().dom().contains(space@) && m@ == "that space is no longer held"@
                && final(spaces).listing() == old(spaces).listing() && final(spaces).default_spec() == old(
                spaces,
            ).default_spec(),
        },
{
    let roster = match spaces.get(space) {
        Some(r) => r,
        None => return Err(owned("that space is no longer held")),
    };
    let label = owned(spaces.label(space));
    let ms = &roster.members;
    let mut devices: Vec<String> = Vec::new();
    let mut i: usize = 0;
    while i < ms.len()
        invariant
            i <= ms@.len(),
            devices@.map_values(|d: String| d@) == other_names(ms@.take(i as int), me@),
        decreases ms.len() - i,
    {
        proof {
            assert(ms@.take(i + 1).drop_last() =~= ms@.take(i as int));
        }
        if !str_eq(ms[i].endpoint_id.as_str(), me) {
            let ghost before = devices@;
            devices.push(ms[i].name.clone());
            proof {
                assert(devices@.map_values(|d: String| d@) =~= before.map_values(|d: String| d@).push(
                    ms@[i as int].name@,
                ));
            }
        }
        proof {
            assert(ms@.take(i + 1).last() == ms@[i as int]);
        }
        i += 1;
    }
    assert(ms@.take(ms@.len() as int) =~= ms@);
    if !spaces.replace(space, fresh) {
        return Err(owned("that space is no longer held"));
    }
    Ok((label, devices))
}

/// The selector a request to resolve stands for: the one given, or this
/// device when none was.
pub open spec fn selector_or_here(to: Option<String>) -> Seq<char> {
    match to {
        Some(t) => t@,
        None => "here"@,
    }
}

/// Answer which devices a selector reaches: with no selector, this device.
pub fn targets_for(spaces: &Spaces, me: &str, my_name: &str, to: Option<String>) -> (r: Response)
    requires
        spaces.wf(),
    ensures
        match resolution(spaces.listing(), spaces.default_spec(), me@, my_name@, selector_or_here(to)) {
            Ok(ds) => r matches Response::Targets { devices } && devices@.len() == ds.len() && forall|i: int|
                0 <= i < ds.len() ==> (#[trigger] devices@[i])@ == listed_as(ds[i], my_name@),
            Err(m) => r matches Response::Error { message, kind: Some(k) } && message@ == m && k@
                == no_target_kind(),
        },
{
    let selector = match to {
        Some(t) => t,
        None => owned("here"),
    };
    let resolved = resolve(spaces, me, my_name, selector.as_str());
    proof {
        if resolved is Ok {
            let v = resolved->Ok_0;
            assert forall|i: int| 0 <= i < v@.len() implies #[trigger] dests(v@)[i] == v@[i]@ by {}
        }
    }
    targets_reply(resolved, my_name)
}

// ------------------------------------------------------------ a joined space

/// Whether the default space holds nobody but this device: the empty space
/// every device founds for itself at first start, which a join displaces
/// rather than keeping beside the one just joined.
pub open spec fn unshared_now(spaces: Spaces, me: Seq<char>) -> bool {
    let c = current_of(spaces.listing(), spaces.default_spec());
    c.members@.len() <= 1 && forall|i: int| 0 <= i < c.members@.len() ==> (#[trigger] c.members@[i]).endpoint_id@ == me
}

/// What is held once a joined roster is put in, before its name is set,
/// and the id the join then goes by.
pub open spec fn held_after_join(spaces: Spaces, joined: Roster, unshared: bool, name: Seq<char>) -> (
    Map<Seq<char>, (Roster, Option<Seq<char>>)>,
    Seq<char>,
) {
    let d = spaces.default_spec();
    if unshared {
        if spaces.map().dom().contains(d) {
            (after_replace(spaces.map(), d, joined), space_id_of(joined))
        } else {
            (spaces.map(), d)
        }
    } else {
        (spaces.map().insert(space_id_of(joined), (joined, Some(name))), space_id_of(joined))
    }
}

/// Hold a space this device has just joined, under the name chosen for it,
/// and say what it is called here.
///
/// A device still in the empty space it founded for itself has that space
/// displaced, name and all: the placeholder named a roster that no longer
/// exists. Otherwise the space is added beside those already held. The name
/// is set where nothing else held here goes by it; a refusal then is not
/// worth failing a join the other device has already accepted.
pub fn hold_joined(spaces: &mut Spaces, joined: Roster, me: &str, name: &str) -> (r: String)
    requires
        old(spaces).wf(),
        old(spaces).listing().len() > 0,
    ensures
        final(spaces).wf(),
        ({
            let unshared = unshared_now(*old(spaces), me@);
            let (mid, id) = held_after_join(*old(spaces), joined, unshared, name@);
            let t = trim(name@);
            &&& r@ == label_in(final(spaces).listing(), id)
            &&& final(spaces).map() == mid || (mid.dom().contains(id) && final(spaces).map() == mid.insert(
                id,
                (mid[id].0, Some(t)),
            ))
            &&& mid.dom().contains(id) && label_refusal(t) is None && (forall|k: Seq<char>|
                #[trigger] mid.dom().contains(k) && k != id ==> mid[k].1 != Some(t))
                ==> final(spaces).map() == mid.insert(id, (mid[id].0, Some(t)))
            &&& label_refusal(t) is Some ==> final(spaces).map() == mid
            &&& (exists|k: Seq<char>| #[trigger] mid.dom().contains(k) && k != id && mid[k].1 == Some(t))
                ==> final(spaces).map() == mid
        }),
{
    let ghost old_spaces = *spaces;
    let unshared = spaces.current_is_unshared(me);
    let id = if unshared {
        spaces.replace_current(joined);
        owned(spaces.default_id())
    } else {
        spaces.insert(joined, name)
    };
    let ghost mid = spaces.map();
    let ghost t = trim(name@);
    proof {
        if labelled(spaces.listing(), t) is Some {
            lemma_labelled_held(spaces.listing(), t);
        }
    }
    let ghost before = *spaces;
    let set = spaces.set_label(id.as_str(), name);
    proof {
        if set is Ok && label_refusal(t) is None {
            if exists|k: Seq<char>| #[trigger] mid.dom().contains(k) && k != id@ && mid[k].1 == Some(t) {
                let k = choose|k: Seq<char>| #[trigger] mid.dom().contains(k) && k != id@ && mid[k].1 == Some(t);
                if labelled(before.listing(), t) is None {
                    lemma_unlabelled(before.listing(), t);
                    assert(false);
                }
                lemma_labelled_held(before.listing(), t);
                assert(mid.insert(id@, (mid[id@].0, Some(t))) =~= mid);
            }
        }
    }
    owned(spaces.label(id.as_str()))
}

// ------------------------------------------------------------ laws

/// A space renamed by one request is the space the new name means to the
/// next: once `label` has been renamed to `to`, asking for the space called
/// `to`, trimmed, finds that same space. Labels are unique beforehand, as
/// every accepted rename keeps them.
pub proof fn law_a_renamed_space_answers_to_its_new_name(
    before: Spaces,
    after: Spaces,
    label: Seq<char>,
    to: Seq<char>,
)
    requires
        before.wf(),
        after.wf(),
        labels_unique(before.listing()),
        labelled(before.listing(), label) is Some,
        labelled(before.listing(), trim(to)) is None || labelled(before.listing(), trim(to))->0
            == labelled(before.listing(), label)->0,
        after.map() == before.map().insert(
            labelled(before.listing(), label)->0,
            (before.map()[labelled(before.listing(), label)->0].0, Some(trim(to))),
        ),
    ensures
        named_space(after, Some(trim(to))) == Ok::<Seq<char>, Seq<char>>(
            labelled(before.listing(), label)->0,
        ),
{
    let id = labelled(before.listing(), label)->0;
    lemma_labelled_held(before.listing(), label);
    law_relabelling_keeps_labels_unique(before.listing(), after.listing(), id, trim(to));
    lemma_single_label(after.listing(), trim(to), id);
}

} // verus!
