//! What the node decides: where a message goes, who may join, what a name
//! may be, and what to report back.
//!
//! The node itself is a loop of sockets, locks and speech; every choice it
//! makes on the way is a function here, from what it holds and what arrived
//! to what it should do.

use vstd::prelude::*;
use vstd::string::StrSliceExecFns;

use crate::proto::{Control, PeerMessage, Priority, Response, Status, TargetResult};
use crate::order::{by_text, dedup};
use crate::plain::shown_text;
use crate::proto::Member;
use crate::spaces::{
    current_of, first_holding, first_labelled, has_member, keyed, label_text, labelled, shown_label, Space, Spaces,
};
use crate::strs::{
    first_index, hex, hex_chars, joined, split,
    chars_of, dec, eq_ignore_case, has_char, has_control, is_prefix, owned, push_dec, push_str,
    same, same_ignoring_case, slice, starts_with, str_eq, trim, trimmed, any_control,
};
use crate::ticket::Ticket;

verus! {

// ------------------------------------------------------------ targets

/// One resolved destination for a message.
#[derive(Debug, Clone, PartialEq, Eq)]
pub enum Target {
    /// This device, with the peers that answer to the same name and were not
    /// sent to — so the ambiguity is visible on first read.
    Here { shadowed: Vec<String> },
    /// A peer, by label, public key, and the space it was found in.
    Peer { name: String, id: String, space: String },
}

/// A target as text.
pub enum Dest {
    Here(Seq<Seq<char>>),
    Peer(Seq<char>, Seq<char>, Seq<char>),
}

/// Strings as text.
pub open spec fn texts(v: Seq<String>) -> Seq<Seq<char>> {
    v.map_values(|s: String| s@)
}

impl View for Target {
    type V = Dest;

    open spec fn view(&self) -> Dest {
        match self {
            Target::Here { shadowed } => Dest::Here(texts(shadowed@)),
            Target::Peer { name, id, space } => Dest::Peer(name@, id@, space@),
        }
    }
}

/// Targets as text.
pub open spec fn dests(v: Seq<Target>) -> Seq<Dest> {
    v.map_values(|t: Target| t@)
}

/// `ids` with each of `more` added unless already there, in order.
pub open spec fn merge_ids(ids: Seq<Seq<char>>, more: Seq<Seq<char>>) -> Seq<Seq<char>>
    decreases more.len(),
{
    if more.len() == 0 {
        ids
    } else {
        let m = merge_ids(ids, more.drop_last());
        if m.contains(more.last()) {
            m
        } else {
            m.push(more.last())
        }
    }
}

/// Where this device already stands among the targets.
pub open spec fn here_at(ds: Seq<Dest>, i: int) -> bool {
    &&& 0 <= i < ds.len()
    &&& ds[i] is Here
    &&& forall|j: int| 0 <= j < i ==> !(#[trigger] ds[j] is Here)
}

/// The targets after adding `d`: this device once, however it was named,
/// with every shadowed peer either occurrence saw; a peer once.
pub open spec fn pushed(ds: Seq<Dest>, d: Dest) -> Seq<Dest> {
    match d {
        Dest::Here(sh) => if exists|i: int| here_at(ds, i) {
            let i = choose|i: int| here_at(ds, i);
            ds.update(i, Dest::Here(merge_ids(ds[i]->Here_0, sh)))
        } else {
            ds.push(d)
        },
        Dest::Peer(..) => if ds.contains(d) {
            ds
        } else {
            ds.push(d)
        },
    }
}

fn copy_strings(v: &Vec<String>) -> (r: Vec<String>)
    ensures
        texts(r@) == texts(v@),
{
    let mut r: Vec<String> = Vec::new();
    let mut i: usize = 0;
    while i < v.len()
        invariant
            i <= v@.len(),
            texts(r@) == texts(v@.take(i as int)),
        decreases v.len() - i,
    {
        let ghost before = r@;
        r.push(v[i].clone());
        assert(texts(r@) =~= texts(before).push(v@[i as int]@));
        assert(texts(v@.take(i + 1)) =~= texts(v@.take(i as int)).push(v@[i as int]@));
        i += 1;
    }
    assert(v@.take(v@.len() as int) =~= v@);
    r
}

fn holds_text(v: &Vec<String>, s: &str) -> (r: bool)
    ensures
        r == texts(v@).contains(s@),
{
    let mut i: usize = 0;
    while i < v.len()
        invariant
            i <= v@.len(),
            forall|j: int| 0 <= j < i ==> (#[trigger] v@[j])@ != s@,
        decreases v.len() - i,
    {
        if str_eq(v[i].as_str(), s) {
            assert(texts(v@)[i as int] == s@);
            return true;
        }
        i += 1;
    }
    proof {
        if texts(v@).contains(s@) {
            let k = choose|k: int| 0 <= k < texts(v@).len() && texts(v@)[k] == s@;
            assert(v@[k]@ == s@);
        }
    }
    false
}

fn is_here(t: &Target) -> (r: bool)
    ensures
        r == (*t is Here),
{
    match t {
        Target::Here { .. } => true,
        Target::Peer { .. } => false,
    }
}

fn same_target(a: &Target, b: &Target) -> (r: bool)
    ensures
        r == (a@ == b@),
{
    match (a, b) {
        (Target::Peer { name: n1, id: i1, space: s1 }, Target::Peer { name: n2, id: i2, space: s2 }) => {
            str_eq(n1.as_str(), n2.as_str()) && str_eq(i1.as_str(), i2.as_str()) && str_eq(
                s1.as_str(),
                s2.as_str(),
            )
        },
        (Target::Here { shadowed: x }, Target::Here { shadowed: y }) => {
            assert(a@ == Dest::Here(texts(x@)));
            assert(b@ == Dest::Here(texts(y@)));
            if x.len() != y.len() {
                assert(texts(x@).len() != texts(y@).len());
                return false;
            }
            let mut i: usize = 0;
            while i < x.len()
                invariant
                    a@ == Dest::Here(texts(x@)),
                    b@ == Dest::Here(texts(y@)),
                    i <= x@.len(),
                    x@.len() == y@.len(),
                    forall|j: int| 0 <= j < i ==> (#[trigger] x@[j])@ == y@[j]@,
                decreases x.len() - i,
            {
                if !str_eq(x[i].as_str(), y[i].as_str()) {
                    assert(texts(x@)[i as int] != texts(y@)[i as int]);
                    assert(texts(x@) != texts(y@));
                    return false;
                }
                i += 1;
            }
            assert(texts(x@) =~= texts(y@));
            true
        },
        _ => false,
    }
}

/// Add a target unless it is already there.
///
/// This device collapses on identity, not on payload: two selector elements
/// can both mean this device while disagreeing about what they shadowed, and
/// comparing the whole value would speak it twice. The shadow lists merge
/// instead, so whichever element saw a clash still reports it.
pub fn push_target(t: Target, targets: &mut Vec<Target>)
    ensures
        dests(final(targets)@) == pushed(dests(old(targets)@), t@),
{
    let ghost before = dests(targets@);
    let mut i: usize = 0;
    match &t {
        Target::Here { shadowed } => {
            while i < targets.len() && !is_here(&targets[i])
                invariant
                    i <= targets@.len(),
                    dests(targets@) == before,
                    forall|j: int| 0 <= j < i ==> !(#[trigger] targets@[j] is Here),
                decreases targets.len() - i,
            {
                i += 1;
            }
            proof {
                assert forall|j: int| 0 <= j < i implies !(#[trigger] before[j] is Here) by {
                    assert(!(targets@[j] is Here));
                }
            }
            if i < targets.len() {
                proof {
                    assert(before[i as int] is Here);
                    assert(here_at(before, i as int));
                    let k = choose|k: int| here_at(before, k);
                    if k < i {
                        assert(!(targets@[k] is Here));
                    } else if k > i {
                        assert(!(before[i as int] is Here));
                    }
                }
                let taken = targets.remove(i);
                let mut existing = match taken {
                    Target::Here { shadowed: e } => e,
                    Target::Peer { .. } => Vec::new(),
                };
                let ghost start = texts(existing@);
                let mut k: usize = 0;
                while k < shadowed.len()
                    invariant
                        k <= shadowed@.len(),
                        texts(existing@) == merge_ids(start, texts(shadowed@).take(k as int)),
                    decreases shadowed.len() - k,
                {
                    let ghost m = texts(existing@);
                    assert(texts(shadowed@).take(k + 1).drop_last() =~= texts(shadowed@).take(k as int));
                    if !holds_text(&existing, shadowed[k].as_str()) {
                        existing.push(shadowed[k].clone());
                        assert(texts(existing@) =~= m.push(shadowed@[k as int]@));
                    }
                    k += 1;
                }
                assert(texts(shadowed@).take(shadowed@.len() as int) =~= texts(shadowed@));
                let ghost merged = texts(existing@);
                targets.insert(i, Target::Here { shadowed: existing });
                assert(dests(targets@) =~= before.update(i as int, Dest::Here(merged)));
            } else {
                proof {
                    assert(!exists|k: int| here_at(before, k));
                }
                let copy = Target::Here { shadowed: copy_strings(shadowed) };
                targets.push(copy);
                assert(dests(targets@) =~= before.push(t@));
            }
        },
        Target::Peer { .. } => {
            while i < targets.len()
                invariant
                    t@ is Peer,
                    i <= targets@.len(),
                    dests(targets@) == before,
                    forall|j: int| 0 <= j < i ==> (#[trigger] before[j]) != t@,
                decreases targets.len() - i,
            {
                if same_target(&targets[i], &t) {
                    assert(before[i as int] == t@);
                    assert(before.contains(t@));
                    return;
                }
                i += 1;
            }
            targets.push(t);
            assert(dests(targets@) =~= before.push(t@));
        },
    }
}

// ------------------------------------------------------------ short texts

/// The first 16 characters of an endpoint id, for showing a person.
pub open spec fn short_text(id: Seq<char>) -> Seq<char> {
    if id.len() <= 16 {
        id
    } else {
        id.take(16)
    }
}

/// The first 16 characters of an endpoint id, for showing a person.
///
/// Counted in characters, not bytes: slicing at a byte offset panics on a
/// multi-byte boundary, and being wrong once would cost the whole node.
pub fn short_id(id: &str) -> (r: String)
    ensures
        r@ == short_text(id@),
{
    let cs = chars_of(id);
    let n = if cs.len() <= 16 {
        cs.len()
    } else {
        16
    };
    let t = slice(&cs, 0, n);
    let mut s = String::new();
    crate::strs::push_chars(&mut s, &t);
    assert(s@ =~= short_text(id@));
    s
}

/// Why this cannot be a device label, if it cannot.
///
/// A device name is what `--to` parses: a comma splits one device into two
/// targets, a slash reads as a space qualifier, and `all` and `here` are
/// answered before any lookup happens.
pub open spec fn name_refusal(name: Seq<char>) -> Option<Seq<char>> {
    if trim(name).len() == 0 {
        Some("a device name cannot be empty"@)
    } else if name.contains('/') || name.contains(',') {
        Some("a device name cannot contain '/' or ','"@)
    } else if has_control(name) {
        Some("a device name cannot contain control characters"@)
    } else if eq_ignore_case(name, "all"@) || eq_ignore_case(name, "here"@) {
        Some("'"@ + name + "' already means something to --to; pick another name"@)
    } else {
        None
    }
}

/// Why this cannot be a device label, if it cannot.
pub fn name_objection(name: &str) -> (r: Option<String>)
    ensures
        match (r, name_refusal(name@)) {
            (Some(a), Some(b)) => a@ == b,
            (None, None) => true,
            _ => false,
        },
{
    let cs = chars_of(name);
    let t = trimmed(&cs);
    if t.len() == 0 {
        return Some(owned("a device name cannot be empty"));
    }
    if has_char(&cs, '/') || has_char(&cs, ',') {
        return Some(owned("a device name cannot contain '/' or ','"));
    }
    if any_control(&cs) {
        return Some(owned("a device name cannot contain control characters"));
    }
    if same_ignoring_case(&cs, &chars_of("all")) || same_ignoring_case(&cs, &chars_of("here")) {
        let mut m = owned("'");
        push_str(&mut m, name);
        push_str(&mut m, "' already means something to --to; pick another name");
        return Some(m);
    }
    None
}

/// What a device that refused a message says about why.
pub open spec fn refusal_text(s: Status) -> Option<Seq<char>> {
    match s {
        Status::Muted => Some("device is muted"@),
        Status::QuietHours => Some("quiet hours are active on that device"@),
        Status::Dropped => Some("low priority, and the queue is already deep"@),
        _ => None,
    }
}

/// What a device that refused a message says about why.
pub fn refusal_detail(status: &Status) -> (r: Option<String>)
    ensures
        match (r, refusal_text(*status)) {
            (Some(a), Some(b)) => a@ == b,
            (None, None) => true,
            _ => false,
        },
{
    match status {
        Status::Muted => Some(owned("device is muted")),
        Status::QuietHours => Some(owned("quiet hours are active on that device")),
        Status::Dropped => Some(owned("low priority, and the queue is already deep")),
        _ => None,
    }
}

/// Both notes, when both apply, so neither is silently dropped.
pub open spec fn both_text(a: Option<Seq<char>>, b: Option<Seq<char>>) -> Option<Seq<char>> {
    match (a, b) {
        (Some(x), Some(y)) => Some(x + "; "@ + y),
        (Some(x), None) => Some(x),
        (None, y) => y,
    }
}

/// Optional text as text.
pub open spec fn opt_text(a: Option<String>) -> Option<Seq<char>> {
    match a {
        Some(s) => Some(s@),
        None => None,
    }
}

/// Both notes, when both apply, so neither is silently dropped.
pub fn both(a: Option<String>, b: Option<String>) -> (r: Option<String>)
    ensures
        opt_text(r) == both_text(opt_text(a), opt_text(b)),
{
    match (a, b) {
        (Some(x), Some(y)) => {
            let mut s = x;
            push_str(&mut s, "; ");
            push_str(&mut s, y.as_str());
            Some(s)
        },
        (Some(x), None) => Some(x),
        (None, y) => y,
    }
}

/// What a control did on this device, given how many messages the speaker
/// says it touched: for stopping everything, how many it cleared; for the
/// rest, one if it acted and none if there was nothing to act on.
pub open spec fn control_report(control: Control, acted: nat) -> (Status, Option<Seq<char>>) {
    match control {
        Control::Stop { msg_id: Some(_) } => if acted > 0 {
            (Status::Cancelled, None)
        } else {
            (Status::Dropped, Some("no such message here"@))
        },
        Control::Stop { msg_id: None } => if acted == 0 {
            (Status::Dropped, Some("nothing was playing or waiting"@))
        } else if acted == 1 {
            (Status::Cancelled, None)
        } else {
            (Status::Cancelled, Some(dec(acted) + " messages"@))
        },
        Control::Skip => if acted > 0 {
            (Status::Cancelled, None)
        } else {
            (Status::Dropped, Some("nothing was being spoken"@))
        },
        Control::Pause => if acted > 0 {
            (Status::Queued, Some("held mid-message"@))
        } else {
            (Status::Queued, Some("held; nothing was playing"@))
        },
        Control::Resume => if acted > 0 {
            (Status::Speaking, None)
        } else {
            (Status::Speaking, Some("resumed; nothing was waiting"@))
        },
    }
}

/// What a control did on this device.
///
/// `stop` on one message that already finished says so, rather than
/// reporting a cancellation that never was.
pub fn control_outcome(control: &Control, acted: usize) -> (r: (Status, Option<String>))
    ensures
        r.0 == control_report(*control, acted as nat).0,
        opt_text(r.1) == control_report(*control, acted as nat).1,
{
    match control {
        Control::Stop { msg_id: Some(_) } => if acted > 0 {
            (Status::Cancelled, None)
        } else {
            (Status::Dropped, Some(owned("no such message here")))
        },
        Control::Stop { msg_id: None } => if acted == 0 {
            (Status::Dropped, Some(owned("nothing was playing or waiting")))
        } else if acted == 1 {
            (Status::Cancelled, None)
        } else {
            let mut s = String::new();
            push_dec(&mut s, acted as u64);
            push_str(&mut s, " messages");
            (Status::Cancelled, Some(s))
        },
        Control::Skip => if acted > 0 {
            (Status::Cancelled, None)
        } else {
            (Status::Dropped, Some(owned("nothing was being spoken")))
        },
        Control::Pause => if acted > 0 {
            (Status::Queued, Some(owned("held mid-message")))
        } else {
            (Status::Queued, Some(owned("held; nothing was playing")))
        },
        Control::Resume => if acted > 0 {
            (Status::Speaking, None)
        } else {
            (Status::Speaking, Some(owned("resumed; nothing was waiting")))
        },
    }
}

// ------------------------------------------------------------ joining

/// What a joiner is told when no invite is open here.
pub open spec fn no_invite_text() -> Seq<char> {
    "the inviting device has no invite open — it may have expired, already been used, or the app was restarted. Show a new one there"@
}

/// What the join gate does with a request carrying `token` at `now`: the
/// invite left open afterwards, and either the space the invite was for
/// (none meaning the default) or the reason for refusing.
pub open spec fn gate(pending: Option<Ticket>, now: u64, token: Seq<char>) -> (
    Option<Ticket>,
    Result<Option<Seq<char>>, Seq<char>>,
) {
    match pending {
        None => (None, Err(no_invite_text())),
        Some(t) => if now > t.expires_at {
            (None, Err("that invite has expired; show a new one on the inviting device"@))
        } else if t.token@ != token {
            (pending, Err("that invite is not valid"@))
        } else {
            (None, Ok(opt_text(t.space)))
        },
    }
}

/// Decide whether a joiner's token opens the invite this device has
/// pending.
///
/// An expired invite is thrown away; a wrong token leaves it open; a right
/// one consumes it, so a ticket seen over a shoulder cannot be replayed.
pub fn check_invite(pending: &mut Option<Ticket>, now: u64, token: &str) -> (r: Result<
    Option<String>,
    String,
>)
    ensures
        *final(pending) == gate(*old(pending), now, token@).0,
        match (r, gate(*old(pending), now, token@).1) {
            (Ok(a), Ok(b)) => opt_text(a) == b,
            (Err(a), Err(b)) => a@ == b,
            _ => false,
        },
{
    let (expired, right) = match &*pending {
        None => {
            return Err(
                owned(
                    "the inviting device has no invite open — it may have expired, already been used, or the app was restarted. Show a new one there",
                ),
            );
        },
        Some(t) => (now > t.expires_at, str_eq(t.token.as_str(), token)),
    };
    if expired {
        *pending = None;
        return Err(owned("that invite has expired; show a new one on the inviting device"));
    }
    if !right {
        return Err(owned("that invite is not valid"));
    }
    let taken = pending.take();
    match taken {
        Some(t) => Ok(t.space),
        None => Ok(None),
    }
}

/// A wrong token is refused and leaves the invite usable.
pub proof fn law_a_wrong_token_leaves_the_invite_open(t: Ticket, now: u64, token: Seq<char>)
    requires
        now <= t.expires_at,
        t.token@ != token,
    ensures
        gate(Some(t), now, token).0 == Some(t),
        gate(Some(t), now, token).1 is Err,
{
}

/// An invite admits one joiner: once used, nothing it carried opens it
/// again.
pub proof fn law_a_used_invite_cannot_be_used_again(
    pending: Option<Ticket>,
    now: u64,
    token: Seq<char>,
    later: u64,
    again: Seq<char>,
)
    requires
        gate(pending, now, token).1 is Ok,
    ensures
        gate(gate(pending, now, token).0, later, again).1 == Err::<Option<Seq<char>>, Seq<char>>(
            no_invite_text(),
        ),
{
}

/// An expired invite is refused and thrown away, whatever token came with
/// it.
pub proof fn law_an_expired_invite_is_thrown_away(t: Ticket, now: u64, token: Seq<char>)
    requires
        now > t.expires_at,
    ensures
        gate(Some(t), now, token).0 is None,
        gate(Some(t), now, token).1 is Err,
{
}

/// The space an accepted invite admits the joiner to.
///
/// The space the ticket named, not whichever happens to be the default now;
/// one that is gone admits nobody rather than falling back to the default.
pub fn join_space(spaces: &Spaces, wanted: Option<String>) -> (r: Result<String, String>)
    requires
        spaces.wf(),
    ensures
        match wanted {
            Some(id) => if spaces.map().dom().contains(id@) {
                r matches Ok(s) && s@ == id@
            } else {
                r matches Err(m) && m@
                    == "the space that invite was for is no longer on this device. Show a new invite there"@
            },
            None => if spaces.map().dom().contains(spaces.default_spec()) {
                r matches Ok(s) && s@ == spaces.default_spec()
            } else {
                r matches Err(m) && m@ == "that space is no longer on this device"@
            },
        },
{
    match wanted {
        Some(id) => {
            if spaces.get(id.as_str()).is_some() {
                Ok(id)
            } else {
                Err(
                    owned(
                        "the space that invite was for is no longer on this device. Show a new invite there",
                    ),
                )
            }
        },
        None => {
            let d = owned(spaces.default_id());
            if spaces.get(d.as_str()).is_some() {
                Ok(d)
            } else {
                Err(owned("that space is no longer on this device"))
            }
        },
    }
}

// ------------------------------------------------------------ notes

/// Each id shortened.
pub open spec fn short_texts(ids: Seq<Seq<char>>) -> Seq<Seq<char>> {
    ids.map_values(|i: Seq<char>| short_text(i))
}

/// Say that other devices answer to the name this row was addressed by;
/// nothing when nothing was shadowed, so the common case adds no text.
pub open spec fn shadow_note(ids: Seq<Seq<char>>) -> Option<Seq<char>> {
    if ids.len() == 0 {
        None
    } else {
        let one = ids.len() == 1;
        Some(
            "this device's own name was used; "@ + dec(ids.len()) + " other "@ + (if one {
                "device"@
            } else {
                "devices"@
            }) + " also "@ + (if one {
                "answers"@
            } else {
                "answer"@
            }) + " to it and "@ + (if one {
                "was"@
            } else {
                "were"@
            }) + " not sent to: "@ + crate::strs::joined(short_texts(ids), ", "@),
        )
    }
}

fn shortened(ids: &Vec<String>) -> (r: Vec<String>)
    ensures
        texts(r@) == short_texts(texts(ids@)),
{
    let mut r: Vec<String> = Vec::new();
    let mut i: usize = 0;
    while i < ids.len()
        invariant
            i <= ids@.len(),
            r@.len() == i,
            forall|j: int| 0 <= j < i ==> (#[trigger] r@[j])@ == short_text(ids@[j]@),
        decreases ids.len() - i,
    {
        r.push(short_id(ids[i].as_str()));
        i += 1;
    }
    assert(texts(r@) =~= short_texts(texts(ids@)));
    r
}

/// Say that other devices answer to the name this row was addressed by.
pub fn also_answers_to(shadowed: &Vec<String>) -> (r: Option<String>)
    ensures
        opt_text(r) == shadow_note(texts(shadowed@)),
{
    let n = shadowed.len();
    if n == 0 {
        return None;
    }
    let one = n == 1;
    let mut s = owned("this device's own name was used; ");
    push_dec(&mut s, n as u64);
    push_str(&mut s, " other ");
    push_str(&mut s, if one { "device" } else { "devices" });
    push_str(&mut s, " also ");
    push_str(&mut s, if one { "answers" } else { "answer" });
    push_str(&mut s, " to it and ");
    push_str(&mut s, if one { "was" } else { "were" });
    push_str(&mut s, " not sent to: ");
    let short = shortened(shadowed);
    crate::strs::push_joined(&mut s, &short, ", ");
    assert(texts(short@) == short@.map_values(|p: String| p@));
    Some(s)
}

// ------------------------------------------------------------ revoking

/// The ids of the members called exactly `sel`, in order.
pub open spec fn named_ids(ms: Seq<(String, String)>, sel: Seq<char>) -> Seq<Seq<char>>
    decreases ms.len(),
{
    if ms.len() == 0 {
        Seq::empty()
    } else {
        named_ids(ms.drop_last(), sel) + if ms.last().0@ == sel {
            seq![ms.last().1@]
        } else {
            Seq::empty()
        }
    }
}

/// The ids that start with `sel`, in order.
pub open spec fn prefixed_ids(ms: Seq<(String, String)>, sel: Seq<char>) -> Seq<Seq<char>>
    decreases ms.len(),
{
    if ms.len() == 0 {
        Seq::empty()
    } else {
        prefixed_ids(ms.drop_last(), sel) + if is_prefix(sel, ms.last().1@) {
            seq![ms.last().1@]
        } else {
            Seq::empty()
        }
    }
}

/// One line per id, each shortened.
pub open spec fn id_lines(ids: Seq<Seq<char>>) -> Seq<char>
    decreases ids.len(),
{
    if ids.len() == 0 {
        Seq::empty()
    } else {
        id_lines(ids.drop_last()) + "\n  "@ + short_text(ids.last())
    }
}

/// Which device a `revoke` selector means, or why it means none.
pub open spec fn device_pick(ms: Seq<(String, String)>, sel: Seq<char>) -> Result<Seq<char>, Seq<char>> {
    let by_name = named_ids(ms, sel);
    let by_id = prefixed_ids(ms, sel);
    if by_name.len() == 1 {
        Ok(by_name[0])
    } else if by_name.len() >= 2 {
        Err(
            "more than one device is called '"@ + sel + "' in this space"@ + id_lines(by_name)
                + "\nRevoke by id instead: clispeak revoke <id>"@,
        )
    } else if by_id.len() == 1 {
        Ok(by_id[0])
    } else if by_id.len() >= 2 {
        Err("'"@ + sel + "' is a prefix of "@ + dec(by_id.len()) + " device ids here. Give more of it."@)
    } else {
        Err("no device named '"@ + sel + "' in this space"@)
    }
}

/// Which device a `revoke` selector means, given each member's name and
/// id, or why it means none.
///
/// A name that matches two devices is refused, not guessed: removing the
/// device you had just paired, and being told it worked, is the failure
/// this exists to avoid. An id — or the short prefix `devices` prints — is
/// accepted, because the other half of a name clash is usually a dead
/// device that cannot be renamed.
pub fn pick_device(members: &Vec<(String, String)>, selector: &str) -> (r: Result<String, String>)
    ensures
        match (r, device_pick(members@, selector@)) {
            (Ok(a), Ok(b)) => a@ == b,
            (Err(a), Err(b)) => a@ == b,
            _ => false,
        },
{
    let sel = chars_of(selector);
    let mut by_name: Vec<String> = Vec::new();
    let mut by_id: Vec<String> = Vec::new();
    let mut i: usize = 0;
    while i < members.len()
        invariant
            i <= members@.len(),
            sel@ == selector@,
            texts(by_name@) == named_ids(members@.take(i as int), selector@),
            texts(by_id@) == prefixed_ids(members@.take(i as int), selector@),
        decreases members.len() - i,
    {
        let ghost n0 = texts(by_name@);
        let ghost p0 = texts(by_id@);
        assert(members@.take(i + 1).drop_last() =~= members@.take(i as int));
        let (name, id) = (&members[i].0, &members[i].1);
        if str_eq(name.as_str(), selector) {
            by_name.push(id.clone());
            assert(texts(by_name@) =~= n0 + seq![id@]);
        } else {
            assert(n0 + Seq::<Seq<char>>::empty() =~= n0);
        }
        let id_chars = chars_of(id.as_str());
        if starts_with(&id_chars, &sel) {
            by_id.push(id.clone());
            assert(texts(by_id@) =~= p0 + seq![id@]);
        } else {
            assert(p0 + Seq::<Seq<char>>::empty() =~= p0);
        }
        i += 1;
    }
    assert(members@.take(members@.len() as int) =~= members@);
    if by_name.len() == 1 {
        return Ok(by_name[0].clone());
    }
    if by_name.len() >= 2 {
        let mut m = owned("more than one device is called '");
        push_str(&mut m, selector);
        push_str(&mut m, "' in this space");
        let mut k: usize = 0;
        let ghost head = m@;
        while k < by_name.len()
            invariant
                k <= by_name@.len(),
                m@ == head + id_lines(texts(by_name@).take(k as int)),
            decreases by_name.len() - k,
        {
            assert(texts(by_name@).take(k + 1).drop_last() =~= texts(by_name@).take(k as int));
            push_str(&mut m, "\n  ");
            let s = short_id(by_name[k].as_str());
            push_str(&mut m, s.as_str());
            k += 1;
        }
        assert(texts(by_name@).take(by_name@.len() as int) =~= texts(by_name@));
        push_str(&mut m, "\nRevoke by id instead: clispeak revoke <id>");
        return Err(m);
    }
    if by_id.len() == 1 {
        return Ok(by_id[0].clone());
    }
    if by_id.len() >= 2 {
        let mut m = owned("'");
        push_str(&mut m, selector);
        push_str(&mut m, "' is a prefix of ");
        push_dec(&mut m, by_id.len() as u64);
        push_str(&mut m, " device ids here. Give more of it.");
        return Err(m);
    }
    let mut m = owned("no device named '");
    push_str(&mut m, selector);
    push_str(&mut m, "' in this space");
    Err(m)
}

// ------------------------------------------------------------ resolving

/// A member met while resolving: its space, its name, its id.
pub open spec fn members_known(space: Seq<char>, ms: Seq<Member>, me: Seq<char>) -> Seq<
    (Seq<char>, Seq<char>, Seq<char>),
>
    decreases ms.len(),
{
    if ms.len() == 0 {
        Seq::empty()
    } else {
        members_known(space, ms.drop_last(), me) + if ms.last().endpoint_id@ != me {
            seq![(space, ms.last().name@, ms.last().endpoint_id@)]
        } else {
            Seq::empty()
        }
    }
}

/// Every other device in every held space, space by space in id order.
pub open spec fn known_of(s: Seq<Space>, me: Seq<char>) -> Seq<(Seq<char>, Seq<char>, Seq<char>)>
    decreases s.len(),
{
    if s.len() == 0 {
        Seq::empty()
    } else {
        known_of(s.drop_last(), me) + members_known(s.last().id@, s.last().roster.members@, me)
    }
}

/// The known devices in `space` called `name`; either left open by none.
pub open spec fn matching(
    known: Seq<(Seq<char>, Seq<char>, Seq<char>)>,
    space: Option<Seq<char>>,
    name: Option<Seq<char>>,
) -> Seq<(Seq<char>, Seq<char>, Seq<char>)>
    decreases known.len(),
{
    if known.len() == 0 {
        Seq::empty()
    } else {
        let k = known.last();
        let keep = (match space {
            Some(sp) => k.0 == sp,
            None => true,
        }) && (match name {
            Some(n) => k.1 == n,
            None => true,
        });
        matching(known.drop_last(), space, name) + if keep {
            seq![k]
        } else {
            Seq::empty()
        }
    }
}

/// A known device as a target.
pub open spec fn peer_dest(k: (Seq<char>, Seq<char>, Seq<char>)) -> Dest {
    Dest::Peer(k.1, k.2, k.0)
}

/// The targets after adding each of `ks`, in order.
pub open spec fn pushed_all(ds: Seq<Dest>, ks: Seq<(Seq<char>, Seq<char>, Seq<char>)>) -> Seq<Dest>
    decreases ks.len(),
{
    if ks.len() == 0 {
        ds
    } else {
        pushed(pushed_all(ds, ks.drop_last()), peer_dest(ks.last()))
    }
}

/// What a space is called here, `main` when it has no label or is not held.
pub open spec fn label_in(s: Seq<Space>, id: Seq<char>) -> Seq<char> {
    if keyed(s).dom().contains(id) {
        shown_label(keyed(s)[id].1)
    } else {
        "main"@
    }
}

/// Every space's label, in text order, for an error message.
pub open spec fn space_labels_text(s: Seq<Space>) -> Seq<char> {
    joined(s.map_values(|sp: Space| shown_label(label_text(sp.label))).sort_by(by_text()), ", "@)
}

/// The names a space's members go by in a suggestion list: escaped, and
/// qualified by the space when there is more than one.
pub open spec fn member_names(label: Seq<char>, ms: Seq<Member>, qualify: bool) -> Seq<Seq<char>>
    decreases ms.len(),
{
    if ms.len() == 0 {
        Seq::empty()
    } else {
        let n = shown_text(ms.last().name@, false);
        member_names(label, ms.drop_last(), qualify).push(
            if qualify {
                label + "/"@ + n
            } else {
                n
            },
        )
    }
}

/// Every member's suggested name, space by space.
pub open spec fn all_member_names(s: Seq<Space>, upto: int, qualify: bool) -> Seq<Seq<char>>
    decreases upto,
{
    if upto <= 0 {
        Seq::empty()
    } else {
        all_member_names(s, upto - 1, qualify) + member_names(
            shown_label(label_text(s[upto - 1].label)),
            s[upto - 1].roster.members@,
            qualify,
        )
    }
}

/// Every device name this device knows, sorted and each once.
pub open spec fn device_names_text(s: Seq<Space>, own: Seq<char>) -> Seq<char> {
    joined(dedup((seq![own] + all_member_names(s, s.len() as int, s.len() > 1)).sort_by(by_text())), ", "@)
}

/// No space occurs twice among the matches.
pub open spec fn spaces_distinct(ms: Seq<(Seq<char>, Seq<char>, Seq<char>)>) -> bool {
    forall|i: int, j: int| 0 <= i < j < ms.len() ==> (#[trigger] ms[i]).0 != (#[trigger] ms[j]).0
}

/// One line per clashing device: its short id and its space.
pub open spec fn clash_rows(s: Seq<Space>, ms: Seq<(Seq<char>, Seq<char>, Seq<char>)>) -> Seq<char>
    decreases ms.len(),
{
    if ms.len() == 0 {
        Seq::empty()
    } else {
        clash_rows(s, ms.drop_last()) + "\n  "@ + short_text(ms.last().2) + "  in "@ + label_in(
            s,
            ms.last().0,
        )
    }
}

/// What a name matching several devices is told.
pub open spec fn several_text(s: Seq<Space>, name: Seq<char>, ms: Seq<(Seq<char>, Seq<char>, Seq<char>)>) -> Seq<char> {
    if !spaces_distinct(ms) {
        "more than one device is called '"@ + name + "' in the same space"@ + clash_rows(s, ms)
            + "\nQualifying by space cannot separate them. Rename one on the device itself: clispeak rename <new>"@
    } else {
        "'"@ + name + "' exists in "@ + dec(ms.len()) + " spaces ("@ + joined(
            ms.map_values(|k: (Seq<char>, Seq<char>, Seq<char>)| label_in(s, k.0)),
            ", "@,
        ) + "). Qualify it: "@ + joined(
            ms.map_values(|k: (Seq<char>, Seq<char>, Seq<char>)| label_in(s, k.0) + "/"@ + name),
            "  or  "@,
        )
    }
}

/// Where resolving a selector stands: who knows what, and from where.
pub struct Scene {
    pub listing: Seq<Space>,
    pub default_id: Seq<char>,
    pub my_name: Seq<char>,
    pub known: Seq<(Seq<char>, Seq<char>, Seq<char>)>,
}

/// One selector element applied to the targets so far.
pub open spec fn step(sc: Scene, ds: Seq<Dest>, raw: Seq<char>) -> Result<Seq<Dest>, Seq<char>> {
    let element = trim(raw);
    if element.len() == 0 {
        Ok(ds)
    } else {
        let slash = first_index(element, '/');
        let qualified: Result<(Option<Seq<char>>, Seq<char>), Seq<char>> = match slash {
            Some(k) => {
                let label = trim(element.take(k));
                match labelled(sc.listing, label) {
                    Some(id) => Ok((Some(id), trim(element.skip(k + 1)))),
                    None => Err(
                        "no space called '"@ + label + "'. Known: "@ + space_labels_text(sc.listing),
                    ),
                }
            },
            None => Ok((None, element)),
        };
        match qualified {
            Err(m) => Err(m),
            Ok((scope, name)) => if eq_ignore_case(name, "all"@) {
                let space = match scope {
                    Some(id) => id,
                    None => sc.default_id,
                };
                let with_here = if keyed(sc.listing).dom().contains(space) {
                    pushed(ds, Dest::Here(Seq::empty()))
                } else {
                    ds
                };
                Ok(pushed_all(with_here, matching(sc.known, Some(space), None)))
            } else if scope is None && (eq_ignore_case(name, "here"@) || name == sc.my_name) {
                let shadowed = if eq_ignore_case(name, "here"@) {
                    Seq::empty()
                } else {
                    matching(sc.known, None, Some(name)).map_values(
                        |k: (Seq<char>, Seq<char>, Seq<char>)| k.2,
                    )
                };
                Ok(pushed(ds, Dest::Here(shadowed)))
            } else {
                let found = match scope {
                    Some(id) => matching(sc.known, Some(id), Some(name)),
                    None => {
                        let in_default = matching(sc.known, Some(sc.default_id), Some(name));
                        if in_default.len() == 0 {
                            matching(sc.known, None, Some(name))
                        } else {
                            in_default
                        }
                    },
                };
                if found.len() == 0 {
                    Err(
                        "no device named '"@ + name + "' in this space. Known: "@ + device_names_text(
                            sc.listing,
                            sc.my_name,
                        ),
                    )
                } else if found.len() == 1 {
                    Ok(pushed(ds, peer_dest(found[0])))
                } else {
                    Err(several_text(sc.listing, name, found))
                }
            },
        }
    }
}

/// Every selector element applied in turn, stopping at the first refusal.
pub open spec fn steps(sc: Scene, pieces: Seq<Seq<char>>) -> Result<Seq<Dest>, Seq<char>>
    decreases pieces.len(),
{
    if pieces.len() == 0 {
        Ok(Seq::empty())
    } else {
        match steps(sc, pieces.drop_last()) {
            Err(m) => Err(m),
            Ok(ds) => step(sc, ds, pieces.last()),
        }
    }
}

/// The devices a selector names, or why it names none.
pub open spec fn resolution(
    listing: Seq<Space>,
    default_id: Seq<char>,
    me: Seq<char>,
    my_name: Seq<char>,
    selector: Seq<char>,
) -> Result<Seq<Dest>, Seq<char>> {
    let sc = Scene { listing, default_id, my_name, known: known_of(listing, me) };
    match steps(sc, split(selector, ',')) {
        Err(m) => Err(m),
        Ok(ds) => if ds.len() == 0 {
            Err("'"@ + selector + "' names no devices"@)
        } else {
            Ok(ds)
        },
    }
}

/// Known devices as text.
pub open spec fn known_views(v: Seq<(String, String, String)>) -> Seq<(Seq<char>, Seq<char>, Seq<char>)> {
    v.map_values(|k: (String, String, String)| (k.0@, k.1@, k.2@))
}

fn known_list(spaces: &Spaces, me: &str) -> (r: Vec<(String, String, String)>)
    ensures
        known_views(r@) == known_of(spaces.listing(), me@),
{
    let held = spaces.held();
    let mut r: Vec<(String, String, String)> = Vec::new();
    let mut i: usize = 0;
    while i < held.len()
        invariant
            i <= held@.len(),
            known_views(r@) == known_of(held@.take(i as int), me@),
        decreases held.len() - i,
    {
        assert(held@.take(i + 1).drop_last() =~= held@.take(i as int));
        let sp = &held[i];
        let ms = &sp.roster.members;
        let ghost base = known_views(r@);
        let mut j: usize = 0;
        while j < ms.len()
            invariant
                j <= ms@.len(),
                known_views(r@) == base + members_known(sp.id@, ms@.take(j as int), me@),
            decreases ms.len() - j,
        {
            assert(ms@.take(j + 1).drop_last() =~= ms@.take(j as int));
            let ghost before = known_views(r@);
            if !str_eq(ms[j].endpoint_id.as_str(), me) {
                r.push((sp.id.clone(), ms[j].name.clone(), ms[j].endpoint_id.clone()));
                assert(known_views(r@) =~= before.push((sp.id@, ms@[j as int].name@, ms@[j as int].endpoint_id@)));
            }
            assert(members_known(sp.id@, ms@.take(j + 1), me@) =~= members_known(sp.id@, ms@.take(j as int), me@) + if ms@[j as int].endpoint_id@ != me@ {
                seq![(sp.id@, ms@[j as int].name@, ms@[j as int].endpoint_id@)]
            } else {
                Seq::empty()
            });
            j += 1;
        }
        assert(ms@.take(ms@.len() as int) =~= ms@);
        i += 1;
    }
    assert(held@.take(held@.len() as int) =~= held@);
    r
}

fn pick_matching(
    known: &Vec<(String, String, String)>,
    space: Option<&str>,
    name: Option<&str>,
) -> (r: Vec<(String, String, String)>)
    ensures
        known_views(r@) == matching(
            known_views(known@),
            match space {
                Some(x) => Some(x@),
                None => None,
            },
            match name {
                Some(x) => Some(x@),
                None => None,
            },
        ),
{
    let ghost sp = match space {
        Some(x) => Some(x@),
        None => None::<Seq<char>>,
    };
    let ghost nm = match name {
        Some(x) => Some(x@),
        None => None::<Seq<char>>,
    };
    let mut r: Vec<(String, String, String)> = Vec::new();
    let mut i: usize = 0;
    while i < known.len()
        invariant
            i <= known@.len(),
            sp == match space {
                Some(x) => Some(x@),
                None => None::<Seq<char>>,
            },
            nm == match name {
                Some(x) => Some(x@),
                None => None::<Seq<char>>,
            },
            known_views(r@) == matching(known_views(known@).take(i as int), sp, nm),
        decreases known.len() - i,
    {
        assert(known_views(known@).take(i + 1).drop_last() =~= known_views(known@).take(i as int));
        let k = &known[i];
        let keep_space = match space {
            Some(x) => str_eq(k.0.as_str(), x),
            None => true,
        };
        let keep_name = match name {
            Some(x) => str_eq(k.1.as_str(), x),
            None => true,
        };
        let ghost before = known_views(r@);
        if keep_space && keep_name {
            r.push((k.0.clone(), k.1.clone(), k.2.clone()));
            assert(known_views(r@) =~= before + seq![(k.0@, k.1@, k.2@)]);
        } else {
            assert(known_views(r@) =~= before + Seq::<(Seq<char>, Seq<char>, Seq<char>)>::empty());
        }
        i += 1;
    }
    assert(known_views(known@).take(known@.len() as int) =~= known_views(known@));
    r
}

fn label_of(spaces: &Spaces, id: &str) -> (r: String)
    requires
        spaces.wf(),
    ensures
        r@ == label_in(spaces.listing(), id@),
{
    owned(spaces.label(id))
}

/// Every space label this device knows, in text order, for an error
/// message.
pub fn space_labels(spaces: &Spaces) -> (r: String)
    ensures
        r@ == space_labels_text(spaces.listing()),
{
    let held = spaces.held();
    let mut labels: Vec<String> = Vec::new();
    let mut i: usize = 0;
    while i < held.len()
        invariant
            i <= held@.len(),
            labels@.len() == i,
            forall|j: int| 0 <= j < i ==> (#[trigger] labels@[j])@ == shown_label(label_text(held@[j].label)),
        decreases held.len() - i,
    {
        let l = match &held[i].label {
            Some(x) => x.clone(),
            None => owned("main"),
        };
        labels.push(l);
        i += 1;
    }
    assert(crate::order::views(labels@) =~= held@.map_values(|sp: Space| shown_label(label_text(sp.label))));
    let sorted = crate::order::sort_texts(labels);
    let mut r = String::new();
    crate::strs::push_joined(&mut r, &sorted, ", ");
    assert(sorted@.map_values(|p: String| p@) == crate::order::views(sorted@));
    r
}

/// Every device name this device knows, qualified by space where there is
/// more than one, sorted and each once.
///
/// A member's name is chosen on that device, so it is escaped here, where
/// it is put inside an error message.
pub fn device_names(spaces: &Spaces, own: &str) -> (r: String)
    ensures
        r@ == device_names_text(spaces.listing(), own@),
{
    let held = spaces.held();
    let several = held.len() > 1;
    let mut names: Vec<String> = Vec::new();
    names.push(owned(own));
    let mut i: usize = 0;
    while i < held.len()
        invariant
            i <= held@.len(),
            several == (held@.len() > 1),
            crate::order::views(names@) == seq![own@] + all_member_names(held@, i as int, several),
        decreases held.len() - i,
    {
        let label = match &held[i].label {
            Some(x) => x.clone(),
            None => owned("main"),
        };
        let ms = &held[i].roster.members;
        let ghost base = crate::order::views(names@);
        let mut j: usize = 0;
        while j < ms.len()
            invariant
                j <= ms@.len(),
                label@ == shown_label(label_text(held@[i as int].label)),
                crate::order::views(names@) == base + member_names(label@, ms@.take(j as int), several),
            decreases ms.len() - j,
        {
            assert(ms@.take(j + 1).drop_last() =~= ms@.take(j as int));
            let n = crate::plain::plain(ms[j].name.as_str());
            let entry = if several {
                let mut e = label.clone();
                push_str(&mut e, "/");
                push_str(&mut e, n.as_str());
                e
            } else {
                n
            };
            let ghost before = crate::order::views(names@);
            names.push(entry);
            assert(crate::order::views(names@) =~= before.push(entry@));
            j += 1;
        }
        assert(ms@.take(ms@.len() as int) =~= ms@);
        i += 1;
    }
    let sorted = crate::order::sort_texts(names);
    let unique = crate::order::dedup_texts(sorted);
    let mut r = String::new();
    crate::strs::push_joined(&mut r, &unique, ", ");
    assert(unique@.map_values(|p: String| p@) == crate::order::views(unique@));
    r
}

fn several_message(spaces: &Spaces, name: &str, found: &Vec<(String, String, String)>) -> (r: String)
    requires
        spaces.wf(),
    ensures
        r@ == several_text(spaces.listing(), name@, known_views(found@)),
{
    let ghost ks = known_views(found@);
    let mut distinct = true;
    let mut i: usize = 0;
    while i < found.len()
        invariant
            i <= found@.len(),
            ks == known_views(found@),
            distinct == (forall|a: int, b: int| 0 <= a < b < found@.len() && a < i ==> (#[trigger] ks[a]).0 != (#[trigger] ks[b]).0),
        decreases found.len() - i,
    {
        let mut j: usize = i + 1;
        let ghost was = distinct;
        while j < found.len()
            invariant
                i < found@.len(),
                i + 1 <= j <= found@.len(),
                ks == known_views(found@),
                was == (forall|a: int, b: int| 0 <= a < b < found@.len() && a < i ==> (#[trigger] ks[a]).0 != (#[trigger] ks[b]).0),
                distinct == (was && forall|b: int| i < b < j ==> ks[i as int].0 != (#[trigger] ks[b]).0),
            decreases found.len() - j,
        {
            assert(ks[i as int].0 == found@[i as int].0@ && ks[j as int].0 == found@[j as int].0@);
            if str_eq(found[i].0.as_str(), found[j].0.as_str()) {
                distinct = false;
            }
            j += 1;
        }
        proof {
            assert(distinct == (forall|a: int, b: int| 0 <= a < b < found@.len() && a < i + 1 ==> (#[trigger] ks[a]).0 != (#[trigger] ks[b]).0)) by {
                if distinct {
                    assert forall|a: int, b: int| 0 <= a < b < found@.len() && a < i + 1 implies (#[trigger] ks[a]).0 != (#[trigger] ks[b]).0 by {
                        if a < i {
                        } else {
                            assert(a == i);
                        }
                    }
                } else if was {
                    let b = choose|b: int| i < b < j && !(ks[i as int].0 != (#[trigger] ks[b]).0);
                    assert(0 <= i < b < found@.len() && i < i + 1);
                }
            }
        }
        i += 1;
    }
    assert(distinct == spaces_distinct(ks));
    if !distinct {
        let mut m = owned("more than one device is called '");
        push_str(&mut m, name);
        push_str(&mut m, "' in the same space");
        let ghost head = m@;
        let mut k: usize = 0;
        while k < found.len()
            invariant
                spaces.wf(),
                k <= found@.len(),
                ks == known_views(found@),
                m@ == head + clash_rows(spaces.listing(), ks.take(k as int)),
            decreases found.len() - k,
        {
            assert(ks.take(k + 1).drop_last() =~= ks.take(k as int));
            push_str(&mut m, "\n  ");
            let short = short_id(found[k].2.as_str());
            push_str(&mut m, short.as_str());
            push_str(&mut m, "  in ");
            let l = label_of(spaces, found[k].0.as_str());
            push_str(&mut m, l.as_str());
            k += 1;
        }
        assert(ks.take(found@.len() as int) =~= ks);
        push_str(
            &mut m,
            "\nQualifying by space cannot separate them. Rename one on the device itself: clispeak rename <new>",
        );
        return m;
    }
    let mut wheres: Vec<String> = Vec::new();
    let mut hints: Vec<String> = Vec::new();
    let mut k: usize = 0;
    while k < found.len()
        invariant
            spaces.wf(),
            k <= found@.len(),
            ks == known_views(found@),
            wheres@.len() == k,
            hints@.len() == k,
            forall|j: int| 0 <= j < k ==> (#[trigger] wheres@[j])@ == label_in(spaces.listing(), ks[j].0),
            forall|j: int| 0 <= j < k ==> (#[trigger] hints@[j])@ == label_in(spaces.listing(), ks[j].0) + "/"@ + name@,
        decreases found.len() - k,
    {
        let l = label_of(spaces, found[k].0.as_str());
        let mut h = l.clone();
        push_str(&mut h, "/");
        push_str(&mut h, name);
        wheres.push(l);
        hints.push(h);
        k += 1;
    }
    let mut m = owned("'");
    push_str(&mut m, name);
    push_str(&mut m, "' exists in ");
    push_dec(&mut m, found.len() as u64);
    push_str(&mut m, " spaces (");
    crate::strs::push_joined(&mut m, &wheres, ", ");
    push_str(&mut m, "). Qualify it: ");
    crate::strs::push_joined(&mut m, &hints, "  or  ");
    assert(wheres@.map_values(|p: String| p@) =~= ks.map_values(|k: (Seq<char>, Seq<char>, Seq<char>)| label_in(spaces.listing(), k.0)));
    assert(hints@.map_values(|p: String| p@) =~= ks.map_values(|k: (Seq<char>, Seq<char>, Seq<char>)| label_in(spaces.listing(), k.0) + "/"@ + name@));
    m
}

/// The scene a selector is resolved in.
pub open spec fn scene_of(spaces: &Spaces, my_name: Seq<char>, known: Seq<(Seq<char>, Seq<char>, Seq<char>)>) -> Scene {
    Scene { listing: spaces.listing(), default_id: spaces.default_spec(), my_name, known }
}

fn push_peers(targets: &mut Vec<Target>, peers: &Vec<(String, String, String)>)
    ensures
        dests(final(targets)@) == pushed_all(dests(old(targets)@), known_views(peers@)),
{
    let ghost start = dests(targets@);
    let mut i: usize = 0;
    while i < peers.len()
        invariant
            i <= peers@.len(),
            dests(targets@) == pushed_all(start, known_views(peers@).take(i as int)),
        decreases peers.len() - i,
    {
        assert(known_views(peers@).take(i + 1).drop_last() =~= known_views(peers@).take(i as int));
        let k = &peers[i];
        let t = Target::Peer { name: k.1.clone(), id: k.2.clone(), space: k.0.clone() };
        push_target(t, targets);
        i += 1;
    }
    assert(known_views(peers@).take(peers@.len() as int) =~= known_views(peers@));
}

fn ids_of(found: &Vec<(String, String, String)>) -> (r: Vec<String>)
    ensures
        texts(r@) == known_views(found@).map_values(|k: (Seq<char>, Seq<char>, Seq<char>)| k.2),
{
    let mut r: Vec<String> = Vec::new();
    let mut i: usize = 0;
    while i < found.len()
        invariant
            i <= found@.len(),
            r@.len() == i,
            forall|j: int| 0 <= j < i ==> (#[trigger] r@[j])@ == found@[j].2@,
        decreases found.len() - i,
    {
        r.push(found[i].2.clone());
        i += 1;
    }
    assert(texts(r@) =~= known_views(found@).map_values(|k: (Seq<char>, Seq<char>, Seq<char>)| k.2));
    r
}

fn resolve_step(
    spaces: &Spaces,
    known: &Vec<(String, String, String)>,
    my_name: &str,
    targets: &mut Vec<Target>,
    raw: &Vec<char>,
) -> (r: Result<(), String>)
    requires
        spaces.wf(),
    ensures
        match (r, step(scene_of(spaces, my_name@, known_views(known@)), dests(old(targets)@), raw@)) {
            (Ok(_), Ok(ds)) => dests(final(targets)@) == ds,
            (Err(a), Err(b)) => a@ == b,
            _ => false,
        },
{
    let ghost sc = scene_of(spaces, my_name@, known_views(known@));
    let element = trimmed(raw);
    if element.len() == 0 {
        return Ok(());
    }
    let (scope, name): (Option<String>, Vec<char>) = match crate::strs::find_char(&element, '/') {
        Some(k) => {
            let head = slice(&element, 0, k);
            assert(head@ =~= element@.take(k as int));
            let label = trimmed(&head);
            let label_text = crate::strs::string_of(&label);
            match spaces.by_label(label_text.as_str()) {
                Some(id) => {
                    let tail = slice(&element, k + 1, element.len());
                    assert(tail@ =~= element@.skip(k + 1));
                    (Some(id), trimmed(&tail))
                },
                None => {
                    let mut m = owned("no space called '");
                    crate::strs::push_chars(&mut m, &label);
                    push_str(&mut m, "'. Known: ");
                    let known_labels = space_labels(spaces);
                    push_str(&mut m, known_labels.as_str());
                    return Err(m);
                },
            }
        },
        None => (None, element),
    };
    let name_text = crate::strs::string_of(&name);
    if same_ignoring_case(&name, &chars_of("all")) {
        let space = match scope {
            Some(id) => id,
            None => owned(spaces.default_id()),
        };
        if spaces.get(space.as_str()).is_some() {
            let none: Vec<String> = Vec::new();
            assert(texts(none@) =~= Seq::<Seq<char>>::empty());
            push_target(Target::Here { shadowed: none }, targets);
        }
        let peers = pick_matching(known, Some(space.as_str()), None);
        push_peers(targets, &peers);
        return Ok(());
    }
    let is_here = same_ignoring_case(&name, &chars_of("here"));
    if scope.is_none() && (is_here || str_eq(name_text.as_str(), my_name)) {
        let shadowed = if is_here {
            let v: Vec<String> = Vec::new();
            assert(texts(v@) =~= Seq::<Seq<char>>::empty());
            v
        } else {
            let found = pick_matching(known, None, Some(name_text.as_str()));
            ids_of(&found)
        };
        push_target(Target::Here { shadowed }, targets);
        return Ok(());
    }
    let found = match &scope {
        Some(id) => pick_matching(known, Some(id.as_str()), Some(name_text.as_str())),
        None => {
            let d = owned(spaces.default_id());
            let in_default = pick_matching(known, Some(d.as_str()), Some(name_text.as_str()));
            if in_default.len() == 0 {
                pick_matching(known, None, Some(name_text.as_str()))
            } else {
                in_default
            }
        },
    };
    if found.len() == 0 {
        let mut m = owned("no device named '");
        push_str(&mut m, name_text.as_str());
        push_str(&mut m, "' in this space. Known: ");
        let names = device_names(spaces, my_name);
        push_str(&mut m, names.as_str());
        return Err(m);
    }
    if found.len() == 1 {
        let k = &found[0];
        push_target(Target::Peer { name: k.1.clone(), id: k.2.clone(), space: k.0.clone() }, targets);
        return Ok(());
    }
    Err(several_message(spaces, name_text.as_str(), &found))
}

/// A refusal part-way through stays the answer.
proof fn lemma_steps_stay_refused(sc: Scene, ps: Seq<Seq<char>>, k: int)
    requires
        0 <= k <= ps.len(),
        steps(sc, ps.take(k)) is Err,
    ensures
        steps(sc, ps) == steps(sc, ps.take(k)),
    decreases ps.len(),
{
    if k == ps.len() {
        assert(ps.take(k) =~= ps);
    } else {
        assert(ps.drop_last().take(k) =~= ps.take(k));
        lemma_steps_stay_refused(sc, ps.drop_last(), k);
    }
}

/// Turn a selector into the devices it names, as this device holds its
/// spaces and calls itself.
///
/// Accepts a comma-separated list, so `desk,pixel` reaches both. Each
/// element is a device label, `all`, `here`, or any of those qualified by a
/// space as `work/laptop`. Duplicates collapse, because `all,pixel` should
/// not make the phone say it twice.
///
/// `all` is scoped to one space, and there is deliberately no selector
/// meaning "every device everywhere": crossing spaces has to be spelled
/// out. A bare name resolves in the default space when it exists there, and
/// otherwise anywhere it is unique; a name in two other spaces is an error
/// asking for it to be qualified, never a guess.
///
/// An unknown name is an error naming every name that *is* known: partial
/// delivery from a typo is the failure worth preventing.
pub fn resolve(spaces: &Spaces, me: &str, my_name: &str, selector: &str) -> (r: Result<Vec<Target>, String>)
    requires
        spaces.wf(),
    ensures
        match (r, resolution(spaces.listing(), spaces.default_spec(), me@, my_name@, selector@)) {
            (Ok(v), Ok(ds)) => dests(v@) == ds,
            (Err(a), Err(b)) => a@ == b,
            _ => false,
        },
{
    let known = known_list(spaces, me);
    let ghost sc = scene_of(spaces, my_name@, known_views(known@));
    assert(sc == Scene {
        listing: spaces.listing(),
        default_id: spaces.default_spec(),
        my_name: my_name@,
        known: known_of(spaces.listing(), me@),
    });
    let cs = chars_of(selector);
    let pieces = crate::strs::split_on(&cs, ',');
    let ghost all = split(selector@, ',');
    let mut targets: Vec<Target> = Vec::new();
    let mut i: usize = 0;
    assert(all.take(0) =~= Seq::<Seq<char>>::empty());
    assert(dests(targets@) =~= Seq::<Dest>::empty());
    while i < pieces.len()
        invariant
            spaces.wf(),
            sc == scene_of(spaces, my_name@, known_views(known@)),
            known_views(known@) == known_of(spaces.listing(), me@),
            all == split(selector@, ','),
            i <= pieces@.len(),
            pieces@.len() == all.len(),
            forall|k: int| 0 <= k < pieces@.len() ==> #[trigger] pieces@[k]@ == all[k],
            steps(sc, all.take(i as int)) == Ok::<Seq<Dest>, Seq<char>>(dests(targets@)),
        decreases pieces.len() - i,
    {
        assert(all.take(i + 1).drop_last() =~= all.take(i as int));
        assert(pieces@[i as int]@ == all[i as int]);
        let ghost before = dests(targets@);
        assert(all.take(i + 1).last() == all[i as int]);
        assert(steps(sc, all.take(i + 1)) == step(sc, before, all[i as int]));
        match resolve_step(spaces, &known, my_name, &mut targets, &pieces[i]) {
            Ok(()) => {},
            Err(m) => {
                proof {
                    assert(steps(sc, all.take(i + 1)) is Err);
                    lemma_steps_stay_refused(sc, all, i + 1);
                    assert(steps(sc, all) == Err::<Seq<Dest>, Seq<char>>(m@));
                }
                return Err(m);
            },
        }
        i += 1;
    }
    assert(all.take(all.len() as int) =~= all);
    if targets.len() == 0 {
        let mut m = owned("'");
        push_str(&mut m, selector);
        push_str(&mut m, "' names no devices");
        return Err(m);
    }
    Ok(targets)
}

// ------------------------------------------------------------ laws

/// This device at most once, and no peer twice.
pub open spec fn no_repeats(ds: Seq<Dest>) -> bool {
    &&& forall|i: int, j: int| 0 <= i < j < ds.len() && ds[i] is Peer ==> #[trigger] ds[i] != #[trigger] ds[j]
    &&& forall|i: int, j: int| 0 <= i < j < ds.len() ==> !(#[trigger] ds[i] is Here && #[trigger] ds[j] is Here)
}

/// Adding a target never makes a device say a message twice: this device
/// stays at most once however it was named, and a peer named twice is one
/// target.
pub proof fn law_a_target_is_never_added_twice(ds: Seq<Dest>, d: Dest)
    requires
        no_repeats(ds),
    ensures
        no_repeats(pushed(ds, d)),
{
    let t = pushed(ds, d);
    match d {
        Dest::Here(sh) => {
            if exists|i: int| here_at(ds, i) {
                let k = choose|i: int| here_at(ds, i);
                assert forall|i: int, j: int| 0 <= i < j < t.len() && t[i] is Peer implies #[trigger] t[i] != #[trigger] t[j] by {
                    if j == k {
                    } else if i != k {
                        assert(ds[i] != ds[j]);
                    }
                }
                assert forall|i: int, j: int| 0 <= i < j < t.len() implies !(#[trigger] t[i] is Here && #[trigger] t[j] is Here) by {
                    if i == k {
                        assert(!(ds[k] is Here && ds[j] is Here));
                    } else if j == k {
                        assert(!(ds[i] is Here && ds[k] is Here));
                    } else {
                        assert(!(ds[i] is Here && ds[j] is Here));
                    }
                }
            } else {
                assert forall|i: int, j: int| 0 <= i < j < t.len() implies !(#[trigger] t[i] is Here && #[trigger] t[j] is Here) by {
                    if j == ds.len() {
                        if ds[i] is Here {
                            lemma_first_here(ds, i);
                        }
                    } else {
                        assert(!(ds[i] is Here && ds[j] is Here));
                    }
                }
                assert forall|i: int, j: int| 0 <= i < j < t.len() && t[i] is Peer implies #[trigger] t[i] != #[trigger] t[j] by {
                    if j < ds.len() {
                        assert(ds[i] != ds[j]);
                    }
                }
            }
        },
        Dest::Peer(..) => {
            if !ds.contains(d) {
                assert forall|i: int, j: int| 0 <= i < j < t.len() && t[i] is Peer implies #[trigger] t[i] != #[trigger] t[j] by {
                    if j < ds.len() {
                        assert(ds[i] != ds[j]);
                    } else {
                        assert(t[i] == ds[i]);
                    }
                }
                assert forall|i: int, j: int| 0 <= i < j < t.len() implies !(#[trigger] t[i] is Here && #[trigger] t[j] is Here) by {
                    if j < ds.len() {
                        assert(!(ds[i] is Here && ds[j] is Here));
                    }
                }
            }
        },
    }
}

/// Where this device stands first, when it stands anywhere.
proof fn lemma_first_here(ds: Seq<Dest>, i: int)
    requires
        0 <= i < ds.len(),
        ds[i] is Here,
    ensures
        exists|f: int| here_at(ds, f),
    decreases i,
{
    if exists|g: int| 0 <= g < i && #[trigger] ds[g] is Here {
        let g = choose|g: int| 0 <= g < i && #[trigger] ds[g] is Here;
        lemma_first_here(ds, g);
    } else {
        assert(here_at(ds, i));
    }
}

/// The targets after pushing each of `ds` in turn, from none.
pub open spec fn pushes_from_none(ds: Seq<Dest>) -> Seq<Dest>
    decreases ds.len(),
{
    if ds.len() == 0 {
        Seq::empty()
    } else {
        pushed(pushes_from_none(ds.drop_last()), ds.last())
    }
}

/// What this device's target ends up shadowing after pushing each of `ds`:
/// the first such push's list, with every later one's ids merged in; none
/// if this device was never pushed.
pub open spec fn here_shadow(ds: Seq<Dest>) -> Option<Seq<Seq<char>>>
    decreases ds.len(),
{
    if ds.len() == 0 {
        None
    } else {
        let before = here_shadow(ds.drop_last());
        match ds.last() {
            Dest::Here(sh) => Some(
                match before {
                    Some(x) => merge_ids(x, sh),
                    None => sh,
                },
            ),
            Dest::Peer(..) => before,
        }
    }
}

proof fn lemma_here_at_unique(ds: Seq<Dest>, i: int, j: int)
    requires
        here_at(ds, i),
        here_at(ds, j),
    ensures
        i == j,
{
    if i < j {
        assert(!(ds[i] is Here));
    } else if j < i {
        assert(!(ds[j] is Here));
    }
}

/// Pushing targets one after another, from none, never makes a device say
/// a message twice: this device is there at most once, however many
/// elements named it, and carries every id any of them shadowed; a peer is
/// there once; and nothing is there that was not pushed.
pub proof fn law_pushes_from_none_keep_each_device_once(ds: Seq<Dest>)
    ensures
        no_repeats(pushes_from_none(ds)),
        (exists|i: int| here_at(pushes_from_none(ds), i)) <==> here_shadow(ds) is Some,
        forall|i: int| here_at(pushes_from_none(ds), i) ==> pushes_from_none(ds)[i] == Dest::Here(here_shadow(ds)->0),
        forall|k: int| 0 <= k < ds.len() && ds[k] is Peer ==> pushes_from_none(ds).contains(#[trigger] ds[k]),
        forall|k: int| 0 <= k < pushes_from_none(ds).len() && #[trigger] pushes_from_none(ds)[k] is Peer ==> ds.contains(
            pushes_from_none(ds)[k],
        ),
    decreases ds.len(),
{
    if ds.len() > 0 {
        let p = ds.drop_last();
        let d = ds.last();
        let r = pushes_from_none(p);
        let t = pushes_from_none(ds);
        law_pushes_from_none_keep_each_device_once(p);
        law_a_target_is_never_added_twice(r, d);
        assert(t == pushed(r, d));
        match d {
            Dest::Here(sh) => {
                if exists|i: int| here_at(r, i) {
                    let i = choose|i: int| here_at(r, i);
                    assert(t == r.update(i, Dest::Here(merge_ids(r[i]->Here_0, sh))));
                    assert(here_at(t, i));
                    assert forall|j: int| here_at(t, j) implies t[j] == Dest::Here(here_shadow(ds)->0) by {
                        lemma_here_at_unique(t, i, j);
                    }
                    assert forall|k: int| 0 <= k < ds.len() && ds[k] is Peer implies t.contains(#[trigger] ds[k]) by {
                        assert(p[k] == ds[k]);
                        assert(r.contains(p[k]));
                        let m = choose|m: int| 0 <= m < r.len() && r[m] == p[k];
                        assert(m != i);
                        assert(t[m] == ds[k]);
                    }
                    assert forall|k: int| 0 <= k < t.len() && #[trigger] t[k] is Peer implies ds.contains(t[k]) by {
                        assert(k != i);
                        assert(t[k] == r[k]);
                        let m = choose|m: int| 0 <= m < p.len() && p[m] == r[k];
                        assert(ds[m] == p[m]);
                    }
                } else {
                    assert(t == r.push(d));
                    assert(here_shadow(p) is None);
                    assert(here_at(t, r.len() as int));
                    assert forall|j: int| here_at(t, j) implies t[j] == Dest::Here(here_shadow(ds)->0) by {
                        lemma_here_at_unique(t, r.len() as int, j);
                    }
                    assert forall|k: int| 0 <= k < ds.len() && ds[k] is Peer implies t.contains(#[trigger] ds[k]) by {
                        assert(p[k] == ds[k]);
                        let m = choose|m: int| 0 <= m < r.len() && r[m] == p[k];
                        assert(t[m] == ds[k]);
                    }
                    assert forall|k: int| 0 <= k < t.len() && #[trigger] t[k] is Peer implies ds.contains(t[k]) by {
                        assert(t[k] == r[k]);
                        let m = choose|m: int| 0 <= m < p.len() && p[m] == r[k];
                        assert(ds[m] == p[m]);
                    }
                }
            },
            Dest::Peer(..) => {
                assert(here_shadow(ds) == here_shadow(p));
                if r.contains(d) {
                    assert(t == r);
                    assert forall|k: int| 0 <= k < ds.len() && ds[k] is Peer implies t.contains(#[trigger] ds[k]) by {
                        if k < p.len() {
                            assert(p[k] == ds[k]);
                        }
                    }
                    assert forall|k: int| 0 <= k < t.len() && #[trigger] t[k] is Peer implies ds.contains(t[k]) by {
                        let m = choose|m: int| 0 <= m < p.len() && p[m] == r[k];
                        assert(ds[m] == p[m]);
                    }
                } else {
                    assert(t == r.push(d));
                    assert forall|i: int| here_at(t, i) <==> here_at(r, i) by {
                        if here_at(t, i) {
                            assert(i < r.len());
                        }
                    }
                    assert forall|k: int| 0 <= k < ds.len() && ds[k] is Peer implies t.contains(#[trigger] ds[k]) by {
                        if k < p.len() {
                            assert(p[k] == ds[k]);
                            let m = choose|m: int| 0 <= m < r.len() && r[m] == p[k];
                            assert(t[m] == ds[k]);
                        } else {
                            assert(t[r.len() as int] == ds[k]);
                        }
                    }
                    assert forall|k: int| 0 <= k < t.len() && #[trigger] t[k] is Peer implies ds.contains(t[k]) by {
                        if k < r.len() {
                            assert(t[k] == r[k]);
                            let m = choose|m: int| 0 <= m < p.len() && p[m] == r[k];
                            assert(ds[m] == p[m]);
                        } else {
                            assert(ds[ds.len() - 1] == t[k]);
                        }
                    }
                }
            },
        }
    }
}

/// `all` is scoped to one space: every device it adds was found in the
/// space it names, so no selector means every device everywhere.
pub proof fn law_all_stays_in_one_space(known: Seq<(Seq<char>, Seq<char>, Seq<char>)>, space: Seq<char>)
    ensures
        forall|i: int|
            0 <= i < matching(known, Some(space), None).len() ==> (#[trigger] matching(
                known,
                Some(space),
                None,
            )[i]).0 == space,
    decreases known.len(),
{
    if known.len() > 0 {
        law_all_stays_in_one_space(known.drop_last(), space);
        let m = matching(known.drop_last(), Some(space), None);
        assert forall|i: int| 0 <= i < matching(known, Some(space), None).len() implies (#[trigger] matching(
            known,
            Some(space),
            None,
        )[i]).0 == space by {
            if i < m.len() {
                assert(matching(known, Some(space), None)[i] == m[i]);
            }
        }
    }
}

// ------------------------------------------------------------ peers

/// Which held space a peer's message belongs to: the one it names, if held,
/// and otherwise — for a peer too old to name one — the space it is known
/// from.
pub open spec fn placed(spaces: Spaces, named: Option<Seq<char>>, remote: Seq<char>, found: Option<Seq<char>>) -> bool {
    match named {
        Some(id) => found == (if spaces.map().dom().contains(id) {
            Some(id)
        } else {
            None
        }),
        None => {
            let cur = current_of(spaces.listing(), spaces.default_spec());
            if has_member(cur, remote) {
                found == Some(spaces.default_spec())
            } else {
                match found {
                    Some(id) => exists|i: int| first_holding(spaces.listing(), remote, i) && #[trigger] spaces.listing()[i].id@ == id,
                    None => forall|i: int| 0 <= i < spaces.listing().len() ==> !has_member(#[trigger] spaces.listing()[i].roster, remote),
                }
            }
        },
    }
}

/// Which of this device's spaces a peer message belongs to.
///
/// A peer that names a space is answered about that space or not at all:
/// falling back for a space no longer held would merge one space's
/// membership into another.
pub fn space_for(spaces: &Spaces, named: Option<String>, remote: &str) -> (r: Option<String>)
    requires
        spaces.wf(),
        spaces.listing().len() > 0,
    ensures
        placed(*spaces, opt_text(named), remote@, opt_text(r)),
{
    match named {
        Some(id) => if spaces.get(id.as_str()).is_some() {
            Some(id)
        } else {
            None
        },
        None => spaces.space_of(remote),
    }
}

/// Whether a peer may make this device act in a space: only a member of
/// that very space may, so an unpaired device cannot make it speak and
/// membership of one space grants nothing in another.
pub open spec fn may_act_in(spaces: Spaces, space: Option<Seq<char>>, remote: Seq<char>) -> bool {
    match space {
        Some(id) => spaces.map().dom().contains(id) && has_member(spaces.map()[id].0, remote),
        None => false,
    }
}

/// Whether a peer may make this device act in the space its message was
/// placed in.
pub fn may_act(spaces: &Spaces, space: &Option<String>, remote: &str) -> (r: bool)
    requires
        spaces.wf(),
    ensures
        r == may_act_in(*spaces, opt_text(*space), remote@),
{
    match space {
        Some(id) => match spaces.get(id.as_str()) {
            Some(roster) => roster.holds(remote),
            None => false,
        },
        None => false,
    }
}

/// The name a peer goes by here: its label in the first space, in id
/// order, that holds it.
pub open spec fn sender_label(s: Seq<Space>, remote: Seq<char>, found: Option<Seq<char>>) -> bool {
    match found {
        Some(name) => exists|i: int, j: int|
            first_holding(s, remote, i) && 0 <= j < s[i].roster.members@.len()
                && (#[trigger] s[i].roster.members@[j]).endpoint_id@ == remote && name
                == s[i].roster.members@[j].name@ && forall|k: int|
                0 <= k < j ==> (#[trigger] s[i].roster.members@[k]).endpoint_id@ != remote,
        None => forall|i: int| 0 <= i < s.len() ==> !has_member(#[trigger] s[i].roster, remote),
    }
}

/// The sender's label, so a history says who a message came from rather
/// than showing a public key.
pub fn sender_name(spaces: &Spaces, remote: &str) -> (r: Option<String>)
    ensures
        sender_label(spaces.listing(), remote@, opt_text(r)),
{
    let held = spaces.held();
    let mut i: usize = 0;
    while i < held.len()
        invariant
            held@ == spaces.listing(),
            i <= held@.len(),
            forall|k: int| 0 <= k < i ==> !has_member(#[trigger] held@[k].roster, remote@),
        decreases held.len() - i,
    {
        let ms = &held[i].roster.members;
        let mut j: usize = 0;
        while j < ms.len()
            invariant
                held@ == spaces.listing(),
                i < held@.len(),
                ms@ == held@[i as int].roster.members@,
                forall|k: int| 0 <= k < i ==> !has_member(#[trigger] held@[k].roster, remote@),
                j <= ms@.len(),
                forall|k: int| 0 <= k < j ==> (#[trigger] ms@[k]).endpoint_id@ != remote@,
            decreases ms.len() - j,
        {
            if str_eq(ms[j].endpoint_id.as_str(), remote) {
                proof {
                    assert(held@[i as int].roster.members@[j as int].endpoint_id@ == remote@);
                    assert(has_member(held@[i as int].roster, remote@));
                    assert(first_holding(held@, remote@, i as int));
                    assert(sender_label(held@, remote@, Some(ms@[j as int].name@)));
                }
                return Some(ms[j].name.clone());
            }
            j += 1;
        }
        proof {
            if has_member(held@[i as int].roster, remote@) {
                let k = choose|k: int| 0 <= k < held@[i as int].roster.members@.len() && (#[trigger] held@[i as int].roster.members@[k]).endpoint_id@ == remote@;
                assert(ms@[k].endpoint_id@ != remote@);
            }
        }
        i += 1;
    }
    None
}

/// Why a join request is refused before its token is even looked at: the
/// record is signed for whoever is on the other end of the connection, so
/// a request naming a different device is an attempt to enrol a key its
/// sender does not hold.
pub fn join_request_refusal(endpoint_id: &str, remote: &str) -> (r: Option<String>)
    ensures
        endpoint_id@ == remote@ ==> r is None,
        endpoint_id@ != remote@ ==> (r matches Some(m) && m@
            == "the join request names a different device than the one that sent it"@),
{
    if str_eq(endpoint_id, remote) {
        None
    } else {
        Some(owned("the join request names a different device than the one that sent it"))
    }
}

/// What the queue's answer to a message means here: its status, any
/// detail, and whether that is the final word to record in the history.
/// A refusal travels back to the sender as it is, with its reason.
pub open spec fn queue_meaning(r: Response) -> (Status, Option<Seq<char>>, bool) {
    match r {
        Response::Accepted { .. } => (Status::Queued, None, false),
        Response::Error { message, .. } => (Status::NoEngine, Some(message@), true),
        Response::Finished { status } => (status, refusal_text(status), true),
        _ => (Status::Dropped, None, true),
    }
}

/// What the queue's answer to a message means here.
pub fn queue_answer(r: Response) -> (out: (Status, Option<String>, bool))
    ensures
        out.0 == queue_meaning(r).0,
        opt_text(out.1) == queue_meaning(r).1,
        out.2 == queue_meaning(r).2,
{
    match r {
        Response::Accepted { .. } => (Status::Queued, None, false),
        Response::Error { message, .. } => (Status::NoEngine, Some(message), true),
        Response::Finished { status } => (status, refusal_detail(&status), true),
        _ => (Status::Dropped, None, true),
    }
}

/// Longest message this device will speak in one go, in characters: about
/// two hours of speech, far past anything anyone sends and still a bound.
pub const MAX_MESSAGE_CHARS: usize = 100000;

// ------------------------------------------------------------ reports in order

/// The rows that came back for target `j`, in the order they arrived.
pub open spec fn rows_for(done: Seq<(usize, TargetResult)>, j: int) -> Seq<TargetResult>
    decreases done.len(),
{
    if done.len() == 0 {
        Seq::empty()
    } else {
        rows_for(done.drop_last(), j) + if done.last().0 == j {
            seq![done.last().1]
        } else {
            Seq::<TargetResult>::empty()
        }
    }
}

/// Every row for targets before `m`, target by target.
pub open spec fn rows_before(done: Seq<(usize, TargetResult)>, m: int) -> Seq<TargetResult>
    decreases m,
{
    if m <= 0 {
        Seq::empty()
    } else {
        rows_before(done, m - 1) + rows_for(done, m - 1)
    }
}

/// Whether some row came back for target `j`.
pub open spec fn has_row(done: Seq<(usize, TargetResult)>, j: int) -> bool {
    exists|i: int| 0 <= i < done.len() && (#[trigger] done[i]).0 == j
}

proof fn lemma_rows_for_absent(done: Seq<(usize, TargetResult)>, j: int)
    requires
        !has_row(done, j),
    ensures
        rows_for(done, j) == Seq::<TargetResult>::empty(),
    decreases done.len(),
{
    if done.len() > 0 {
        assert(!has_row(done.drop_last(), j)) by {
            if has_row(done.drop_last(), j) {
                let i = choose|i: int| 0 <= i < done.drop_last().len() && (#[trigger] done.drop_last()[i]).0 == j;
                assert(done[i] == done.drop_last()[i]);
            }
        }
        lemma_rows_for_absent(done.drop_last(), j);
        assert(done[done.len() - 1].0 != j);
        assert(rows_for(done, j) =~= Seq::<TargetResult>::empty());
    }
}

proof fn lemma_rows_before_gap(done: Seq<(usize, TargetResult)>, from: int, to: int)
    requires
        0 <= from <= to,
        forall|j: int| from <= j < to ==> !has_row(done, j),
    ensures
        rows_before(done, to) == rows_before(done, from),
    decreases to - from,
{
    if to > from {
        lemma_rows_before_gap(done, from, to - 1);
        lemma_rows_for_absent(done, to - 1);
        assert(rows_before(done, to) =~= rows_before(done, to - 1));
    }
}

fn copy_row(t: &TargetResult) -> (r: TargetResult)
    ensures
        r == *t,
{
    TargetResult {
        device: t.device.clone(),
        endpoint_id: t.endpoint_id.clone(),
        status: t.status,
        took_ms: t.took_ms,
        detail: match &t.detail {
            Some(d) => Some(d.clone()),
            None => None,
        },
    }
}

fn push_rows_for(out: &mut Vec<TargetResult>, done: &Vec<(usize, TargetResult)>, j: usize)
    ensures
        final(out)@ == old(out)@ + rows_for(done@, j as int),
{
    let ghost start = out@;
    let mut i: usize = 0;
    while i < done.len()
        invariant
            i <= done@.len(),
            out@ == start + rows_for(done@.take(i as int), j as int),
        decreases done.len() - i,
    {
        proof {
            assert(done@.take(i + 1).drop_last() =~= done@.take(i as int));
        }
        if done[i].0 == j {
            out.push(copy_row(&done[i].1));
        }
        i += 1;
    }
    assert(done@.take(done@.len() as int) =~= done@);
}

fn smallest_from(done: &Vec<(usize, TargetResult)>, lo: usize) -> (r: Option<usize>)
    ensures
        match r {
            Some(j) => lo <= j && has_row(done@, j as int) && forall|k: int|
                lo <= k < j ==> !has_row(done@, k),
            None => forall|k: int| lo <= k ==> !has_row(done@, k),
        },
{
    let mut best: Option<usize> = None;
    let mut i: usize = 0;
    while i < done.len()
        invariant
            i <= done@.len(),
            match best {
                Some(b) => lo <= b && has_row(done@, b as int) && forall|x: int|
                    0 <= x < i && lo <= done@[x].0 ==> b <= #[trigger] done@[x].0,
                None => forall|x: int| 0 <= x < i ==> #[trigger] done@[x].0 < lo,
            },
        decreases done.len() - i,
    {
        let k = done[i].0;
        if k >= lo {
            match best {
                Some(b) => {
                    if k < b {
                        best = Some(k);
                    }
                },
                None => {
                    best = Some(k);
                },
            }
        }
        i += 1;
    }
    match best {
        Some(b) => {
            assert forall|k: int| lo <= k < b implies !has_row(done@, k) by {
                if has_row(done@, k) {
                    let x = choose|x: int| 0 <= x < done@.len() && (#[trigger] done@[x]).0 == k;
                    assert(b <= done@[x].0);
                }
            }
        },
        None => {
            assert forall|k: int| lo <= k implies !has_row(done@, k) by {
                if has_row(done@, k) {
                    let x = choose|x: int| 0 <= x < done@.len() && (#[trigger] done@[x]).0 == k;
                    assert(done@[x].0 < lo);
                }
            }
        },
    }
    best
}

/// What the devices answered, in the order the targets were resolved
/// rather than the order they happened to finish, so repeated runs read the
/// same way. Each answer comes with the number of its target; answers with
/// one number keep the order they arrived in.
pub fn in_target_order(done: &Vec<(usize, TargetResult)>) -> (r: Vec<TargetResult>)
    ensures
        r@ == rows_before(done@, usize::MAX + 1),
{
    let mut out: Vec<TargetResult> = Vec::new();
    let mut next = smallest_from(done, 0);
    let ghost mut upto: int = 0;
    while next.is_some()
        invariant
            0 <= upto <= usize::MAX + 1,
            out@ == rows_before(done@, upto),
            match next {
                Some(j) => upto <= j && has_row(done@, j as int) && forall|k: int|
                    upto <= k < j ==> !has_row(done@, k),
                None => forall|k: int| upto <= k ==> !has_row(done@, k),
            },
        decreases usize::MAX + 1 - upto,
    {
        let j = match next {
            Some(j) => j,
            None => 0,
        };
        proof {
            lemma_rows_before_gap(done@, upto, j as int);
        }
        push_rows_for(&mut out, done, j);
        proof {
            upto = j + 1;
        }
        next = if j == usize::MAX {
            None
        } else {
            smallest_from(done, j + 1)
        };
    }
    proof {
        lemma_rows_before_gap(done@, upto, usize::MAX + 1);
    }
    out
}

proof fn lemma_rows_for_one(s: Seq<(usize, TargetResult)>, j: int, i: int)
    requires
        0 <= i < s.len(),
        s[i].0 == j,
        forall|x: int| 0 <= x < s.len() && x != i ==> (#[trigger] s[x]).0 != j,
    ensures
        rows_for(s, j) == seq![s[i].1],
    decreases s.len(),
{
    let d = s.drop_last();
    if i == s.len() - 1 {
        assert(!has_row(d, j)) by {
            if has_row(d, j) {
                let x = choose|x: int| 0 <= x < d.len() && (#[trigger] d[x]).0 == j;
                assert(s[x] == d[x]);
            }
        }
        lemma_rows_for_absent(d, j);
        assert(rows_for(s, j) =~= seq![s[i].1]);
    } else {
        assert forall|x: int| 0 <= x < d.len() && x != i implies (#[trigger] d[x]).0 != j by {
            assert(d[x] == s[x]);
        }
        lemma_rows_for_one(d, j, i);
        assert(s[s.len() - 1].0 != j);
        assert(rows_for(s, j) =~= seq![s[i].1]);
    }
}

/// Where target `k`'s answer sits among the answers.
pub open spec fn answer_of(done: Seq<(usize, TargetResult)>, k: int) -> int {
    choose|i: int| 0 <= i < done.len() && (#[trigger] done[i]).0 == k
}

/// Each of targets `0..n` answered, and each exactly once.
pub open spec fn answered_once(done: Seq<(usize, TargetResult)>, n: int) -> bool {
    &&& forall|k: int| 0 <= k < n ==> has_row(done, k)
    &&& forall|i: int| 0 <= i < done.len() ==> (#[trigger] done[i]).0 < n
    &&& forall|i: int, j: int| 0 <= i < j < done.len() ==> (#[trigger] done[i]).0 != (#[trigger] done[j]).0
}

proof fn lemma_rows_before_each(done: Seq<(usize, TargetResult)>, n: int, m: int)
    requires
        answered_once(done, n),
        0 <= m <= n,
    ensures
        rows_before(done, m).len() == m,
        forall|k: int| 0 <= k < m ==> rows_before(done, m)[k] == done[answer_of(done, k)].1,
    decreases m,
{
    if m > 0 {
        lemma_rows_before_each(done, n, m - 1);
        assert(has_row(done, m - 1));
        let i = answer_of(done, m - 1);
        assert(0 <= i < done.len() && done[i].0 == m - 1);
        assert forall|x: int| 0 <= x < done.len() && x != i implies (#[trigger] done[x]).0 != m - 1 by {
            if x < i {
                assert(done[x].0 != done[i].0);
            } else if i < x {
                assert(done[i].0 != done[x].0);
            }
        }
        lemma_rows_for_one(done, m - 1, i);
        let before = rows_before(done, m - 1);
        assert(rows_before(done, m) == before + seq![done[i].1]);
    }
}

/// When each target answered exactly once, the report has one row per
/// target, and target `k`'s answer in place `k`, whatever order they
/// finished in.
pub proof fn law_each_target_answers_in_its_own_place(done: Seq<(usize, TargetResult)>, n: int)
    requires
        0 <= n,
        answered_once(done, n),
    ensures
        rows_before(done, usize::MAX + 1).len() == n,
        forall|k: int|
            0 <= k < n ==> rows_before(done, usize::MAX + 1)[k] == done[answer_of(done, k)].1,
{
    if n > usize::MAX + 1 {
        assert(has_row(done, usize::MAX + 1));
        let x = choose|x: int| 0 <= x < done.len() && (#[trigger] done[x]).0 == usize::MAX + 1;
        assert(false);
    }
    lemma_rows_before_each(done, n, n);
    assert forall|j: int| n <= j < usize::MAX + 1 implies !has_row(done, j) by {
        if has_row(done, j) {
            let x = choose|x: int| 0 <= x < done.len() && (#[trigger] done[x]).0 == j;
        }
    }
    lemma_rows_before_gap(done, n, usize::MAX + 1);
}

// ------------------------------------------------------------ message ids

/// The id a message gets: `m_` and the low 32 bits of the clock in
/// nanoseconds, in hexadecimal. Short, because it is typed back to stop or
/// replay a message.
pub open spec fn msg_id_text(nanos: nat) -> Seq<char> {
    "m_"@ + hex(nanos % 0x1_0000_0000)
}

/// The id for a message sent at `nanos` on the clock.
pub fn msg_id_at(nanos: u128) -> (r: String)
    ensures
        r@ == msg_id_text(nanos as nat),
{
    let low = (nanos % 0x1_0000_0000u128) as u32;
    let mut r = owned("m_");
    let digits = hex_chars(low);
    crate::strs::push_chars(&mut r, &digits);
    r
}

// ------------------------------------------------------------ the stream a peer is sent

/// Whether a message is the chunk numbered `seq` carrying `text`.
pub open spec fn is_chunk(m: PeerMessage, seq: int, text: Seq<char>) -> bool {
    match m {
        PeerMessage::Chunk { seq: s, text: t } => s == seq && t@ == text,
        _ => false,
    }
}

/// What a peer is sent for one message, in order: an opening carrying the
/// message's settings and the space it is sent in, each chunk numbered from
/// zero, and the end. The timeout is only what the caller asked for; none
/// lets the receiver estimate, which it is better placed to do.
pub fn speak_stream(
    msg_id: &str,
    priority: Priority,
    wait: bool,
    voice: Option<String>,
    space: &str,
    timeout_secs: Option<u64>,
    chunks: &Vec<String>,
) -> (r: Vec<PeerMessage>)
    ensures
        r@.len() == chunks@.len() + 2,
        r@[0] matches PeerMessage::SpeakBegin { msg_id: m, priority: p, wait: w, voice: v, space: s, timeout_secs: t }
            && m@ == msg_id@ && p == priority && w == wait && opt_text(v) == opt_text(voice) && opt_text(s)
            == Some(space@) && t == timeout_secs,
        forall|k: int|
            0 <= k < chunks@.len() ==> is_chunk(#[trigger] r@[k + 1], k % 0x1_0000_0000, chunks@[k]@),
        r@.last() is SpeakEnd,
{
    let mut r: Vec<PeerMessage> = Vec::new();
    r.push(
        PeerMessage::SpeakBegin {
            msg_id: owned(msg_id),
            priority,
            wait,
            voice,
            space: Some(owned(space)),
            timeout_secs,
        },
    );
    let mut i: usize = 0;
    while i < chunks.len()
        invariant
            i <= chunks@.len(),
            r@.len() == i + 1,
            r@[0] matches PeerMessage::SpeakBegin { msg_id: m, priority: p, wait: w, voice: v, space: s, timeout_secs: t }
                && m@ == msg_id@ && p == priority && w == wait && opt_text(v) == opt_text(voice) && opt_text(s)
                == Some(space@) && t == timeout_secs,
            forall|k: int|
                0 <= k < i ==> is_chunk(#[trigger] r@[k + 1], k % 0x1_0000_0000, chunks@[k]@),
        decreases chunks.len() - i,
    {
        let seq = ((i as u64) % 0x1_0000_0000u64) as u32;
        r.push(PeerMessage::Chunk { seq, text: chunks[i].clone() });
        proof {
            assert forall|k: int| 0 <= k < i + 1 implies is_chunk(#[trigger] r@[k + 1], k % 0x1_0000_0000, chunks@[k]@) by {
                if k == i {
                    assert(r@[k + 1] == r@.last());
                }
            }
        }
        i += 1;
    }
    r.push(PeerMessage::SpeakEnd);
    r
}

// ------------------------------------------------------------ report rows

/// This device's row in a report on a control: what the control did here,
/// and the devices that answer to the same name, neither note dropped.
pub fn control_row_here(
    my_name: &str,
    me: &str,
    did: (Status, Option<String>),
    shadowed: &Vec<String>,
) -> (r: TargetResult)
    ensures
        r.device@ == my_name@,
        r.endpoint_id@ == me@,
        r.status == did.0,
        r.took_ms is None,
        opt_text(r.detail) == both_text(shadow_note(texts(shadowed@)), opt_text(did.1)),
{
    let (status, note) = did;
    TargetResult {
        device: owned(my_name),
        endpoint_id: owned(me),
        status,
        took_ms: None,
        detail: both(also_answers_to(shadowed), note),
    }
}

/// This device's row in a report on a message: what speaking it did here.
/// A device that refused has something more useful to say than that its
/// name was also taken elsewhere, so the shadowing is only noted where
/// nothing else was said.
pub fn speak_row_here(
    my_name: &str,
    me: &str,
    spoke: (Status, Option<u64>, Option<String>),
    shadowed: &Vec<String>,
) -> (r: TargetResult)
    ensures
        r.device@ == my_name@,
        r.endpoint_id@ == me@,
        r.status == spoke.0,
        r.took_ms == spoke.1,
        opt_text(r.detail) == match spoke.2 {
            Some(d) => Some(d@),
            None => shadow_note(texts(shadowed@)),
        },
{
    let (status, took_ms, detail) = spoke;
    let detail = match detail {
        Some(d) => Some(d),
        None => also_answers_to(shadowed),
    };
    TargetResult { device: owned(my_name), endpoint_id: owned(me), status, took_ms, detail }
}

/// A peer's row: what it answered, or unreachable with the reason the
/// exchange failed. Only an answer carries a time.
pub fn peer_row(name: String, id: String, sent: Result<(Status, Option<String>), String>, took_ms: Option<u64>) -> (r:
    TargetResult)
    ensures
        r.device@ == name@,
        r.endpoint_id@ == id@,
        match sent {
            Ok((status, detail)) => r.status == status && r.took_ms == took_ms && opt_text(r.detail)
                == opt_text(detail),
            Err(why) => r.status == Status::Unreachable && r.took_ms is None && opt_text(r.detail)
                == Some(why@),
        },
{
    match sent {
        Ok((status, detail)) => TargetResult { device: name, endpoint_id: id, status, took_ms, detail },
        Err(why) => TargetResult {
            device: name,
            endpoint_id: id,
            status: Status::Unreachable,
            took_ms: None,
            detail: Some(why),
        },
    }
}

/// Count one arriving piece of a message against the bound, saturating
/// rather than wrapping, and say whether the message is still within it.
///
/// A member's chunking is a courtesy, and nothing else bounds how many
/// pieces arrive before the end: a stream that never ended once grew until
/// the phone killed the app. Once this says no, the whole message is
/// refused rather than part of it spoken.
pub fn tally_piece(seen: &mut usize, text: &str) -> (within: bool)
    ensures
        *final(seen) as int == if *old(seen) + text@.len() > usize::MAX {
            usize::MAX as int
        } else {
            *old(seen) + text@.len()
        },
        within == (*final(seen) <= MAX_MESSAGE_CHARS),
{
    let n = text.unicode_len();
    *seen = seen.saturating_add(n);
    *seen <= MAX_MESSAGE_CHARS
}

/// What a sender whose message ran past the bound is told, with the limit
/// in it, because the sender is usually an agent that can shorten and try
/// again.
pub fn too_long() -> (r: String)
    ensures
        r@ == "message longer than "@ + dec(MAX_MESSAGE_CHARS as nat) + " characters; send it in parts"@,
{
    let mut s = owned("message longer than ");
    push_dec(&mut s, MAX_MESSAGE_CHARS as u64);
    push_str(&mut s, " characters; send it in parts");
    s
}

// ------------------------------------------------------------ naming spaces

/// The `n`th counter name.
pub open spec fn counter_name(n: nat) -> Seq<char> {
    "space-"@ + dec(n)
}

/// The first counter name, from `space-2`, that no space here goes by.
pub open spec fn is_next_label(s: Seq<Space>, r: Seq<char>) -> bool {
    exists|n: nat|
        n >= 2 && r == counter_name(n) && labelled(s, counter_name(n)) is None && forall|k: nat|
            2 <= k < n ==> (#[trigger] labelled(s, counter_name(k))) is Some
}

/// Whether a space is labelled with a counter name from `n` on.
pub open spec fn counted_from(e: Space, n: nat) -> bool {
    exists|k: nat| k >= n && label_text(e.label) == Some(counter_name(k))
}

/// How many spaces are labelled with a counter name from `n` on.
pub open spec fn taken_from(s: Seq<Space>, n: nat) -> nat
    decreases s.len(),
{
    if s.len() == 0 {
        0
    } else {
        taken_from(s.drop_last(), n) + if counted_from(s.last(), n) {
            1nat
        } else {
            0nat
        }
    }
}

proof fn lemma_taken_bounded(s: Seq<Space>, n: nat)
    ensures
        taken_from(s, n) <= s.len(),
    decreases s.len(),
{
    if s.len() > 0 {
        lemma_taken_bounded(s.drop_last(), n);
    }
}

/// Moving past a counter name some space holds counts one fewer space.
proof fn lemma_taken_shrinks(s: Seq<Space>, n: nat, i: int)
    requires
        0 <= i < s.len(),
        label_text(s[i].label) == Some(counter_name(n)),
    ensures
        taken_from(s, n + 1) < taken_from(s, n),
    decreases s.len(),
{
    lemma_taken_mono(s.drop_last(), n);
    let e = s.last();
    if counted_from(e, n + 1) {
        let k = choose|k: nat| k >= n + 1 && label_text(e.label) == Some(counter_name(k));
        assert(counted_from(e, n));
    }
    if i == s.len() - 1 {
        assert(counted_from(e, n));
        if counted_from(e, n + 1) {
            let k = choose|k: nat| k >= n + 1 && label_text(e.label) == Some(counter_name(k));
            assert(counter_name(k) == counter_name(n));
            reveal_strlit("space-");
            assert(dec(k) =~= counter_name(k).skip(6));
            assert(dec(n) =~= counter_name(n).skip(6));
            crate::strs::lemma_dec_injective(k, n);
        }
    } else {
        assert(s.drop_last()[i] == s[i]);
        lemma_taken_shrinks(s.drop_last(), n, i);
    }
}

proof fn lemma_taken_mono(s: Seq<Space>, n: nat)
    ensures
        taken_from(s, n + 1) <= taken_from(s, n),
    decreases s.len(),
{
    if s.len() > 0 {
        lemma_taken_mono(s.drop_last(), n);
        let e = s.last();
        if counted_from(e, n + 1) {
            let k = choose|k: nat| k >= n + 1 && label_text(e.label) == Some(counter_name(k));
            assert(counted_from(e, n));
        }
    }
}

/// The first counter name no space here goes by: `space-2`, `space-3`, ...
pub fn next_space_label(spaces: &Spaces) -> (r: String)
    requires
        spaces.listing().len() + 2 <= usize::MAX,
    ensures
        is_next_label(spaces.listing(), r@),
{
    let ghost s = spaces.listing();
    let mut n: usize = 2;
    proof {
        lemma_taken_bounded(s, 2);
    }
    loop
        invariant
            s == spaces.listing(),
            2 <= n,
            (n - 2) + taken_from(s, n as nat) <= s.len(),
            s.len() + 2 <= usize::MAX,
            forall|k: nat| 2 <= k < n ==> (#[trigger] labelled(s, counter_name(k))) is Some,
        decreases taken_from(s, n as nat),
    {
        let mut candidate = owned("space-");
        push_dec(&mut candidate, n as u64);
        assert(candidate@ == counter_name(n as nat));
        match spaces.by_label(candidate.as_str()) {
            None => {
                assert(is_next_label(s, candidate@));
                return candidate;
            },
            Some(_) => {
                proof {
                    let i = choose|i: int| first_labelled(s, counter_name(n as nat), i);
                    lemma_taken_shrinks(s, n as nat, i);
                }
                n = n + 1;
            },
        }
    }
}

/// Whether a wanted name can be this space's label: it has to be usable in
/// a selector, and no *other* space may have it — its own current label is
/// no clash.
pub open spec fn takeable(s: Seq<Space>, own: Option<Seq<char>>, c: Seq<char>) -> bool {
    &&& c.len() > 0
    &&& !c.contains('/')
    &&& !c.contains(',')
    &&& !has_control(c)
    &&& match labelled(s, c) {
        None => true,
        Some(holder) => own == Some(holder),
    }
}

/// The first wanted name that can be taken, trimmed; the counter when none
/// can.
pub open spec fn picked(s: Seq<Space>, own: Option<Seq<char>>, wanted: Seq<Option<Seq<char>>>, r: Seq<char>) -> bool
    decreases wanted.len(),
{
    if wanted.len() == 0 {
        is_next_label(s, r)
    } else {
        match wanted[0] {
            Some(c) => if takeable(s, own, trim(c)) {
                r == trim(c)
            } else {
                picked(s, own, wanted.drop_first(), r)
            },
            None => picked(s, own, wanted.drop_first(), r),
        }
    }
}

/// Optional texts as text.
pub open spec fn opt_strs(v: Seq<Option<&str>>) -> Seq<Option<Seq<char>>> {
    v.map_values(|o: Option<&str>| match o {
        Some(x) => Some(x@),
        None => None,
    })
}

/// What a joined space is called here: the first of the wanted names — the
/// joiner's own choice, then what the inviter calls it now, then the
/// ticket's copy — that can be taken, or the next counter name.
///
/// The last two come from the other device, so this is where a peer's
/// string becomes one of this device's labels; anything that would break a
/// selector is passed over.
pub fn pick_space_label(spaces: &Spaces, own: Option<&str>, wanted: &[Option<&str>]) -> (r: String)
    requires
        spaces.listing().len() + 2 <= usize::MAX,
    ensures
        picked(
            spaces.listing(),
            match own {
                Some(x) => Some(x@),
                None => None,
            },
            opt_strs(wanted@),
            r@,
        ),
{
    let ghost s = spaces.listing();
    let ghost o = match own {
        Some(x) => Some(x@),
        None => None::<Seq<char>>,
    };
    let ghost all = opt_strs(wanted@);
    let mut i: usize = 0;
    assert(all.skip(0) =~= all);
    while i < wanted.len()
        invariant
            s == spaces.listing(),
            s.len() + 2 <= usize::MAX,
            o == match own {
                Some(x) => Some(x@),
                None => None::<Seq<char>>,
            },
            all == opt_strs(wanted@),
            i <= wanted@.len(),
            forall|r: Seq<char>| picked(s, o, all.skip(i as int), r) ==> picked(s, o, all, r),
        decreases wanted.len() - i,
    {
        let ghost rest = all.skip(i as int);
        assert(rest[0] == all[i as int]);
        assert(rest.drop_first() =~= all.skip(i + 1));
        if let Some(c) = wanted[i] {
            let raw = chars_of(c);
            let t = trimmed(&raw);
            let usable = t.len() > 0 && !has_char(&t, '/') && !has_char(&t, ',') && !any_control(&t);
            if usable {
                let text = crate::strs::string_of(&t);
                let holder = spaces.by_label(text.as_str());
                let free = match &holder {
                    None => true,
                    Some(h) => match own {
                        Some(x) => str_eq(h.as_str(), x),
                        None => false,
                    },
                };
                if free {
                    assert(takeable(s, o, t@));
                    assert(picked(s, o, rest, text@));
                    return text;
                }
            }
        }
        i += 1;
    }
    let r = next_space_label(spaces);
    assert(all.skip(wanted@.len() as int) =~= Seq::<Option<Seq<char>>>::empty());
    r
}

// ------------------------------------------------------------ one peer message

/// Where a peer message is placed: the space it names, if held; otherwise
/// the default space if the peer is in it; otherwise the first space, in id
/// order, that holds the peer; otherwise nowhere.
pub open spec fn placement(spaces: Spaces, named: Option<Seq<char>>, remote: Seq<char>) -> Option<Seq<char>> {
    match named {
        Some(id) => if spaces.map().dom().contains(id) {
            Some(id)
        } else {
            None
        },
        None => if has_member(current_of(spaces.listing(), spaces.default_spec()), remote) {
            Some(spaces.default_spec())
        } else if exists|i: int| first_holding(spaces.listing(), remote, i) {
            Some(spaces.listing()[choose|i: int| first_holding(spaces.listing(), remote, i)].id@)
        } else {
            None
        },
    }
}

proof fn lemma_first_holding_unique(s: Seq<Space>, remote: Seq<char>, i: int, j: int)
    requires
        first_holding(s, remote, i),
        first_holding(s, remote, j),
    ensures
        i == j,
{
    if i < j {
        assert(!has_member(s[i].roster, remote));
    } else if j < i {
        assert(!has_member(s[j].roster, remote));
    }
}

/// What `space_for` finds is the placement.
proof fn lemma_placed_is_placement(spaces: Spaces, named: Option<Seq<char>>, remote: Seq<char>, found: Option<Seq<char>>)
    requires
        placed(spaces, named, remote, found),
    ensures
        found == placement(spaces, named, remote),
{
    if named is None && !has_member(current_of(spaces.listing(), spaces.default_spec()), remote) {
        match found {
            Some(id) => {
                let i = choose|i: int| first_holding(spaces.listing(), remote, i) && #[trigger] spaces.listing()[i].id@ == id;
                let j = choose|j: int| first_holding(spaces.listing(), remote, j);
                lemma_first_holding_unique(spaces.listing(), remote, i, j);
            },
            None => {
                if exists|i: int| first_holding(spaces.listing(), remote, i) {
                    let i = choose|i: int| first_holding(spaces.listing(), remote, i);
                    assert(has_member(spaces.listing()[i].roster, remote));
                }
            },
        }
    }
}

/// Whether a peer may make this device act on a message that names
/// `named`: it is placed somewhere, and a member of exactly that space.
pub open spec fn allowed_in(spaces: Spaces, named: Option<Seq<char>>, remote: Seq<char>) -> bool {
    may_act_in(spaces, placement(spaces, named, remote), remote)
}

/// The space an admitted joiner goes into: the one its invite named, or
/// the default where it named none; a space no longer held admits nobody.
pub open spec fn join_target(spaces: Spaces, wanted: Option<Seq<char>>) -> Result<Seq<char>, Seq<char>> {
    match wanted {
        Some(id) => if spaces.map().dom().contains(id) {
            Ok(id)
        } else {
            Err("the space that invite was for is no longer on this device. Show a new invite there"@)
        },
        None => if spaces.map().dom().contains(spaces.default_spec()) {
            Ok(spaces.default_spec())
        } else {
            Err("that space is no longer on this device"@)
        },
    }
}

/// What this device does about one message a peer opened a stream with.
pub enum PeerStep {
    /// Send this reply, and do nothing more about the message.
    Reply(PeerMessage),
    /// The invite admits the sender: add it to this space under this name,
    /// and answer with its signed record.
    Admit { space: String, endpoint_id: String, name: String },
    /// The sender may speak here: read its chunks, then speak them in this
    /// space, recording them as from this name.
    Listen {
        space: String,
        msg_id: String,
        priority: Priority,
        wait: bool,
        voice: Option<String>,
        timeout_secs: Option<u64>,
        from: Option<String>,
    },
    /// Merge the sender's view of this space's roster into ours, then
    /// answer with ours.
    Merge { space: String, members: Vec<Member>, revoked: Vec<(String, u64)> },
    /// Apply this control here, and report what it did.
    Apply(Control),
    /// Nothing to answer.
    Ignore,
    /// Not a message a stream opens with: the connection is dropped.
    Unexpected,
}

/// `r` refuses a join, or a roster change, with this reason.
pub open spec fn refuses(r: PeerStep, why: Seq<char>) -> bool {
    r matches PeerStep::Reply(PeerMessage::JoinRefused { reason }) && reason@ == why
}

/// `r` reports this status and detail back to the sender.
pub open spec fn reports(r: PeerStep, status: Status, detail: Option<Seq<char>>) -> bool {
    r matches PeerStep::Reply(PeerMessage::Report { status: s, detail: d }) && s == status && opt_text(d) == detail
}

/// What is decided about one message from `remote`, before any work is
/// done for it.
///
/// Authorisation is the roster and nothing else. A join request is signed
/// for whoever is on the other end of the connection, so one naming
/// another device is refused before its token is looked at, and leaves any
/// open invite as it was. Speech, roster changes and controls come only
/// from a member of the space they are placed in; every refusal is a reply
/// and nothing more, so nobody is admitted, nothing is spoken and no roster
/// is merged on its account.
pub fn peer_step(spaces: &Spaces, pending: &mut Option<Ticket>, remote: &str, msg: PeerMessage, now: u64) -> (r: PeerStep)
    requires
        spaces.wf(),
        spaces.listing().len() > 0,
    ensures
        match msg {
            PeerMessage::JoinRequest { endpoint_id, display_name, token } => if endpoint_id@ != remote@ {
                &&& *final(pending) == *old(pending)
                &&& refuses(r, "the join request names a different device than the one that sent it"@)
            } else {
                &&& *final(pending) == gate(*old(pending), now, token@).0
                &&& match gate(*old(pending), now, token@).1 {
                    Err(why) => refuses(r, why),
                    Ok(wanted) => match join_target(*spaces, wanted) {
                        Err(why) => refuses(r, why),
                        Ok(id) => r matches PeerStep::Admit { space, endpoint_id: e, name } && space@ == id
                            && e@ == remote@ && name@ == display_name@,
                    },
                }
            },
            PeerMessage::SpeakBegin { msg_id, priority, wait, voice, space, timeout_secs } => {
                &&& *final(pending) == *old(pending)
                &&& if allowed_in(*spaces, opt_text(space), remote@) {
                    r matches PeerStep::Listen { space: s, msg_id: m, priority: p, wait: w, voice: v, timeout_secs: t, from }
                        && Some(s@) == placement(*spaces, opt_text(space), remote@) && m == msg_id && p == priority
                        && w == wait && v == voice && t == timeout_secs && sender_label(spaces.listing(), remote@, opt_text(from))
                } else {
                    reports(r, Status::Rejected, Some("this device is not in that space"@))
                }
            },
            PeerMessage::RosterSync { members, revoked, space } => {
                &&& *final(pending) == *old(pending)
                &&& if allowed_in(*spaces, opt_text(space), remote@) {
                    r matches PeerStep::Merge { space: s, members: m, revoked: v } && Some(s@) == placement(
                        *spaces,
                        opt_text(space),
                        remote@,
                    ) && m == members && v == revoked
                } else {
                    refuses(r, "not a member of this space"@)
                }
            },
            PeerMessage::Control { control } => {
                &&& *final(pending) == *old(pending)
                &&& if allowed_in(*spaces, None, remote@) {
                    r == PeerStep::Apply(control)
                } else {
                    reports(r, Status::Rejected, None)
                }
            },
            PeerMessage::Hello { .. } => *final(pending) == *old(pending) && r is Ignore,
            _ => *final(pending) == *old(pending) && r is Unexpected,
        },
{
    match msg {
        PeerMessage::JoinRequest { endpoint_id, display_name, token } => {
            if let Some(why) = join_request_refusal(endpoint_id.as_str(), remote) {
                return PeerStep::Reply(PeerMessage::JoinRefused { reason: why });
            }
            match check_invite(pending, now, token.as_str()) {
                Err(why) => PeerStep::Reply(PeerMessage::JoinRefused { reason: why }),
                Ok(wanted) => {
                    match join_space(spaces, wanted) {
                        Err(why) => PeerStep::Reply(PeerMessage::JoinRefused { reason: why }),
                        Ok(id) => PeerStep::Admit { space: id, endpoint_id: owned(remote), name: display_name },
                    }
                },
            }
        },
        PeerMessage::SpeakBegin { msg_id, priority, wait, voice, space, timeout_secs } => {
            let ghost named = opt_text(space);
            let in_space = space_for(spaces, space, remote);
            proof {
                lemma_placed_is_placement(*spaces, named, remote@, opt_text(in_space));
            }
            if !may_act(spaces, &in_space, remote) {
                return PeerStep::Reply(
                    PeerMessage::Report { status: Status::Rejected, detail: Some(owned("this device is not in that space")) },
                );
            }
            let from = sender_name(spaces, remote);
            match in_space {
                Some(s) => PeerStep::Listen { space: s, msg_id, priority, wait, voice, timeout_secs, from },
                None => PeerStep::Unexpected,
            }
        },
        PeerMessage::RosterSync { members, revoked, space } => {
            let ghost named = opt_text(space);
            let in_space = space_for(spaces, space, remote);
            proof {
                lemma_placed_is_placement(*spaces, named, remote@, opt_text(in_space));
            }
            if !may_act(spaces, &in_space, remote) {
                return PeerStep::Reply(PeerMessage::JoinRefused { reason: owned("not a member of this space") });
            }
            match in_space {
                Some(s) => PeerStep::Merge { space: s, members, revoked },
                None => PeerStep::Unexpected,
            }
        },
        PeerMessage::Control { control } => {
            let in_space = space_for(spaces, None, remote);
            proof {
                lemma_placed_is_placement(*spaces, None, remote@, opt_text(in_space));
            }
            if may_act(spaces, &in_space, remote) {
                PeerStep::Apply(control)
            } else {
                PeerStep::Reply(PeerMessage::Report { status: Status::Rejected, detail: None })
            }
        },
        PeerMessage::Hello { .. } => PeerStep::Ignore,
        _ => PeerStep::Unexpected,
    }
}

/// A device that is in none of this device's spaces cannot make it speak,
/// change a roster or act on a control, whatever space its message names.
pub proof fn law_a_stranger_is_refused_everything(spaces: Spaces, named: Option<Seq<char>>, remote: Seq<char>)
    requires
        forall|i: int| 0 <= i < spaces.listing().len() ==> !has_member(#[trigger] spaces.listing()[i].roster, remote),
    ensures
        !allowed_in(spaces, named, remote),
{
    let s = spaces.listing();
    if let Some(id) = placement(spaces, named, remote) {
        if spaces.map().dom().contains(id) {
            let i = crate::spaces::index_of(s, id);
            assert(0 <= i < s.len() && s[i].id@ == id);
            assert(!has_member(s[i].roster, remote));
        }
    }
}

// ------------------------------------------------------------ speaking here

/// What is recorded the moment a message arrives to be spoken here, before
/// any policy has its say: the chunks joined back with spaces (they were
/// split on sentence boundaries, so this is the message as it was meant to
/// be heard), from its sender or else this device, and queued.
pub open spec fn arrival(
    msg_id: String,
    chunks: Seq<String>,
    from: Option<String>,
    my_name: Seq<char>,
    at: u64,
    priority: Priority,
    space: Option<String>,
) -> (Seq<char>, Seq<char>, Seq<char>, u64, Status, Priority, Option<Seq<char>>) {
    (
        msg_id@,
        joined(texts(chunks), " "@),
        match from {
            Some(f) => f@,
            None => my_name,
        },
        at,
        Status::Queued,
        priority,
        opt_text(space),
    )
}

/// The history entry for a message arriving to be spoken here.
pub fn arrival_entry(
    msg_id: String,
    chunks: &Vec<String>,
    from: Option<String>,
    my_name: &str,
    at: u64,
    priority: Priority,
    space: Option<String>,
) -> (e: crate::history::Entry)
    ensures
        (e.msg_id@, e.text@, e.from@, e.at, e.status, e.priority, opt_text(e.space)) == arrival(
            msg_id,
            chunks@,
            from,
            my_name@,
            at,
            priority,
            space,
        ),
{
    let mut text = String::new();
    crate::strs::push_joined(&mut text, chunks, " ");
    let who = match from {
        Some(f) => f,
        None => owned(my_name),
    };
    crate::history::Entry { msg_id, text, from: who, at, status: Status::Queued, priority, space }
}

/// How a wait for a message to finish ended: what the speaker said when it
/// ended, with the time taken, or, when the wait ran out first, that it is
/// still being spoken.
pub open spec fn waited(ended: Option<(Status, Option<String>)>, took_ms: u64) -> (Status, Option<u64>, Option<Seq<char>>) {
    match ended {
        Some((status, detail)) => (status, Some(took_ms), opt_text(detail)),
        None => (Status::Speaking, None, Some("still speaking; --timeout to wait longer"@)),
    }
}

/// The answer for a message spoken here, once the wait is over.
///
/// A wait that runs out is not a failure: the message was accepted and is
/// still going, and "queued" would read as though nothing had started.
pub fn wait_outcome(ended: Option<(Status, Option<String>)>, took_ms: u64) -> (r: (Status, Option<u64>, Option<String>))
    ensures
        (r.0, r.1, opt_text(r.2)) == waited(ended, took_ms),
{
    match ended {
        Some((status, detail)) => (status, Some(took_ms), detail),
        None => (Status::Speaking, None, Some(owned("still speaking; --timeout to wait longer"))),
    }
}

// ------------------------------------------------------------ starting up

/// What answered on the local socket's name before this node took it.
pub enum Listening {
    /// Nothing: the name is free.
    Nothing,
    /// A node of this user's, which proved it holds this machine's token.
    Node,
    /// Something that answered and could not prove it, with why.
    Stranger(String),
}

/// Why this node will not start, given what answered on its socket name.
pub open spec fn startup_text(l: Listening, socket: Seq<char>) -> Option<Seq<char>> {
    match l {
        Listening::Nothing => None,
        Listening::Node => Some(
            "another clispeak node is already running on "@ + socket
                + ". Only one can hold this device's identity at a time — quit the other one"@,
        ),
        Listening::Stranger(why) => Some(
            "something else on this machine holds the socket named "@ + crate::shown::quoted(socket)
                + ", and it is not a clispeak node this user started: "@ + why@
                + ". The socket name is unprotected on this platform, so any local process can take it first — set CLISPEAK_SOCKET to a different name to work around it. Nothing was sent to whatever holds it"@,
        ),
    }
}

/// Refuse to start beside another node, or beside a stranger holding the
/// socket's name; the two are told apart so a person looks for the right
/// thing to quit.
pub fn startup_refusal(l: &Listening, socket: &str) -> (r: Option<String>)
    ensures
        opt_text(r) == startup_text(*l, socket@),
{
    match l {
        Listening::Nothing => None,
        Listening::Node => {
            let mut s = owned("another clispeak node is already running on ");
            push_str(&mut s, socket);
            push_str(&mut s, ". Only one can hold this device's identity at a time — quit the other one");
            Some(s)
        },
        Listening::Stranger(why) => {
            let mut s = owned("something else on this machine holds the socket named ");
            let q = crate::shown::quote(socket);
            push_str(&mut s, q.as_str());
            push_str(&mut s, ", and it is not a clispeak node this user started: ");
            push_str(&mut s, why.as_str());
            push_str(
                &mut s,
                ". The socket name is unprotected on this platform, so any local process can take it first — set CLISPEAK_SOCKET to a different name to work around it. Nothing was sent to whatever holds it",
            );
            Some(s)
        },
    }
}

/// What each control reports of what the speaker did. Stopping everything
/// is a cancellation whenever at least one message was cleared, and says
/// nothing was playing or waiting only when none was; stopping one message,
/// or skipping, cancels exactly when the speaker acted; pausing always
/// leaves speech held and resuming always has it speaking.
pub proof fn law_a_control_reports_what_the_speaker_did(acted: nat, id: Option<String>)
    ensures
        acted >= 1 ==> control_report(Control::Stop { msg_id: None }, acted).0 == Status::Cancelled,
        acted == 1 ==> control_report(Control::Stop { msg_id: None }, acted).1 is None,
        acted >= 2 ==> control_report(Control::Stop { msg_id: None }, acted).1 == Some(
            dec(acted) + " messages"@,
        ),
        control_report(Control::Stop { msg_id: None }, 0) == (
            Status::Dropped,
            Some("nothing was playing or waiting"@),
        ),
        id is Some ==> (control_report(Control::Stop { msg_id: id }, acted).0 == Status::Cancelled <==> acted >= 1),
        control_report(Control::Skip, acted).0 == Status::Cancelled <==> acted >= 1,
        control_report(Control::Pause, acted).0 == Status::Queued,
        control_report(Control::Resume, acted).0 == Status::Speaking,
{
}

} // verus!
