//! What the desktop window shows, read from the node's replies.
//!
//! Every button in the window asks the node something and gets a reply back.
//! The functions here turn a reply into what the window says: the value it
//! asked for, or one sentence saying why not. A reply this build does not
//! expect is an error with the reply shown, never a blank that the window
//! would draw as settled state.

use vstd::prelude::*;
use vstd::string::StrSliceExecFns;

use crate::history::{holds_id, newest_with, Entry, History};
use crate::node::{opt_text, short_id, short_text};
use crate::proto::{DeviceInfo, HistoryEntry, Response, SpacePolicy, SpaceRow, Status, TargetResult};
use crate::shown::{reply_form, reply_text};
use crate::ticket::{invite_picture, qr_svg};
use crate::strs::{dec, joined, owned, push_dec, push_str};

verus! {

// ------------------------------------------------------------ unexpected replies

/// What a person is shown for a reply that was not the one asked for.
pub open spec fn describe_text(r: Response) -> Seq<char> {
    match r {
        Response::Error { message, .. } => message@,
        _ => "unexpected response: "@ + reply_form(r),
    }
}

/// Turn an unexpected reply into something worth showing a person: a
/// refusal's own reason, or else the reply itself.
pub fn describe(r: Response) -> (s: String)
    ensures
        s@ == describe_text(r),
{
    match r {
        Response::Error { message, .. } => message,
        other => {
            let mut s = owned("unexpected response: ");
            let d = reply_text(&other);
            push_str(&mut s, d.as_str());
            s
        },
    }
}

// ------------------------------------------------------------ speaking

/// Whether a device's answer means the message was taken.
pub open spec fn heard(s: Status) -> bool {
    s is Spoken || s is Queued || s is Speaking
}

/// Why one device did not take a message, as a person reads it.
pub open spec fn why_text(t: TargetResult) -> Seq<char> {
    match (t.status, t.detail) {
        (Status::Muted, _) => "this device is muted"@,
        (Status::QuietHours, _) => "quiet hours are on"@,
        (Status::NoEngine, Some(d)) => d@,
        (Status::NoEngine, None) => "no working speech engine"@,
        (s, Some(d)) => s.name_spec() + ": "@ + d@,
        (s, None) => s.name_spec(),
    }
}

/// Every device's reason, in the order the report gives them.
pub open spec fn whys(ts: Seq<TargetResult>) -> Seq<Seq<char>> {
    ts.map_values(|t: TargetResult| why_text(t))
}

/// What a report of one message comes to: taken if any device took it,
/// otherwise every device's reason, joined.
pub open spec fn taken_or_why(ts: Seq<TargetResult>) -> Result<(), Seq<char>> {
    if exists|i: int| 0 <= i < ts.len() && heard(#[trigger] ts[i].status) {
        Ok(())
    } else if joined(whys(ts), "; "@).len() == 0 {
        Err("nothing was spoken"@)
    } else {
        Err(joined(whys(ts), "; "@))
    }
}

fn why_of(t: &TargetResult) -> (r: String)
    ensures
        r@ == why_text(*t),
{
    match (t.status, &t.detail) {
        (Status::Muted, _) => owned("this device is muted"),
        (Status::QuietHours, _) => owned("quiet hours are on"),
        (Status::NoEngine, Some(d)) => d.clone(),
        (Status::NoEngine, None) => owned("no working speech engine"),
        (s, Some(d)) => {
            let mut r = owned(s.name());
            push_str(&mut r, ": ");
            push_str(&mut r, d.as_str());
            r
        },
        (s, None) => owned(s.name()),
    }
}

/// Whether a report counts as the message being taken, and why if not.
///
/// The window speaks on this device only, so there is one target, but the
/// answer is written over all of them: "some device refused" is the
/// question, not "the first one did". A refusal is surfaced rather than
/// swallowed; pressing Speak on a muted device and being told nothing looks
/// like the button is broken.
pub fn spoken_or_why(targets: &Vec<TargetResult>) -> (r: Result<(), String>)
    ensures
        match (r, taken_or_why(targets@)) {
            (Ok(_), Ok(_)) => true,
            (Err(a), Err(b)) => a@ == b,
            _ => false,
        },
{
    let mut i: usize = 0;
    while i < targets.len()
        invariant
            i <= targets@.len(),
            forall|j: int| 0 <= j < i ==> !heard(#[trigger] targets@[j].status),
        decreases targets.len() - i,
    {
        let s = targets[i].status;
        if matches!(s, Status::Spoken | Status::Queued | Status::Speaking) {
            assert(heard(targets@[i as int].status));
            return Ok(());
        }
        i += 1;
    }
    let mut reasons: Vec<String> = Vec::new();
    let mut k: usize = 0;
    while k < targets.len()
        invariant
            k <= targets@.len(),
            reasons@.len() == k,
            forall|j: int| 0 <= j < k ==> (#[trigger] reasons@[j])@ == why_text(targets@[j]),
        decreases targets.len() - k,
    {
        let w = why_of(&targets[k]);
        reasons.push(w);
        k += 1;
    }
    let mut why = String::new();
    crate::strs::push_joined(&mut why, &reasons, "; ");
    assert(reasons@.map_values(|p: String| p@) =~= whys(targets@));
    if why.as_str().unicode_len() == 0 {
        Err(owned("nothing was spoken"))
    } else {
        Err(why)
    }
}

/// What the window makes of the reply to sending a message: a per-device
/// report is read as above, a plain acceptance is success, anything else is
/// shown.
pub open spec fn speak_outcome(r: Response) -> Result<(), Seq<char>> {
    match r {
        Response::Report { targets, .. } => taken_or_why(targets@),
        Response::Accepted { .. } => Ok(()),
        Response::Finished { .. } => Ok(()),
        _ => Err(describe_text(r)),
    }
}

/// Read the reply to sending a message from the window.
///
/// A report is read per device; reading only "accepted" and "finished" as
/// success once made a message that was queued and spoken show up as a
/// failure.
pub fn speak_reply(r: Response) -> (out: Result<(), String>)
    ensures
        match (out, speak_outcome(r)) {
            (Ok(_), Ok(_)) => true,
            (Err(a), Err(b)) => a@ == b,
            _ => false,
        },
{
    match r {
        Response::Report { targets, .. } => spoken_or_why(&targets),
        Response::Accepted { .. } => Ok(()),
        Response::Finished { .. } => Ok(()),
        other => Err(describe(other)),
    }
}

/// The reply to a request that answers with nothing but success: the
/// variant that means it worked, or what to show instead.
pub open spec fn done_outcome(r: Response, wanted: Expect) -> Result<(), Seq<char>> {
    if answers(r, wanted) {
        Ok(())
    } else {
        Err(describe_text(r))
    }
}

/// Which reply means success for a request that returns nothing else.
#[derive(Debug, Clone, Copy, PartialEq, Eq, Structural)]
pub enum Expect {
    /// Replaying: the message was taken again.
    Accepted,
    /// Clearing the history.
    Done,
    /// Founding, dropping, renaming or choosing a space: the new list.
    Spaces,
}

/// Whether `r` is the reply `wanted` names.
pub open spec fn answers(r: Response, wanted: Expect) -> bool {
    match wanted {
        Expect::Accepted => r is Accepted,
        Expect::Done => r is Done,
        Expect::Spaces => r is Spaces,
    }
}

/// Read the reply to a request that answers with nothing but success.
pub fn done_reply(r: Response, wanted: Expect) -> (out: Result<(), String>)
    ensures
        match (out, done_outcome(r, wanted)) {
            (Ok(_), Ok(_)) => true,
            (Err(a), Err(b)) => a@ == b,
            _ => false,
        },
{
    let ok = match (&r, wanted) {
        (Response::Accepted { .. }, Expect::Accepted) => true,
        (Response::Done, Expect::Done) => true,
        (Response::Spaces { .. }, Expect::Spaces) => true,
        _ => false,
    };
    if ok {
        Ok(())
    } else {
        Err(describe(r))
    }
}

/// Read the reply to asking for the history.
pub fn history_reply(r: Response) -> (out: Result<Vec<HistoryEntry>, String>)
    ensures
        match r {
            Response::History { entries } => out matches Ok(v) && v@ == entries@,
            _ => out matches Err(m) && m@ == describe_text(r),
        },
{
    match r {
        Response::History { entries } => Ok(entries),
        other => Err(describe(other)),
    }
}

/// Read the reply to asking for the spaces.
pub fn spaces_reply(r: Response) -> (out: Result<Vec<SpaceRow>, String>)
    ensures
        match r {
            Response::Spaces { spaces } => out matches Ok(v) && v@ == spaces@,
            _ => out matches Err(m) && m@ == describe_text(r),
        },
{
    match r {
        Response::Spaces { spaces } => Ok(spaces),
        other => Err(describe(other)),
    }
}

/// Read the reply to asking for the devices.
pub fn devices_reply(r: Response) -> (out: Result<Vec<DeviceInfo>, String>)
    ensures
        match r {
            Response::Devices { devices } => out matches Ok(v) && v@ == devices@,
            _ => out matches Err(m) && m@ == describe_text(r),
        },
{
    match r {
        Response::Devices { devices } => Ok(devices),
        other => Err(describe(other)),
    }
}

/// Read the reply to replacing a space: the devices that were in it, so the
/// window can say who has to be invited again.
pub fn rotated_reply(r: Response) -> (out: Result<Vec<String>, String>)
    ensures
        match r {
            Response::Rotated { devices, .. } => out matches Ok(v) && v@ == devices@,
            _ => out matches Err(m) && m@ == describe_text(r),
        },
{
    match r {
        Response::Rotated { devices, .. } => Ok(devices),
        other => Err(describe(other)),
    }
}

/// Read the reply to renaming this device or removing another: the name
/// that now stands.
pub fn renamed_reply(r: Response) -> (out: Result<String, String>)
    ensures
        match r {
            Response::Renamed { name } => out matches Ok(v) && v@ == name@,
            _ => out matches Err(m) && m@ == describe_text(r),
        },
{
    match r {
        Response::Renamed { name } => Ok(name),
        other => Err(describe(other)),
    }
}

/// What leaving a space is reported as.
pub open spec fn left_text(space: Seq<char>, unreached: nat, refounded: bool) -> Seq<char> {
    "left "@ + space + (if refounded {
        " — it was the only one, so an empty space took its place"@
    } else {
        Seq::empty()
    }) + (if unreached > 0 {
        "; "@ + dec(unreached) + " device(s) not reached yet"@
    } else {
        Seq::empty()
    })
}

/// Read the reply to leaving a space, as one sentence: which space, whether
/// an empty one took its place, and how many devices have not heard yet.
pub fn left_reply(r: Response) -> (out: Result<String, String>)
    ensures
        match r {
            Response::Left { space, unreached, refounded } => out matches Ok(v) && v@ == left_text(
                space@,
                unreached as nat,
                refounded,
            ),
            _ => out matches Err(m) && m@ == describe_text(r),
        },
{
    match r {
        Response::Left { space, unreached, refounded } => {
            let mut said = owned("left ");
            push_str(&mut said, space.as_str());
            if refounded {
                push_str(&mut said, " — it was the only one, so an empty space took its place");
            }
            if unreached > 0 {
                push_str(&mut said, "; ");
                push_dec(&mut said, unreached as u64);
                push_str(&mut said, " device(s) not reached yet");
            }
            Ok(said)
        },
        other => Err(describe(other)),
    }
}

// ------------------------------------------------------------ invites

/// An invite, ready to hand to another device.
pub struct Invite {
    /// The `clispeak://join/...` text.
    pub url: String,
    /// The same invite as a scannable SVG, or empty if it could not be drawn.
    pub qr: String,
    /// Seconds until it stops being accepted.
    pub expires_in: u64,
}

/// Read the reply to asking for an invite, drawing it as a QR code too.
///
/// A missing picture is a degraded invite, not a failed one: the text can
/// still be copied.
pub fn invite_reply(r: Response) -> (out: Result<Invite, String>)
    ensures
        match r {
            Response::Invite { url, expires_in } => out matches Ok(v) && v.url@ == url@
                && v.expires_in == expires_in && v.qr@ == match invite_picture(url@) {
                Some(p) => p,
                None => Seq::<char>::empty(),
            },
            _ => out matches Err(m) && m@ == describe_text(r),
        },
{
    match r {
        Response::Invite { url, expires_in } => {
            let qr = match qr_svg(url.as_str()) {
                Ok(svg) => svg,
                Err(_) => String::new(),
            };
            Ok(Invite { url, qr, expires_in })
        },
        other => Err(describe(other)),
    }
}

/// What an invite would join, read before anything is committed to.
///
/// The destination is written into the ticket by whoever minted it, so the
/// joining device cannot choose it; the honest thing is to read it out
/// first. Nothing is contacted and the single-use token is not spent.
pub struct InvitePreview {
    /// The inviter's name for the space, absent on a ticket that predates
    /// labels travelling.
    pub label: Option<String>,
    /// Seconds until it stops being accepted.
    pub expires_in: u64,
    /// The inviting device's key, shortened, for comparing against its screen.
    pub from: String,
}

/// Read the reply to previewing an invite.
pub fn preview_reply(r: Response) -> (out: Result<InvitePreview, String>)
    ensures
        match r {
            Response::Preview { label, expires_in, endpoint_id } => out matches Ok(v) && opt_text(
                v.label,
            ) == opt_text(label) && v.expires_in == expires_in && v.from@ == short_text(
                endpoint_id@,
            ),
            _ => out matches Err(m) && m@ == describe_text(r),
        },
{
    match r {
        Response::Preview { label, expires_in, endpoint_id } => Ok(
            InvitePreview { label, expires_in, from: short_id(endpoint_id.as_str()) },
        ),
        other => Err(describe(other)),
    }
}

/// The result of a join, including what the space ended up being called.
///
/// The name can differ from the one asked for, since a clash with a space
/// already held here falls back, and a person told "you joined work" who
/// then cannot find `work` has been misled.
pub struct Joined {
    /// How many devices the space holds now.
    pub members: usize,
    /// This device's name for it.
    pub space: String,
}

/// Read the reply to joining.
pub fn joined_reply(r: Response) -> (out: Result<Joined, String>)
    ensures
        match r {
            Response::Joined { members, space } => out matches Ok(v) && v.members == members
                && v.space@ == space@,
            _ => out matches Err(m) && m@ == describe_text(r),
        },
{
    match r {
        Response::Joined { members, space } => Ok(Joined { members, space }),
        other => Err(describe(other)),
    }
}

// ------------------------------------------------------------ policy

/// Whether this device will speak, and when.
pub struct PolicyView {
    /// Silenced indefinitely.
    pub muted: bool,
    /// Quiet window start as `HH:MM`, if one is set.
    pub from: Option<String>,
    /// Quiet window end as `HH:MM`, if one is set.
    pub to: Option<String>,
    /// Whether `high` may break through the window.
    pub high_breaks_through: bool,
    /// Per-space restrictions layered on top. Only spaces that restrict
    /// something appear, so the window can ask "does this space differ" of
    /// the list itself.
    pub spaces: Vec<SpacePolicyView>,
}

/// One space's extra restrictions, named as the person sees it.
pub struct SpacePolicyView {
    /// This device's own name for the space.
    pub label: String,
    /// Silenced indefinitely, for this space alone.
    pub muted: bool,
    /// Quiet window start as `HH:MM`, if this space sets one.
    pub from: Option<String>,
    /// Quiet window end as `HH:MM`, if this space sets one.
    pub to: Option<String>,
    /// Whether `high` may break through this space's window.
    pub high_breaks_through: bool,
}

/// Whether a space's view says what its policy says.
pub open spec fn shows_space(v: SpacePolicyView, p: SpacePolicy) -> bool {
    &&& v.label@ == p.label@
    &&& v.muted == p.muted
    &&& opt_text(v.from) == opt_text(p.quiet_from)
    &&& opt_text(v.to) == opt_text(p.quiet_to)
    &&& v.high_breaks_through == p.high_breaks_through
}

fn space_view(p: &SpacePolicy) -> (v: SpacePolicyView)
    ensures
        shows_space(v, *p),
{
    SpacePolicyView {
        label: p.label.clone(),
        muted: p.muted,
        from: p.quiet_from.clone(),
        to: p.quiet_to.clone(),
        high_breaks_through: p.high_breaks_through,
    }
}

impl PolicyView {
    /// Read the reply to asking for the policy.
    ///
    /// A policy that could not be read is an error, not a blank one: a
    /// corrupt policy file must not draw a device that is unmuted with no
    /// quiet window, which is a claim about settings nobody could read. A
    /// reply this build has never seen is an error for the same reason.
    pub fn try_from(r: Response) -> (out: Result<PolicyView, String>)
        ensures
            match r {
                Response::Policy { muted, quiet_from, quiet_to, high_breaks_through, spaces } => {
                    &&& out is Ok
                    &&& out->Ok_0.muted == muted
                    &&& opt_text(out->Ok_0.from) == opt_text(quiet_from)
                    &&& opt_text(out->Ok_0.to) == opt_text(quiet_to)
                    &&& out->Ok_0.high_breaks_through == high_breaks_through
                    &&& out->Ok_0.spaces@.len() == spaces@.len()
                    &&& forall|i: int|
                        0 <= i < spaces@.len() ==> shows_space(
                            #[trigger] out->Ok_0.spaces@[i],
                            spaces@[i],
                        )
                },
                Response::Error { message, .. } => out matches Err(m) && m@ == message@,
                _ => out matches Err(m) && m@ == "unexpected reply asking for the policy: "@
                    + reply_form(r),
            },
    {
        match r {
            Response::Policy { muted, quiet_from, quiet_to, high_breaks_through, spaces } => {
                let mut views: Vec<SpacePolicyView> = Vec::new();
                let mut i: usize = 0;
                while i < spaces.len()
                    invariant
                        i <= spaces@.len(),
                        views@.len() == i,
                        forall|j: int| 0 <= j < i ==> shows_space(#[trigger] views@[j], spaces@[j]),
                    decreases spaces.len() - i,
                {
                    views.push(space_view(&spaces[i]));
                    i += 1;
                }
                Ok(
                    PolicyView {
                        muted,
                        from: quiet_from,
                        to: quiet_to,
                        high_breaks_through,
                        spaces: views,
                    },
                )
            },
            Response::Error { message, .. } => Err(message),
            other => {
                let mut s = owned("unexpected reply asking for the policy: ");
                let d = reply_text(&other);
                push_str(&mut s, d.as_str());
                Err(s)
            },
        }
    }
}

// ------------------------------------------------------------ the header

/// What the window shows in its header.
pub struct NodeStatus {
    /// This device's local label.
    pub name: String,
    /// Its public key.
    pub device_id: String,
    /// Engine currently in use.
    pub engine: String,
    /// Whether that engine is a stand-in for the intended one.
    pub fallback: bool,
    /// Why the engine cannot speak, when it cannot. "Unavailable" alone says
    /// a device is silent without saying what to do about it.
    pub reason: Option<String>,
    /// Whether the node is still coming up. Transient, and worth saying so.
    pub starting: bool,
    /// Why there is no node at all: a locked keyring, an unwritable config
    /// directory, another node already holding the socket. Distinct from
    /// `reason`, which is about an engine inside a node that is running.
    pub failed: Option<String>,
}

/// Nothing known yet: no name, an unknown engine, assumed a stand-in.
pub open spec fn blank_status(n: NodeStatus) -> bool {
    &&& n.name@.len() == 0
    &&& n.device_id@.len() == 0
    &&& n.engine@ == "unknown"@
    &&& n.fallback
    &&& n.reason is None
    &&& !n.starting
    &&& n.failed is None
}

impl Default for NodeStatus {
    fn default() -> (n: Self)
        ensures
            blank_status(n),
    {
        NodeStatus {
            name: String::new(),
            device_id: String::new(),
            engine: owned("unknown"),
            fallback: true,
            reason: None,
            starting: false,
            failed: None,
        }
    }
}

/// What became of the node a window wraps.
///
/// Known before the node exists, so the window can be told which of the
/// three states it is in. Waiting for a node that has failed would read as
/// "still starting" for ever.
pub enum Startup {
    /// The node is still being built.
    Starting,
    /// It is up: its name, its key, and what it said when asked its status.
    Running { name: String, device_id: String, status: Response },
    /// It is not, and this is why. A reason nobody can see is not a reason:
    /// for an app opened from a file manager, stderr is nowhere at all.
    Failed(String),
}

/// What the header shows for each state.
pub open spec fn shows_startup(n: NodeStatus, startup: Startup) -> bool {
    match startup {
        Startup::Starting => n.starting && n.failed is None && n.name@.len() == 0
            && n.device_id@.len() == 0 && n.engine@ == "unknown"@ && n.fallback && n.reason is None,
        Startup::Failed(why) => !n.starting && opt_text(n.failed) == Some(why@) && n.engine@
            == "unavailable"@ && n.fallback && n.name@.len() == 0 && n.device_id@.len() == 0
            && n.reason is None,
        Startup::Running { name, device_id, status } => !n.starting && n.failed is None && n.name@
            == name@ && match status {
            Response::Status { device_id: id, engine, fallback, engine_reason, .. } => n.device_id@
                == id@ && n.engine@ == engine@ && n.fallback == fallback && opt_text(n.reason)
                == opt_text(engine_reason),
            _ => n.device_id@ == device_id@ && n.engine@ == "unknown"@ && n.fallback && n.reason is None,
        },
    }
}

/// Turn a startup state into what the header should show.
///
/// A failed node has no engine, and says "unavailable" rather than
/// "unknown", which would read as a device that might still speak. Its
/// reason is carried verbatim, since the window is the only place it can be
/// read.
pub fn status_of(startup: &Startup) -> (n: NodeStatus)
    ensures
        shows_startup(n, *startup),
{
    match startup {
        Startup::Starting => NodeStatus { starting: true, ..NodeStatus::default() },
        Startup::Failed(why) => NodeStatus {
            engine: owned("unavailable"),
            fallback: true,
            failed: Some(why.clone()),
            ..NodeStatus::default()
        },
        Startup::Running { name, device_id, status } => match status {
            Response::Status { device_id: id, engine, fallback, engine_reason, .. } => NodeStatus {
                name: name.clone(),
                device_id: id.clone(),
                engine: engine.clone(),
                fallback: *fallback,
                reason: engine_reason.clone(),
                ..NodeStatus::default()
            },
            _ => NodeStatus {
                name: name.clone(),
                device_id: device_id.clone(),
                engine: owned("unknown"),
                fallback: true,
                ..NodeStatus::default()
            },
        },
    }
}

// ------------------------------------------------------------ playback

/// What this device is saying right now, for the playback controls.
pub struct NowPlaying {
    /// The message being spoken, if any.
    pub msg_id: Option<String>,
    /// Its text, so the controls say what they would stop.
    pub text: Option<String>,
    /// Which device it came from.
    pub from: Option<String>,
    /// Whether speech is held rather than finished.
    pub paused: bool,
    /// How many messages are waiting behind it.
    pub waiting: usize,
}

/// What the speaker's answer says: the message being spoken, how many
/// wait, and whether it is held. Any other reply reads as silence.
pub open spec fn queue_parts(r: Response) -> (Option<Seq<char>>, nat, bool) {
    match r {
        Response::Queue { speaking, pending, paused } => (opt_text(speaking), pending@.len(), paused),
        _ => (None, 0, false),
    }
}

/// The history's entry for the message being spoken: the newest with its
/// id, if any has it.
pub open spec fn playing_entry(h: Seq<Entry>, speaking: Option<Seq<char>>) -> Option<Entry> {
    match speaking {
        Some(id) => if holds_id(h, id) {
            Some(h[choose|i: int| newest_with(h, id, i)])
        } else {
            None
        },
        None => None,
    }
}

/// Only one entry is the newest with an id.
proof fn lemma_newest_unique(h: Seq<Entry>, id: Seq<char>, i: int, j: int)
    requires
        newest_with(h, id, i),
        newest_with(h, id, j),
    ensures
        i == j,
{
    if i < j {
        assert(h[j].msg_id@ == id);
    } else if j < i {
        assert(h[i].msg_id@ == id);
    }
}

/// What the playback controls show, from the speaker's answer and the
/// history.
///
/// The text comes from the history rather than the queue: the queue holds
/// chunks mid-flight, and the history holds the message as it was sent.
pub fn now_playing_of(queue: Response, history: &History) -> (n: NowPlaying)
    ensures
        opt_text(n.msg_id) == queue_parts(queue).0,
        n.waiting == queue_parts(queue).1,
        n.paused == queue_parts(queue).2,
        match playing_entry(history.items(), queue_parts(queue).0) {
            Some(e) => opt_text(n.text) == Some(e.text@) && opt_text(n.from) == Some(e.from@),
            None => n.text is None && n.from is None,
        },
{
    let (speaking, waiting, paused) = match queue {
        Response::Queue { speaking, pending, paused } => (speaking, pending.len(), paused),
        _ => (None, 0, false),
    };
    let (text, from) = match &speaking {
        Some(id) => match history.get(id.as_str()) {
            Some(e) => {
                proof {
                    let h = history.items();
                    let k = choose|i: int| newest_with(h, id@, i) && *e == h[i];
                    lemma_newest_unique(h, id@, k, choose|i: int| newest_with(h, id@, i));
                }
                (Some(e.text.clone()), Some(e.from.clone()))
            },
            None => (None, None),
        },
        None => (None, None),
    };
    NowPlaying { msg_id: speaking, text, from, paused, waiting }
}

// ------------------------------------------------------------ plain rows

/// One selectable voice.
pub struct VoiceOption {
    /// Stable id, used when selecting.
    pub id: String,
    /// What to show a person.
    pub name: String,
}

/// What an agent skill install looks like from here.
pub struct SkillStatus {
    /// Where it would go, or where it went.
    pub path: String,
    /// "absent", "current" or "stale".
    pub state: String,
    /// Whether this build can write anywhere, or only the default.
    pub sandboxed: bool,
}

} // verus!
