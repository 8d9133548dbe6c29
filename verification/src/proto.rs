//! Wire and IPC message types.
//!
//! Pure data: no I/O. The host encodes these as CBOR; everything here is the
//! shape of what travels and the few facts about it that are fixed.

use vstd::prelude::*;

use vstd::string::StringSliceAdditionalSpecFns;
use vstd::string::StrSliceExecFns;
use vstd::utf8::encode_utf8;

use crate::strs::{dec, push_dec, push_str};

verus! {

/// Protocol version, negotiated in [`Hello`] down to the lowest common.
pub const PROTO_VERSION: u16 = 1;

/// How urgently a message should be spoken.
#[derive(Debug, Clone, Copy, PartialEq, Eq, Structural)]
pub enum Priority {
    /// Queued, and dropped if the queue is already deep.
    Low,
    /// Queued and spoken in order.
    Normal,
    /// Interrupts, then resumes the interrupted message at its chunk boundary.
    High,
}

/// Terminal or in-progress state of a message on one receiver.
#[derive(Debug, Clone, Copy, PartialEq, Eq, Structural)]
pub enum Status {
    Queued,
    Speaking,
    Spoken,
    Muted,
    QuietHours,
    NoEngine,
    Unreachable,
    Rejected,
    Cancelled,
    Dropped,
}

impl Status {
    /// The variant's name, as `{:?}` writes it.
    pub open spec fn name_spec(self) -> Seq<char> {
        match self {
            Status::Queued => "Queued"@,
            Status::Speaking => "Speaking"@,
            Status::Spoken => "Spoken"@,
            Status::Muted => "Muted"@,
            Status::QuietHours => "QuietHours"@,
            Status::NoEngine => "NoEngine"@,
            Status::Unreachable => "Unreachable"@,
            Status::Rejected => "Rejected"@,
            Status::Cancelled => "Cancelled"@,
            Status::Dropped => "Dropped"@,
        }
    }

    /// The variant's name, as `{:?}` writes it.
    pub fn name(self) -> (r: &'static str)
        ensures
            r@ == self.name_spec(),
    {
        match self {
            Status::Queued => "Queued",
            Status::Speaking => "Speaking",
            Status::Spoken => "Spoken",
            Status::Muted => "Muted",
            Status::QuietHours => "QuietHours",
            Status::NoEngine => "NoEngine",
            Status::Unreachable => "Unreachable",
            Status::Rejected => "Rejected",
            Status::Cancelled => "Cancelled",
            Status::Dropped => "Dropped",
        }
    }
}

/// Sent once per peer on the long-lived control stream.
#[derive(Debug, Clone)]
pub struct Hello {
    pub proto_version: u16,
    pub display_name: String,
}

/// Opens a message stream. Chunks follow, then [`SpeakEnd`].
#[derive(Debug, Clone)]
pub struct SpeakBegin {
    pub msg_id: String,
    pub space_id: String,
    pub priority: Priority,
}

/// One sentence-ish unit of text.
#[derive(Debug, Clone)]
pub struct Chunk {
    pub seq: u32,
    pub text: String,
}

/// Closes a message stream.
#[derive(Debug, Clone)]
pub struct SpeakEnd;

/// One device's membership of a space.
#[derive(Debug, Clone)]
pub struct Member {
    /// The device's public key, as a string.
    pub endpoint_id: String,
    /// Local label. Never an identity.
    pub name: String,
    /// Who vouched for this device.
    pub invited_by: String,
    /// The inviter's signature over the join record.
    pub signature: Vec<u8>,
    /// Unix seconds.
    pub joined_at: u64,
    /// Unix seconds when the label last changed.
    pub renamed_at: u64,
}

/// The text an inviter signs: a fixed domain separator, the two ids and the
/// join time, and nothing about any name.
pub open spec fn signed_payload_text(endpoint_id: Seq<char>, invited_by: Seq<char>, joined_at: nat) -> Seq<
    char,
> {
    "clispeak-join-v1:"@ + endpoint_id + ":"@ + invited_by + ":"@ + dec(joined_at)
}

impl Member {
    /// The bytes an inviter signs, and a verifier re-derives.
    ///
    /// `clispeak-join-v1` is a domain separator that every existing signature
    /// was computed over; it is data, not a name.
    pub fn signed_payload_string(endpoint_id: &str, invited_by: &str, joined_at: u64) -> (r: String)
        ensures
            r@ == signed_payload_text(endpoint_id@, invited_by@, joined_at as nat),
    {
        let mut s = String::new();
        push_str(&mut s, "clispeak-join-v1:");
        push_str(&mut s, endpoint_id);
        push_str(&mut s, ":");
        push_str(&mut s, invited_by);
        push_str(&mut s, ":");
        push_dec(&mut s, joined_at);
        s
    }

    /// The bytes an inviter signs: the UTF-8 of [`signed_payload_text`].
    pub fn signed_payload(endpoint_id: &str, invited_by: &str, joined_at: u64) -> (r: Vec<u8>)
        ensures
            r@ == encode_utf8(signed_payload_text(endpoint_id@, invited_by@, joined_at as nat)),
    {
        let s = Self::signed_payload_string(endpoint_id, invited_by, joined_at);
        s.as_str().as_bytes_vec()
    }
}

/// What happened on one device.
#[derive(Debug, Clone)]
pub struct TargetResult {
    pub device: String,
    pub endpoint_id: String,
    pub status: Status,
    pub took_ms: Option<u64>,
    pub detail: Option<String>,
}

/// One message this device was asked to speak, spoken or not.
#[derive(Debug, Clone)]
pub struct HistoryEntry {
    pub msg_id: String,
    pub text: String,
    pub from: String,
    pub at: u64,
    pub status: Status,
    pub priority: Priority,
    pub unheard: bool,
}

/// One space, as shown by `clispeak space list`.
#[derive(Debug, Clone)]
pub struct SpaceRow {
    pub label: String,
    pub devices: usize,
    pub is_default: bool,
    pub founded_here: bool,
}

/// One space's extra restrictions, on top of the device policy.
#[derive(Debug, Clone)]
pub struct SpacePolicy {
    pub label: String,
    pub muted: bool,
    pub quiet_from: Option<String>,
    pub quiet_to: Option<String>,
    pub high_breaks_through: bool,
}

/// A device as shown by `clispeak devices`.
#[derive(Debug, Clone)]
pub struct DeviceInfo {
    pub name: String,
    pub endpoint_id: String,
    pub is_self: bool,
    pub last_seen_secs: Option<u64>,
    pub space: Option<String>,
}

/// A control command, aimed at whichever device is speaking.
#[derive(Debug, Clone)]
pub enum Control {
    /// Stop speaking and clear the queue, or drop one message by id.
    Stop { msg_id: Option<String> },
    /// Abandon the current message and carry on with the queue.
    Skip,
    /// Hold speech without discarding it.
    Pause,
    /// Start speaking again after a pause.
    Resume,
}

/// What the CLI asks the local node to do.
#[derive(Debug, Clone)]
pub enum Request {
    Speak {
        text: String,
        priority: Priority,
        to: Option<String>,
        wait: bool,
        voice: Option<String>,
        timeout_secs: Option<u64>,
    },
    Resolve { to: Option<String> },
    Invite { space: Option<String> },
    Join { ticket: String, label: Option<String> },
    Preview { ticket: String },
    Devices,
    Show,
    Quit,
    Revoke { name: String, space: Option<String> },
    Leave { space: Option<String> },
    Rotate { space: Option<String> },
    Spaces,
    NewSpace { label: String },
    LeaveSpace { label: String },
    DefaultSpace { label: String },
    RenameSpace { label: String, to: String },
    Rename { name: String },
    Stop { to: Option<String>, msg_id: Option<String> },
    Status,
    Skip { to: Option<String> },
    Pause { to: Option<String> },
    Resume { to: Option<String> },
    Queue,
    History { limit: Option<usize> },
    Replay { msg_id: String },
    ClearHistory,
    Policy,
    SetMute { muted: bool, space: Option<String> },
    SetQuiet {
        from: Option<String>,
        to: Option<String>,
        high_breaks_through: bool,
        space: Option<String>,
    },
}

/// The one [`Response::Error`] kind a caller branches on: the selector
/// matched no device.
pub open spec fn no_target_kind() -> Seq<char> {
    "no-target"@
}

/// What the node tells the CLI.
#[derive(Debug, Clone)]
pub enum Response {
    Accepted { msg_id: String },
    Finished { status: Status },
    Invite { url: String, expires_in: u64 },
    Joined { members: usize, space: String },
    Preview { label: Option<String>, expires_in: u64, endpoint_id: String },
    Done,
    Report { msg_id: String, targets: Vec<TargetResult> },
    Renamed { name: String },
    Devices { devices: Vec<DeviceInfo> },
    Status {
        device_id: String,
        key_store: String,
        engine: String,
        fallback: bool,
        queued: usize,
        muted: bool,
        quiet: Option<String>,
        engine_reason: Option<String>,
    },
    History { entries: Vec<HistoryEntry> },
    Controlled { targets: Vec<TargetResult> },
    Spaces { spaces: Vec<SpaceRow> },
    Left { space: String, unreached: usize, refounded: bool },
    Rotated { space: String, devices: Vec<String> },
    Targets { devices: Vec<String> },
    Queue { speaking: Option<String>, pending: Vec<String>, paused: bool },
    Policy {
        muted: bool,
        quiet_from: Option<String>,
        quiet_to: Option<String>,
        high_breaks_through: bool,
        spaces: Vec<SpacePolicy>,
    },
    Error { message: String, kind: Option<String> },
}

impl Response {
    /// A failure with nothing more to say about it than why.
    pub fn error(message: String) -> (r: Self)
        ensures
            r matches Response::Error { message: m, kind: None } && m@ == message@,
    {
        Response::Error { message, kind: None }
    }

    /// A failure because the selector matched no device.
    pub fn no_target(message: String) -> (r: Self)
        ensures
            r matches Response::Error { message: m, kind: Some(k) } && m@ == message@ && k@
                == no_target_kind(),
    {
        let mut k = String::new();
        push_str(&mut k, "no-target");
        Response::Error { message, kind: Some(k) }
    }
}

/// Messages exchanged between peer devices.
#[derive(Debug, Clone)]
pub enum PeerMessage {
    Hello { proto_version: u16, endpoint_id: String, display_name: String },
    JoinRequest { endpoint_id: String, display_name: String, token: String },
    JoinAccepted {
        member: Member,
        members: Vec<Member>,
        space: Option<String>,
        label: Option<String>,
    },
    JoinRefused { reason: String },
    RosterSync { members: Vec<Member>, revoked: Vec<(String, u64)>, space: Option<String> },
    SpeakBegin {
        msg_id: String,
        priority: Priority,
        wait: bool,
        voice: Option<String>,
        space: Option<String>,
        timeout_secs: Option<u64>,
    },
    Chunk { seq: u32, text: String },
    SpeakEnd,
    Control { control: Control },
    Report { status: Status, detail: Option<String> },
}

} // verus!
