//! A reply written out the way `{:?}` writes it, for telling a person
//! about a reply nobody expected.
//!
//! Field names, variant names, quoted strings, `Some(..)`, `[..]` and
//! decimals, in the shape a derived `Debug` gives them. Inside quotes a
//! quote, a backslash, a control character or a bidirectional mark is
//! escaped as `escape_debug` escapes it; any other character is written as
//! it is.

use vstd::prelude::*;

use crate::plain::{escape_of, hostile, push_escape};
use crate::proto::{DeviceInfo, HistoryEntry, Priority, Response, SpacePolicy, SpaceRow, Status, TargetResult};
use crate::strs::{chars_of, dec, joined, owned, push_dec, push_joined, push_str};

verus! {

// ------------------------------------------------------------ pieces

/// One character inside a quoted string.
pub open spec fn quoted_char(c: char) -> Seq<char> {
    if c == '"' {
        seq!['\\', '"']
    } else if c == '\\' {
        seq!['\\', '\\']
    } else if hostile(c) {
        escape_of(c)
    } else {
        seq![c]
    }
}

/// The inside of a quoted string.
pub open spec fn quoted_body(s: Seq<char>) -> Seq<char>
    decreases s.len(),
{
    if s.len() == 0 {
        Seq::empty()
    } else {
        quoted_body(s.drop_last()) + quoted_char(s.last())
    }
}

/// A string in quotes.
pub open spec fn quoted(s: Seq<char>) -> Seq<char> {
    seq!['"'] + quoted_body(s) + seq!['"']
}

/// An optional value.
pub open spec fn opt_form(o: Option<Seq<char>>) -> Seq<char> {
    match o {
        Some(x) => "Some("@ + x + ")"@,
        None => "None"@,
    }
}

/// An optional string.
pub open spec fn opt_quoted(o: Option<String>) -> Seq<char> {
    opt_form(
        match o {
            Some(s) => Some(quoted(s@)),
            None => None,
        },
    )
}

/// An optional number.
pub open spec fn opt_number(o: Option<u64>) -> Seq<char> {
    opt_form(
        match o {
            Some(n) => Some(dec(n as nat)),
            None => None,
        },
    )
}

/// A truth value.
pub open spec fn bool_form(b: bool) -> Seq<char> {
    if b {
        "true"@
    } else {
        "false"@
    }
}

/// A list.
pub open spec fn list_form(items: Seq<Seq<char>>) -> Seq<char> {
    "["@ + joined(items, ", "@) + "]"@
}

/// One `name: value` field.
pub open spec fn field_form(f: (Seq<char>, Seq<char>)) -> Seq<char> {
    f.0 + ": "@ + f.1
}

/// A struct, or a variant with named fields.
pub open spec fn record_form(name: Seq<char>, fields: Seq<(Seq<char>, Seq<char>)>) -> Seq<char> {
    name + " { "@ + joined(fields.map_values(|f: (Seq<char>, Seq<char>)| field_form(f)), ", "@) + " }"@
}

/// Fields as plain values.
pub open spec fn field_views(fs: Seq<(String, String)>) -> Seq<(Seq<char>, Seq<char>)> {
    fs.map_values(|f: (String, String)| (f.0@, f.1@))
}

pub fn quote(s: &str) -> (r: String)
    ensures
        r@ == quoted(s@),
{
    let cs = chars_of(s);
    let mut out = String::new();
    out.push('"');
    let mut i: usize = 0;
    while i < cs.len()
        invariant
            i <= cs@.len(),
            cs@ == s@,
            out@ == seq!['"'] + quoted_body(cs@.take(i as int)),
        decreases cs.len() - i,
    {
        let c = cs[i];
        let ghost before = out@;
        if c == '"' {
            out.push('\\');
            out.push('"');
        } else if c == '\\' {
            out.push('\\');
            out.push('\\');
        } else if crate::strs::char_is_control(c) || c as u32 == 0x200e || c as u32 == 0x200f || (0x202a
            <= c as u32 && c as u32 <= 0x202e) || (0x2066 <= c as u32 && c as u32 <= 0x2069) {
            push_escape(&mut out, c);
        } else {
            out.push(c);
        }
        proof {
            assert(cs@.take(i + 1).drop_last() =~= cs@.take(i as int));
            assert(out@ =~= before + quoted_char(c));
        }
        i += 1;
    }
    out.push('"');
    proof {
        assert(cs@.take(cs@.len() as int) =~= cs@);
    }
    out
}

fn opt_string(o: &Option<String>) -> (r: String)
    ensures
        r@ == opt_quoted(*o),
{
    match o {
        Some(s) => {
            let mut r = owned("Some(");
            let q = quote(s.as_str());
            push_str(&mut r, q.as_str());
            push_str(&mut r, ")");
            r
        },
        None => owned("None"),
    }
}

fn opt_num(o: Option<u64>) -> (r: String)
    ensures
        r@ == opt_number(o),
{
    match o {
        Some(n) => {
            let mut r = owned("Some(");
            push_dec(&mut r, n);
            push_str(&mut r, ")");
            r
        },
        None => owned("None"),
    }
}

fn boolean(b: bool) -> (r: String)
    ensures
        r@ == bool_form(b),
{
    if b {
        owned("true")
    } else {
        owned("false")
    }
}

fn number(n: u64) -> (r: String)
    ensures
        r@ == dec(n as nat),
{
    let mut r = String::new();
    push_dec(&mut r, n);
    r
}

fn list(items: &Vec<String>) -> (r: String)
    ensures
        r@ == list_form(items@.map_values(|p: String| p@)),
{
    let mut r = owned("[");
    push_joined(&mut r, items, ", ");
    push_str(&mut r, "]");
    r
}

fn record(name: &str, fields: &Vec<(String, String)>) -> (r: String)
    ensures
        r@ == record_form(name@, field_views(fields@)),
{
    let mut parts: Vec<String> = Vec::new();
    let mut i: usize = 0;
    while i < fields.len()
        invariant
            i <= fields@.len(),
            parts@.len() == i,
            forall|k: int| 0 <= k < i ==> (#[trigger] parts@[k])@ == field_form((fields@[k].0@, fields@[k].1@)),
        decreases fields.len() - i,
    {
        let mut p = owned(fields[i].0.as_str());
        push_str(&mut p, ": ");
        push_str(&mut p, fields[i].1.as_str());
        parts.push(p);
        i += 1;
    }
    assert(parts@.map_values(|p: String| p@) =~= field_views(fields@).map_values(
        |f: (Seq<char>, Seq<char>)| field_form(f),
    ));
    let mut r = owned(name);
    push_str(&mut r, " { ");
    push_joined(&mut r, &parts, ", ");
    push_str(&mut r, " }");
    r
}

/// A field, ready for [`record`].
fn field(name: &str, value: String) -> (r: (String, String))
    ensures
        r.0@ == name@,
        r.1@ == value@,
{
    (owned(name), value)
}

// ------------------------------------------------------------ the types

/// A priority's variant name.
pub open spec fn priority_form(p: Priority) -> Seq<char> {
    match p {
        Priority::Low => "Low"@,
        Priority::Normal => "Normal"@,
        Priority::High => "High"@,
    }
}

fn priority(p: Priority) -> (r: String)
    ensures
        r@ == priority_form(p),
{
    match p {
        Priority::Low => owned("Low"),
        Priority::Normal => owned("Normal"),
        Priority::High => owned("High"),
    }
}

/// One device's outcome.
pub open spec fn target_form(t: TargetResult) -> Seq<char> {
    record_form(
        "TargetResult"@,
        seq![
            ("device"@, quoted(t.device@)),
            ("endpoint_id"@, quoted(t.endpoint_id@)),
            ("status"@, t.status.name_spec()),
            ("took_ms"@, opt_number(t.took_ms)),
            ("detail"@, opt_quoted(t.detail)),
        ],
    )
}

fn target(t: &TargetResult) -> (r: String)
    ensures
        r@ == target_form(*t),
{
    let mut f: Vec<(String, String)> = Vec::new();
    f.push(field("device", quote(t.device.as_str())));
    f.push(field("endpoint_id", quote(t.endpoint_id.as_str())));
    f.push(field("status", owned(t.status.name())));
    f.push(field("took_ms", opt_num(t.took_ms)));
    f.push(field("detail", opt_string(&t.detail)));
    assert(field_views(f@) =~= seq![
        ("device"@, quoted(t.device@)),
        ("endpoint_id"@, quoted(t.endpoint_id@)),
        ("status"@, t.status.name_spec()),
        ("took_ms"@, opt_number(t.took_ms)),
        ("detail"@, opt_quoted(t.detail)),
    ]);
    record("TargetResult", &f)
}

/// One history row.
pub open spec fn entry_form(e: HistoryEntry) -> Seq<char> {
    record_form(
        "HistoryEntry"@,
        seq![
            ("msg_id"@, quoted(e.msg_id@)),
            ("text"@, quoted(e.text@)),
            ("from"@, quoted(e.from@)),
            ("at"@, dec(e.at as nat)),
            ("status"@, e.status.name_spec()),
            ("priority"@, priority_form(e.priority)),
            ("unheard"@, bool_form(e.unheard)),
        ],
    )
}

fn entry(e: &HistoryEntry) -> (r: String)
    ensures
        r@ == entry_form(*e),
{
    let mut f: Vec<(String, String)> = Vec::new();
    f.push(field("msg_id", quote(e.msg_id.as_str())));
    f.push(field("text", quote(e.text.as_str())));
    f.push(field("from", quote(e.from.as_str())));
    f.push(field("at", number(e.at)));
    f.push(field("status", owned(e.status.name())));
    f.push(field("priority", priority(e.priority)));
    f.push(field("unheard", boolean(e.unheard)));
    assert(field_views(f@) =~= seq![
        ("msg_id"@, quoted(e.msg_id@)),
        ("text"@, quoted(e.text@)),
        ("from"@, quoted(e.from@)),
        ("at"@, dec(e.at as nat)),
        ("status"@, e.status.name_spec()),
        ("priority"@, priority_form(e.priority)),
        ("unheard"@, bool_form(e.unheard)),
    ]);
    record("HistoryEntry", &f)
}

/// One space row.
pub open spec fn space_form(s: SpaceRow) -> Seq<char> {
    record_form(
        "SpaceRow"@,
        seq![
            ("label"@, quoted(s.label@)),
            ("devices"@, dec(s.devices as nat)),
            ("is_default"@, bool_form(s.is_default)),
            ("founded_here"@, bool_form(s.founded_here)),
        ],
    )
}

fn space(s: &SpaceRow) -> (r: String)
    ensures
        r@ == space_form(*s),
{
    let mut f: Vec<(String, String)> = Vec::new();
    f.push(field("label", quote(s.label.as_str())));
    f.push(field("devices", number(s.devices as u64)));
    f.push(field("is_default", boolean(s.is_default)));
    f.push(field("founded_here", boolean(s.founded_here)));
    assert(field_views(f@) =~= seq![
        ("label"@, quoted(s.label@)),
        ("devices"@, dec(s.devices as nat)),
        ("is_default"@, bool_form(s.is_default)),
        ("founded_here"@, bool_form(s.founded_here)),
    ]);
    record("SpaceRow", &f)
}

/// One space's restrictions.
pub open spec fn policy_form(p: SpacePolicy) -> Seq<char> {
    record_form(
        "SpacePolicy"@,
        seq![
            ("label"@, quoted(p.label@)),
            ("muted"@, bool_form(p.muted)),
            ("quiet_from"@, opt_quoted(p.quiet_from)),
            ("quiet_to"@, opt_quoted(p.quiet_to)),
            ("high_breaks_through"@, bool_form(p.high_breaks_through)),
        ],
    )
}

fn policy(p: &SpacePolicy) -> (r: String)
    ensures
        r@ == policy_form(*p),
{
    let mut f: Vec<(String, String)> = Vec::new();
    f.push(field("label", quote(p.label.as_str())));
    f.push(field("muted", boolean(p.muted)));
    f.push(field("quiet_from", opt_string(&p.quiet_from)));
    f.push(field("quiet_to", opt_string(&p.quiet_to)));
    f.push(field("high_breaks_through", boolean(p.high_breaks_through)));
    assert(field_views(f@) =~= seq![
        ("label"@, quoted(p.label@)),
        ("muted"@, bool_form(p.muted)),
        ("quiet_from"@, opt_quoted(p.quiet_from)),
        ("quiet_to"@, opt_quoted(p.quiet_to)),
        ("high_breaks_through"@, bool_form(p.high_breaks_through)),
    ]);
    record("SpacePolicy", &f)
}

/// One device row.
pub open spec fn device_form(d: DeviceInfo) -> Seq<char> {
    record_form(
        "DeviceInfo"@,
        seq![
            ("name"@, quoted(d.name@)),
            ("endpoint_id"@, quoted(d.endpoint_id@)),
            ("is_self"@, bool_form(d.is_self)),
            ("last_seen_secs"@, opt_number(d.last_seen_secs)),
            ("space"@, opt_quoted(d.space)),
        ],
    )
}

fn device(d: &DeviceInfo) -> (r: String)
    ensures
        r@ == device_form(*d),
{
    let mut f: Vec<(String, String)> = Vec::new();
    f.push(field("name", quote(d.name.as_str())));
    f.push(field("endpoint_id", quote(d.endpoint_id.as_str())));
    f.push(field("is_self", boolean(d.is_self)));
    f.push(field("last_seen_secs", opt_num(d.last_seen_secs)));
    f.push(field("space", opt_string(&d.space)));
    assert(field_views(f@) =~= seq![
        ("name"@, quoted(d.name@)),
        ("endpoint_id"@, quoted(d.endpoint_id@)),
        ("is_self"@, bool_form(d.is_self)),
        ("last_seen_secs"@, opt_number(d.last_seen_secs)),
        ("space"@, opt_quoted(d.space)),
    ]);
    record("DeviceInfo", &f)
}

// ------------------------------------------------------------ lists

/// Quoted strings, as a list.
pub open spec fn strings_form(v: Seq<String>) -> Seq<char> {
    list_form(v.map_values(|s: String| quoted(s@)))
}

/// Outcomes, as a list.
pub open spec fn targets_form(v: Seq<TargetResult>) -> Seq<char> {
    list_form(v.map_values(|t: TargetResult| target_form(t)))
}

/// History rows, as a list.
pub open spec fn entries_form(v: Seq<HistoryEntry>) -> Seq<char> {
    list_form(v.map_values(|e: HistoryEntry| entry_form(e)))
}

/// Space rows, as a list.
pub open spec fn spaces_form(v: Seq<SpaceRow>) -> Seq<char> {
    list_form(v.map_values(|s: SpaceRow| space_form(s)))
}

/// Space restrictions, as a list.
pub open spec fn policies_form(v: Seq<SpacePolicy>) -> Seq<char> {
    list_form(v.map_values(|p: SpacePolicy| policy_form(p)))
}

/// Device rows, as a list.
pub open spec fn devices_form(v: Seq<DeviceInfo>) -> Seq<char> {
    list_form(v.map_values(|d: DeviceInfo| device_form(d)))
}

fn strings(v: &Vec<String>) -> (r: String)
    ensures
        r@ == strings_form(v@),
{
    let mut parts: Vec<String> = Vec::new();
    let mut i: usize = 0;
    while i < v.len()
        invariant
            i <= v@.len(),
            parts@.len() == i,
            forall|k: int| 0 <= k < i ==> (#[trigger] parts@[k])@ == quoted(v@[k]@),
        decreases v.len() - i,
    {
        parts.push(quote(v[i].as_str()));
        i += 1;
    }
    assert(parts@.map_values(|p: String| p@) =~= v@.map_values(|s: String| quoted(s@)));
    list(&parts)
}

fn targets(v: &Vec<TargetResult>) -> (r: String)
    ensures
        r@ == targets_form(v@),
{
    let mut parts: Vec<String> = Vec::new();
    let mut i: usize = 0;
    while i < v.len()
        invariant
            i <= v@.len(),
            parts@.len() == i,
            forall|k: int| 0 <= k < i ==> (#[trigger] parts@[k])@ == target_form(v@[k]),
        decreases v.len() - i,
    {
        parts.push(target(&v[i]));
        i += 1;
    }
    assert(parts@.map_values(|p: String| p@) =~= v@.map_values(|t: TargetResult| target_form(t)));
    list(&parts)
}

fn entries(v: &Vec<HistoryEntry>) -> (r: String)
    ensures
        r@ == entries_form(v@),
{
    let mut parts: Vec<String> = Vec::new();
    let mut i: usize = 0;
    while i < v.len()
        invariant
            i <= v@.len(),
            parts@.len() == i,
            forall|k: int| 0 <= k < i ==> (#[trigger] parts@[k])@ == entry_form(v@[k]),
        decreases v.len() - i,
    {
        parts.push(entry(&v[i]));
        i += 1;
    }
    assert(parts@.map_values(|p: String| p@) =~= v@.map_values(|e: HistoryEntry| entry_form(e)));
    list(&parts)
}

fn space_list(v: &Vec<SpaceRow>) -> (r: String)
    ensures
        r@ == spaces_form(v@),
{
    let mut parts: Vec<String> = Vec::new();
    let mut i: usize = 0;
    while i < v.len()
        invariant
            i <= v@.len(),
            parts@.len() == i,
            forall|k: int| 0 <= k < i ==> (#[trigger] parts@[k])@ == space_form(v@[k]),
        decreases v.len() - i,
    {
        parts.push(space(&v[i]));
        i += 1;
    }
    assert(parts@.map_values(|p: String| p@) =~= v@.map_values(|s: SpaceRow| space_form(s)));
    list(&parts)
}

fn policies(v: &Vec<SpacePolicy>) -> (r: String)
    ensures
        r@ == policies_form(v@),
{
    let mut parts: Vec<String> = Vec::new();
    let mut i: usize = 0;
    while i < v.len()
        invariant
            i <= v@.len(),
            parts@.len() == i,
            forall|k: int| 0 <= k < i ==> (#[trigger] parts@[k])@ == policy_form(v@[k]),
        decreases v.len() - i,
    {
        parts.push(policy(&v[i]));
        i += 1;
    }
    assert(parts@.map_values(|p: String| p@) =~= v@.map_values(|p: SpacePolicy| policy_form(p)));
    list(&parts)
}

fn devices(v: &Vec<DeviceInfo>) -> (r: String)
    ensures
        r@ == devices_form(v@),
{
    let mut parts: Vec<String> = Vec::new();
    let mut i: usize = 0;
    while i < v.len()
        invariant
            i <= v@.len(),
            parts@.len() == i,
            forall|k: int| 0 <= k < i ==> (#[trigger] parts@[k])@ == device_form(v@[k]),
        decreases v.len() - i,
    {
        parts.push(device(&v[i]));
        i += 1;
    }
    assert(parts@.map_values(|p: String| p@) =~= v@.map_values(|d: DeviceInfo| device_form(d)));
    list(&parts)
}

// ------------------------------------------------------------ a reply

/// A reply, as `{:?}` writes it.
pub open spec fn reply_form(r: Response) -> Seq<char> {
    match r {
        Response::Accepted { msg_id } => record_form("Accepted"@, seq![("msg_id"@, quoted(msg_id@))]),
        Response::Finished { status } => record_form("Finished"@, seq![("status"@, status.name_spec())]),
        Response::Invite { url, expires_in } => record_form(
            "Invite"@,
            seq![("url"@, quoted(url@)), ("expires_in"@, dec(expires_in as nat))],
        ),
        Response::Joined { members, space } => record_form(
            "Joined"@,
            seq![("members"@, dec(members as nat)), ("space"@, quoted(space@))],
        ),
        Response::Preview { label, expires_in, endpoint_id } => record_form(
            "Preview"@,
            seq![
                ("label"@, opt_quoted(label)),
                ("expires_in"@, dec(expires_in as nat)),
                ("endpoint_id"@, quoted(endpoint_id@)),
            ],
        ),
        Response::Done => "Done"@,
        Response::Report { msg_id, targets } => record_form(
            "Report"@,
            seq![("msg_id"@, quoted(msg_id@)), ("targets"@, targets_form(targets@))],
        ),
        Response::Renamed { name } => record_form("Renamed"@, seq![("name"@, quoted(name@))]),
        Response::Devices { devices } => record_form("Devices"@, seq![("devices"@, devices_form(devices@))]),
        Response::Status { device_id, key_store, engine, fallback, queued, muted, quiet, engine_reason } => record_form(
            "Status"@,
            seq![
                ("device_id"@, quoted(device_id@)),
                ("key_store"@, quoted(key_store@)),
                ("engine"@, quoted(engine@)),
                ("fallback"@, bool_form(fallback)),
                ("queued"@, dec(queued as nat)),
                ("muted"@, bool_form(muted)),
                ("quiet"@, opt_quoted(quiet)),
                ("engine_reason"@, opt_quoted(engine_reason)),
            ],
        ),
        Response::History { entries } => record_form("History"@, seq![("entries"@, entries_form(entries@))]),
        Response::Controlled { targets } => record_form("Controlled"@, seq![("targets"@, targets_form(targets@))]),
        Response::Spaces { spaces } => record_form("Spaces"@, seq![("spaces"@, spaces_form(spaces@))]),
        Response::Left { space, unreached, refounded } => record_form(
            "Left"@,
            seq![
                ("space"@, quoted(space@)),
                ("unreached"@, dec(unreached as nat)),
                ("refounded"@, bool_form(refounded)),
            ],
        ),
        Response::Rotated { space, devices } => record_form(
            "Rotated"@,
            seq![("space"@, quoted(space@)), ("devices"@, strings_form(devices@))],
        ),
        Response::Targets { devices } => record_form("Targets"@, seq![("devices"@, strings_form(devices@))]),
        Response::Queue { speaking, pending, paused } => record_form(
            "Queue"@,
            seq![
                ("speaking"@, opt_quoted(speaking)),
                ("pending"@, strings_form(pending@)),
                ("paused"@, bool_form(paused)),
            ],
        ),
        Response::Policy { muted, quiet_from, quiet_to, high_breaks_through, spaces } => record_form(
            "Policy"@,
            seq![
                ("muted"@, bool_form(muted)),
                ("quiet_from"@, opt_quoted(quiet_from)),
                ("quiet_to"@, opt_quoted(quiet_to)),
                ("high_breaks_through"@, bool_form(high_breaks_through)),
                ("spaces"@, policies_form(spaces@)),
            ],
        ),
        Response::Error { message, kind } => record_form(
            "Error"@,
            seq![("message"@, quoted(message@)), ("kind"@, opt_quoted(kind))],
        ),
    }
}

/// A reply written out as `{:?}` writes it.
pub fn reply_text(r: &Response) -> (s: String)
    ensures
        s@ == reply_form(*r),
{
    let mut f: Vec<(String, String)> = Vec::new();
    match r {
        Response::Accepted { msg_id } => {
            f.push(field("msg_id", quote(msg_id.as_str())));
            assert(field_views(f@) =~= seq![("msg_id"@, quoted(msg_id@))]);
            record("Accepted", &f)
        },
        Response::Finished { status } => {
            f.push(field("status", owned(status.name())));
            assert(field_views(f@) =~= seq![("status"@, status.name_spec())]);
            record("Finished", &f)
        },
        Response::Invite { url, expires_in } => {
            f.push(field("url", quote(url.as_str())));
            f.push(field("expires_in", number(*expires_in)));
            assert(field_views(f@) =~= seq![("url"@, quoted(url@)), ("expires_in"@, dec(*expires_in as nat))]);
            record("Invite", &f)
        },
        Response::Joined { members, space } => {
            f.push(field("members", number(*members as u64)));
            f.push(field("space", quote(space.as_str())));
            assert(field_views(f@) =~= seq![("members"@, dec(*members as nat)), ("space"@, quoted(space@))]);
            record("Joined", &f)
        },
        Response::Preview { label, expires_in, endpoint_id } => {
            f.push(field("label", opt_string(label)));
            f.push(field("expires_in", number(*expires_in)));
            f.push(field("endpoint_id", quote(endpoint_id.as_str())));
            assert(field_views(f@) =~= seq![
                ("label"@, opt_quoted(*label)),
                ("expires_in"@, dec(*expires_in as nat)),
                ("endpoint_id"@, quoted(endpoint_id@)),
            ]);
            record("Preview", &f)
        },
        Response::Done => owned("Done"),
        Response::Report { msg_id, targets: t } => {
            f.push(field("msg_id", quote(msg_id.as_str())));
            f.push(field("targets", targets(t)));
            assert(field_views(f@) =~= seq![("msg_id"@, quoted(msg_id@)), ("targets"@, targets_form(t@))]);
            record("Report", &f)
        },
        Response::Renamed { name } => {
            f.push(field("name", quote(name.as_str())));
            assert(field_views(f@) =~= seq![("name"@, quoted(name@))]);
            record("Renamed", &f)
        },
        Response::Devices { devices: d } => {
            f.push(field("devices", devices(d)));
            assert(field_views(f@) =~= seq![("devices"@, devices_form(d@))]);
            record("Devices", &f)
        },
        Response::Status { device_id, key_store, engine, fallback, queued, muted, quiet, engine_reason } => {
            f.push(field("device_id", quote(device_id.as_str())));
            f.push(field("key_store", quote(key_store.as_str())));
            f.push(field("engine", quote(engine.as_str())));
            f.push(field("fallback", boolean(*fallback)));
            f.push(field("queued", number(*queued as u64)));
            f.push(field("muted", boolean(*muted)));
            f.push(field("quiet", opt_string(quiet)));
            f.push(field("engine_reason", opt_string(engine_reason)));
            assert(field_views(f@) =~= seq![
                ("device_id"@, quoted(device_id@)),
                ("key_store"@, quoted(key_store@)),
                ("engine"@, quoted(engine@)),
                ("fallback"@, bool_form(*fallback)),
                ("queued"@, dec(*queued as nat)),
                ("muted"@, bool_form(*muted)),
                ("quiet"@, opt_quoted(*quiet)),
                ("engine_reason"@, opt_quoted(*engine_reason)),
            ]);
            record("Status", &f)
        },
        Response::History { entries: e } => {
            f.push(field("entries", entries(e)));
            assert(field_views(f@) =~= seq![("entries"@, entries_form(e@))]);
            record("History", &f)
        },
        Response::Controlled { targets: t } => {
            f.push(field("targets", targets(t)));
            assert(field_views(f@) =~= seq![("targets"@, targets_form(t@))]);
            record("Controlled", &f)
        },
        Response::Spaces { spaces: s } => {
            f.push(field("spaces", space_list(s)));
            assert(field_views(f@) =~= seq![("spaces"@, spaces_form(s@))]);
            record("Spaces", &f)
        },
        Response::Left { space, unreached, refounded } => {
            f.push(field("space", quote(space.as_str())));
            f.push(field("unreached", number(*unreached as u64)));
            f.push(field("refounded", boolean(*refounded)));
            assert(field_views(f@) =~= seq![
                ("space"@, quoted(space@)),
                ("unreached"@, dec(*unreached as nat)),
                ("refounded"@, bool_form(*refounded)),
            ]);
            record("Left", &f)
        },
        Response::Rotated { space, devices: d } => {
            f.push(field("space", quote(space.as_str())));
            f.push(field("devices", strings(d)));
            assert(field_views(f@) =~= seq![("space"@, quoted(space@)), ("devices"@, strings_form(d@))]);
            record("Rotated", &f)
        },
        Response::Targets { devices: d } => {
            f.push(field("devices", strings(d)));
            assert(field_views(f@) =~= seq![("devices"@, strings_form(d@))]);
            record("Targets", &f)
        },
        Response::Queue { speaking, pending, paused } => {
            f.push(field("speaking", opt_string(speaking)));
            f.push(field("pending", strings(pending)));
            f.push(field("paused", boolean(*paused)));
            assert(field_views(f@) =~= seq![
                ("speaking"@, opt_quoted(*speaking)),
                ("pending"@, strings_form(pending@)),
                ("paused"@, bool_form(*paused)),
            ]);
            record("Queue", &f)
        },
        Response::Policy { muted, quiet_from, quiet_to, high_breaks_through, spaces: s } => {
            f.push(field("muted", boolean(*muted)));
            f.push(field("quiet_from", opt_string(quiet_from)));
            f.push(field("quiet_to", opt_string(quiet_to)));
            f.push(field("high_breaks_through", boolean(*high_breaks_through)));
            f.push(field("spaces", policies(s)));
            assert(field_views(f@) =~= seq![
                ("muted"@, bool_form(*muted)),
                ("quiet_from"@, opt_quoted(*quiet_from)),
                ("quiet_to"@, opt_quoted(*quiet_to)),
                ("high_breaks_through"@, bool_form(*high_breaks_through)),
                ("spaces"@, policies_form(s@)),
            ]);
            record("Policy", &f)
        },
        Response::Error { message, kind } => {
            f.push(field("message", quote(message.as_str())));
            f.push(field("kind", opt_string(kind)));
            assert(field_views(f@) =~= seq![("message"@, quoted(message@)), ("kind"@, opt_quoted(*kind))]);
            record("Error", &f)
        },
    }
}

} // verus!
