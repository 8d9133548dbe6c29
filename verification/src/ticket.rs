//! Invite tickets.
//!
//! A ticket carries the inviter's public key and a one-time token. It carries
//! no address: the key resolves to wherever the device currently is, which is
//! why a ticket stays valid as devices move between networks.
//!
//! The token is not optional. Without it, a ticket photographed over your
//! shoulder — or left in terminal scrollback, or in a screen recording — is
//! permanent access to your speakers.
//!
//! Every question about time here takes the time as an argument: "expired"
//! is a statement about two clocks, and the case worth getting right is the
//! one where this machine's clock is not the one to trust.

use vstd::prelude::*;

use vstd::string::StrSliceExecFns;
use vstd::utf8::encode_utf8;

use crate::strs::{chars_of, dec, is_prefix, owned, push_dec, push_str, slice, starts_with, string_of, trim, trimmed};

verus! {

/// How long an invite stays valid.
pub const TTL_SECS: u64 = 300;

/// The payload encoded into a ticket string.
#[derive(Debug, Clone)]
pub struct Ticket {
    /// The inviter's public key.
    pub endpoint_id: String,
    /// Single-use secret proving the joiner was actually invited.
    pub token: String,
    /// Unix seconds when this ticket stops being accepted.
    pub expires_at: u64,
    /// Which space the joiner is being invited into; none means the
    /// inviter's default.
    pub space: Option<String>,
    /// What the inviter calls that space, for the joiner to read. Advisory:
    /// the id is what selects the roster.
    pub label: Option<String>,
}

// ------------------------------------------------------------ outside calls

/// What `BASE32_NOPAD.encode` makes of some bytes.
pub uninterp spec fn base32_text(bytes: Seq<u8>) -> Seq<char>;

/// What `BASE32_NOPAD.decode` makes of some bytes, none where it refuses.
pub uninterp spec fn base32_bytes(text: Seq<u8>) -> Option<Seq<u8>>;

/// What `str::to_uppercase` makes of a text.
pub uninterp spec fn upper_text(s: Seq<char>) -> Seq<char>;

/// What chrono renders a unix time as, `%Y-%m-%d %H:%M UTC`, none where
/// it holds no such time.
pub uninterp spec fn chrono_utc(secs: u64) -> Option<Seq<char>>;

/// Sixteen bytes from `rand::random`; nothing is promised of their values.
#[verifier::external_body]
fn random_bytes() -> (r: [u8; 16]) {
    rand::random::<[u8; 16]>()
}

/// A character of the base32 alphabet: `A` to `Z`, then `2` to `7`.
pub open spec fn is_base32_char(c: char) -> bool {
    (0x41 <= c as u32 <= 0x5a) || (0x32 <= c as u32 <= 0x37)
}

/// How many characters unpadded base32 writes for `n` bytes: five bits a
/// character, the last one partly filled.
pub open spec fn base32_len(n: nat) -> nat {
    (8 * n + 4) / 5
}

/// `data_encoding::BASE32_NOPAD.encode`, taken as a function of its input:
/// one character of the alphabet for every five bits, rounded up, no
/// padding. The crate asserts that the input is at most `usize::MAX / 512`
/// bytes long, so longer ones are left out.
#[verifier::external_body]
fn base32_encode(bytes: &[u8]) -> (r: String)
    requires
        bytes@.len() <= usize::MAX / 512,
    ensures
        r@ == base32_text(bytes@),
        r@.len() == base32_len(bytes@.len()),
        forall|i: int| 0 <= i < r@.len() ==> is_base32_char(#[trigger] r@[i]),
{
    data_encoding::BASE32_NOPAD.encode(bytes)
}

/// `data_encoding::BASE32_NOPAD.decode`, its error read as none. The crate
/// asserts that the input is at most `usize::MAX / 8` bytes long, so longer
/// ones are left out.
#[verifier::external_body]
fn base32_decode(text: &[u8]) -> (r: Option<Vec<u8>>)
    requires
        text@.len() <= usize::MAX / 8,
    ensures
        match (r, base32_bytes(text@)) {
            (Some(b), Some(c)) => b@ == c,
            (None, None) => true,
            _ => false,
        },
{
    match data_encoding::BASE32_NOPAD.decode(text) {
        Ok(b) => Some(b),
        Err(_) => None,
    }
}

/// `str::to_uppercase`, taken as a function of its input.
#[verifier::external_body]
fn uppercase(s: &str) -> (r: String)
    ensures
        r@ == upper_text(s@),
{
    s.to_uppercase()
}

/// `chrono::DateTime::from_timestamp(secs, 0)` formatted as
/// `%Y-%m-%d %H:%M UTC`, taken as a function of `secs`. The format is fixed
/// here rather than passed in: chrono panics on rendering under a format it
/// cannot parse, and this one it can.
#[verifier::external_body]
fn chrono_format(secs: u64) -> (r: Option<String>)
    ensures
        match (r, chrono_utc(secs)) {
            (Some(t), Some(u)) => t@ == u,
            (None, None) => true,
            _ => false,
        },
{
    chrono::DateTime::from_timestamp(secs as i64, 0).map(|t| t.format("%Y-%m-%d %H:%M UTC").to_string())
}

// ------------------------------------------------------------ durations

/// `n / u`, rounded to the nearest, halves up.
pub open spec fn round_to(n: nat, u: nat) -> nat {
    (n + u / 2) / u
}

/// A duration a person would say out loud: the number.
pub open spec fn duration_count(secs: nat) -> nat {
    if secs <= 90 {
        secs
    } else if secs < 3600 {
        round_to(secs, 60)
    } else if secs < 172_800 {
        round_to(secs, 3600)
    } else {
        round_to(secs, 86_400)
    }
}

/// A duration a person would say out loud: the unit.
pub open spec fn duration_unit(secs: nat) -> Seq<char> {
    if secs <= 90 {
        "second"@
    } else if secs < 3600 {
        "minute"@
    } else if secs < 172_800 {
        "hour"@
    } else {
        "day"@
    }
}

/// A duration a person would say out loud, from seconds.
///
/// Deliberately coarse: the reader is deciding whether a number is
/// plausible, not measuring anything. Rounded, not ceilinged, and singular
/// only for one.
pub open spec fn duration_text(secs: nat) -> Seq<char> {
    let n = duration_count(secs);
    dec(n) + " "@ + duration_unit(secs) + if n == 1 {
        Seq::<char>::empty()
    } else {
        "s"@
    }
}

/// The most a duration can be and still be rounded without overflow.
pub open spec fn sayable(secs: int) -> bool {
    secs <= 0xffff_ffff_ffff_ffff - 43_200
}

/// A duration a person would say out loud.
pub fn plain_duration(secs: u64) -> (r: String)
    requires
        sayable(secs as int),
    ensures
        r@ == duration_text(secs as nat),
{
    let n = if secs <= 90 {
        secs
    } else if secs < 3600 {
        (secs + 30) / 60
    } else if secs < 172_800 {
        (secs + 1800) / 3600
    } else {
        (secs + 43_200) / 86_400
    };
    let mut s = String::new();
    push_dec(&mut s, n);
    push_str(&mut s, " ");
    if secs <= 90 {
        push_str(&mut s, "second");
    } else if secs < 3600 {
        push_str(&mut s, "minute");
    } else if secs < 172_800 {
        push_str(&mut s, "hour");
    } else {
        push_str(&mut s, "day");
    }
    if n != 1 {
        push_str(&mut s, "s");
    }
    assert(s@ =~= duration_text(secs as nat));
    s
}

/// A unix time as a person can hold it against a clock.
pub open spec fn utc_text(secs: u64) -> Seq<char> {
    match chrono_utc(secs) {
        Some(t) => t,
        None => "unix time "@ + dec(secs as nat),
    }
}

/// A unix time as something a person can compare against a clock.
///
/// UTC and named as such, because the point is to be checked against
/// reality and a local rendering of a wrong clock is just the wrong time
/// again in friendlier words.
pub fn utc(secs: u64) -> (r: String)
    ensures
        r@ == utc_text(secs),
{
    match chrono_format(secs) {
        Some(t) => t,
        None => {
            let mut s = owned("unix time ");
            push_dec(&mut s, secs);
            s
        },
    }
}

// ------------------------------------------------------------ clocks

/// How far past expiry `now` is, as this device counts.
pub open spec fn overdue(expires_at: u64, now: u64) -> nat {
    if now >= expires_at {
        (now - expires_at) as nat
    } else {
        0
    }
}

/// How much life is left at `now`.
pub open spec fn life_left(expires_at: u64, now: u64) -> nat {
    if expires_at >= now {
        (expires_at - now) as nat
    } else {
        0
    }
}

/// What to say about a ticket this device thinks has expired.
pub open spec fn expiry_text(expires_at: u64, now: u64) -> Seq<char> {
    "that invite expired "@ + duration_text(overdue(expires_at, now))
        + " ago, according to this device — which believes it is now "@ + utc_text(now)
        + ". If that is not close to the real time, this device's clock is wrong and the invite is fine; fix the clock here rather than asking for another invite."@
}

/// What to say when this device's clock is provably behind the minting one.
pub open spec fn behind_text(expires_at: u64, now: u64) -> Option<Seq<char>> {
    let remaining = life_left(expires_at, now);
    if remaining <= TTL_SECS {
        None
    } else {
        Some(
            "this device's clock is at least "@ + duration_text((remaining - TTL_SECS) as nat)
                + " behind the device that made this invite, so the invite cannot be checked. An invite is only ever valid for "@
                + duration_text(TTL_SECS as nat) + ", and this one claims "@ + duration_text(remaining)
                + ". Fix the clock here; the invite is fine."@,
        )
    }
}

impl Ticket {
    /// Mint a ticket for `endpoint_id` at `now`, valid for [`TTL_SECS`].
    ///
    /// The token is sixteen random bytes in unpadded base32.
    pub fn mint(endpoint_id: String, space: Option<String>, label: Option<String>, now: u64) -> (r: Self)
        requires
            now + TTL_SECS <= u64::MAX,
        ensures
            r.endpoint_id == endpoint_id,
            r.space == space,
            r.label == label,
            r.expires_at == now + TTL_SECS,
            exists|b: Seq<u8>| b.len() == 16 && r.token@ == base32_text(b),
            r.token@.len() == 26,
            forall|i: int| 0 <= i < r.token@.len() ==> is_base32_char(#[trigger] r.token@[i]),
    {
        let bytes = random_bytes();
        let token = base32_encode(&bytes);
        proof {
            assert(bytes@.len() == 16);
        }
        Ticket { endpoint_id, token, expires_at: now + TTL_SECS, space, label }
    }

    /// Whether this ticket is still within its lifetime at `now`.
    pub fn is_valid(&self, now: u64) -> (r: bool)
        ensures
            r == (now <= self.expires_at),
    {
        now <= self.expires_at
    }

    /// Seconds until expiry at `now`, saturating at zero.
    pub fn remaining(&self, now: u64) -> (r: u64)
        ensures
            r == life_left(self.expires_at, now),
    {
        if self.expires_at >= now {
            self.expires_at - now
        } else {
            0
        }
    }

    /// What to say about a ticket this device thinks has expired.
    ///
    /// **"Expired" is not a property of the ticket.** It is a statement about
    /// two clocks, and this one is only ever reporting its own. So it hands
    /// over the evidence rather than a conclusion: how long ago, and what this
    /// device believes the time is.
    pub fn expiry_objection(&self, now: u64) -> (r: String)
        requires
            sayable(overdue(self.expires_at, now) as int),
        ensures
            r@ == expiry_text(self.expires_at, now),
    {
        let ago = if now >= self.expires_at {
            now - self.expires_at
        } else {
            0
        };
        let mut s = owned("that invite expired ");
        let d = plain_duration(ago);
        push_str(&mut s, d.as_str());
        push_str(&mut s, " ago, according to this device — which believes it is now ");
        let t = utc(now);
        push_str(&mut s, t.as_str());
        push_str(
            &mut s,
            ". If that is not close to the real time, this device's clock is wrong and the invite is fine; fix the clock here rather than asking for another invite.",
        );
        s
    }

    /// A message when this device's clock is provably behind the minting one.
    ///
    /// **This direction can be proved, and the other cannot.** A ticket is
    /// minted with exactly [`TTL_SECS`] of life, so no honest ticket can ever
    /// have more than that remaining. More than that means the clock reading
    /// it is behind the clock that wrote it, by at least the difference.
    pub fn clock_is_behind(&self, now: u64) -> (r: Option<String>)
        requires
            sayable(life_left(self.expires_at, now) as int),
        ensures
            match (r, behind_text(self.expires_at, now)) {
                (Some(m), Some(t)) => m@ == t,
                (None, None) => true,
                _ => false,
            },
    {
        let remaining = self.remaining(now);
        if remaining <= TTL_SECS {
            return None;
        }
        let excess = remaining - TTL_SECS;
        let mut s = owned("this device's clock is at least ");
        let a = plain_duration(excess);
        push_str(&mut s, a.as_str());
        push_str(
            &mut s,
            " behind the device that made this invite, so the invite cannot be checked. An invite is only ever valid for ",
        );
        let b = plain_duration(TTL_SECS);
        push_str(&mut s, b.as_str());
        push_str(&mut s, ", and this one claims ");
        let c = plain_duration(remaining);
        push_str(&mut s, c.as_str());
        push_str(&mut s, ". Fix the clock here; the invite is fine.");
        Some(s)
    }

    /// Accept a ticket read at `now`, or say why not.
    ///
    /// An expired one is answered with the evidence; one with more life than
    /// can be minted did not come from a device that agrees with this one
    /// about the time.
    pub fn accept_at(self, now: u64) -> (r: Result<Ticket, String>)
        requires
            sayable(overdue(self.expires_at, now) as int),
            sayable(life_left(self.expires_at, now) as int),
        ensures
            now > self.expires_at ==> (r matches Err(m) && m@ == expiry_text(self.expires_at, now)),
            now <= self.expires_at ==> match behind_text(self.expires_at, now) {
                Some(t) => r matches Err(m) && m@ == t,
                None => r matches Ok(t) && t == self,
            },
    {
        if !self.is_valid(now) {
            return Err(self.expiry_objection(now));
        }
        match self.clock_is_behind(now) {
            Some(m) => Err(m),
            None => Ok(self),
        }
    }
}

// ------------------------------------------------------------ text form

/// What a ticket link starts with.
pub open spec fn url_prefix() -> Seq<char> {
    "clispeak://join/"@
}

/// A ticket's encoded bytes as a `clispeak://join/...` link.
pub fn url_of(encoded: &[u8]) -> (r: String)
    requires
        encoded@.len() <= usize::MAX / 512,
    ensures
        r@ == url_prefix() + base32_text(encoded@),
{
    let mut s = owned("clispeak://join/");
    let body = base32_encode(encoded);
    push_str(&mut s, body.as_str());
    s
}

/// The part of a pasted invite that carries the ticket.
pub open spec fn invite_body(s: Seq<char>) -> Seq<char> {
    let t = trim(s);
    if is_prefix(url_prefix(), t) {
        t.skip(url_prefix().len() as int)
    } else {
        t
    }
}

/// What reading a pasted invite's bytes gives.
pub open spec fn invite_bytes(s: Seq<char>) -> Result<Seq<u8>, Seq<char>> {
    if trim(s).len() == 0 {
        Err("paste an invite first, then try again"@)
    } else {
        let text = encode_utf8(upper_text(invite_body(s)));
        if text.len() > usize::MAX / 8 {
            Err("that does not look like a clispeak invite"@)
        } else {
            match base32_bytes(text) {
                Some(b) => Ok(b),
                None => Err("that does not look like a clispeak invite"@),
            }
        }
    }
}

/// The encoded ticket in a pasted invite, with or without the link prefix,
/// in either case.
///
/// Errors are written for whoever pasted the thing, not for a log file.
pub fn invite_payload(s: &str) -> (r: Result<Vec<u8>, String>)
    ensures
        match (r, invite_bytes(s@)) {
            (Ok(b), Ok(c)) => b@ == c,
            (Err(m), Err(n)) => m@ == n,
            _ => false,
        },
{
    let raw = chars_of(s);
    let t = trimmed(&raw);
    if t.len() == 0 {
        return Err(owned("paste an invite first, then try again"));
    }
    let prefix = chars_of("clispeak://join/");
    let body = if starts_with(&t, &prefix) {
        slice(&t, prefix.len(), t.len())
    } else {
        slice(&t, 0, t.len())
    };
    assert(body@ =~= invite_body(s@));
    let text = string_of(&body);
    let upper = uppercase(text.as_str());
    let bytes = upper.as_str().as_bytes_vec();
    // Far longer than any invite, and longer than the decoder will take.
    if bytes.len() > usize::MAX / 8 {
        return Err(owned("that does not look like a clispeak invite"));
    }
    match base32_decode(bytes.as_slice()) {
        Some(b) => Ok(b),
        None => Err(owned("that does not look like a clispeak invite")),
    }
}

// ------------------------------------------------------------ pictures

/// What `qrcode` draws for a text at low error correction, as an SVG at
/// least `min_size` pixels square, with or without a quiet zone, in the two
/// colours given; none where the text is too long to encode.
pub uninterp spec fn qr_picture(text: Seq<char>, min_size: u32, quiet: bool, dark: Seq<char>, light: Seq<char>) -> Option<Seq<char>>;

/// `qrcode::QrCode::with_error_correction_level` at `EcLevel::L`, rendered
/// as an SVG with the size, quiet zone and colours given, taken as a
/// function of its arguments. The renderer works out pixel sizes in `u32`,
/// so the size asked for is kept far below where that could overflow.
#[verifier::external_body]
fn qr_render(text: &str, min_size: u32, quiet: bool, dark: &str, light: &str) -> (r: Option<String>)
    requires
        min_size <= 4096,
    ensures
        match (r, qr_picture(text@, min_size, quiet, dark@, light@)) {
            (Some(a), Some(b)) => a@ == b,
            (None, None) => true,
            _ => false,
        },
{
    match qrcode::QrCode::with_error_correction_level(text, qrcode::EcLevel::L) {
        Ok(code) => Some(
            code.render()
                .min_dimensions(min_size, min_size)
                .quiet_zone(quiet)
                .dark_color(qrcode::render::svg::Color(dark))
                .light_color(qrcode::render::svg::Color(light))
                .build(),
        ),
        Err(_) => None,
    }
}

/// The smallest an invite's code is drawn, in pixels a side.
pub const QR_MIN_SIZE: u32 = 220;

/// What an invite's code looks like: at least [`QR_MIN_SIZE`] square, with
/// a quiet zone, black on white.
pub open spec fn invite_picture(text: Seq<char>) -> Option<Seq<char>> {
    qr_picture(text, QR_MIN_SIZE, true, "#000000"@, "#ffffff"@)
}

/// An invite as an SVG QR code.
///
/// Generated here rather than in the interface: a subtly wrong encoder
/// produces a code that looks right and will not scan. Low correction,
/// because the payload is already long and a screen is a clean surface.
pub fn qr_svg(text: &str) -> (r: Result<String, String>)
    ensures
        match (r, invite_picture(text@)) {
            (Ok(a), Some(b)) => a@ == b,
            (Err(m), None) => m@ == "that invite is too long to encode as a QR code"@,
            _ => false,
        },
{
    match qr_render(text, QR_MIN_SIZE, true, "#000000", "#ffffff") {
        Some(svg) => Ok(svg),
        None => Err(owned("that invite is too long to encode as a QR code")),
    }
}

// ------------------------------------------------------------ laws

/// A ticket read the moment it was minted carries exactly its full life,
/// which is no evidence of anything: it is accepted, on either clock.
pub proof fn law_a_fresh_ticket_is_accepted(now: u64)
    requires
        now + TTL_SECS <= u64::MAX,
    ensures
        now <= now + TTL_SECS,
        behind_text((now + TTL_SECS) as u64, now) is None,
{
}

/// More life than a ticket can be minted with proves the reader's clock is
/// behind, by at least the difference.
pub proof fn law_more_life_than_minted_is_a_slow_clock(expires_at: u64, now: u64)
    requires
        expires_at > now + TTL_SECS,
    ensures
        behind_text(expires_at, now) is Some,
{
}

} // verus!
