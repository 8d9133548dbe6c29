//! Desktop key storage: the system keyring, falling back to a file.
//!
//! A headless box, a session without a running secret service, or a locked
//! keyring all mean "no keyring right now" rather than "no identity".
//! Falling back keeps the tool usable, and the description reports which
//! store is actually in use so the fallback is never silent.
//!
//! Talking to the keyring is the host's; what is decided here is what its
//! answers mean.

use vstd::prelude::*;

use crate::identity::{FileKeyStore, IdentityError};
use crate::strs::{dec, owned, push_dec, push_str};

verus! {

/// What the platform keyring had to say, in a form that survives being
/// cached.
#[derive(Debug, Clone)]
pub enum Keyring {
    /// It held a key of the right size.
    Held([u8; 32]),
    /// It answered, and holds nothing for this device.
    Empty,
    /// It held something that is not a key, of this many bytes.
    Malformed(usize),
    /// It exists but would not answer — locked, or a broken session bus —
    /// with the keyring's own reason. Kept apart from `Empty` because the
    /// two need opposite responses.
    Unreadable(String),
    /// No keyring on this platform, or none this build can reach.
    Missing,
}

fn copy_answer(k: &Keyring) -> (r: Keyring)
    ensures
        r == *k,
{
    match k {
        Keyring::Held(key) => Keyring::Held(*key),
        Keyring::Empty => Keyring::Empty,
        Keyring::Malformed(n) => Keyring::Malformed(*n),
        Keyring::Unreadable(why) => Keyring::Unreadable(why.clone()),
        Keyring::Missing => Keyring::Missing,
    }
}

/// Why a device whose key was in the keyring will not start over.
pub open spec fn refusal_text(marker: Seq<char>) -> Seq<char> {
    "this device has an identity in the system keyring, but it cannot be read. Refusing to generate a new one, which would change this device's address and remove it from its spaces. Unlock or start the keyring and retry, or delete "@
        + marker + " to deliberately start over"@
}

/// What to do given what each store holds and whether the keyring was used
/// before.
///
/// Nothing anywhere after the keyring once held the key is a broken or
/// cleared keyring rather than a first run — and generating a fresh identity
/// would silently change this device's address and evict it from every
/// space it belongs to. `marker` is the file that records that use, as shown.
pub fn decide(
    from_keyring: Option<[u8; 32]>,
    from_file: Option<[u8; 32]>,
    keyring_was_used: bool,
    marker: &str,
) -> (r: Result<Option<[u8; 32]>, IdentityError>)
    ensures
        from_keyring is Some ==> r == Ok::<Option<[u8; 32]>, IdentityError>(from_keyring),
        from_keyring is None && from_file is Some ==> r == Ok::<Option<[u8; 32]>, IdentityError>(from_file),
        from_keyring is None && from_file is None && !keyring_was_used ==> r == Ok::<Option<[u8; 32]>, IdentityError>(None),
        from_keyring is None && from_file is None && keyring_was_used ==> (r matches Err(
            IdentityError::Store(m),
        ) && m@ == refusal_text(marker@)),
{
    if let Some(key) = from_keyring {
        return Ok(Some(key));
    }
    if let Some(key) = from_file {
        return Ok(Some(key));
    }
    if keyring_was_used {
        let mut m = owned(
            "this device has an identity in the system keyring, but it cannot be read. Refusing to generate a new one, which would change this device's address and remove it from its spaces. Unlock or start the keyring and retry, or delete ",
        );
        push_str(&mut m, marker);
        push_str(&mut m, " to deliberately start over");
        return Err(IdentityError::Store(m));
    }
    Ok(None)
}

/// The key the keyring's answer gives, if any; a malformed one is an error.
pub fn keyring_key(answer: &Keyring) -> (r: Result<Option<[u8; 32]>, IdentityError>)
    ensures
        match *answer {
            Keyring::Held(k) => r == Ok::<Option<[u8; 32]>, IdentityError>(Some(k)),
            Keyring::Malformed(n) => r matches Err(IdentityError::Malformed(m)) && m@ == "keyring holds "@
                + dec(n as nat) + " bytes, expected 32"@,
            _ => r == Ok::<Option<[u8; 32]>, IdentityError>(None),
        },
{
    match answer {
        Keyring::Held(k) => Ok(Some(*k)),
        Keyring::Malformed(n) => {
            let mut m = owned("keyring holds ");
            push_dec(&mut m, *n as u64);
            push_str(&mut m, " bytes, expected 32");
            Err(IdentityError::Malformed(m))
        },
        _ => Ok(None),
    }
}

/// The keyring and its file fallback, with the keyring asked at most once.
///
/// On some platforms every question to the keyring is a prompt, so the
/// answer is remembered for the life of the store.
#[derive(Debug)]
pub struct DesktopKeyStore {
    /// Where the key goes when the keyring cannot take it.
    pub fallback: FileKeyStore,
    /// The file recording that a key was once stored in the keyring, as
    /// shown.
    pub marker: String,
    /// What the keyring said, once asked.
    pub asked: Option<Keyring>,
}

/// How the store describes where the key lives, given the keyring's answer.
pub open spec fn description(fallback: Seq<char>, answer: Keyring) -> Seq<char> {
    match answer {
        Keyring::Held(_) => "system keyring"@,
        Keyring::Unreadable(why) => fallback
            + " — the system keyring is present but would not answer ("@ + why@
            + "). Unlock it and restart to use it instead"@,
        Keyring::Malformed(n) => "system keyring, holding "@ + dec(n as nat) + " bytes where 32 are expected"@,
        _ => fallback,
    }
}

impl DesktopKeyStore {
    /// A store with nothing asked yet.
    pub fn new(fallback: FileKeyStore, marker: String) -> (r: Self)
        ensures
            r.fallback == fallback,
            r.marker == marker,
            r.asked is None,
    {
        DesktopKeyStore { fallback, marker, asked: None }
    }

    /// What the keyring says: the remembered answer, or `probe`'s, which is
    /// then remembered. Every path that wants to know goes through here,
    /// which is what makes "once" true.
    pub fn ask<F: FnOnce() -> Keyring>(&mut self, probe: F) -> (r: Keyring)
        requires
            old(self).asked is None ==> call_requires(probe, ()),
        ensures
            old(self).asked matches Some(k) ==> r == k && final(self).asked == old(self).asked,
            old(self).asked is None ==> call_ensures(probe, (), r) && final(self).asked == Some(r),
            final(self).fallback == old(self).fallback,
            final(self).marker == old(self).marker,
    {
        match &self.asked {
            Some(k) => copy_answer(k),
            None => {
                let answer = probe();
                self.asked = Some(copy_answer(&answer));
                answer
            },
        }
    }

    /// Remember that the keyring now holds `key`, so a stale "empty" does
    /// not make the description contradict a save that just happened.
    pub fn saved_to_keyring(&mut self, key: [u8; 32])
        ensures
            final(self).asked == Some(Keyring::Held(key)),
            final(self).fallback == old(self).fallback,
            final(self).marker == old(self).marker,
    {
        self.asked = Some(Keyring::Held(key));
    }

    /// Where the key lives, for `clispeak status`: the keyring when it holds
    /// it, and the keyring named as the thing to deal with when it would not
    /// answer.
    pub fn describe<F: FnOnce() -> Keyring>(&mut self, probe: F) -> (r: String)
        requires
            old(self).asked is None ==> call_requires(probe, ()),
        ensures
            old(self).asked matches Some(k) ==> r@ == description("file "@ + old(self).fallback.path@, k),
            final(self).asked matches Some(k) && r@ == description("file "@ + old(self).fallback.path@, k),
    {
        let answer = self.ask(probe);
        match answer {
            Keyring::Held(_) => owned("system keyring"),
            Keyring::Unreadable(why) => {
                let mut s = self.fallback.describe();
                push_str(&mut s, " — the system keyring is present but would not answer (");
                push_str(&mut s, why.as_str());
                push_str(&mut s, "). Unlock it and restart to use it instead");
                s
            },
            Keyring::Malformed(n) => {
                let mut s = owned("system keyring, holding ");
                push_dec(&mut s, n as u64);
                push_str(&mut s, " bytes where 32 are expected");
                s
            },
            _ => self.fallback.describe(),
        }
    }
}

} // verus!
