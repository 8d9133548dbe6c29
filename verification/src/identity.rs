//! Device identity.
//!
//! A device *is* its ed25519 public key. The display name is a local label
//! that can change freely without breaking anything — which is what stops a
//! name being usable to impersonate a device, and why renaming never costs a
//! re-pairing.
//!
//! Where the private key is stored is a platform question, answered by the
//! host; what is decided here is how stored bytes are read and what a device
//! is called.

use vstd::prelude::*;

use crate::strs::{chars_of, eq_ignore_case, owned, push_dec, push_str, same_ignoring_case, slice, string_of, trim, trimmed};

verus! {

/// Why an identity could not be loaded or saved.
#[derive(Debug, Clone)]
pub enum IdentityError {
    /// The store could not be reached.
    Store(String),
    /// Stored bytes were not a valid key.
    Malformed(String),
}

/// What an identity error says.
pub open spec fn identity_error_text(e: IdentityError) -> Seq<char> {
    match e {
        IdentityError::Store(m) => "key store unavailable: "@ + m@,
        IdentityError::Malformed(m) => "stored key is malformed: "@ + m@,
    }
}

impl IdentityError {
    /// The error as a sentence.
    pub fn message(&self) -> (r: String)
        ensures
            r@ == identity_error_text(*self),
    {
        match self {
            IdentityError::Store(m) => {
                let mut s = owned("key store unavailable: ");
                push_str(&mut s, m.as_str());
                s
            },
            IdentityError::Malformed(m) => {
                let mut s = owned("stored key is malformed: ");
                push_str(&mut s, m.as_str());
                s
            },
        }
    }
}

/// A key on disk, readable only by its owner.
///
/// The documented fallback for platforms without a usable keyring, and the
/// only store that works identically on every target.
#[derive(Debug, Clone)]
pub struct FileKeyStore {
    /// Where the key lives, as shown to a person.
    pub path: String,
}

impl FileKeyStore {
    /// Store the key at `path`.
    pub fn at(path: String) -> (r: Self)
        ensures
            r.path == path,
    {
        FileKeyStore { path }
    }

    /// Where the key lives, for `clispeak status`.
    pub fn describe(&self) -> (r: String)
        ensures
            r@ == "file "@ + self.path@,
    {
        let mut s = owned("file ");
        push_str(&mut s, self.path.as_str());
        s
    }
}

/// Read a stored key: exactly 32 bytes, or malformed.
pub fn key_from_bytes(bytes: &Vec<u8>) -> (r: Result<[u8; 32], IdentityError>)
    ensures
        bytes@.len() == 32 ==> (r matches Ok(k) && k@ == bytes@),
        bytes@.len() != 32 ==> (r matches Err(IdentityError::Malformed(m)) && m@
            == "expected 32 bytes, found "@ + crate::strs::dec(bytes@.len())),
{
    if bytes.len() != 32 {
        let mut m = owned("expected 32 bytes, found ");
        push_dec(&mut m, bytes.len() as u64);
        return Err(IdentityError::Malformed(m));
    }
    let mut k = [0u8; 32];
    let mut i: usize = 0;
    while i < 32
        invariant
            bytes@.len() == 32,
            i <= 32,
            forall|j: int| 0 <= j < i ==> k@[j] == bytes@[j],
        decreases 32 - i,
    {
        k[i] = bytes[i];
        i += 1;
    }
    assert(k@ =~= bytes@);
    Ok(k)
}

// ------------------------------------------------------------ names

/// The part of a raw hostname worth showing a person, if any.
///
/// The mDNS suffix every Mac carries says nothing that distinguishes one of
/// your devices from another, so it goes. `localhost` is not a name but the
/// absence of one, the same on every device that gives it.
pub open spec fn usable_name(raw: Seq<char>) -> Option<Seq<char>> {
    let t = trim(raw);
    let name = if t.len() >= 6 && t.skip(t.len() - 6) == ".local"@ {
        t.take(t.len() - 6)
    } else {
        t
    };
    if name.len() == 0 || eq_ignore_case(name, "localhost"@) {
        None
    } else {
        Some(name)
    }
}

/// The part of a raw hostname worth showing a person, if any.
pub fn usable_hostname(raw: &str) -> (r: Option<String>)
    ensures
        match (r, usable_name(raw@)) {
            (Some(a), Some(b)) => a@ == b,
            (None, None) => true,
            _ => false,
        },
{
    let cs = chars_of(raw);
    let t = trimmed(&cs);
    let suffix = chars_of(".local");
    let ghost tt = trim(raw@);
    let mut name = slice(&t, 0, t.len());
    assert(name@ =~= tt);
    if t.len() >= 6 {
        let tail = slice(&t, t.len() - 6, t.len());
        assert(tail@ =~= tt.skip(tt.len() - 6));
        if crate::strs::same(&tail, &suffix) {
            name = slice(&t, 0, t.len() - 6);
            assert(name@ =~= tt.take(tt.len() - 6));
        }
    }
    assert(name@ == (if tt.len() >= 6 && tt.skip(tt.len() - 6) == ".local"@ {
        tt.take(tt.len() - 6)
    } else {
        tt
    }));
    if name.len() == 0 || same_ignoring_case(&name, &chars_of("localhost")) {
        return None;
    }
    Some(string_of(&name))
}

/// What the system calls this machine; nothing is promised of it.
#[verifier::external_body]
fn system_hostname() -> String {
    gethostname::gethostname().to_string_lossy().into_owned()
}

/// This machine's hostname, if it has a usable one.
///
/// Asked of the system rather than read from a file, which only one platform
/// has.
pub fn hostname() -> (r: Option<String>)
    ensures
        r matches Some(n) ==> exists|raw: Seq<char>| usable_name(raw) == Some(n@),
{
    let raw = system_hostname();
    let r = usable_hostname(raw.as_str());
    proof {
        if r is Some {
            assert(usable_name(raw@) == Some(r->0@));
        }
    }
    r
}

/// A chosen name that says something: trimmed, and not blank.
pub open spec fn given(name: Option<Seq<char>>) -> Option<Seq<char>> {
    match name {
        Some(n) => if trim(n).len() > 0 {
            Some(trim(n))
        } else {
            None
        },
        None => None,
    }
}

fn given_name(name: Option<&str>) -> (r: Option<String>)
    ensures
        match (r, given(match name { Some(n) => Some(n@), None => None })) {
            (Some(a), Some(b)) => a@ == b,
            (None, None) => true,
            _ => false,
        },
{
    match name {
        Some(n) => {
            let cs = chars_of(n);
            let t = trimmed(&cs);
            if t.len() > 0 {
                Some(string_of(&t))
            } else {
                None
            }
        },
        None => None,
    }
}

/// An optional string slice as an optional text.
pub open spec fn text_opt(o: Option<&str>) -> Option<Seq<char>> {
    match o {
        Some(n) => Some(n@),
        None => None,
    }
}

/// This device's local label, given the machine's hostname as the system
/// reported it: an explicitly chosen name, then the environment's, then the
/// usable part of the hostname, then the caller's fallback.
pub open spec fn label_from(
    chosen: Option<Seq<char>>,
    from_env: Option<Seq<char>>,
    host: Seq<char>,
    fallback: Seq<char>,
) -> Seq<char> {
    match given(chosen) {
        Some(c) => c,
        None => match given(from_env) {
            Some(e) => e,
            None => match usable_name(host) {
                Some(h) => h,
                None => fallback,
            },
        },
    }
}

/// This device's local label, from a chosen name, the environment's name,
/// the hostname the system reported, and the caller's fallback.
pub fn device_name_with(chosen: Option<&str>, from_env: Option<&str>, host: &str, fallback: &str) -> (r: String)
    ensures
        r@ == label_from(
            match chosen { Some(n) => Some(n@), None => None },
            match from_env { Some(n) => Some(n@), None => None },
            host@,
            fallback@,
        ),
{
    match given_name(chosen) {
        Some(n) => n,
        None => match given_name(from_env) {
            Some(n) => n,
            None => match usable_hostname(host) {
                Some(h) => h,
                None => owned(fallback),
            },
        },
    }
}

/// This device's local label: an explicitly chosen name, then the one the
/// environment gives, then the hostname, then whatever the caller offers.
///
/// The fallback is the caller's because it is platform-shaped: a phone
/// answers with `localhost`, and the plausible thing to call it instead is a
/// decision for whoever knows the platform. Which hostname the system gives
/// is this machine's and not a function of anything here, so the result is
/// stated for whatever hostname it gave.
pub fn device_name_from(chosen: Option<&str>, from_env: Option<&str>, fallback: &str) -> (r: String)
    ensures
        exists|host: Seq<char>| r@ == #[trigger] label_from(text_opt(chosen), text_opt(from_env), host, fallback@),
        match given(match chosen { Some(n) => Some(n@), None => None }) {
            Some(c) => r@ == c,
            None => match given(match from_env { Some(n) => Some(n@), None => None }) {
                Some(e) => r@ == e,
                None => (exists|raw: Seq<char>| usable_name(raw) == Some(r@)) || r@ == fallback@,
            },
        },
{
    let host = system_hostname();
    device_name_with(chosen, from_env, host.as_str(), fallback)
}

/// The name a device goes by comes from the first source that gives a usable
/// one: a chosen name wins over the environment's, the environment's over
/// the hostname, and the hostname over the fallback, which is used only when
/// the hostname has nothing usable in it.
pub proof fn law_the_hostname_names_the_device_when_nothing_else_does(
    chosen: Option<Seq<char>>,
    from_env: Option<Seq<char>>,
    host: Seq<char>,
    fallback: Seq<char>,
)
    ensures
        (chosen is Some && trim(chosen->Some_0).len() > 0) ==> label_from(chosen, from_env, host, fallback)
            == trim(chosen->Some_0),
        (given(chosen) is None && from_env is Some && trim(from_env->Some_0).len() > 0) ==> label_from(
            chosen,
            from_env,
            host,
            fallback,
        ) == trim(from_env->Some_0),
        given(chosen) is None && given(from_env) is None && trim(host).len() > 0 && !eq_ignore_case(
            trim(host),
            "localhost"@,
        ) && !(trim(host).len() >= 6 && trim(host).skip(trim(host).len() - 6) == ".local"@) ==> label_from(
            chosen,
            from_env,
            host,
            fallback,
        ) == trim(host),
        given(chosen) is None && given(from_env) is None && label_from(chosen, from_env, host, fallback)
            == fallback ==> usable_name(host) is None || usable_name(host) == Some(fallback),
        given(chosen) is None && given(from_env) is None && usable_name(host) is Some ==> label_from(
            chosen,
            from_env,
            host,
            fallback,
        ) != fallback || usable_name(host) == Some(fallback),
{
}

} // verus!
