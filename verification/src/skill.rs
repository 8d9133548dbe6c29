//! The agent skill: whether an installed copy says what this build says, and
//! where a destination someone typed actually points.
//!
//! Installing is done by the command line tool rather than the app, because
//! the app may be sandboxed and a sandboxed write can appear to succeed and
//! never reach the host. Reading and writing the file stay with the host;
//! what is decided about them stands here.

use vstd::prelude::*;

use crate::strs::{chars_of, owned, push_chars, slice, str_eq};

verus! {

/// What was found at a destination.
#[derive(Debug, PartialEq, Eq, Structural)]
pub enum State {
    /// Nothing there.
    Absent,
    /// There, and matching this build.
    Current,
    /// There, and saying something else.
    Stale,
}

/// What a destination holds, compared with the skill by content: a version
/// string would only be a proxy for whether the file says what this build
/// says.
pub open spec fn state_spec(found: Option<Seq<char>>, skill: Seq<char>) -> State {
    match found {
        None => State::Absent,
        Some(text) => if text == skill {
            State::Current
        } else {
            State::Stale
        },
    }
}

/// Whether an installed copy is missing or out of date, from what reading
/// the destination gave: nothing, or its text.
pub fn state_of(found: Option<&str>, skill: &str) -> (r: State)
    ensures
        r == state_spec(
            match found {
                Some(t) => Some(t@),
                None => None,
            },
            skill@,
        ),
{
    match found {
        None => State::Absent,
        Some(text) => if str_eq(text, skill) {
            State::Current
        } else {
            State::Stale
        },
    }
}

impl State {
    /// The word the window shows for a state.
    pub open spec fn word_spec(self) -> Seq<char> {
        match self {
            State::Absent => "absent"@,
            State::Current => "current"@,
            State::Stale => "stale"@,
        }
    }

    /// The word the window shows for a state.
    pub fn word(&self) -> (r: &'static str)
        ensures
            r@ == self.word_spec(),
    {
        match self {
            State::Absent => "absent",
            State::Current => "current",
            State::Stale => "stale",
        }
    }
}

// ------------------------------------------------------------ the hook

/// What the hook runs: one line, on stdout, into the model's context, on
/// every prompt, so an agreement summarised away is put back before the
/// next turn.
pub open spec fn hook_text() -> Seq<char> {
    "clispeak prefs --brief"@
}

/// What the hook runs.
pub fn hook_command() -> (r: &'static str)
    ensures
        r@ == hook_text(),
{
    "clispeak prefs --brief"
}

/// Whether an entry of the prompt hooks is ours, by what it runs: read as
/// the command each of its hooks names, none where a hook names none.
pub open spec fn is_ours(commands: Seq<Option<String>>) -> bool {
    exists|i: int| 0 <= i < commands.len() && runs_hook(#[trigger] commands[i])
}

/// Whether one hook runs what ours does.
pub open spec fn runs_hook(command: Option<String>) -> bool {
    match command {
        Some(c) => c@ == hook_text(),
        None => false,
    }
}

/// Whether an entry of the prompt hooks is ours.
pub fn entry_is_ours(commands: &Vec<Option<String>>) -> (r: bool)
    ensures
        r == is_ours(commands@),
{
    let ours = hook_command();
    let mut i: usize = 0;
    while i < commands.len()
        invariant
            i <= commands@.len(),
            ours@ == hook_text(),
            forall|j: int| 0 <= j < i ==> !runs_hook(#[trigger] commands@[j]),
        decreases commands.len() - i,
    {
        match &commands[i] {
            Some(c) => {
                if str_eq(c.as_str(), ours) {
                    assert(runs_hook(commands@[i as int]));
                    return true;
                }
            },
            None => {},
        }
        i += 1;
    }
    false
}

/// Whether the hook is installed: some entry of the prompt hooks is ours.
pub fn hook_present(entries: &Vec<Vec<Option<String>>>) -> (r: bool)
    ensures
        r == exists|i: int| 0 <= i < entries@.len() && is_ours(#[trigger] entries@[i]@),
{
    let mut i: usize = 0;
    while i < entries.len()
        invariant
            i <= entries@.len(),
            forall|j: int| 0 <= j < i ==> !is_ours(#[trigger] entries@[j]@),
        decreases entries.len() - i,
    {
        if entry_is_ours(&entries[i]) {
            return true;
        }
        i += 1;
    }
    false
}

/// What taking the hook out does to a settings file.
pub struct Removal {
    /// The prompt hook entries kept, by position, in order: every one that
    /// is somebody else's.
    pub keep: Vec<usize>,
    /// Whether anything was ours, so whether the file needs writing.
    pub removed: bool,
    /// Whether the prompt hook list is left empty and goes too.
    pub drop_list: bool,
    /// Whether that leaves no hooks of any kind, so the hooks table goes.
    pub drop_hooks: bool,
}

/// Take the hook out, leaving anything else in the file alone, from the
/// prompt hook entries and how many other kinds of hook the file has.
///
/// Tidied after: an empty list left behind is a change to somebody's
/// settings that says nothing and was not asked for.
pub fn removal(entries: &Vec<Vec<Option<String>>>, other_kinds: usize) -> (r: Removal)
    ensures
        r.keep@.len() <= entries@.len(),
        forall|k: int| 0 <= k < r.keep@.len() ==> #[trigger] r.keep@[k] < entries@.len() && !is_ours(
            entries@[r.keep@[k] as int]@,
        ),
        forall|k: int, l: int| 0 <= k < l < r.keep@.len() ==> r.keep@[k] < r.keep@[l],
        forall|i: int|
            0 <= i < entries@.len() && !is_ours(#[trigger] entries@[i]@) ==> exists|k: int|
                0 <= k < r.keep@.len() && r.keep@[k] == i,
        r.removed == (r.keep@.len() != entries@.len()),
        r.drop_list == (r.keep@.len() == 0),
        r.drop_hooks == (r.keep@.len() == 0 && other_kinds == 0),
{
    let mut keep: Vec<usize> = Vec::new();
    let mut i: usize = 0;
    while i < entries.len()
        invariant
            i <= entries@.len(),
            keep@.len() <= i,
            forall|k: int| 0 <= k < keep@.len() ==> #[trigger] keep@[k] < i && !is_ours(entries@[keep@[k] as int]@),
            forall|k: int, l: int| 0 <= k < l < keep@.len() ==> keep@[k] < keep@[l],
            forall|j: int|
                0 <= j < i && !is_ours(#[trigger] entries@[j]@) ==> exists|k: int|
                    0 <= k < keep@.len() && keep@[k] == j,
        decreases entries.len() - i,
    {
        let ours = entry_is_ours(&entries[i]);
        if !ours {
            let ghost before = keep@;
            keep.push(i);
            proof {
                assert(!is_ours(entries@[i as int]@));
                assert(keep@[before.len() as int] == i);
                assert forall|k: int| 0 <= k < before.len() implies keep@[k] == before[k] by {}
                assert forall|k: int| 0 <= k < keep@.len() implies #[trigger] keep@[k] < i + 1 && !is_ours(
                    entries@[keep@[k] as int]@,
                ) by {
                    if k < before.len() {
                        assert(keep@[k] == before[k]);
                        assert(before[k] < i);
                    }
                }
                assert forall|k: int, l: int| 0 <= k < l < keep@.len() implies keep@[k] < keep@[l] by {
                    if l < before.len() {
                        assert(keep@[k] == before[k] && keep@[l] == before[l]);
                    } else {
                        assert(keep@[k] == before[k]);
                        assert(before[k] < i);
                    }
                }
                assert forall|j: int| 0 <= j < i + 1 && !is_ours(#[trigger] entries@[j]@) implies exists|k: int|
                    0 <= k < keep@.len() && keep@[k] == j by {
                    if j < i {
                        let k = choose|k: int| 0 <= k < before.len() && before[k] == j;
                        assert(keep@[k] == j);
                    } else {
                        assert(keep@[before.len() as int] == j);
                    }
                }
            }
        }
        i += 1;
    }
    let n = keep.len();
    let removed = n != entries.len();
    Removal { keep, removed, drop_list: n == 0, drop_hooks: n == 0 && other_kinds == 0 }
}

// ------------------------------------------------------------ a leading tilde

/// The part of a path after a leading `~` component, without the
/// separators that follow it; none where the first component is not `~`.
pub open spec fn after_tilde(path: Seq<char>) -> Option<Seq<char>> {
    if path == seq!['~'] {
        Some(Seq::empty())
    } else if path.len() >= 2 && path[0] == '~' && path[1] == '/' {
        Some(path.skip(1 + slashes_from(path, 1)))
    } else {
        None
    }
}

/// How many separators stand at `i` and after.
pub open spec fn slashes_from(path: Seq<char>, i: int) -> int
    decreases path.len() - i,
{
    if 0 <= i < path.len() && path[i] == '/' {
        1 + slashes_from(path, i + 1)
    } else {
        0
    }
}

/// `rest` under `home`, one separator between them.
pub open spec fn joined_under(home: Seq<char>, rest: Seq<char>) -> Seq<char> {
    if rest.len() == 0 {
        home
    } else if home.len() > 0 && home.last() == '/' {
        home + rest
    } else {
        home + seq!['/'] + rest
    }
}

/// A path with a leading `~` component put under the home directory, and
/// any other path left exactly as given; left alone too when there is no
/// home to put it under, so the write fails loudly rather than landing
/// somewhere unintended.
pub open spec fn expanded(path: Seq<char>, home: Option<Seq<char>>) -> Seq<char> {
    match (after_tilde(path), home) {
        (Some(rest), Some(h)) => joined_under(h, rest),
        _ => path,
    }
}

proof fn lemma_slashes_bound(path: Seq<char>, i: int)
    requires
        0 <= i <= path.len(),
    ensures
        0 <= slashes_from(path, i) <= path.len() - i,
    decreases path.len() - i,
{
    if i < path.len() && path[i] == '/' {
        lemma_slashes_bound(path, i + 1);
    }
}

/// Expand a leading `~` against a home directory, written over text with
/// `/` between components.
///
/// A shell does this and a quoted path prevents it. Left undone, a
/// destination like `"~/.agents/skills/..."` made a directory literally named
/// `~` wherever the command ran, wrote the skill inside it and reported
/// success, with the file nowhere an agent looks.
pub fn expand_home_in(path: &str, home: Option<&str>) -> (r: String)
    ensures
        r@ == expanded(
            path@,
            match home {
                Some(h) => Some(h@),
                None => None,
            },
        ),
{
    let p = chars_of(path);
    let h = match home {
        Some(h) => h,
        None => return owned(path),
    };
    let rest_at: usize = if p.len() == 1 && p[0] == '~' {
        1
    } else if p.len() >= 2 && p[0] == '~' && p[1] == '/' {
        let mut i: usize = 1;
        while i < p.len() && p[i] == '/'
            invariant
                1 <= i <= p@.len(),
                slashes_from(p@, 1) == (i - 1) + slashes_from(p@, i as int),
            decreases p.len() - i,
        {
            i += 1;
        }
        proof {
            lemma_slashes_bound(p@, i as int);
            assert(slashes_from(p@, i as int) == 0);
            assert(p@ != seq!['~']);
        }
        i
    } else {
        proof {
            if p@ == seq!['~'] {
                assert(p@.len() == 1 && p@[0] == '~');
            }
        }
        return owned(path);
    };
    let rest = slice(&p, rest_at, p.len());
    let hc = chars_of(h);
    let mut r = owned(h);
    if rest.len() > 0 {
        if !(hc.len() > 0 && hc[hc.len() - 1] == '/') {
            r.push('/');
        }
        push_chars(&mut r, &rest);
    }
    proof {
        if p.len() == 1 && p[0] == '~' {
            assert(p@ =~= seq!['~']);
            assert(rest@ =~= Seq::<char>::empty());
        } else {
            assert(rest@ =~= p@.skip(1 + slashes_from(p@, 1)));
        }
    }
    r
}

/// The user's home directory, if the platform gives one. The platform
/// decides, from the environment and the user database, so nothing is
/// promised of it here; a path that is not valid UTF-8 is read lossily.
#[verifier::external_body]
fn home_directory() -> (r: Option<String>) {
    directories::BaseDirs::new().map(|d| d.home_dir().to_string_lossy().into_owned())
}

/// Expand a leading `~` against this user's home directory.
pub fn expand_home(path: &str) -> (r: String)
    ensures
        r@ == path@ || exists|h: Seq<char>| r@ == expanded(path@, Some(h)),
{
    let home = home_directory();
    match home {
        Some(h) => expand_home_in(path, Some(h.as_str())),
        None => expand_home_in(path, None),
    }
}

} // verus!
