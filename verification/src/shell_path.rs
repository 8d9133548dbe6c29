//! Putting the command-line tool's directory on the PATH of future shells.
//!
//! On macOS the default PATH names no home directory, so a tool installed
//! under `~/.local/bin` exists and no shell can see it, and an agent, the
//! reason the tool is installed, reports "command not found" with nothing to
//! explain it. The host reads and writes the shell profiles; what is looked
//! for in them and what is appended stand here. Only ever appends, and only
//! once.

use vstd::prelude::*;

use crate::strs::{chars_of, owned, push_chars, push_str, slice, starts_with};

verus! {

/// Where `needle` occurs in `text`, if it does.
pub open spec fn occurs_at(text: Seq<char>, needle: Seq<char>, i: int) -> bool {
    0 <= i && i + needle.len() <= text.len() && text.subrange(i, i + needle.len()) == needle
}

/// Whether `text` holds `needle` anywhere.
pub open spec fn holds(text: Seq<char>, needle: Seq<char>) -> bool {
    exists|i: int| occurs_at(text, needle, i)
}

/// Whether a profile already puts the directory on the PATH: matched on the
/// text, so a line written by hand counts as much as one written here.
pub fn supplies(text: &str, needle: &str) -> (r: bool)
    ensures
        r == holds(text@, needle@),
{
    let t = chars_of(text);
    let n = chars_of(needle);
    if n.len() > t.len() {
        proof {
            assert forall|i: int| !occurs_at(t@, n@, i) by {}
        }
        return false;
    }
    if n.len() == 0 {
        assert(t@.subrange(0, 0) =~= n@);
        assert(occurs_at(t@, n@, 0));
        return true;
    }
    let last: usize = t.len() - n.len();
    let mut i: usize = 0;
    while i <= last
        invariant
            t@ == text@,
            n@ == needle@,
            1 <= n@.len() <= t@.len(),
            t@.len() <= usize::MAX,
            last == t@.len() - n@.len(),
            i <= last + 1,
            forall|j: int| 0 <= j < i ==> !occurs_at(t@, n@, j),
        decreases last + 1 - i,
    {
        let window = slice(&t, i, i + n.len());
        if crate::strs::same(&window, &n) {
            assert(occurs_at(t@, n@, i as int));
            return true;
        }
        i += 1;
    }
    proof {
        assert forall|j: int| !occurs_at(t@, n@, j) by {
            if 0 <= j < i {
            } else if j >= i {
                assert(j + n@.len() > t@.len());
            }
        }
    }
    false
}

/// What the PATH line names the directory as: under `$HOME` when it is
/// inside the home directory, so the line survives the home moving, and as
/// given otherwise.
pub open spec fn needle_text(home: Seq<char>, dir: Seq<char>) -> Seq<char> {
    if inside(home, dir) {
        seq!['/'] + dir.skip(home.len() as int).skip(leading_slashes(dir.skip(home.len() as int)))
    } else {
        dir
    }
}

/// Whether `dir` is `home` or lies under it, component by component.
pub open spec fn inside(home: Seq<char>, dir: Seq<char>) -> bool {
    &&& home.len() <= dir.len()
    &&& dir.take(home.len() as int) == home
    &&& (dir.len() == home.len() || dir[home.len() as int] == '/' || (home.len() > 0 && home.last()
        == '/'))
}

/// How many separators a text starts with.
pub open spec fn leading_slashes(s: Seq<char>) -> int
    decreases s.len(),
{
    if s.len() > 0 && s[0] == '/' {
        1 + leading_slashes(s.skip(1))
    } else {
        0
    }
}

proof fn lemma_leading_slashes(s: Seq<char>)
    ensures
        0 <= leading_slashes(s) <= s.len(),
        forall|k: int| 0 <= k < leading_slashes(s) ==> s[k] == '/',
        leading_slashes(s) < s.len() ==> s[leading_slashes(s)] != '/',
    decreases s.len(),
{
    if s.len() > 0 && s[0] == '/' {
        lemma_leading_slashes(s.skip(1));
        assert forall|k: int| 0 <= k < leading_slashes(s) implies s[k] == '/' by {
            if k > 0 {
                assert(s[k] == s.skip(1)[k - 1]);
            }
        }
    }
}

proof fn lemma_leading_slashes_at(s: Seq<char>, i: int)
    requires
        0 <= i <= s.len(),
        forall|k: int| 0 <= k < i ==> s[k] == '/',
        i == s.len() || s[i] != '/',
    ensures
        leading_slashes(s) == i,
    decreases i,
{
    if i > 0 {
        assert(s[0] == '/');
        lemma_leading_slashes_at(s.skip(1), i - 1);
    }
}

/// The directory as the PATH line names it.
pub fn path_needle(home: &str, dir: &str) -> (r: String)
    ensures
        r@ == needle_text(home@, dir@),
{
    let h = chars_of(home);
    let d = chars_of(dir);
    let under = starts_with(&d, &h) && (d.len() == h.len() || d[h.len()] == '/' || (h.len() > 0 && h[h.len()
        - 1] == '/'));
    if !under {
        proof {
            if inside(home@, dir@) {
                assert(crate::strs::is_prefix(h@, d@));
            }
        }
        return owned(dir);
    }
    let mut i: usize = h.len();
    while i < d.len() && d[i] == '/'
        invariant
            h@.len() <= i <= d@.len(),
            forall|k: int| h@.len() <= k < i ==> d@[k] == '/',
        decreases d.len() - i,
    {
        i += 1;
    }
    let rest = slice(&d, i, d.len());
    let mut r = String::new();
    r.push('/');
    push_chars(&mut r, &rest);
    proof {
        assert(inside(home@, dir@));
        let tail = d@.skip(h@.len() as int);
        lemma_leading_slashes_at(tail, i - h@.len());
        assert(rest@ =~= tail.skip(i - h@.len()));
        assert(d@.take(h@.len() as int) =~= h@);
    }
    r
}

/// The lines appended to a profile that lacks them.
pub open spec fn path_lines(needle: Seq<char>) -> Seq<char> {
    "\n# Added by clispeak, so the `clispeak` command is on the PATH for\n# shells and for the agents that call it.\nexport PATH=\"$HOME"@
        + needle + ":$PATH\"\n"@
}

/// A profile with the PATH line appended: its text kept as it was, with a
/// newline first where the last line had none, so nothing is run together.
pub open spec fn with_path(text: Seq<char>, needle: Seq<char>) -> Seq<char> {
    (if text.len() > 0 && text.last() != '\n' {
        text.push('\n')
    } else {
        text
    }) + path_lines(needle)
}

/// Append the PATH line to a profile's text.
pub fn with_path_line(text: &str, needle: &str) -> (r: String)
    ensures
        r@ == with_path(text@, needle@),
{
    let t = chars_of(text);
    let mut r = owned(text);
    if t.len() > 0 && t[t.len() - 1] != '\n' {
        r.push('\n');
    }
    push_str(
        &mut r,
        "\n# Added by clispeak, so the `clispeak` command is on the PATH for\n# shells and for the agents that call it.\nexport PATH=\"$HOME",
    );
    push_str(&mut r, needle);
    push_str(&mut r, ":$PATH\"\n");
    r
}

/// A profile the line was written to supplies the directory from then on,
/// so a second pass appends nothing: the line is written once.
pub proof fn law_a_written_line_is_found_again(text: Seq<char>, needle: Seq<char>)
    ensures
        holds(with_path(text, needle), needle),
{
    let head = if text.len() > 0 && text.last() != '\n' {
        text.push('\n')
    } else {
        text
    };
    let pre = "\n# Added by clispeak, so the `clispeak` command is on the PATH for\n# shells and for the agents that call it.\nexport PATH=\"$HOME"@;
    let post = ":$PATH\"\n"@;
    let all = with_path(text, needle);
    assert(all =~= head + pre + needle + post);
    let i: int = (head.len() + pre.len()) as int;
    assert(all.subrange(i, i + needle.len()) =~= needle);
    assert(occurs_at(all, needle, i));
}

/// A profile keeps every byte it had: the line only ever goes after them.
pub proof fn law_a_profile_keeps_what_it_had(text: Seq<char>, needle: Seq<char>)
    ensures
        with_path(text, needle).take(text.len() as int) == text,
{
    let all = with_path(text, needle);
    if text.len() > 0 && text.last() != '\n' {
        assert(all.take(text.len() as int) =~= text);
    } else {
        assert(all.take(text.len() as int) =~= text);
    }
}

} // verus!
