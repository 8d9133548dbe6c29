//! Text from somewhere else, made safe to put in a terminal.
//!
//! Device names, space labels and message text all come from another device,
//! and what this tool prints is read by an agent as its own tool output. So
//! control characters and the bidirectional overrides are shown as their
//! escapes rather than passed through or dropped: nothing is lost, and a name
//! holding one is visibly odd instead of invisibly dangerous. Ordinary
//! non-ASCII is untouched.

use vstd::prelude::*;

use crate::strs::{char_is_control, chars_of, hex, hex_chars, is_control, joined, lemma_split_nonempty, push_chars, split};

verus! {

/// The characters that are escaped: controls and the bidirectional marks,
/// embeddings, overrides and isolates.
pub open spec fn hostile(c: char) -> bool {
    let u = c as u32;
    ||| is_control(c)
    ||| u == 0x200e
    ||| u == 0x200f
    ||| 0x202a <= u <= 0x202e
    ||| 0x2066 <= u <= 0x2069
}

/// What `char::escape_debug` writes for a hostile character.
///
/// Every hostile character is unprintable, so it is either one of the four
/// with a short backslash form or a `\u{...}` with lowercase hex digits.
pub open spec fn escape_of(c: char) -> Seq<char> {
    if c == '\0' {
        seq!['\\', '0']
    } else if c == '\t' {
        seq!['\\', 't']
    } else if c == '\r' {
        seq!['\\', 'r']
    } else if c == '\n' {
        seq!['\\', 'n']
    } else {
        seq!['\\', 'u', '{'] + hex(c as nat) + seq!['}']
    }
}

/// One character, as it is shown.
pub open spec fn shown(c: char, keep_newlines: bool) -> Seq<char> {
    if keep_newlines && c == '\n' {
        seq![c]
    } else if hostile(c) {
        escape_of(c)
    } else {
        seq![c]
    }
}

/// The whole text, as it is shown.
pub open spec fn shown_text(s: Seq<char>, keep_newlines: bool) -> Seq<char>
    decreases s.len(),
{
    if s.len() == 0 {
        Seq::empty()
    } else {
        shown_text(s.drop_last(), keep_newlines) + shown(s.last(), keep_newlines)
    }
}

fn is_hostile(c: char) -> (r: bool)
    ensures
        r == hostile(c),
{
    let u = c as u32;
    char_is_control(c) || u == 0x200e || u == 0x200f || (0x202a <= u && u <= 0x202e) || (0x2066
        <= u && u <= 0x2069)
}

pub fn push_escape(out: &mut String, c: char)
    ensures
        final(out)@ == old(out)@ + escape_of(c),
{
    if c == '\0' {
        out.push('\\');
        out.push('0');
    } else if c == '\t' {
        out.push('\\');
        out.push('t');
    } else if c == '\r' {
        out.push('\\');
        out.push('r');
    } else if c == '\n' {
        out.push('\\');
        out.push('n');
    } else {
        out.push('\\');
        out.push('u');
        out.push('{');
        let h = hex_chars(c as u32);
        push_chars(out, &h);
        out.push('}');
    }
    proof {
        assert(final(out)@ =~= old(out)@ + escape_of(c));
    }
}

/// Peer-supplied text, made safe to put in a terminal.
pub fn plain(text: &str) -> (r: String)
    ensures
        r@ == shown_text(text@, false),
{
    escaping(text, false)
}

/// [`plain`], but a newline stays a newline — for text this project wrote
/// itself and spread over several lines deliberately.
pub fn plain_lines(text: &str) -> (r: String)
    ensures
        r@ == shown_text(text@, true),
{
    escaping(text, true)
}

fn escaping(text: &str, keep_newlines: bool) -> (r: String)
    ensures
        r@ == shown_text(text@, keep_newlines),
{
    let cs = chars_of(text);
    let mut out = String::new();
    let mut i: usize = 0;
    while i < cs.len()
        invariant
            i <= cs.len(),
            out@ == shown_text(cs@.take(i as int), keep_newlines),
        decreases cs.len() - i,
    {
        let c = cs[i];
        assert(cs@.take(i + 1).drop_last() =~= cs@.take(i as int));
        if keep_newlines && c == '\n' {
            out.push(c);
            proof {
                assert(out@ =~= shown_text(cs@.take(i as int), keep_newlines) + shown(c, keep_newlines));
            }
        } else if is_hostile(c) {
            push_escape(&mut out, c);
        } else {
            out.push(c);
            proof {
                assert(out@ =~= shown_text(cs@.take(i as int), keep_newlines) + shown(c, keep_newlines));
            }
        }
        i += 1;
    }
    assert(cs@.take(cs@.len() as int) =~= cs@);
    out
}

/// A character shown with newlines kept is shown the same without, except
/// the newline itself.
pub proof fn lemma_shown_text_add(a: Seq<char>, b: Seq<char>, keep: bool)
    ensures
        shown_text(a + b, keep) == shown_text(a, keep) + shown_text(b, keep),
    decreases b.len(),
{
    if b.len() == 0 {
        assert(a + b =~= a);
        assert(shown_text(b, keep) =~= Seq::<char>::empty());
        assert(shown_text(a, keep) + Seq::<char>::empty() =~= shown_text(a, keep));
    } else {
        lemma_shown_text_add(a, b.drop_last(), keep);
        assert((a + b).drop_last() =~= a + b.drop_last());
        assert((a + b).last() == b.last());
        assert(shown_text(a, keep) + shown_text(b.drop_last(), keep) + shown(b.last(), keep)
            =~= shown_text(a, keep) + (shown_text(b.drop_last(), keep) + shown(b.last(), keep)));
    }
}

/// Nothing shown by [`plain`] is a hostile character: whatever a peer sends,
/// no control character and no bidirectional override reaches the terminal.
pub proof fn law_plain_leaves_nothing_hostile(s: Seq<char>)
    ensures
        forall|i: int| 0 <= i < shown_text(s, false).len() ==> !hostile(#[trigger] shown_text(s, false)[i]),
    decreases s.len(),
{
    if s.len() > 0 {
        law_plain_leaves_nothing_hostile(s.drop_last());
        let p = shown_text(s.drop_last(), false);
        let q = shown(s.last(), false);
        lemma_hex_digits(s.last() as nat);
        assert forall|i: int| 0 <= i < shown_text(s, false).len() implies !hostile(
            #[trigger] shown_text(s, false)[i],
        ) by {
            if i >= p.len() {
                assert(shown_text(s, false)[i] == q[i - p.len()]);
                if hostile(s.last()) {
                    let e = escape_of(s.last());
                    if s.last() != '\0' && s.last() != '\t' && s.last() != '\r' && s.last() != '\n' {
                        let k = i - p.len();
                        if 3 <= k < 3 + hex(s.last() as nat).len() {
                            assert(e[k] == hex(s.last() as nat)[k - 3]);
                        }
                    }
                }
            } else {
                assert(shown_text(s, false)[i] == p[i]);
            }
        }
    }
}

/// Every hex digit is a printable ASCII letter or digit.
pub proof fn lemma_hex_digits(n: nat)
    ensures
        forall|i: int| 0 <= i < hex(n).len() ==> !hostile(#[trigger] hex(n)[i]),
    decreases n,
{
    if n >= 16 {
        lemma_hex_digits(n / 16);
        assert forall|i: int| 0 <= i < hex(n).len() implies !hostile(#[trigger] hex(n)[i]) by {
            if i < hex(n / 16).len() {
                assert(hex(n)[i] == hex(n / 16)[i]);
            }
        }
    }
}

/// Text with nothing hostile in it is shown exactly as it is.
pub proof fn law_ordinary_text_is_untouched(s: Seq<char>, keep: bool)
    requires
        forall|i: int| 0 <= i < s.len() ==> !hostile(#[trigger] s[i]),
    ensures
        shown_text(s, keep) == s,
    decreases s.len(),
{
    if s.len() > 0 {
        law_ordinary_text_is_untouched(s.drop_last(), keep);
        assert(!hostile(s[s.len() - 1]));
        assert(s.drop_last().push(s.last()) =~= s);
        if keep && s.last() == '\n' {
            assert(hostile('\n'));
        }
    }
}

/// Each line, as [`plain`] shows it.
pub open spec fn shown_lines(lines: Seq<Seq<char>>) -> Seq<Seq<char>> {
    lines.map_values(|l: Seq<char>| shown_text(l, false))
}

/// Adding to the last part adds to the end of the joined whole.
proof fn lemma_joined_extend_last(q: Seq<Seq<char>>, sep: Seq<char>, x: Seq<char>)
    requires
        q.len() >= 1,
    ensures
        joined(q.update(q.len() - 1, q.last() + x), sep) == joined(q, sep) + x,
{
    let u = q.update(q.len() - 1, q.last() + x);
    if q.len() > 1 {
        assert(u.drop_last() =~= q.drop_last());
        assert(joined(u, sep) =~= joined(q, sep) + x);
    } else {
        assert(joined(u, sep) =~= joined(q, sep) + x);
    }
}

/// [`plain_lines`] is [`plain`] applied line by line, the lines joined
/// again with real newlines: a newline stays a newline and every other
/// character is shown exactly as `plain` shows it.
pub proof fn law_plain_lines_is_plain_on_each_line(s: Seq<char>)
    ensures
        shown_text(s, true) == joined(shown_lines(split(s, '\n')), seq!['\n']),
    decreases s.len(),
{
    if s.len() == 0 {
        assert(shown_lines(split(s, '\n')) =~= seq![Seq::<char>::empty()]);
    } else {
        let t = s.drop_last();
        let c = s.last();
        law_plain_lines_is_plain_on_each_line(t);
        lemma_split_nonempty(t, '\n');
        let p = split(t, '\n');
        let q = shown_lines(p);
        if c == '\n' {
            assert(shown_lines(split(s, '\n')) =~= q.push(Seq::<char>::empty()));
            assert(q.push(Seq::<char>::empty()).drop_last() =~= q);
            assert(shown_text(s, true) =~= joined(q, seq!['\n']) + seq!['\n'] + Seq::<char>::empty());
        } else {
            let last = p.last();
            assert(last.push(c).drop_last() =~= last);
            assert(shown_text(last.push(c), false) == shown_text(last, false) + shown(c, false));
            assert(shown_lines(split(s, '\n')) =~= q.update(q.len() - 1, q.last() + shown(c, false)));
            lemma_joined_extend_last(q, seq!['\n'], shown(c, false));
        }
    }
}

} // verus!
