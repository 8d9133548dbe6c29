//! What becomes of a spawned speech process: the tail of what it said on
//! stderr, and how its ending is reported.
//!
//! Every engine speaks by spawning something. Spawning, waiting, killing and
//! reading the pipe are the host's; what is kept of the output and what an
//! ending means stand here.

use vstd::prelude::*;

use vstd::string::StrSliceExecFns;

use crate::strs::{owned, push_dec, push_str, dec};

verus! {

// ------------------------------------------------------------ the tail

/// The most of stderr kept for an error message.
///
/// A failing player can produce output without bound, so the tail is capped
/// rather than the whole of it held. The tail, not the head: the last thing
/// a process says before dying is the part worth reading.
pub const STDERR_TAIL: usize = 1024;

/// The last `n` bytes, or all of them when there are fewer.
pub open spec fn last_n(s: Seq<u8>, n: nat) -> Seq<u8> {
    if s.len() <= n {
        s
    } else {
        s.skip(s.len() - n)
    }
}

/// What is held after reading one more piece: the piece appended, cut back
/// to the tail once more than twice the tail is held, so the cutting is
/// paid for rarely.
pub open spec fn after_read(kept: Seq<u8>, piece: Seq<u8>) -> Seq<u8> {
    let t = kept + piece;
    if t.len() > 2 * STDERR_TAIL {
        last_n(t, STDERR_TAIL as nat)
    } else {
        t
    }
}

fn last_of(s: &Vec<u8>, n: usize) -> (r: Vec<u8>)
    ensures
        r@ == last_n(s@, n as nat),
{
    let start: usize = if s.len() <= n {
        0
    } else {
        s.len() - n
    };
    let mut r: Vec<u8> = Vec::new();
    let mut i: usize = start;
    while i < s.len()
        invariant
            start <= i <= s@.len(),
            r@ == s@.subrange(start as int, i as int),
        decreases s.len() - i,
    {
        r.push(s[i]);
        assert(s@.subrange(start as int, i + 1) =~= s@.subrange(start as int, i as int).push(s@[i as int]));
        i += 1;
    }
    assert(r@ =~= last_n(s@, n as nat));
    r
}

/// Keep what was just read from a process's stderr, holding at most twice
/// the tail between cuts.
///
/// Drained as it arrives rather than after the process exits: a child
/// blocked writing to a full pipe never exits, so reading only afterwards
/// would hang rather than lose a message.
pub fn keep_read(kept: &mut Vec<u8>, piece: &[u8])
    ensures
        final(kept)@ == after_read(old(kept)@, piece@),
{
    let mut i: usize = 0;
    let ghost start = kept@;
    while i < piece.len()
        invariant
            i <= piece@.len(),
            kept@ == start + piece@.take(i as int),
        decreases piece.len() - i,
    {
        kept.push(piece[i]);
        assert(piece@.take(i + 1) =~= piece@.take(i as int).push(piece@[i as int]));
        i += 1;
    }
    assert(piece@.take(piece@.len() as int) =~= piece@);
    if kept.len() > 2 * STDERR_TAIL {
        let cut = last_of(kept, STDERR_TAIL);
        *kept = cut;
    }
}

/// What is reported once the process has exited: the last `STDERR_TAIL`
/// bytes held.
pub fn finish_tail(kept: &Vec<u8>) -> (r: Vec<u8>)
    ensures
        r@ == last_n(kept@, STDERR_TAIL as nat),
{
    last_of(kept, STDERR_TAIL)
}

/// `kept` holds at least the tail of everything read, and nothing but the
/// end of it.
pub open spec fn holds_tail_of(kept: Seq<u8>, all: Seq<u8>) -> bool {
    &&& kept.len() <= all.len()
    &&& kept == all.skip(all.len() - kept.len())
    &&& kept.len() >= if all.len() < STDERR_TAIL {
        all.len() as int
    } else {
        STDERR_TAIL as int
    }
}

/// Reading more keeps what is held a tail of everything read, however the
/// output arrives in pieces.
pub proof fn law_reading_keeps_the_tail(kept: Seq<u8>, all: Seq<u8>, piece: Seq<u8>)
    requires
        holds_tail_of(kept, all),
    ensures
        holds_tail_of(after_read(kept, piece), all + piece),
{
    let t = kept + piece;
    let everything = all + piece;
    assert(t =~= everything.skip(everything.len() - t.len()));
    if t.len() > 2 * STDERR_TAIL {
        assert(last_n(t, STDERR_TAIL as nat) =~= everything.skip(everything.len() - STDERR_TAIL));
    }
}

/// The tail reported is the last thing the process said: the last
/// `STDERR_TAIL` bytes of everything it wrote, whatever pieces they came in.
pub proof fn law_the_tail_is_what_was_said_last(kept: Seq<u8>, all: Seq<u8>)
    requires
        holds_tail_of(kept, all),
    ensures
        last_n(kept, STDERR_TAIL as nat) == last_n(all, STDERR_TAIL as nat),
{
    if kept.len() <= STDERR_TAIL {
        assert(kept.len() == all.len() || kept.len() == STDERR_TAIL);
        if kept.len() == all.len() {
            assert(kept =~= all);
        } else {
            assert(kept =~= all.skip(all.len() - STDERR_TAIL));
        }
    } else {
        assert(kept.skip(kept.len() - STDERR_TAIL) =~= all.skip(all.len() - STDERR_TAIL));
    }
}

/// Nothing read is held as nothing.
pub proof fn law_nothing_read_holds_nothing()
    ensures
        holds_tail_of(Seq::empty(), Seq::empty()),
{
    assert(Seq::<u8>::empty().skip(0) =~= Seq::<u8>::empty());
}

// ------------------------------------------------------------ the ending

/// A process that ran and failed, as reported.
pub struct Failure {
    /// What it was: `piper`, `espeak-ng`, a player.
    pub command: String,
    /// How it ended: an exit code, or a signal.
    pub code: String,
    /// What it last said on stderr, when it said anything.
    pub detail: Option<String>,
}

/// An integer as a person writes it.
pub open spec fn signed_text(n: int) -> Seq<char> {
    if n < 0 {
        "-"@ + dec((-n) as nat)
    } else {
        dec(n as nat)
    }
}

/// How an ending is named: "killed by a signal" and "exited 1" are
/// different problems, and only the second is one a person can act on.
pub open spec fn code_text(code: Option<i32>) -> Seq<char> {
    match code {
        Some(c) => "exit code "@ + signed_text(c as int),
        None => "a signal"@,
    }
}

/// What an ending means.
///
/// A process that was killed on request has not failed, though killing it
/// makes it exit non-zero; one that exited cleanly has not failed. Anything
/// else is a failure carrying the command, how it ended and what it last
/// said, if it said anything.
pub open spec fn ending(
    command: Seq<char>,
    killed: bool,
    success: bool,
    code: Option<i32>,
    tail: Option<Seq<char>>,
) -> Option<(Seq<char>, Seq<char>, Option<Seq<char>>)> {
    if killed || success {
        None
    } else {
        Some(
            (
                command,
                code_text(code),
                match tail {
                    Some(t) => if t.len() > 0 {
                        Some(t)
                    } else {
                        None
                    },
                    None => None,
                },
            ),
        )
    }
}

/// Turn how a process ended into a result.
///
/// A process that ran and failed used to be indistinguishable from one that
/// spoke: being waited for successfully was taken as the audio having been
/// heard.
pub fn outcome(command: &str, killed: bool, success: bool, code: Option<i32>, tail: Option<String>) -> (r: Result<
    (),
    Failure,
>)
    ensures
        match (r, ending(command@, killed, success, code, crate::node::opt_text(tail))) {
            (Ok(_), None) => true,
            (Err(f), Some(e)) => f.command@ == e.0 && f.code@ == e.1 && crate::node::opt_text(f.detail)
                == e.2,
            _ => false,
        },
{
    if killed || success {
        return Ok(());
    }
    let code_said = match code {
        Some(c) => {
            let mut s = owned("exit code ");
            if c < 0 {
                push_str(&mut s, "-");
                let m: u64 = if c == i32::MIN {
                    2147483648u64
                } else {
                    (-c) as u64
                };
                push_dec(&mut s, m);
            } else {
                push_dec(&mut s, c as u64);
            }
            s
        },
        None => owned("a signal"),
    };
    let detail = match tail {
        Some(t) => if t.as_str().unicode_len() > 0 {
            Some(t)
        } else {
            None
        },
        None => None,
    };
    Err(Failure { command: owned(command), code: code_said, detail })
}

} // verus!
