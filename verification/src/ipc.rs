//! Local IPC between the CLI and the node: who may drive the node, and what
//! a socket name looks like.
//!
//! The socket is a name any other user on the machine can take, so each side
//! proves it holds a secret only this user can read before anything else is
//! said — the node first, so a caller never hands its text to whoever got
//! the name. Moving the bytes is the host's; what is sent and what is
//! accepted is decided here.

use vstd::prelude::*;

use crate::strs::{chars_of, dec, has_char, owned, push_dec, push_str};

verus! {

/// Bytes in the shared secret, and in every value the handshake exchanges.
pub const TOKEN_LEN: usize = 32;

/// Refuse absurd frames rather than trusting a length and allocating for it.
pub const MAX_FRAME: u32 = 8388608;

/// What `blake3::keyed_hash` makes of a key and an input.
pub uninterp spec fn blake3_keyed(key: Seq<u8>, input: Seq<u8>) -> Seq<u8>;

/// `blake3::keyed_hash`, taken as a function of its arguments.
#[verifier::external_body]
fn keyed_hash(key: &[u8; 32], input: &[u8]) -> (r: [u8; 32])
    ensures
        r@ == blake3_keyed(key@, input@),
{
    *blake3::keyed_hash(key, input).as_bytes()
}

/// `blake3::Hash`'s equality, which takes the same time whatever the bytes.
#[verifier::external_body]
fn same_hash(a: [u8; 32], b: [u8; 32]) -> (r: bool)
    ensures
        r == (a@ == b@),
{
    blake3::Hash::from(a) == blake3::Hash::from(b)
}

/// The label on the node's proof.
pub open spec fn node_label() -> Seq<u8> {
    seq![99u8, 108, 105, 115, 112, 101, 97, 107, 45, 105, 112, 99, 45, 110, 111, 100, 101]
}

/// The label on the caller's proof.
pub open spec fn client_label() -> Seq<u8> {
    seq![99u8, 108, 105, 115, 112, 101, 97, 107, 45, 105, 112, 99, 45, 99, 108, 105, 101, 110, 116]
}

/// One side's proof that it knows the token, bound to the other side's
/// nonce: keyed, and labelled so the two directions cannot be replayed
/// against each other.
pub open spec fn proof_of(token: Seq<u8>, label: Seq<u8>, nonce: Seq<u8>) -> Seq<u8> {
    blake3_keyed(token, label + nonce)
}

fn label_bytes(node: bool) -> (r: Vec<u8>)
    ensures
        r@ == if node {
            node_label()
        } else {
            client_label()
        },
{
    // The labels are ASCII, so their bytes are their characters.
    let expected: Vec<u8> = if node {
        vec![99u8, 108, 105, 115, 112, 101, 97, 107, 45, 105, 112, 99, 45, 110, 111, 100, 101]
    } else {
        vec![99u8, 108, 105, 115, 112, 101, 97, 107, 45, 105, 112, 99, 45, 99, 108, 105, 101, 110, 116]
    };
    assert(expected@ =~= if node { node_label() } else { client_label() });
    expected
}

fn proof_over(token: &[u8; 32], node: bool, nonce: &[u8; 32]) -> (r: [u8; 32])
    ensures
        r@ == proof_of(
            token@,
            if node {
                node_label()
            } else {
                client_label()
            },
            nonce@,
        ),
{
    let mut input = label_bytes(node);
    let ghost label = input@;
    let mut i: usize = 0;
    while i < 32
        invariant
            i <= 32,
            input@ == label + nonce@.take(i as int),
        decreases 32 - i,
    {
        input.push(nonce[i]);
        assert(nonce@.take(i + 1) =~= nonce@.take(i as int).push(nonce@[i as int]));
        i += 1;
    }
    assert(nonce@.take(32) =~= nonce@);
    keyed_hash(token, input.as_slice())
}

/// What the node sends first: its proof over the caller's nonce.
pub fn node_proof(token: &[u8; 32], client_nonce: &[u8; 32]) -> (r: [u8; 32])
    ensures
        r@ == proof_of(token@, node_label(), client_nonce@),
{
    proof_over(token, true, client_nonce)
}

/// What the caller answers with: its proof over the node's nonce.
pub fn client_proof(token: &[u8; 32], node_nonce: &[u8; 32]) -> (r: [u8; 32])
    ensures
        r@ == proof_of(token@, client_label(), node_nonce@),
{
    proof_over(token, false, node_nonce)
}

/// Whether what the node claimed proves it holds this machine's token.
pub fn node_is_ours(token: &[u8; 32], client_nonce: &[u8; 32], claimed: [u8; 32]) -> (r: bool)
    ensures
        r == (claimed@ == proof_of(token@, node_label(), client_nonce@)),
{
    same_hash(claimed, node_proof(token, client_nonce))
}

/// Whether what the caller offered proves it may drive this node.
pub fn caller_may_drive(token: &[u8; 32], node_nonce: &[u8; 32], offered: [u8; 32]) -> (r: bool)
    ensures
        r == (offered@ == proof_of(token@, client_label(), node_nonce@)),
{
    same_hash(offered, client_proof(token, node_nonce))
}

/// Whether a frame of `len` bytes is one to read.
pub fn frame_fits(len: u32) -> (r: bool)
    ensures
        r == (len <= MAX_FRAME),
{
    len <= MAX_FRAME
}

/// Whether a socket name has been given as though it were a path.
///
/// Not an error: it binds, and both ends map it the same way. But every tool
/// a person reaches for next takes it for a path, and on Linux there is no
/// file to find under any name. Deliberately portable: a Windows name and a
/// Unix name are both wrong in the same way for this purpose.
pub fn path_shaped(name: &str) -> (r: bool)
    ensures
        r == (name@.contains('/') || name@.contains('\\')),
{
    let cs = chars_of(name);
    has_char(&cs, '/') || has_char(&cs, '\\')
}

/// A connection that closed before identifying itself.
///
/// Almost always this crate's own liveness probe. Given a type so the accept
/// loop can stay quiet about it without matching on a message.
#[derive(Debug)]
pub struct Probe;

impl Probe {
    /// What a probe is, said to a person.
    pub fn message(&self) -> (r: &'static str)
        ensures
            r@ == "a connection closed before identifying itself"@,
    {
        "a connection closed before identifying itself"
    }
}

// ------------------------------------------------------------ framing

/// A length as the four bytes that go before a frame, most significant
/// first.
pub open spec fn be_bytes(n: nat) -> Seq<u8> {
    seq![
        (n / 0x1000000 % 0x100) as u8,
        (n / 0x10000 % 0x100) as u8,
        (n / 0x100 % 0x100) as u8,
        (n % 0x100) as u8,
    ]
}

/// The length four header bytes give, most significant first.
pub open spec fn be_value(b: Seq<u8>) -> nat {
    (b[0] as nat) * 0x1000000 + (b[1] as nat) * 0x10000 + (b[2] as nat) * 0x100 + (b[3] as nat)
}

/// What refusing an oversized frame says, naming what it was.
pub open spec fn oversized_text(what: Seq<char>, len: nat) -> Seq<char> {
    what + " of "@ + dec(len) + " bytes exceeds the "@ + dec(MAX_FRAME as nat) + " byte limit"@
}

/// A payload with its length in front, or `too_large` where the length does
/// not fit the four bytes a header has.
pub fn prefixed(payload: &Vec<u8>, too_large: &str) -> (r: Result<Vec<u8>, String>)
    ensures
        match r {
            Ok(f) => payload@.len() <= u32::MAX && f@ == be_bytes(payload@.len()) + payload@,
            Err(m) => payload@.len() > u32::MAX && m@ == too_large@,
        },
{
    if payload.len() > 0xffff_ffffusize {
        return Err(owned(too_large));
    }
    let n = payload.len();
    let mut f: Vec<u8> = Vec::new();
    f.push((n / 0x1000000 % 0x100) as u8);
    f.push((n / 0x10000 % 0x100) as u8);
    f.push((n / 0x100 % 0x100) as u8);
    f.push((n % 0x100) as u8);
    let ghost head = f@;
    let mut i: usize = 0;
    while i < payload.len()
        invariant
            i <= payload@.len(),
            f@ == head + payload@.take(i as int),
        decreases payload.len() - i,
    {
        f.push(payload[i]);
        assert(payload@.take(i + 1) =~= payload@.take(i as int).push(payload@[i as int]));
        i += 1;
    }
    assert(payload@.take(payload@.len() as int) =~= payload@);
    assert(head =~= be_bytes(n as nat));
    Ok(f)
}

/// The length a header announces, or why it is refused: a length past
/// `MAX_FRAME` is not trusted enough to allocate for.
pub fn announced(header: [u8; 4], what: &str) -> (r: Result<u32, String>)
    ensures
        match r {
            Ok(n) => n == be_value(header@) && n <= MAX_FRAME,
            Err(m) => be_value(header@) > MAX_FRAME && m@ == oversized_text(what@, be_value(header@)),
        },
{
    let len: u32 = (header[0] as u32) * 0x1000000 + (header[1] as u32) * 0x10000 + (header[2] as u32) * 0x100
        + (header[3] as u32);
    if len > MAX_FRAME {
        let mut m = owned(what);
        push_str(&mut m, " of ");
        push_dec(&mut m, len as u64);
        push_str(&mut m, " bytes exceeds the ");
        push_dec(&mut m, MAX_FRAME as u64);
        push_str(&mut m, " byte limit");
        return Err(m);
    }
    Ok(len)
}

/// One frame for the local socket: its length, then its bytes.
pub fn frame(payload: &Vec<u8>) -> (r: Result<Vec<u8>, String>)
    ensures
        match r {
            Ok(f) => payload@.len() <= u32::MAX && f@ == be_bytes(payload@.len()) + payload@,
            Err(m) => payload@.len() > u32::MAX && m@ == "frame too large"@,
        },
{
    prefixed(payload, "frame too large")
}

/// How many bytes a frame on the local socket says follow its header.
pub fn frame_length(header: [u8; 4]) -> (r: Result<u32, String>)
    ensures
        match r {
            Ok(n) => n == be_value(header@) && n <= MAX_FRAME,
            Err(m) => be_value(header@) > MAX_FRAME && m@ == oversized_text("frame"@, be_value(header@)),
        },
{
    announced(header, "frame")
}

/// A header reads back the length it was written for: what one side frames,
/// the other reads at its true length.
pub proof fn law_a_header_reads_back_its_length(n: nat)
    requires
        n <= u32::MAX,
    ensures
        be_value(be_bytes(n)) == n,
{
    let b = be_bytes(n);
    assert(be_value(b) == n) by (nonlinear_arith)
        requires
            n <= 0xffff_ffff,
            b[0] as nat == n / 0x1000000 % 0x100,
            b[1] as nat == n / 0x10000 % 0x100,
            b[2] as nat == n / 0x100 % 0x100,
            b[3] as nat == n % 0x100,
    ;
}

} // verus!
