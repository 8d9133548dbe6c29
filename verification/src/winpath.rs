//! Deciding what the Windows per-user PATH should become when the command
//! line tool is put on it or taken off it.
//!
//! Reading and writing the registry is the host's business; this is the
//! part that decides the new value. Entries are compared the way Windows
//! compares directories — case-insensitively, ignoring surrounding quotes and
//! a trailing separator — and everything not being added or removed is kept
//! exactly as written.

use vstd::prelude::*;

use crate::strs::{
    chars_of, lower_seq, lowered, same, split, split_on, string_of, trim, trimmed,
    lemma_split_nonempty,
};

verus! {

/// The separator between PATH entries.
pub open spec fn sep() -> char {
    ';'
}

/// Characters stripped from one end or the other of an entry.
pub open spec fn in_set(c: char, quote: bool) -> bool {
    if quote {
        c == '"'
    } else {
        c == '\\' || c == '/'
    }
}

/// How many leading characters are in the set.
pub open spec fn lead_in(s: Seq<char>, quote: bool) -> int
    decreases s.len(),
{
    if s.len() > 0 && in_set(s[0], quote) {
        1 + lead_in(s.drop_first(), quote)
    } else {
        0
    }
}

/// Where the trailing run of characters in the set begins.
pub open spec fn trail_in(s: Seq<char>, quote: bool) -> int
    decreases s.len(),
{
    if s.len() > 0 && in_set(s.last(), quote) {
        trail_in(s.drop_last(), quote)
    } else {
        s.len() as int
    }
}

/// Where the trailing run of separators begins.
pub open spec fn trail_sep(s: Seq<char>) -> int
    decreases s.len(),
{
    if s.len() > 0 && s.last() == sep() {
        trail_sep(s.drop_last())
    } else {
        s.len() as int
    }
}

/// `trim_matches('"')`.
pub open spec fn unquote(s: Seq<char>) -> Seq<char> {
    let t = s.skip(lead_in(s, true));
    t.take(trail_in(t, true))
}

/// One entry, reduced to the form two entries can be compared in.
pub open spec fn comparable_spec(entry: Seq<char>) -> Seq<char> {
    let u = unquote(trim(entry));
    lower_seq(u.take(trail_in(u, false)))
}

/// Whether an entry names `wanted` (an empty or blank entry names nothing).
pub open spec fn names(e: Seq<char>, wanted: Seq<char>) -> bool {
    trim(e).len() != 0 && comparable_spec(e) == wanted
}

/// Whether some entry of the PATH names `wanted`.
pub open spec fn listed(existing: Seq<char>, wanted: Seq<char>) -> bool {
    exists|i: int| 0 <= i < split(existing, sep()).len() && names(#[trigger] split(existing, sep())[i], wanted)
}

/// Entries joined back with the separator.
pub open spec fn join(ps: Seq<Seq<char>>) -> Seq<char>
    decreases ps.len(),
{
    if ps.len() == 0 {
        Seq::empty()
    } else if ps.len() == 1 {
        ps[0]
    } else {
        join(ps.drop_last()).push(sep()) + ps.last()
    }
}

/// The entries that survive removing `unwanted`.
pub open spec fn kept(ps: Seq<Seq<char>>, unwanted: Seq<char>) -> Seq<Seq<char>> {
    ps.filter(|e: Seq<char>| !names(e, unwanted))
}

/// What `path_with` answers.
pub open spec fn path_with_spec(existing: Seq<char>, dir: Seq<char>) -> Option<Seq<char>> {
    if listed(existing, comparable_spec(dir)) {
        None
    } else if existing.len() == 0 {
        Some(dir)
    } else {
        Some(existing.take(trail_sep(existing)).push(sep()) + dir)
    }
}

/// What `path_without` answers.
pub open spec fn path_without_spec(existing: Seq<char>, dir: Seq<char>) -> Option<Seq<char>> {
    if listed(existing, comparable_spec(dir)) {
        Some(join(kept(split(existing, sep()), comparable_spec(dir))))
    } else {
        None
    }
}

// ------------------------------------------------------------ exec

fn is_in(c: char, quote: bool) -> (r: bool)
    ensures
        r == in_set(c, quote),
{
    if quote {
        c == '"'
    } else {
        c == '\\' || c == '/'
    }
}

proof fn lemma_lead_in_unique(s: Seq<char>, quote: bool, k: int)
    requires
        0 <= k <= s.len(),
        forall|j: int| 0 <= j < k ==> in_set(#[trigger] s[j], quote),
        k < s.len() ==> !in_set(s[k], quote),
    ensures
        lead_in(s, quote) == k,
    decreases s.len(),
{
    if k > 0 {
        assert forall|j: int| 0 <= j < k - 1 implies in_set(#[trigger] s.drop_first()[j], quote) by {
            assert(s.drop_first()[j] == s[j + 1]);
        }
        if k - 1 < s.len() - 1 {
            assert(s.drop_first()[k - 1] == s[k]);
        }
        lemma_lead_in_unique(s.drop_first(), quote, k - 1);
    } else if s.len() > 0 {
        assert(!in_set(s[0], quote));
    }
}

proof fn lemma_trail_in_unique(s: Seq<char>, quote: bool, k: int)
    requires
        0 <= k <= s.len(),
        forall|j: int| k <= j < s.len() ==> in_set(#[trigger] s[j], quote),
        k > 0 ==> !in_set(s[k - 1], quote),
    ensures
        trail_in(s, quote) == k,
    decreases s.len(),
{
    if k < s.len() {
        assert(in_set(s[s.len() - 1], quote));
        assert forall|j: int| k <= j < s.drop_last().len() implies in_set(
            #[trigger] s.drop_last()[j],
            quote,
        ) by {
            assert(s.drop_last()[j] == s[j]);
        }
        if k > 0 {
            assert(s.drop_last()[k - 1] == s[k - 1]);
        }
        lemma_trail_in_unique(s.drop_last(), quote, k);
    }
}

proof fn lemma_trail_sep_unique(s: Seq<char>, k: int)
    requires
        0 <= k <= s.len(),
        forall|j: int| k <= j < s.len() ==> #[trigger] s[j] == sep(),
        k > 0 ==> s[k - 1] != sep(),
    ensures
        trail_sep(s) == k,
    decreases s.len(),
{
    if k < s.len() {
        assert(s[s.len() - 1] == sep());
        assert forall|j: int| k <= j < s.drop_last().len() implies #[trigger] s.drop_last()[j]
            == sep() by {
            assert(s.drop_last()[j] == s[j]);
        }
        if k > 0 {
            assert(s.drop_last()[k - 1] == s[k - 1]);
        }
        lemma_trail_sep_unique(s.drop_last(), k);
    }
}

fn strip_lead(s: &Vec<char>, quote: bool) -> (r: Vec<char>)
    ensures
        r@ == s@.skip(lead_in(s@, quote)),
{
    let mut k: usize = 0;
    while k < s.len() && is_in(s[k], quote)
        invariant
            k <= s.len(),
            forall|j: int| 0 <= j < k ==> in_set(#[trigger] s@[j], quote),
        decreases s.len() - k,
    {
        k += 1;
    }
    proof {
        lemma_lead_in_unique(s@, quote, k as int);
    }
    crate::strs::slice(s, k, s.len())
}

fn strip_trail(s: &Vec<char>, quote: bool) -> (r: Vec<char>)
    ensures
        r@ == s@.take(trail_in(s@, quote)),
{
    let mut k: usize = s.len();
    while k > 0 && is_in(s[k - 1], quote)
        invariant
            k <= s.len(),
            forall|j: int| k <= j < s.len() ==> in_set(#[trigger] s@[j], quote),
        decreases k,
    {
        k -= 1;
    }
    proof {
        lemma_trail_in_unique(s@, quote, k as int);
    }
    crate::strs::slice(s, 0, k)
}

/// One entry, reduced to the form two entries can be compared in.
fn comparable(entry: &Vec<char>) -> (r: Vec<char>)
    ensures
        r@ == comparable_spec(entry@),
{
    let t = trimmed(entry);
    let a = strip_lead(&t, true);
    let u = strip_trail(&a, true);
    let v = strip_trail(&u, false);
    lowered(&v)
}

fn names_exec(e: &Vec<char>, wanted: &Vec<char>) -> (r: bool)
    ensures
        r == names(e@, wanted@),
{
    let t = trimmed(e);
    if t.len() == 0 {
        return false;
    }
    let c = comparable(e);
    same(&c, wanted)
}

/// The PATH with `dir` added, or `None` if it is already there.
///
/// Appends rather than prepends, so this directory cannot shadow a
/// `clispeak` installed some other way, and never leaves an empty entry
/// behind a trailing separator.
pub fn path_with(existing: &str, dir: &str) -> (r: Option<String>)
    ensures
        match path_with_spec(existing@, dir@) {
            Some(q) => r matches Some(s) && s@ == q,
            None => r is None,
        },
{
    let d = chars_of(dir);
    let wanted = comparable(&d);
    let e = chars_of(existing);
    let pieces = split_on(&e, ';');
    let mut i: usize = 0;
    while i < pieces.len()
        invariant
            i <= pieces@.len(),
            wanted@ == comparable_spec(dir@),
            e@ == existing@,
            pieces@.len() == split(e@, sep()).len(),
            forall|k: int| 0 <= k < pieces@.len() ==> #[trigger] pieces@[k]@ == split(e@, sep())[k],
            forall|k: int| 0 <= k < i ==> !names(#[trigger] split(e@, sep())[k], wanted@),
        decreases pieces@.len() - i,
    {
        if names_exec(&pieces[i], &wanted) {
            proof {
                assert(names(split(e@, sep())[i as int], comparable_spec(dir@)));
            }
            return None;
        }
        i += 1;
    }
    if e.len() == 0 {
        return Some(string_of(&d));
    }
    let mut k: usize = e.len();
    while k > 0 && e[k - 1] == ';'
        invariant
            k <= e.len(),
            forall|j: int| k <= j < e@.len() ==> #[trigger] e@[j] == sep(),
        decreases k,
    {
        k -= 1;
    }
    proof {
        lemma_trail_sep_unique(e@, k as int);
    }
    let mut out = crate::strs::slice(&e, 0, k);
    out.push(';');
    let mut j: usize = 0;
    while j < d.len()
        invariant
            j <= d.len(),
            out@ == e@.take(k as int).push(sep()) + d@.take(j as int),
        decreases d.len() - j,
    {
        out.push(d[j]);
        assert(d@.take(j + 1) =~= d@.take(j as int).push(d@[j as int]));
        j += 1;
    }
    assert(d@.take(d@.len() as int) =~= d@);
    Some(string_of(&out))
}

/// Entries joined with the separator, appended to `out`.
fn join_exec(ps: &Vec<Vec<char>>) -> (r: Vec<char>)
    ensures
        r@ == join(ps@.map_values(|p: Vec<char>| p@)),
{
    let ghost views = ps@.map_values(|p: Vec<char>| p@);
    let mut out: Vec<char> = Vec::new();
    let mut i: usize = 0;
    while i < ps.len()
        invariant
            i <= ps@.len(),
            views == ps@.map_values(|p: Vec<char>| p@),
            out@ == join(views.take(i as int)),
        decreases ps@.len() - i,
    {
        let ghost before = out@;
        if i > 0 {
            out.push(';');
        }
        let p = &ps[i];
        let mut j: usize = 0;
        while j < p.len()
            invariant
                j <= p@.len(),
                out@ == (if i > 0 {
                    before.push(sep())
                } else {
                    before
                }) + p@.take(j as int),
            decreases p@.len() - j,
        {
            out.push(p[j]);
            assert(p@.take(j + 1) =~= p@.take(j as int).push(p@[j as int]));
            j += 1;
        }
        proof {
            assert(p@.take(p@.len() as int) =~= p@);
            assert(views.take(i + 1).drop_last() =~= views.take(i as int));
            assert(views.take(i + 1).last() == p@);
            if i == 0 {
                assert(join(views.take(0)) =~= Seq::<char>::empty());
                assert(out@ =~= p@);
            }
        }
        i += 1;
    }
    assert(views.take(ps@.len() as int) =~= views);
    out
}

/// The PATH with `dir` removed, or `None` if it was not there.
///
/// Everything else is preserved exactly, including entries that look
/// malformed and empty ones: an uninstaller runs once, with no undo.
pub fn path_without(existing: &str, dir: &str) -> (r: Option<String>)
    ensures
        match path_without_spec(existing@, dir@) {
            Some(q) => r matches Some(s) && s@ == q,
            None => r is None,
        },
{
    let d = chars_of(dir);
    let unwanted = comparable(&d);
    let e = chars_of(existing);
    let pieces = split_on(&e, ';');
    let ghost all = split(e@, sep());
    let ghost pred = |x: Seq<char>| !names(x, unwanted@);
    let mut kept_pieces: Vec<Vec<char>> = Vec::new();
    let mut removed = false;
    let mut i: usize = 0;
    while i < pieces.len()
        invariant
            i <= pieces@.len(),
            all == split(e@, sep()),
            pred == (|x: Seq<char>| !names(x, unwanted@)),
            unwanted@ == comparable_spec(dir@),
            pieces@.len() == all.len(),
            forall|k: int| 0 <= k < pieces@.len() ==> #[trigger] pieces@[k]@ == all[k],
            kept_pieces@.map_values(|p: Vec<char>| p@) == all.take(i as int).filter(pred),
            removed == (exists|k: int| 0 <= k < i && names(#[trigger] all[k], unwanted@)),
        decreases pieces@.len() - i,
    {
        let ghost before = kept_pieces@.map_values(|p: Vec<char>| p@);
        assert(all.take(i + 1) =~= all.take(i as int).push(all[i as int]));
        assert(all.take(i + 1).drop_last() =~= all.take(i as int));
        if names_exec(&pieces[i], &unwanted) {
            removed = true;
            proof {
                reveal_with_fuel(Seq::filter, 1);
                assert(all.take(i + 1).filter(pred) =~= all.take(i as int).filter(pred));
            }
        } else {
            let p = pieces[i].clone();
            kept_pieces.push(p);
            proof {
                reveal_with_fuel(Seq::filter, 1);
                assert(all.take(i + 1).filter(pred) =~= all.take(i as int).filter(pred).push(all[i as int]));
                assert(kept_pieces@.map_values(|p: Vec<char>| p@) =~= before.push(all[i as int]));
            }
        }
        i += 1;
    }
    assert(all.take(all.len() as int) =~= all);
    if !removed {
        return None;
    }
    let joined = join_exec(&kept_pieces);
    Some(string_of(&joined))
}

// ------------------------------------------------------------ laws

/// `split` of text joined around a separator is the two splits, end to end.
pub proof fn lemma_split_around(a: Seq<char>, b: Seq<char>)
    ensures
        split(a.push(sep()) + b, sep()) == split(a, sep()) + split(b, sep()),
    decreases b.len(),
{
    if b.len() == 0 {
        assert(a.push(sep()) + b =~= a.push(sep()));
        assert(a.push(sep()).drop_last() =~= a);
        assert(split(a, sep()) + split(b, sep()) =~= split(a, sep()).push(Seq::<char>::empty()));
    } else {
        lemma_split_around(a, b.drop_last());
        lemma_split_nonempty(b.drop_last(), sep());
        let x = a.push(sep()) + b;
        assert(x.drop_last() =~= a.push(sep()) + b.drop_last());
        assert(x.last() == b.last());
        let p = split(a, sep());
        let q = split(b.drop_last(), sep());
        if b.last() == sep() {
            assert((p + q).push(Seq::<char>::empty()) =~= p + q.push(Seq::<char>::empty()));
        } else {
            assert((p + q).update((p + q).len() - 1, (p + q).last().push(b.last())) =~= p + q.update(
                q.len() - 1,
                q.last().push(b.last()),
            ));
        }
    }
}

/// Text with no separator is one entry.
pub proof fn lemma_split_single(b: Seq<char>)
    requires
        !b.contains(sep()),
    ensures
        split(b, sep()) == seq![b],
    decreases b.len(),
{
    if b.len() > 0 {
        assert(!b.drop_last().contains(sep())) by {
            if b.drop_last().contains(sep()) {
                let k = choose|k: int| 0 <= k < b.drop_last().len() && b.drop_last()[k] == sep();
                assert(b[k] == sep());
            }
        }
        lemma_split_single(b.drop_last());
        assert(b[b.len() - 1] != sep());
        assert(b.drop_last().push(b.last()) =~= b);
        assert(seq![b.drop_last()].update(0, b.drop_last().push(b.last())) =~= seq![b]);
    } else {
        assert(b =~= Seq::<char>::empty());
    }
}

/// Joining the entries of a split gives the text back.
pub proof fn lemma_join_split(s: Seq<char>)
    ensures
        join(split(s, sep())) == s,
    decreases s.len(),
{
    if s.len() > 0 {
        lemma_join_split(s.drop_last());
        lemma_split_nonempty(s.drop_last(), sep());
        let p = split(s.drop_last(), sep());
        assert(s.drop_last().push(s.last()) =~= s);
        if s.last() == sep() {
            let q = p.push(Seq::<char>::empty());
            assert(q.drop_last() =~= p);
            assert(join(q) =~= join(p).push(sep()) + Seq::<char>::empty());
        } else {
            let q = p.update(p.len() - 1, p.last().push(s.last()));
            if p.len() == 1 {
                assert(join(p) == p[0]);
            } else {
                assert(q.drop_last() =~= p.drop_last());
                assert(join(q) =~= join(p.drop_last()).push(sep()) + p.last().push(s.last()));
                assert(join(p) =~= join(p.drop_last()).push(sep()) + p.last());
            }
        }
    }
}

/// Adding a directory twice changes nothing the second time: the second
/// install finds the entry the first one wrote.
pub proof fn law_adding_twice_changes_nothing(existing: Seq<char>, dir: Seq<char>)
    requires
        !dir.contains(sep()),
        trim(dir).len() != 0,
        path_with_spec(existing, dir) is Some,
    ensures
        path_with_spec(path_with_spec(existing, dir)->0, dir) is None,
{
    let q = path_with_spec(existing, dir)->0;
    lemma_split_single(dir);
    if existing.len() == 0 {
        assert(split(q, sep())[0] == dir);
    } else {
        let base = existing.take(trail_sep(existing));
        lemma_split_around(base, dir);
        lemma_split_nonempty(base, sep());
        let k = split(base, sep()).len();
        assert(split(q, sep())[k as int] == dir);
    }
    assert(names(dir, comparable_spec(dir)));
}

/// Taking off what was just put on gives back the PATH as it was, provided
/// it did not already end in a separator (which adding tidies away).
pub proof fn law_remove_undoes_add(existing: Seq<char>, dir: Seq<char>)
    requires
        !dir.contains(sep()),
        trim(dir).len() != 0,
        existing.len() == 0 || existing.last() != sep(),
        path_with_spec(existing, dir) is Some,
    ensures
        path_without_spec(path_with_spec(existing, dir)->0, dir) == Some(existing),
{
    let q = path_with_spec(existing, dir)->0;
    let w = comparable_spec(dir);
    let pred = |x: Seq<char>| !names(x, w);
    lemma_split_single(dir);
    assert(names(dir, w));
    if existing.len() == 0 {
        assert(split(q, sep()) =~= seq![dir]);
        assert(split(q, sep())[0] == dir);
        assert(seq![dir].filter(pred) =~= Seq::<Seq<char>>::empty()) by {
            reveal_with_fuel(Seq::filter, 2);
            assert(seq![dir].drop_last() =~= Seq::<Seq<char>>::empty());
        }
        assert(join(Seq::<Seq<char>>::empty()) =~= existing);
    } else {
        lemma_trail_sep_unique(existing, existing.len() as int);
        assert(existing.take(trail_sep(existing)) =~= existing);
        lemma_split_around(existing, dir);
        let p = split(existing, sep());
        assert(split(q, sep()) =~= p + seq![dir]);
        let k = p.len();
        assert(split(q, sep())[k as int] == dir);
        assert(forall|i: int| 0 <= i < p.len() ==> !names(#[trigger] p[i], w)) by {
            assert forall|i: int| 0 <= i < p.len() implies !names(#[trigger] p[i], w) by {
                if names(p[i], w) {
                    assert(split(existing, sep())[i] == p[i]);
                }
            }
        }
        lemma_filter_all(p, pred);
        assert((p + seq![dir]).drop_last() =~= p);
        assert((p + seq![dir]).filter(pred) =~= p.filter(pred)) by {
            reveal_with_fuel(Seq::filter, 1);
        }
        lemma_join_split(existing);
    }
}

/// Filtering by a predicate every element meets keeps everything.
proof fn lemma_filter_all(p: Seq<Seq<char>>, pred: spec_fn(Seq<char>) -> bool)
    requires
        forall|i: int| 0 <= i < p.len() ==> pred(#[trigger] p[i]),
    ensures
        p.filter(pred) == p,
    decreases p.len(),
{
    reveal_with_fuel(Seq::filter, 1);
    if p.len() > 0 {
        assert forall|i: int| 0 <= i < p.drop_last().len() implies pred(#[trigger] p.drop_last()[i]) by {
            assert(p.drop_last()[i] == p[i]);
        }
        lemma_filter_all(p.drop_last(), pred);
        assert(pred(p[p.len() - 1]));
        assert(p.drop_last().push(p.last()) =~= p);
    } else {
        assert(p =~= Seq::<Seq<char>>::empty());
    }
}

} // verus!
