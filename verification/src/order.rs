//! The order Rust gives `str`: code point by code point, a proper prefix first.
//!
//! Maps keyed by text walk their keys in this order, so anything that answers
//! "the first space that ..." is answering in it.

use vstd::prelude::*;

use crate::strs::chars_of;

verus! {

/// `a < b` as `str`'s `Ord` decides it.
pub open spec fn text_lt(a: Seq<char>, b: Seq<char>) -> bool
    decreases a.len(),
{
    if a.len() == 0 {
        b.len() > 0
    } else if b.len() == 0 {
        false
    } else if a[0] != b[0] {
        (a[0] as u32) < (b[0] as u32)
    } else {
        text_lt(a.drop_first(), b.drop_first())
    }
}

/// Nothing comes before itself.
pub proof fn lemma_text_lt_irreflexive(a: Seq<char>)
    ensures
        !text_lt(a, a),
    decreases a.len(),
{
    if a.len() > 0 {
        lemma_text_lt_irreflexive(a.drop_first());
    }
}

/// The order is transitive.
pub proof fn lemma_text_lt_transitive(a: Seq<char>, b: Seq<char>, c: Seq<char>)
    requires
        text_lt(a, b),
        text_lt(b, c),
    ensures
        text_lt(a, c),
    decreases a.len(),
{
    if a.len() > 0 && b.len() > 0 && c.len() > 0 && a[0] == b[0] && b[0] == c[0] {
        lemma_text_lt_transitive(a.drop_first(), b.drop_first(), c.drop_first());
    }
}

/// Of two different texts, one comes first.
pub proof fn lemma_text_lt_total(a: Seq<char>, b: Seq<char>)
    requires
        a != b,
    ensures
        text_lt(a, b) || text_lt(b, a),
    decreases a.len(),
{
    if a.len() > 0 && b.len() > 0 && a[0] != b[0] {
        vstd::utf8::char_u32_cast(a[0], a[0] as u32);
        vstd::utf8::char_u32_cast(b[0], b[0] as u32);
    }
    if a.len() == 0 && b.len() == 0 {
        assert(a =~= b);
    }
    if a.len() > 0 && b.len() > 0 && a[0] == b[0] {
        if a.drop_first() == b.drop_first() {
            assert(a =~= seq![a[0]] + a.drop_first());
            assert(b =~= seq![b[0]] + b.drop_first());
        }
        lemma_text_lt_total(a.drop_first(), b.drop_first());
    }
}

/// Whether `a` sorts before `b`.
pub fn text_less(a: &str, b: &str) -> (r: bool)
    ensures
        r == text_lt(a@, b@),
{
    let x = chars_of(a);
    let y = chars_of(b);
    let mut i: usize = 0;
    assert(x@.skip(0) =~= x@);
    assert(y@.skip(0) =~= y@);
    while i < x.len() && i < y.len()
        invariant
            x@ == a@,
            y@ == b@,
            i <= x.len(),
            i <= y.len(),
            text_lt(x@, y@) == text_lt(x@.skip(i as int), y@.skip(i as int)),
        decreases x.len() - i,
    {
        if x[i] != y[i] {
            assert(x@.skip(i as int)[0] == x@[i as int]);
            assert(y@.skip(i as int)[0] == y@[i as int]);
            return (x[i] as u32) < (y[i] as u32);
        }
        assert(x@.skip(i as int).drop_first() =~= x@.skip(i + 1));
        assert(y@.skip(i as int).drop_first() =~= y@.skip(i + 1));
        i += 1;
    }
    i < y.len()
}

// ------------------------------------------------------------ sorting

/// `a <= b` in text order.
pub open spec fn text_le(a: Seq<char>, b: Seq<char>) -> bool {
    !text_lt(b, a)
}

/// Text order, as the relation sorting takes.
pub open spec fn by_text() -> spec_fn(Seq<char>, Seq<char>) -> bool {
    |a: Seq<char>, b: Seq<char>| text_le(a, b)
}

/// Text order is a total order.
pub proof fn lemma_by_text_total()
    ensures
        vstd::relations::total_ordering(by_text()),
{
    let le = by_text();
    assert forall|a: Seq<char>| #[trigger] le(a, a) by {
        lemma_text_lt_irreflexive(a);
    }
    assert forall|a: Seq<char>, b: Seq<char>| #[trigger] le(a, b) && #[trigger] le(b, a) implies a == b by {
        if a != b {
            lemma_text_lt_total(a, b);
        }
    }
    assert forall|a: Seq<char>, b: Seq<char>, c: Seq<char>|
        #[trigger] le(a, b) && #[trigger] le(b, c) implies #[trigger] le(a, c) by {
        if text_lt(c, a) {
            if a == b {
            } else {
                lemma_text_lt_total(a, b);
                if text_lt(a, b) {
                    lemma_text_lt_transitive(c, a, b);
                }
            }
        }
    }
    assert forall|a: Seq<char>, b: Seq<char>| #[trigger] le(a, b) || #[trigger] le(b, a) by {
        if text_lt(b, a) && text_lt(a, b) {
            lemma_text_lt_transitive(a, b, a);
            lemma_text_lt_irreflexive(a);
        }
    }
}

/// Strings as text.
pub open spec fn views(v: Seq<String>) -> Seq<Seq<char>> {
    v.map_values(|s: String| s@)
}

/// The strings in text order, as `sort_unstable` leaves them.
pub fn sort_texts(v: Vec<String>) -> (r: Vec<String>)
    ensures
        views(r@) == views(v@).sort_by(by_text()),
{
    let ghost all = views(v@);
    let total = v.len();
    let mut rest = v;
    let mut r: Vec<String> = Vec::new();
    let mut i: usize = 0;
    proof {
        lemma_by_text_total();
        assert(views(rest@) =~= all.skip(0));
        assert(views(r@) =~= all.take(0));
    }
    while rest.len() > 0
        invariant
            i <= all.len(),
            all.len() == total,
            views(rest@) == all.skip(i as int),
            vstd::relations::sorted_by(views(r@), by_text()),
            views(r@).to_multiset() == all.take(i as int).to_multiset(),
        decreases rest.len(),
    {
        assert(views(rest@).len() == rest@.len());
        assert(i < all.len());
        assert(views(rest@)[0] == all[i as int]);
        let ghost before = views(r@);
        let ghost rest_before = rest@;
        let x = rest.remove(0);
        assert(x@ == all[i as int]);
        assert(rest@ =~= rest_before.subrange(1, rest_before.len() as int));
        assert(views(rest_before) == all.skip(i as int));
        assert forall|k: int| 0 <= k < views(rest@).len() implies views(rest@)[k] == all.skip(i + 1)[k] by {
            assert(views(rest_before)[k + 1] == all.skip(i as int)[k + 1]);
        }
        assert(views(rest@) =~= all.skip(i + 1));
        let mut p: usize = 0;
        while p < r.len() && !text_less(x.as_str(), r[p].as_str())
            invariant
                p <= r@.len(),
                views(r@) == before,
                forall|j: int| 0 <= j < p ==> !text_lt(x@, #[trigger] before[j]),
            decreases r.len() - p,
        {
            p += 1;
        }
        proof {
            let le = by_text();
            let t = before.insert(p as int, x@);
            assert forall|a: int, b: int| 0 <= a < b < t.len() implies #[trigger] le(t[a], t[b]) by {
                if b < p {
                    assert(le(before[a], before[b]));
                } else if a < p && b == p {
                } else if a < p && b > p {
                    assert(le(before[a], before[b - 1]));
                    if text_lt(before[b - 1], before[a]) {
                    }
                    if text_lt(x@, before[a]) {
                    }
                    assert(!text_lt(x@, before[a]));
                    if text_lt(before[b - 1], before[a]) {
                    }
                    lemma_by_text_total();
                    assert(le(before[a], x@));
                    assert(le(before[a], before[b - 1]));
                } else if a == p {
                    assert(text_lt(x@, before[p as int]));
                    if b - 1 > p {
                        assert(le(before[p as int], before[b - 1]));
                    }
                    if text_lt(before[b - 1], x@) {
                        if b - 1 > p {
                            lemma_text_lt_transitive(before[b - 1], x@, before[p as int]);
                        } else {
                            lemma_text_lt_transitive(x@, before[p as int], x@);
                            lemma_text_lt_irreflexive(x@);
                        }
                    }
                } else {
                    assert(le(before[a - 1], before[b - 1]));
                }
            }
            vstd::seq_lib::to_multiset_insert(before, p as int, x@);
            assert(all.take(i + 1) =~= all.take(i as int).push(x@));
            all.take(i as int).to_multiset_ensures();
        }
        r.insert(p, x);
        assert(views(r@) =~= before.insert(p as int, x@));
        i += 1;
    }
    proof {
        assert(all.take(all.len() as int) =~= all);
        lemma_by_text_total();
        all.lemma_sort_by_ensures(by_text());
        vstd::seq_lib::lemma_sorted_unique(views(r@), all.sort_by(by_text()), by_text());
    }
    r
}

/// Consecutive repeats dropped, as `dedup` leaves a list.
pub open spec fn dedup(s: Seq<Seq<char>>) -> Seq<Seq<char>>
    decreases s.len(),
{
    if s.len() == 0 {
        s
    } else {
        let d = dedup(s.drop_last());
        if d.len() > 0 && d.last() == s.last() {
            d
        } else {
            d.push(s.last())
        }
    }
}

/// Consecutive repeats dropped.
pub fn dedup_texts(v: Vec<String>) -> (r: Vec<String>)
    ensures
        views(r@) == dedup(views(v@)),
{
    let mut r: Vec<String> = Vec::new();
    let mut i: usize = 0;
    while i < v.len()
        invariant
            i <= v@.len(),
            views(r@) == dedup(views(v@).take(i as int)),
        decreases v.len() - i,
    {
        assert(views(v@).take(i + 1).drop_last() =~= views(v@).take(i as int));
        let ghost before = views(r@);
        let n = r.len();
        if n > 0 && crate::strs::str_eq(r[n - 1].as_str(), v[i].as_str()) {
        } else {
            r.push(v[i].clone());
            assert(views(r@) =~= before.push(v@[i as int]@));
        }
        i += 1;
    }
    assert(views(v@).take(v@.len() as int) =~= views(v@));
    r
}

} // verus!
