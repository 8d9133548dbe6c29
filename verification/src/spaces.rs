//! Every space this device belongs to.
//!
//! A space is a roster; belonging to several means holding several, kept
//! fully separate. Separation is the point — a work message arriving on the
//! family tablet is the failure this exists to prevent — so nothing here ever
//! merges two, and no selector means "everywhere at once".
//!
//! Spaces are never shared with another person, by design. Several spaces are
//! several sets of *your own* devices.
//!
//! The spaces are held in a list kept strictly sorted by id, which is the
//! order a map keyed by id walks them in; [`keyed`] reads that list as the map.

use vstd::prelude::*;

use vstd::string::StrSliceExecFns;

use crate::order::{
    lemma_text_lt_irreflexive, lemma_text_lt_total, lemma_text_lt_transitive, text_less, text_lt,
};
use crate::proto::Member;
use crate::strs::{
    string_of, any_control, chars_of, dec, has_char, has_control, is_prefix, owned, push_chars, push_dec,
    push_str, starts_with, str_eq, trim, trimmed,
};

verus! {

// ------------------------------------------------------------ rosters

/// One space's membership: who founded it, who is in it, who was removed.
#[derive(Debug, Clone)]
pub struct Roster {
    /// The founding device's public key.
    pub founder: String,
    /// Unix seconds when it was founded.
    pub founded_at: u64,
    /// Every device in the space, the founder included.
    pub members: Vec<Member>,
    /// Devices removed from the space, with when.
    pub revoked: Vec<(String, u64)>,
}

/// The id every member agrees on: `<founder>:<founded_at>`.
pub open spec fn space_id_of(r: Roster) -> Seq<char> {
    r.founder@ + ":"@ + dec(r.founded_at as nat)
}

/// Whether a device is a member.
pub open spec fn has_member(r: Roster, endpoint_id: Seq<char>) -> bool {
    exists|i: int| 0 <= i < r.members@.len() && (#[trigger] r.members@[i]).endpoint_id@ == endpoint_id
}

impl Roster {
    /// The space's id.
    pub fn space_id(&self) -> (r: String)
        ensures
            r@ == space_id_of(*self),
    {
        let mut s = owned(self.founder.as_str());
        push_str(&mut s, ":");
        push_dec(&mut s, self.founded_at);
        s
    }

    /// Whether `endpoint_id` is a member.
    pub fn holds(&self, endpoint_id: &str) -> (r: bool)
        ensures
            r == has_member(*self, endpoint_id@),
    {
        let mut i: usize = 0;
        while i < self.members.len()
            invariant
                i <= self.members@.len(),
                forall|j: int| 0 <= j < i ==> (#[trigger] self.members@[j]).endpoint_id@ != endpoint_id@,
            decreases self.members.len() - i,
        {
            if str_eq(self.members[i].endpoint_id.as_str(), endpoint_id) {
                return true;
            }
            i += 1;
        }
        false
    }
}

// ------------------------------------------------------------ the sorted list

/// One held space.
#[derive(Debug, Clone)]
pub struct Space {
    pub id: String,
    pub roster: Roster,
    /// This device's own name for it; none reads as `main`.
    pub label: Option<String>,
}

/// A label as text.
pub open spec fn label_text(l: Option<String>) -> Option<Seq<char>> {
    match l {
        Some(s) => Some(s@),
        None => None,
    }
}

/// The name a space goes by: its label, or `main` when it has none.
pub open spec fn shown_label(l: Option<Seq<char>>) -> Seq<char> {
    match l {
        Some(s) => s,
        None => "main"@,
    }
}

/// Ids strictly ascending, so no id occurs twice.
pub open spec fn sorted(s: Seq<Space>) -> bool {
    forall|i: int, j: int| 0 <= i < j < s.len() ==> text_lt(#[trigger] s[i].id@, #[trigger] s[j].id@)
}

/// Whether some held space has this id.
pub open spec fn holds_key(s: Seq<Space>, k: Seq<char>) -> bool {
    exists|i: int| 0 <= i < s.len() && (#[trigger] s[i]).id@ == k
}

/// Where the space with this id sits.
pub open spec fn index_of(s: Seq<Space>, k: Seq<char>) -> int {
    choose|i: int| 0 <= i < s.len() && (#[trigger] s[i]).id@ == k
}

/// What is kept per id: the roster and the label.
pub open spec fn entry_of(e: Space) -> (Roster, Option<Seq<char>>) {
    (e.roster, label_text(e.label))
}

/// The list read as a map from id.
pub open spec fn keyed(s: Seq<Space>) -> Map<Seq<char>, (Roster, Option<Seq<char>>)> {
    Map::new(|k: Seq<char>| holds_key(s, k), |k: Seq<char>| entry_of(s[index_of(s, k)]))
}

/// In a sorted list the space at `i` is the one its id finds.
pub proof fn lemma_index_of(s: Seq<Space>, i: int)
    requires
        sorted(s),
        0 <= i < s.len(),
    ensures
        holds_key(s, s[i].id@),
        index_of(s, s[i].id@) == i,
        keyed(s).dom().contains(s[i].id@),
        keyed(s)[s[i].id@] == entry_of(s[i]),
{
    let k = s[i].id@;
    assert(holds_key(s, k));
    let j = index_of(s, k);
    if j < i {
        lemma_text_lt_irreflexive(k);
        assert(text_lt(s[j].id@, s[i].id@));
    } else if i < j {
        lemma_text_lt_irreflexive(k);
        assert(text_lt(s[i].id@, s[j].id@));
    }
}

/// Two lists that hold the same spaces id for id read as the same map.
proof fn lemma_keyed_same(s: Seq<Space>, t: Seq<Space>, m: Map<Seq<char>, (Roster, Option<Seq<char>>)>)
    requires
        sorted(t),
        forall|k: Seq<char>| holds_key(t, k) <==> #[trigger] m.dom().contains(k),
        forall|i: int| 0 <= i < t.len() ==> m[(#[trigger] t[i]).id@] == entry_of(t[i]),
    ensures
        keyed(t) == m,
{
    assert forall|k: Seq<char>| #[trigger] keyed(t).dom().contains(k) implies keyed(t)[k] == m[k] by {
        let i = index_of(t, k);
        lemma_index_of(t, i);
    }
    assert(keyed(t) =~= m);
}

/// Putting `e` at `p`, between the smaller ids and the larger.
proof fn lemma_insert_at(s: Seq<Space>, p: int, e: Space)
    requires
        sorted(s),
        0 <= p <= s.len(),
        forall|j: int| 0 <= j < p ==> text_lt(#[trigger] s[j].id@, e.id@),
        forall|j: int| p <= j < s.len() ==> text_lt(e.id@, #[trigger] s[j].id@),
    ensures
        sorted(s.insert(p, e)),
        keyed(s.insert(p, e)) == keyed(s).insert(e.id@, entry_of(e)),
{
    let t = s.insert(p, e);
    let m = keyed(s).insert(e.id@, entry_of(e));
    assert forall|i: int, j: int| 0 <= i < j < t.len() implies text_lt(#[trigger] t[i].id@, #[trigger] t[j].id@) by {
        if i < p && j > p {
            lemma_text_lt_transitive(t[i].id@, e.id@, t[j].id@);
        }
    }
    assert forall|k: Seq<char>| holds_key(t, k) <==> #[trigger] m.dom().contains(k) by {
        if holds_key(t, k) {
            let i = choose|i: int| 0 <= i < t.len() && (#[trigger] t[i]).id@ == k;
            if i < p {
                assert(s[i].id@ == k);
            } else if i > p {
                assert(s[i - 1].id@ == k);
            }
        }
        if holds_key(s, k) {
            let i = choose|i: int| 0 <= i < s.len() && (#[trigger] s[i]).id@ == k;
            if i < p {
                assert(t[i].id@ == k);
            } else {
                assert(t[i + 1].id@ == k);
            }
        }
        if k == e.id@ {
            assert(t[p].id@ == k);
        }
    }
    assert forall|i: int| 0 <= i < t.len() implies m[(#[trigger] t[i]).id@] == entry_of(t[i]) by {
        if i < p {
            lemma_index_of(s, i);
            lemma_text_lt_irreflexive(e.id@);
        } else if i > p {
            lemma_index_of(s, i - 1);
            lemma_text_lt_irreflexive(e.id@);
        }
    }
    lemma_keyed_same(s, t, m);
}

/// Overwriting the space at `p` with one of the same id.
proof fn lemma_update_at(s: Seq<Space>, p: int, e: Space)
    requires
        sorted(s),
        0 <= p < s.len(),
        s[p].id@ == e.id@,
    ensures
        sorted(s.update(p, e)),
        keyed(s.update(p, e)) == keyed(s).insert(e.id@, entry_of(e)),
{
    let t = s.update(p, e);
    let m = keyed(s).insert(e.id@, entry_of(e));
    assert forall|i: int, j: int| 0 <= i < j < t.len() implies text_lt(#[trigger] t[i].id@, #[trigger] t[j].id@) by {
        assert(text_lt(s[i].id@, s[j].id@));
    }
    assert forall|k: Seq<char>| holds_key(t, k) <==> #[trigger] m.dom().contains(k) by {
        if holds_key(t, k) {
            let i = choose|i: int| 0 <= i < t.len() && (#[trigger] t[i]).id@ == k;
            assert(s[i].id@ == k);
        }
        if holds_key(s, k) {
            let i = choose|i: int| 0 <= i < s.len() && (#[trigger] s[i]).id@ == k;
            assert(t[i].id@ == k);
        }
        if k == e.id@ {
            assert(t[p].id@ == k);
        }
    }
    assert forall|i: int| 0 <= i < t.len() implies m[(#[trigger] t[i]).id@] == entry_of(t[i]) by {
        if i != p {
            lemma_index_of(s, i);
            lemma_index_of(s, p);
        }
    }
    lemma_keyed_same(s, t, m);
}

/// Taking out the space at `p`.
proof fn lemma_remove_at(s: Seq<Space>, p: int)
    requires
        sorted(s),
        0 <= p < s.len(),
    ensures
        sorted(s.remove(p)),
        keyed(s.remove(p)) == keyed(s).remove(s[p].id@),
{
    let t = s.remove(p);
    let m = keyed(s).remove(s[p].id@);
    assert forall|i: int, j: int| 0 <= i < j < t.len() implies text_lt(#[trigger] t[i].id@, #[trigger] t[j].id@) by {
        if i < p && j >= p {
            assert(text_lt(s[i].id@, s[j + 1].id@));
        } else if i >= p {
            assert(text_lt(s[i + 1].id@, s[j + 1].id@));
        }
    }
    assert forall|k: Seq<char>| holds_key(t, k) <==> #[trigger] m.dom().contains(k) by {
        if holds_key(t, k) {
            let i = choose|i: int| 0 <= i < t.len() && (#[trigger] t[i]).id@ == k;
            lemma_text_lt_irreflexive(k);
            if i < p {
                assert(s[i].id@ == k);
                assert(text_lt(s[i].id@, s[p].id@));
            } else {
                assert(s[i + 1].id@ == k);
                assert(text_lt(s[p].id@, s[i + 1].id@));
            }
        }
        if m.dom().contains(k) {
            let i = choose|i: int| 0 <= i < s.len() && (#[trigger] s[i]).id@ == k;
            if i < p {
                assert(t[i].id@ == k);
            } else {
                assert(t[i - 1].id@ == k);
            }
        }
    }
    assert forall|i: int| 0 <= i < t.len() implies m[(#[trigger] t[i]).id@] == entry_of(t[i]) by {
        lemma_text_lt_irreflexive(s[p].id@);
        if i < p {
            lemma_index_of(s, i);
            assert(text_lt(s[i].id@, s[p].id@));
        } else {
            lemma_index_of(s, i + 1);
            assert(text_lt(s[p].id@, s[i + 1].id@));
        }
    }
    lemma_keyed_same(s, t, m);
}

/// Where `id` is, or would go: the first place whose id is not smaller.
fn locate(s: &Vec<Space>, id: &str) -> (r: (usize, bool))
    requires
        sorted(s@),
    ensures
        r.0 <= s@.len(),
        forall|j: int| 0 <= j < r.0 ==> text_lt(#[trigger] s@[j].id@, id@),
        r.1 ==> r.0 < s@.len() && s@[r.0 as int].id@ == id@,
        !r.1 ==> forall|j: int| r.0 <= j < s@.len() ==> text_lt(id@, #[trigger] s@[j].id@),
        r.1 == holds_key(s@, id@),
{
    let mut p: usize = 0;
    while p < s.len() && text_less(s[p].id.as_str(), id)
        invariant
            sorted(s@),
            p <= s@.len(),
            forall|j: int| 0 <= j < p ==> text_lt(#[trigger] s@[j].id@, id@),
        decreases s.len() - p,
    {
        p += 1;
    }
    let found = p < s.len() && str_eq(s[p].id.as_str(), id);
    proof {
        if !found {
            assert forall|j: int| p <= j < s@.len() implies text_lt(id@, #[trigger] s@[j].id@) by {
                lemma_text_lt_total(s@[p as int].id@, id@);
                if j > p {
                    lemma_text_lt_transitive(id@, s@[p as int].id@, s@[j].id@);
                }
            }
            if holds_key(s@, id@) {
                let i = choose|i: int| 0 <= i < s@.len() && (#[trigger] s@[i]).id@ == id@;
                lemma_text_lt_irreflexive(id@);
                if i < p {
                    assert(text_lt(s@[i].id@, id@));
                } else {
                    assert(text_lt(id@, s@[i].id@));
                }
            }
        }
    }
    (p, found)
}

/// Hold `e`, replacing whatever was held under its id.
fn put(s: &mut Vec<Space>, e: Space)
    requires
        sorted(old(s)@),
    ensures
        sorted(final(s)@),
        keyed(final(s)@) == keyed(old(s)@).insert(e.id@, entry_of(e)),
{
    let (p, found) = locate(s, e.id.as_str());
    if found {
        proof {
            lemma_update_at(s@, p as int, e);
        }
        s.remove(p);
        proof {
            assert(s@ =~= old(s)@.remove(p as int));
        }
        s.insert(p, e);
        assert(s@ =~= old(s)@.update(p as int, e));
    } else {
        proof {
            lemma_insert_at(s@, p as int, e);
        }
        s.insert(p, e);
    }
}

// ------------------------------------------------------------ spaces

/// One space, as this device sees it.
#[derive(Debug, Clone)]
pub struct SpaceInfo {
    /// Agreed between members, derived from the founder.
    pub id: String,
    /// This device's own name for it. Local, like a device label.
    pub label: String,
    /// How many devices are in it.
    pub devices: usize,
    /// Whether bare device names resolve here.
    pub is_default: bool,
    /// Whether this device founded it.
    pub founded_here: bool,
}

/// The spaces this device belongs to.
#[derive(Debug, Clone)]
pub struct Spaces {
    /// Sorted by id, each id once.
    held: Vec<Space>,
    /// Which space bare device names resolve in.
    default_id: String,
}

/// The roster bare names use: the default's, or the first held when the
/// default names nothing held.
pub open spec fn current_of(s: Seq<Space>, default_id: Seq<char>) -> Roster {
    if keyed(s).dom().contains(default_id) {
        keyed(s)[default_id].0
    } else {
        s[0].roster
    }
}

/// The first held space, in id order, whose roster has this member.
pub open spec fn first_holding(s: Seq<Space>, endpoint_id: Seq<char>, i: int) -> bool {
    &&& 0 <= i < s.len()
    &&& has_member(s[i].roster, endpoint_id)
    &&& forall|j: int| 0 <= j < i ==> !has_member(#[trigger] s[j].roster, endpoint_id)
}

/// The first held space, in id order, with this label.
pub open spec fn first_labelled(s: Seq<Space>, label: Seq<char>, i: int) -> bool {
    &&& 0 <= i < s.len()
    &&& label_text(s[i].label) == Some(label)
    &&& forall|j: int| 0 <= j < i ==> label_text(#[trigger] s[j].label) != Some(label)
}

/// What `by_label` finds.
pub open spec fn labelled(s: Seq<Space>, label: Seq<char>) -> Option<Seq<char>> {
    if exists|i: int| first_labelled(s, label, i) {
        Some(s[choose|i: int| first_labelled(s, label, i)].id@)
    } else {
        None
    }
}

/// What `labelled` finds is held, under that label.
pub proof fn lemma_labelled_held(s: Seq<Space>, t: Seq<char>)
    requires
        sorted(s),
        labelled(s, t) is Some,
    ensures
        keyed(s).dom().contains(labelled(s, t)->0),
        keyed(s)[labelled(s, t)->0].1 == Some(t),
{
    let i = choose|i: int| first_labelled(s, t, i);
    lemma_index_of(s, i);
}

/// A label some held space carries has a first holder.
proof fn lemma_first_labelled_exists(s: Seq<Space>, t: Seq<char>, i: int)
    requires
        0 <= i < s.len(),
        label_text(s[i].label) == Some(t),
    ensures
        exists|k: int| first_labelled(s, t, k),
    decreases i,
{
    if forall|j: int| 0 <= j < i ==> label_text(#[trigger] s[j].label) != Some(t) {
        assert(first_labelled(s, t, i));
    } else {
        let j = choose|j: int| 0 <= j < i && label_text(#[trigger] s[j].label) == Some(t);
        lemma_first_labelled_exists(s, t, j);
    }
}

/// A label `labelled` does not find is on no held space.
pub proof fn lemma_unlabelled(s: Seq<Space>, t: Seq<char>)
    requires
        sorted(s),
        labelled(s, t) is None,
    ensures
        forall|k: Seq<char>| #[trigger] keyed(s).dom().contains(k) ==> keyed(s)[k].1 != Some(t),
{
    assert forall|k: Seq<char>| #[trigger] keyed(s).dom().contains(k) implies keyed(s)[k].1 != Some(t) by {
        let i = index_of(s, k);
        lemma_index_of(s, i);
        if label_text(s[i].label) == Some(t) {
            lemma_first_labelled_exists(s, t, i);
        }
    }
}

/// What a label has to be, once trimmed.
pub open spec fn label_refusal(t: Seq<char>) -> Option<Seq<char>> {
    if t.len() == 0 {
        Some("a space needs a name"@)
    } else if t.contains('/') || t.contains(',') {
        Some("a space name cannot contain '/' or ','"@)
    } else if has_control(t) {
        Some("a space name cannot contain control characters"@)
    } else {
        None
    }
}

/// Why an id names nothing held.
pub open spec fn no_space_message(id: Seq<char>) -> Seq<char> {
    "no space with id "@ + id
}

impl Spaces {
    /// The held spaces, in id order.
    pub closed spec fn listing(&self) -> Seq<Space> {
        self.held@
    }

    /// The space bare names resolve in.
    pub closed spec fn default_spec(&self) -> Seq<char> {
        self.default_id@
    }

    /// The held spaces by id.
    pub open spec fn map(&self) -> Map<Seq<char>, (Roster, Option<Seq<char>>)> {
        keyed(self.listing())
    }

    /// Ids strictly ascending.
    pub open spec fn wf(&self) -> bool {
        sorted(self.listing())
    }

    /// Holding nothing, with no default.
    pub fn new() -> (r: Self)
        ensures
            r.wf(),
            r.listing().len() == 0,
            r.default_spec().len() == 0,
    {
        Spaces { held: Vec::new(), default_id: String::new() }
    }

    /// The space bare names resolve in.
    pub fn default_id(&self) -> (r: &str)
        ensures
            r@ == self.default_spec(),
    {
        self.default_id.as_str()
    }

    /// The roster for the default space.
    ///
    /// Every operation that predates several spaces goes through here, which
    /// is what let the rest of the node stay as it was.
    pub fn current(&self) -> (r: &Roster)
        requires
            self.wf(),
            self.listing().len() > 0,
        ensures
            *r == current_of(self.listing(), self.default_spec()),
    {
        let (p, found) = locate(&self.held, self.default_id.as_str());
        if found {
            proof {
                lemma_index_of(self.held@, p as int);
            }
            &self.held[p].roster
        } else {
            &self.held[0].roster
        }
    }

    /// A space by id.
    pub fn get(&self, id: &str) -> (r: Option<&Roster>)
        requires
            self.wf(),
        ensures
            r.is_some() == self.map().dom().contains(id@),
            r.is_some() ==> *r.unwrap() == self.map()[id@].0,
    {
        let (p, found) = locate(&self.held, id);
        if found {
            proof {
                lemma_index_of(self.held@, p as int);
            }
            Some(&self.held[p].roster)
        } else {
            None
        }
    }

    /// The default space's roster, to change in place. A default that names
    /// nothing held is given an empty roster first, under that id and with
    /// no label, so there is always one to change.
    pub fn current_mut(&mut self) -> (r: &mut Roster)
        requires
            old(self).wf(),
        ensures
            final(self).wf(),
            final(self).default_spec() == old(self).default_spec(),
            old(self).map().dom().contains(old(self).default_spec()) ==> *r == old(self).map()[old(self).default_spec()].0
                && final(self).map() == old(self).map().insert(
                old(self).default_spec(),
                (*final(r), old(self).map()[old(self).default_spec()].1),
            ),
            !old(self).map().dom().contains(old(self).default_spec()) ==> empty_roster(*r)
                && final(self).map() == old(self).map().insert(old(self).default_spec(), (*final(r), None)),
    {
        let (p, found) = locate(&self.held, self.default_id.as_str());
        let ghost start = self.held@;
        if !found {
            let e = Space { id: self.default_id.clone(), roster: Roster::default(), label: None };
            proof {
                lemma_insert_at(self.held@, p as int, e);
            }
            self.held.insert(p, e);
        }
        let ghost before = self.held@;
        proof {
            lemma_index_of(before, p as int);
        }
        let x = &mut self.held[p].roster;
        proof {
            let e = Space { roster: *final(x), ..before[p as int] };
            lemma_update_at(before, p as int, e);
            if !found {
                assert(keyed(before) == keyed(start).insert(self.default_id@, (before[p as int].roster, None)));
                assert(keyed(before).insert(self.default_id@, entry_of(e)) =~= keyed(start).insert(
                    self.default_id@,
                    (*final(x), None),
                ));
            }
        }
        x
    }

    /// A space by id, to change its roster in place. The id and the label
    /// stay as they were; the rest of what is held is untouched.
    pub fn get_mut(&mut self, id: &str) -> (r: Option<&mut Roster>)
        requires
            old(self).wf(),
        ensures
            r is Some == old(self).map().dom().contains(id@),
            r is None ==> *final(self) == *old(self),
            r is Some ==> *r.unwrap() == old(self).map()[id@].0,
            r is Some ==> final(self).wf() && final(self).default_spec() == old(self).default_spec()
                && final(self).map() == old(self).map().insert(
                id@,
                (*final(r.unwrap()), old(self).map()[id@].1),
            ),
    {
        let (p, found) = locate(&self.held, id);
        if found {
            let ghost before = self.held@;
            proof {
                lemma_index_of(before, p as int);
            }
            let x = &mut self.held[p].roster;
            proof {
                let e = Space { roster: *final(x), ..before[p as int] };
                lemma_update_at(before, p as int, e);
            }
            Some(x)
        } else {
            None
        }
    }

    /// This device's name for a space.
    pub fn label(&self, id: &str) -> (r: &str)
        requires
            self.wf(),
        ensures
            r@ == (if self.map().dom().contains(id@) {
                shown_label(self.map()[id@].1)
            } else {
                "main"@
            }),
    {
        let (p, found) = locate(&self.held, id);
        if found {
            proof {
                lemma_index_of(self.held@, p as int);
            }
            match &self.held[p].label {
                Some(l) => l.as_str(),
                None => "main",
            }
        } else {
            "main"
        }
    }

    /// Whether the default space is one nobody else ever joined.
    ///
    /// Every node founds a space for itself at first start. Joining should
    /// displace *that* — otherwise a fresh device ends up holding an
    /// abandoned empty space beside the one it just joined — and should never
    /// displace a space with other devices in it, which is a real space
    /// somebody would lose.
    pub fn current_is_unshared(&self, me: &str) -> (r: bool)
        requires
            self.wf(),
            self.listing().len() > 0,
        ensures
            r == ({
                let c = current_of(self.listing(), self.default_spec());
                c.members@.len() <= 1 && forall|i: int|
                    0 <= i < c.members@.len() ==> (#[trigger] c.members@[i]).endpoint_id@ == me@
            }),
    {
        let roster = self.current();
        if roster.members.len() > 1 {
            return false;
        }
        let mut i: usize = 0;
        while i < roster.members.len()
            invariant
                *roster == current_of(self.listing(), self.default_spec()),
                i <= roster.members@.len(),
                forall|j: int| 0 <= j < i ==> (#[trigger] roster.members@[j]).endpoint_id@ == me@,
            decreases roster.members.len() - i,
        {
            if !str_eq(roster.members[i].endpoint_id.as_str(), me) {
                return false;
            }
            i += 1;
        }
        true
    }

    /// Which space a peer belongs to.
    ///
    /// The default is checked first, so the common case of one space is
    /// answered without scanning. Used when a peer does not say which space
    /// it means — a peer old enough to predate the field, or one that only
    /// ever shared a single space with us.
    pub fn space_of(&self, endpoint_id: &str) -> (r: Option<String>)
        requires
            self.wf(),
            self.listing().len() > 0,
        ensures
            has_member(current_of(self.listing(), self.default_spec()), endpoint_id@) ==> r.is_some()
                && r.unwrap()@ == self.default_spec(),
            !has_member(current_of(self.listing(), self.default_spec()), endpoint_id@) ==> match r {
                Some(id) => exists|i: int|
                    first_holding(self.listing(), endpoint_id@, i) && #[trigger] self.listing()[i].id@
                        == id@,
                None => forall|i: int|
                    0 <= i < self.listing().len() ==> !has_member(
                        #[trigger] self.listing()[i].roster,
                        endpoint_id@,
                    ),
            },
    {
        if self.current().holds(endpoint_id) {
            return Some(self.default_id.clone());
        }
        let mut i: usize = 0;
        while i < self.held.len()
            invariant
                !has_member(current_of(self.listing(), self.default_spec()), endpoint_id@),
                i <= self.held@.len(),
                forall|j: int| 0 <= j < i ==> !has_member(#[trigger] self.held@[j].roster, endpoint_id@),
            decreases self.held.len() - i,
        {
            if self.held[i].roster.holds(endpoint_id) {
                assert(first_holding(self.held@, endpoint_id@, i as int));
                return Some(self.held[i].id.clone());
            }
            i += 1;
        }
        None
    }

    /// Find a space by the name this device calls it.
    pub fn by_label(&self, label: &str) -> (r: Option<String>)
        ensures
            match r {
                Some(id) => id@ == labelled(self.listing(), label@)->0 && labelled(
                    self.listing(),
                    label@,
                ) is Some,
                None => labelled(self.listing(), label@) is None,
            },
    {
        let mut i: usize = 0;
        while i < self.held.len()
            invariant
                i <= self.held@.len(),
                forall|j: int| 0 <= j < i ==> label_text(#[trigger] self.held@[j].label) != Some(label@),
            decreases self.held.len() - i,
        {
            match &self.held[i].label {
                Some(l) => {
                    if str_eq(l.as_str(), label) {
                        proof {
                            let s = self.held@;
                            assert(first_labelled(s, label@, i as int));
                            let k = choose|k: int| first_labelled(s, label@, k);
                            if k < i {
                                assert(label_text(s[k].label) != Some(label@));
                            } else if k > i {
                                assert(label_text(s[i as int].label) != Some(label@));
                            }
                        }
                        return Some(self.held[i].id.clone());
                    }
                },
                None => {},
            }
            i += 1;
        }
        proof {
            assert(!exists|k: int| first_labelled(self.held@, label@, k));
        }
        None
    }

    /// Every held space, in id order.
    pub fn held(&self) -> (r: &Vec<Space>)
        ensures
            r@ == self.listing(),
    {
        &self.held
    }

    /// Every space's id, in id order.
    pub fn ids(&self) -> (r: Vec<String>)
        ensures
            r@.len() == self.listing().len(),
            forall|i: int| 0 <= i < r@.len() ==> (#[trigger] r@[i])@ == self.listing()[i].id@,
    {
        let mut r: Vec<String> = Vec::new();
        let mut i: usize = 0;
        while i < self.held.len()
            invariant
                i <= self.held@.len(),
                r@.len() == i,
                forall|j: int| 0 <= j < i ==> (#[trigger] r@[j])@ == self.held@[j].id@,
            decreases self.held.len() - i,
        {
            r.push(self.held[i].id.clone());
            i += 1;
        }
        r
    }

    /// Every space, for `clispeak space list`.
    pub fn list(&self, me: &str) -> (r: Vec<SpaceInfo>)
        ensures
            r@.len() == self.listing().len(),
            forall|i: int| 0 <= i < r@.len() ==> {
                let e = #[trigger] self.listing()[i];
                let row = r@[i];
                &&& row.id@ == e.id@
                &&& row.label@ == shown_label(label_text(e.label))
                &&& row.devices == e.roster.members@.len()
                &&& row.is_default == (e.id@ == self.default_spec())
                &&& row.founded_here == is_prefix(me@, e.id@)
            },
    {
        let mine = chars_of(me);
        let mut r: Vec<SpaceInfo> = Vec::new();
        let mut i: usize = 0;
        while i < self.held.len()
            invariant
                i <= self.held@.len(),
                mine@ == me@,
                r@.len() == i,
                forall|j: int| 0 <= j < i ==> {
                    let e = #[trigger] self.held@[j];
                    let row = r@[j];
                    &&& row.id@ == e.id@
                    &&& row.label@ == shown_label(label_text(e.label))
                    &&& row.devices == e.roster.members@.len()
                    &&& row.is_default == (e.id@ == self.default_id@)
                    &&& row.founded_here == is_prefix(me@, e.id@)
                },
            decreases self.held.len() - i,
        {
            let e = &self.held[i];
            let label = match &e.label {
                Some(l) => l.clone(),
                None => owned("main"),
            };
            let id_chars = chars_of(e.id.as_str());
            r.push(
                SpaceInfo {
                    id: e.id.clone(),
                    label,
                    devices: e.roster.members.len(),
                    is_default: str_eq(e.id.as_str(), self.default_id.as_str()),
                    founded_here: starts_with(&id_chars, &mine),
                },
            );
            i += 1;
        }
        r
    }

    /// Add a space, or replace one already held under the same id.
    pub fn insert(&mut self, roster: Roster, label: &str) -> (r: String)
        requires
            old(self).wf(),
        ensures
            final(self).wf(),
            r@ == space_id_of(roster),
            final(self).map() == old(self).map().insert(r@, (roster, Some(label@))),
            final(self).default_spec() == (if old(self).default_spec().len() == 0 {
                r@
            } else {
                old(self).default_spec()
            }),
    {
        let id = roster.space_id();
        put(&mut self.held, Space { id: id.clone(), roster, label: Some(owned(label)) });
        if self.default_id.as_str().unicode_len() == 0 {
            self.default_id = id.clone();
        }
        id
    }

    /// Replace one named space's roster, re-keying it and keeping its label.
    ///
    /// Named rather than assumed: replacing a space that is not the default
    /// must leave the default alone. The default only moves when the space
    /// being replaced *was* the default; rotating a space you are not
    /// currently pointing at should not quietly repoint you at it.
    ///
    /// Returns whether the space was held at all.
    pub fn replace(&mut self, id: &str, roster: Roster) -> (r: bool)
        requires
            old(self).wf(),
        ensures
            final(self).wf(),
            r == old(self).map().dom().contains(id@),
            !r ==> final(self).listing() == old(self).listing() && final(self).default_spec()
                == old(self).default_spec(),
            r ==> final(self).map() == after_replace(old(self).map(), id@, roster),
            r ==> final(self).default_spec() == (if old(self).default_spec() == id@ {
                space_id_of(roster)
            } else {
                old(self).default_spec()
            }),
    {
        let (p, found) = locate(&self.held, id);
        if !found {
            return false;
        }
        proof {
            lemma_index_of(self.held@, p as int);
            lemma_remove_at(self.held@, p as int);
        }
        let taken = self.held.remove(p);
        let label = match taken.label {
            Some(l) => l,
            None => owned("main"),
        };
        let new_id = roster.space_id();
        let was_default = str_eq(self.default_id.as_str(), id);
        put(&mut self.held, Space { id: new_id.clone(), roster, label: Some(label) });
        if was_default {
            self.default_id = new_id;
        }
        true
    }

    /// Replace the default space's roster, re-keying it if its id changed.
    ///
    /// Founding or rotating produces a roster with a different id, and
    /// leaving it under the old key would leave two entries for one space.
    pub fn replace_current(&mut self, roster: Roster)
        requires
            old(self).wf(),
        ensures
            final(self).wf(),
            !old(self).map().dom().contains(old(self).default_spec()) ==> final(self).listing()
                == old(self).listing() && final(self).default_spec() == old(self).default_spec(),
            old(self).map().dom().contains(old(self).default_spec()) ==> final(self).map()
                == after_replace(old(self).map(), old(self).default_spec(), roster)
                && final(self).default_spec() == space_id_of(roster),
    {
        let id = self.default_id.clone();
        self.replace(id.as_str(), roster);
    }

    /// Drop a space.
    ///
    /// Refuses to drop the last one: a device with no space cannot speak even
    /// to itself, which is a state nothing else in the node expects.
    pub fn remove(&mut self, id: &str) -> (r: Result<(), String>)
        requires
            old(self).wf(),
        ensures
            final(self).wf(),
            old(self).listing().len() <= 1 ==> (r matches Err(m) && m@
                == "this is the only space; use `leave` instead"@),
            old(self).listing().len() > 1 && !old(self).map().dom().contains(id@)
                ==> (r matches Err(m) && m@ == no_space_message(id@)),
            r is Err ==> final(self).listing() == old(self).listing() && final(self).default_spec()
                == old(self).default_spec(),
            old(self).listing().len() > 1 && old(self).map().dom().contains(id@) ==> r is Ok,
            r is Ok ==> final(self).map() == old(self).map().remove(id@),
            r is Ok ==> final(self).listing().len() > 0,
            r is Ok ==> final(self).default_spec() == (if old(self).default_spec() == id@ {
                final(self).listing()[0].id@
            } else {
                old(self).default_spec()
            }),
    {
        if self.held.len() <= 1 {
            return Err(owned("this is the only space; use `leave` instead"));
        }
        let (p, found) = locate(&self.held, id);
        if !found {
            return Err(no_space(id));
        }
        proof {
            lemma_index_of(self.held@, p as int);
            lemma_remove_at(self.held@, p as int);
        }
        self.held.remove(p);
        if str_eq(self.default_id.as_str(), id) {
            self.default_id = self.held[0].id.clone();
        }
        Ok(())
    }

    /// Rename a space locally.
    ///
    /// Labels have to be unique because they qualify device names —
    /// `work/laptop` cannot mean two things. A label is chosen here rather
    /// than arriving from a peer, so a control character is refused rather
    /// than escaped.
    pub fn set_label(&mut self, id: &str, label: &str) -> (r: Result<(), String>)
        requires
            old(self).wf(),
        ensures
            final(self).wf(),
            ({
                let t = trim(label@);
                let before = old(self).listing();
                let clash = labelled(before, t) is Some && labelled(before, t)->0 != id@;
                &&& label_refusal(t) is Some ==> (r matches Err(m) && m@ == label_refusal(t)->0)
                &&& label_refusal(t) is None && clash ==> (r matches Err(m) && m@
                    == "there is already a space called '"@ + t + "'"@)
                &&& label_refusal(t) is None && !clash && !old(self).map().dom().contains(id@)
                    ==> (r matches Err(m) && m@ == no_space_message(id@))
                &&& label_refusal(t) is None && !clash && old(self).map().dom().contains(id@)
                    ==> r is Ok
                &&& r is Ok ==> final(self).map() == old(self).map().insert(
                    id@,
                    (old(self).map()[id@].0, Some(t)),
                )
            }),
            final(self).default_spec() == old(self).default_spec(),
            r is Err ==> final(self).listing() == old(self).listing(),
    {
        let raw = chars_of(label);
        let t = trimmed(&raw);
        if t.len() == 0 {
            return Err(owned("a space needs a name"));
        }
        if has_char(&t, '/') || has_char(&t, ',') {
            return Err(owned("a space name cannot contain '/' or ','"));
        }
        if any_control(&t) {
            return Err(owned("a space name cannot contain control characters"));
        }
        let text = string_of(&t);
        match self.by_label(text.as_str()) {
            Some(other) => {
                if !str_eq(other.as_str(), id) {
                    let mut m = owned("there is already a space called '");
                    push_chars(&mut m, &t);
                    push_str(&mut m, "'");
                    return Err(m);
                }
            },
            None => {},
        }
        let (p, found) = locate(&self.held, id);
        if !found {
            return Err(no_space(id));
        }
        let ghost before = self.held@;
        let mut e = self.held.remove(p);
        e.label = Some(text);
        proof {
            lemma_index_of(before, p as int);
            lemma_update_at(before, p as int, e);
        }
        self.held.insert(p, e);
        assert(self.held@ =~= before.update(p as int, e));
        Ok(())
    }

    /// Choose which space bare device names resolve in.
    pub fn set_default(&mut self, id: &str) -> (r: Result<(), String>)
        requires
            old(self).wf(),
        ensures
            final(self).wf(),
            final(self).listing() == old(self).listing(),
            !old(self).map().dom().contains(id@) ==> (r matches Err(m) && m@ == no_space_message(id@))
                && final(self).default_spec() == old(self).default_spec(),
            old(self).map().dom().contains(id@) ==> r is Ok && final(self).default_spec() == id@,
    {
        let (_, found) = locate(&self.held, id);
        if !found {
            return Err(no_space(id));
        }
        self.default_id = owned(id);
        Ok(())
    }

    /// What a device that only ever held one roster holds now: that roster
    /// as its one space, called `main` and the default, or nothing at all
    /// when the roster has nobody in it.
    pub fn from_legacy(roster: Roster) -> (r: Self)
        ensures
            r.wf(),
            roster.members@.len() == 0 ==> r.listing().len() == 0 && r.default_spec().len() == 0,
            roster.members@.len() > 0 ==> r.map() == Map::<Seq<char>, (Roster, Option<Seq<char>>)>::empty().insert(
                space_id_of(roster),
                (roster, Some("main"@)),
            ) && r.default_spec() == space_id_of(roster),
    {
        let mut spaces = Spaces::new();
        if roster.members.len() > 0 {
            proof {
                assert(keyed(spaces.held@) =~= Map::<Seq<char>, (Roster, Option<Seq<char>>)>::empty());
            }
            spaces.insert(roster, "main");
        }
        spaces
    }

    /// Rebuild from what was stored: rosters with their labels, and the
    /// default.
    ///
    /// A later entry for an id replaces an earlier one. A default naming a
    /// space that is no longer held would make every bare device name
    /// unresolvable, so it falls back to the first space held.
    pub fn restore(parts: Vec<(String, Roster, Option<String>)>, default_id: String) -> (r: Self)
        ensures
            r.wf(),
            forall|k: Seq<char>|
                #[trigger] r.map().dom().contains(k) <==> exists|j: int|
                    0 <= j < parts@.len() && (#[trigger] parts@[j]).0@ == k,
            forall|j: int|
                0 <= j < parts@.len() && (forall|l: int| j < l < parts@.len() ==> (#[trigger] parts@[l]).0@ != parts@[j].0@)
                    ==> #[trigger] r.map()[parts@[j].0@] == (parts@[j].1, label_text(parts@[j].2)),
            r.default_spec() == (if r.map().dom().contains(default_id@) || r.listing().len() == 0 {
                default_id@
            } else {
                r.listing()[0].id@
            }),
    {
        let ghost all = parts@;
        let total = parts.len();
        let mut rest = parts;
        let mut held: Vec<Space> = Vec::new();
        let mut i: usize = 0;
        while rest.len() > 0
            invariant
                sorted(held@),
                rest@ == all.skip(i as int),
                i <= all.len(),
                all.len() == total,
                forall|k: Seq<char>|
                    #[trigger] keyed(held@).dom().contains(k) <==> exists|j: int|
                        0 <= j < i && (#[trigger] all[j]).0@ == k,
                forall|j: int|
                    0 <= j < i && (forall|l: int| j < l < i ==> (#[trigger] all[l]).0@ != all[j].0@)
                        ==> #[trigger] keyed(held@)[all[j].0@] == (all[j].1, label_text(all[j].2)),
            decreases rest.len(),
        {
            let ghost before = held@;
            assert(i < all.len());
            let (id, roster, label) = rest.remove(0);
            assert(all[i as int] == (id, roster, label));
            put(&mut held, Space { id, roster, label });
            assert(rest@ =~= all.skip(i + 1));
            i += 1;
            proof {
                assert forall|k: Seq<char>|
                    #[trigger] keyed(held@).dom().contains(k) <==> exists|j: int|
                        0 <= j < i && (#[trigger] all[j]).0@ == k by {
                    if keyed(before).dom().contains(k) {
                        let j = choose|j: int| 0 <= j < i - 1 && (#[trigger] all[j]).0@ == k;
                        assert(0 <= j < i && all[j].0@ == k);
                    }
                    if k == all[i - 1].0@ {
                        assert(0 <= i - 1 < i && all[i - 1].0@ == k);
                    }
                }
            }
        }
        assert(i == all.len());
        let mut r = Spaces { held, default_id };
        let (_, found) = locate(&r.held, r.default_id.as_str());
        if !found && r.held.len() > 0 {
            r.default_id = r.held[0].id.clone();
        }
        r
    }
}

/// Why an id names nothing held.
fn no_space(id: &str) -> (r: String)
    ensures
        r@ == no_space_message(id@),
{
    let mut m = owned("no space with id ");
    push_str(&mut m, id);
    m
}

/// A roster with nobody in it: no founder, founded at zero.
pub open spec fn empty_roster(r: Roster) -> bool {
    &&& r.founder@.len() == 0
    &&& r.founded_at == 0
    &&& r.members@.len() == 0
    &&& r.revoked@.len() == 0
}

impl Default for Roster {
    fn default() -> (r: Self)
        ensures
            empty_roster(r),
    {
        Roster { founder: String::new(), founded_at: 0, members: Vec::new(), revoked: Vec::new() }
    }
}

impl Default for Spaces {
    fn default() -> (r: Self)
        ensures
            r.wf(),
            r.listing().len() == 0,
            r.default_spec().len() == 0,
    {
        Spaces::new()
    }
}

// ------------------------------------------------------------ laws

/// What replacing the space `id` with `roster` leaves held.
pub open spec fn after_replace(
    m: Map<Seq<char>, (Roster, Option<Seq<char>>)>,
    id: Seq<char>,
    roster: Roster,
) -> Map<Seq<char>, (Roster, Option<Seq<char>>)> {
    m.remove(id).insert(space_id_of(roster), (roster, Some(shown_label(m[id].1))))
}

/// Replacing one space leaves every other space held exactly as it was:
/// rotating `work` must never touch `home`.
pub proof fn law_replace_leaves_other_spaces_alone(
    before: Map<Seq<char>, (Roster, Option<Seq<char>>)>,
    id: Seq<char>,
    roster: Roster,
    other: Seq<char>,
)
    requires
        before.dom().contains(id),
        before.dom().contains(other),
        other != id,
        other != space_id_of(roster),
    ensures
        after_replace(before, id, roster).dom().contains(other),
        after_replace(before, id, roster)[other] == before[other],
        !after_replace(before, id, roster).dom().contains(id) || id == space_id_of(roster),
        after_replace(before, id, roster)[space_id_of(roster)].1 == Some(shown_label(before[id].1)),
{
}

/// No two held spaces carry the same label.
pub open spec fn labels_unique(s: Seq<Space>) -> bool {
    forall|i: int, j: int|
        0 <= i < s.len() && 0 <= j < s.len() && i != j && s[i].label is Some ==> label_text(
            #[trigger] s[i].label,
        ) != label_text(#[trigger] s[j].label)
}

/// Labels qualify device names — `work/laptop` cannot mean two things — so a
/// rename that is let through keeps every label naming one space.
pub proof fn law_relabelling_keeps_labels_unique(
    before: Seq<Space>,
    after: Seq<Space>,
    id: Seq<char>,
    t: Seq<char>,
)
    requires
        sorted(before),
        sorted(after),
        labels_unique(before),
        keyed(before).dom().contains(id),
        labelled(before, t) is None || labelled(before, t)->0 == id,
        keyed(after) == keyed(before).insert(id, (keyed(before)[id].0, Some(t))),
    ensures
        labels_unique(after),
{
    assert forall|i: int, j: int|
        0 <= i < after.len() && 0 <= j < after.len() && i != j && after[i].label is Some implies label_text(
            #[trigger] after[i].label,
        ) != label_text(#[trigger] after[j].label) by {
        lemma_index_of(after, i);
        lemma_index_of(after, j);
        let ki = after[i].id@;
        let kj = after[j].id@;
        if ki != id && kj != id {
            let bi = index_of(before, ki);
            let bj = index_of(before, kj);
            lemma_index_of(before, bi);
            lemma_index_of(before, bj);
        } else if ki == id && kj != id {
            lemma_single_label(before, t, kj);
        } else if kj == id && ki != id {
            lemma_single_label(before, t, ki);
        }
    }
}

/// With unique labels, a space other than `id` labelled `t` is what `t`
/// finds.
pub proof fn lemma_single_label(s: Seq<Space>, t: Seq<char>, k: Seq<char>)
    requires
        sorted(s),
        labels_unique(s),
        keyed(s).dom().contains(k),
    ensures
        keyed(s)[k].1 == Some(t) ==> labelled(s, t) == Some(k),
{
    let b = index_of(s, k);
    lemma_index_of(s, b);
    if keyed(s)[k].1 == Some(t) {
        assert forall|j: int| 0 <= j < b implies label_text(#[trigger] s[j].label) != Some(t) by {
            assert(label_text(s[b].label) != label_text(s[j].label));
        }
        assert(first_labelled(s, t, b));
        let c = choose|c: int| first_labelled(s, t, c);
        if c != b {
            assert(label_text(s[b].label) != label_text(s[c].label));
        }
    }
}

} // verus!
