//! Collections keyed by column name: a set of names, and a map from names to texts
//! that lists its names in ascending order.
use vstd::prelude::*;
use vstd::string::*;

use crate::text::{chars_of, texts};

verus! {

/// `a` comes before `b` in the lexicographic order of their code points.
pub open spec fn before(a: Seq<char>, b: Seq<char>) -> bool
    decreases a.len(),
{
    if b.len() == 0 {
        false
    } else if a.len() == 0 {
        true
    } else if a[0] != b[0] {
        (a[0] as u32) < (b[0] as u32)
    } else {
        before(a.drop_first(), b.drop_first())
    }
}

/// No text comes before itself.
pub proof fn lemma_before_irreflexive(a: Seq<char>)
    ensures
        !before(a, a),
    decreases a.len(),
{
    if a.len() > 0 {
        lemma_before_irreflexive(a.drop_first());
    }
}

pub proof fn lemma_before_transitive(a: Seq<char>, b: Seq<char>, c: Seq<char>)
    requires
        before(a, b),
        before(b, c),
    ensures
        before(a, c),
    decreases a.len(),
{
    if a.len() > 0 && a[0] == b[0] && b[0] == c[0] {
        lemma_before_transitive(a.drop_first(), b.drop_first(), c.drop_first());
    }
}

/// Of two different texts one comes before the other.
pub proof fn lemma_before_total(a: Seq<char>, b: Seq<char>)
    ensures
        a == b || before(a, b) || before(b, a),
    decreases a.len(),
{
    if a.len() > 0 && b.len() > 0 && a[0] == b[0] {
        lemma_before_total(a.drop_first(), b.drop_first());
        if a.drop_first() == b.drop_first() {
            assert(a =~= seq![a[0]] + a.drop_first());
            assert(b =~= seq![b[0]] + b.drop_first());
        }
    } else if a.len() == 0 && b.len() == 0 {
        assert(a =~= b);
    } else if a.len() > 0 && b.len() > 0 {
        vstd::utf8::char_u32_cast(a[0], a[0] as u32);
        vstd::utf8::char_u32_cast(b[0], b[0] as u32);
    }
}

/// Each name comes before all that follow it.
pub open spec fn ascending(names: Seq<Seq<char>>) -> bool {
    forall|i: int, j: int|
        0 <= i < j < names.len() ==> before(#[trigger] names[i], #[trigger] names[j])
}

/// `names` lists the members of `all` in ascending order.
pub open spec fn lists(names: Seq<Seq<char>>, all: Set<Seq<char>>) -> bool {
    &&& ascending(names)
    &&& forall|s: Seq<char>| #[trigger] names.contains(s) <==> all.contains(s)
}

/// The members of `all` in ascending order.
pub open spec fn listing(all: Set<Seq<char>>) -> Seq<Seq<char>> {
    choose|names: Seq<Seq<char>>| lists(names, all)
}

/// A set has one listing at most.
pub proof fn lemma_listing_unique(a: Seq<Seq<char>>, b: Seq<Seq<char>>, all: Set<Seq<char>>)
    requires
        lists(a, all),
        lists(b, all),
    ensures
        a == b,
    decreases a.len(),
{
    if a.len() == 0 {
        if b.len() > 0 {
            assert(b.contains(b[0]));
            assert(a.contains(b[0]));
        }
        assert(a =~= b);
    } else {
        assert(a.contains(a[0]));
        assert(b.contains(a[0]));
        let i = choose|i: int| 0 <= i < b.len() && b[i] == a[0];
        assert(b.contains(b[0]));
        assert(a.contains(b[0]));
        let j = choose|j: int| 0 <= j < a.len() && a[j] == b[0];
        if i > 0 {
            lemma_before_irreflexive(a[0]);
            if j > 0 {
                lemma_before_transitive(a[0], b[0], a[0]);
            }
        }
        let rest = all.remove(a[0]);
        let x = a.drop_first();
        let y = b.drop_first();
        lemma_rest_lists(a, all);
        lemma_rest_lists(b, all);
        lemma_listing_unique(x, y, rest);
        assert(a =~= seq![a[0]] + x);
        assert(b =~= seq![b[0]] + y);
    }
}

proof fn lemma_rest_lists(a: Seq<Seq<char>>, all: Set<Seq<char>>)
    requires
        lists(a, all),
        a.len() > 0,
    ensures
        lists(a.drop_first(), all.remove(a[0])),
{
    let x = a.drop_first();
    let rest = all.remove(a[0]);
    assert forall|i: int, j: int| 0 <= i < j < x.len() implies before(
        #[trigger] x[i],
        #[trigger] x[j],
    ) by {
        assert(x[i] == a[i + 1] && x[j] == a[j + 1]);
    }
    assert forall|s: Seq<char>| #[trigger] x.contains(s) <==> rest.contains(s) by {
        if x.contains(s) {
            let i = choose|i: int| 0 <= i < x.len() && x[i] == s;
            assert(a[i + 1] == s);
            assert(a.contains(s));
            assert(before(a[0], a[i + 1]));
            lemma_before_irreflexive(a[0]);
        }
        if rest.contains(s) {
            assert(a.contains(s));
            let i = choose|i: int| 0 <= i < a.len() && a[i] == s;
            assert(x[i - 1] == s);
        }
    }
}

/// What lists a set is its listing.
pub proof fn lemma_listing(names: Seq<Seq<char>>, all: Set<Seq<char>>)
    requires
        lists(names, all),
    ensures
        listing(all) == names,
{
    lemma_listing_unique(listing(all), names, all);
}

/// `names` with `name` put in at its place.
spec fn put_in(names: Seq<Seq<char>>, name: Seq<char>) -> Seq<Seq<char>>
    decreases names.len(),
{
    if names.len() == 0 || before(name, names[0]) {
        seq![name] + names
    } else {
        seq![names[0]] + put_in(names.drop_first(), name)
    }
}

proof fn lemma_put_in(names: Seq<Seq<char>>, name: Seq<char>, all: Set<Seq<char>>)
    requires
        lists(names, all),
        !all.contains(name),
    ensures
        lists(put_in(names, name), all.insert(name)),
    decreases names.len(),
{
    let out = put_in(names, name);
    if names.len() == 0 || before(name, names[0]) {
        assert forall|i: int, j: int| 0 <= i < j < out.len() implies before(
            #[trigger] out[i],
            #[trigger] out[j],
        ) by {
            assert(out[j] == names[j - 1]);
            if i > 0 {
                assert(out[i] == names[i - 1]);
            } else if j > 1 {
                lemma_before_transitive(name, names[0], names[j - 1]);
            }
        }
        assert forall|s: Seq<char>| #[trigger] out.contains(s) <==> all.insert(name).contains(
            s,
        ) by {
            if names.contains(s) {
                let i = choose|i: int| 0 <= i < names.len() && names[i] == s;
                assert(out[i + 1] == s);
            }
            if s == name {
                assert(out[0] == s);
            }
            if out.contains(s) {
                let i = choose|i: int| 0 <= i < out.len() && out[i] == s;
                assert(i == 0 || names[i - 1] == s);
            }
            assert(names.contains(s) <==> all.contains(s));
        }
    } else {
        let first = names[0];
        let rest = names.drop_first();
        let more = put_in(rest, name);
        assert(names.contains(first));
        lemma_rest_lists(names, all);
        lemma_put_in(rest, name, all.remove(first));
        lemma_before_total(name, first);
        assert forall|s: Seq<char>| #[trigger] more.contains(s) implies before(first, s) by {
            assert(all.remove(first).insert(name).contains(s));
            if s != name {
                assert(rest.contains(s));
                let i = choose|i: int| 0 <= i < rest.len() && rest[i] == s;
                assert(rest[i] == names[i + 1]);
            }
        }
        assert forall|i: int, j: int| 0 <= i < j < out.len() implies before(
            #[trigger] out[i],
            #[trigger] out[j],
        ) by {
            assert(out[j] == more[j - 1]);
            assert(more.contains(out[j]));
            if i > 0 {
                assert(out[i] == more[i - 1]);
            }
        }
        assert forall|s: Seq<char>| #[trigger] out.contains(s) <==> all.insert(name).contains(
            s,
        ) by {
            if more.contains(s) {
                let i = choose|i: int| 0 <= i < more.len() && more[i] == s;
                assert(out[i + 1] == s);
            }
            if s == first {
                assert(out[0] == s);
            }
            if out.contains(s) {
                let i = choose|i: int| 0 <= i < out.len() && out[i] == s;
                assert(i == 0 || more[i - 1] == s);
            }
            assert(more.contains(s) <==> all.remove(first).insert(name).contains(s));
        }
    }
}

/// A listing is as long as its set.
pub proof fn lemma_listed_len(names: Seq<Seq<char>>, all: Set<Seq<char>>)
    requires
        lists(names, all),
    ensures
        all.finite(),
        names.len() == all.len(),
{
    assert(names.no_duplicates()) by {
        assert forall|i: int, j: int| 0 <= i < j < names.len() implies names[i] != names[j] by {
            assert(before(names[i], names[j]));
            lemma_before_irreflexive(names[i]);
        }
    }
    names.unique_seq_to_set();
    assert forall|s: Seq<char>| names.to_set().contains(s) <==> all.contains(s) by {
        assert(names.contains(s) <==> all.contains(s));
    }
    assert(names.to_set() =~= all);
}

/// Every finite set has a listing, which holds its members and no others.
pub proof fn lemma_finite_set_is_listed(all: Set<Seq<char>>)
    requires
        all.finite(),
    ensures
        lists(listing(all), all),
    decreases all.len(),
{
    if all.len() == 0 {
        let none = Seq::<Seq<char>>::empty();
        assert(all =~= Set::empty());
        assert(lists(none, all));
        lemma_listing(none, all);
    } else {
        let name = all.choose();
        let rest = all.remove(name);
        lemma_finite_set_is_listed(rest);
        lemma_put_in(listing(rest), name, rest);
        assert(rest.insert(name) =~= all);
        lemma_listing(put_in(listing(rest), name), all);
    }
}

pub proof fn lemma_push_contains(s: Seq<Seq<char>>, x: Seq<char>)
    ensures
        forall|t: Seq<char>| #[trigger] s.push(x).contains(t) <==> s.contains(t) || t == x,
{
    broadcast use vstd::seq_lib::lemma_seq_contains_after_push;

}

/// Whether `a` comes before `b`.
pub fn is_before(a: &str, b: &str) -> (r: bool)
    ensures
        r == before(a@, b@),
{
    let x = chars_of(a);
    let y = chars_of(b);
    let mut i: usize = 0;
    assert(a@.skip(0) =~= a@);
    assert(b@.skip(0) =~= b@);
    while i < x.len() && i < y.len() && x[i] == y[i]
        invariant
            x@ == a@,
            y@ == b@,
            i <= x@.len(),
            i <= y@.len(),
            before(a@.skip(i as int), b@.skip(i as int)) == before(a@, b@),
        decreases x@.len() - i,
    {
        assert(a@.skip(i as int).drop_first() =~= a@.skip(i + 1));
        assert(b@.skip(i as int).drop_first() =~= b@.skip(i + 1));
        i += 1;
    }
    if i >= y.len() {
        false
    } else if i >= x.len() {
        true
    } else {
        (x[i] as u32) < (y[i] as u32)
    }
}

/// Whether `name` is among `names`.
pub fn contains_name(names: &Vec<String>, name: &String) -> (r: bool)
    ensures
        r == texts(names@).contains(name@),
{
    let mut i: usize = 0;
    while i < names.len()
        invariant
            i <= names@.len(),
            forall|j: int| 0 <= j < i ==> texts(names@)[j] != name@,
        decreases names@.len() - i,
    {
        if names[i] == *name {
            assert(texts(names@)[i as int] == name@);
            return true;
        }
        i += 1;
    }
    false
}

/// The names of a list of entries.
pub open spec fn entry_names(e: Seq<(String, String)>) -> Seq<Seq<char>> {
    Seq::new(e.len(), |i: int| e[i].0@)
}

/// What a list of entries maps each of its names to.
pub open spec fn mapping(e: Seq<(String, String)>) -> Map<Seq<char>, Seq<char>> {
    Map::new(
        |name: Seq<char>| entry_names(e).contains(name),
        |name: Seq<char>| e[entry_names(e).index_of(name)].1@,
    )
}

proof fn lemma_mapping(e: Seq<(String, String)>)
    requires
        ascending(entry_names(e)),
    ensures
        forall|i: int|
            0 <= i < e.len() ==> mapping(e).contains_key(#[trigger] e[i].0@) && mapping(
                e,
            )[e[i].0@] == e[i].1@,
        forall|name: Seq<char>| #[trigger]
            mapping(e).contains_key(name) ==> exists|i: int|
                0 <= i < e.len() && #[trigger] e[i].0@ == name,
        lists(entry_names(e), mapping(e).dom()),
{
    let names = entry_names(e);
    assert forall|i: int| 0 <= i < e.len() implies mapping(e).contains_key(#[trigger] e[i].0@)
        && mapping(e)[e[i].0@] == e[i].1@ by {
        assert(names[i] == e[i].0@);
        assert(names.contains(names[i]));
        let j = names.index_of(names[i]);
        if i < j {
            assert(before(names[i], names[j]));
        } else if j < i {
            assert(before(names[j], names[i]));
        }
        lemma_before_irreflexive(names[i]);
    }
    assert forall|name: Seq<char>| #[trigger] mapping(e).contains_key(name) implies exists|i: int|
        0 <= i < e.len() && #[trigger] e[i].0@ == name by {
        let i = choose|i: int| 0 <= i < names.len() && names[i] == name;
        assert(e[i].0@ == name);
    }
}

/// The part of `m` whose names are among `names`.
pub open spec fn kept_of(m: Map<Seq<char>, Seq<char>>, names: Seq<Seq<char>>) -> Map<
    Seq<char>,
    Seq<char>,
> {
    Map::new(|s: Seq<char>| m.contains_key(s) && names.contains(s), |s: Seq<char>| m[s])
}

proof fn lemma_mapping_take(e: Seq<(String, String)>, i: int)
    requires
        ascending(entry_names(e)),
        0 <= i < e.len(),
    ensures
        mapping(e.take(i + 1)) == mapping(e.take(i)).insert(e[i].0@, e[i].1@),
        !mapping(e.take(i)).contains_key(e[i].0@),
{
    let a = e.take(i);
    let b = e.take(i + 1);
    let names = entry_names(e);
    assert forall|j: int, k: int| 0 <= j < k < b.len() implies before(
        #[trigger] entry_names(b)[j],
        #[trigger] entry_names(b)[k],
    ) by {
        assert(before(names[j], names[k]));
    }
    assert(entry_names(a) =~= entry_names(b).take(i));
    lemma_mapping(a);
    lemma_mapping(b);
    lemma_before_irreflexive(e[i].0@);
    assert forall|s: Seq<char>| #[trigger]
        mapping(b).contains_key(s) <==> mapping(a).contains_key(s) || s == e[i].0@ by {
        if mapping(a).contains_key(s) {
            let j = choose|j: int| 0 <= j < a.len() && #[trigger] a[j].0@ == s;
            assert(b[j].0@ == s);
        }
        if s == e[i].0@ {
            assert(b[i].0@ == s);
        }
        if mapping(b).contains_key(s) && s != e[i].0@ {
            let j = choose|j: int| 0 <= j < b.len() && #[trigger] b[j].0@ == s;
            assert(a[j].0@ == s);
        }
    }
    if mapping(a).contains_key(e[i].0@) {
        let j = choose|j: int| 0 <= j < a.len() && #[trigger] a[j].0@ == e[i].0@;
        assert(before(names[j], names[i]));
    }
    assert forall|s: Seq<char>| #[trigger] mapping(b).contains_key(s) implies mapping(b)[s]
        == mapping(a).insert(e[i].0@, e[i].1@)[s] by {
        let j = choose|j: int| 0 <= j < b.len() && #[trigger] b[j].0@ == s;
        if j < i {
            assert(a[j] == b[j]);
            assert(before(names[j], names[i]));
            assert(a[j].0@ == s);
        }
    }
    assert(mapping(b) =~= mapping(a).insert(e[i].0@, e[i].1@));
}

/// A map from column names to texts.
#[derive(Debug, PartialEq, Eq)]
pub struct NameMap {
    entries: Vec<(String, String)>,
}

impl View for NameMap {
    type V = Map<Seq<char>, Seq<char>>;

    closed spec fn view(&self) -> Map<Seq<char>, Seq<char>> {
        mapping(self.entries@)
    }
}

impl NameMap {
    #[verifier::type_invariant]
    closed spec fn wf(self) -> bool {
        ascending(entry_names(self.entries@))
    }

    pub fn new() -> (m: Self)
        ensures
            m@ == Map::<Seq<char>, Seq<char>>::empty(),
    {
        let m = NameMap { entries: Vec::new() };
        assert(m@ =~= Map::<Seq<char>, Seq<char>>::empty());
        m
    }

    pub fn len(&self) -> (n: usize)
        ensures
            n == listing(self@.dom()).len(),
            n == self@.dom().len(),
            self@.dom().finite(),
    {
        proof {
            use_type_invariant(self);
            lemma_mapping(self.entries@);
            lemma_listing(entry_names(self.entries@), self@.dom());
            lemma_listed_len(entry_names(self.entries@), self@.dom());
        }
        self.entries.len()
    }

    pub fn is_empty(&self) -> (r: bool)
        ensures
            r == (self@ == Map::<Seq<char>, Seq<char>>::empty()),
    {
        proof {
            use_type_invariant(self);
            lemma_mapping(self.entries@);
            if self.entries@.len() > 0 {
                assert(self@.contains_key(self.entries@[0].0@));
            } else {
                assert(self@ =~= Map::<Seq<char>, Seq<char>>::empty());
            }
        }
        self.entries.len() == 0
    }

    /// The entry at place `i` of the listing.
    pub fn entry(&self, i: usize) -> (e: (&String, &String))
        requires
            i < listing(self@.dom()).len(),
        ensures
            e.0@ == listing(self@.dom())[i as int],
            self@.contains_key(e.0@),
            e.1@ == self@[e.0@],
    {
        proof {
            use_type_invariant(self);
            lemma_mapping(self.entries@);
            lemma_listing(entry_names(self.entries@), self@.dom());
        }
        let e = &self.entries[i];
        (&e.0, &e.1)
    }

    /// The first place whose name does not come before `name`.
    fn slot(&self, name: &String) -> (i: usize)
        ensures
            i <= self.entries@.len(),
            forall|j: int| 0 <= j < i ==> before(#[trigger] self.entries@[j].0@, name@),
            i < self.entries@.len() ==> !before(self.entries@[i as int].0@, name@),
    {
        let mut i: usize = 0;
        while i < self.entries.len() && is_before(self.entries[i].0.as_str(), name.as_str())
            invariant
                i <= self.entries@.len(),
                forall|j: int| 0 <= j < i ==> before(#[trigger] self.entries@[j].0@, name@),
            decreases self.entries@.len() - i,
        {
            i += 1;
        }
        i
    }

    /// A name that is not at its slot is nowhere.
    proof fn lemma_slot(e: Seq<(String, String)>, name: Seq<char>, i: int)
        requires
            ascending(entry_names(e)),
            0 <= i <= e.len(),
            forall|j: int| 0 <= j < i ==> before(#[trigger] e[j].0@, name),
            i < e.len() ==> !before(e[i].0@, name),
            i < e.len() ==> e[i].0@ != name,
        ensures
            forall|j: int| i <= j < e.len() ==> before(name, #[trigger] e[j].0@),
            forall|j: int| 0 <= j < e.len() ==> #[trigger] e[j].0@ != name,
            !mapping(e).contains_key(name),
    {
        lemma_before_irreflexive(name);
        assert forall|j: int| i <= j < e.len() implies before(name, #[trigger] e[j].0@) by {
            lemma_before_total(name, e[i].0@);
            if i < j {
                assert(before(entry_names(e)[i], entry_names(e)[j]));
                lemma_before_transitive(name, e[i].0@, e[j].0@);
            }
        }
        lemma_mapping(e);
    }

    pub fn get(&self, name: &String) -> (v: Option<&String>)
        ensures
            v is Some == self@.contains_key(name@),
            v matches Some(t) ==> t@ == self@[name@],
    {
        let i = self.slot(name);
        proof {
            use_type_invariant(self);
            lemma_mapping(self.entries@);
        }
        if i < self.entries.len() && self.entries[i].0 == *name {
            Some(&self.entries[i].1)
        } else {
            proof {
                Self::lemma_slot(self.entries@, name@, i as int);
            }
            None
        }
    }

    /// Maps `name` to `value`, whatever it was mapped to before.
    pub fn insert(&mut self, name: String, value: String)
        ensures
            final(self)@ == old(self)@.insert(name@, value@),
    {
        proof {
            use_type_invariant(&*self);
            lemma_mapping(self.entries@);
        }
        let i = self.slot(&name);
        let mut entries: Vec<(String, String)> = Vec::new();
        std::mem::swap(&mut entries, &mut self.entries);
        let ghost e0 = entries@;
        let ghost n0 = entry_names(e0);
        if i < entries.len() && entries[i].0 == name {
            let ghost at = (name, value);
            entries[i] = (name, value);
            proof {
                assert(entries@ =~= e0.update(i as int, at));
                assert(entry_names(entries@) =~= n0);
                lemma_mapping(entries@);
                assert forall|s: Seq<char>| mapping(e0).insert(at.0@, at.1@).contains_key(s)
                    == mapping(entries@).contains_key(s) by {
                    assert(e0[i as int].0@ == at.0@);
                }
                assert forall|s: Seq<char>| #[trigger] mapping(entries@).contains_key(s) implies
                    mapping(e0).insert(at.0@, at.1@)[s] == mapping(entries@)[s] by {
                    let j = choose|j: int| 0 <= j < entries@.len() && #[trigger] entries@[j].0@ == s;
                    assert(n0[j] == e0[j].0@ && entry_names(entries@)[j] == n0[j]);
                    if j != i {
                        if j < i {
                            assert(before(n0[j], n0[i as int]));
                        } else {
                            assert(before(n0[i as int], n0[j]));
                        }
                        lemma_before_irreflexive(s);
                        assert(entries@[j] == e0[j]);
                    }
                }
                assert(mapping(entries@) =~= mapping(e0).insert(at.0@, at.1@));
            }
        } else {
            proof {
                Self::lemma_slot(e0, name@, i as int);
            }
            let ghost at = (name, value);
            entries.insert(i, (name, value));
            proof {
                let e1 = entries@;
                let n1 = entry_names(e1);
                assert(e1 =~= e0.insert(i as int, at));
                assert forall|j: int, k: int| 0 <= j < k < n1.len() implies before(
                    #[trigger] n1[j],
                    #[trigger] n1[k],
                ) by {
                    let jj = if j < i { j } else { j - 1 };
                    let kk = if k < i { k } else { k - 1 };
                    if j != i {
                        assert(e1[j] == e0[jj]);
                    }
                    if k != i {
                        assert(e1[k] == e0[kk]);
                    }
                    if j != i && k != i {
                        assert(before(n0[jj], n0[kk]));
                    }
                }
                lemma_mapping(e1);
                assert forall|s: Seq<char>| mapping(e0).insert(at.0@, at.1@).contains_key(s)
                    == mapping(e1).contains_key(s) by {
                    if mapping(e0).contains_key(s) {
                        let j = choose|j: int| 0 <= j < e0.len() && #[trigger] e0[j].0@ == s;
                        let jj = if j < i { j } else { j + 1 };
                        assert(e1[jj] == e0[j]);
                    }
                    if s == at.0@ {
                        assert(e1[i as int] == at);
                    }
                    if mapping(e1).contains_key(s) && s != at.0@ {
                        let j = choose|j: int| 0 <= j < e1.len() && #[trigger] e1[j].0@ == s;
                        let jj = if j < i { j } else { j - 1 };
                        assert(e1[j] == e0[jj]);
                    }
                }
                assert forall|s: Seq<char>| #[trigger] mapping(e1).contains_key(s) implies mapping(
                    e0,
                ).insert(at.0@, at.1@)[s] == mapping(e1)[s] by {
                    let j = choose|j: int| 0 <= j < e1.len() && #[trigger] e1[j].0@ == s;
                    let jj = if j < i { j } else { j - 1 };
                    if j != i {
                        assert(e1[j] == e0[jj]);
                    }
                }
                assert(mapping(e1) =~= mapping(e0).insert(at.0@, at.1@));
            }
        }
        self.entries = entries;
    }

    /// Takes `name` out of the map.
    pub fn remove(&mut self, name: &String)
        ensures
            final(self)@ == old(self)@.remove(name@),
    {
        proof {
            use_type_invariant(&*self);
            lemma_mapping(self.entries@);
        }
        let i = self.slot(name);
        if i < self.entries.len() && self.entries[i].0 == *name {
            let mut entries: Vec<(String, String)> = Vec::new();
            std::mem::swap(&mut entries, &mut self.entries);
            let ghost e0 = entries@;
            let gone = entries.remove(i);
            proof {
                let e1 = entries@;
                let n0 = entry_names(e0);
                let n1 = entry_names(e1);
                assert(e1 =~= e0.remove(i as int));
                assert(n1 =~= n0.remove(i as int));
                assert forall|j: int, k: int| 0 <= j < k < n1.len() implies before(
                    #[trigger] n1[j],
                    #[trigger] n1[k],
                ) by {
                    let jj = if j < i { j } else { j + 1 };
                    let kk = if k < i { k } else { k + 1 };
                    assert(before(n0[jj], n0[kk]));
                }
                lemma_mapping(e1);
                assert forall|s: Seq<char>| mapping(e0).remove(name@).contains_key(s) == mapping(
                    e1,
                ).contains_key(s) by {
                    if mapping(e0).contains_key(s) && s != name@ {
                        let j = choose|j: int| 0 <= j < e0.len() && #[trigger] e0[j].0@ == s;
                        let jj = if j < i { j } else { j - 1 };
                        assert(e1[jj] == e0[j]);
                    }
                    if mapping(e1).contains_key(s) {
                        let j = choose|j: int| 0 <= j < e1.len() && #[trigger] e1[j].0@ == s;
                        let jj = if j < i { j } else { j + 1 };
                        assert(e1[j] == e0[jj]);
                        assert(n0[jj] == s && n0[i as int] == name@);
                        lemma_before_irreflexive(s);
                    }
                }
                assert forall|s: Seq<char>| #[trigger] mapping(e1).contains_key(s) implies mapping(
                    e0,
                ).remove(name@)[s] == mapping(e1)[s] by {
                    let j = choose|j: int| 0 <= j < e1.len() && #[trigger] e1[j].0@ == s;
                    let jj = if j < i { j } else { j + 1 };
                    assert(e1[j] == e0[jj]);
                }
                assert(mapping(e1) =~= mapping(e0).remove(name@));
            }
            self.entries = entries;
        } else {
            proof {
                Self::lemma_slot(self.entries@, name@, i as int);
                assert(self@ =~= old(self)@.remove(name@));
            }
        }
    }

    /// Takes all names out of the map.
    pub fn clear(&mut self)
        ensures
            final(self)@ == Map::<Seq<char>, Seq<char>>::empty(),
    {
        self.entries = Vec::new();
        assert(self@ =~= Map::<Seq<char>, Seq<char>>::empty());
    }

    /// Keeps only what is mapped from a name that `names` holds.
    pub fn retain(&mut self, names: &Vec<String>)
        ensures
            final(self)@ == kept_of(old(self)@, texts(names@)),
    {
        proof {
            use_type_invariant(&*self);
            lemma_mapping(self.entries@);
        }
        let ghost e0 = self.entries@;
        let mut kept = NameMap::new();
        let mut i: usize = 0;
        assert(kept@ =~= kept_of(mapping(e0.take(0)), texts(names@)));
        while i < self.entries.len()
            invariant
                e0 == self.entries@,
                ascending(entry_names(e0)),
                i <= e0.len(),
                kept@ == kept_of(mapping(e0.take(i as int)), texts(names@)),
            decreases e0.len() - i,
        {
            proof {
                lemma_mapping_take(e0, i as int);
            }
            if contains_name(names, &self.entries[i].0) {
                kept.insert(self.entries[i].0.clone(), self.entries[i].1.clone());
            }
            assert(kept@ =~= kept_of(mapping(e0.take(i + 1)), texts(names@)));
            i += 1;
        }
        assert(e0.take(i as int) =~= e0);
        *self = kept;
    }
}

impl Clone for NameMap {
    fn clone(&self) -> (m: Self)
        ensures
            m@ == self@,
    {
        proof {
            use_type_invariant(self);
        }
        let mut entries: Vec<(String, String)> = Vec::new();
        let mut i: usize = 0;
        while i < self.entries.len()
            invariant
                i <= self.entries@.len(),
                entries@ == self.entries@.take(i as int),
            decreases self.entries@.len() - i,
        {
            entries.push((self.entries[i].0.clone(), self.entries[i].1.clone()));
            assert(self.entries@.take(i + 1) =~= self.entries@.take(i as int).push(
                self.entries@[i as int],
            ));
            i += 1;
        }
        assert(self.entries@.take(i as int) =~= self.entries@);
        NameMap { entries }
    }
}

/// A set of column names: those that a map has, each with no text.
#[derive(Debug, PartialEq, Eq)]
pub struct NameSet {
    names: NameMap,
}

impl View for NameSet {
    type V = Set<Seq<char>>;

    closed spec fn view(&self) -> Set<Seq<char>> {
        self.names@.dom()
    }
}

impl NameSet {
    pub fn new() -> (s: Self)
        ensures
            s@ == Set::<Seq<char>>::empty(),
    {
        let s = NameSet { names: NameMap::new() };
        assert(s@ =~= Set::<Seq<char>>::empty());
        s
    }

    pub fn len(&self) -> (n: usize)
        ensures
            n == self@.len(),
            self@.finite(),
    {
        self.names.len()
    }

    pub fn contains(&self, name: &String) -> (r: bool)
        ensures
            r == self@.contains(name@),
    {
        self.names.get(name).is_some()
    }

    /// Adds `name`; tells whether it was new.
    pub fn insert(&mut self, name: String) -> (new: bool)
        ensures
            final(self)@ == old(self)@.insert(name@),
            new == !old(self)@.contains(name@),
    {
        let new = !self.contains(&name);
        self.names.insert(name, String::new());
        assert(self@ =~= old(self)@.insert(name@));
        new
    }

    /// Takes `name` out; tells whether it was there.
    pub fn remove(&mut self, name: &String) -> (there: bool)
        ensures
            final(self)@ == old(self)@.remove(name@),
            there == old(self)@.contains(name@),
    {
        let there = self.contains(name);
        self.names.remove(name);
        assert(self@ =~= old(self)@.remove(name@));
        there
    }

    /// Keeps only the members that `names` holds.
    pub fn retain(&mut self, names: &Vec<String>)
        ensures
            final(self)@ == old(self)@.filter(|s: Seq<char>| texts(names@).contains(s)),
    {
        self.names.retain(names);
        assert(self@ =~= old(self)@.filter(|s: Seq<char>| texts(names@).contains(s)));
    }
}

impl Clone for NameSet {
    fn clone(&self) -> (s: Self)
        ensures
            s@ == self@,
    {
        NameSet { names: self.names.clone() }
    }
}

} // verus!
