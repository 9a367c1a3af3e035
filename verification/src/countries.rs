//! The country records of a run, at most one per name, in the order in which
//! the names first came in.

use vstd::prelude::*;
use crate::country::{Country, CountryView};
use crate::text::same_text;

verus! {

/// No two records carry the same name.
pub open spec fn distinct_names(s: Seq<CountryView>) -> bool {
    forall|i: int, j: int|
        0 <= i < s.len() && 0 <= j < s.len() && i != j ==> #[trigger] s[i].country
            != #[trigger] s[j].country
}

/// Some record carries the name.
pub open spec fn has_name(s: Seq<CountryView>, name: Seq<char>) -> bool {
    exists|i: int| 0 <= i < s.len() && #[trigger] s[i].country == name
}

/// Where the record with the name stands (meaningful when there is one).
pub open spec fn position(s: Seq<CountryView>, name: Seq<char>) -> int {
    choose|i: int| 0 <= i < s.len() && #[trigger] s[i].country == name
}

/// The records with `c` put in: in place of the record of the same name, or
/// behind all others when the name is new.
pub open spec fn put(s: Seq<CountryView>, c: CountryView) -> Seq<CountryView> {
    if has_name(s, c.country) {
        s.update(position(s, c.country), c)
    } else {
        s.push(c)
    }
}

/// The records by name, without their order.
pub open spec fn by_name(s: Seq<CountryView>) -> Map<Seq<char>, CountryView> {
    Map::new(|name: Seq<char>| has_name(s, name), |name: Seq<char>| s[position(s, name)])
}

/// Among distinct names, the record found under a name is the one that carries it.
pub proof fn lemma_position(s: Seq<CountryView>, i: int)
    requires
        distinct_names(s),
        0 <= i < s.len(),
    ensures
        has_name(s, s[i].country),
        position(s, s[i].country) == i,
{
    let name = s[i].country;
    let p = position(s, name);
    assert(0 <= p < s.len() && s[p].country == name);
    if p != i {
        assert(s[p].country != s[i].country);
    }
}

/// Putting a record in keeps the names distinct, and the record is then found
/// under its name; other names are found as before.
pub proof fn lemma_put(s: Seq<CountryView>, c: CountryView)
    requires
        distinct_names(s),
    ensures
        distinct_names(put(s, c)),
        by_name(put(s, c)) == by_name(s).insert(c.country, c),
{
    let t = put(s, c);
    if has_name(s, c.country) {
        let p = position(s, c.country);
        assert(0 <= p < s.len() && s[p].country == c.country);
        assert forall|i: int, j: int| 0 <= i < t.len() && 0 <= j < t.len() && i != j implies
            #[trigger] t[i].country != #[trigger] t[j].country by {
            assert(t[i].country == s[i].country);
            assert(t[j].country == s[j].country);
        }
    } else {
        assert forall|i: int, j: int| 0 <= i < t.len() && 0 <= j < t.len() && i != j implies
            #[trigger] t[i].country != #[trigger] t[j].country by {
            if i < s.len() {
                assert(t[i].country == s[i].country);
            }
            if j < s.len() {
                assert(t[j].country == s[j].country);
            }
        }
    }
    assert forall|name: Seq<char>| has_name(t, name) <==> (has_name(s, name) || name
        == c.country) by {
        if has_name(t, name) {
            let k = position(t, name);
            assert(0 <= k < t.len() && t[k].country == name);
            if name != c.country {
                assert(k < s.len());
                assert(s[k].country == name);
            }
        }
        if has_name(s, name) {
            let k = position(s, name);
            assert(0 <= k < s.len() && s[k].country == name);
            assert(t[k].country == name);
        }
        if name == c.country {
            if has_name(s, c.country) {
                let p = position(s, c.country);
                assert(0 <= p < s.len() && s[p].country == c.country);
                assert(t[p].country == name);
            } else {
                assert(t[s.len() as int].country == name);
            }
        }
    }
    assert forall|name: Seq<char>| has_name(t, name) implies #[trigger] by_name(t)[name]
        == by_name(s).insert(c.country, c)[name] by {
        let k = position(t, name);
        assert(0 <= k < t.len() && t[k].country == name);
        if name == c.country {
            if has_name(s, c.country) {
                let p = position(s, c.country);
                assert(0 <= p < s.len() && s[p].country == c.country);
                assert(t[p].country == name);
                if k != p {
                    assert(t[k].country != t[p].country);
                }
            } else {
                if k < s.len() {
                    assert(s[k].country == name);
                }
            }
        } else {
            assert(k < s.len() && s[k].country == name);
            lemma_position(s, k);
        }
    }
    assert(by_name(t) =~= by_name(s).insert(c.country, c));
}

/// A record that has been put in is found under its name.
pub proof fn lemma_found_after_put(s: Seq<CountryView>, c: CountryView)
    requires
        distinct_names(s),
    ensures
        has_name(put(s, c), c.country),
        put(s, c)[position(put(s, c), c.country)] == c,
{
    let t = put(s, c);
    lemma_put(s, c);
    if has_name(s, c.country) {
        let p = position(s, c.country);
        assert(0 <= p < s.len() && s[p].country == c.country);
        assert(t[p] == c);
        lemma_position(t, p);
    } else {
        assert(t[s.len() as int] == c);
        lemma_position(t, s.len() as int);
    }
}

/// Country records keyed by name. A name occurs at most once; the records
/// keep the order in which their names were first put in.
#[derive(Debug)]
pub struct CountryMap {
    records: Vec<Country>,
}

impl View for CountryMap {
    type V = Seq<CountryView>;

    closed spec fn view(&self) -> Seq<CountryView> {
        Seq::new(self.records@.len(), |i: int| self.records@[i]@)
    }
}

impl CountryMap {
    #[verifier::type_invariant]
    spec fn names_are_distinct(self) -> bool {
        distinct_names(self@)
    }

    /// A collection without records.
    pub fn new() -> (r: CountryMap)
        ensures
            r@ == Seq::<CountryView>::empty(),
    {
        let r = CountryMap { records: Vec::new() };
        assert(r@ =~= Seq::<CountryView>::empty());
        r
    }

    /// The number of records.
    pub fn len(&self) -> (n: usize)
        ensures
            n == self@.len(),
            distinct_names(self@),
    {
        proof {
            use_type_invariant(self);
        }
        self.records.len()
    }

    /// The record at place `i` of the stored order.
    pub fn at(&self, i: usize) -> (c: &Country)
        requires
            i < self@.len(),
        ensures
            c@ == self@[i as int],
    {
        &self.records[i]
    }

    /// The place of the record with the name, if there is one.
    pub fn find(&self, name: &str) -> (r: Option<usize>)
        ensures
            distinct_names(self@),
            match r {
                Some(i) => i < self@.len() && self@[i as int].country == name@ && has_name(
                    self@,
                    name@,
                ) && position(self@, name@) == i,
                None => !has_name(self@, name@),
            },
    {
        proof {
            use_type_invariant(self);
        }
        let n = self.records.len();
        let mut i: usize = 0;
        while i < n
            invariant
                i <= n,
                n == self.records@.len(),
                n == self@.len(),
                distinct_names(self@),
                forall|j: int| 0 <= j < n ==> self@[j] == (#[trigger] self.records@[j])@,
                forall|j: int| 0 <= j < i ==> (#[trigger] self@[j]).country != name@,
            decreases n - i,
        {
            if same_text(self.records[i].country.as_str(), name) {
                proof {
                    lemma_position(self@, i as int);
                }
                return Some(i);
            }
            i += 1;
        }
        None
    }

    /// Whether a record carries the name.
    pub fn contains_key(&self, name: &str) -> (b: bool)
        ensures
            b == has_name(self@, name@),
    {
        self.find(name).is_some()
    }

    /// The record with the name, if there is one.
    pub fn get(&self, name: &str) -> (r: Option<&Country>)
        ensures
            distinct_names(self@),
            match r {
                Some(c) => has_name(self@, name@) && c@ == self@[position(self@, name@)],
                None => !has_name(self@, name@),
            },
    {
        match self.find(name) {
            Some(i) => Some(&self.records[i]),
            None => None,
        }
    }

    /// Puts a record in: in place of the record of the same name, or behind
    /// all others when the name is new.
    pub fn insert(&mut self, country: Country)
        ensures
            final(self)@ == put(old(self)@, country@),
            distinct_names(final(self)@),
    {
        proof {
            use_type_invariant(&*self);
            lemma_put(self@, country@);
        }
        let ghost before = self@;
        let found = self.find(country.country.as_str());
        let mut taken = CountryMap { records: Vec::new() };
        assert(taken@ =~= Seq::<CountryView>::empty());
        core::mem::swap(self, &mut taken);
        let mut records = taken.records;
        match found {
            Some(i) => {
                records[i] = country;
            },
            None => {
                records.push(country);
            },
        }
        let ghost after = Seq::new(records@.len(), |i: int| records@[i]@);
        assert(after =~= put(before, country@));
        *self = CountryMap { records };
        assert(self@ =~= after);
    }
}

} // verus!
