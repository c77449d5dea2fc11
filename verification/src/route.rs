//! A route as the cache and etcd hold it.

use vstd::prelude::*;
use crate::digest::{content_hash, content_hash_of};
use crate::record::Record;
use crate::order::{
    key_before, lemma_key_before_irreflexive, lemma_key_before_total,
    lemma_key_before_transitive, lemma_texts_before_two, Ordered,
};
use crate::text::{lemma_chars_before_irreflexive, string_before};

verus! {

/// A route from a prefix to a next hop, with the hash that marks its
/// content.
#[derive(Debug, PartialEq, Eq, PartialOrd, Ord, Hash)]
pub struct Route {
    hash_value: u64,
    from: String,
    to: String,
}

/// What a route holds.
pub struct RouteView {
    pub hash_value: u64,
    pub from: Seq<char>,
    pub to: Seq<char>,
}

impl View for Route {
    type V = RouteView;

    closed spec fn view(&self) -> RouteView {
        RouteView { hash_value: self.hash_value, from: self.from@, to: self.to@ }
    }
}

impl RouteView {
    /// The texts of a route, in the order in which `Ord` compares them.
    pub open spec fn texts(self) -> Seq<Seq<char>> {
        seq![self.from, self.to]
    }
}

impl Clone for Route {
    fn clone(&self) -> (r: Self)
        ensures
            r == *self,
    {
        Route { hash_value: self.hash_value, from: self.from.clone(), to: self.to.clone() }
    }
}

impl Ordered for Route {
    open spec fn before(a: RouteView, b: RouteView) -> bool {
        key_before(a.hash_value, a.texts(), b.hash_value, b.texts())
    }

    proof fn lemma_before_irreflexive(a: RouteView) {
        lemma_key_before_irreflexive(a.hash_value, a.texts());
    }

    proof fn lemma_before_transitive(a: RouteView, b: RouteView, c: RouteView) {
        lemma_key_before_transitive(
            a.hash_value,
            a.texts(),
            b.hash_value,
            b.texts(),
            c.hash_value,
            c.texts(),
        );
    }

    proof fn lemma_before_total(a: RouteView, b: RouteView) {
        if a.hash_value == b.hash_value && a.texts() == b.texts() {
            assert(a.texts()[0] == b.texts()[0]);
            assert(a.texts()[1] == b.texts()[1]);
        }
        lemma_key_before_total(a.hash_value, a.texts(), b.hash_value, b.texts());
    }

    fn is_before(&self, other: &Self) -> (r: bool) {
        proof {
            lemma_texts_before_two(self.from@, self.to@, other.from@, other.to@);
            lemma_chars_before_irreflexive(self.to@);
        }
        if self.hash_value != other.hash_value {
            self.hash_value < other.hash_value
        } else if self.from != other.from {
            string_before(&self.from, &other.from)
        } else {
            string_before(&self.to, &other.to)
        }
    }
}

impl Record for Route {
    open spec fn hash_of(v: RouteView) -> u64 {
        v.hash_value
    }

    open spec fn key_of(v: RouteView) -> Seq<char> {
        v.from
    }

    fn hash_value(&self) -> (r: u64) {
        self.hash_value
    }

    fn has_key(&self, key: &String) -> (r: bool) {
        self.from == *key
    }
}

impl Route {
    /// A route with a zero hash.
    pub fn new(from: String, to: String) -> (r: Route)
        ensures
            r@ == (RouteView { hash_value: 0, from: from@, to: to@ }),
    {
        Route { hash_value: 0, from, to }
    }

    pub fn get_hash_value(&self) -> (r: u64)
        ensures
            r == self@.hash_value,
    {
        self.hash_value
    }

    pub fn get_from(&self) -> (r: String)
        ensures
            r@ == self@.from,
    {
        self.from.clone()
    }

    pub fn set_to(&mut self, to: String)
        ensures
            final(self)@ == (RouteView { to: to@, ..old(self)@ }),
    {
        self.to = to;
    }

    pub fn get_to(&self) -> (r: String)
        ensures
            r@ == self@.to,
    {
        self.to.clone()
    }

    /// Sets the hash to the content hash of the route as it stands (its
    /// current hash included, then its texts in the order of its fields);
    /// the fields other than the hash keep their values.
    pub fn set_hash(&mut self)
        ensures
            final(self)@ == (RouteView {
                hash_value: content_hash(old(self)@.hash_value, old(self)@.texts()),
                ..old(self)@
            }),
    {
        let texts: [&str; 2] = [self.from.as_str(), self.to.as_str()];
        let h = content_hash_of(self.hash_value, &texts);
        assert(texts@.map_values(|t: &str| t@) =~= self@.texts());
        self.hash_value = h;
    }
}

} // verus!
