//! A port as the cache and etcd hold it.

use vstd::prelude::*;
use crate::digest::{content_hash, content_hash_of};
use crate::record::Record;
use crate::order::{
    key_before, lemma_key_before_irreflexive, lemma_key_before_total,
    lemma_key_before_transitive, lemma_texts_before_two, Ordered,
};
use crate::text::{lemma_chars_before_irreflexive, string_before};

verus! {

/// A switch port and its state, with the hash that marks its content.
#[derive(Debug, PartialEq, Eq, PartialOrd, Ord, Hash)]
pub struct Port {
    hash_value: u64,
    id: String,
    state: String,
}

/// What a port holds.
pub struct PortView {
    pub hash_value: u64,
    pub id: Seq<char>,
    pub state: Seq<char>,
}

impl View for Port {
    type V = PortView;

    closed spec fn view(&self) -> PortView {
        PortView { hash_value: self.hash_value, id: self.id@, state: self.state@ }
    }
}

impl PortView {
    /// The texts of a port, in the order in which `Ord` compares them.
    pub open spec fn texts(self) -> Seq<Seq<char>> {
        seq![self.id, self.state]
    }
}

impl Clone for Port {
    fn clone(&self) -> (r: Self)
        ensures
            r == *self,
    {
        Port { hash_value: self.hash_value, id: self.id.clone(), state: self.state.clone() }
    }
}

impl Ordered for Port {
    open spec fn before(a: PortView, b: PortView) -> bool {
        key_before(a.hash_value, a.texts(), b.hash_value, b.texts())
    }

    proof fn lemma_before_irreflexive(a: PortView) {
        lemma_key_before_irreflexive(a.hash_value, a.texts());
    }

    proof fn lemma_before_transitive(a: PortView, b: PortView, c: PortView) {
        lemma_key_before_transitive(
            a.hash_value,
            a.texts(),
            b.hash_value,
            b.texts(),
            c.hash_value,
            c.texts(),
        );
    }

    proof fn lemma_before_total(a: PortView, b: PortView) {
        if a.hash_value == b.hash_value && a.texts() == b.texts() {
            assert(a.texts()[0] == b.texts()[0]);
            assert(a.texts()[1] == b.texts()[1]);
        }
        lemma_key_before_total(a.hash_value, a.texts(), b.hash_value, b.texts());
    }

    fn is_before(&self, other: &Self) -> (r: bool) {
        proof {
            lemma_texts_before_two(self.id@, self.state@, other.id@, other.state@);
            lemma_chars_before_irreflexive(self.state@);
        }
        if self.hash_value != other.hash_value {
            self.hash_value < other.hash_value
        } else if self.id != other.id {
            string_before(&self.id, &other.id)
        } else {
            string_before(&self.state, &other.state)
        }
    }
}

impl Record for Port {
    open spec fn hash_of(v: PortView) -> u64 {
        v.hash_value
    }

    open spec fn key_of(v: PortView) -> Seq<char> {
        v.id
    }

    fn hash_value(&self) -> (r: u64) {
        self.hash_value
    }

    fn has_key(&self, key: &String) -> (r: bool) {
        self.id == *key
    }
}

impl Port {
    /// A port with a zero hash.
    pub fn new(id: String, state: String) -> (r: Port)
        ensures
            r@ == (PortView { hash_value: 0, id: id@, state: state@ }),
    {
        Port { hash_value: 0, id, state }
    }

    pub fn get_hash_value(&self) -> (r: u64)
        ensures
            r == self@.hash_value,
    {
        self.hash_value
    }

    pub fn get_id(&self) -> (r: String)
        ensures
            r@ == self@.id,
    {
        self.id.clone()
    }

    pub fn set_state(&mut self, state: String)
        ensures
            final(self)@ == (PortView { state: state@, ..old(self)@ }),
    {
        self.state = state;
    }

    pub fn get_state(&self) -> (r: String)
        ensures
            r@ == self@.state,
    {
        self.state.clone()
    }

    /// Sets the hash to the content hash of the port as it stands (its
    /// current hash included, then its texts in the order of its fields);
    /// the fields other than the hash keep their values.
    pub fn set_hash(&mut self)
        ensures
            final(self)@ == (PortView {
                hash_value: content_hash(old(self)@.hash_value, old(self)@.texts()),
                ..old(self)@
            }),
    {
        let texts: [&str; 2] = [self.id.as_str(), self.state.as_str()];
        let h = content_hash_of(self.hash_value, &texts);
        assert(texts@.map_values(|t: &str| t@) =~= self@.texts());
        self.hash_value = h;
    }
}

} // verus!
