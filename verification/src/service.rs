//! A service as the cache and etcd hold it.

use vstd::prelude::*;
use crate::digest::{content_hash, content_hash_of};
use crate::record::Record;
use crate::order::{
    key_before, lemma_key_before_irreflexive, lemma_key_before_total,
    lemma_key_before_transitive, lemma_texts_before_three, Ordered,
};
use crate::text::{lemma_chars_before_irreflexive, string_before};

verus! {

/// A service: its name, the controller that runs it and the node it runs
/// on, with the hash that marks its content.
#[derive(Debug, PartialEq, Eq, PartialOrd, Ord, Hash)]
pub struct Service {
    hash_value: u64,
    name: String,
    controller: String,
    node_name: String,
}

/// What a service holds.
pub struct ServiceView {
    pub hash_value: u64,
    pub name: Seq<char>,
    pub controller: Seq<char>,
    pub node_name: Seq<char>,
}

impl View for Service {
    type V = ServiceView;

    closed spec fn view(&self) -> ServiceView {
        ServiceView {
            hash_value: self.hash_value,
            name: self.name@,
            controller: self.controller@,
            node_name: self.node_name@,
        }
    }
}

impl ServiceView {
    /// The texts of a service, in the order in which `Ord` compares them.
    pub open spec fn texts(self) -> Seq<Seq<char>> {
        seq![self.name, self.controller, self.node_name]
    }
}

impl Clone for Service {
    fn clone(&self) -> (r: Self)
        ensures
            r == *self,
    {
        Service {
            hash_value: self.hash_value,
            name: self.name.clone(),
            controller: self.controller.clone(),
            node_name: self.node_name.clone(),
        }
    }
}

impl Ordered for Service {
    open spec fn before(a: ServiceView, b: ServiceView) -> bool {
        key_before(a.hash_value, a.texts(), b.hash_value, b.texts())
    }

    proof fn lemma_before_irreflexive(a: ServiceView) {
        lemma_key_before_irreflexive(a.hash_value, a.texts());
    }

    proof fn lemma_before_transitive(a: ServiceView, b: ServiceView, c: ServiceView) {
        lemma_key_before_transitive(
            a.hash_value,
            a.texts(),
            b.hash_value,
            b.texts(),
            c.hash_value,
            c.texts(),
        );
    }

    proof fn lemma_before_total(a: ServiceView, b: ServiceView) {
        if a.hash_value == b.hash_value && a.texts() == b.texts() {
            assert(a.texts()[0] == b.texts()[0]);
            assert(a.texts()[1] == b.texts()[1]);
            assert(a.texts()[2] == b.texts()[2]);
        }
        lemma_key_before_total(a.hash_value, a.texts(), b.hash_value, b.texts());
    }

    fn is_before(&self, other: &Self) -> (r: bool) {
        proof {
            lemma_texts_before_three(
                self.name@,
                self.controller@,
                self.node_name@,
                other.name@,
                other.controller@,
                other.node_name@,
            );
            lemma_chars_before_irreflexive(self.node_name@);
        }
        if self.hash_value != other.hash_value {
            self.hash_value < other.hash_value
        } else if self.name != other.name {
            string_before(&self.name, &other.name)
        } else if self.controller != other.controller {
            string_before(&self.controller, &other.controller)
        } else {
            string_before(&self.node_name, &other.node_name)
        }
    }
}

impl Record for Service {
    open spec fn hash_of(v: ServiceView) -> u64 {
        v.hash_value
    }

    open spec fn key_of(v: ServiceView) -> Seq<char> {
        v.name
    }

    fn hash_value(&self) -> (r: u64) {
        self.hash_value
    }

    fn has_key(&self, key: &String) -> (r: bool) {
        self.name == *key
    }
}

impl Service {
    /// A service of the given hash, name and controller, on no node (an
    /// empty node name).
    pub fn new(hash_value: u64, name: String, controller: String) -> (s: Service)
        ensures
            s@ == (ServiceView {
                hash_value,
                name: name@,
                controller: controller@,
                node_name: Seq::empty(),
            }),
    {
        Service { hash_value, name, controller, node_name: String::new() }
    }

    /// A service with all its fields given.
    pub fn with_node(hash_value: u64, name: String, controller: String, node_name: String) -> (s: Service)
        ensures
            s@ == (ServiceView {
                hash_value,
                name: name@,
                controller: controller@,
                node_name: node_name@,
            }),
    {
        Service { hash_value, name, controller, node_name }
    }

    pub fn get_name(&self) -> (r: String)
        ensures
            r@ == self@.name,
    {
        self.name.clone()
    }

    pub fn get_controller(&self) -> (r: String)
        ensures
            r@ == self@.controller,
    {
        self.controller.clone()
    }

    pub fn get_node_name(&self) -> (r: String)
        ensures
            r@ == self@.node_name,
    {
        self.node_name.clone()
    }

    pub fn get_hash_value(&self) -> (r: u64)
        ensures
            r == self@.hash_value,
    {
        self.hash_value
    }

    /// Clears the hash.
    pub fn null_hash_value(&mut self)
        ensures
            final(self)@ == (ServiceView { hash_value: 0, ..old(self)@ }),
    {
        self.hash_value = 0;
    }

    /// Sets the hash to the content hash of the service as it stands (its
    /// current hash included, then its texts in the order of its fields);
    /// the fields other than the hash keep their values.
    pub fn set_hash(&mut self)
        ensures
            final(self)@ == (ServiceView {
                hash_value: content_hash(old(self)@.hash_value, old(self)@.texts()),
                ..old(self)@
            }),
    {
        let texts: [&str; 3] = [self.name.as_str(), self.controller.as_str(), self.node_name.as_str()];
        let h = content_hash_of(self.hash_value, &texts);
        assert(texts@.map_values(|t: &str| t@) =~= self@.texts());
        self.hash_value = h;
    }
}

} // verus!
