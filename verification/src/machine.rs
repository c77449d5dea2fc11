//! A machine as the cache and etcd hold it.

use vstd::prelude::*;
use crate::digest::{content_hash, content_hash_of};
use crate::record::Record;
use crate::order::{
    key_before, lemma_key_before_irreflexive, lemma_key_before_total,
    lemma_key_before_transitive, lemma_texts_before_three, Ordered,
};
use crate::text::{lemma_chars_before_irreflexive, string_before};

verus! {

/// A machine: its name, its IP address and its node type, with the hash that
/// marks its content.
#[derive(Debug, PartialEq, Eq, PartialOrd, Ord, Hash)]
pub struct Machine {
    hash_value: u64,
    name: String,
    ip: String,
    node_type: String,
}

/// What a machine holds.
pub struct MachineView {
    pub hash_value: u64,
    pub name: Seq<char>,
    pub ip: Seq<char>,
    pub node_type: Seq<char>,
}

impl View for Machine {
    type V = MachineView;

    closed spec fn view(&self) -> MachineView {
        MachineView {
            hash_value: self.hash_value,
            name: self.name@,
            ip: self.ip@,
            node_type: self.node_type@,
        }
    }
}

impl MachineView {
    /// The texts of a machine, in the order in which `Ord` compares them.
    pub open spec fn texts(self) -> Seq<Seq<char>> {
        seq![self.name, self.ip, self.node_type]
    }
}

impl Clone for Machine {
    fn clone(&self) -> (r: Self)
        ensures
            r == *self,
    {
        Machine {
            hash_value: self.hash_value,
            name: self.name.clone(),
            ip: self.ip.clone(),
            node_type: self.node_type.clone(),
        }
    }
}

impl Ordered for Machine {
    open spec fn before(a: MachineView, b: MachineView) -> bool {
        key_before(a.hash_value, a.texts(), b.hash_value, b.texts())
    }

    proof fn lemma_before_irreflexive(a: MachineView) {
        lemma_key_before_irreflexive(a.hash_value, a.texts());
    }

    proof fn lemma_before_transitive(a: MachineView, b: MachineView, c: MachineView) {
        lemma_key_before_transitive(
            a.hash_value,
            a.texts(),
            b.hash_value,
            b.texts(),
            c.hash_value,
            c.texts(),
        );
    }

    proof fn lemma_before_total(a: MachineView, b: MachineView) {
        if a.hash_value == b.hash_value && a.texts() == b.texts() {
            assert(a.texts()[0] == b.texts()[0]);
            assert(a.texts()[1] == b.texts()[1]);
            assert(a.texts()[2] == b.texts()[2]);
        }
        lemma_key_before_total(a.hash_value, a.texts(), b.hash_value, b.texts());
    }

    fn is_before(&self, other: &Self) -> (r: bool) {
        proof {
            lemma_texts_before_three(
                self.name@,
                self.ip@,
                self.node_type@,
                other.name@,
                other.ip@,
                other.node_type@,
            );
            lemma_chars_before_irreflexive(self.node_type@);
        }
        if self.hash_value != other.hash_value {
            self.hash_value < other.hash_value
        } else if self.name != other.name {
            string_before(&self.name, &other.name)
        } else if self.ip != other.ip {
            string_before(&self.ip, &other.ip)
        } else {
            string_before(&self.node_type, &other.node_type)
        }
    }
}

impl Record for Machine {
    open spec fn hash_of(v: MachineView) -> u64 {
        v.hash_value
    }

    open spec fn key_of(v: MachineView) -> Seq<char> {
        v.name
    }

    fn hash_value(&self) -> (r: u64) {
        self.hash_value
    }

    fn has_key(&self, key: &String) -> (r: bool) {
        self.name == *key
    }
}

impl Machine {
    pub fn new(hash_value: u64, name: String, ip: String, node_type: String) -> (m: Machine)
        ensures
            m@ == (MachineView { hash_value, name: name@, ip: ip@, node_type: node_type@ }),
    {
        Machine { hash_value, name, ip, node_type }
    }

    pub fn get_name(&self) -> (r: String)
        ensures
            r@ == self@.name,
    {
        self.name.clone()
    }

    pub fn get_ip(&self) -> (r: String)
        ensures
            r@ == self@.ip,
    {
        self.ip.clone()
    }

    pub fn get_node_type(&self) -> (r: String)
        ensures
            r@ == self@.node_type,
    {
        self.node_type.clone()
    }

    pub fn get_hash_value(&self) -> (r: u64)
        ensures
            r == self@.hash_value,
    {
        self.hash_value
    }

    /// Clears the hash.
    pub fn null_hash_value(&mut self)
        ensures
            final(self)@ == (MachineView { hash_value: 0, ..old(self)@ }),
    {
        self.hash_value = 0;
    }

    /// Sets the hash to the content hash of the machine as it stands (its
    /// current hash included, then its texts in the order of its fields);
    /// the fields other than the hash keep their values.
    pub fn set_hash(&mut self)
        ensures
            final(self)@ == (MachineView {
                hash_value: content_hash(old(self)@.hash_value, old(self)@.texts()),
                ..old(self)@
            }),
    {
        let texts: [&str; 3] = [self.name.as_str(), self.ip.as_str(), self.node_type.as_str()];
        let h = content_hash_of(self.hash_value, &texts);
        assert(texts@.map_values(|t: &str| t@) =~= self@.texts());
        self.hash_value = h;
    }
}

} // verus!
