//! What the cache and the change detection read of a record: its hash, and
//! the text by which a record is looked up (a service's or machine's name, a
//! route's origin, a port's id).

use vstd::prelude::*;
use crate::order::{views, Ordered};

verus! {

/// A record of the cache.
pub trait Record: Ordered {
    /// The record's hash.
    spec fn hash_of(v: Self::V) -> u64;

    /// The text by which the record is looked up.
    spec fn key_of(v: Self::V) -> Seq<char>;

    fn hash_value(&self) -> (r: u64)
        ensures
            r == Self::hash_of(self@),
    ;

    /// Whether the record's lookup text is `key`.
    fn has_key(&self, key: &String) -> (r: bool)
        ensures
            r == (Self::key_of(self@) == key@),
    ;
}

/// The index of the first record of `s` with hash `h`, or -1 if there is
/// none.
pub open spec fn first_with_hash<T: Record>(s: Seq<T::V>, h: u64) -> int
    decreases s.len(),
{
    if s.len() == 0 {
        -1
    } else if T::hash_of(s[0]) == h {
        0
    } else {
        let r = first_with_hash::<T>(s.drop_first(), h);
        if r < 0 {
            -1
        } else {
            r + 1
        }
    }
}

/// The index of the first record of `s` whose lookup text is `key`, or -1
/// if there is none.
pub open spec fn first_with_key<T: Record>(s: Seq<T::V>, key: Seq<char>) -> int
    decreases s.len(),
{
    if s.len() == 0 {
        -1
    } else if T::key_of(s[0]) == key {
        0
    } else {
        let r = first_with_key::<T>(s.drop_first(), key);
        if r < 0 {
            -1
        } else {
            r + 1
        }
    }
}

/// The hash of the first record of `s` whose lookup text is `key`, or 0 if
/// there is none.
pub open spec fn current_hash<T: Record>(s: Seq<T::V>, key: Seq<char>) -> u64 {
    let i = first_with_key::<T>(s, key);
    if i < 0 {
        0
    } else {
        T::hash_of(s[i])
    }
}

/// `s` without its first record of hash `h`, if it has one.
pub open spec fn remove_first_with_hash<T: Record>(s: Seq<T::V>, h: u64) -> Option<Seq<T::V>> {
    let i = first_with_hash::<T>(s, h);
    if i < 0 {
        None
    } else {
        Some(s.remove(i))
    }
}

/// `s` without its first record whose lookup text is `key`, if it has one.
pub open spec fn without_first_key<T: Record>(s: Seq<T::V>, key: Seq<char>) -> Seq<T::V> {
    let i = first_with_key::<T>(s, key);
    if i < 0 {
        s
    } else {
        s.remove(i)
    }
}

/// What `first_with_hash` is.
pub proof fn lemma_first_with_hash<T: Record>(s: Seq<T::V>, h: u64)
    ensures
        -1 <= first_with_hash::<T>(s, h) < s.len(),
        first_with_hash::<T>(s, h) >= 0 ==> T::hash_of(s[first_with_hash::<T>(s, h)]) == h,
        forall|j: int|
            0 <= j < s.len() && (first_with_hash::<T>(s, h) < 0 || j < first_with_hash::<T>(s, h))
                ==> T::hash_of(#[trigger] s[j]) != h,
    decreases s.len(),
{
    if s.len() > 0 && T::hash_of(s[0]) != h {
        lemma_first_with_hash::<T>(s.drop_first(), h);
        assert forall|j: int|
            0 <= j < s.len() && (first_with_hash::<T>(s, h) < 0 || j < first_with_hash::<T>(s, h))
                implies T::hash_of(#[trigger] s[j]) != h by {
            if j > 0 {
                assert(s[j] == s.drop_first()[j - 1]);
            }
        }
    }
}

/// An index with the properties of `lemma_first_with_hash` is
/// `first_with_hash`.
pub proof fn lemma_first_with_hash_unique<T: Record>(s: Seq<T::V>, h: u64, i: int)
    requires
        -1 <= i < s.len(),
        i >= 0 ==> T::hash_of(s[i]) == h,
        forall|j: int| 0 <= j < s.len() && (i < 0 || j < i) ==> T::hash_of(#[trigger] s[j]) != h,
    ensures
        first_with_hash::<T>(s, h) == i,
    decreases s.len(),
{
    if s.len() > 0 && i != 0 {
        assert(T::hash_of(s[0]) != h);
        assert forall|j: int|
            0 <= j < s.drop_first().len() && (i - 1 < 0 || j < i - 1) implies T::hash_of(
            #[trigger] s.drop_first()[j],
        ) != h by {
            assert(s.drop_first()[j] == s[j + 1]);
        }
        if i < 0 {
            lemma_first_with_hash_unique::<T>(s.drop_first(), h, -1);
        } else {
            lemma_first_with_hash_unique::<T>(s.drop_first(), h, i - 1);
        }
    }
}

/// What `first_with_key` is.
pub proof fn lemma_first_with_key<T: Record>(s: Seq<T::V>, key: Seq<char>)
    ensures
        -1 <= first_with_key::<T>(s, key) < s.len(),
        first_with_key::<T>(s, key) >= 0 ==> T::key_of(s[first_with_key::<T>(s, key)]) == key,
        forall|j: int|
            0 <= j < s.len() && (first_with_key::<T>(s, key) < 0 || j < first_with_key::<T>(s, key))
                ==> T::key_of(#[trigger] s[j]) != key,
    decreases s.len(),
{
    if s.len() > 0 && T::key_of(s[0]) != key {
        lemma_first_with_key::<T>(s.drop_first(), key);
        assert forall|j: int|
            0 <= j < s.len() && (first_with_key::<T>(s, key) < 0 || j < first_with_key::<T>(s, key))
                implies T::key_of(#[trigger] s[j]) != key by {
            if j > 0 {
                assert(s[j] == s.drop_first()[j - 1]);
            }
        }
    }
}

/// An index with the properties of `lemma_first_with_key` is
/// `first_with_key`.
pub proof fn lemma_first_with_key_unique<T: Record>(s: Seq<T::V>, key: Seq<char>, i: int)
    requires
        -1 <= i < s.len(),
        i >= 0 ==> T::key_of(s[i]) == key,
        forall|j: int| 0 <= j < s.len() && (i < 0 || j < i) ==> T::key_of(#[trigger] s[j]) != key,
    ensures
        first_with_key::<T>(s, key) == i,
    decreases s.len(),
{
    if s.len() > 0 && i != 0 {
        assert(T::key_of(s[0]) != key);
        assert forall|j: int|
            0 <= j < s.drop_first().len() && (i - 1 < 0 || j < i - 1) implies T::key_of(
            #[trigger] s.drop_first()[j],
        ) != key by {
            assert(s.drop_first()[j] == s[j + 1]);
        }
        if i < 0 {
            lemma_first_with_key_unique::<T>(s.drop_first(), key, -1);
        } else {
            lemma_first_with_key_unique::<T>(s.drop_first(), key, i - 1);
        }
    }
}

/// The index of the first record of `v` with hash `h`.
pub fn position_with_hash<T: Record>(v: &Vec<T>, h: u64) -> (r: Option<usize>)
    ensures
        match r {
            Some(i) => i == first_with_hash::<T>(views(v@), h),
            None => first_with_hash::<T>(views(v@), h) < 0,
        },
{
    let ghost s = views(v@);
    let mut i: usize = 0;
    while i < v.len()
        invariant
            s == views(v@),
            i <= v.len(),
            forall|j: int| 0 <= j < i ==> T::hash_of(#[trigger] s[j]) != h,
        decreases v.len() - i,
    {
        if v[i].hash_value() == h {
            proof {
                lemma_first_with_hash_unique::<T>(s, h, i as int);
            }
            return Some(i);
        }
        i = i + 1;
    }
    proof {
        lemma_first_with_hash_unique::<T>(s, h, -1);
    }
    None
}

/// The index of the first record of `v` whose lookup text is `key`.
pub fn position_with_key<T: Record>(v: &Vec<T>, key: &String) -> (r: Option<usize>)
    ensures
        match r {
            Some(i) => i == first_with_key::<T>(views(v@), key@),
            None => first_with_key::<T>(views(v@), key@) < 0,
        },
{
    let ghost s = views(v@);
    let mut i: usize = 0;
    while i < v.len()
        invariant
            s == views(v@),
            i <= v.len(),
            forall|j: int| 0 <= j < i ==> T::key_of(#[trigger] s[j]) != key@,
        decreases v.len() - i,
    {
        if v[i].has_key(key) {
            proof {
                lemma_first_with_key_unique::<T>(s, key@, i as int);
            }
            return Some(i);
        }
        i = i + 1;
    }
    proof {
        lemma_first_with_key_unique::<T>(s, key@, -1);
    }
    None
}

/// The hash of the first record of `v` whose lookup text is `key`, or 0 if
/// there is none.
pub fn current_hash_of<T: Record>(v: &Vec<T>, key: &String) -> (r: u64)
    ensures
        r == current_hash::<T>(views(v@), key@),
{
    proof {
        lemma_first_with_key::<T>(views(v@), key@);
    }
    match position_with_key(v, key) {
        Some(i) => {
            assert(views(v@)[i as int] == v@[i as int]@);
            v[i].hash_value()
        },
        None => 0,
    }
}

} // verus!
