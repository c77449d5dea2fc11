//! The change detection between the cached list of a kind of record and the
//! list read afresh, stated as a fold over the fresh list.
//!
//! Each fresh record is looked up by its lookup text in a snapshot of the
//! cached list taken before the fold (`current`), and its hash compared with
//! the hash found (0 if none):
//! - equal: the record is unchanged; one record of its hash is struck from
//!   the list of stale records (a copy of the snapshot), and the fold fails
//!   if there is none;
//! - different, with a record found whose hash is not 0: the record was
//!   modified, and is handled as the kind's `Revision` says;
//! - otherwise the record is new: it is added to the cache and published.
//! Then, for the kinds that withdraw, every record still stale is removed
//! from the cache (the fold fails if it is not there) and withdrawn from
//! etcd.

use vstd::prelude::*;
use vstd::multiset::Multiset;
use crate::publisher::RequestView;
use crate::order::{
    insert_position, lemma_insert_position, lemma_sort_views_permutes, sort_views, Ordered,
};
use crate::record::{
    current_hash, first_with_hash, first_with_key, lemma_first_with_hash, lemma_first_with_key,
    remove_first_with_hash, without_first_key,
    Record,
};
use crate::root::add_sorted;

verus! {

/// How a kind of record handles a modified record.
pub enum Revision {
    /// It is added and published as a new one.
    AddAgain,
    /// The first cached record with the new record's lookup text, if any,
    /// is replaced by it, and the change is published.
    ReplaceByKey,
    /// As `ReplaceByKey`; besides, the first stale record with the new
    /// record's lookup text, if any, is no longer stale: the record it stood
    /// for was replaced, not withdrawn.
    ReplaceAndRetireByKey,
}

/// A record whose changes are published to etcd.
pub trait Published: Record {
    /// The requests that publish a new record into the directory `folder`.
    spec fn publish_requests(etcd: Seq<char>, folder: Seq<char>, v: Self::V) -> Seq<RequestView>;

    /// The requests that publish a modified record.
    spec fn revise_requests(etcd: Seq<char>, folder: Seq<char>, v: Self::V) -> Seq<RequestView>;

    /// The requests that withdraw a stale record.
    spec fn withdraw_requests(etcd: Seq<char>, folder: Seq<char>, v: Self::V) -> Seq<RequestView>;
}

/// Where a fold stands: the cached list, the records still stale, the
/// requests so far, and whether the cache was changed.
pub struct SyncState<V> {
    pub list: Seq<V>,
    pub stale: Seq<V>,
    pub requests: Seq<RequestView>,
    pub touched: bool,
}

/// What the change detection makes of a fresh record `x`, given the
/// snapshot `current`.
pub enum Change {
    Unchanged,
    Modified,
    New,
}

pub open spec fn change_of<T: Record>(current: Seq<T::V>, x: T::V) -> Change {
    let found = current_hash::<T>(current, T::key_of(x));
    if found == T::hash_of(x) {
        Change::Unchanged
    } else if found > 0 {
        Change::Modified
    } else {
        Change::New
    }
}

/// One step of the fold, on the fresh record `x`.
pub open spec fn sync_step<T: Published>(
    revision: Revision,
    current: Seq<T::V>,
    etcd: Seq<char>,
    folder: Seq<char>,
    st: SyncState<T::V>,
    x: T::V,
) -> Option<SyncState<T::V>> {
    let h = T::hash_of(x);
    match change_of::<T>(current, x) {
        Change::Unchanged => match remove_first_with_hash::<T>(st.stale, h) {
            Some(stale) => Some(SyncState { stale, ..st }),
            None => None,
        },
        Change::Modified if revision is ReplaceAndRetireByKey => Some(
            SyncState {
                list: add_sorted::<T>(without_first_key::<T>(st.list, T::key_of(x)), x),
                stale: without_first_key::<T>(st.stale, T::key_of(x)),
                requests: st.requests + T::revise_requests(etcd, folder, x),
                touched: true,
            },
        ),
        Change::Modified if revision is ReplaceByKey => Some(
            SyncState {
                list: add_sorted::<T>(without_first_key::<T>(st.list, T::key_of(x)), x),
                requests: st.requests + T::revise_requests(etcd, folder, x),
                touched: true,
                ..st
            },
        ),
        _ => Some(
            SyncState {
                list: add_sorted::<T>(st.list, x),
                requests: st.requests + T::publish_requests(etcd, folder, x),
                touched: true,
                ..st
            },
        ),
    }
}

/// The state at the start of a fold: the cache as the snapshot, every
/// record stale, no request.
pub open spec fn sync_start<V>(current: Seq<V>) -> SyncState<V> {
    SyncState { list: current, stale: current, requests: Seq::empty(), touched: false }
}

/// The fold over the fresh records.
pub open spec fn sync_fresh<T: Published>(
    revision: Revision,
    current: Seq<T::V>,
    etcd: Seq<char>,
    folder: Seq<char>,
    fresh: Seq<T::V>,
) -> Option<SyncState<T::V>>
    decreases fresh.len(),
{
    if fresh.len() == 0 {
        Some(sync_start(current))
    } else {
        match sync_fresh::<T>(revision, current, etcd, folder, fresh.drop_last()) {
            Some(st) => sync_step::<T>(revision, current, etcd, folder, st, fresh.last()),
            None => None,
        }
    }
}

/// Withdrawing one stale record `x`.
pub open spec fn withdraw_step<T: Published>(
    etcd: Seq<char>,
    folder: Seq<char>,
    st: SyncState<T::V>,
    x: T::V,
) -> Option<SyncState<T::V>> {
    match remove_first_with_hash::<T>(st.list, T::hash_of(x)) {
        Some(list) => Some(
            SyncState {
                list,
                requests: st.requests + T::withdraw_requests(etcd, folder, x),
                touched: true,
                ..st
            },
        ),
        None => None,
    }
}

/// Withdrawing the records `xs` in order.
pub open spec fn withdraw_all<T: Published>(
    etcd: Seq<char>,
    folder: Seq<char>,
    st: SyncState<T::V>,
    xs: Seq<T::V>,
) -> Option<SyncState<T::V>>
    decreases xs.len(),
{
    if xs.len() == 0 {
        Some(st)
    } else {
        match withdraw_all::<T>(etcd, folder, st, xs.drop_last()) {
            Some(s) => withdraw_step::<T>(etcd, folder, s, xs.last()),
            None => None,
        }
    }
}

/// The whole change detection: the fold over `fresh`, then, if the kind
/// withdraws, the withdrawal of the records left stale.  `None` where the
/// detection fails.
pub open spec fn sync_list<T: Published>(
    revision: Revision,
    withdraws: bool,
    current: Seq<T::V>,
    etcd: Seq<char>,
    folder: Seq<char>,
    fresh: Seq<T::V>,
) -> Option<SyncState<T::V>> {
    match sync_fresh::<T>(revision, current, etcd, folder, fresh) {
        Some(st) => if withdraws {
            withdraw_all::<T>(etcd, folder, st, st.stale)
        } else {
            Some(st)
        },
        None => None,
    }
}

/// Withdrawing from a state is withdrawing from the same list with nothing
/// stale, no request and nothing changed, then putting the state's requests
/// first.
pub proof fn lemma_withdraw_all_from<T: Published>(
    etcd: Seq<char>,
    folder: Seq<char>,
    st: SyncState<T::V>,
    xs: Seq<T::V>,
)
    ensures
        ({
            let fresh_start = SyncState {
                list: st.list,
                stale: Seq::empty(),
                requests: Seq::empty(),
                touched: false,
            };
            match withdraw_all::<T>(etcd, folder, fresh_start, xs) {
                None => withdraw_all::<T>(etcd, folder, st, xs) is None,
                Some(r0) => withdraw_all::<T>(etcd, folder, st, xs) == Some(
                    SyncState {
                        list: r0.list,
                        stale: st.stale,
                        requests: st.requests + r0.requests,
                        touched: st.touched || r0.touched,
                    },
                ),
            }
        }),
    decreases xs.len(),
{
    if xs.len() > 0 {
        lemma_withdraw_all_from::<T>(etcd, folder, st, xs.drop_last());
        let fresh_start = SyncState {
            list: st.list,
            stale: Seq::empty(),
            requests: Seq::empty(),
            touched: false,
        };
        match withdraw_all::<T>(etcd, folder, fresh_start, xs.drop_last()) {
            Some(r0) => {
                let w = T::withdraw_requests(etcd, folder, xs.last());
                assert(st.requests + r0.requests + w =~= st.requests + (r0.requests + w));
            },
            None => {},
        }
    } else {
        assert(st.requests + Seq::<RequestView>::empty() =~= st.requests);
    }
}

/// A fold that fails on a prefix of the fresh records fails.
pub proof fn lemma_sync_fresh_fails_on<T: Published>(
    revision: Revision,
    current: Seq<T::V>,
    etcd: Seq<char>,
    folder: Seq<char>,
    fresh: Seq<T::V>,
    j: int,
)
    requires
        0 <= j <= fresh.len(),
        sync_fresh::<T>(revision, current, etcd, folder, fresh.take(j)) is None,
    ensures
        sync_fresh::<T>(revision, current, etcd, folder, fresh) is None,
    decreases fresh.len(),
{
    if fresh.len() == j {
        assert(fresh.take(j) =~= fresh);
    } else {
        assert(fresh.drop_last().take(j) =~= fresh.take(j));
        lemma_sync_fresh_fails_on::<T>(revision, current, etcd, folder, fresh.drop_last(), j);
    }
}

/// A withdrawal that fails on a prefix of the records fails.
pub proof fn lemma_withdraw_all_fails_on<T: Published>(
    etcd: Seq<char>,
    folder: Seq<char>,
    st: SyncState<T::V>,
    xs: Seq<T::V>,
    j: int,
)
    requires
        0 <= j <= xs.len(),
        withdraw_all::<T>(etcd, folder, st, xs.take(j)) is None,
    ensures
        withdraw_all::<T>(etcd, folder, st, xs) is None,
    decreases xs.len(),
{
    if xs.len() == j {
        assert(xs.take(j) =~= xs);
    } else {
        assert(xs.drop_last().take(j) =~= xs.take(j));
        lemma_withdraw_all_fails_on::<T>(etcd, folder, st, xs.drop_last(), j);
    }
}


/* Reading into an empty cache */

/// The requests that publish each of `xs` as a new record, in order.
pub open spec fn publish_each<T: Published>(
    etcd: Seq<char>,
    folder: Seq<char>,
    xs: Seq<T::V>,
) -> Seq<RequestView>
    decreases xs.len(),
{
    if xs.len() == 0 {
        Seq::empty()
    } else {
        publish_each::<T>(etcd, folder, xs.drop_last()) + T::publish_requests(etcd, folder, xs.last())
    }
}

/// No record of `xs` carries the hash 0.
pub open spec fn all_hashed<T: Record>(xs: Seq<T::V>) -> bool {
    forall|i: int| 0 <= i < xs.len() ==> T::hash_of(#[trigger] xs[i]) != 0
}

proof fn lemma_sync_fresh_into_empty<T: Published>(
    revision: Revision,
    etcd: Seq<char>,
    folder: Seq<char>,
    fresh: Seq<T::V>,
)
    ensures
        all_hashed::<T>(fresh) ==> {
            &&& sync_fresh::<T>(revision, Seq::empty(), etcd, folder, fresh) is Some
            &&& sync_fresh::<T>(revision, Seq::empty(), etcd, folder, fresh)->0.stale
                == Seq::<T::V>::empty()
            &&& sync_fresh::<T>(revision, Seq::empty(), etcd, folder, fresh)->0.requests
                == publish_each::<T>(etcd, folder, fresh)
            &&& sync_fresh::<T>(revision, Seq::empty(), etcd, folder, fresh)->0.touched
                == (fresh.len() > 0)
        },
        !all_hashed::<T>(fresh) ==> sync_fresh::<T>(revision, Seq::empty(), etcd, folder, fresh)
            is None,
    decreases fresh.len(),
{
    let empty = Seq::<T::V>::empty();
    if fresh.len() > 0 {
        let p = fresh.drop_last();
        let x = fresh.last();
        lemma_sync_fresh_into_empty::<T>(revision, etcd, folder, p);
        assert(first_with_key::<T>(empty, T::key_of(x)) == -1);
        assert(current_hash::<T>(empty, T::key_of(x)) == 0);
        assert(first_with_hash::<T>(empty, T::hash_of(x)) == -1);
        if all_hashed::<T>(fresh) {
            assert forall|i: int| 0 <= i < p.len() implies T::hash_of(#[trigger] p[i]) != 0 by {
                assert(p[i] == fresh[i]);
            }
            assert(T::hash_of(fresh[fresh.len() - 1]) != 0);
        } else {
            let i = choose|i: int| 0 <= i < fresh.len() && T::hash_of(#[trigger] fresh[i]) == 0;
            if i < p.len() {
                assert(p[i] == fresh[i]);
                assert(!all_hashed::<T>(p));
            }
        }
    } else {
        assert(publish_each::<T>(etcd, folder, fresh) =~= Seq::<RequestView>::empty());
    }
}

/// Against an empty cache the change detection takes every record read for
/// new.  It succeeds exactly when no record read carries the hash 0 (0 is the
/// hash found for a record that is not cached, so such a record is taken for
/// unchanged, and with nothing stale the detection fails); then it gives the
/// requests that publish each record, in the order read, withdraws nothing,
/// and has changed the cache if anything was read.
pub proof fn lemma_sync_into_empty_cache<T: Published>(
    revision: Revision,
    withdraws: bool,
    etcd: Seq<char>,
    folder: Seq<char>,
    fresh: Seq<T::V>,
)
    ensures
        sync_list::<T>(revision, withdraws, Seq::empty(), etcd, folder, fresh) is Some
            <==> all_hashed::<T>(fresh),
        all_hashed::<T>(fresh) ==> {
            &&& sync_list::<T>(revision, withdraws, Seq::empty(), etcd, folder, fresh)->0.requests
                == publish_each::<T>(etcd, folder, fresh)
            &&& sync_list::<T>(revision, withdraws, Seq::empty(), etcd, folder, fresh)->0.touched
                == (fresh.len() > 0)
        },
{
    lemma_sync_fresh_into_empty::<T>(revision, etcd, folder, fresh);
    if all_hashed::<T>(fresh) {
        let st = sync_fresh::<T>(revision, Seq::empty(), etcd, folder, fresh)->0;
        assert(withdraw_all::<T>(etcd, folder, st, st.stale) == Some(st));
    }
}


/* What the change detection keeps: the hashes of the cached list */

/// The hashes of the records of `s`, counted.
pub open spec fn hashes<T: Record>(s: Seq<T::V>) -> Multiset<u64> {
    s.map_values(|v: T::V| T::hash_of(v)).to_multiset()
}

proof fn lemma_hashes_push<T: Record>(s: Seq<T::V>, x: T::V)
    ensures
        hashes::<T>(s.push(x)) == hashes::<T>(s).insert(T::hash_of(x)),
{
    broadcast use vstd::seq_lib::group_to_multiset_ensures;
    let f = |v: T::V| T::hash_of(v);
    assert(s.push(x).map_values(f) =~= s.map_values(f).push(f(x)));
}

proof fn lemma_hashes_insert<T: Record>(s: Seq<T::V>, i: int, x: T::V)
    requires
        0 <= i <= s.len(),
    ensures
        hashes::<T>(s.insert(i, x)) == hashes::<T>(s).insert(T::hash_of(x)),
{
    broadcast use vstd::seq_lib::group_to_multiset_ensures;
    let f = |v: T::V| T::hash_of(v);
    assert(s.insert(i, x).map_values(f) =~= s.map_values(f).insert(i, f(x)));
}

proof fn lemma_hashes_remove<T: Record>(s: Seq<T::V>, i: int)
    requires
        0 <= i < s.len(),
    ensures
        hashes::<T>(s.remove(i)).insert(T::hash_of(s[i])) == hashes::<T>(s),
{
    broadcast use vstd::seq_lib::group_to_multiset_ensures;
    broadcast use vstd::multiset::group_multiset_axioms;
    let f = |v: T::V| T::hash_of(v);
    assert(s.remove(i).map_values(f) =~= s.map_values(f).remove(i));
    assert(s.map_values(f)[i] == T::hash_of(s[i]));
    assert(hashes::<T>(s).count(T::hash_of(s[i])) > 0);
    assert(hashes::<T>(s.remove(i)).insert(T::hash_of(s[i])) =~= hashes::<T>(s));
}

/// Sorting keeps the hashes.
pub proof fn lemma_hashes_sorted<T: Record>(s: Seq<T::V>)
    ensures
        hashes::<T>(sort_views::<T>(s)) == hashes::<T>(s),
    decreases s.len(),
{
    if s.len() > 0 {
        lemma_hashes_sorted::<T>(s.drop_last());
        let t = sort_views::<T>(s.drop_last());
        lemma_insert_position::<T>(t, s.last());
        lemma_hashes_insert::<T>(t, insert_position::<T>(t, s.last()) as int, s.last());
        lemma_hashes_push::<T>(s.drop_last(), s.last());
        assert(s.drop_last().push(s.last()) =~= s);
    }
}

proof fn lemma_hashes_add_sorted<T: Record>(s: Seq<T::V>, x: T::V)
    ensures
        hashes::<T>(add_sorted::<T>(s, x)) == hashes::<T>(s).insert(T::hash_of(x)),
{
    lemma_hashes_sorted::<T>(s.push(x));
    lemma_hashes_push::<T>(s, x);
}

proof fn lemma_hashes_remove_first<T: Record>(s: Seq<T::V>, h: u64)
    requires
        remove_first_with_hash::<T>(s, h) is Some,
    ensures
        hashes::<T>(remove_first_with_hash::<T>(s, h)->0).insert(h) == hashes::<T>(s),
{
    lemma_first_with_hash::<T>(s, h);
    lemma_hashes_remove::<T>(s, first_with_hash::<T>(s, h));
}

/// The fresh records that the fold found unchanged.
pub open spec fn unchanged<T: Record>(current: Seq<T::V>, fresh: Seq<T::V>) -> Seq<T::V>
    decreases fresh.len(),
{
    if fresh.len() == 0 {
        Seq::empty()
    } else if change_of::<T>(current, fresh.last()) is Unchanged {
        unchanged::<T>(current, fresh.drop_last()).push(fresh.last())
    } else {
        unchanged::<T>(current, fresh.drop_last())
    }
}

/// The fresh records that the fold added to the cache as new ones (the
/// modified ones too, under `AddAgain`).
pub open spec fn added<T: Record>(revision: Revision, current: Seq<T::V>, fresh: Seq<T::V>) -> Seq<T::V>
    decreases fresh.len(),
{
    if fresh.len() == 0 {
        Seq::empty()
    } else {
        let c = change_of::<T>(current, fresh.last());
        if c is New || (c is Modified && revision is AddAgain) {
            added::<T>(revision, current, fresh.drop_last()).push(fresh.last())
        } else {
            added::<T>(revision, current, fresh.drop_last())
        }
    }
}

/// Under `AddAgain` every fresh record is found unchanged or added.
proof fn lemma_fresh_splits<T: Record>(current: Seq<T::V>, fresh: Seq<T::V>)
    ensures
        hashes::<T>(fresh) == hashes::<T>(unchanged::<T>(current, fresh)).add(
            hashes::<T>(added::<T>(Revision::AddAgain, current, fresh)),
        ),
    decreases fresh.len(),
{
    broadcast use vstd::multiset::group_multiset_axioms;
    broadcast use vstd::seq_lib::group_to_multiset_ensures;
    if fresh.len() == 0 {
        let f = |v: T::V| T::hash_of(v);
        assert(fresh.map_values(f) =~= Seq::<u64>::empty());
        assert(Seq::<T::V>::empty().map_values(f) =~= Seq::<u64>::empty());
        assert(hashes::<T>(Seq::<T::V>::empty()) =~= Multiset::<u64>::empty());
        assert(hashes::<T>(fresh) =~= Multiset::<u64>::empty());
        assert(hashes::<T>(Seq::<T::V>::empty()).add(hashes::<T>(Seq::<T::V>::empty())) =~= Multiset::<u64>::empty());
    } else {
        let d = fresh.drop_last();
        let x = fresh.last();
        lemma_fresh_splits::<T>(current, d);
        lemma_hashes_push::<T>(d, x);
        assert(d.push(x) =~= fresh);
        lemma_hashes_push::<T>(unchanged::<T>(current, d), x);
        lemma_hashes_push::<T>(added::<T>(Revision::AddAgain, current, d), x);
        let ku = hashes::<T>(unchanged::<T>(current, d));
        let ka = hashes::<T>(added::<T>(Revision::AddAgain, current, d));
        assert(ku.insert(T::hash_of(x)).add(ka) =~= ku.add(ka).insert(T::hash_of(x)));
        assert(ku.add(ka.insert(T::hash_of(x))) =~= ku.add(ka).insert(T::hash_of(x)));
    }
}

/// Where the fold stands after a prefix of the fresh records: the cached
/// list holds the snapshot's hashes and those of the records added, and
/// the stale list the snapshot's hashes but those of the records found
/// unchanged.
proof fn lemma_sync_fresh_hashes<T: Published>(
    revision: Revision,
    current: Seq<T::V>,
    etcd: Seq<char>,
    folder: Seq<char>,
    fresh: Seq<T::V>,
)
    requires
        revision is AddAgain,
        sync_fresh::<T>(revision, current, etcd, folder, fresh) is Some,
    ensures
        ({
            let st = sync_fresh::<T>(revision, current, etcd, folder, fresh)->0;
            &&& hashes::<T>(st.list) == hashes::<T>(current).add(
                hashes::<T>(added::<T>(revision, current, fresh)),
            )
            &&& hashes::<T>(st.stale).add(hashes::<T>(unchanged::<T>(current, fresh))) == hashes::<T>(current)
        }),
    decreases fresh.len(),
{
    broadcast use vstd::multiset::group_multiset_axioms;
    broadcast use vstd::seq_lib::group_to_multiset_ensures;
    let f = |v: T::V| T::hash_of(v);
    assert(Seq::<T::V>::empty().map_values(f) =~= Seq::<u64>::empty());
    assert(hashes::<T>(Seq::<T::V>::empty()) =~= Multiset::<u64>::empty());
    if fresh.len() == 0 {
        assert(hashes::<T>(current).add(Multiset::<u64>::empty()) =~= hashes::<T>(current));
    } else {
        let d = fresh.drop_last();
        let x = fresh.last();
        let h = T::hash_of(x);
        lemma_sync_fresh_hashes::<T>(revision, current, etcd, folder, d);
        let st = sync_fresh::<T>(revision, current, etcd, folder, d)->0;
        let hc = hashes::<T>(current);
        let ha = hashes::<T>(added::<T>(revision, current, d));
        let hu = hashes::<T>(unchanged::<T>(current, d));
        match change_of::<T>(current, x) {
            Change::Unchanged => {
                lemma_hashes_remove_first::<T>(st.stale, h);
                lemma_hashes_push::<T>(unchanged::<T>(current, d), x);
                let hs = hashes::<T>(remove_first_with_hash::<T>(st.stale, h)->0);
                assert(hs.add(hu.insert(h)) =~= hs.insert(h).add(hu));
            },
            Change::Modified => {
                lemma_hashes_add_sorted::<T>(st.list, x);
                lemma_hashes_push::<T>(added::<T>(revision, current, d), x);
                assert(hc.add(ha).insert(h) =~= hc.add(ha.insert(h)));
            },
            Change::New => {
                lemma_hashes_add_sorted::<T>(st.list, x);
                lemma_hashes_push::<T>(added::<T>(revision, current, d), x);
                assert(hc.add(ha).insert(h) =~= hc.add(ha.insert(h)));
            },
        }
    }
}

/// Withdrawing removes the hashes of the records withdrawn.
proof fn lemma_withdraw_all_hashes<T: Published>(
    etcd: Seq<char>,
    folder: Seq<char>,
    st: SyncState<T::V>,
    xs: Seq<T::V>,
)
    requires
        withdraw_all::<T>(etcd, folder, st, xs) is Some,
    ensures
        hashes::<T>(withdraw_all::<T>(etcd, folder, st, xs)->0.list).add(hashes::<T>(xs)) == hashes::<T>(st.list),
    decreases xs.len(),
{
    broadcast use vstd::multiset::group_multiset_axioms;
    broadcast use vstd::seq_lib::group_to_multiset_ensures;
    let f = |v: T::V| T::hash_of(v);
    if xs.len() == 0 {
        assert(xs.map_values(f) =~= Seq::<u64>::empty());
        assert(hashes::<T>(st.list).add(hashes::<T>(xs)) =~= hashes::<T>(st.list));
    } else {
        let d = xs.drop_last();
        let x = xs.last();
        let h = T::hash_of(x);
        lemma_withdraw_all_hashes::<T>(etcd, folder, st, d);
        let mid = withdraw_all::<T>(etcd, folder, st, d)->0;
        lemma_hashes_remove_first::<T>(mid.list, h);
        lemma_hashes_push::<T>(d, x);
        assert(d.push(x) =~= xs);
        let hf = hashes::<T>(remove_first_with_hash::<T>(mid.list, h)->0);
        let hd = hashes::<T>(d);
        assert(hf.add(hd.insert(h)) =~= hf.insert(h).add(hd));
    }
}

/// The law of the services and machines: after a successful change
/// detection, the cache holds exactly the hashes of the records read,
/// counted.
pub proof fn lemma_mirror_holds_fresh_hashes<T: Published>(
    current: Seq<T::V>,
    etcd: Seq<char>,
    folder: Seq<char>,
    fresh: Seq<T::V>,
)
    requires
        sync_list::<T>(Revision::AddAgain, true, current, etcd, folder, fresh) is Some,
    ensures
        hashes::<T>(sync_list::<T>(Revision::AddAgain, true, current, etcd, folder, fresh)->0.list)
            == hashes::<T>(fresh),
{
    broadcast use vstd::multiset::group_multiset_axioms;
    let revision = Revision::AddAgain;
    let st = sync_fresh::<T>(revision, current, etcd, folder, fresh)->0;
    lemma_sync_fresh_hashes::<T>(revision, current, etcd, folder, fresh);
    lemma_withdraw_all_hashes::<T>(etcd, folder, st, st.stale);
    lemma_fresh_splits::<T>(current, fresh);
    let hf = hashes::<T>(sync_list::<T>(revision, true, current, etcd, folder, fresh)->0.list);
    let hs = hashes::<T>(st.stale);
    let hu = hashes::<T>(unchanged::<T>(current, fresh));
    let ha = hashes::<T>(added::<T>(revision, current, fresh));
    let hc = hashes::<T>(current);
    assert forall|v: u64| hf.count(v) == hu.add(ha).count(v) by {
        assert(hf.add(hs).count(v) == hc.add(ha).count(v));
        assert(hs.add(hu).count(v) == hc.count(v));
    }
    assert(hf =~= hu.add(ha));
}


/* What the change detection keeps under `ReplaceByKey` (the ports) */

/// Some record of `s` has the lookup text `k`.
pub open spec fn holds_key<T: Record>(s: Seq<T::V>, k: Seq<char>) -> bool {
    exists|j: int| 0 <= j < s.len() && T::key_of(#[trigger] s[j]) == k
}

proof fn lemma_add_sorted_contains<T: Ordered>(s: Seq<T::V>, x: T::V)
    ensures
        add_sorted::<T>(s, x).contains(x),
        forall|v: T::V| s.contains(v) ==> #[trigger] add_sorted::<T>(s, x).contains(v),
{
    broadcast use vstd::seq_lib::group_to_multiset_ensures;
    let t = s.push(x);
    let sorted = add_sorted::<T>(s, x);
    lemma_sort_views_permutes::<T>(t);
    assert(t[s.len() as int] == x);
    assert(t.contains(x));
    assert(t.to_multiset().count(x) > 0);
    assert(sorted.to_multiset().count(x) > 0);
    assert forall|v: T::V| s.contains(v) implies #[trigger] add_sorted::<T>(s, x).contains(v) by {
        let j = choose|j: int| 0 <= j < s.len() && s[j] == v;
        assert(t[j] == v);
        assert(t.contains(v));
        assert(t.to_multiset().count(v) > 0);
        assert(sorted.to_multiset().count(v) > 0);
    }
}

/// One step under `ReplaceByKey`: no lookup text leaves the cache, a record
/// that is not unchanged enters it, and the records of other lookup texts
/// stay.
proof fn lemma_step_by_key<T: Published>(
    current: Seq<T::V>,
    etcd: Seq<char>,
    folder: Seq<char>,
    st: SyncState<T::V>,
    x: T::V,
)
    requires
        sync_step::<T>(Revision::ReplaceByKey, current, etcd, folder, st, x) is Some,
    ensures
        ({
            let next = sync_step::<T>(Revision::ReplaceByKey, current, etcd, folder, st, x)->0;
            &&& forall|k: Seq<char>| holds_key::<T>(st.list, k) ==> #[trigger] holds_key::<T>(next.list, k)
            &&& !(change_of::<T>(current, x) is Unchanged) ==> next.list.contains(x)
            &&& forall|v: T::V|
                st.list.contains(v) && T::key_of(v) != T::key_of(x) ==> #[trigger] next.list.contains(v)
        }),
{
    let next = sync_step::<T>(Revision::ReplaceByKey, current, etcd, folder, st, x)->0;
    match change_of::<T>(current, x) {
        Change::Unchanged => {},
        Change::Modified => {
            let rest = without_first_key::<T>(st.list, T::key_of(x));
            lemma_add_sorted_contains::<T>(rest, x);
            lemma_first_with_key::<T>(st.list, T::key_of(x));
            let i = first_with_key::<T>(st.list, T::key_of(x));
            assert forall|v: T::V| st.list.contains(v) && T::key_of(v) != T::key_of(x) implies #[trigger] next.list.contains(v) by {
                let j = choose|j: int| 0 <= j < st.list.len() && st.list[j] == v;
                if i >= 0 {
                    if j < i {
                        assert(rest[j] == v);
                    } else {
                        assert(j != i);
                        assert(rest[j - 1] == v);
                    }
                } else {
                    assert(rest[j] == v);
                }
                assert(rest.contains(v));
            }
            assert forall|k: Seq<char>| holds_key::<T>(st.list, k) implies #[trigger] holds_key::<T>(next.list, k) by {
                let j = choose|j: int| 0 <= j < st.list.len() && T::key_of(#[trigger] st.list[j]) == k;
                assert(st.list.contains(st.list[j]));
                if k == T::key_of(x) {
                    let p = choose|p: int| 0 <= p < next.list.len() && next.list[p] == x;
                    assert(T::key_of(next.list[p]) == k);
                } else {
                    assert(next.list.contains(st.list[j]));
                    let p = choose|p: int| 0 <= p < next.list.len() && next.list[p] == st.list[j];
                    assert(T::key_of(next.list[p]) == k);
                }
            }
        },
        Change::New => {
            lemma_add_sorted_contains::<T>(st.list, x);
            assert forall|k: Seq<char>| holds_key::<T>(st.list, k) implies #[trigger] holds_key::<T>(next.list, k) by {
                let j = choose|j: int| 0 <= j < st.list.len() && T::key_of(#[trigger] st.list[j]) == k;
                assert(st.list.contains(st.list[j]));
                assert(next.list.contains(st.list[j]));
                let p = choose|p: int| 0 <= p < next.list.len() && next.list[p] == st.list[j];
                assert(T::key_of(next.list[p]) == k);
            }
        },
    }
}

/// The law of the ports: a successful change detection under
/// `ReplaceByKey` without withdrawal drops no lookup text from the cache,
/// and leaves in it every fresh record that is not unchanged and whose
/// lookup text no later fresh record has.
pub proof fn lemma_sync_by_key_keeps_and_takes<T: Published>(
    current: Seq<T::V>,
    etcd: Seq<char>,
    folder: Seq<char>,
    fresh: Seq<T::V>,
)
    requires
        sync_list::<T>(Revision::ReplaceByKey, false, current, etcd, folder, fresh) is Some,
    ensures
        ({
            let cached = sync_list::<T>(Revision::ReplaceByKey, false, current, etcd, folder, fresh)->0.list;
            &&& forall|k: Seq<char>| holds_key::<T>(current, k) ==> #[trigger] holds_key::<T>(cached, k)
            &&& forall|i: int|
                0 <= i < fresh.len() && !(change_of::<T>(current, fresh[i]) is Unchanged) && (forall|j: int|
                    i < j < fresh.len() ==> T::key_of(#[trigger] fresh[j]) != T::key_of(fresh[i]))
                    ==> cached.contains(#[trigger] fresh[i])
        }),
    decreases fresh.len(),
{
    if fresh.len() > 0 {
        let d = fresh.drop_last();
        let x = fresh.last();
        assert(sync_fresh::<T>(Revision::ReplaceByKey, current, etcd, folder, d) is Some);
        lemma_sync_by_key_keeps_and_takes::<T>(current, etcd, folder, d);
        let mid = sync_fresh::<T>(Revision::ReplaceByKey, current, etcd, folder, d)->0;
        lemma_step_by_key::<T>(current, etcd, folder, mid, x);
        let cached = sync_list::<T>(Revision::ReplaceByKey, false, current, etcd, folder, fresh)->0.list;
        assert forall|i: int|
            0 <= i < fresh.len() && !(change_of::<T>(current, fresh[i]) is Unchanged) && (forall|j: int|
                i < j < fresh.len() ==> T::key_of(#[trigger] fresh[j]) != T::key_of(fresh[i]))
                implies cached.contains(#[trigger] fresh[i]) by {
            if i < d.len() {
                assert(d[i] == fresh[i]);
                assert forall|j: int| i < j < d.len() implies T::key_of(#[trigger] d[j]) != T::key_of(d[i]) by {
                    assert(d[j] == fresh[j]);
                }
                assert(T::key_of(fresh[fresh.len() - 1]) != T::key_of(fresh[i]));
            }
        }
    }
}


/* A round on what the cache holds */

/// No two records of `s` share a lookup text.
pub open spec fn keys_distinct<T: Record>(s: Seq<T::V>) -> bool {
    forall|i: int, j: int| 0 <= i < j < s.len() ==> T::key_of(#[trigger] s[i]) != T::key_of(#[trigger] s[j])
}

proof fn lemma_sync_fresh_of_current<T: Published>(
    revision: Revision,
    current: Seq<T::V>,
    etcd: Seq<char>,
    folder: Seq<char>,
    n: int,
)
    requires
        keys_distinct::<T>(current),
        0 <= n <= current.len(),
    ensures
        sync_fresh::<T>(revision, current, etcd, folder, current.take(n)) == Some(
            SyncState {
                list: current,
                stale: current.skip(n),
                requests: Seq::<RequestView>::empty(),
                touched: false,
            },
        ),
    decreases n,
{
    if n == 0 {
        assert(current.take(0) =~= Seq::<T::V>::empty());
        assert(current.skip(0) =~= current);
    } else {
        let i = n - 1;
        lemma_sync_fresh_of_current::<T>(revision, current, etcd, folder, i);
        assert(current.take(n).drop_last() =~= current.take(i));
        let x = current[i];
        assert(current.take(n).last() == x);
        assert forall|j: int| 0 <= j < current.len() && (i < 0 || j < i) implies T::key_of(#[trigger] current[j]) != T::key_of(x) by {}
        crate::record::lemma_first_with_key_unique::<T>(current, T::key_of(x), i);
        let stale = current.skip(i);
        assert(stale[0] == x);
        crate::record::lemma_first_with_hash_unique::<T>(stale, T::hash_of(x), 0);
        assert(stale.remove(0) =~= current.skip(n));
    }
}

/// A round on the very records that the cache holds, none sharing a lookup
/// text with another, changes nothing and makes no request.
pub proof fn lemma_sync_of_cached_list_is_quiet<T: Published>(
    revision: Revision,
    withdraws: bool,
    current: Seq<T::V>,
    etcd: Seq<char>,
    folder: Seq<char>,
)
    requires
        keys_distinct::<T>(current),
    ensures
        sync_list::<T>(revision, withdraws, current, etcd, folder, current) == Some(
            SyncState {
                list: current,
                stale: Seq::<T::V>::empty(),
                requests: Seq::<RequestView>::empty(),
                touched: false,
            },
        ),
{
    lemma_sync_fresh_of_current::<T>(revision, current, etcd, folder, current.len() as int);
    assert(current.take(current.len() as int) =~= current);
    assert(current.skip(current.len() as int) =~= Seq::<T::V>::empty());
}


/* A modified record under `ReplaceAndRetireByKey` (the routes) */

proof fn lemma_sync_fresh_one_modified<T: Published>(
    current: Seq<T::V>,
    etcd: Seq<char>,
    folder: Seq<char>,
    i: int,
    x: T::V,
    n: int,
)
    requires
        keys_distinct::<T>(current),
        0 <= i < current.len(),
        T::key_of(x) == T::key_of(current[i]),
        T::hash_of(x) != T::hash_of(current[i]),
        T::hash_of(current[i]) != 0,
        i < n <= current.len(),
    ensures
        sync_fresh::<T>(
            Revision::ReplaceAndRetireByKey,
            current,
            etcd,
            folder,
            current.update(i, x).take(n),
        ) == Some(
            SyncState {
                list: add_sorted::<T>(current.remove(i), x),
                stale: current.skip(n),
                requests: T::revise_requests(etcd, folder, x),
                touched: true,
            },
        ),
    decreases n,
{
    let fresh = current.update(i, x);
    let r = Revision::ReplaceAndRetireByKey;
    assert(fresh.take(n).drop_last() =~= fresh.take(n - 1));
    let j = n - 1;
    assert(fresh.take(n).last() == fresh[j]);
    if n == i + 1 {
        lemma_sync_fresh_of_current::<T>(r, current, etcd, folder, i);
        assert(fresh.take(i) =~= current.take(i));
        assert(fresh[j] == x);
        let k = T::key_of(x);
        assert forall|m: int| 0 <= m < current.len() && (i < 0 || m < i) implies T::key_of(#[trigger] current[m]) != k by {}
        crate::record::lemma_first_with_key_unique::<T>(current, k, i);
        let stale = current.skip(i);
        assert(stale[0] == current[i]);
        crate::record::lemma_first_with_key_unique::<T>(stale, k, 0);
        assert(stale.remove(0) =~= current.skip(n));
        assert(Seq::<RequestView>::empty() + T::revise_requests(etcd, folder, x) =~= T::revise_requests(etcd, folder, x));
    } else {
        lemma_sync_fresh_one_modified::<T>(current, etcd, folder, i, x, n - 1);
        let y = current[j];
        assert(fresh[j] == y);
        assert forall|m: int| 0 <= m < current.len() && (j < 0 || m < j) implies T::key_of(#[trigger] current[m]) != T::key_of(y) by {}
        crate::record::lemma_first_with_key_unique::<T>(current, T::key_of(y), j);
        let stale = current.skip(j);
        assert(stale[0] == y);
        crate::record::lemma_first_with_hash_unique::<T>(stale, T::hash_of(y), 0);
        assert(stale.remove(0) =~= current.skip(n));
    }
}

/// The law of the routes: a round in which one cached record, whose lookup
/// text no other cached record has, comes back with another hash (the
/// cached hash not 0), and every other cached record comes back as it is,
/// succeeds: the record read replaces the cached one, its change is
/// published, and nothing is withdrawn.
pub proof fn lemma_modified_record_replaces<T: Published>(
    withdraws: bool,
    current: Seq<T::V>,
    etcd: Seq<char>,
    folder: Seq<char>,
    i: int,
    x: T::V,
)
    requires
        keys_distinct::<T>(current),
        0 <= i < current.len(),
        T::key_of(x) == T::key_of(current[i]),
        T::hash_of(x) != T::hash_of(current[i]),
        T::hash_of(current[i]) != 0,
    ensures
        sync_list::<T>(
            Revision::ReplaceAndRetireByKey,
            withdraws,
            current,
            etcd,
            folder,
            current.update(i, x),
        ) == Some(
            SyncState {
                list: add_sorted::<T>(current.remove(i), x),
                stale: Seq::<T::V>::empty(),
                requests: T::revise_requests(etcd, folder, x),
                touched: true,
            },
        ),
{
    let n = current.len() as int;
    lemma_sync_fresh_one_modified::<T>(current, etcd, folder, i, x, n);
    assert(current.update(i, x).take(n) =~= current.update(i, x));
    assert(current.skip(n) =~= Seq::<T::V>::empty());
}

} // verus!
