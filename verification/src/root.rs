//! The cached state: the services, machines, routes and ports that were last
//! published, each list sorted again after every addition.

use vstd::prelude::*;
use crate::digest::sip_hash;
use crate::machine::{Machine, MachineView};
use crate::order::{
    insert_position, lemma_insert_position, lemma_sort_views_of_sorted, lemma_sort_views_permutes,
    lemma_sort_views_sorted, lemma_sorted_equal,
    sort_in_place, sort_views, sorted_by, views, Ordered,
};
use crate::port::{Port, PortView};
use crate::record::{
    first_with_hash, first_with_key, lemma_first_with_hash, lemma_first_with_hash_unique,
    lemma_first_with_key,
    position_with_hash, position_with_key, remove_first_with_hash, without_first_key, Record,
};
use crate::route::{Route, RouteView};
use crate::service::{Service, ServiceView};

verus! {

/// `s` with `x` added, sorted.
pub open spec fn add_sorted<T: Ordered>(s: Seq<T::V>, x: T::V) -> Seq<T::V> {
    sort_views::<T>(s.push(x))
}

/// Adding a record to a sorted list that holds no record of its hash, then
/// removing the first record of that hash, gives the list back.
pub proof fn lemma_add_then_remove<T: Record>(s: Seq<T::V>, x: T::V)
    requires
        sorted_by::<T>(s),
        first_with_hash::<T>(s, T::hash_of(x)) < 0,
    ensures
        remove_first_with_hash::<T>(add_sorted::<T>(s, x), T::hash_of(x)) == Some(s),
{
    let h = T::hash_of(x);
    lemma_sort_views_of_sorted::<T>(s);
    assert(s.push(x).drop_last() =~= s);
    let p = insert_position::<T>(s, x) as int;
    lemma_insert_position::<T>(s, x);
    let r = s.insert(p, x);
    assert(add_sorted::<T>(s, x) == r);
    lemma_first_with_hash::<T>(s, h);
    assert forall|j: int| 0 <= j < r.len() && (p < 0 || j < p) implies T::hash_of(#[trigger] r[j]) != h by {
        assert(r[j] == s[j]);
    }
    lemma_first_with_hash_unique::<T>(r, h, p);
    assert(r.remove(p) =~= s);
}

/// The order in which two records are added does not matter: the list
/// comes out the same.
pub proof fn lemma_add_order_irrelevant<T: Ordered>(s: Seq<T::V>, a: T::V, b: T::V)
    ensures
        add_sorted::<T>(add_sorted::<T>(s, a), b) == add_sorted::<T>(add_sorted::<T>(s, b), a),
{
    broadcast use vstd::seq_lib::group_to_multiset_ensures;
    let ab = add_sorted::<T>(add_sorted::<T>(s, a), b);
    let ba = add_sorted::<T>(add_sorted::<T>(s, b), a);
    lemma_sort_views_permutes::<T>(s.push(a));
    lemma_sort_views_permutes::<T>(s.push(b));
    lemma_sort_views_permutes::<T>(add_sorted::<T>(s, a).push(b));
    lemma_sort_views_permutes::<T>(add_sorted::<T>(s, b).push(a));
    lemma_sort_views_sorted::<T>(add_sorted::<T>(s, a).push(b));
    lemma_sort_views_sorted::<T>(add_sorted::<T>(s, b).push(a));
    assert(ab.to_multiset() =~= ba.to_multiset()) by {
        broadcast use vstd::multiset::group_multiset_axioms;
    }
    lemma_sorted_equal::<T>(ab, ba);
}

/// Appends `x` to `v` and sorts `v`.
fn push_and_sort<T: Ordered>(v: &mut Vec<T>, x: T)
    ensures
        views(final(v)@) == add_sorted::<T>(views(old(v)@), x@),
{
    v.push(x);
    assert(views(v@) =~= views(old(v)@).push(x@));
    sort_in_place(v);
}

/// Removes the first record of `v` with hash `h`.
fn remove_with_hash<T: Record>(v: &mut Vec<T>, h: u64)
    requires
        first_with_hash::<T>(views(old(v)@), h) >= 0,
    ensures
        views(final(v)@) == views(old(v)@).remove(first_with_hash::<T>(views(old(v)@), h)),
{
    proof {
        lemma_first_with_hash::<T>(views(v@), h);
    }
    let i = position_with_hash(v, h).unwrap();
    v.remove(i);
    assert(views(v@) =~= views(old(v)@).remove(i as int));
}

/// The cached state.
#[derive(Debug, PartialEq, Eq, PartialOrd, Ord, Hash)]
pub struct Root {
    root_hash: u64,
    name: String,
    services_hash: u64,
    services: Vec<Service>,
    machines_hash: u64,
    machines: Vec<Machine>,
    routes_hash: u64,
    routes: Vec<Route>,
    ports_hash: u64,
    ports: Vec<Port>,
}

/// What the cache holds.
pub struct RootView {
    pub root_hash: u64,
    pub name: Seq<char>,
    pub services_hash: u64,
    pub services: Seq<ServiceView>,
    pub machines_hash: u64,
    pub machines: Seq<MachineView>,
    pub routes_hash: u64,
    pub routes: Seq<RouteView>,
    pub ports_hash: u64,
    pub ports: Seq<PortView>,
}

impl View for Root {
    type V = RootView;

    closed spec fn view(&self) -> RootView {
        RootView {
            root_hash: self.root_hash,
            name: self.name@,
            services_hash: self.services_hash,
            services: views(self.services@),
            machines_hash: self.machines_hash,
            machines: views(self.machines@),
            routes_hash: self.routes_hash,
            routes: views(self.routes@),
            ports_hash: self.ports_hash,
            ports: views(self.ports@),
        }
    }
}

impl RootView {
    /// The cache after a synchronisation of its services that ended with
    /// `services`: unchanged if `touched` is false (nothing was added or
    /// removed), else with `services` and renewed hashes.
    pub open spec fn with_services(self, services: Seq<ServiceView>, touched: bool, services_hash: u64) -> RootView {
        if touched {
            RootView { services, ..self }.rehashed(services_hash)
        } else {
            self
        }
    }

    /// As `with_services`, for the machines.
    pub open spec fn with_machines(self, machines: Seq<MachineView>, touched: bool, services_hash: u64) -> RootView {
        if touched {
            RootView { machines, ..self }.rehashed(services_hash)
        } else {
            self
        }
    }

    /// As `with_services`, for the routes.
    pub open spec fn with_routes(self, routes: Seq<RouteView>, touched: bool, services_hash: u64) -> RootView {
        if touched {
            RootView { routes, ..self }.rehashed(services_hash)
        } else {
            self
        }
    }

    /// As `with_services`, for the ports.
    pub open spec fn with_ports(self, ports: Seq<PortView>, touched: bool, services_hash: u64) -> RootView {
        if touched {
            RootView { ports, ..self }.rehashed(services_hash)
        } else {
            self
        }
    }

    /// The cache after its hashes are renewed: the root hash cleared and the
    /// services hash set to `services_hash`, the content hash of the
    /// services.
    pub open spec fn rehashed(self, services_hash: u64) -> RootView {
        RootView { root_hash: 0, services_hash, ..self }
    }
}

impl Clone for Root {
    fn clone(&self) -> (r: Self)
        ensures
            r@ == self@,
    {
        Root {
            root_hash: self.root_hash,
            name: self.name.clone(),
            services_hash: self.services_hash,
            services: self.get_services(),
            machines_hash: self.machines_hash,
            machines: self.get_machines(),
            routes_hash: self.routes_hash,
            routes: self.get_routes(),
            ports_hash: self.ports_hash,
            ports: self.get_ports(),
        }
    }
}

impl Root {
    /// A cache with the given hashes, name and services, and no machines,
    /// routes or ports.
    pub fn new(root_hash: u64, name: String, services_hash: u64, services: Vec<Service>) -> (r: Root)
        ensures
            r@ == (RootView {
                root_hash,
                name: name@,
                services_hash,
                services: views(services@),
                machines_hash: 0,
                machines: Seq::empty(),
                routes_hash: 0,
                routes: Seq::empty(),
                ports_hash: 0,
                ports: Seq::empty(),
            }),
    {
        let r = Root {
            root_hash,
            name,
            services_hash,
            services,
            machines_hash: 0,
            machines: Vec::new(),
            routes_hash: 0,
            routes: Vec::new(),
            ports_hash: 0,
            ports: Vec::new(),
        };
        assert(views(r.machines@) =~= Seq::<MachineView>::empty());
        assert(views(r.routes@) =~= Seq::<RouteView>::empty());
        assert(views(r.ports@) =~= Seq::<PortView>::empty());
        r
    }

    /* Services */

    /// Adds `service` and sorts the services; then renews the hashes.
    pub fn add_service(&mut self, service: Service)
        ensures
            final(self)@ == (RootView {
                services: add_sorted::<Service>(old(self)@.services, service@),
                ..old(self)@
            }).rehashed(final(self)@.services_hash),
    {
        push_and_sort(&mut self.services, service);
        self.update_hash();
    }

    /// Removes the first service whose hash is that of `service`; then
    /// renews the hashes.  There must be one.
    pub fn remove_service(&mut self, service: Service)
        requires
            first_with_hash::<Service>(old(self)@.services, service@.hash_value) >= 0,
        ensures
            final(self)@ == (RootView {
                services: old(self)@.services.remove(
                    first_with_hash::<Service>(old(self)@.services, service@.hash_value),
                ),
                ..old(self)@
            }).rehashed(final(self)@.services_hash),
    {
        let hash = service.get_hash_value();
        remove_with_hash(&mut self.services, hash);
        self.update_hash();
    }

    pub fn get_services(&self) -> (r: Vec<Service>)
        ensures
            views(r@) == self@.services,
    {
        let r = self.services.clone();
        assert(r@ =~= self.services@);
        r
    }

    /* Machines */

    /// Adds `machine` and sorts the machines; then renews the hashes.
    pub fn add_machine(&mut self, machine: Machine)
        ensures
            final(self)@ == (RootView {
                machines: add_sorted::<Machine>(old(self)@.machines, machine@),
                ..old(self)@
            }).rehashed(final(self)@.services_hash),
    {
        push_and_sort(&mut self.machines, machine);
        self.update_hash();
    }

    /// Removes the first machine whose hash is that of `machine`; then
    /// renews the hashes.  There must be one.
    pub fn remove_machine(&mut self, machine: Machine)
        requires
            first_with_hash::<Machine>(old(self)@.machines, machine@.hash_value) >= 0,
        ensures
            final(self)@ == (RootView {
                machines: old(self)@.machines.remove(
                    first_with_hash::<Machine>(old(self)@.machines, machine@.hash_value),
                ),
                ..old(self)@
            }).rehashed(final(self)@.services_hash),
    {
        let hash = machine.get_hash_value();
        remove_with_hash(&mut self.machines, hash);
        self.update_hash();
    }

    pub fn get_machines(&self) -> (r: Vec<Machine>)
        ensures
            views(r@) == self@.machines,
    {
        let r = self.machines.clone();
        assert(r@ =~= self.machines@);
        r
    }

    /* Routes */

    /// Adds `route` and sorts the routes; then renews the hashes.
    pub fn add_route(&mut self, route: Route)
        ensures
            final(self)@ == (RootView {
                routes: add_sorted::<Route>(old(self)@.routes, route@),
                ..old(self)@
            }).rehashed(final(self)@.services_hash),
    {
        push_and_sort(&mut self.routes, route);
        self.update_hash();
    }

    /// Replaces a route: removes the first route whose hash is that of
    /// `route` (there must be one), adds `route`, sorts the routes and renews
    /// the hashes.
    pub fn update_route(&mut self, route: Route)
        requires
            first_with_hash::<Route>(old(self)@.routes, route@.hash_value) >= 0,
        ensures
            final(self)@ == (RootView {
                routes: add_sorted::<Route>(
                    old(self)@.routes.remove(
                        first_with_hash::<Route>(old(self)@.routes, route@.hash_value),
                    ),
                    route@,
                ),
                ..old(self)@
            }).rehashed(final(self)@.services_hash),
    {
        let ghost rv = route@;
        self.remove_route(route.clone());
        let ghost mid = views(self.routes@);
        self.add_route(route);
        proof {
            lemma_sort_views_sorted::<Route>(mid.push(rv));
            lemma_sort_views_of_sorted::<Route>(views(self.routes@));
        }
        sort_in_place(&mut self.routes);
        self.update_hash();
    }

    /// Puts `route` in place of the route from its origin: removes the first
    /// route from the origin of `route`, if there is one, adds `route`, sorts
    /// the routes and renews the hashes.
    pub fn replace_route(&mut self, route: Route)
        ensures
            final(self)@ == (RootView {
                routes: add_sorted::<Route>(
                    without_first_key::<Route>(old(self)@.routes, route@.from),
                    route@,
                ),
                ..old(self)@
            }).rehashed(final(self)@.services_hash),
    {
        let from = route.get_from();
        proof {
            lemma_first_with_key::<Route>(views(self.routes@), from@);
        }
        match position_with_key(&self.routes, &from) {
            Some(pos) => {
                self.routes.remove(pos);
                assert(views(self.routes@) =~= views(old(self).routes@).remove(pos as int));
            },
            None => {},
        }
        self.add_route(route);
    }

    /// Removes the first route whose hash is that of `route`; then renews
    /// the hashes.  There must be one.
    pub fn remove_route(&mut self, route: Route)
        requires
            first_with_hash::<Route>(old(self)@.routes, route@.hash_value) >= 0,
        ensures
            final(self)@ == (RootView {
                routes: old(self)@.routes.remove(
                    first_with_hash::<Route>(old(self)@.routes, route@.hash_value),
                ),
                ..old(self)@
            }).rehashed(final(self)@.services_hash),
    {
        let hash = route.get_hash_value();
        remove_with_hash(&mut self.routes, hash);
        self.update_hash();
    }

    pub fn get_routes(&self) -> (r: Vec<Route>)
        ensures
            views(r@) == self@.routes,
    {
        let r = self.routes.clone();
        assert(r@ =~= self.routes@);
        r
    }

    /* Ports */

    /// Adds `port` and sorts the ports; then renews the hashes.
    pub fn add_port(&mut self, port: Port)
        ensures
            final(self)@ == (RootView {
                ports: add_sorted::<Port>(old(self)@.ports, port@),
                ..old(self)@
            }).rehashed(final(self)@.services_hash),
    {
        push_and_sort(&mut self.ports, port);
        self.update_hash();
    }

    /// Replaces a port: removes the first port with the id of `port`, if
    /// there is one, adds `port`, sorts the ports and renews the hashes.
    pub fn update_port(&mut self, port: Port)
        ensures
            final(self)@ == (RootView {
                ports: add_sorted::<Port>(
                    without_first_key::<Port>(old(self)@.ports, port@.id),
                    port@,
                ),
                ..old(self)@
            }).rehashed(final(self)@.services_hash),
    {
        let ghost pv = port@;
        self.remove_port(port.clone());
        let ghost mid = views(self.ports@);
        self.add_port(port);
        proof {
            lemma_sort_views_sorted::<Port>(mid.push(pv));
            lemma_sort_views_of_sorted::<Port>(views(self.ports@));
        }
        sort_in_place(&mut self.ports);
        self.update_hash();
    }

    /// Removes the first port with the id of `port`, and renews the hashes,
    /// if there is such a port; otherwise leaves the cache as it is.
    pub fn remove_port(&mut self, port: Port)
        ensures
            first_with_key::<Port>(old(self)@.ports, port@.id) < 0 ==> final(self)@ == old(self)@,
            first_with_key::<Port>(old(self)@.ports, port@.id) >= 0 ==> final(self)@ == (RootView {
                ports: without_first_key::<Port>(old(self)@.ports, port@.id),
                ..old(self)@
            }).rehashed(final(self)@.services_hash),
    {
        let id = port.get_id();
        proof {
            lemma_first_with_key::<Port>(views(self.ports@), id@);
        }
        match position_with_key(&self.ports, &id) {
            Some(pos) => {
                self.ports.remove(pos);
                assert(views(self.ports@) =~= views(old(self).ports@).remove(pos as int));
                self.update_hash();
            },
            None => {},
        }
    }

    pub fn get_ports(&self) -> (r: Vec<Port>)
        ensures
            views(r@) == self@.ports,
    {
        let r = self.ports.clone();
        assert(r@ =~= self.ports@);
        r
    }

    /* General */

    pub fn null_root_hash(&mut self)
        ensures
            final(self)@ == (RootView { root_hash: 0, ..old(self)@ }),
    {
        self.root_hash = 0;
    }

    pub fn null_services_hash(&mut self)
        ensures
            final(self)@ == (RootView { services_hash: 0, ..old(self)@ }),
    {
        self.services_hash = 0;
    }

    /// Renews the hashes: clears the root hash and sets the services hash to
    /// the content hash of the services (not stated; see `sip_hash`).
    pub fn update_hash(&mut self)
        ensures
            final(self)@ == old(self)@.rehashed(final(self)@.services_hash),
    {
        self.null_root_hash();
        self.null_services_hash();
        self.services_hash = sip_hash(&self.services);
    }
}

} // verus!
