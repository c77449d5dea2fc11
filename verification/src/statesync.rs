//! Keeping etcd in step with the services, machines, routes and ports read
//! from their sources: the records read are compared with the cache, the
//! cache is brought up to date and the requests that bring etcd up to date
//! are made.  Reading the sources and sending the requests is left to the
//! caller.

use vstd::prelude::*;
use crate::delta::{
    all_hashed, lemma_sync_fresh_fails_on, lemma_sync_into_empty_cache, lemma_withdraw_all_fails_on,
    lemma_withdraw_all_from, publish_each, sync_fresh, sync_list, withdraw_all, Published, Revision,
    SyncState,
};
use crate::digest::{content_hash, lemma_record_writes_injective, record_writes, sip_hash};
use crate::json::{is_listing, listed, member_text, member_text_of, JsonValue};
use crate::order::{
    lemma_sort_views_keeps, lemma_sort_views_permutes, sort_in_place, sort_views, views,
};
use crate::publisher::{
    create_folder_request, delete_folder_request, put_value_request, EtcdRequest, Publisher,
    RequestView,
};
use crate::machine::{Machine, MachineView};
use crate::port::{Port, PortView};
use crate::record::{
    current_hash_of, lemma_first_with_hash, lemma_first_with_key, position_with_hash,
    position_with_key,
};
use crate::root::Root;
use crate::route::{Route, RouteView};
use crate::service::{Service, ServiceView};
use crate::text::{decimal, decimal_string, replace_slashes, slashes_to_dashes};

verus! {

/// The directory of a kind of record: `base` + `/` + `kind`.
pub open spec fn kind_folder(base: Seq<char>, kind: Seq<char>) -> Seq<char> {
    base + "/"@ + kind
}

/// The directory of one record: `folder` + `/` + `name`.
pub open spec fn item_folder(folder: Seq<char>, name: Seq<char>) -> Seq<char> {
    folder + "/"@ + name
}

fn join_path(folder: &String, name: &String) -> (r: String)
    ensures
        r@ == item_folder(folder@, name@),
{
    let mut path = folder.clone();
    path.append("/");
    path.append(name.as_str());
    path
}

/* Reading the services and machines from their APIs */

/// A machine with the fields that the members `m` of a listed object give,
/// and with the content hash of those fields under a zero hash.
pub open spec fn machine_listed(m: Seq<(String, JsonValue)>, v: MachineView) -> bool {
    &&& v.hash_value == content_hash(0, v.texts())
    &&& v.name == member_text(m, "name"@)
    &&& v.ip == member_text(m, "ip"@)
    &&& v.node_type == member_text(m, "node_type"@)
}

/// `machines` are the machines that `doc` lists, each with its content
/// hash, in sorted order.
pub open spec fn lists_machines(doc: JsonValue, machines: Seq<MachineView>) -> bool {
    exists|u: Seq<MachineView>|
        #![trigger sort_views::<Machine>(u)]
        {
            &&& u.len() == listed(doc).len()
            &&& forall|i: int| 0 <= i < u.len() ==> machine_listed(listed(doc)[i], #[trigger] u[i])
            &&& machines == sort_views::<Machine>(u)
        }
}

/// A service with the fields that the members `m` of a listed object give,
/// and with the content hash of those fields under a zero hash.
pub open spec fn service_listed(m: Seq<(String, JsonValue)>, v: ServiceView) -> bool {
    &&& v.hash_value == content_hash(0, v.texts())
    &&& v.name == member_text(m, "name"@)
    &&& v.controller == member_text(m, "controller"@)
    &&& v.node_name == member_text(m, "node_name"@)
}

/// `services` are the services that `doc` lists, each with its content
/// hash, in sorted order.
pub open spec fn lists_services(doc: JsonValue, services: Seq<ServiceView>) -> bool {
    exists|u: Seq<ServiceView>|
        #![trigger sort_views::<Service>(u)]
        {
            &&& u.len() == listed(doc).len()
            &&& forall|i: int| 0 <= i < u.len() ==> service_listed(listed(doc)[i], #[trigger] u[i])
            &&& services == sort_views::<Service>(u)
        }
}

/// The machines that the machine API listed in `doc`: one per listed
/// object, named by its `name`, `ip` and `node_type` members, hashed with
/// `set_hash`, and sorted; with the hash of the whole list (not stated; see
/// `sip_hash`).  An empty-string document lists no machine.
pub fn derive_machines(doc: &JsonValue) -> (r: (u64, Vec<Machine>))
    requires
        is_listing(*doc),
    ensures
        lists_machines(*doc, views(r.1@)),
{
    let mut machines: Vec<Machine> = Vec::new();
    match doc {
        JsonValue::Array(items) => {
            let name_key = String::from_str("name");
            let ip_key = String::from_str("ip");
            let node_type_key = String::from_str("node_type");
            let mut i: usize = 0;
            while i < items.len()
                invariant
                    *doc == JsonValue::Array(*items),
                    is_listing(*doc),
                    name_key@ == "name"@,
                    ip_key@ == "ip"@,
                    node_type_key@ == "node_type"@,
                    i <= items.len(),
                    machines.len() == i,
                    forall|j: int| 0 <= j < i ==> machine_listed(listed(*doc)[j], #[trigger] views(machines@)[j]),
                decreases items.len() - i,
            {
                assert(items@[i as int] is Object);
                match &items[i] {
                    JsonValue::Object(members) => {
                        assert(listed(*doc)[i as int] == members@);
                        let name = member_text_of(members, &name_key);
                        let ip = member_text_of(members, &ip_key);
                        let node_type = member_text_of(members, &node_type_key);
                        let mut machine_entry = Machine::new(0, name, ip, node_type);
                        machine_entry.set_hash();
                        let ghost before = views(machines@);
                        machines.push(machine_entry);
                        assert(views(machines@) =~= before.push(machine_entry@));
                    },
                    _ => {},
                }
                i = i + 1;
            }
            let ghost unsorted = views(machines@);
            sort_in_place(&mut machines);
            assert(unsorted.len() == listed(*doc).len());
            assert(views(machines@) == sort_views::<Machine>(unsorted));
        },
        _ => {
            assert(views(machines@) =~= sort_views::<Machine>(Seq::<MachineView>::empty()));
        },
    }
    let hash = sip_hash(&machines);
    (hash, machines)
}

/// The services that the service API listed in `doc`: one per listed
/// object, named by its `name`, `controller` and `node_name` members, hashed
/// with `set_hash`, and sorted; with the hash of the whole list (not stated;
/// see `sip_hash`).  An empty-string document lists no service.
pub fn derive_services(doc: &JsonValue) -> (r: (u64, Vec<Service>))
    requires
        is_listing(*doc),
    ensures
        lists_services(*doc, views(r.1@)),
{
    let mut services: Vec<Service> = Vec::new();
    match doc {
        JsonValue::Array(items) => {
            let name_key = String::from_str("name");
            let controller_key = String::from_str("controller");
            let node_name_key = String::from_str("node_name");
            let mut i: usize = 0;
            while i < items.len()
                invariant
                    *doc == JsonValue::Array(*items),
                    is_listing(*doc),
                    name_key@ == "name"@,
                    controller_key@ == "controller"@,
                    node_name_key@ == "node_name"@,
                    i <= items.len(),
                    services.len() == i,
                    forall|j: int| 0 <= j < i ==> service_listed(listed(*doc)[j], #[trigger] views(services@)[j]),
                decreases items.len() - i,
            {
                assert(items@[i as int] is Object);
                match &items[i] {
                    JsonValue::Object(members) => {
                        assert(listed(*doc)[i as int] == members@);
                        let name = member_text_of(members, &name_key);
                        let controller = member_text_of(members, &controller_key);
                        let node_name = member_text_of(members, &node_name_key);
                        let mut service_entry = Service::with_node(0, name, controller, node_name);
                        service_entry.set_hash();
                        let ghost before = views(services@);
                        services.push(service_entry);
                        assert(views(services@) =~= before.push(service_entry@));
                    },
                    _ => {},
                }
                i = i + 1;
            }
            let ghost unsorted = views(services@);
            sort_in_place(&mut services);
            assert(unsorted.len() == listed(*doc).len());
            assert(views(services@) == sort_views::<Service>(unsorted));
        },
        _ => {
            assert(views(services@) =~= sort_views::<Service>(Seq::<ServiceView>::empty()));
        },
    }
    let hash = sip_hash(&services);
    (hash, services)
}

/* Reading the routes and ports from the network agent */

/// The network agents that routes and ports are read from.
#[derive(Debug, Clone, Copy, PartialEq, Eq, Structural)]
pub enum NetworkAgent {
    Fboss,
    Snaproute,
}

/// The agent that an agent type names: `fboss` or `snaproute`; `None` for
/// any other type, whose agent lists no route and no port.
pub fn network_agent(agent_type: &String) -> (r: Option<NetworkAgent>)
    ensures
        r == (if agent_type@ == "fboss"@ {
            Some(NetworkAgent::Fboss)
        } else if agent_type@ == "snaproute"@ {
            Some(NetworkAgent::Snaproute)
        } else {
            None
        }),
{
    if *agent_type == String::from_str("fboss") {
        Some(NetworkAgent::Fboss)
    } else if *agent_type == String::from_str("snaproute") {
        Some(NetworkAgent::Snaproute)
    } else {
        None
    }
}

/// `routes` are the routes of `entries` (origin and next hop, as the agent
/// gave them), each with `/` replaced by `-` and with the content hash of
/// its fields under a zero hash, in sorted order.
pub open spec fn lists_routes(entries: Seq<(String, String)>, routes: Seq<RouteView>) -> bool {
    exists|u: Seq<RouteView>|
        #![trigger sort_views::<Route>(u)]
        {
            &&& u.len() == entries.len()
            &&& forall|i: int|
                0 <= i < u.len() ==> {
                    &&& (#[trigger] u[i]).from == slashes_to_dashes(entries[i].0@)
                    &&& u[i].to == slashes_to_dashes(entries[i].1@)
                    &&& u[i].hash_value == content_hash(0, u[i].texts())
                }
            &&& routes == sort_views::<Route>(u)
        }
}

/// `ports` are the ports of `entries` (id and state, as the agent gave them
/// in text), each with `/` replaced by `-` and with the content hash of its
/// fields under a zero hash, in sorted order.
pub open spec fn lists_ports(entries: Seq<(String, String)>, ports: Seq<PortView>) -> bool {
    exists|u: Seq<PortView>|
        #![trigger sort_views::<Port>(u)]
        {
            &&& u.len() == entries.len()
            &&& forall|i: int|
                0 <= i < u.len() ==> {
                    &&& (#[trigger] u[i]).id == slashes_to_dashes(entries[i].0@)
                    &&& u[i].state == slashes_to_dashes(entries[i].1@)
                    &&& u[i].hash_value == content_hash(0, u[i].texts())
                }
            &&& ports == sort_views::<Port>(u)
        }
}

/// The routes that the network agent gave as `entries` of origin and next
/// hop: `/` replaced by `-` in both, each hashed with `set_hash`, sorted;
/// with the hash of the whole list (not stated; see `sip_hash`).
pub fn get_routes(entries: Vec<(String, String)>) -> (r: (u64, Vec<Route>))
    ensures
        lists_routes(entries@, views(r.1@)),
{
    let mut routes: Vec<Route> = Vec::new();
    let mut i: usize = 0;
    while i < entries.len()
        invariant
            i <= entries.len(),
            routes.len() == i,
            forall|j: int|
                0 <= j < i ==> {
                    &&& (#[trigger] views(routes@)[j]).from == slashes_to_dashes(entries@[j].0@)
                    &&& views(routes@)[j].to == slashes_to_dashes(entries@[j].1@)
                    &&& views(routes@)[j].hash_value == content_hash(0, views(routes@)[j].texts())
                },
        decreases entries.len() - i,
    {
        let from = replace_slashes(&entries[i].0);
        let to = replace_slashes(&entries[i].1);
        let mut route = Route::new(from, to);
        route.set_hash();
        let ghost before = views(routes@);
        routes.push(route);
        assert(views(routes@) =~= before.push(route@));
        i = i + 1;
    }
    let ghost unsorted = views(routes@);
    sort_in_place(&mut routes);
    assert(views(routes@) == sort_views::<Route>(unsorted));
    let hash = sip_hash(&routes);
    (hash, routes)
}

/// The ports that the network agent gave as `entries` of id and state in
/// text: `/` replaced by `-` in both, each hashed with `set_hash`, sorted;
/// with the hash of the whole list (not stated; see `sip_hash`).
pub fn get_ports(entries: Vec<(String, String)>) -> (r: (u64, Vec<Port>))
    ensures
        lists_ports(entries@, views(r.1@)),
{
    let mut ports: Vec<Port> = Vec::new();
    let mut i: usize = 0;
    while i < entries.len()
        invariant
            i <= entries.len(),
            ports.len() == i,
            forall|j: int|
                0 <= j < i ==> {
                    &&& (#[trigger] views(ports@)[j]).id == slashes_to_dashes(entries@[j].0@)
                    &&& views(ports@)[j].state == slashes_to_dashes(entries@[j].1@)
                    &&& views(ports@)[j].hash_value == content_hash(0, views(ports@)[j].texts())
                },
        decreases entries.len() - i,
    {
        let id = replace_slashes(&entries[i].0);
        let state = replace_slashes(&entries[i].1);
        let mut new_port = Port::new(id, state);
        new_port.set_hash();
        let ghost before = views(ports@);
        ports.push(new_port);
        assert(views(ports@) =~= before.push(new_port@));
        i = i + 1;
    }
    let ghost unsorted = views(ports@);
    sort_in_place(&mut ports);
    assert(views(ports@) == sort_views::<Port>(unsorted));
    let hash = sip_hash(&ports);
    (hash, ports)
}

/* Services */

impl Published for Service {
    open spec fn publish_requests(etcd: Seq<char>, folder: Seq<char>, v: ServiceView) -> Seq<RequestView> {
        let path = item_folder(folder, v.name) + "/"@;
        seq![
            put_value_request(etcd, path, "service_hash"@, decimal(v.hash_value as nat)),
            put_value_request(etcd, path, "servicename"@, v.name),
            put_value_request(etcd, path, "servicecontroller"@, v.controller),
            put_value_request(etcd, path, "node_name"@, v.node_name),
        ]
    }

    open spec fn revise_requests(etcd: Seq<char>, folder: Seq<char>, v: ServiceView) -> Seq<RequestView> {
        Seq::empty()
    }

    open spec fn withdraw_requests(etcd: Seq<char>, folder: Seq<char>, v: ServiceView) -> Seq<RequestView> {
        seq![delete_folder_request(etcd, item_folder(folder, v.name))]
    }
}

/// The hash of the first of `current_services` named `name`, or 0 if none
/// is.
pub fn get_current_service_hash(current_services: &Vec<Service>, name: String) -> (r: u64)
    ensures
        r == crate::record::current_hash::<Service>(views(current_services@), name@),
{
    current_hash_of(current_services, &name)
}

/// The requests that publish `service` into the directory `folder`: its
/// hash, name, controller and node under `folder/<name>/`.
pub fn add_service_to_etcd(etcd_url: String, folder: String, service: Service) -> (r: Vec<EtcdRequest>)
    ensures
        views(r@) == Service::publish_requests(etcd_url@, folder@, service@),
{
    let publisher = Publisher::new();
    let name = service.get_name();
    let mut item_path = join_path(&folder, &name);
    item_path.append("/");
    let r = vec![
        publisher.publish_key_value(
            etcd_url.clone(),
            String::from_str("service_hash"),
            decimal_string(service.get_hash_value()),
            item_path.clone(),
        ),
        publisher.publish_key_value(etcd_url.clone(), String::from_str("servicename"), name, item_path.clone()),
        publisher.publish_key_value(
            etcd_url.clone(),
            String::from_str("servicecontroller"),
            service.get_controller(),
            item_path.clone(),
        ),
        publisher.publish_key_value(etcd_url, String::from_str("node_name"), service.get_node_name(), item_path),
    ];
    assert(views(r@) =~= Service::publish_requests(etcd_url@, folder@, service@));
    r
}

/// Removes `services` from the cache one after the other, each by its hash,
/// with the requests that delete their directories under `folder`.  `None`
/// where a service's hash is no longer in the cache.
pub fn service_delete_delta_in_etcd(cache: &mut Root, etcd_url: String, folder: String, services: Vec<Service>) -> (r: Option<Vec<EtcdRequest>>)
    ensures
        ({
            let start = SyncState {
                list: old(cache)@.services,
                stale: Seq::empty(),
                requests: Seq::empty(),
                touched: false,
            };
            let outcome = withdraw_all::<Service>(etcd_url@, folder@, start, views(services@));
            &&& (r is None <==> outcome is None)
            &&& (r matches Some(reqs) ==> {
                &&& views(reqs@) == outcome->0.requests
                &&& final(cache)@ == old(cache)@.with_services(outcome->0.list, outcome->0.touched, final(cache)@.services_hash)
            })
        }),
{
    let ghost start = SyncState {
        list: old(cache)@.services,
        stale: Seq::<ServiceView>::empty(),
        requests: Seq::<RequestView>::empty(),
        touched: false,
    };
    let ghost xs = views(services@);
    let mut requests: Vec<EtcdRequest> = Vec::new();
    let ghost mut touched = false;
    let publisher = Publisher::new();
    let mut k: usize = 0;
    assert(xs.take(0) =~= Seq::<ServiceView>::empty());
    assert(views(requests@) =~= Seq::<RequestView>::empty());
    while k < services.len()
        invariant
            k <= services.len(),
            xs == views(services@),
            start == (SyncState {
                list: old(cache)@.services,
                stale: Seq::<ServiceView>::empty(),
                requests: Seq::<RequestView>::empty(),
                touched: false,
            }),
            withdraw_all::<Service>(etcd_url@, folder@, start, xs.take(k as int)) == Some(
                SyncState {
                    list: cache@.services,
                    stale: Seq::<ServiceView>::empty(),
                    requests: views(requests@),
                    touched,
                },
            ),
            cache@ == old(cache)@.with_services(cache@.services, touched, cache@.services_hash),
        decreases services.len() - k,
    {
        let service = &services[k];
        assert(xs.take(k + 1).drop_last() =~= xs.take(k as int));
        assert(xs.take(k + 1).last() == service@);
        proof {
            lemma_first_with_hash::<Service>(cache@.services, service@.hash_value);
        }
        if position_with_hash(&cache.get_services(), service.get_hash_value()).is_none() {
            proof {
                lemma_withdraw_all_fails_on::<Service>(etcd_url@, folder@, start, xs, k + 1);
            }
            return None;
        }
        cache.remove_service(service.clone());
        let path = join_path(&folder, &service.get_name());
        let request = publisher.delete_folder(etcd_url.clone(), path);
        let ghost before = views(requests@);
        requests.push(request);
        assert(views(requests@) =~= before + Service::withdraw_requests(etcd_url@, folder@, service@));
        proof {
            touched = true;
        }
        k = k + 1;
    }
    assert(xs.take(services.len() as int) =~= xs);
    Some(requests)
}

/// Brings the cache's services in step with `new_services` (see
/// `crate::delta`), the services directory being `base_folder/services`;
/// gives the requests that bring etcd in step, in order.  `None` where the
/// change detection fails.
pub fn identify_service_delta(cache: &mut Root, etcd_url: String, base_folder: String, new_services: Vec<Service>) -> (r: Option<Vec<EtcdRequest>>)
    ensures
        ({
            let outcome = sync_list::<Service>(
                Revision::AddAgain,
                true,
                old(cache)@.services,
                etcd_url@,
                kind_folder(base_folder@, "services"@),
                views(new_services@),
            );
            &&& (r is None <==> outcome is None)
            &&& (r matches Some(reqs) ==> {
                &&& views(reqs@) == outcome->0.requests
                &&& final(cache)@ == old(cache)@.with_services(outcome->0.list, outcome->0.touched, final(cache)@.services_hash)
            })
        }),
{
    let mut folder = base_folder;
    folder.append("/");
    folder.append("services");
    let mut delta_remove = cache.get_services();
    let current_services = cache.get_services();
    let ghost current = views(current_services@);
    let ghost fresh = views(new_services@);
    let mut requests: Vec<EtcdRequest> = Vec::new();
    let ghost mut touched = false;
    let mut i: usize = 0;
    assert(fresh.take(0) =~= Seq::<ServiceView>::empty());
    assert(views(requests@) =~= Seq::<RequestView>::empty());
    while i < new_services.len()
        invariant
            i <= new_services.len(),
            folder@ == kind_folder(base_folder@, "services"@),
            current == old(cache)@.services,
            current == views(current_services@),
            fresh == views(new_services@),
            sync_fresh::<Service>(Revision::AddAgain, current, etcd_url@, folder@, fresh.take(i as int)) == Some(
                SyncState {
                    list: cache@.services,
                    stale: views(delta_remove@),
                    requests: views(requests@),
                    touched,
                },
            ),
            cache@ == old(cache)@.with_services(cache@.services, touched, cache@.services_hash),
        decreases new_services.len() - i,
    {
        let new_service = &new_services[i];
        assert(fresh.take(i + 1).drop_last() =~= fresh.take(i as int));
        assert(fresh.take(i + 1).last() == new_service@);
        let current_service_hash = get_current_service_hash(&current_services, new_service.get_name());
        let h = new_service.get_hash_value();
        if current_service_hash == h {
            proof {
                lemma_first_with_hash::<Service>(views(delta_remove@), h);
            }
            match position_with_hash(&delta_remove, h) {
                Some(position) => {
                    let ghost stale = views(delta_remove@);
                    delta_remove.remove(position);
                    assert(views(delta_remove@) =~= stale.remove(position as int));
                },
                None => {
                    proof {
                        lemma_sync_fresh_fails_on::<Service>(
                            Revision::AddAgain,
                            current,
                            etcd_url@,
                            folder@,
                            fresh,
                            i + 1,
                        );
                    }
                    return None;
                },
            }
        } else {
            cache.add_service(new_service.clone());
            let mut reqs = add_service_to_etcd(etcd_url.clone(), folder.clone(), new_service.clone());
            let ghost before = views(requests@);
            let ghost added = views(reqs@);
            requests.append(&mut reqs);
            assert(views(requests@) =~= before + added);
            proof {
                touched = true;
            }
        }
        i = i + 1;
    }
    assert(fresh.take(new_services.len() as int) =~= fresh);
    let ghost st = SyncState {
        list: cache@.services,
        stale: views(delta_remove@),
        requests: views(requests@),
        touched,
    };
    proof {
        lemma_withdraw_all_from::<Service>(etcd_url@, folder@, st, st.stale);
    }
    match service_delete_delta_in_etcd(cache, etcd_url, folder, delta_remove) {
        Some(mut deletes) => {
            let ghost d = views(deletes@);
            requests.append(&mut deletes);
            assert(views(requests@) =~= st.requests + d);
            Some(requests)
        },
        None => None,
    }
}


/* Machines */

impl Published for Machine {
    open spec fn publish_requests(etcd: Seq<char>, folder: Seq<char>, v: MachineView) -> Seq<RequestView> {
        let path = item_folder(folder, v.name) + "/"@;
        seq![
            put_value_request(etcd, path, "machine_hash"@, decimal(v.hash_value as nat)),
            put_value_request(etcd, path, "machinename"@, v.name),
            put_value_request(etcd, path, "ip"@, v.ip),
            put_value_request(etcd, path, "node_type"@, v.node_type),
        ]
    }

    open spec fn revise_requests(etcd: Seq<char>, folder: Seq<char>, v: MachineView) -> Seq<RequestView> {
        Seq::empty()
    }

    open spec fn withdraw_requests(etcd: Seq<char>, folder: Seq<char>, v: MachineView) -> Seq<RequestView> {
        seq![delete_folder_request(etcd, item_folder(folder, v.name))]
    }
}

/// The hash of the first of `current_machines` named `name`, or 0 if none
/// is.
pub fn get_current_machine_hash(current_machines: &Vec<Machine>, name: String) -> (r: u64)
    ensures
        r == crate::record::current_hash::<Machine>(views(current_machines@), name@),
{
    current_hash_of(current_machines, &name)
}

/// The requests that publish `machine` into the directory `folder`: its
/// hash, name, IP address and node type under `folder/<name>/`.
pub fn add_machine_to_etcd(etcd_url: String, folder: String, machine: Machine) -> (r: Vec<EtcdRequest>)
    ensures
        views(r@) == Machine::publish_requests(etcd_url@, folder@, machine@),
{
    let publisher = Publisher::new();
    let name = machine.get_name();
    let mut item_path = join_path(&folder, &name);
    item_path.append("/");
    let r = vec![
        publisher.publish_key_value(
            etcd_url.clone(),
            String::from_str("machine_hash"),
            decimal_string(machine.get_hash_value()),
            item_path.clone(),
        ),
        publisher.publish_key_value(etcd_url.clone(), String::from_str("machinename"), name, item_path.clone()),
        publisher.publish_key_value(
            etcd_url.clone(),
            String::from_str("ip"),
            machine.get_ip(),
            item_path.clone(),
        ),
        publisher.publish_key_value(etcd_url, String::from_str("node_type"), machine.get_node_type(), item_path),
    ];
    assert(views(r@) =~= Machine::publish_requests(etcd_url@, folder@, machine@));
    r
}

/// Removes `machines` from the cache one after the other, each by its hash,
/// with the requests that delete their directories under `folder`.  `None`
/// where a machine's hash is no longer in the cache.
pub fn machine_delete_delta_in_etcd(cache: &mut Root, etcd_url: String, folder: String, machines: Vec<Machine>) -> (r: Option<Vec<EtcdRequest>>)
    ensures
        ({
            let start = SyncState {
                list: old(cache)@.machines,
                stale: Seq::empty(),
                requests: Seq::empty(),
                touched: false,
            };
            let outcome = withdraw_all::<Machine>(etcd_url@, folder@, start, views(machines@));
            &&& (r is None <==> outcome is None)
            &&& (r matches Some(reqs) ==> {
                &&& views(reqs@) == outcome->0.requests
                &&& final(cache)@ == old(cache)@.with_machines(outcome->0.list, outcome->0.touched, final(cache)@.services_hash)
            })
        }),
{
    let ghost start = SyncState {
        list: old(cache)@.machines,
        stale: Seq::<MachineView>::empty(),
        requests: Seq::<RequestView>::empty(),
        touched: false,
    };
    let ghost xs = views(machines@);
    let mut requests: Vec<EtcdRequest> = Vec::new();
    let ghost mut touched = false;
    let publisher = Publisher::new();
    let mut k: usize = 0;
    assert(xs.take(0) =~= Seq::<MachineView>::empty());
    assert(views(requests@) =~= Seq::<RequestView>::empty());
    while k < machines.len()
        invariant
            k <= machines.len(),
            xs == views(machines@),
            start == (SyncState {
                list: old(cache)@.machines,
                stale: Seq::<MachineView>::empty(),
                requests: Seq::<RequestView>::empty(),
                touched: false,
            }),
            withdraw_all::<Machine>(etcd_url@, folder@, start, xs.take(k as int)) == Some(
                SyncState {
                    list: cache@.machines,
                    stale: Seq::<MachineView>::empty(),
                    requests: views(requests@),
                    touched,
                },
            ),
            cache@ == old(cache)@.with_machines(cache@.machines, touched, cache@.services_hash),
        decreases machines.len() - k,
    {
        let machine = &machines[k];
        assert(xs.take(k + 1).drop_last() =~= xs.take(k as int));
        assert(xs.take(k + 1).last() == machine@);
        proof {
            lemma_first_with_hash::<Machine>(cache@.machines, machine@.hash_value);
        }
        if position_with_hash(&cache.get_machines(), machine.get_hash_value()).is_none() {
            proof {
                lemma_withdraw_all_fails_on::<Machine>(etcd_url@, folder@, start, xs, k + 1);
            }
            return None;
        }
        cache.remove_machine(machine.clone());
        let path = join_path(&folder, &machine.get_name());
        let request = publisher.delete_folder(etcd_url.clone(), path);
        let ghost before = views(requests@);
        requests.push(request);
        assert(views(requests@) =~= before + Machine::withdraw_requests(etcd_url@, folder@, machine@));
        proof {
            touched = true;
        }
        k = k + 1;
    }
    assert(xs.take(machines.len() as int) =~= xs);
    Some(requests)
}

/// Brings the cache's machines in step with `new_machines` (see
/// `crate::delta`), the machines directory being `base_folder/machines`;
/// gives the requests that bring etcd in step, in order.  `None` where the
/// change detection fails.
pub fn identify_machine_delta(cache: &mut Root, etcd_url: String, base_folder: String, new_machines: Vec<Machine>) -> (r: Option<Vec<EtcdRequest>>)
    ensures
        ({
            let outcome = sync_list::<Machine>(
                Revision::AddAgain,
                true,
                old(cache)@.machines,
                etcd_url@,
                kind_folder(base_folder@, "machines"@),
                views(new_machines@),
            );
            &&& (r is None <==> outcome is None)
            &&& (r matches Some(reqs) ==> {
                &&& views(reqs@) == outcome->0.requests
                &&& final(cache)@ == old(cache)@.with_machines(outcome->0.list, outcome->0.touched, final(cache)@.services_hash)
            })
        }),
{
    let mut folder = base_folder;
    folder.append("/");
    folder.append("machines");
    let mut delta_remove = cache.get_machines();
    let current_machines = cache.get_machines();
    let ghost current = views(current_machines@);
    let ghost fresh = views(new_machines@);
    let mut requests: Vec<EtcdRequest> = Vec::new();
    let ghost mut touched = false;
    let mut i: usize = 0;
    assert(fresh.take(0) =~= Seq::<MachineView>::empty());
    assert(views(requests@) =~= Seq::<RequestView>::empty());
    while i < new_machines.len()
        invariant
            i <= new_machines.len(),
            folder@ == kind_folder(base_folder@, "machines"@),
            current == old(cache)@.machines,
            current == views(current_machines@),
            fresh == views(new_machines@),
            sync_fresh::<Machine>(Revision::AddAgain, current, etcd_url@, folder@, fresh.take(i as int)) == Some(
                SyncState {
                    list: cache@.machines,
                    stale: views(delta_remove@),
                    requests: views(requests@),
                    touched,
                },
            ),
            cache@ == old(cache)@.with_machines(cache@.machines, touched, cache@.services_hash),
        decreases new_machines.len() - i,
    {
        let new_machine = &new_machines[i];
        assert(fresh.take(i + 1).drop_last() =~= fresh.take(i as int));
        assert(fresh.take(i + 1).last() == new_machine@);
        let current_machine_hash = get_current_machine_hash(&current_machines, new_machine.get_name());
        let h = new_machine.get_hash_value();
        if current_machine_hash == h {
            proof {
                lemma_first_with_hash::<Machine>(views(delta_remove@), h);
            }
            match position_with_hash(&delta_remove, h) {
                Some(position) => {
                    let ghost stale = views(delta_remove@);
                    delta_remove.remove(position);
                    assert(views(delta_remove@) =~= stale.remove(position as int));
                },
                None => {
                    proof {
                        lemma_sync_fresh_fails_on::<Machine>(
                            Revision::AddAgain,
                            current,
                            etcd_url@,
                            folder@,
                            fresh,
                            i + 1,
                        );
                    }
                    return None;
                },
            }
        } else {
            cache.add_machine(new_machine.clone());
            let mut reqs = add_machine_to_etcd(etcd_url.clone(), folder.clone(), new_machine.clone());
            let ghost before = views(requests@);
            let ghost added = views(reqs@);
            requests.append(&mut reqs);
            assert(views(requests@) =~= before + added);
            proof {
                touched = true;
            }
        }
        i = i + 1;
    }
    assert(fresh.take(new_machines.len() as int) =~= fresh);
    let ghost st = SyncState {
        list: cache@.machines,
        stale: views(delta_remove@),
        requests: views(requests@),
        touched,
    };
    proof {
        lemma_withdraw_all_from::<Machine>(etcd_url@, folder@, st, st.stale);
    }
    match machine_delete_delta_in_etcd(cache, etcd_url, folder, delta_remove) {
        Some(mut deletes) => {
            let ghost d = views(deletes@);
            requests.append(&mut deletes);
            assert(views(requests@) =~= st.requests + d);
            Some(requests)
        },
        None => None,
    }
}


/* Routes */

impl Published for Route {
    open spec fn publish_requests(etcd: Seq<char>, folder: Seq<char>, v: RouteView) -> Seq<RequestView> {
        let path = item_folder(folder, v.from) + "/"@;
        seq![
            put_value_request(etcd, path, "route_hash"@, decimal(v.hash_value as nat)),
            put_value_request(etcd, path, "from"@, v.from),
            put_value_request(etcd, path, "to"@, v.to),
        ]
    }

    open spec fn revise_requests(etcd: Seq<char>, folder: Seq<char>, v: RouteView) -> Seq<RequestView> {
        seq![put_value_request(etcd, item_folder(folder, v.from) + "/"@, "from"@, v.from)]
    }

    open spec fn withdraw_requests(etcd: Seq<char>, folder: Seq<char>, v: RouteView) -> Seq<RequestView> {
        seq![delete_folder_request(etcd, item_folder(folder, v.from))]
    }
}

/// The hash of the first of `current_routes` from `from`, or 0 if none is.
pub fn get_current_routes_hash(current_routes: &Vec<Route>, from: String) -> (r: u64)
    ensures
        r == crate::record::current_hash::<Route>(views(current_routes@), from@),
{
    current_hash_of(current_routes, &from)
}

/// The requests that publish `route` into the directory `folder`: its
/// hash, origin and next hop under `folder/<from>/`.
pub fn add_route_to_etcd(etcd_url: String, folder: String, route: Route) -> (r: Vec<EtcdRequest>)
    ensures
        views(r@) == Route::publish_requests(etcd_url@, folder@, route@),
{
    let publisher = Publisher::new();
    let from = route.get_from();
    let mut item_path = join_path(&folder, &from);
    item_path.append("/");
    let r = vec![
        publisher.publish_key_value(
            etcd_url.clone(),
            String::from_str("route_hash"),
            decimal_string(route.get_hash_value()),
            item_path.clone(),
        ),
        publisher.publish_key_value(etcd_url.clone(), String::from_str("from"), from, item_path.clone()),
        publisher.publish_key_value(etcd_url, String::from_str("to"), route.get_to(), item_path),
    ];
    assert(views(r@) =~= Route::publish_requests(etcd_url@, folder@, route@));
    r
}

/// The request that publishes a modified `route`: its origin under
/// `folder/<from>/`.
pub fn update_route_in_etcd(etcd_url: String, folder: String, route: Route) -> (r: Vec<EtcdRequest>)
    ensures
        views(r@) == Route::revise_requests(etcd_url@, folder@, route@),
{
    let publisher = Publisher::new();
    let from = route.get_from();
    let mut item_path = join_path(&folder, &from);
    item_path.append("/");
    let r = vec![publisher.publish_key_value(etcd_url, String::from_str("from"), from, item_path)];
    assert(views(r@) =~= Route::revise_requests(etcd_url@, folder@, route@));
    r
}

/// Removes `routes` from the cache one after the other, each by its hash,
/// with the requests that delete their directories under `folder`.  `None`
/// where a route's hash is no longer in the cache.
pub fn route_delete_delta_in_etcd(cache: &mut Root, etcd_url: String, folder: String, routes: Vec<Route>) -> (r: Option<Vec<EtcdRequest>>)
    ensures
        ({
            let start = SyncState {
                list: old(cache)@.routes,
                stale: Seq::empty(),
                requests: Seq::empty(),
                touched: false,
            };
            let outcome = withdraw_all::<Route>(etcd_url@, folder@, start, views(routes@));
            &&& (r is None <==> outcome is None)
            &&& (r matches Some(reqs) ==> {
                &&& views(reqs@) == outcome->0.requests
                &&& final(cache)@ == old(cache)@.with_routes(outcome->0.list, outcome->0.touched, final(cache)@.services_hash)
            })
        }),
{
    let ghost start = SyncState {
        list: old(cache)@.routes,
        stale: Seq::<RouteView>::empty(),
        requests: Seq::<RequestView>::empty(),
        touched: false,
    };
    let ghost xs = views(routes@);
    let mut requests: Vec<EtcdRequest> = Vec::new();
    let ghost mut touched = false;
    let publisher = Publisher::new();
    let mut k: usize = 0;
    assert(xs.take(0) =~= Seq::<RouteView>::empty());
    assert(views(requests@) =~= Seq::<RequestView>::empty());
    while k < routes.len()
        invariant
            k <= routes.len(),
            xs == views(routes@),
            start == (SyncState {
                list: old(cache)@.routes,
                stale: Seq::<RouteView>::empty(),
                requests: Seq::<RequestView>::empty(),
                touched: false,
            }),
            withdraw_all::<Route>(etcd_url@, folder@, start, xs.take(k as int)) == Some(
                SyncState {
                    list: cache@.routes,
                    stale: Seq::<RouteView>::empty(),
                    requests: views(requests@),
                    touched,
                },
            ),
            cache@ == old(cache)@.with_routes(cache@.routes, touched, cache@.services_hash),
        decreases routes.len() - k,
    {
        let route = &routes[k];
        assert(xs.take(k + 1).drop_last() =~= xs.take(k as int));
        assert(xs.take(k + 1).last() == route@);
        proof {
            lemma_first_with_hash::<Route>(cache@.routes, route@.hash_value);
        }
        if position_with_hash(&cache.get_routes(), route.get_hash_value()).is_none() {
            proof {
                lemma_withdraw_all_fails_on::<Route>(etcd_url@, folder@, start, xs, k + 1);
            }
            return None;
        }
        cache.remove_route(route.clone());
        let path = join_path(&folder, &route.get_from());
        let request = publisher.delete_folder(etcd_url.clone(), path);
        let ghost before = views(requests@);
        requests.push(request);
        assert(views(requests@) =~= before + Route::withdraw_requests(etcd_url@, folder@, route@));
        proof {
            touched = true;
        }
        k = k + 1;
    }
    assert(xs.take(routes.len() as int) =~= xs);
    Some(requests)
}

/// Brings the cache's routes in step with `new_routes` (see `crate::delta`;
/// a modified route replaces the cached route of its origin, which is then
/// no longer stale), the routes directory being `base_folder/routes`; gives
/// the requests that bring etcd in step, in order.  `None` where the change
/// detection fails.
pub fn identify_routes_delta(cache: &mut Root, etcd_url: String, base_folder: String, new_routes: Vec<Route>) -> (r: Option<Vec<EtcdRequest>>)
    ensures
        ({
            let outcome = sync_list::<Route>(
                Revision::ReplaceAndRetireByKey,
                true,
                old(cache)@.routes,
                etcd_url@,
                kind_folder(base_folder@, "routes"@),
                views(new_routes@),
            );
            &&& (r is None <==> outcome is None)
            &&& (r matches Some(reqs) ==> {
                &&& views(reqs@) == outcome->0.requests
                &&& final(cache)@ == old(cache)@.with_routes(outcome->0.list, outcome->0.touched, final(cache)@.services_hash)
            })
        }),
{
    let mut folder = base_folder;
    folder.append("/");
    folder.append("routes");
    let mut delta_remove = cache.get_routes();
    let current_routes = cache.get_routes();
    let ghost current = views(current_routes@);
    let ghost fresh = views(new_routes@);
    let mut requests: Vec<EtcdRequest> = Vec::new();
    let ghost mut touched = false;
    let mut i: usize = 0;
    assert(fresh.take(0) =~= Seq::<RouteView>::empty());
    assert(views(requests@) =~= Seq::<RequestView>::empty());
    while i < new_routes.len()
        invariant
            i <= new_routes.len(),
            folder@ == kind_folder(base_folder@, "routes"@),
            current == old(cache)@.routes,
            current == views(current_routes@),
            fresh == views(new_routes@),
            sync_fresh::<Route>(Revision::ReplaceAndRetireByKey, current, etcd_url@, folder@, fresh.take(i as int)) == Some(
                SyncState {
                    list: cache@.routes,
                    stale: views(delta_remove@),
                    requests: views(requests@),
                    touched,
                },
            ),
            cache@ == old(cache)@.with_routes(cache@.routes, touched, cache@.services_hash),
        decreases new_routes.len() - i,
    {
        let new_route = &new_routes[i];
        assert(fresh.take(i + 1).drop_last() =~= fresh.take(i as int));
        assert(fresh.take(i + 1).last() == new_route@);
        let current_route_hash = get_current_routes_hash(&current_routes, new_route.get_from());
        let h = new_route.get_hash_value();
        if current_route_hash == h {
            proof {
                lemma_first_with_hash::<Route>(views(delta_remove@), h);
            }
            match position_with_hash(&delta_remove, h) {
                Some(position) => {
                    let ghost stale = views(delta_remove@);
                    delta_remove.remove(position);
                    assert(views(delta_remove@) =~= stale.remove(position as int));
                },
                None => {
                    proof {
                        lemma_sync_fresh_fails_on::<Route>(
                            Revision::ReplaceAndRetireByKey,
                            current,
                            etcd_url@,
                            folder@,
                            fresh,
                            i + 1,
                        );
                    }
                    return None;
                },
            }
        } else if current_route_hash > 0 {
            let from = new_route.get_from();
            proof {
                lemma_first_with_key::<Route>(views(delta_remove@), from@);
            }
            match position_with_key(&delta_remove, &from) {
                Some(position) => {
                    let ghost stale = views(delta_remove@);
                    delta_remove.remove(position);
                    assert(views(delta_remove@) =~= stale.remove(position as int));
                },
                None => {},
            }
            cache.replace_route(new_route.clone());
            let mut reqs = update_route_in_etcd(etcd_url.clone(), folder.clone(), new_route.clone());
            let ghost before = views(requests@);
            let ghost added = views(reqs@);
            requests.append(&mut reqs);
            assert(views(requests@) =~= before + added);
            proof {
                touched = true;
            }
        } else {
            cache.add_route(new_route.clone());
            let mut reqs = add_route_to_etcd(etcd_url.clone(), folder.clone(), new_route.clone());
            let ghost before = views(requests@);
            let ghost added = views(reqs@);
            requests.append(&mut reqs);
            assert(views(requests@) =~= before + added);
            proof {
                touched = true;
            }
        }
        i = i + 1;
    }
    assert(fresh.take(new_routes.len() as int) =~= fresh);
    let ghost st = SyncState {
        list: cache@.routes,
        stale: views(delta_remove@),
        requests: views(requests@),
        touched,
    };
    proof {
        lemma_withdraw_all_from::<Route>(etcd_url@, folder@, st, st.stale);
    }
    match route_delete_delta_in_etcd(cache, etcd_url, folder, delta_remove) {
        Some(mut deletes) => {
            let ghost d = views(deletes@);
            requests.append(&mut deletes);
            assert(views(requests@) =~= st.requests + d);
            Some(requests)
        },
        None => None,
    }
}


/* Ports */

impl Published for Port {
    open spec fn publish_requests(etcd: Seq<char>, folder: Seq<char>, v: PortView) -> Seq<RequestView> {
        seq![put_value_request(etcd, folder, v.id, v.state)]
    }

    open spec fn revise_requests(etcd: Seq<char>, folder: Seq<char>, v: PortView) -> Seq<RequestView> {
        seq![put_value_request(etcd, folder, v.id, v.state)]
    }

    /// Ports are not withdrawn.
    open spec fn withdraw_requests(etcd: Seq<char>, folder: Seq<char>, v: PortView) -> Seq<RequestView> {
        Seq::empty()
    }
}

/// The hash of the first of `current_ports` with id `id`, or 0 if none is.
pub fn get_current_port_hash(current_ports: &Vec<Port>, id: String) -> (r: u64)
    ensures
        r == crate::record::current_hash::<Port>(views(current_ports@), id@),
{
    current_hash_of(current_ports, &id)
}

/// The request that publishes a new `port`: its state under `folder` + id.
pub fn add_port_to_etcd(etcd_url: String, folder: String, port: Port) -> (r: Vec<EtcdRequest>)
    ensures
        views(r@) == Port::publish_requests(etcd_url@, folder@, port@),
{
    let publisher = Publisher::new();
    let r = vec![publisher.publish_key_value(etcd_url, port.get_id(), port.get_state(), folder)];
    assert(views(r@) =~= Port::publish_requests(etcd_url@, folder@, port@));
    r
}

/// The request that publishes a modified `port`: its state under `folder` +
/// id.
pub fn update_port_in_etcd(etcd_url: String, folder: String, port: Port) -> (r: Vec<EtcdRequest>)
    ensures
        views(r@) == Port::revise_requests(etcd_url@, folder@, port@),
{
    let publisher = Publisher::new();
    let r = vec![publisher.publish_key_value(etcd_url, port.get_id(), port.get_state(), folder)];
    assert(views(r@) =~= Port::revise_requests(etcd_url@, folder@, port@));
    r
}

/// Brings the cache's ports in step with `new_ports` (see `crate::delta`; a
/// modified port replaces the cached port of its id, and no port is
/// withdrawn), the ports directory being `base_folder/ports/`; gives the
/// requests that bring etcd in step, in order.  `None` where the change
/// detection fails.
pub fn identify_ports_delta(cache: &mut Root, etcd_url: String, base_folder: String, new_ports: Vec<Port>) -> (r: Option<Vec<EtcdRequest>>)
    ensures
        ({
            let outcome = sync_list::<Port>(
                Revision::ReplaceByKey,
                false,
                old(cache)@.ports,
                etcd_url@,
                kind_folder(base_folder@, "ports"@) + "/"@,
                views(new_ports@),
            );
            &&& (r is None <==> outcome is None)
            &&& (r matches Some(reqs) ==> {
                &&& views(reqs@) == outcome->0.requests
                &&& final(cache)@ == old(cache)@.with_ports(outcome->0.list, outcome->0.touched, final(cache)@.services_hash)
            })
        }),
{
    let mut folder = base_folder;
    folder.append("/");
    folder.append("ports");
    folder.append("/");
    let mut delta_remove = cache.get_ports();
    let current_ports = cache.get_ports();
    let ghost current = views(current_ports@);
    let ghost fresh = views(new_ports@);
    let mut requests: Vec<EtcdRequest> = Vec::new();
    let ghost mut touched = false;
    let mut i: usize = 0;
    assert(fresh.take(0) =~= Seq::<PortView>::empty());
    assert(views(requests@) =~= Seq::<RequestView>::empty());
    while i < new_ports.len()
        invariant
            i <= new_ports.len(),
            folder@ == kind_folder(base_folder@, "ports"@) + "/"@,
            current == old(cache)@.ports,
            current == views(current_ports@),
            fresh == views(new_ports@),
            sync_fresh::<Port>(Revision::ReplaceByKey, current, etcd_url@, folder@, fresh.take(i as int)) == Some(
                SyncState {
                    list: cache@.ports,
                    stale: views(delta_remove@),
                    requests: views(requests@),
                    touched,
                },
            ),
            cache@ == old(cache)@.with_ports(cache@.ports, touched, cache@.services_hash),
        decreases new_ports.len() - i,
    {
        let new_port = &new_ports[i];
        assert(fresh.take(i + 1).drop_last() =~= fresh.take(i as int));
        assert(fresh.take(i + 1).last() == new_port@);
        let current_port_hash = get_current_port_hash(&current_ports, new_port.get_id());
        let h = new_port.get_hash_value();
        let mut reqs: Vec<EtcdRequest>;
        if current_port_hash == h {
            proof {
                lemma_first_with_hash::<Port>(views(delta_remove@), h);
            }
            match position_with_hash(&delta_remove, h) {
                Some(position) => {
                    let ghost stale = views(delta_remove@);
                    delta_remove.remove(position);
                    assert(views(delta_remove@) =~= stale.remove(position as int));
                },
                None => {
                    proof {
                        lemma_sync_fresh_fails_on::<Port>(
                            Revision::ReplaceByKey,
                            current,
                            etcd_url@,
                            folder@,
                            fresh,
                            i + 1,
                        );
                    }
                    return None;
                },
            }
        } else {
            if current_port_hash > 0 {
                cache.update_port(new_port.clone());
                reqs = update_port_in_etcd(etcd_url.clone(), folder.clone(), new_port.clone());
            } else {
                cache.add_port(new_port.clone());
                reqs = add_port_to_etcd(etcd_url.clone(), folder.clone(), new_port.clone());
            }
            let ghost before = views(requests@);
            let ghost added = views(reqs@);
            requests.append(&mut reqs);
            assert(views(requests@) =~= before + added);
            proof {
                touched = true;
            }
        }
        i = i + 1;
    }
    assert(fresh.take(new_ports.len() as int) =~= fresh);
    Some(requests)
}


/* The rounds */

/// Whether a round runs the change detection of a kind of record: the hash
/// read differs from the one kept.
pub open spec fn round_runs(kept: u64, read: u64) -> bool {
    read != kept
}

/// The hash kept after a successful round: the hash read, whether the
/// change detection ran or the hash was already kept.
pub open spec fn kept_after_round(kept: u64, read: u64) -> u64 {
    if round_runs(kept, read) {
        read
    } else {
        kept
    }
}

/// The hash kept after successful rounds that read the hashes `reads` in
/// turn, the hash kept at the start being `first`.
pub open spec fn kept_after_rounds(first: u64, reads: Seq<u64>) -> u64
    decreases reads.len(),
{
    if reads.len() == 0 {
        first
    } else {
        kept_after_round(kept_after_rounds(first, reads.drop_last()), reads.last())
    }
}

/// The law of the rounds: over successful rounds that read, for one kind of
/// record, the hashes `reads` in turn, the change detection runs in a round
/// if and only if the hash read in it differs from the hash read in the
/// round before (for the first round, from `first`, the hash kept at the
/// start: 0 for a new `SyncRound`).
pub proof fn lemma_rounds(first: u64, reads: Seq<u64>)
    ensures
        forall|k: int|
            0 <= k < reads.len() ==> (round_runs(
                #[trigger] kept_after_rounds(first, reads.take(k)),
                reads[k],
            ) <==> reads[k] != (if k == 0 {
                first
            } else {
                reads[k - 1]
            })),
{
    assert forall|k: int| 0 <= k < reads.len() implies kept_after_rounds(first, reads.take(k)) == (if k == 0 {
        first
    } else {
        reads[k - 1]
    }) by {
        if k > 0 {
            assert(reads.take(k).drop_last() =~= reads.take(k - 1));
            assert(reads.take(k).last() == reads[k - 1]);
        } else {
            assert(reads.take(0).len() == 0);
        }
    }
}

/* The synchronisation loop */

/// Where etcd is, where in it the state goes, and where the state is read
/// from.
pub struct StateSync {
    etcd_url: String,
    base_dir: String,
    network_agent_type: String,
    network_agent_url: String,
    service_api_url: String,
    machine_api_url: String,
}

/// The hashes of the lists as they were last brought into etcd, one per
/// kind of record (0 before the first round).
pub struct SyncRound {
    pub services_hash_old: u64,
    pub machines_hash_old: u64,
    pub routes_hash_old: u64,
    pub ports_hash_old: u64,
}

impl SyncRound {
    /// No list brought into etcd yet.
    pub fn new() -> (r: SyncRound)
        ensures
            r.services_hash_old == 0,
            r.machines_hash_old == 0,
            r.routes_hash_old == 0,
            r.ports_hash_old == 0,
    {
        SyncRound { services_hash_old: 0, machines_hash_old: 0, routes_hash_old: 0, ports_hash_old: 0 }
    }
}

impl StateSync {
    pub fn new(
        etcd_url: String,
        base_dir: String,
        network_agent_type: String,
        network_agent_url: String,
        service_api_url: String,
        machine_api_url: String,
    ) -> (s: StateSync)
        ensures
            s.etcd_url() == etcd_url@,
            s.base_dir() == base_dir@,
            s.network_agent_type() == network_agent_type@,
            s.network_agent_url() == network_agent_url@,
            s.service_api_url() == service_api_url@,
            s.machine_api_url() == machine_api_url@,
    {
        StateSync {
            etcd_url,
            base_dir,
            network_agent_type,
            network_agent_url,
            service_api_url,
            machine_api_url,
        }
    }

    pub closed spec fn etcd_url(&self) -> Seq<char> {
        self.etcd_url@
    }

    pub closed spec fn base_dir(&self) -> Seq<char> {
        self.base_dir@
    }

    pub closed spec fn network_agent_type(&self) -> Seq<char> {
        self.network_agent_type@
    }

    pub closed spec fn network_agent_url(&self) -> Seq<char> {
        self.network_agent_url@
    }

    pub closed spec fn service_api_url(&self) -> Seq<char> {
        self.service_api_url@
    }

    pub closed spec fn machine_api_url(&self) -> Seq<char> {
        self.machine_api_url@
    }

    /// The URL of the network agent and the agent it is, if its type names
    /// one.
    pub fn network_agent(&self) -> (r: (String, Option<NetworkAgent>))
        ensures
            r.0@ == self.network_agent_url(),
            r.1 == (if self.network_agent_type() == "fboss"@ {
                Some(NetworkAgent::Fboss)
            } else if self.network_agent_type() == "snaproute"@ {
                Some(NetworkAgent::Snaproute)
            } else {
                None
            }),
    {
        (self.network_agent_url.clone(), network_agent(&self.network_agent_type))
    }

    /// The URL of the service API.
    pub fn service_api(&self) -> (r: String)
        ensures
            r@ == self.service_api_url(),
    {
        self.service_api_url.clone()
    }

    /// The URL of the machine API.
    pub fn machine_api(&self) -> (r: String)
        ensures
            r@ == self.machine_api_url(),
    {
        self.machine_api_url.clone()
    }

    /// The request that makes the base directory, sent before the first
    /// round.
    pub fn initial_request(&self) -> (r: EtcdRequest)
        ensures
            r@ == create_folder_request(self.etcd_url(), self.base_dir()),
    {
        Publisher::new().create_folder(self.etcd_url.clone(), self.base_dir.clone())
    }

    /// One round for the services: if the hash of the services read differs
    /// from the last one brought into etcd, the change detection runs and
    /// the hash is kept; otherwise nothing happens and no request is made.
    /// `None` where the change detection fails.
    pub fn sync_services(&self, round: &mut SyncRound, cache: &mut Root, services_hash_new: u64, services: Vec<Service>) -> (r: Option<Vec<EtcdRequest>>)
        ensures
            !round_runs(old(round).services_hash_old, services_hash_new) ==> {
                &&& r matches Some(reqs) && reqs@.len() == 0
                &&& *final(round) == *old(round)
                &&& final(cache)@ == old(cache)@
            },
            r is Some ==> final(round).services_hash_old == kept_after_round(old(round).services_hash_old, services_hash_new),
            round_runs(old(round).services_hash_old, services_hash_new) ==> {
                let outcome = sync_list::<Service>(
                    Revision::AddAgain,
                    true,
                    old(cache)@.services,
                    self.etcd_url(),
                    kind_folder(self.base_dir(), "services"@),
                    views(services@),
                );
                &&& (r is None <==> outcome is None)
                &&& (r matches Some(reqs) ==> {
                    &&& views(reqs@) == outcome->0.requests
                    &&& final(cache)@ == old(cache)@.with_services(outcome->0.list, outcome->0.touched, final(cache)@.services_hash)
                    &&& *final(round) == SyncRound { services_hash_old: services_hash_new, ..*old(round) }
                })
            },
    {
        if services_hash_new != round.services_hash_old {
            let r = identify_service_delta(cache, self.etcd_url.clone(), self.base_dir.clone(), services);
            if r.is_some() {
                round.services_hash_old = services_hash_new;
            }
            r
        } else {
            Some(Vec::new())
        }
    }

    /// One round for the machines, as `sync_services`.
    pub fn sync_machines(&self, round: &mut SyncRound, cache: &mut Root, machines_hash_new: u64, machines: Vec<Machine>) -> (r: Option<Vec<EtcdRequest>>)
        ensures
            !round_runs(old(round).machines_hash_old, machines_hash_new) ==> {
                &&& r matches Some(reqs) && reqs@.len() == 0
                &&& *final(round) == *old(round)
                &&& final(cache)@ == old(cache)@
            },
            r is Some ==> final(round).machines_hash_old == kept_after_round(old(round).machines_hash_old, machines_hash_new),
            round_runs(old(round).machines_hash_old, machines_hash_new) ==> {
                let outcome = sync_list::<Machine>(
                    Revision::AddAgain,
                    true,
                    old(cache)@.machines,
                    self.etcd_url(),
                    kind_folder(self.base_dir(), "machines"@),
                    views(machines@),
                );
                &&& (r is None <==> outcome is None)
                &&& (r matches Some(reqs) ==> {
                    &&& views(reqs@) == outcome->0.requests
                    &&& final(cache)@ == old(cache)@.with_machines(outcome->0.list, outcome->0.touched, final(cache)@.services_hash)
                    &&& *final(round) == SyncRound { machines_hash_old: machines_hash_new, ..*old(round) }
                })
            },
    {
        if machines_hash_new != round.machines_hash_old {
            let r = identify_machine_delta(cache, self.etcd_url.clone(), self.base_dir.clone(), machines);
            if r.is_some() {
                round.machines_hash_old = machines_hash_new;
            }
            r
        } else {
            Some(Vec::new())
        }
    }

    /// One round for the routes, as `sync_services`.
    pub fn sync_routes(&self, round: &mut SyncRound, cache: &mut Root, routes_hash_new: u64, routes: Vec<Route>) -> (r: Option<Vec<EtcdRequest>>)
        ensures
            !round_runs(old(round).routes_hash_old, routes_hash_new) ==> {
                &&& r matches Some(reqs) && reqs@.len() == 0
                &&& *final(round) == *old(round)
                &&& final(cache)@ == old(cache)@
            },
            r is Some ==> final(round).routes_hash_old == kept_after_round(old(round).routes_hash_old, routes_hash_new),
            round_runs(old(round).routes_hash_old, routes_hash_new) ==> {
                let outcome = sync_list::<Route>(
                    Revision::ReplaceAndRetireByKey,
                    true,
                    old(cache)@.routes,
                    self.etcd_url(),
                    kind_folder(self.base_dir(), "routes"@),
                    views(routes@),
                );
                &&& (r is None <==> outcome is None)
                &&& (r matches Some(reqs) ==> {
                    &&& views(reqs@) == outcome->0.requests
                    &&& final(cache)@ == old(cache)@.with_routes(outcome->0.list, outcome->0.touched, final(cache)@.services_hash)
                    &&& *final(round) == SyncRound { routes_hash_old: routes_hash_new, ..*old(round) }
                })
            },
    {
        if routes_hash_new != round.routes_hash_old {
            let r = identify_routes_delta(cache, self.etcd_url.clone(), self.base_dir.clone(), routes);
            if r.is_some() {
                round.routes_hash_old = routes_hash_new;
            }
            r
        } else {
            Some(Vec::new())
        }
    }

    /// One round for the ports, as `sync_services`.
    pub fn sync_ports(&self, round: &mut SyncRound, cache: &mut Root, ports_hash_new: u64, ports: Vec<Port>) -> (r: Option<Vec<EtcdRequest>>)
        ensures
            !round_runs(old(round).ports_hash_old, ports_hash_new) ==> {
                &&& r matches Some(reqs) && reqs@.len() == 0
                &&& *final(round) == *old(round)
                &&& final(cache)@ == old(cache)@
            },
            r is Some ==> final(round).ports_hash_old == kept_after_round(old(round).ports_hash_old, ports_hash_new),
            round_runs(old(round).ports_hash_old, ports_hash_new) ==> {
                let outcome = sync_list::<Port>(
                    Revision::ReplaceByKey,
                    false,
                    old(cache)@.ports,
                    self.etcd_url(),
                    kind_folder(self.base_dir(), "ports"@) + "/"@,
                    views(ports@),
                );
                &&& (r is None <==> outcome is None)
                &&& (r matches Some(reqs) ==> {
                    &&& views(reqs@) == outcome->0.requests
                    &&& final(cache)@ == old(cache)@.with_ports(outcome->0.list, outcome->0.touched, final(cache)@.services_hash)
                    &&& *final(round) == SyncRound { ports_hash_old: ports_hash_new, ..*old(round) }
                })
            },
    {
        if ports_hash_new != round.ports_hash_old {
            let r = identify_ports_delta(cache, self.etcd_url.clone(), self.base_dir.clone(), ports);
            if r.is_some() {
                round.ports_hash_old = ports_hash_new;
            }
            r
        } else {
            Some(Vec::new())
        }
    }
}

/* What the records read carry */

/// Every machine of a listing read by `derive_machines` carries the content
/// hash of its name, IP address and node type under a zero hash.  So two
/// machines read with the same fields carry the same hash, and two machines
/// read with different fields feed the hasher different writes (their
/// hashes differ unless the hasher maps the two to one value).
pub proof fn lemma_read_machines_carry_their_content_hash(
    doc1: JsonValue,
    machines1: Seq<MachineView>,
    doc2: JsonValue,
    machines2: Seq<MachineView>,
)
    requires
        lists_machines(doc1, machines1),
        lists_machines(doc2, machines2),
    ensures
        forall|i: int|
            0 <= i < machines1.len() ==> (#[trigger] machines1[i]).hash_value == content_hash(
                0,
                seq![machines1[i].name, machines1[i].ip, machines1[i].node_type],
            ),
        forall|i: int, j: int|
            0 <= i < machines1.len() && 0 <= j < machines2.len() ==> {
                &&& (#[trigger] machines1[i]).texts() == (#[trigger] machines2[j]).texts()
                    ==> machines1[i].hash_value == machines2[j].hash_value
                &&& machines1[i].texts() != machines2[j].texts() ==> record_writes(
                    0,
                    machines1[i].texts(),
                ) != record_writes(0, machines2[j].texts())
            },
{
    let p = |v: MachineView| v.hash_value == content_hash(0, v.texts());
    let u1 = choose|u: Seq<MachineView>|
        #![trigger sort_views::<Machine>(u)]
        {
            &&& u.len() == listed(doc1).len()
            &&& forall|i: int| 0 <= i < u.len() ==> machine_listed(listed(doc1)[i], #[trigger] u[i])
            &&& machines1 == sort_views::<Machine>(u)
        };
    let u2 = choose|u: Seq<MachineView>|
        #![trigger sort_views::<Machine>(u)]
        {
            &&& u.len() == listed(doc2).len()
            &&& forall|i: int| 0 <= i < u.len() ==> machine_listed(listed(doc2)[i], #[trigger] u[i])
            &&& machines2 == sort_views::<Machine>(u)
        };
    assert forall|i: int| 0 <= i < u1.len() implies p(#[trigger] u1[i]) by {
        assert(machine_listed(listed(doc1)[i], u1[i]));
    }
    assert forall|i: int| 0 <= i < u2.len() implies p(#[trigger] u2[i]) by {
        assert(machine_listed(listed(doc2)[i], u2[i]));
    }
    lemma_sort_views_keeps::<Machine>(u1, p);
    lemma_sort_views_keeps::<Machine>(u2, p);
    lemma_sort_views_permutes::<Machine>(u1);
    lemma_sort_views_permutes::<Machine>(u2);
    assert forall|i: int|
        0 <= i < machines1.len() implies (#[trigger] machines1[i]).hash_value == content_hash(
            0,
            seq![machines1[i].name, machines1[i].ip, machines1[i].node_type],
        ) by {
        assert(p(machines1[i]));
    }
    assert forall|i: int, j: int|
        0 <= i < machines1.len() && 0 <= j < machines2.len() implies {
            &&& (#[trigger] machines1[i]).texts() == (#[trigger] machines2[j]).texts()
                ==> machines1[i].hash_value == machines2[j].hash_value
            &&& machines1[i].texts() != machines2[j].texts() ==> record_writes(
                0,
                machines1[i].texts(),
            ) != record_writes(0, machines2[j].texts())
        } by {
        assert(p(machines1[i]));
        assert(p(machines2[j]));
        if record_writes(0, machines1[i].texts()) == record_writes(0, machines2[j].texts()) {
            lemma_record_writes_injective(0, machines1[i].texts(), 0, machines2[j].texts());
        }
    }
}

/// Every port read by `get_ports` carries the content hash of its id and its
/// state under a zero hash; so the hash covers the state: two ports read
/// with the same id and different states feed the hasher different writes
/// (their hashes differ unless the hasher maps the two to one value), and
/// two ports read alike carry the same hash.
pub proof fn lemma_read_ports_carry_their_content_hash(
    entries1: Seq<(String, String)>,
    ports1: Seq<PortView>,
    entries2: Seq<(String, String)>,
    ports2: Seq<PortView>,
)
    requires
        lists_ports(entries1, ports1),
        lists_ports(entries2, ports2),
    ensures
        forall|i: int|
            0 <= i < ports1.len() ==> (#[trigger] ports1[i]).hash_value == content_hash(
                0,
                seq![ports1[i].id, ports1[i].state],
            ),
        forall|i: int, j: int|
            0 <= i < ports1.len() && 0 <= j < ports2.len() ==> {
                &&& (#[trigger] ports1[i]).texts() == (#[trigger] ports2[j]).texts()
                    ==> ports1[i].hash_value == ports2[j].hash_value
                &&& ports1[i].state != ports2[j].state ==> record_writes(0, ports1[i].texts())
                    != record_writes(0, ports2[j].texts())
            },
{
    let p = |v: PortView| v.hash_value == content_hash(0, v.texts());
    let u1 = choose|u: Seq<PortView>|
        #![trigger sort_views::<Port>(u)]
        {
            &&& u.len() == entries1.len()
            &&& forall|i: int|
                0 <= i < u.len() ==> {
                    &&& (#[trigger] u[i]).id == slashes_to_dashes(entries1[i].0@)
                    &&& u[i].state == slashes_to_dashes(entries1[i].1@)
                    &&& u[i].hash_value == content_hash(0, u[i].texts())
                }
            &&& ports1 == sort_views::<Port>(u)
        };
    let u2 = choose|u: Seq<PortView>|
        #![trigger sort_views::<Port>(u)]
        {
            &&& u.len() == entries2.len()
            &&& forall|i: int|
                0 <= i < u.len() ==> {
                    &&& (#[trigger] u[i]).id == slashes_to_dashes(entries2[i].0@)
                    &&& u[i].state == slashes_to_dashes(entries2[i].1@)
                    &&& u[i].hash_value == content_hash(0, u[i].texts())
                }
            &&& ports2 == sort_views::<Port>(u)
        };
    assert forall|i: int| 0 <= i < u1.len() implies p(#[trigger] u1[i]) by {}
    assert forall|i: int| 0 <= i < u2.len() implies p(#[trigger] u2[i]) by {}
    lemma_sort_views_keeps::<Port>(u1, p);
    lemma_sort_views_keeps::<Port>(u2, p);
    lemma_sort_views_permutes::<Port>(u1);
    lemma_sort_views_permutes::<Port>(u2);
    assert forall|i: int|
        0 <= i < ports1.len() implies (#[trigger] ports1[i]).hash_value == content_hash(
            0,
            seq![ports1[i].id, ports1[i].state],
        ) by {
        assert(p(ports1[i]));
    }
    assert forall|i: int, j: int|
        0 <= i < ports1.len() && 0 <= j < ports2.len() implies {
            &&& (#[trigger] ports1[i]).texts() == (#[trigger] ports2[j]).texts()
                ==> ports1[i].hash_value == ports2[j].hash_value
            &&& ports1[i].state != ports2[j].state ==> record_writes(0, ports1[i].texts())
                != record_writes(0, ports2[j].texts())
        } by {
        assert(p(ports1[i]));
        assert(p(ports2[j]));
        if record_writes(0, ports1[i].texts()) == record_writes(0, ports2[j].texts()) {
            lemma_record_writes_injective(0, ports1[i].texts(), 0, ports2[j].texts());
            assert(ports1[i].texts()[1] == ports2[j].texts()[1]);
        }
    }
}

/// The services of a listing read by `derive_services` are all published
/// into an empty cache: each carries the content hash of its name,
/// controller and node name under a zero hash, and where none of those
/// hashes is 0, the change detection against a cache with no service takes
/// each service for new and gives, in the order read, the requests that
/// publish each one (see `lemma_sync_into_empty_cache` for a hash of 0).
pub proof fn lemma_read_services_are_published(
    doc: JsonValue,
    services: Seq<ServiceView>,
    etcd: Seq<char>,
    base: Seq<char>,
)
    requires
        lists_services(doc, services),
        forall|i: int|
            0 <= i < services.len() ==> content_hash(0, (#[trigger] services[i]).texts()) != 0,
    ensures
        forall|i: int|
            0 <= i < services.len() ==> (#[trigger] services[i]).hash_value == content_hash(
                0,
                seq![services[i].name, services[i].controller, services[i].node_name],
            ),
        sync_list::<Service>(
            Revision::AddAgain,
            true,
            Seq::empty(),
            etcd,
            kind_folder(base, "services"@),
            services,
        ) is Some,
        sync_list::<Service>(
            Revision::AddAgain,
            true,
            Seq::empty(),
            etcd,
            kind_folder(base, "services"@),
            services,
        )->0.requests == publish_each::<Service>(etcd, kind_folder(base, "services"@), services),
{
    let p = |v: ServiceView| v.hash_value == content_hash(0, v.texts());
    let u = choose|u: Seq<ServiceView>|
        #![trigger sort_views::<Service>(u)]
        {
            &&& u.len() == listed(doc).len()
            &&& forall|i: int| 0 <= i < u.len() ==> service_listed(listed(doc)[i], #[trigger] u[i])
            &&& services == sort_views::<Service>(u)
        };
    assert forall|i: int| 0 <= i < u.len() implies p(#[trigger] u[i]) by {
        assert(service_listed(listed(doc)[i], u[i]));
    }
    lemma_sort_views_keeps::<Service>(u, p);
    lemma_sort_views_permutes::<Service>(u);
    assert forall|i: int|
        0 <= i < services.len() implies (#[trigger] services[i]).hash_value == content_hash(
            0,
            seq![services[i].name, services[i].controller, services[i].node_name],
        ) by {
        assert(p(services[i]));
    }
    assert(all_hashed::<Service>(services));
    lemma_sync_into_empty_cache::<Service>(
        Revision::AddAgain,
        true,
        etcd,
        kind_folder(base, "services"@),
        services,
    );
}

} // verus!
