use statesync::json::{parse_json, text_within_parser_limits, JsonValue};
use statesync::machine::Machine;
use statesync::port::Port;
use statesync::publisher::{EtcdRequest, HttpMethod};
use statesync::root::Root;
use statesync::route::Route;
use statesync::service::Service;
use statesync::statesync::{
    derive_machines, derive_services, get_current_machine_hash, get_current_port_hash,
    get_current_routes_hash, get_current_service_hash, get_ports, get_routes,
    identify_machine_delta, identify_ports_delta, identify_routes_delta, identify_service_delta,
    network_agent, NetworkAgent, StateSync, SyncRound,
};

const ETCD: &str = "http://etcd:2379/v2/keys";

fn uris(reqs: &[EtcdRequest]) -> Vec<String> {
    reqs.iter().map(|r| r.uri.clone()).collect()
}

fn hashes_of_machines(ms: &[Machine]) -> Vec<u64> {
    let mut h: Vec<u64> = ms.iter().map(|m| m.get_hash_value()).collect();
    h.sort();
    h
}

fn doc(text: &str) -> JsonValue {
    parse_json(&text.to_string()).unwrap()
}

#[test]
fn parse_json_reads_the_document() {
    match doc("[{\"name\": \"m1\", \"n\": 5}, 3]") {
        JsonValue::Array(items) => {
            assert_eq!(items.len(), 2);
            match &items[0] {
                JsonValue::Object(members) => {
                    assert_eq!(members.len(), 2);
                    assert_eq!(members[0].0, "n");
                    assert!(matches!(members[0].1, JsonValue::U64(5)));
                    assert_eq!(members[1].0, "name");
                    assert!(matches!(&members[1].1, JsonValue::Text(s) if s == "m1"));
                }
                _ => panic!("not an object"),
            }
            assert!(matches!(items[1], JsonValue::U64(3)));
        }
        _ => panic!("not an array"),
    }
    assert!(matches!(doc("-4"), JsonValue::I64(-4)));
    assert!(matches!(doc("1.5"), JsonValue::Float));
    assert!(matches!(doc("null"), JsonValue::Null));
    assert!(parse_json(&"{not json".to_string()).is_none());
}

#[test]
fn texts_beyond_the_parser_limits_are_refused() {
    // Nesting: 64 levels are read, 65 are refused.
    let nested = |n: usize| format!("{}{}", "[".repeat(n), "]".repeat(n));
    assert!(text_within_parser_limits(&nested(64)));
    assert!(parse_json(&nested(64)).is_some());
    assert!(!text_within_parser_limits(&nested(65)));
    assert!(parse_json(&nested(65)).is_none());
    assert!(parse_json(&nested(100_000)).is_none());

    // Keys: 1023 bytes as written are read, 1024 are refused.
    let keyed = |k: &str| format!("{{\"{}\": 1}}", k);
    assert!(parse_json(&keyed(&"a".repeat(1023))).is_some());
    assert!(parse_json(&keyed(&"a".repeat(1024))).is_none());
    let long_key = format!("{}a", "\u{e9}".repeat(32768));
    assert!(!text_within_parser_limits(&keyed(&long_key)));
    assert!(parse_json(&keyed(&long_key)).is_none());
    // A long string that is a value, not a key, is read.
    let long_value = format!("{{\"k\": \"{}\"}}", "\u{e9}".repeat(40000));
    assert!(parse_json(&long_value).is_some());

    // Exponents: nine digits are read, ten are refused.
    assert!(parse_json(&"1e000000001".to_string()).is_some());
    assert!(parse_json(&"1e-0000000001".to_string()).is_none());
    assert!(parse_json(&"[2E+1234567890]".to_string()).is_none());

    // Within the limits, a text that is not JSON is still refused.
    assert!(text_within_parser_limits("{not json"));
    assert!(parse_json(&"{not json".to_string()).is_none());
}

#[test]
fn listings_are_arrays_of_objects_or_an_empty_string() {
    assert!(doc("[]").is_listing());
    assert!(doc("[{}, {\"a\": 1}]").is_listing());
    assert!(doc("\"\"").is_listing());
    assert!(!doc("\"x\"").is_listing());
    assert!(!doc("[1]").is_listing());
    assert!(!doc("{}").is_listing());
}

#[test]
fn machines_are_read_from_the_listing() {
    let d = doc(
        "[{\"name\": \"m2\", \"ip\": \"10.0.0.2\", \"node_type\": \"compute\", \"extra\": 1},
          {\"name\": 17, \"ip\": true, \"node_type\": {\"a\": 1}},
          {\"name\": -3, \"ip\": 1.5, \"node_type\": [1]},
          {\"other\": \"x\"}]",
    );
    let (_, machines) = derive_machines(&d);
    assert_eq!(machines.len(), 4);
    let mut fields: Vec<(String, String, String)> =
        machines.iter().map(|m| (m.get_name(), m.get_ip(), m.get_node_type())).collect();
    fields.sort();
    assert_eq!(
        fields,
        vec![
            ("".to_string(), "".to_string(), "".to_string()),
            ("".to_string(), "".to_string(), "array".to_string()),
            ("17".to_string(), "true".to_string(), "object".to_string()),
            ("m2".to_string(), "10.0.0.2".to_string(), "compute".to_string()),
        ]
    );
    // Sorted as std sorts by `Ord`.
    let mut sorted = machines.clone();
    sorted.sort();
    assert_eq!(sorted, machines);
    assert!(machines.iter().all(|m| m.get_hash_value() != 0));
    let (_, none) = derive_machines(&doc("\"\""));
    assert!(none.is_empty());
}

#[test]
fn services_are_read_from_the_listing() {
    let d = doc("[{\"name\": \"s1\", \"controller\": \"c1\", \"node_name\": \"n1\"}]");
    let (h1, services) = derive_services(&d);
    assert_eq!(services.len(), 1);
    assert_eq!(services[0].get_name(), "s1");
    assert_eq!(services[0].get_controller(), "c1");
    assert_eq!(services[0].get_node_name(), "n1");
    let (h2, _) = derive_services(&d);
    assert_eq!(h1, h2);
}

#[test]
fn routes_and_ports_have_no_slash() {
    let (_, routes) = get_routes(vec![
        ("10.0.0.0/8".to_string(), "eth0/1".to_string()),
        ("a".to_string(), "b".to_string()),
    ]);
    assert_eq!(routes.len(), 2);
    assert!(routes.iter().any(|r| r.get_from() == "10.0.0.0-8" && r.get_to() == "eth0-1"));
    let (_, ports) = get_ports(vec![("1/1".to_string(), "true".to_string())]);
    assert_eq!(ports[0].get_id(), "1-1");
    assert_eq!(ports[0].get_state(), "true");
}

#[test]
fn agents_are_named_by_type() {
    assert_eq!(network_agent(&"fboss".to_string()), Some(NetworkAgent::Fboss));
    assert_eq!(network_agent(&"snaproute".to_string()), Some(NetworkAgent::Snaproute));
    assert_eq!(network_agent(&"other".to_string()), None);
}

#[test]
fn current_hash_is_that_of_the_first_match() {
    let ms = vec![
        Machine::new(4, "a".to_string(), "".to_string(), "".to_string()),
        Machine::new(5, "b".to_string(), "".to_string(), "".to_string()),
        Machine::new(6, "b".to_string(), "".to_string(), "".to_string()),
    ];
    assert_eq!(get_current_machine_hash(&ms, "b".to_string()), 5);
    assert_eq!(get_current_machine_hash(&ms, "c".to_string()), 0);
    let ss = vec![Service::new(8, "s".to_string(), "c".to_string())];
    assert_eq!(get_current_service_hash(&ss, "s".to_string()), 8);
    let rs = vec![Route::new("f".to_string(), "t".to_string())];
    assert_eq!(get_current_routes_hash(&rs, "f".to_string()), 0);
    let mut p = Port::new("1".to_string(), "up".to_string());
    p.set_hash();
    let h = p.get_hash_value();
    assert_eq!(get_current_port_hash(&vec![p], "1".to_string()), h);
}

fn machine(name: &str, ip: &str) -> Machine {
    let mut m = Machine::new(0, name.to_string(), ip.to_string(), "compute".to_string());
    m.set_hash();
    m
}

#[test]
fn machines_are_published_and_withdrawn() {
    let mut cache = Root::new(0, "root".to_string(), 0, Vec::new());
    let m1 = machine("m1", "10.0.0.1");
    let m2 = machine("m2", "10.0.0.2");
    let reqs = identify_machine_delta(&mut cache, ETCD.to_string(), "/att".to_string(), vec![m1.clone(), m2.clone()])
        .unwrap();
    assert_eq!(reqs.len(), 8);
    assert!(reqs.iter().all(|r| r.method == HttpMethod::Put));
    assert_eq!(
        uris(&reqs[0..4]),
        vec![
            format!("{}/att/machines/m1/machine_hash?value={}", ETCD, m1.get_hash_value()),
            format!("{}/att/machines/m1/machinename?value=m1", ETCD),
            format!("{}/att/machines/m1/ip?value=10.0.0.1", ETCD),
            format!("{}/att/machines/m1/node_type?value=compute", ETCD),
        ]
    );
    assert_eq!(cache.get_machines().len(), 2);

    // The same machines again: nothing to do.
    let reqs = identify_machine_delta(&mut cache, ETCD.to_string(), "/att".to_string(), vec![m1.clone(), m2.clone()])
        .unwrap();
    assert!(reqs.is_empty());

    // m2 is gone and m1 changed its address.
    let m1b = machine("m1", "10.0.0.9");
    let reqs = identify_machine_delta(&mut cache, ETCD.to_string(), "/att".to_string(), vec![m1b.clone()]).unwrap();
    assert_eq!(reqs.len(), 6);
    let deletes: Vec<&EtcdRequest> = reqs.iter().filter(|r| r.method == HttpMethod::Delete).collect();
    assert_eq!(deletes.len(), 2);
    let mut deleted: Vec<String> = deletes.iter().map(|r| r.uri.clone()).collect();
    deleted.sort();
    assert_eq!(
        deleted,
        vec![
            format!("{}/att/machines/m1?recursive=true", ETCD),
            format!("{}/att/machines/m2?recursive=true", ETCD),
        ]
    );
    // The cache holds the hashes of the machines read, no more.
    assert_eq!(hashes_of_machines(&cache.get_machines()), hashes_of_machines(&[m1b]));
}

#[test]
fn an_unchanged_machine_twice_fails_the_detection() {
    let mut cache = Root::new(0, "root".to_string(), 0, Vec::new());
    let m1 = machine("m1", "10.0.0.1");
    identify_machine_delta(&mut cache, ETCD.to_string(), "/att".to_string(), vec![m1.clone()]).unwrap();
    assert!(identify_machine_delta(&mut cache, ETCD.to_string(), "/att".to_string(), vec![m1.clone(), m1]).is_none());
}

#[test]
fn services_are_published_under_their_name() {
    let mut cache = Root::new(0, "root".to_string(), 0, Vec::new());
    let mut s = Service::new(0, "web".to_string(), "ctl".to_string());
    s.set_hash();
    let reqs = identify_service_delta(&mut cache, ETCD.to_string(), "/att".to_string(), vec![s.clone()]).unwrap();
    assert_eq!(
        uris(&reqs),
        vec![
            format!("{}/att/services/web/service_hash?value={}", ETCD, s.get_hash_value()),
            format!("{}/att/services/web/servicename?value=web", ETCD),
            format!("{}/att/services/web/servicecontroller?value=ctl", ETCD),
            format!("{}/att/services/web/node_name?value=", ETCD),
        ]
    );
    let reqs = identify_service_delta(&mut cache, ETCD.to_string(), "/att".to_string(), vec![]).unwrap();
    assert_eq!(uris(&reqs), vec![format!("{}/att/services/web?recursive=true", ETCD)]);
    assert!(cache.get_services().is_empty());
}

fn route(from: &str, to: &str) -> Route {
    let mut r = Route::new(from.to_string(), to.to_string());
    r.set_hash();
    r
}

#[test]
fn routes_are_published_and_a_modified_route_replaces_its_origin() {
    let mut cache = Root::new(0, "root".to_string(), 0, Vec::new());
    let r1 = route("10.0.0.0-8", "eth0");
    let r2 = route("10.1.0.0-16", "eth1");
    let reqs = identify_routes_delta(&mut cache, ETCD.to_string(), "/att".to_string(), vec![r1.clone(), r2.clone()])
        .unwrap();
    assert_eq!(
        uris(&reqs[0..3]),
        vec![
            format!("{}/att/routes/10.0.0.0-8/route_hash?value={}", ETCD, r1.get_hash_value()),
            format!("{}/att/routes/10.0.0.0-8/from?value=10.0.0.0-8", ETCD),
            format!("{}/att/routes/10.0.0.0-8/to?value=eth0", ETCD),
        ]
    );
    // r1 now leads elsewhere: it replaces the cached route of its origin,
    // the update is published, and nothing is withdrawn.
    let r1b = route("10.0.0.0-8", "eth1");
    let reqs = identify_routes_delta(&mut cache, ETCD.to_string(), "/att".to_string(), vec![r1b.clone(), r2.clone()])
        .unwrap();
    assert_eq!(uris(&reqs), vec![format!("{}/att/routes/10.0.0.0-8/from?value=10.0.0.0-8", ETCD)]);
    assert!(reqs.iter().all(|r| r.method == HttpMethod::Put));
    let routes = cache.get_routes();
    assert_eq!(routes.len(), 2);
    assert!(routes.iter().any(|r| r.get_from() == "10.0.0.0-8" && r.get_to() == "eth1"));
    assert!(!routes.iter().any(|r| r.get_to() == "eth0"));
    // A route no longer read is withdrawn.
    let reqs = identify_routes_delta(&mut cache, ETCD.to_string(), "/att".to_string(), vec![r1b]).unwrap();
    assert_eq!(uris(&reqs), vec![format!("{}/att/routes/10.1.0.0-16?recursive=true", ETCD)]);
    assert_eq!(cache.get_routes().len(), 1);
}

#[test]
fn rounds_run_the_detection_only_when_the_hash_changes() {
    let sync = StateSync::new(
        ETCD.to_string(),
        "/att".to_string(),
        "none".to_string(),
        "".to_string(),
        "".to_string(),
        "".to_string(),
    );
    let mut round = SyncRound::new();
    let mut cache = Root::new(0, "root".to_string(), 0, Vec::new());
    let one = vec![("a".to_string(), "b".to_string())];
    let two = vec![("a".to_string(), "c".to_string())];
    let mut ran = Vec::new();
    for entries in [one.clone(), one.clone(), two.clone(), two, one] {
        let (hash, routes) = get_routes(entries);
        let before = round.routes_hash_old;
        let reqs = sync.sync_routes(&mut round, &mut cache, hash, routes).unwrap();
        ran.push(hash != before);
        assert_eq!(round.routes_hash_old, hash);
        if hash == before {
            assert!(reqs.is_empty());
        } else {
            assert!(!reqs.is_empty());
        }
    }
    assert_eq!(ran, vec![true, false, true, false, true]);
}

fn port(id: &str, state: &str) -> Port {
    let mut p = Port::new(id.to_string(), state.to_string());
    p.set_hash();
    p
}

#[test]
fn ports_are_published_and_replaced() {
    let mut cache = Root::new(0, "root".to_string(), 0, Vec::new());
    let reqs = identify_ports_delta(&mut cache, ETCD.to_string(), "/att".to_string(), vec![port("1-1", "true")]).unwrap();
    assert_eq!(uris(&reqs), vec![format!("{}/att/ports/1-1?value=true", ETCD)]);
    let reqs = identify_ports_delta(
        &mut cache,
        ETCD.to_string(),
        "/att".to_string(),
        vec![port("1-1", "false"), port("1-2", "true")],
    )
    .unwrap();
    assert_eq!(
        uris(&reqs),
        vec![format!("{}/att/ports/1-1?value=false", ETCD), format!("{}/att/ports/1-2?value=true", ETCD)]
    );
    let ports = cache.get_ports();
    assert_eq!(ports.len(), 2);
    assert!(ports.iter().any(|p| p.get_id() == "1-1" && p.get_state() == "false"));
    // Ports that are no longer read stay cached.
    let reqs = identify_ports_delta(&mut cache, ETCD.to_string(), "/att".to_string(), vec![]).unwrap();
    assert!(reqs.is_empty());
    assert_eq!(cache.get_ports().len(), 2);
}

#[test]
fn a_round_with_an_unchanged_hash_does_nothing() {
    let sync = StateSync::new(
        ETCD.to_string(),
        "/att".to_string(),
        "fboss".to_string(),
        "http://agent".to_string(),
        "http://services".to_string(),
        "http://machines".to_string(),
    );
    let first = sync.initial_request();
    assert_eq!(first.method, HttpMethod::Put);
    assert_eq!(first.uri, format!("{}/att?dir=true", ETCD));
    assert_eq!(sync.service_api(), "http://services");
    assert_eq!(sync.machine_api(), "http://machines");
    assert_eq!(sync.network_agent(), ("http://agent".to_string(), Some(NetworkAgent::Fboss)));

    let mut round = SyncRound::new();
    let mut cache = Root::new(0, "root".to_string(), 0, Vec::new());
    let d = doc("[{\"name\": \"m1\", \"ip\": \"1\", \"node_type\": \"t\"}]");
    let (hash, machines) = derive_machines(&d);
    let reqs = sync.sync_machines(&mut round, &mut cache, hash, machines).unwrap();
    assert_eq!(reqs.len(), 4);
    assert_eq!(round.machines_hash_old, hash);
    let (hash, machines) = derive_machines(&d);
    let reqs = sync.sync_machines(&mut round, &mut cache, hash, machines).unwrap();
    assert!(reqs.is_empty());

    let (hash, services) = derive_services(&doc("[]"));
    assert!(sync.sync_services(&mut round, &mut cache, hash, services).unwrap().is_empty());
    let (hash, routes) = get_routes(vec![("a".to_string(), "b".to_string())]);
    assert_eq!(sync.sync_routes(&mut round, &mut cache, hash, routes).unwrap().len(), 3);
    let (hash, ports) = get_ports(vec![("1".to_string(), "up".to_string())]);
    assert_eq!(sync.sync_ports(&mut round, &mut cache, hash, ports).unwrap().len(), 1);
}
