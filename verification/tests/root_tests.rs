use statesync::machine::Machine;
use statesync::port::Port;
use statesync::root::Root;
use statesync::route::Route;
use statesync::service::Service;

#[test]
fn add_service_1() {
    let mut root = Root::new(0, "root_1".to_string(), 0, Vec::new());

    let service1 = Service::new(0, "service_name_1".to_string(), "controller_1".to_string());
    root.add_service(service1);

    let service2 = Service::new(0, "service_name_2".to_string(), "controller_1".to_string());
    root.add_service(service2);

    let mut root = Root::new(0, "root_1".to_string(), 0, Vec::new());

    let service2 = Service::new(0, "service_name_2".to_string(), "controller_1".to_string());
    root.add_service(service2);

    let service1 = Service::new(0, "service_name_1".to_string(), "controller_1".to_string());
    root.add_service(service1);
}

fn service_names(root: &Root) -> Vec<String> {
    root.get_services().iter().map(|s| s.get_name()).collect()
}

#[test]
fn services_are_kept_in_ord_order() {
    let mut root = Root::new(0, "root_1".to_string(), 0, Vec::new());
    root.add_service(Service::new(7, "b".to_string(), "c".to_string()));
    root.add_service(Service::new(3, "z".to_string(), "c".to_string()));
    root.add_service(Service::new(7, "a".to_string(), "c".to_string()));
    root.add_service(Service::new(7, "a".to_string(), "b".to_string()));
    assert_eq!(service_names(&root), vec!["z", "a", "a", "b"]);
    let controllers: Vec<String> = root.get_services().iter().map(|s| s.get_controller()).collect();
    assert_eq!(controllers, vec!["c", "b", "c", "c"]);
    // The same order as std's sort by the derived `Ord`.
    let mut expected = root.get_services();
    expected.reverse();
    expected.sort();
    assert_eq!(expected, root.get_services());
}

#[test]
fn strings_are_ordered_by_code_point() {
    let mut root = Root::new(0, "r".to_string(), 0, Vec::new());
    for name in ["b", "a", "ab", "", "B", "é", "aa"] {
        root.add_machine(Machine::new(1, name.to_string(), "ip".to_string(), "t".to_string()));
    }
    let names: Vec<String> = root.get_machines().iter().map(|m| m.get_name()).collect();
    let mut expected: Vec<String> = ["b", "a", "ab", "", "B", "é", "aa"].iter().map(|s| s.to_string()).collect();
    expected.sort();
    assert_eq!(names, expected);
}

#[test]
fn add_then_remove_gives_the_list_back() {
    let mut root = Root::new(0, "r".to_string(), 0, Vec::new());
    root.add_service(Service::new(1, "one".to_string(), "c".to_string()));
    root.add_service(Service::new(3, "three".to_string(), "c".to_string()));
    let before = root.get_services();
    let added = Service::new(2, "two".to_string(), "c".to_string());
    root.add_service(added.clone());
    assert_eq!(root.get_services().len(), 3);
    root.remove_service(added);
    assert_eq!(root.get_services(), before);
}

#[test]
fn remove_takes_the_first_of_the_hash() {
    let mut root = Root::new(0, "r".to_string(), 0, Vec::new());
    root.add_machine(Machine::new(5, "a".to_string(), "1".to_string(), "x".to_string()));
    root.add_machine(Machine::new(5, "b".to_string(), "2".to_string(), "x".to_string()));
    root.add_machine(Machine::new(6, "c".to_string(), "3".to_string(), "x".to_string()));
    root.remove_machine(Machine::new(5, "zzz".to_string(), "".to_string(), "".to_string()));
    let names: Vec<String> = root.get_machines().iter().map(|m| m.get_name()).collect();
    assert_eq!(names, vec!["b", "c"]);
}

#[test]
fn update_route_replaces_the_first_route_of_its_hash() {
    let mut root = Root::new(0, "r".to_string(), 0, Vec::new());
    root.add_route(Route::new("a".to_string(), "eth0".to_string()));
    root.update_route(Route::new("b".to_string(), "eth9".to_string()));
    // Both routes have the hash 0: the route from "a" is the one replaced.
    let routes = root.get_routes();
    assert_eq!(routes.len(), 1);
    assert_eq!(routes[0].get_from(), "b");
    assert_eq!(routes[0].get_to(), "eth9");

    root.add_route(Route::new("c".to_string(), "eth1".to_string()));
    root.update_route(Route::new("d".to_string(), "eth2".to_string()));
    let froms: Vec<String> = root.get_routes().iter().map(|r| r.get_from()).collect();
    assert_eq!(froms, vec!["c", "d"]);
}

#[test]
fn replace_route_replaces_the_route_of_its_origin() {
    let mut root = Root::new(0, "r".to_string(), 0, Vec::new());
    root.add_route(Route::new("10.0.0.0-8".to_string(), "eth0".to_string()));
    root.add_route(Route::new("10.1.0.0-16".to_string(), "eth1".to_string()));
    root.replace_route(Route::new("10.0.0.0-8".to_string(), "eth9".to_string()));
    let routes = root.get_routes();
    assert_eq!(routes.len(), 2);
    assert_eq!(routes[0].get_from(), "10.0.0.0-8");
    assert_eq!(routes[0].get_to(), "eth9");
    assert_eq!(routes[1].get_to(), "eth1");
    // A route of another origin is added.
    root.replace_route(Route::new("10.2.0.0-16".to_string(), "eth2".to_string()));
    assert_eq!(root.get_routes().len(), 3);
}

#[test]
fn routes_added_in_either_order_come_out_alike() {
    let a = Route::new("10.0.0.0-8".to_string(), "eth0".to_string());
    let b = Route::new("10.1.0.0-16".to_string(), "eth1".to_string());
    let mut first = Root::new(0, "r".to_string(), 0, Vec::new());
    first.add_route(a.clone());
    first.add_route(b.clone());
    let mut second = Root::new(0, "r".to_string(), 0, Vec::new());
    second.add_route(b);
    second.add_route(a);
    assert_eq!(first.get_routes(), second.get_routes());
}

#[test]
fn a_service_can_carry_its_node() {
    let s = Service::with_node(3, "svc".to_string(), "ctl".to_string(), "node-1".to_string());
    assert_eq!(s.get_hash_value(), 3);
    assert_eq!(s.get_name(), "svc");
    assert_eq!(s.get_controller(), "ctl");
    assert_eq!(s.get_node_name(), "node-1");
}

#[test]
fn ports_are_replaced_by_id() {
    let mut root = Root::new(0, "r".to_string(), 0, Vec::new());
    root.add_port(Port::new("1-1".to_string(), "false".to_string()));
    root.add_port(Port::new("1-2".to_string(), "true".to_string()));
    root.update_port(Port::new("1-1".to_string(), "true".to_string()));
    let ports = root.get_ports();
    assert_eq!(ports.len(), 2);
    assert_eq!(ports[0].get_id(), "1-1");
    assert_eq!(ports[0].get_state(), "true");
    // Removing an id that is not there changes nothing.
    root.remove_port(Port::new("9-9".to_string(), "x".to_string()));
    assert_eq!(root.get_ports(), ports);
    root.remove_port(Port::new("1-2".to_string(), "x".to_string()));
    assert_eq!(root.get_ports().len(), 1);
    // An update of an id that is not there adds the port.
    root.update_port(Port::new("2-1".to_string(), "false".to_string()));
    assert_eq!(root.get_ports().len(), 2);
}

#[test]
fn records_keep_their_fields() {
    let mut m = Machine::new(9, "m".to_string(), "10.0.0.1".to_string(), "compute".to_string());
    assert_eq!(m.get_hash_value(), 9);
    m.null_hash_value();
    assert_eq!(m.get_hash_value(), 0);
    m.set_hash();
    assert_eq!(m.get_name(), "m");
    assert_eq!(m.get_ip(), "10.0.0.1");
    assert_eq!(m.get_node_type(), "compute");

    let mut s = Service::new(4, "s".to_string(), "ctl".to_string());
    assert_eq!(s.get_node_name(), "");
    s.null_hash_value();
    assert_eq!(s.get_hash_value(), 0);
    s.set_hash();
    assert_eq!(s.get_controller(), "ctl");

    let mut r = Route::new("a".to_string(), "b".to_string());
    assert_eq!(r.get_hash_value(), 0);
    r.set_to("c".to_string());
    assert_eq!(r.get_to(), "c");

    let mut p = Port::new("1".to_string(), "up".to_string());
    p.set_state("down".to_string());
    assert_eq!(p.get_state(), "down");
    assert_eq!(p.get_id(), "1");
}

#[test]
fn set_hash_hashes_the_record_as_it_stands() {
    let mut a = Machine::new(0, "m".to_string(), "ip".to_string(), "t".to_string());
    let mut b = Machine::new(0, "m".to_string(), "ip".to_string(), "t".to_string());
    a.set_hash();
    b.set_hash();
    assert_eq!(a.get_hash_value(), b.get_hash_value());
    let first = a.get_hash_value();
    a.set_hash();
    assert_ne!(a.get_hash_value(), first);
}
