use statesync::publisher::{store_key_value, EtcdRequest, HttpMethod, Publisher};

fn check(r: &EtcdRequest, method: HttpMethod, uri: &str) {
    assert_eq!(r.method, method);
    assert_eq!(r.uri, uri);
}

#[test]
fn key_values_are_written_with_put() {
    let p = Publisher::new();
    let r = p.publish_key_value(
        "http://10.16.0.31:2379/v2/keys".to_string(),
        "ip".to_string(),
        "10.0.0.1".to_string(),
        "/att/machines/m1/".to_string(),
    );
    check(&r, HttpMethod::Put, "http://10.16.0.31:2379/v2/keys/att/machines/m1/ip?value=10.0.0.1");
    let r = store_key_value("e".to_string(), "/f/".to_string(), "k".to_string(), "v".to_string());
    check(&r, HttpMethod::Put, "e/f/k?value=v");
    let r = Publisher::store_key_as_string("e".to_string(), "/f/".to_string(), &"k".to_string(), &"v".to_string());
    check(&r, HttpMethod::Put, "e/f/k?value=v");
}

#[test]
fn folders_are_made_and_deleted() {
    let p = Publisher::new();
    check(&p.create_folder("e".to_string(), "/att".to_string()), HttpMethod::Put, "e/att?dir=true");
    check(&p.delete_folder("e".to_string(), "/att/x".to_string()), HttpMethod::Delete, "e/att/x?recursive=true");
    check(&p.delete_key("e".to_string(), "/att/x/y".to_string()), HttpMethod::Delete, "e/att/x/y");
}
