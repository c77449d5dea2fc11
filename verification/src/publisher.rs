//! The requests that publish state to etcd through its v2 keys API: a key is
//! written with a PUT of `?value=`, a directory is made with a PUT of
//! `?dir=true`, and a directory or key is deleted with a DELETE.

use vstd::prelude::*;

verus! {

/// The HTTP method of a request to etcd.
#[derive(Debug, Clone, Copy, PartialEq, Eq, Structural)]
pub enum HttpMethod {
    Put,
    Delete,
}

/// One request to etcd: the method and the full URI.
#[derive(Debug)]
pub struct EtcdRequest {
    pub method: HttpMethod,
    pub uri: String,
}

/// What a request holds.
pub struct RequestView {
    pub method: HttpMethod,
    pub uri: Seq<char>,
}

impl View for EtcdRequest {
    type V = RequestView;

    open spec fn view(&self) -> RequestView {
        RequestView { method: self.method, uri: self.uri@ }
    }
}

/// Writing `value` under `etcd_ip` + `folder` + `key`.
pub open spec fn put_value_request(
    etcd_ip: Seq<char>,
    folder: Seq<char>,
    key: Seq<char>,
    value: Seq<char>,
) -> RequestView {
    RequestView { method: HttpMethod::Put, uri: etcd_ip + folder + key + "?value="@ + value }
}

/// Making the directory `etcd_ip` + `folder`.
pub open spec fn create_folder_request(etcd_ip: Seq<char>, folder: Seq<char>) -> RequestView {
    RequestView { method: HttpMethod::Put, uri: etcd_ip + folder + "?dir=true"@ }
}

/// Deleting the directory `etcd_ip` + `folder` with all it holds.
pub open spec fn delete_folder_request(etcd_ip: Seq<char>, folder: Seq<char>) -> RequestView {
    RequestView { method: HttpMethod::Delete, uri: etcd_ip + folder + "?recursive=true"@ }
}

/// Deleting the key `etcd_ip` + `key`.
pub open spec fn delete_key_request(etcd_ip: Seq<char>, key: Seq<char>) -> RequestView {
    RequestView { method: HttpMethod::Delete, uri: etcd_ip + key }
}

/// Makes the requests that publish state to etcd.
#[derive(Debug, Clone, Copy)]
pub struct Publisher {}

impl Publisher {
    pub fn new() -> (p: Publisher) {
        Publisher {}
    }

    /// The request that writes `value` under the key `key` in the directory
    /// `sub_path` of the etcd at `etcd_url`.
    pub fn publish_key_value(&self, etcd_url: String, key: String, value: String, sub_path: String) -> (r: EtcdRequest)
        ensures
            r@ == put_value_request(etcd_url@, sub_path@, key@, value@),
    {
        store_key_value(etcd_url, sub_path, key, value)
    }

    /// The request that makes the directory `folder`.
    pub fn create_folder(&self, etcd_url: String, folder: String) -> (r: EtcdRequest)
        ensures
            r@ == create_folder_request(etcd_url@, folder@),
    {
        create_folder(etcd_url, folder)
    }

    /// The request that deletes the directory `folder` with all it holds.
    pub fn delete_folder(&self, etcd_url: String, folder: String) -> (r: EtcdRequest)
        ensures
            r@ == delete_folder_request(etcd_url@, folder@),
    {
        delete_folder(etcd_url, folder)
    }

    /// The request that deletes the key `key`.
    pub fn delete_key(&self, etcd_url: String, key: String) -> (r: EtcdRequest)
        ensures
            r@ == delete_key_request(etcd_url@, key@),
    {
        delete_key(etcd_url, key)
    }

    /// The request that writes `value` under the key `key` in the directory
    /// `folder`.
    pub fn store_key_as_string(etcd_ip: String, folder: String, key: &String, value: &String) -> (r: EtcdRequest)
        ensures
            r@ == put_value_request(etcd_ip@, folder@, key@, value@),
    {
        store_key_value(etcd_ip, folder, key.clone(), value.clone())
    }
}

fn create_folder(etcd_ip: String, folder: String) -> (r: EtcdRequest)
    ensures
        r@ == create_folder_request(etcd_ip@, folder@),
{
    let mut uri = etcd_ip;
    uri.append(folder.as_str());
    uri.append("?dir=true");
    EtcdRequest { method: HttpMethod::Put, uri }
}

fn delete_folder(etcd_ip: String, folder: String) -> (r: EtcdRequest)
    ensures
        r@ == delete_folder_request(etcd_ip@, folder@),
{
    let mut uri = etcd_ip;
    uri.append(folder.as_str());
    uri.append("?recursive=true");
    EtcdRequest { method: HttpMethod::Delete, uri }
}

fn delete_key(etcd_ip: String, key: String) -> (r: EtcdRequest)
    ensures
        r@ == delete_key_request(etcd_ip@, key@),
{
    let mut uri = etcd_ip;
    uri.append(key.as_str());
    EtcdRequest { method: HttpMethod::Delete, uri }
}

/// The request that writes `value` under `folder` + `key` in the etcd at
/// `etcd_ip`.
pub fn store_key_value(etcd_ip: String, folder: String, key: String, value: String) -> (r: EtcdRequest)
    ensures
        r@ == put_value_request(etcd_ip@, folder@, key@, value@),
{
    let mut uri = etcd_ip;
    uri.append(folder.as_str());
    uri.append(key.as_str());
    uri.append("?value=");
    uri.append(value.as_str());
    EtcdRequest { method: HttpMethod::Put, uri }
}

} // verus!
