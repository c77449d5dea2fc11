//! Synchronisation of service, machine, route and port state into an etcd
//! key/value store: the cached state, the change detection between the cache
//! and freshly read state, and the etcd requests that publish the changes.

pub mod text;
pub mod order;
pub mod digest;
pub mod service;
pub mod machine;
pub mod route;
pub mod port;
pub mod record;
pub mod root;
pub mod publisher;
pub mod json;
pub mod delta;
pub mod statesync;
