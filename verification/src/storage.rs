//! Opening the store: which engine a configuration asks for, and how it is named.

use crate::config::{opened_backend, StorageBackend, StorageConfig};
use crate::text::blank;
use vstd::prelude::*;

verus! {

/// How to open the store.
#[derive(Debug)]
pub enum OpenPlan {
    /// A client of the server at `url`.
    Http { url: String, database: String },
    /// The embedded engine on disk.
    Disk { root: String, database: String },
    /// The embedded engine in memory.
    Memory { database: String },
    /// The embedded engine on object storage.
    Object {
        database: String,
        bucket: String,
        region: String,
        endpoint: Option<String>,
        allow_http: bool,
    },
}

/// `plan` opens the store that the configuration resolves to.
pub open spec fn opens(config: StorageConfig, plan: OpenPlan) -> bool {
    match opened_backend(config.backend, config.data_root@, config.object_bucket@) {
        StorageBackend::Http => plan matches OpenPlan::Http { url, database } && url@ == config.url@
            && database@ == config.database@,
        StorageBackend::EmbeddedDisk => plan matches OpenPlan::Disk { root, database } && root@
            == config.data_root@ && database@ == config.database@,
        StorageBackend::EmbeddedMemory => plan matches OpenPlan::Memory { database } && database@
            == config.database@,
        StorageBackend::ObjectStorage => plan matches OpenPlan::Object {
            database,
            bucket,
            region,
            endpoint,
            allow_http,
        } && database@ == config.database@ && bucket@ == config.object_bucket@ && region@
            == config.object_region@ && allow_http == config.object_allow_http && (
        match config.object_endpoint {
            Some(e) => endpoint matches Some(given) && given@ == e@,
            None => endpoint is None,
        }),
    }
}

/// The name under which an open store is known: its URL, or an `embedded://`
/// description.
pub open spec fn store_name(plan: OpenPlan) -> Seq<char> {
    match plan {
        OpenPlan::Http { url, database } => url@,
        OpenPlan::Disk { root, database } => "embedded://disk/"@ + root@ + "/"@ + database@,
        OpenPlan::Memory { database } => "embedded://memory/"@ + database@,
        OpenPlan::Object { database, bucket, .. } => "embedded://object/"@ + bucket@ + "/"@
            + database@,
    }
}

/// A store: how it is opened, its logical database, and the name under which it
/// is known.
#[derive(Debug)]
pub struct Storage {
    pub plan: OpenPlan,
    pub database: String,
    pub url: String,
}

impl Storage {
    /// The store of the server at `url`.
    pub fn new(url: &str, database: &str) -> (r: Storage)
        ensures
            r.plan matches OpenPlan::Http { url: u, database: d } && u@ == url@ && d@
                == database@,
            r.database@ == database@,
            r.url@ == url@,
    {
        Storage {
            plan: OpenPlan::Http { url: url.to_owned(), database: database.to_owned() },
            database: database.to_owned(),
            url: url.to_owned(),
        }
    }

    /// The store that a configuration resolves to. Whatever it resolves to, the
    /// configured database is kept.
    pub fn from_config(config: &StorageConfig) -> (r: Storage)
        ensures
            opens(*config, r.plan),
            r.database@ == config.database@,
            r.url@ == store_name(r.plan),
    {
        let database = config.database.clone();
        match config.effective_backend() {
            StorageBackend::Http => Storage::new(config.url.as_str(), database.as_str()),
            StorageBackend::EmbeddedDisk => Storage {
                plan: OpenPlan::Disk { root: config.data_root.clone(), database: database.clone() },
                url: "embedded://disk/".to_owned().concat(config.data_root.as_str()).concat(
                    "/",
                ).concat(database.as_str()),
                database,
            },
            StorageBackend::EmbeddedMemory => Storage {
                plan: OpenPlan::Memory { database: database.clone() },
                url: "embedded://memory/".to_owned().concat(database.as_str()),
                database,
            },
            StorageBackend::ObjectStorage => {
                let endpoint = match &config.object_endpoint {
                    Some(e) => Some(e.clone()),
                    None => None,
                };
                Storage {
                    plan: OpenPlan::Object {
                        database: database.clone(),
                        bucket: config.object_bucket.clone(),
                        region: config.object_region.clone(),
                        endpoint,
                        allow_http: config.object_allow_http,
                    },
                    url: "embedded://object/".to_owned().concat(
                        config.object_bucket.as_str(),
                    ).concat("/").concat(database.as_str()),
                    database,
                }
            },
        }
    }

    /// The logical database.
    pub fn database(&self) -> (r: &str)
        ensures
            r@ == self.database@,
    {
        self.database.as_str()
    }

    /// The URL of the server, or an `embedded://` description.
    pub fn url(&self) -> (r: &str)
        ensures
            r@ == self.url@,
    {
        self.url.as_str()
    }
}

/// The store that opens is the one asked for, under the configured database:
/// a server at its address, disk under its root, object storage in its bucket.
pub proof fn stores_open_as_configured(config: StorageConfig, plan: OpenPlan)
    requires
        opens(config, plan),
    ensures
        plan is Http <==> config.backend is Http,
        plan matches OpenPlan::Http { url, database } ==> url@ == config.url@ && database@
            == config.database@,
        plan matches OpenPlan::Disk { root, database } ==> root@ == config.data_root@ && !blank(
            root@,
        ) && database@ == config.database@,
        plan matches OpenPlan::Object { bucket, region, database, .. } ==> bucket@
            == config.object_bucket@ && !blank(bucket@) && region@ == config.object_region@
            && database@ == config.database@ && config.backend is ObjectStorage,
        plan matches OpenPlan::Memory { database } ==> database@ == config.database@,
        config.backend is EmbeddedMemory ==> plan is Memory,
        config.backend is EmbeddedDisk && !blank(config.data_root@) ==> plan is Disk,
        config.backend is ObjectStorage && !blank(config.object_bucket@) ==> plan is Object,
{
}

/// A server is known by its address, and any other store by what it is, where it
/// lies and its database.
pub proof fn stores_are_known_by_where_they_lie(
    url: String,
    root: String,
    bucket: String,
    region: String,
    endpoint: Option<String>,
    allow_http: bool,
    database: String,
)
    ensures
        store_name(OpenPlan::Http { url, database }) == url@,
        store_name(OpenPlan::Disk { root, database }) == "embedded://disk/"@ + root@ + "/"@
            + database@,
        store_name(OpenPlan::Memory { database }) == "embedded://memory/"@ + database@,
        store_name(OpenPlan::Object { database, bucket, region, endpoint, allow_http })
            == "embedded://object/"@ + bucket@ + "/"@ + database@,
{
}

} // verus!
