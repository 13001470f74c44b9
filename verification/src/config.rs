//! Configuration from the environment.

use crate::double::Double;
use crate::error::Outcome;
use crate::env::{non_empty, or_else, truthy, Env};
use crate::edge_weights::default_weights;
use crate::text::{
    blank, decimal, decimal_reads_back, is_blank, lowered, numerals_are_trimmed, parse_usize, same,
    to_chars, to_lower, trim, trimmed, unsigned_value,
};
use crate::types::EMBEDDING_DIM;
use vstd::prelude::*;

verus! {

/// Where the memory graph lives.
#[derive(Clone, Copy, Debug, PartialEq, Eq, Structural)]
pub enum StorageBackend {
    /// Client of a database server.
    Http,
    /// Embedded engine on local disk.
    EmbeddedDisk,
    /// Embedded engine in process memory.
    EmbeddedMemory,
    /// Embedded engine on object storage.
    ObjectStorage,
}

impl Default for StorageBackend {
    fn default() -> (r: StorageBackend)
        ensures
            r == StorageBackend::EmbeddedDisk,
    {
        StorageBackend::EmbeddedDisk
    }
}

/// A character that a backend name may carry without meaning.
pub open spec fn name_noise(c: char) -> bool {
    c == '-' || c == '_' || c == '/'
}

/// A backend name in lower case, without its dashes, underscores and slashes.
pub open spec fn bare_name(s: Seq<char>) -> Seq<char> {
    lowered(s).filter(|c: char| !name_noise(c))
}

/// The backend that a name asks for.
pub open spec fn backend_named(s: Seq<char>) -> StorageBackend {
    let n = bare_name(s);
    if n == "http"@ || n == "server"@ {
        StorageBackend::Http
    } else if n == "memory"@ || n == "embeddedmemory"@ || n == "inmemory"@ {
        StorageBackend::EmbeddedMemory
    } else if n == "object"@ || n == "objectstorage"@ || n == "s3"@ || n == "objectstore"@ {
        StorageBackend::ObjectStorage
    } else {
        StorageBackend::EmbeddedDisk
    }
}

impl StorageBackend {
    /// Reads a backend name, without regard to case, dashes, underscores and
    /// slashes. A name that is not known means disk.
    pub fn parse(s: &str) -> (r: StorageBackend)
        ensures
            r == backend_named(s@),
    {
        let low = to_lower(s);
        let chars = to_chars(low.as_str());
        let mut n = String::new();
        let mut i: usize = 0;
        let ghost keep = |c: char| !name_noise(c);
        assert(chars@.take(0).filter(keep) =~= Seq::<char>::empty()) by {
            reveal(Seq::filter);
        }
        while i < chars.len()
            invariant
                i <= chars@.len(),
                keep == (|c: char| !name_noise(c)),
                n@ == chars@.take(i as int).filter(keep),
            decreases chars@.len() - i,
        {
            let c: char = chars[i];
            proof {
                reveal(Seq::filter);
                assert(chars@.take(i + 1).drop_last() =~= chars@.take(i as int));
                assert(chars@.take(i + 1).last() == c);
            }
            if !(c == '-' || c == '_' || c == '/') {
                n.push(c);
            }
            i += 1;
        }
        assert(chars@.take(i as int) =~= chars@);
        let n = n.as_str();
        if same(n, "http") || same(n, "server") {
            StorageBackend::Http
        } else if same(n, "memory") || same(n, "embeddedmemory") || same(n, "inmemory") {
            StorageBackend::EmbeddedMemory
        } else if same(n, "object") || same(n, "objectstorage") || same(n, "s3") || same(
            n,
            "objectstore",
        ) {
            StorageBackend::ObjectStorage
        } else {
            StorageBackend::EmbeddedDisk
        }
    }

    /// The backend that `MNEMOS_BACKEND` asks for; disk where it is not set.
    pub fn from_env(env: &Env) -> (r: StorageBackend)
        ensures
            r == match env.value("MNEMOS_BACKEND"@) {
                Some(v) => backend_named(v),
                None => StorageBackend::EmbeddedDisk,
            },
    {
        match env.get("MNEMOS_BACKEND") {
            Some(v) => StorageBackend::parse(v),
            None => StorageBackend::default(),
        }
    }
}

/// Storage settings.
#[derive(Debug)]
pub struct StorageConfig {
    /// Endpoint of the database server.
    pub url: String,
    /// Data root on local disk.
    pub data_root: String,
    /// Logical database name.
    pub database: String,
    /// The backend asked for; see [`StorageConfig::effective_backend`].
    pub backend: StorageBackend,
    /// Bucket for object storage; empty where none is configured.
    pub object_bucket: String,
    pub object_region: String,
    /// Endpoint of a compatible store.
    pub object_endpoint: Option<String>,
    /// Allow a plain HTTP endpoint.
    pub object_allow_http: bool,
}

/// The backend that can open, for the one asked for, the data root and the
/// bucket.
pub open spec fn opened_backend(
    asked: StorageBackend,
    data_root: Seq<char>,
    bucket: Seq<char>,
) -> StorageBackend {
    let disk = if blank(data_root) {
        StorageBackend::EmbeddedMemory
    } else {
        StorageBackend::EmbeddedDisk
    };
    match asked {
        StorageBackend::Http => StorageBackend::Http,
        StorageBackend::EmbeddedMemory => StorageBackend::EmbeddedMemory,
        StorageBackend::EmbeddedDisk => disk,
        StorageBackend::ObjectStorage => if blank(bucket) {
            disk
        } else {
            StorageBackend::ObjectStorage
        },
    }
}

/// The region of object storage where none is given.
pub fn default_object_region() -> (r: String)
    ensures
        r@ == "us-east-1"@,
{
    "us-east-1".to_owned()
}

impl StorageConfig {
    /// Resolves the backend asked for to one that can open: disk without a data
    /// root falls back to memory, object storage without a bucket to disk and
    /// then to memory, and a server never falls back.
    pub fn effective_backend(&self) -> (r: StorageBackend)
        ensures
            r == opened_backend(self.backend, self.data_root@, self.object_bucket@),
    {
        match self.backend {
            StorageBackend::Http | StorageBackend::EmbeddedMemory => self.backend,
            StorageBackend::EmbeddedDisk => self.disk_or_memory(),
            StorageBackend::ObjectStorage => if is_blank(self.object_bucket.as_str()) {
                self.disk_or_memory()
            } else {
                StorageBackend::ObjectStorage
            },
        }
    }

    fn disk_or_memory(&self) -> (r: StorageBackend)
        ensures
            r == opened_backend(StorageBackend::EmbeddedDisk, self.data_root@, Seq::empty()),
    {
        if is_blank(self.data_root.as_str()) {
            StorageBackend::EmbeddedMemory
        } else {
            StorageBackend::EmbeddedDisk
        }
    }

    /// The settings that an environment describes.
    pub open spec fn described(self, env: Env) -> bool {
        &&& self.url@ == or_else(env.value("HELIX_URL"@), "http://localhost:6969"@)
        &&& self.data_root@ == or_else(env.value("MNEMOS_DATA_ROOT"@), "./data/helix"@)
        &&& self.database@ == or_else(env.value("MNEMOS_DATABASE"@), "mnemos"@)
        &&& self.backend == match env.value("MNEMOS_BACKEND"@) {
            Some(v) => backend_named(v),
            None => StorageBackend::EmbeddedDisk,
        }
        &&& self.object_bucket@ == or_else(env.value("MNEMOS_OBJECT_BUCKET"@), ""@)
        &&& self.object_region@ == or_else(env.value("MNEMOS_OBJECT_REGION"@), "us-east-1"@)
        &&& match self.object_endpoint {
            Some(e) => non_empty(env.value("MNEMOS_OBJECT_ENDPOINT"@)) == Some(e@),
            None => non_empty(env.value("MNEMOS_OBJECT_ENDPOINT"@)) is None,
        }
        &&& self.object_allow_http == match env.value("MNEMOS_OBJECT_ALLOW_HTTP"@) {
            Some(v) => truthy(v),
            None => false,
        }
    }

    /// Storage settings from the environment.
    pub fn from_env(env: &Env) -> (r: StorageConfig)
        ensures
            r.described(*env),
    {
        let object_endpoint = match env.get("MNEMOS_OBJECT_ENDPOINT") {
            Some(v) => if v.is_empty() {
                None
            } else {
                Some(v.to_owned())
            },
            None => None,
        };
        StorageConfig {
            url: env.get_or("HELIX_URL", "http://localhost:6969"),
            data_root: env.get_or("MNEMOS_DATA_ROOT", "./data/helix"),
            database: env.get_or("MNEMOS_DATABASE", "mnemos"),
            backend: StorageBackend::from_env(env),
            object_bucket: env.get_or("MNEMOS_OBJECT_BUCKET", ""),
            object_region: match env.get("MNEMOS_OBJECT_REGION") {
                Some(v) => v.to_owned(),
                None => default_object_region(),
            },
            object_endpoint,
            object_allow_http: env.parse_bool_env("MNEMOS_OBJECT_ALLOW_HTTP", false),
        }
    }
}

/// A resolved backend opens as it is: resolving again changes nothing.
pub proof fn fallback_settles(asked: StorageBackend, data_root: Seq<char>, bucket: Seq<char>)
    ensures
        opened_backend(opened_backend(asked, data_root, bucket), data_root, bucket)
            == opened_backend(asked, data_root, bucket),
{
}

/// A server request never falls back, and no other request ever ends at a
/// server.
pub proof fn server_mode_is_explicit(asked: StorageBackend, data_root: Seq<char>, bucket: Seq<char>)
    ensures
        opened_backend(asked, data_root, bucket) == StorageBackend::Http <==> asked
            == StorageBackend::Http,
{
}

/// Chat and embedding settings.
#[derive(Debug)]
pub struct LlmConfig {
    pub api_key: String,
    pub base_url: String,
    pub model: String,
    pub embedding_model: String,
    pub embedding_base_url: String,
    pub embedding_dim: usize,
}

/// The dimension that `EMBEDDING_DIM` gives; that of the hosted provider where
/// it gives none.
pub open spec fn dimension_in(value: Option<Seq<char>>) -> nat {
    match value {
        Some(v) => match unsigned_value(trimmed(v), usize::MAX as nat) {
            Some(n) => if n > 0 {
                n
            } else {
                EMBEDDING_DIM as nat
            },
            None => EMBEDDING_DIM as nat,
        },
        None => EMBEDDING_DIM as nat,
    }
}

/// The dimension of the vector index, from `EMBEDDING_DIM`.
pub fn embedding_dim_from_env(env: &Env) -> (r: usize)
    ensures
        r == dimension_in(env.value("EMBEDDING_DIM"@)),
        r > 0,
{
    match env.get("EMBEDDING_DIM") {
        Some(v) => match parse_usize(trim(v)) {
            Some(n) => if n > 0 {
                n
            } else {
                EMBEDDING_DIM
            },
            None => EMBEDDING_DIM,
        },
        None => EMBEDDING_DIM,
    }
}

impl LlmConfig {
    /// The settings that an environment describes.
    pub open spec fn described(self, env: Env) -> bool {
        &&& self.api_key@ == or_else(env.value("OPENAI_API_KEY"@), ""@)
        &&& self.base_url@ == or_else(env.value("OPENAI_BASE_URL"@), "https://api.openai.com/v1"@)
        &&& self.model@ == or_else(env.value("LLM_MODEL"@), "gpt-4o-mini"@)
        &&& self.embedding_model@ == or_else(
            env.value("EMBEDDING_MODEL"@),
            "text-embedding-3-small"@,
        )
        &&& self.embedding_base_url@ == or_else(
            non_empty(env.value("EMBEDDING_BASE_URL"@)),
            self.base_url@,
        )
        &&& self.embedding_dim == dimension_in(env.value("EMBEDDING_DIM"@))
    }

    /// Chat and embedding settings from the environment.
    pub fn from_env(env: &Env) -> (r: LlmConfig)
        ensures
            r.described(*env),
    {
        let base_url = env.get_or("OPENAI_BASE_URL", "https://api.openai.com/v1");
        let embedding_base_url = env.get_non_empty_or("EMBEDDING_BASE_URL", base_url.as_str());
        LlmConfig {
            api_key: env.get_or("OPENAI_API_KEY", ""),
            base_url,
            model: env.get_or("LLM_MODEL", "gpt-4o-mini"),
            embedding_model: env.get_or("EMBEDDING_MODEL", "text-embedding-3-small"),
            embedding_base_url,
            embedding_dim: embedding_dim_from_env(env),
        }
    }

    /// The same settings under another owner.
    pub fn copy(&self) -> (r: LlmConfig)
        ensures
            r.api_key@ == self.api_key@,
            r.base_url@ == self.base_url@,
            r.model@ == self.model@,
            r.embedding_model@ == self.embedding_model@,
            r.embedding_base_url@ == self.embedding_base_url@,
            r.embedding_dim == self.embedding_dim,
    {
        LlmConfig {
            api_key: self.api_key.clone(),
            base_url: self.base_url.clone(),
            model: self.model.clone(),
            embedding_model: self.embedding_model.clone(),
            embedding_base_url: self.embedding_base_url.clone(),
            embedding_dim: self.embedding_dim,
        }
    }
}

/// Weights of the spreading activation.
#[derive(Clone, Copy, Debug, PartialEq, Eq, Structural)]
pub struct StimulationConfig {
    pub alpha_recalls: Double,
    pub alpha_abstracts_to: Double,
    pub alpha_reinforces: Double,
    pub alpha_temporal: Double,
    pub alpha_contradicts: Double,
    pub alpha_defines: Double,
    pub alpha_spawned_from: Double,
    pub beta_recurrent: Double,
    pub gamma_decay: Double,
    pub tau_threshold: Double,
    pub max_iterations: usize,
    pub seed_limit: i64,
}

/// The default weights of the spreading activation.
pub open spec fn default_stimulation() -> StimulationConfig {
    StimulationConfig {
        alpha_recalls: Double { bits: 0x3FE6_6666_6666_6666 },
        alpha_abstracts_to: Double { bits: 0x3FE0_0000_0000_0000 },
        alpha_reinforces: Double { bits: 0x3FE3_3333_3333_3333 },
        alpha_temporal: Double { bits: 0x3FD3_3333_3333_3333 },
        alpha_contradicts: Double { bits: 0xBFD9_9999_9999_999A },
        alpha_defines: Double { bits: 0x3FC9_9999_9999_999A },
        alpha_spawned_from: Double { bits: 0x3FDC_CCCC_CCCC_CCCD },
        beta_recurrent: Double { bits: 0x3FD6_6666_6666_6666 },
        gamma_decay: Double { bits: 0x3FE8_0000_0000_0000 },
        tau_threshold: Double { bits: 0x3FC3_3333_3333_3333 },
        max_iterations: 4,
        seed_limit: 15,
    }
}

impl Default for StimulationConfig {
    /// 0.70, 0.50, 0.60, 0.30, -0.40, 0.20, 0.45, 0.35, 0.75 and 0.15; four
    /// waves from fifteen seeds.
    fn default() -> (r: StimulationConfig)
        ensures
            r == default_stimulation(),
    {
        StimulationConfig {
            alpha_recalls: Double { bits: 0x3FE6_6666_6666_6666 },
            alpha_abstracts_to: Double { bits: 0x3FE0_0000_0000_0000 },
            alpha_reinforces: Double { bits: 0x3FE3_3333_3333_3333 },
            alpha_temporal: Double { bits: 0x3FD3_3333_3333_3333 },
            alpha_contradicts: Double { bits: 0xBFD9_9999_9999_999A },
            alpha_defines: Double { bits: 0x3FC9_9999_9999_999A },
            alpha_spawned_from: Double { bits: 0x3FDC_CCCC_CCCC_CCCD },
            beta_recurrent: Double { bits: 0x3FD6_6666_6666_6666 },
            gamma_decay: Double { bits: 0x3FE8_0000_0000_0000 },
            tau_threshold: Double { bits: 0x3FC3_3333_3333_3333 },
            max_iterations: 4,
            seed_limit: 15,
        }
    }
}

/// Thresholds of the consolidation cycle.
#[derive(Clone, Copy, Debug, PartialEq, Eq, Structural)]
pub struct ConsolidationConfig {
    pub prune_retention: Double,
    pub prune_importance: Double,
    pub compress_retention: Double,
    pub compress_importance: Double,
    pub promote_retention: Double,
    pub promote_min_activations: i64,
    pub mitosis_min_engrams: i64,
}

/// The default thresholds of the consolidation cycle.
pub open spec fn default_consolidation() -> ConsolidationConfig {
    ConsolidationConfig {
        prune_retention: Double { bits: 0x3FA9_9999_9999_999A },
        prune_importance: Double { bits: 0x3FB9_9999_9999_999A },
        compress_retention: Double { bits: 0x3FC3_3333_3333_3333 },
        compress_importance: Double { bits: 0x3FD3_3333_3333_3333 },
        promote_retention: Double { bits: 0x3FE9_9999_9999_999A },
        promote_min_activations: 20,
        mitosis_min_engrams: 10,
    }
}

impl Default for ConsolidationConfig {
    /// 0.05, 0.1, 0.15, 0.3 and 0.8; twenty activations, ten engrams.
    fn default() -> (r: ConsolidationConfig)
        ensures
            r == default_consolidation(),
    {
        ConsolidationConfig {
            prune_retention: Double { bits: 0x3FA9_9999_9999_999A },
            prune_importance: Double { bits: 0x3FB9_9999_9999_999A },
            compress_retention: Double { bits: 0x3FC3_3333_3333_3333 },
            compress_importance: Double { bits: 0x3FD3_3333_3333_3333 },
            promote_retention: Double { bits: 0x3FE9_9999_9999_999A },
            promote_min_activations: 20,
            mitosis_min_engrams: 10,
        }
    }
}

/// The whole configuration.
#[derive(Debug)]
pub struct MnemosConfig {
    pub storage: StorageConfig,
    pub llm: LlmConfig,
    pub stimulation: StimulationConfig,
    pub consolidation: ConsolidationConfig,
}

impl MnemosConfig {
    /// The configuration that the environment describes.
    pub fn from_env(env: &Env) -> (r: Outcome<MnemosConfig>)
        ensures
            r matches Ok(c) && c.storage.described(*env) && c.llm.described(*env) && c.stimulation
                == default_stimulation() && c.consolidation == default_consolidation(),
    {
        Ok(
            MnemosConfig {
                storage: StorageConfig::from_env(env),
                llm: LlmConfig::from_env(env),
                stimulation: StimulationConfig::default(),
                consolidation: ConsolidationConfig::default(),
            },
        )
    }
}

/// What is asked for opens wherever it can: disk with a data root, object storage
/// with a bucket, and memory always. Without a bucket disk is tried, and without a
/// data root memory.
pub proof fn what_can_open_opens(data_root: Seq<char>, bucket: Seq<char>)
    ensures
        opened_backend(StorageBackend::EmbeddedMemory, data_root, bucket)
            == StorageBackend::EmbeddedMemory,
        opened_backend(StorageBackend::EmbeddedDisk, data_root, bucket) is EmbeddedDisk <==> !blank(
            data_root,
        ),
        opened_backend(StorageBackend::EmbeddedDisk, data_root, bucket) is EmbeddedMemory <==> blank(
            data_root,
        ),
        opened_backend(StorageBackend::ObjectStorage, data_root, bucket) is ObjectStorage
            <==> !blank(bucket),
        opened_backend(StorageBackend::ObjectStorage, data_root, bucket) is EmbeddedDisk <==> blank(
            bucket,
        ) && !blank(data_root),
        opened_backend(StorageBackend::ObjectStorage, data_root, bucket) is EmbeddedMemory <==> blank(
            bucket,
        ) && blank(data_root),
{
}

/// Nine names ask for another backend than disk, whatever their case, dashes,
/// underscores and slashes; every other name asks for disk.
pub proof fn backends_go_by_their_bare_name(s: Seq<char>)
    ensures
        ({
            let n = lowered(s).filter(|c: char| c != '-' && c != '_' && c != '/');
            &&& backend_named(s) is Http <==> n == "http"@ || n == "server"@
            &&& backend_named(s) is EmbeddedMemory <==> n == "memory"@ || n == "embeddedmemory"@
                || n == "inmemory"@
            &&& backend_named(s) is ObjectStorage <==> n == "object"@ || n == "objectstorage"@ || n
                == "s3"@ || n == "objectstore"@
        }),
{
    let a = |c: char| c != '-' && c != '_' && c != '/';
    let b = |c: char| !name_noise(c);
    assert(lowered(s).filter(a) == lowered(s).filter(b)) by {
        lemma_same_filter(lowered(s), a, b);
    }
    reveal_strlit("http");
    reveal_strlit("server");
    reveal_strlit("memory");
    reveal_strlit("embeddedmemory");
    reveal_strlit("inmemory");
    reveal_strlit("object");
    reveal_strlit("objectstorage");
    reveal_strlit("s3");
    reveal_strlit("objectstore");
    assert("http"@.len() == 4);
    assert("server"@.len() == 6 && "server"@[0] == 's');
    assert("memory"@.len() == 6 && "memory"@[0] == 'm');
    assert("embeddedmemory"@.len() == 14);
    assert("inmemory"@.len() == 8);
    assert("object"@.len() == 6 && "object"@[0] == 'o');
    assert("objectstorage"@.len() == 13);
    assert("s3"@.len() == 2);
    assert("objectstore"@.len() == 11);
}

proof fn lemma_same_filter(s: Seq<char>, a: spec_fn(char) -> bool, b: spec_fn(char) -> bool)
    requires
        forall|c: char| #[trigger] a(c) == b(c),
    ensures
        s.filter(a) == s.filter(b),
    decreases s.len(),
{
    reveal(Seq::filter);
    if s.len() > 0 {
        lemma_same_filter(s.drop_last(), a, b);
        assert(a(s.last()) == b(s.last()));
    }
}

/// An environment without variables describes the defaults: a store on disk under
/// its default root, and the hosted models.
pub proof fn bare_environments_describe_the_defaults(
    env: Env,
    storage: StorageConfig,
    llm: LlmConfig,
)
    requires
        forall|name: Seq<char>| #[trigger] env.value(name) is None,
        storage.described(env),
        llm.described(env),
    ensures
        storage.url@ == "http://localhost:6969"@,
        storage.data_root@ == "./data/helix"@,
        storage.database@ == "mnemos"@,
        storage.backend is EmbeddedDisk,
        storage.object_bucket@ == ""@,
        storage.object_region@ == "us-east-1"@,
        storage.object_endpoint is None,
        !storage.object_allow_http,
        llm.api_key@ == ""@,
        llm.base_url@ == "https://api.openai.com/v1"@,
        llm.model@ == "gpt-4o-mini"@,
        llm.embedding_model@ == "text-embedding-3-small"@,
        llm.embedding_base_url@ == llm.base_url@,
        llm.embedding_dim == 1536,
{
    assert(env.value("HELIX_URL"@) is None);
    assert(env.value("MNEMOS_DATA_ROOT"@) is None);
    assert(env.value("MNEMOS_DATABASE"@) is None);
    assert(env.value("MNEMOS_BACKEND"@) is None);
    assert(env.value("MNEMOS_OBJECT_BUCKET"@) is None);
    assert(env.value("MNEMOS_OBJECT_REGION"@) is None);
    assert(env.value("MNEMOS_OBJECT_ENDPOINT"@) is None);
    assert(env.value("MNEMOS_OBJECT_ALLOW_HTTP"@) is None);
    assert(env.value("OPENAI_API_KEY"@) is None);
    assert(env.value("OPENAI_BASE_URL"@) is None);
    assert(env.value("LLM_MODEL"@) is None);
    assert(env.value("EMBEDDING_MODEL"@) is None);
    assert(env.value("EMBEDDING_BASE_URL"@) is None);
    assert(env.value("EMBEDDING_DIM"@) is None);
}

/// Every setting that an environment gives is taken from its own variable as it
/// stands.
pub proof fn settings_come_from_their_variables(
    env: Env,
    storage: StorageConfig,
    llm: LlmConfig,
)
    requires
        storage.described(env),
        llm.described(env),
    ensures
        env.value("HELIX_URL"@) matches Some(v) ==> storage.url@ == v,
        env.value("MNEMOS_DATA_ROOT"@) matches Some(v) ==> storage.data_root@ == v,
        env.value("MNEMOS_DATABASE"@) matches Some(v) ==> storage.database@ == v,
        env.value("MNEMOS_OBJECT_BUCKET"@) matches Some(v) ==> storage.object_bucket@ == v,
        env.value("MNEMOS_OBJECT_REGION"@) matches Some(v) ==> storage.object_region@ == v,
        env.value("MNEMOS_BACKEND"@) matches Some(v) ==> storage.backend == backend_named(v),
        env.value("MNEMOS_OBJECT_ENDPOINT"@) matches Some(v) ==> (v.len() > 0 ==> (
        storage.object_endpoint matches Some(e) && e@ == v)),
        env.value("OPENAI_API_KEY"@) matches Some(v) ==> llm.api_key@ == v,
        env.value("OPENAI_BASE_URL"@) matches Some(v) ==> llm.base_url@ == v,
        env.value("LLM_MODEL"@) matches Some(v) ==> llm.model@ == v,
        env.value("EMBEDDING_MODEL"@) matches Some(v) ==> llm.embedding_model@ == v,
        env.value("EMBEDDING_BASE_URL"@) matches Some(v) ==> (v.len() > 0
            ==> llm.embedding_base_url@ == v),
{
}

/// A dimension is the positive number that is written, and else the default one:
/// never zero.
pub proof fn dimensions_are_positive(n: nat, value: Option<Seq<char>>)
    ensures
        0 < n <= usize::MAX ==> dimension_in(Some(decimal(n))) == n,
        dimension_in(Some(decimal(0))) == 1536,
        dimension_in(None) == 1536,
        dimension_in(value) > 0,
{
    numerals_are_trimmed(n);
    numerals_are_trimmed(0);
    decimal_reads_back(0, usize::MAX as nat);
    if n <= usize::MAX {
        decimal_reads_back(n, usize::MAX as nat);
    }
}

/// Spreading starts with the weights that learning starts with, and a wave stops
/// after four rounds.
pub proof fn spreading_starts_as_learning_does()
    ensures
        ({
            let c = default_stimulation();
            let w = default_weights();
            &&& c.alpha_recalls == w[0]
            &&& c.alpha_abstracts_to == w[1]
            &&& c.alpha_reinforces == w[2]
            &&& c.alpha_temporal == w[3]
            &&& c.alpha_contradicts == w[4]
            &&& c.alpha_defines == w[5]
            &&& c.alpha_spawned_from == w[6]
            &&& c.beta_recurrent == w[7]
            &&& c.max_iterations == 4
            &&& c.seed_limit == 15
        }),
{
}

/// The default thresholds are in order: what is pruned is weaker than what is
/// compressed, and what is compressed is weaker than what is promoted.
pub proof fn default_thresholds_are_in_order()
    ensures
        ({
            let c = default_consolidation();
            &&& (Double { bits: 0 }).lt(c.prune_retention)
            &&& c.prune_retention.lt(c.compress_retention)
            &&& c.compress_retention.lt(c.promote_retention)
            &&& c.prune_importance.lt(c.compress_importance)
            &&& c.promote_retention.lt(Double { bits: 0x3FF0_0000_0000_0000 })
            &&& c.promote_min_activations > 0
            &&& c.mitosis_min_engrams > 0
        }),
{
}

} // verus!
