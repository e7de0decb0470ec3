//! Runtime configuration: several sources of options (an override layer set
//! by the process, and configuration files merged in order) queried
//! uniformly, with later-loaded files taking precedence over earlier ones
//! and explicit overrides over all of them. Reading the files and parsing
//! their text happens outside this module; it works on the parsed values.

use vstd::prelude::*;

use crate::paths::{is_absolute_path, joined_path, parent_of};
use crate::redis_store::redis_url_ok;
use crate::strutil::{joined, str_eq};

verus! {

/// Where language-model computations run.
#[derive(Debug, PartialEq, Eq)]
pub enum LlmComputeOpts {
    /// Computed in-process.
    Spin,
    /// Delegated to a remote endpoint.
    RemoteHttp {
        /// The remote endpoint's URL.
        url: String,
    },
}

/// A configured variables provider.
#[derive(Debug, PartialEq, Eq)]
pub enum VariablesProviderOpts {
    /// Variables read from the process environment.
    Env {
        /// An optional prefix for the variables' names.
        prefix: Option<String>,
    },
    /// Variables read from a vault service.
    Vault {
        /// The vault's URL.
        url: String,
        /// The access token.
        token: String,
        /// The mount point to read under.
        mount: String,
    },
}

/// A variables provider as the configuration resolves it.
#[derive(Debug, PartialEq, Eq)]
pub enum VariablesProvider {
    /// Variables read from the process environment.
    Env {
        /// An optional prefix for the variables' names.
        prefix: Option<String>,
    },
    /// Variables read from a vault service.
    Vault {
        /// The vault's URL.
        url: String,
        /// The access token.
        token: String,
        /// The mount point to read under.
        mount: String,
    },
}

/// Options of a store held in an embedded database file.
#[derive(Debug, PartialEq, Eq)]
pub struct SpinKeyValueStoreOpts {
    /// The database file's path; an absent path means an in-memory store.
    pub path: Option<String>,
}

/// Options of a store on a networked key/value server.
#[derive(Debug, PartialEq, Eq)]
pub struct RedisKeyValueStoreOpts {
    /// The server's URL.
    pub url: String,
}

/// Options of a store on a hosted document database.
#[derive(Debug, PartialEq, Eq)]
pub struct AzureCosmosKeyValueStoreOpts {
    /// The access key.
    pub key: String,
    /// The account name.
    pub account: String,
    /// The database name.
    pub database: String,
    /// The container name.
    pub container: String,
}

/// The options of one named key/value store.
#[derive(Debug, PartialEq, Eq)]
pub enum KeyValueStoreOpts {
    /// An embedded file-backed store.
    Spin(SpinKeyValueStoreOpts),
    /// A store on a networked key/value server.
    Redis(RedisKeyValueStoreOpts),
    /// A store on a hosted document database.
    AzureCosmos(AzureCosmosKeyValueStoreOpts),
}

/// Options of an embedded relational database.
#[derive(Debug, PartialEq, Eq)]
pub struct SpinSqliteDatabaseOpts {
    /// The database file's path; an absent path means an in-memory database.
    pub path: Option<String>,
}

/// Options of a hosted relational database.
#[derive(Debug, PartialEq, Eq)]
pub struct LibsqlOpts {
    /// The database's URL.
    pub url: String,
    /// The access token.
    pub token: String,
}

/// The options of one named relational database.
#[derive(Debug, PartialEq, Eq)]
pub enum SqliteDatabaseOpts {
    /// An embedded file-backed database.
    Spin(SpinSqliteDatabaseOpts),
    /// A hosted database.
    Libsql(LibsqlOpts),
}

/// Per-host outbound HTTP options.
#[derive(Debug, PartialEq, Eq)]
pub struct OutboundHttpOpts {
    /// The host the options apply to.
    pub host: String,
    /// A file holding a custom root certificate chain.
    pub custom_root_ca_file: Option<String>,
    /// Client certificate authentication, when configured.
    pub client_cert_auth: Option<ClientCertAuth>,
}

/// Configuration for client certificate authentication.
#[derive(Debug, PartialEq, Eq)]
pub struct ClientCertAuth {
    /// The certificate chain file to present.
    pub cert_chain_file: String,
    /// The private key file to use.
    pub private_key_file: String,
}

/// One source of runtime configuration options: a parsed configuration file
/// or the process's explicit overrides.
#[derive(Debug, PartialEq, Eq)]
pub struct RuntimeConfigOpts {
    /// The state directory, when set; an empty string forces it unset.
    pub state_dir: Option<String>,
    /// The log directory, when set; an empty string disables logging.
    pub log_dir: Option<String>,
    /// Where language-model computations run, when set.
    pub llm_compute: Option<LlmComputeOpts>,
    /// The configured variables providers.
    pub variables_providers: Vec<VariablesProviderOpts>,
    /// The named key/value stores.
    pub key_value_stores: Vec<(String, KeyValueStoreOpts)>,
    /// The named relational databases.
    pub sqlite_databases: Vec<(String, SqliteDatabaseOpts)>,
    /// The path of the file these options came from, if any.
    pub file_path: Option<String>,
    /// Per-host outbound HTTP options.
    pub outbound_http_opts: Vec<OutboundHttpOpts>,
}

impl Default for RuntimeConfigOpts {
    /// Options with nothing set.
    fn default() -> (r: Self)
        ensures
            r.state_dir is None,
            r.log_dir is None,
            r.llm_compute is None,
            r.variables_providers@.len() == 0,
            r.key_value_stores@.len() == 0,
            r.sqlite_databases@.len() == 0,
            r.file_path is None,
            r.outbound_http_opts@.len() == 0,
    {
        RuntimeConfigOpts {
            state_dir: None,
            log_dir: None,
            llm_compute: None,
            variables_providers: Vec::new(),
            key_value_stores: Vec::new(),
            sqlite_databases: Vec::new(),
            file_path: None,
            outbound_http_opts: Vec::new(),
        }
    }
}

/// Multiple sources of runtime configuration queried uniformly.
#[derive(Debug)]
pub struct RuntimeConfig {
    /// The directory of the local application being run, if any.
    pub local_app_dir: Option<String>,
    /// The options of each merged configuration file, in merge order.
    pub files: Vec<RuntimeConfigOpts>,
    /// The process's explicit overrides, above every file.
    pub overrides: RuntimeConfigOpts,
}

/// The first set state directory among the layers, scanning in decreasing
/// precedence.
pub open spec fn first_state_dir(layers: Seq<RuntimeConfigOpts>) -> Option<Seq<char>>
    decreases layers.len(),
{
    if layers.len() == 0 {
        None
    } else {
        match layers[0].state_dir {
            Some(s) => Some(s@),
            None => first_state_dir(layers.skip(1)),
        }
    }
}

/// The first set log directory among the layers.
pub open spec fn first_log_dir(layers: Seq<RuntimeConfigOpts>) -> Option<Seq<char>>
    decreases layers.len(),
{
    if layers.len() == 0 {
        None
    } else {
        match layers[0].log_dir {
            Some(s) => Some(s@),
            None => first_log_dir(layers.skip(1)),
        }
    }
}

/// The first set language-model compute choice among the layers.
pub open spec fn first_llm(layers: Seq<RuntimeConfigOpts>) -> Option<LlmComputeOpts>
    decreases layers.len(),
{
    if layers.len() == 0 {
        None
    } else {
        match layers[0].llm_compute {
            Some(o) => Some(o),
            None => first_llm(layers.skip(1)),
        }
    }
}

/// The default name of the state directory under a local application's
/// directory.
pub const DEFAULT_STATE_DIR: &'static str = ".spin";

impl RuntimeConfig {
    /// The configuration's layers in decreasing precedence: the explicit
    /// overrides first, then the merged files from latest to earliest.
    pub open spec fn layers(&self) -> Seq<RuntimeConfigOpts> {
        seq![self.overrides] + self.files@.reverse()
    }

    /// The local application directory the configuration was created with.
    pub open spec fn spec_local_app_dir(&self) -> Option<String> {
        self.local_app_dir
    }

    /// What `state_dir` returns: the highest-precedence set state
    /// directory, with the empty string forcing it unset; with none set, a
    /// local application's default state directory.
    pub open spec fn state_dir_spec(&self) -> Option<Seq<char>> {
        match first_state_dir(self.layers()) {
            Some(s) => if s.len() == 0 {
                None
            } else {
                Some(s)
            },
            None => match self.local_app_dir {
                Some(d) => Some(joined_path(d@, ".spin"@)),
                None => None,
            },
        }
    }

    /// What `log_dir` returns: the highest-precedence set log directory,
    /// with the empty string disabling logging; with none set, the `logs`
    /// directory under the state directory, when there is one.
    pub open spec fn log_dir_spec(&self) -> Option<Seq<char>> {
        match first_log_dir(self.layers()) {
            Some(s) => if s.len() == 0 {
                None
            } else {
                Some(s)
            },
            None => match self.state_dir_spec() {
                Some(sd) => Some(joined_path(sd, "logs"@)),
                None => None,
            },
        }
    }

    /// Creates a configuration with no sources merged yet.
    pub fn new(local_app_dir: Option<String>) -> (r: Self)
        ensures
            r.spec_local_app_dir() == local_app_dir,
            r.files@.len() == 0,
            r.layers().len() == 1,
            r.layers()[0].state_dir is None,
            r.layers()[0].log_dir is None,
            r.layers()[0].llm_compute is None,
            r.layers()[0].variables_providers@.len() == 0,
            r.layers()[0].key_value_stores@.len() == 0,
            r.layers()[0].sqlite_databases@.len() == 0,
            r.layers()[0].outbound_http_opts@.len() == 0,
    {
        let r = RuntimeConfig {
            local_app_dir,
            files: Vec::new(),
            overrides: RuntimeConfigOpts::default(),
        };
        proof {
            assert(r.files@.reverse() =~= Seq::<RuntimeConfigOpts>::empty());
            assert(r.layers() =~= seq![r.overrides]);
        }
        r
    }

    /// Merges options parsed from a configuration file at `path`. Options
    /// from a later-merged file take precedence over earlier ones.
    pub fn merge_config_file(&mut self, opts: RuntimeConfigOpts, path: String)
        ensures
            final(self).local_app_dir == old(self).local_app_dir,
            final(self).overrides == old(self).overrides,
            final(self).files@ == old(self).files@.push(
                (RuntimeConfigOpts { file_path: Some(path), ..opts }),
            ),
    {
        let stamped = RuntimeConfigOpts { file_path: Some(path), ..opts };
        self.files.push(stamped);
    }

    /// Sets the state directory, overriding every other source.
    pub fn set_state_dir(&mut self, state_dir: String)
        ensures
            final(self).local_app_dir == old(self).local_app_dir,
            final(self).files@ == old(self).files@,
            final(self).overrides == (RuntimeConfigOpts {
                state_dir: Some(state_dir),
                ..old(self).overrides
            }),
    {
        self.overrides.state_dir = Some(state_dir);
    }

    /// Sets the log directory, overriding every other source.
    pub fn set_log_dir(&mut self, log_dir: String)
        ensures
            final(self).local_app_dir == old(self).local_app_dir,
            final(self).files@ == old(self).files@,
            final(self).overrides == (RuntimeConfigOpts {
                log_dir: Some(log_dir),
                ..old(self).overrides
            }),
    {
        self.overrides.log_dir = Some(log_dir);
    }

    fn find_state_dir(&self) -> (r: Option<String>)
        ensures
            match r {
                Some(s) => first_state_dir(self.layers()) == Some(s@),
                None => first_state_dir(self.layers()) is None,
            },
    {
        let ghost layers = self.layers();
        match &self.overrides.state_dir {
            Some(s) => {
                return Some(s.clone());
            },
            None => {},
        }
        proof {
            assert(layers[0] == self.overrides);
            assert(layers.skip(1) =~= self.files@.reverse());
            assert(self.files@.reverse().skip(0) =~= self.files@.reverse());
        }
        let mut i: usize = self.files.len();
        while i > 0
            invariant
                i <= self.files@.len(),
                layers == self.layers(),
                first_state_dir(layers) == first_state_dir(
                    self.files@.reverse().skip(self.files@.len() - i),
                ),
            decreases i,
        {
            let ghost rev = self.files@.reverse();
            let ghost off = self.files@.len() - i;
            proof {
                assert(rev.skip(off)[0] == rev[off]);
                assert(rev[off] == self.files@[i - 1]);
            }
            match &self.files[i - 1].state_dir {
                Some(s) => {
                    return Some(s.clone());
                },
                None => {},
            }
            proof {
                assert(rev.skip(off).skip(1) =~= rev.skip(off + 1));
            }
            i = i - 1;
        }
        proof {
            assert(self.files@.reverse().skip(self.files@.len() as int) =~= Seq::<
                RuntimeConfigOpts,
            >::empty());
        }
        None
    }

    fn find_log_dir(&self) -> (r: Option<String>)
        ensures
            match r {
                Some(s) => first_log_dir(self.layers()) == Some(s@),
                None => first_log_dir(self.layers()) is None,
            },
    {
        let ghost layers = self.layers();
        match &self.overrides.log_dir {
            Some(s) => {
                return Some(s.clone());
            },
            None => {},
        }
        proof {
            assert(layers[0] == self.overrides);
            assert(layers.skip(1) =~= self.files@.reverse());
            assert(self.files@.reverse().skip(0) =~= self.files@.reverse());
        }
        let mut i: usize = self.files.len();
        while i > 0
            invariant
                i <= self.files@.len(),
                layers == self.layers(),
                first_log_dir(layers) == first_log_dir(
                    self.files@.reverse().skip(self.files@.len() - i),
                ),
            decreases i,
        {
            let ghost rev = self.files@.reverse();
            let ghost off = self.files@.len() - i;
            proof {
                assert(rev.skip(off)[0] == rev[off]);
                assert(rev[off] == self.files@[i - 1]);
            }
            match &self.files[i - 1].log_dir {
                Some(s) => {
                    return Some(s.clone());
                },
                None => {},
            }
            proof {
                assert(rev.skip(off).skip(1) =~= rev.skip(off + 1));
            }
            i = i - 1;
        }
        proof {
            assert(self.files@.reverse().skip(self.files@.len() as int) =~= Seq::<
                RuntimeConfigOpts,
            >::empty());
        }
        None
    }

    /// Returns the state directory if one applies: the highest-precedence
    /// configured value, the default under a local application's directory,
    /// or none. An explicitly empty value forces it unset.
    pub fn state_dir(&self) -> (r: Option<String>)
        ensures
            match r {
                Some(s) => self.state_dir_spec() == Some(s@),
                None => self.state_dir_spec() is None,
            },
    {
        match self.find_state_dir() {
            Some(path_str) => {
                if path_str.as_str().is_empty() {
                    proof {
                        assert(path_str@ =~= Seq::<char>::empty());
                    }
                    None
                } else {
                    Some(path_str)
                }
            },
            None => match &self.local_app_dir {
                Some(app_dir) => Some(crate::paths::join_path(app_dir.as_str(), DEFAULT_STATE_DIR)),
                None => None,
            },
        }
    }

    /// Returns the log directory if one applies: the highest-precedence
    /// configured value, or the default under the state directory. An
    /// explicitly empty value disables logging.
    pub fn log_dir(&self) -> (r: Option<String>)
        ensures
            match r {
                Some(s) => self.log_dir_spec() == Some(s@),
                None => self.log_dir_spec() is None,
            },
    {
        match self.find_log_dir() {
            Some(path) => {
                if path.as_str().is_empty() {
                    proof {
                        assert(path@ =~= Seq::<char>::empty());
                    }
                    None
                } else {
                    Some(path)
                }
            },
            None => match self.state_dir() {
                Some(state_dir) => Some(crate::paths::join_path(state_dir.as_str(), "logs")),
                None => None,
            },
        }
    }

    /// Returns where language-model computations run: the
    /// highest-precedence configured choice, or in-process by default.
    pub fn llm_compute(&self) -> (r: LlmComputeOpts)
        ensures
            r == match first_llm(self.layers()) {
                Some(o) => o,
                None => LlmComputeOpts::Spin,
            },
    {
        let ghost layers = self.layers();
        match &self.overrides.llm_compute {
            Some(o) => {
                return clone_llm(o);
            },
            None => {},
        }
        proof {
            assert(layers[0] == self.overrides);
            assert(layers.skip(1) =~= self.files@.reverse());
            assert(self.files@.reverse().skip(0) =~= self.files@.reverse());
        }
        let mut i: usize = self.files.len();
        while i > 0
            invariant
                i <= self.files@.len(),
                layers == self.layers(),
                first_llm(layers) == first_llm(self.files@.reverse().skip(self.files@.len() - i)),
            decreases i,
        {
            let ghost rev = self.files@.reverse();
            let ghost off = self.files@.len() - i;
            proof {
                assert(rev.skip(off)[0] == rev[off]);
                assert(rev[off] == self.files@[i - 1]);
            }
            match &self.files[i - 1].llm_compute {
                Some(o) => {
                    return clone_llm(o);
                },
                None => {},
            }
            proof {
                assert(rev.skip(off).skip(1) =~= rev.skip(off + 1));
            }
            i = i - 1;
        }
        proof {
            assert(self.files@.reverse().skip(self.files@.len() as int) =~= Seq::<
                RuntimeConfigOpts,
            >::empty());
        }
        LlmComputeOpts::Spin
    }
}

fn clone_llm(o: &LlmComputeOpts) -> (r: LlmComputeOpts)
    ensures
        r == o,
{
    match o {
        LlmComputeOpts::Spin => LlmComputeOpts::Spin,
        LlmComputeOpts::RemoteHttp { url } => LlmComputeOpts::RemoteHttp { url: url.clone() },
    }
}

fn clone_opt_string(o: &Option<String>) -> (r: Option<String>)
    ensures
        r == o,
{
    match o {
        None => None,
        Some(s) => Some(s.clone()),
    }
}

fn clone_kv_opts(o: &KeyValueStoreOpts) -> (r: KeyValueStoreOpts)
    ensures
        r == o,
{
    match o {
        KeyValueStoreOpts::Spin(s) => KeyValueStoreOpts::Spin(
            SpinKeyValueStoreOpts { path: clone_opt_string(&s.path) },
        ),
        KeyValueStoreOpts::Redis(ro) => KeyValueStoreOpts::Redis(
            RedisKeyValueStoreOpts { url: ro.url.clone() },
        ),
        KeyValueStoreOpts::AzureCosmos(c) => KeyValueStoreOpts::AzureCosmos(
            AzureCosmosKeyValueStoreOpts {
                key: c.key.clone(),
                account: c.account.clone(),
                database: c.database.clone(),
                container: c.container.clone(),
            },
        ),
    }
}

fn clone_sqlite_opts(o: &SqliteDatabaseOpts) -> (r: SqliteDatabaseOpts)
    ensures
        r == o,
{
    match o {
        SqliteDatabaseOpts::Spin(s) => SqliteDatabaseOpts::Spin(
            SpinSqliteDatabaseOpts { path: clone_opt_string(&s.path) },
        ),
        SqliteDatabaseOpts::Libsql(l) => SqliteDatabaseOpts::Libsql(
            LibsqlOpts { url: l.url.clone(), token: l.token.clone() },
        ),
    }
}

/// A configured, buildable key/value store: what the runtime opens for a
/// logical store name.
pub enum KeyValueStore {
    /// An embedded file-backed store; no path means an in-memory store.
    Spin {
        /// The database file's path, resolved against the file that named it.
        path: Option<String>,
    },
    /// A store on a networked key/value server, with its manager ready to
    /// connect lazily.
    Redis(crate::redis_store::KeyValueRedis),
    /// A store on a hosted document database.
    AzureCosmos {
        /// The account name.
        account: String,
        /// The database name.
        database: String,
        /// The container name.
        container: String,
    },
}

/// A relative store path is resolved against the directory of the
/// configuration file that named it; a path from no file stays as given.
pub open spec fn resolved_store_path(p: Seq<char>, fp: Option<String>) -> Seq<char> {
    if is_absolute_path(p) {
        p
    } else {
        match fp {
            Some(f) => joined_path(parent_of(f@), p),
            None => p,
        }
    }
}

/// Whether the store options build at all: only a malformed store URL
/// fails.
pub open spec fn kv_build_ok(o: KeyValueStoreOpts) -> bool {
    match o {
        KeyValueStoreOpts::Redis(ro) => redis_url_ok(ro.url@),
        _ => true,
    }
}

/// Whether `st` is what building `o` from a file at `fp` gives.
pub open spec fn built_store_matches(
    st: KeyValueStore,
    o: KeyValueStoreOpts,
    fp: Option<String>,
) -> bool {
    match o {
        KeyValueStoreOpts::Spin(s) => st matches KeyValueStore::Spin { path: p } && (match s.path {
            None => p is None,
            Some(sp) => p matches Some(rp) && rp@ == resolved_store_path(sp@, fp),
        }),
        KeyValueStoreOpts::Redis(ro) => st matches KeyValueStore::Redis(m) && m.spec_address()
            == ro.url@,
        KeyValueStoreOpts::AzureCosmos(c) => st matches KeyValueStore::AzureCosmos {
            account,
            database,
            container,
        } && account@ == c.account@ && database@ == c.database@ && container@ == c.container@,
    }
}

impl KeyValueStoreOpts {
    /// The options the `default` store falls back to: an embedded store in
    /// the state directory, or in memory when there is none.
    pub fn default_store_opts(config: &RuntimeConfig) -> (r: Self)
        ensures
            r matches KeyValueStoreOpts::Spin(s) && (match config.state_dir_spec() {
                Some(sd) => s.path matches Some(p) && p@ == joined_path(
                    sd,
                    "sqlite_key_value.db"@,
                ),
                None => s.path is None,
            }),
    {
        match config.state_dir() {
            Some(sd) => KeyValueStoreOpts::Spin(
                SpinKeyValueStoreOpts {
                    path: Some(crate::paths::join_path(sd.as_str(), "sqlite_key_value.db")),
                },
            ),
            None => KeyValueStoreOpts::Spin(SpinKeyValueStoreOpts { path: None }),
        }
    }

    /// Builds the configured store, resolving an embedded store's relative
    /// path against the configuration file that named it and validating a
    /// networked store's URL.
    pub fn build_store(&self, opts: &RuntimeConfigOpts) -> (r: Result<KeyValueStore, String>)
        ensures
            kv_build_ok(*self) ==> (r matches Ok(st) && built_store_matches(
                st,
                *self,
                opts.file_path,
            )),
            !kv_build_ok(*self) ==> (r matches Err(e) && e@ == "Invalid Redis URL"@),
    {
        match self {
            KeyValueStoreOpts::Spin(s) => {
                let path = match &s.path {
                    None => None,
                    Some(sp) => {
                        if crate::paths::path_is_absolute(sp.as_str()) {
                            Some(sp.clone())
                        } else {
                            match &opts.file_path {
                                Some(f) => {
                                    let base = crate::paths::parent_dir(f.as_str());
                                    Some(crate::paths::join_path(base.as_str(), sp.as_str()))
                                },
                                None => Some(sp.clone()),
                            }
                        }
                    },
                };
                Ok(KeyValueStore::Spin { path })
            },
            KeyValueStoreOpts::Redis(ro) => {
                match crate::redis_store::KeyValueRedis::new(ro.url.clone()) {
                    Ok(m) => Ok(KeyValueStore::Redis(m)),
                    Err(e) => Err(e),
                }
            },
            KeyValueStoreOpts::AzureCosmos(c) => Ok(
                KeyValueStore::AzureCosmos {
                    account: c.account.clone(),
                    database: c.database.clone(),
                    container: c.container.clone(),
                },
            ),
        }
    }
}

/// The first options for `name` among the pairs, scanning front to back.
pub open spec fn find_kv_in_pairs(
    pairs: Seq<(String, KeyValueStoreOpts)>,
    name: Seq<char>,
) -> Option<KeyValueStoreOpts>
    decreases pairs.len(),
{
    if pairs.len() == 0 {
        None
    } else if pairs[0].0@ == name {
        Some(pairs[0].1)
    } else {
        find_kv_in_pairs(pairs.skip(1), name)
    }
}

/// The highest-precedence options for the named store, together with the
/// path of the file they came from.
pub open spec fn find_kv(layers: Seq<RuntimeConfigOpts>, name: Seq<char>) -> Option<
    (Option<String>, KeyValueStoreOpts),
>
    decreases layers.len(),
{
    if layers.len() == 0 {
        None
    } else {
        match find_kv_in_pairs(layers[0].key_value_stores@, name) {
            Some(o) => Some((layers[0].file_path, o)),
            None => find_kv(layers.skip(1), name),
        }
    }
}

proof fn lemma_kv_pairs_first(pairs: Seq<(String, KeyValueStoreOpts)>, j: int)
    requires
        0 <= j < pairs.len(),
        forall|p: int| 0 <= p < j ==> (#[trigger] pairs[p]).0@ != pairs[j].0@,
    ensures
        find_kv_in_pairs(pairs, pairs[j].0@) == Some(pairs[j].1),
    decreases j,
{
    if j > 0 {
        let rest = pairs.skip(1);
        assert(forall|p: int| 0 <= p < j - 1 ==> (#[trigger] rest[p]).0@ != rest[j - 1].0@) by {
            assert(forall|p: int| 0 <= p < j - 1 ==> #[trigger] rest[p] == pairs[p + 1]);
        }
        assert(rest[j - 1] == pairs[j]);
        lemma_kv_pairs_first(rest, j - 1);
        assert(pairs[0].0@ != pairs[j].0@);
    }
}

proof fn lemma_kv_pairs_none(pairs: Seq<(String, KeyValueStoreOpts)>, name: Seq<char>)
    requires
        forall|p: int| 0 <= p < pairs.len() ==> (#[trigger] pairs[p]).0@ != name,
    ensures
        find_kv_in_pairs(pairs, name) is None,
    decreases pairs.len(),
{
    if pairs.len() > 0 {
        let rest = pairs.skip(1);
        assert(forall|p: int| 0 <= p < rest.len() ==> #[trigger] rest[p] == pairs[p + 1]);
        lemma_kv_pairs_none(rest, name);
    }
}

proof fn lemma_kv_layers_first(layers: Seq<RuntimeConfigOpts>, li: int, j: int)
    requires
        0 <= li < layers.len(),
        0 <= j < layers[li].key_value_stores@.len(),
        forall|l: int, p: int|
            0 <= l < li && 0 <= p < layers[l].key_value_stores@.len() ==> (#[trigger] layers[l].key_value_stores@[p]).0@ != layers[li].key_value_stores@[j].0@,
        forall|p: int| 0 <= p < j ==> (#[trigger] layers[li].key_value_stores@[p]).0@ != layers[li].key_value_stores@[j].0@,
    ensures
        find_kv(layers, layers[li].key_value_stores@[j].0@) == Some(
            (layers[li].file_path, layers[li].key_value_stores@[j].1),
        ),
    decreases li,
{
    let name = layers[li].key_value_stores@[j].0@;
    if li == 0 {
        lemma_kv_pairs_first(layers[0].key_value_stores@, j);
    } else {
        assert(forall|p: int| 0 <= p < layers[0].key_value_stores@.len() ==> (#[trigger] layers[0].key_value_stores@[p]).0@ != name);
        lemma_kv_pairs_none(layers[0].key_value_stores@, name);
        let rest = layers.skip(1);
        assert(forall|l: int| 0 <= l < rest.len() ==> #[trigger] rest[l] == layers[l + 1]);
        lemma_kv_layers_first(rest, li - 1, j);
    }
}

proof fn lemma_kv_layers_none(layers: Seq<RuntimeConfigOpts>, name: Seq<char>)
    requires
        forall|l: int, p: int|
            0 <= l < layers.len() && 0 <= p < layers[l].key_value_stores@.len() ==> (
            #[trigger] layers[l].key_value_stores@[p]).0@ != name,
    ensures
        find_kv(layers, name) is None,
    decreases layers.len(),
{
    if layers.len() > 0 {
        assert(forall|p: int| 0 <= p < layers[0].key_value_stores@.len() ==> (#[trigger] layers[0].key_value_stores@[p]).0@ != name);
        lemma_kv_pairs_none(layers[0].key_value_stores@, name);
        let rest = layers.skip(1);
        assert(forall|l: int| 0 <= l < rest.len() ==> #[trigger] rest[l] == layers[l + 1]);
        lemma_kv_layers_none(rest, name);
    }
}

impl RuntimeConfig {
    fn layers_vec(&self) -> (r: Vec<&RuntimeConfigOpts>)
        ensures
            r@.len() == self.layers().len(),
            forall|i: int| 0 <= i < r@.len() ==> *(#[trigger] r@[i]) == self.layers()[i],
    {
        let ghost layers = self.layers();
        let mut r: Vec<&RuntimeConfigOpts> = Vec::new();
        r.push(&self.overrides);
        let mut k: usize = 0;
        while k < self.files.len()
            invariant
                k <= self.files@.len(),
                layers == self.layers(),
                layers.len() == 1 + self.files@.len(),
                r@.len() == 1 + k,
                forall|i: int| 0 <= i < r@.len() ==> *(#[trigger] r@[i]) == layers[i],
            decreases self.files@.len() - k,
        {
            let idx = self.files.len() - 1 - k;
            r.push(&self.files[idx]);
            proof {
                assert(layers[1 + k as int] == self.files@.reverse()[k as int]);
            }
            k = k + 1;
        }
        r
    }

    /// The options of the `default` key/value store: the
    /// highest-precedence configuration of that name, or the fallback
    /// embedded store.
    pub fn default_key_value_opts(&self) -> (r: KeyValueStoreOpts)
        ensures
            match find_kv(self.layers(), "default"@) {
                Some(fo) => r == fo.1,
                None => r matches KeyValueStoreOpts::Spin(s) && (match self.state_dir_spec() {
                    Some(sd) => s.path matches Some(p) && p@ == joined_path(
                        sd,
                        "sqlite_key_value.db"@,
                    ),
                    None => s.path is None,
                }),
            },
    {
        let ghost layers = self.layers();
        let lv = self.layers_vec();
        let mut li: usize = 0;
        while li < lv.len()
            invariant
                li <= lv@.len(),
                layers == self.layers(),
                lv@.len() == layers.len(),
                forall|i: int| 0 <= i < lv@.len() ==> *(#[trigger] lv@[i]) == layers[i],
                forall|l: int, p: int|
                    0 <= l < li && 0 <= p < layers[l].key_value_stores@.len() ==> (
                    #[trigger] layers[l].key_value_stores@[p]).0@ != "default"@,
            decreases lv@.len() - li,
        {
            let layer = lv[li];
            let mut pj: usize = 0;
            while pj < layer.key_value_stores.len()
                invariant
                    li < lv@.len(),
                    pj <= layer.key_value_stores@.len(),
                    layers == self.layers(),
                    lv@.len() == layers.len(),
                    forall|i: int| 0 <= i < lv@.len() ==> *(#[trigger] lv@[i]) == layers[i],
                    *layer == layers[li as int],
                    forall|l: int, p: int|
                        0 <= l < li && 0 <= p < layers[l].key_value_stores@.len() ==> (
                        #[trigger] layers[l].key_value_stores@[p]).0@ != "default"@,
                    forall|p: int| 0 <= p < pj ==> (#[trigger] layers[li as int].key_value_stores@[p]).0@ != "default"@,
                decreases layer.key_value_stores@.len() - pj,
            {
                if str_eq(layer.key_value_stores[pj].0.as_str(), "default") {
                    proof {
                        lemma_kv_layers_first(layers, li as int, pj as int);
                    }
                    return clone_kv_opts(&layer.key_value_stores[pj].1);
                }
                pj = pj + 1;
            }
            li = li + 1;
        }
        proof {
            lemma_kv_layers_none(layers, "default"@);
        }
        KeyValueStoreOpts::default_store_opts(self)
    }
}

/// Whether some layer configures a store under `name`.
pub open spec fn kv_occurs(layers: Seq<RuntimeConfigOpts>, name: Seq<char>) -> bool {
    exists|l: int, p: int|
        0 <= l < layers.len() && 0 <= p < layers[l].key_value_stores@.len() && (#[trigger] layers[l].key_value_stores@[p]).0@ == name
}

/// Whether a store under `name` is configured before the scan position
/// `(li, pj)`: in a whole earlier layer, or earlier in the current one.
pub open spec fn kv_occurs_prefix(
    layers: Seq<RuntimeConfigOpts>,
    li: int,
    pj: int,
    name: Seq<char>,
) -> bool {
    (exists|l: int, p: int|
        0 <= l < li && 0 <= p < layers[l].key_value_stores@.len() && (#[trigger] layers[l].key_value_stores@[p]).0@ == name) || (exists|p: int|
        0 <= p < pj && (#[trigger] layers[li].key_value_stores@[p]).0@ == name)
}

/// Whether `st` is the fallback `default` store for this configuration.
pub open spec fn default_kv_matches(st: KeyValueStore, c: &RuntimeConfig) -> bool {
    st matches KeyValueStore::Spin { path: p } && (match c.state_dir_spec() {
        Some(sd) => p matches Some(pp) && pp@ == joined_path(sd, "sqlite_key_value.db"@),
        None => p is None,
    })
}

fn kv_names_contains(out: &Vec<(String, KeyValueStore)>, name: &str) -> (r: bool)
    ensures
        r == exists|i: int| 0 <= i < out@.len() && (#[trigger] out@[i]).0@ == name@,
{
    let mut i: usize = 0;
    while i < out.len()
        invariant
            i <= out@.len(),
            forall|j: int| 0 <= j < i ==> (#[trigger] out@[j]).0@ != name@,
        decreases out@.len() - i,
    {
        if str_eq(out[i].0.as_str(), name) {
            proof {
                assert(0 <= i < out@.len() && out@[i as int].0@ == name@);
            }
            return true;
        }
        i = i + 1;
    }
    false
}

impl RuntimeConfig {
    /// Resolves every configured key/value store by name. For each name the
    /// highest-precedence layer that configures it wins, and the `default`
    /// store is supplied from the fallback when no layer configures it.
    /// Fails — resolving nothing — when any configured store is malformed,
    /// so nothing runs against a partially-resolved configuration.
    pub fn key_value_stores(&self) -> (r: Result<Vec<(String, KeyValueStore)>, String>)
        ensures
            r matches Ok(stores) ==> {
                &&& forall|i: int, j: int| 0 <= i < j < stores@.len() ==> (#[trigger] stores@[i]).0@
                    != (#[trigger] stores@[j]).0@
                &&& exists|i: int| 0 <= i < stores@.len() && (#[trigger] stores@[i]).0@
                    == "default"@
                &&& forall|i: int| 0 <= i < stores@.len() ==> match find_kv(
                    self.layers(),
                    (#[trigger] stores@[i]).0@,
                ) {
                    Some(fo) => built_store_matches(stores@[i].1, fo.1, fo.0),
                    None => stores@[i].0@ == "default"@ && default_kv_matches(
                        stores@[i].1,
                        self,
                    ),
                }
                &&& forall|n: Seq<char>| #[trigger] kv_occurs(self.layers(), n) ==> exists|i: int|
                    0 <= i < stores@.len() && (#[trigger] stores@[i]).0@ == n
            },
            r matches Err(e) ==> e@ == "Invalid Redis URL"@ && exists|n: Seq<char>|
                (#[trigger] find_kv(self.layers(), n)) matches Some(fo) && !kv_build_ok(fo.1),
    {
        let ghost layers = self.layers();
        let lv = self.layers_vec();
        let mut stores: Vec<(String, KeyValueStore)> = Vec::new();
        let mut li: usize = 0;
        while li < lv.len()
            invariant
                li <= lv@.len(),
                layers == self.layers(),
                lv@.len() == layers.len(),
                forall|i: int| 0 <= i < lv@.len() ==> *(#[trigger] lv@[i]) == layers[i],
                forall|i: int, j: int| 0 <= i < j < stores@.len() ==> (#[trigger] stores@[i]).0@
                    != (#[trigger] stores@[j]).0@,
                forall|i: int| 0 <= i < stores@.len() ==> (match find_kv(
                    layers,
                    (#[trigger] stores@[i]).0@,
                ) {
                    Some(fo) => built_store_matches(stores@[i].1, fo.1, fo.0),
                    None => false,
                }),
                forall|n: Seq<char>| #[trigger] kv_occurs_prefix(layers, li as int, 0, n)
                    ==> exists|i: int| 0 <= i < stores@.len() && (#[trigger] stores@[i]).0@ == n,
                forall|i: int| 0 <= i < stores@.len() ==> kv_occurs_prefix(
                    layers,
                    li as int,
                    0,
                    (#[trigger] stores@[i]).0@,
                ),
            decreases lv@.len() - li,
        {
            let layer = lv[li];
            let mut pj: usize = 0;
            while pj < layer.key_value_stores.len()
                invariant
                    li < lv@.len(),
                    pj <= layer.key_value_stores@.len(),
                    layers == self.layers(),
                    lv@.len() == layers.len(),
                    forall|i: int| 0 <= i < lv@.len() ==> *(#[trigger] lv@[i]) == layers[i],
                    *layer == layers[li as int],
                    forall|i: int, j: int| 0 <= i < j < stores@.len() ==> (
                    #[trigger] stores@[i]).0@ != (#[trigger] stores@[j]).0@,
                    forall|i: int| 0 <= i < stores@.len() ==> (match find_kv(
                        layers,
                        (#[trigger] stores@[i]).0@,
                    ) {
                        Some(fo) => built_store_matches(stores@[i].1, fo.1, fo.0),
                        None => false,
                    }),
                    forall|n: Seq<char>| #[trigger] kv_occurs_prefix(layers, li as int, pj as int, n)
                        ==> exists|i: int| 0 <= i < stores@.len() && (#[trigger] stores@[i]).0@
                        == n,
                    forall|i: int| 0 <= i < stores@.len() ==> kv_occurs_prefix(
                        layers,
                        li as int,
                        pj as int,
                        (#[trigger] stores@[i]).0@,
                    ),
                decreases layer.key_value_stores@.len() - pj,
            {
                let ghost name_v = layers[li as int].key_value_stores@[pj as int].0@;
                if !kv_names_contains(&stores, layer.key_value_stores[pj].0.as_str()) {
                    proof {
                        if kv_occurs_prefix(layers, li as int, pj as int, name_v) {
                            assert(exists|i: int|
                                0 <= i < stores@.len() && (#[trigger] stores@[i]).0@ == name_v);
                            assert(false);
                        }
                        lemma_kv_layers_first(layers, li as int, pj as int);
                    }
                    let built = layer.key_value_stores[pj].1.build_store(layer);
                    match built {
                        Ok(st) => {
                            let ghost pre = stores@;
                            let name = layer.key_value_stores[pj].0.clone();
                            proof {
                                assert(name@ == name_v);
                            }
                            stores.push((name, st));
                            proof {
                                assert(stores@.len() == pre.len() + 1);
                                assert(stores@[pre.len() as int].0@ == name_v);
                                assert(forall|i: int| 0 <= i < pre.len() ==> #[trigger] stores@[i]
                                    == pre[i]);
                                assert forall|n: Seq<char>|
                                    #[trigger] kv_occurs_prefix(
                                        layers,
                                        li as int,
                                        pj + 1 as int,
                                        n,
                                    ) implies exists|i: int|
                                    0 <= i < stores@.len() && (#[trigger] stores@[i]).0@ == n by {
                                    if n == name_v {
                                        assert(stores@[pre.len() as int].0@ == n);
                                    } else {
                                        assert(kv_occurs_prefix(layers, li as int, pj as int, n));
                                        let i = choose|i: int|
                                            0 <= i < pre.len() && (#[trigger] pre[i]).0@ == n;
                                        assert(stores@[i].0@ == n);
                                    }
                                }
                                assert(kv_occurs_prefix(
                                    layers,
                                    li as int,
                                    pj + 1 as int,
                                    name_v,
                                ));
                            }
                        },
                        Err(e) => {
                            proof {
                                let fo = find_kv(layers, name_v);
                                assert(!kv_build_ok(fo.unwrap().1));
                            }
                            return Err(e);
                        },
                    }
                } else {
                    proof {
                        assert forall|n: Seq<char>|
                            #[trigger] kv_occurs_prefix(layers, li as int, pj + 1 as int, n) implies exists|
                            i: int,
                        |
                            0 <= i < stores@.len() && (#[trigger] stores@[i]).0@ == n by {
                            if n == name_v {
                            } else {
                                assert(kv_occurs_prefix(layers, li as int, pj as int, n));
                            }
                        }
                        assert(kv_occurs_prefix(layers, li as int, pj + 1 as int, name_v));
                    }
                }
                pj = pj + 1;
            }
            proof {
                assert forall|n: Seq<char>|
                    #[trigger] kv_occurs_prefix(layers, li + 1 as int, 0, n) implies kv_occurs_prefix(
                    layers,
                    li as int,
                    layers[li as int].key_value_stores@.len() as int,
                    n,
                ) by {}
                assert forall|n: Seq<char>|
                    #[trigger] kv_occurs_prefix(
                        layers,
                        li as int,
                        layers[li as int].key_value_stores@.len() as int,
                        n,
                    ) implies kv_occurs_prefix(layers, li + 1 as int, 0, n) by {}
            }
            li = li + 1;
        }
        if !kv_names_contains(&stores, "default") {
            proof {
                if kv_occurs(layers, "default"@) {
                    assert(kv_occurs_prefix(layers, layers.len() as int, 0, "default"@));
                    assert(false);
                }
                lemma_kv_layers_none(layers, "default"@);
            }
            let dopts = KeyValueStoreOpts::default_store_opts(self);
            let base = RuntimeConfigOpts::default();
            let ghost pre = stores@;
            match dopts.build_store(&base) {
                Ok(st) => {
                    stores.push((String::from_str("default"), st));
                    proof {
                        assert(stores@.len() == pre.len() + 1);
                        assert(stores@[pre.len() as int].0@ == "default"@);
                        assert(forall|i: int| 0 <= i < pre.len() ==> #[trigger] stores@[i]
                            == pre[i]);
                        assert forall|n: Seq<char>| #[trigger] kv_occurs(layers, n) implies exists|
                            i: int,
                        | 0 <= i < stores@.len() && (#[trigger] stores@[i]).0@ == n by {
                            assert(kv_occurs_prefix(layers, layers.len() as int, 0, n));
                            let i = choose|i: int|
                                0 <= i < pre.len() && (#[trigger] pre[i]).0@ == n;
                            assert(stores@[i].0@ == n);
                        }
                    }
                },
                Err(_) => {
                    proof {
                        assert(false);
                    }
                    return Err(String::from_str("Invalid Redis URL"));
                },
            }
        } else {
            proof {
                assert forall|n: Seq<char>| #[trigger] kv_occurs(layers, n) implies exists|i: int|
                    0 <= i < stores@.len() && (#[trigger] stores@[i]).0@ == n by {
                    assert(kv_occurs_prefix(layers, layers.len() as int, 0, n));
                }
            }
        }
        Ok(stores)
    }
}

/// The first options for the named database among the pairs, front to back.
pub open spec fn find_sqlite_in_pairs(
    pairs: Seq<(String, SqliteDatabaseOpts)>,
    name: Seq<char>,
) -> Option<SqliteDatabaseOpts>
    decreases pairs.len(),
{
    if pairs.len() == 0 {
        None
    } else if pairs[0].0@ == name {
        Some(pairs[0].1)
    } else {
        find_sqlite_in_pairs(pairs.skip(1), name)
    }
}

/// The highest-precedence options for the named database.
pub open spec fn find_sqlite(layers: Seq<RuntimeConfigOpts>, name: Seq<char>) -> Option<
    SqliteDatabaseOpts,
>
    decreases layers.len(),
{
    if layers.len() == 0 {
        None
    } else {
        match find_sqlite_in_pairs(layers[0].sqlite_databases@, name) {
            Some(o) => Some(o),
            None => find_sqlite(layers.skip(1), name),
        }
    }
}

proof fn lemma_sqlite_pairs_first(pairs: Seq<(String, SqliteDatabaseOpts)>, j: int)
    requires
        0 <= j < pairs.len(),
        forall|p: int| 0 <= p < j ==> (#[trigger] pairs[p]).0@ != pairs[j].0@,
    ensures
        find_sqlite_in_pairs(pairs, pairs[j].0@) == Some(pairs[j].1),
    decreases j,
{
    if j > 0 {
        let rest = pairs.skip(1);
        assert(forall|p: int| 0 <= p < rest.len() ==> #[trigger] rest[p] == pairs[p + 1]);
        lemma_sqlite_pairs_first(rest, j - 1);
    }
}

proof fn lemma_sqlite_pairs_none(pairs: Seq<(String, SqliteDatabaseOpts)>, name: Seq<char>)
    requires
        forall|p: int| 0 <= p < pairs.len() ==> (#[trigger] pairs[p]).0@ != name,
    ensures
        find_sqlite_in_pairs(pairs, name) is None,
    decreases pairs.len(),
{
    if pairs.len() > 0 {
        let rest = pairs.skip(1);
        assert(forall|p: int| 0 <= p < rest.len() ==> #[trigger] rest[p] == pairs[p + 1]);
        lemma_sqlite_pairs_none(rest, name);
    }
}

proof fn lemma_sqlite_layers_first(layers: Seq<RuntimeConfigOpts>, li: int, j: int)
    requires
        0 <= li < layers.len(),
        0 <= j < layers[li].sqlite_databases@.len(),
        forall|l: int, p: int|
            0 <= l < li && 0 <= p < layers[l].sqlite_databases@.len() ==> (#[trigger] layers[l].sqlite_databases@[p]).0@ != layers[li].sqlite_databases@[j].0@,
        forall|p: int| 0 <= p < j ==> (#[trigger] layers[li].sqlite_databases@[p]).0@
            != layers[li].sqlite_databases@[j].0@,
    ensures
        find_sqlite(layers, layers[li].sqlite_databases@[j].0@) == Some(
            layers[li].sqlite_databases@[j].1,
        ),
    decreases li,
{
    let name = layers[li].sqlite_databases@[j].0@;
    if li == 0 {
        lemma_sqlite_pairs_first(layers[0].sqlite_databases@, j);
    } else {
        assert(forall|p: int| 0 <= p < layers[0].sqlite_databases@.len() ==> (#[trigger] layers[0].sqlite_databases@[p]).0@ != name);
        lemma_sqlite_pairs_none(layers[0].sqlite_databases@, name);
        let rest = layers.skip(1);
        assert(forall|l: int| 0 <= l < rest.len() ==> #[trigger] rest[l] == layers[l + 1]);
        lemma_sqlite_layers_first(rest, li - 1, j);
    }
}

proof fn lemma_sqlite_layers_none(layers: Seq<RuntimeConfigOpts>, name: Seq<char>)
    requires
        forall|l: int, p: int|
            0 <= l < layers.len() && 0 <= p < layers[l].sqlite_databases@.len() ==> (
            #[trigger] layers[l].sqlite_databases@[p]).0@ != name,
    ensures
        find_sqlite(layers, name) is None,
    decreases layers.len(),
{
    if layers.len() > 0 {
        assert(forall|p: int| 0 <= p < layers[0].sqlite_databases@.len() ==> (#[trigger] layers[0].sqlite_databases@[p]).0@ != name);
        lemma_sqlite_pairs_none(layers[0].sqlite_databases@, name);
        let rest = layers.skip(1);
        assert(forall|l: int| 0 <= l < rest.len() ==> #[trigger] rest[l] == layers[l + 1]);
        lemma_sqlite_layers_none(rest, name);
    }
}

/// Whether some layer configures a database under `name`.
pub open spec fn sqlite_occurs(layers: Seq<RuntimeConfigOpts>, name: Seq<char>) -> bool {
    exists|l: int, p: int|
        0 <= l < layers.len() && 0 <= p < layers[l].sqlite_databases@.len() && (#[trigger] layers[l].sqlite_databases@[p]).0@ == name
}

/// Whether a database under `name` is configured before the scan position.
pub open spec fn sqlite_occurs_prefix(
    layers: Seq<RuntimeConfigOpts>,
    li: int,
    pj: int,
    name: Seq<char>,
) -> bool {
    (exists|l: int, p: int|
        0 <= l < li && 0 <= p < layers[l].sqlite_databases@.len() && (#[trigger] layers[l].sqlite_databases@[p]).0@ == name) || (exists|p: int|
        0 <= p < pj && (#[trigger] layers[li].sqlite_databases@[p]).0@ == name)
}

/// Whether `o` is the fallback `default` database for this configuration.
pub open spec fn default_sqlite_matches(o: SqliteDatabaseOpts, c: &RuntimeConfig) -> bool {
    o matches SqliteDatabaseOpts::Spin(s) && (match c.state_dir_spec() {
        Some(sd) => s.path matches Some(p) && p@ == joined_path(sd, "sqlite_db.db"@),
        None => s.path is None,
    })
}

fn sqlite_names_contains(out: &Vec<(String, SqliteDatabaseOpts)>, name: &str) -> (r: bool)
    ensures
        r == exists|i: int| 0 <= i < out@.len() && (#[trigger] out@[i]).0@ == name@,
{
    let mut i: usize = 0;
    while i < out.len()
        invariant
            i <= out@.len(),
            forall|j: int| 0 <= j < i ==> (#[trigger] out@[j]).0@ != name@,
        decreases out@.len() - i,
    {
        if str_eq(out[i].0.as_str(), name) {
            proof {
                assert(0 <= i < out@.len() && out@[i as int].0@ == name@);
            }
            return true;
        }
        i = i + 1;
    }
    false
}

impl SqliteDatabaseOpts {
    /// The options the `default` database falls back to: an embedded
    /// database in the state directory, or in memory when there is none.
    pub fn default_database_opts(config: &RuntimeConfig) -> (r: Self)
        ensures
            r matches SqliteDatabaseOpts::Spin(s) && (match config.state_dir_spec() {
                Some(sd) => s.path matches Some(p) && p@ == joined_path(sd, "sqlite_db.db"@),
                None => s.path is None,
            }),
    {
        match config.state_dir() {
            Some(sd) => SqliteDatabaseOpts::Spin(
                SpinSqliteDatabaseOpts {
                    path: Some(crate::paths::join_path(sd.as_str(), "sqlite_db.db")),
                },
            ),
            None => SqliteDatabaseOpts::Spin(SpinSqliteDatabaseOpts { path: None }),
        }
    }
}

impl RuntimeConfig {
    /// The options of the `default` relational database: the
    /// highest-precedence configuration of that name, or the fallback
    /// embedded database.
    pub fn default_sqlite_opts(&self) -> (r: SqliteDatabaseOpts)
        ensures
            match find_sqlite(self.layers(), "default"@) {
                Some(o) => r == o,
                None => default_sqlite_matches(r, self),
            },
    {
        let ghost layers = self.layers();
        let lv = self.layers_vec();
        let mut li: usize = 0;
        while li < lv.len()
            invariant
                li <= lv@.len(),
                layers == self.layers(),
                lv@.len() == layers.len(),
                forall|i: int| 0 <= i < lv@.len() ==> *(#[trigger] lv@[i]) == layers[i],
                forall|l: int, p: int|
                    0 <= l < li && 0 <= p < layers[l].sqlite_databases@.len() ==> (
                    #[trigger] layers[l].sqlite_databases@[p]).0@ != "default"@,
            decreases lv@.len() - li,
        {
            let layer = lv[li];
            let mut pj: usize = 0;
            while pj < layer.sqlite_databases.len()
                invariant
                    li < lv@.len(),
                    pj <= layer.sqlite_databases@.len(),
                    layers == self.layers(),
                    lv@.len() == layers.len(),
                    forall|i: int| 0 <= i < lv@.len() ==> *(#[trigger] lv@[i]) == layers[i],
                    *layer == layers[li as int],
                    forall|l: int, p: int|
                        0 <= l < li && 0 <= p < layers[l].sqlite_databases@.len() ==> (
                        #[trigger] layers[l].sqlite_databases@[p]).0@ != "default"@,
                    forall|p: int| 0 <= p < pj ==> (#[trigger] layers[li as int].sqlite_databases@[p]).0@ != "default"@,
                decreases layer.sqlite_databases@.len() - pj,
            {
                if str_eq(layer.sqlite_databases[pj].0.as_str(), "default") {
                    proof {
                        lemma_sqlite_layers_first(layers, li as int, pj as int);
                    }
                    return clone_sqlite_opts(&layer.sqlite_databases[pj].1);
                }
                pj = pj + 1;
            }
            li = li + 1;
        }
        proof {
            lemma_sqlite_layers_none(layers, "default"@);
        }
        SqliteDatabaseOpts::default_database_opts(self)
    }

    /// Resolves every configured relational database by name, first-wins by
    /// precedence, and supplies the fallback `default` database when no
    /// layer configures one. Opening the databases is the caller's step;
    /// this resolves which options each name gets.
    pub fn sqlite_databases(&self) -> (r: Vec<(String, SqliteDatabaseOpts)>)
        ensures
            forall|i: int, j: int| 0 <= i < j < r@.len() ==> (#[trigger] r@[i]).0@ != (
            #[trigger] r@[j]).0@,
            exists|i: int| 0 <= i < r@.len() && (#[trigger] r@[i]).0@ == "default"@,
            forall|i: int| 0 <= i < r@.len() ==> match find_sqlite(
                self.layers(),
                (#[trigger] r@[i]).0@,
            ) {
                Some(o) => r@[i].1 == o,
                None => r@[i].0@ == "default"@ && default_sqlite_matches(r@[i].1, self),
            },
            forall|n: Seq<char>| #[trigger] sqlite_occurs(self.layers(), n) ==> exists|i: int|
                0 <= i < r@.len() && (#[trigger] r@[i]).0@ == n,
    {
        let ghost layers = self.layers();
        let lv = self.layers_vec();
        let mut dbs: Vec<(String, SqliteDatabaseOpts)> = Vec::new();
        let mut li: usize = 0;
        while li < lv.len()
            invariant
                li <= lv@.len(),
                layers == self.layers(),
                lv@.len() == layers.len(),
                forall|i: int| 0 <= i < lv@.len() ==> *(#[trigger] lv@[i]) == layers[i],
                forall|i: int, j: int| 0 <= i < j < dbs@.len() ==> (#[trigger] dbs@[i]).0@ != (
                #[trigger] dbs@[j]).0@,
                forall|i: int| 0 <= i < dbs@.len() ==> (match find_sqlite(
                    layers,
                    (#[trigger] dbs@[i]).0@,
                ) {
                    Some(o) => dbs@[i].1 == o,
                    None => false,
                }),
                forall|n: Seq<char>| #[trigger] sqlite_occurs_prefix(layers, li as int, 0, n)
                    ==> exists|i: int| 0 <= i < dbs@.len() && (#[trigger] dbs@[i]).0@ == n,
                forall|i: int| 0 <= i < dbs@.len() ==> sqlite_occurs_prefix(
                    layers,
                    li as int,
                    0,
                    (#[trigger] dbs@[i]).0@,
                ),
            decreases lv@.len() - li,
        {
            let layer = lv[li];
            let mut pj: usize = 0;
            while pj < layer.sqlite_databases.len()
                invariant
                    li < lv@.len(),
                    pj <= layer.sqlite_databases@.len(),
                    layers == self.layers(),
                    lv@.len() == layers.len(),
                    forall|i: int| 0 <= i < lv@.len() ==> *(#[trigger] lv@[i]) == layers[i],
                    *layer == layers[li as int],
                    forall|i: int, j: int| 0 <= i < j < dbs@.len() ==> (#[trigger] dbs@[i]).0@ != (
                    #[trigger] dbs@[j]).0@,
                    forall|i: int| 0 <= i < dbs@.len() ==> (match find_sqlite(
                        layers,
                        (#[trigger] dbs@[i]).0@,
                    ) {
                        Some(o) => dbs@[i].1 == o,
                        None => false,
                    }),
                    forall|n: Seq<char>| #[trigger] sqlite_occurs_prefix(
                        layers,
                        li as int,
                        pj as int,
                        n,
                    ) ==> exists|i: int| 0 <= i < dbs@.len() && (#[trigger] dbs@[i]).0@ == n,
                    forall|i: int| 0 <= i < dbs@.len() ==> sqlite_occurs_prefix(
                        layers,
                        li as int,
                        pj as int,
                        (#[trigger] dbs@[i]).0@,
                    ),
                decreases layer.sqlite_databases@.len() - pj,
            {
                let ghost name_v = layers[li as int].sqlite_databases@[pj as int].0@;
                if !sqlite_names_contains(&dbs, layer.sqlite_databases[pj].0.as_str()) {
                    proof {
                        if sqlite_occurs_prefix(layers, li as int, pj as int, name_v) {
                            assert(exists|i: int|
                                0 <= i < dbs@.len() && (#[trigger] dbs@[i]).0@ == name_v);
                            assert(false);
                        }
                        lemma_sqlite_layers_first(layers, li as int, pj as int);
                    }
                    let ghost pre = dbs@;
                    let name = layer.sqlite_databases[pj].0.clone();
                    let opts = clone_sqlite_opts(&layer.sqlite_databases[pj].1);
                    proof {
                        assert(name@ == name_v);
                    }
                    dbs.push((name, opts));
                    proof {
                        assert(dbs@.len() == pre.len() + 1);
                        assert(dbs@[pre.len() as int].0@ == name_v);
                        assert(forall|i: int| 0 <= i < pre.len() ==> #[trigger] dbs@[i] == pre[i]);
                        assert forall|n: Seq<char>|
                            #[trigger] sqlite_occurs_prefix(
                                layers,
                                li as int,
                                pj + 1 as int,
                                n,
                            ) implies exists|i: int|
                            0 <= i < dbs@.len() && (#[trigger] dbs@[i]).0@ == n by {
                            if n == name_v {
                                assert(dbs@[pre.len() as int].0@ == n);
                            } else {
                                assert(sqlite_occurs_prefix(layers, li as int, pj as int, n));
                                let i = choose|i: int|
                                    0 <= i < pre.len() && (#[trigger] pre[i]).0@ == n;
                                assert(dbs@[i].0@ == n);
                            }
                        }
                        assert(sqlite_occurs_prefix(layers, li as int, pj + 1 as int, name_v));
                    }
                } else {
                    proof {
                        assert forall|n: Seq<char>|
                            #[trigger] sqlite_occurs_prefix(
                                layers,
                                li as int,
                                pj + 1 as int,
                                n,
                            ) implies exists|i: int|
                            0 <= i < dbs@.len() && (#[trigger] dbs@[i]).0@ == n by {
                            if n == name_v {
                            } else {
                                assert(sqlite_occurs_prefix(layers, li as int, pj as int, n));
                            }
                        }
                        assert(sqlite_occurs_prefix(layers, li as int, pj + 1 as int, name_v));
                    }
                }
                pj = pj + 1;
            }
            proof {
                assert forall|n: Seq<char>|
                    #[trigger] sqlite_occurs_prefix(layers, li + 1 as int, 0, n) implies sqlite_occurs_prefix(
                    layers,
                    li as int,
                    layers[li as int].sqlite_databases@.len() as int,
                    n,
                ) by {}
                assert forall|n: Seq<char>|
                    #[trigger] sqlite_occurs_prefix(
                        layers,
                        li as int,
                        layers[li as int].sqlite_databases@.len() as int,
                        n,
                    ) implies sqlite_occurs_prefix(layers, li + 1 as int, 0, n) by {}
            }
            li = li + 1;
        }
        if !sqlite_names_contains(&dbs, "default") {
            proof {
                if sqlite_occurs(layers, "default"@) {
                    assert(sqlite_occurs_prefix(layers, layers.len() as int, 0, "default"@));
                    assert(false);
                }
                lemma_sqlite_layers_none(layers, "default"@);
            }
            let dopts = SqliteDatabaseOpts::default_database_opts(self);
            let ghost pre = dbs@;
            dbs.push((String::from_str("default"), dopts));
            proof {
                assert(dbs@.len() == pre.len() + 1);
                assert(dbs@[pre.len() as int].0@ == "default"@);
                assert(forall|i: int| 0 <= i < pre.len() ==> #[trigger] dbs@[i] == pre[i]);
                assert forall|n: Seq<char>| #[trigger] sqlite_occurs(layers, n) implies exists|
                    i: int,
                | 0 <= i < dbs@.len() && (#[trigger] dbs@[i]).0@ == n by {
                    assert(sqlite_occurs_prefix(layers, layers.len() as int, 0, n));
                    let i = choose|i: int| 0 <= i < pre.len() && (#[trigger] pre[i]).0@ == n;
                    assert(dbs@[i].0@ == n);
                }
            }
        } else {
            proof {
                assert forall|n: Seq<char>| #[trigger] sqlite_occurs(layers, n) implies exists|
                    i: int,
                | 0 <= i < dbs@.len() && (#[trigger] dbs@[i]).0@ == n by {
                    assert(sqlite_occurs_prefix(layers, layers.len() as int, 0, n));
                }
            }
        }
        dbs
    }
}

/// What building a provider from its options yields: the same choice with
/// the same values.
pub open spec fn built_provider(o: VariablesProviderOpts) -> VariablesProvider {
    match o {
        VariablesProviderOpts::Env { prefix } => VariablesProvider::Env { prefix },
        VariablesProviderOpts::Vault { url, token, mount } => VariablesProvider::Vault {
            url,
            token,
            mount,
        },
    }
}

/// The providers one layer contributes, in its declaration order.
pub open spec fn layer_providers(l: RuntimeConfigOpts) -> Seq<VariablesProvider> {
    l.variables_providers@.map_values(|o: VariablesProviderOpts| built_provider(o))
}

/// The providers every layer contributes, in layer precedence order.
pub open spec fn all_layer_providers(layers: Seq<RuntimeConfigOpts>) -> Seq<VariablesProvider> {
    layers.flat_map(|l: RuntimeConfigOpts| layer_providers(l))
}

impl VariablesProviderOpts {
    /// The provider every configuration gets by default: plain environment
    /// variables.
    pub fn default_provider_opts(_config: &RuntimeConfig) -> (r: Self)
        ensures
            r == (VariablesProviderOpts::Env { prefix: None::<String> }),
    {
        VariablesProviderOpts::Env { prefix: None }
    }

    /// Builds the provider these options describe.
    pub fn build_provider(&self) -> (r: VariablesProvider)
        ensures
            r == built_provider(*self),
    {
        match self {
            VariablesProviderOpts::Env { prefix } => VariablesProvider::Env {
                prefix: clone_opt_string(prefix),
            },
            VariablesProviderOpts::Vault { url, token, mount } => VariablesProvider::Vault {
                url: url.clone(),
                token: token.clone(),
                mount: mount.clone(),
            },
        }
    }
}

impl RuntimeConfig {
    /// Every configured variables provider, after the default environment
    /// provider, in layer precedence order.
    pub fn variables_providers(&self) -> (r: Vec<VariablesProvider>)
        ensures
            r@ == seq![(VariablesProvider::Env { prefix: None::<String> })] + all_layer_providers(
                self.layers(),
            ),
    {
        let ghost layers = self.layers();
        let ghost f = |l: RuntimeConfigOpts| layer_providers(l);
        let mut out: Vec<VariablesProvider> = Vec::new();
        let default_provider = VariablesProviderOpts::default_provider_opts(self).build_provider();
        out.push(default_provider);
        proof {
            assert(layers.take(0).flat_map(f) =~= Seq::<VariablesProvider>::empty());
            assert(out@ =~= seq![(VariablesProvider::Env { prefix: None::<String> })]
                + layers.take(0).flat_map(f));
        }
        let lv = self.layers_vec();
        let mut li: usize = 0;
        while li < lv.len()
            invariant
                li <= lv@.len(),
                layers == self.layers(),
                lv@.len() == layers.len(),
                forall|i: int| 0 <= i < lv@.len() ==> *(#[trigger] lv@[i]) == layers[i],
                f == (|l: RuntimeConfigOpts| layer_providers(l)),
                out@ == seq![(VariablesProvider::Env { prefix: None::<String> })] + layers.take(
                    li as int,
                ).flat_map(f),
            decreases lv@.len() - li,
        {
            let layer = lv[li];
            let mut pj: usize = 0;
            while pj < layer.variables_providers.len()
                invariant
                    li < lv@.len(),
                    pj <= layer.variables_providers@.len(),
                    layers == self.layers(),
                    lv@.len() == layers.len(),
                    forall|i: int| 0 <= i < lv@.len() ==> *(#[trigger] lv@[i]) == layers[i],
                    *layer == layers[li as int],
                    f == (|l: RuntimeConfigOpts| layer_providers(l)),
                    out@ == seq![(VariablesProvider::Env { prefix: None::<String> })] + layers.take(
                        li as int,
                    ).flat_map(f) + layer_providers(layers[li as int]).take(pj as int),
                decreases layer.variables_providers@.len() - pj,
            {
                let built = layer.variables_providers[pj].build_provider();
                out.push(built);
                proof {
                    let lp = layer_providers(layers[li as int]);
                    assert(lp[pj as int] == built_provider(
                        layers[li as int].variables_providers@[pj as int],
                    ));
                    assert(lp.take(pj + 1 as int) =~= lp.take(pj as int).push(lp[pj as int]));
                    assert(out@ =~= seq![(VariablesProvider::Env { prefix: None::<String> })]
                        + layers.take(li as int).flat_map(f) + lp.take(pj + 1 as int));
                }
                pj = pj + 1;
            }
            proof {
                layers.lemma_flat_map_take_append(f, li as int);
                let lp = layer_providers(layers[li as int]);
                assert(lp.take(lp.len() as int) =~= lp);
                assert(f(layers[li as int]) == lp);
                assert(out@ =~= seq![(VariablesProvider::Env { prefix: None::<String> })]
                    + layers.take(li + 1 as int).flat_map(f));
            }
            li = li + 1;
        }
        proof {
            assert(layers.take(layers.len() as int) =~= layers);
        }
        out
    }
}

fn clone_client_cert_auth(c: &ClientCertAuth) -> (r: ClientCertAuth)
    ensures
        r == c,
{
    ClientCertAuth {
        cert_chain_file: c.cert_chain_file.clone(),
        private_key_file: c.private_key_file.clone(),
    }
}

fn clone_outbound_opts(o: &OutboundHttpOpts) -> (r: OutboundHttpOpts)
    ensures
        r == o,
{
    OutboundHttpOpts {
        host: o.host.clone(),
        custom_root_ca_file: clone_opt_string(&o.custom_root_ca_file),
        client_cert_auth: match &o.client_cert_auth {
            None => None,
            Some(c) => Some(clone_client_cert_auth(c)),
        },
    }
}

/// The options attached to the last occurrence of `h` in the given
/// occurrence list.
pub open spec fn last_with_host(occs: Seq<OutboundHttpOpts>, h: Seq<char>) -> Option<
    OutboundHttpOpts,
>
    decreases occs.len(),
{
    if occs.len() == 0 {
        None
    } else if occs.last().host@ == h {
        Some(occs.last())
    } else {
        last_with_host(occs.drop_last(), h)
    }
}

/// Every per-host outbound option of every layer, in the scan order of the
/// layers.
pub open spec fn all_outbound(layers: Seq<RuntimeConfigOpts>) -> Seq<OutboundHttpOpts> {
    layers.flat_map(|l: RuntimeConfigOpts| l.outbound_http_opts@)
}

fn outbound_host_index(out: &Vec<(String, OutboundHttpOpts)>, host: &str) -> (r: Option<usize>)
    ensures
        match r {
            Some(i) => i < out@.len() && out@[i as int].0@ == host@,
            None => forall|j: int| 0 <= j < out@.len() ==> (#[trigger] out@[j]).0@ != host@,
        },
{
    let mut i: usize = 0;
    while i < out.len()
        invariant
            i <= out@.len(),
            forall|j: int| 0 <= j < i ==> (#[trigger] out@[j]).0@ != host@,
        decreases out@.len() - i,
    {
        if str_eq(out[i].0.as_str(), host) {
            return Some(i);
        }
        i = i + 1;
    }
    None
}

impl RuntimeConfig {
    /// The per-host outbound HTTP options, collected over every layer: one
    /// entry per host, holding the options of the host's last occurrence in
    /// the scan.
    pub fn outbound_http_opts(&self) -> (r: Vec<(String, OutboundHttpOpts)>)
        ensures
            forall|i: int, j: int| 0 <= i < j < r@.len() ==> (#[trigger] r@[i]).0@ != (
            #[trigger] r@[j]).0@,
            forall|i: int| 0 <= i < r@.len() ==> last_with_host(
                all_outbound(self.layers()),
                (#[trigger] r@[i]).0@,
            ) == Some(r@[i].1),
            forall|h: Seq<char>| #[trigger] last_with_host(all_outbound(self.layers()), h) is Some
                ==> exists|i: int| 0 <= i < r@.len() && (#[trigger] r@[i]).0@ == h,
    {
        let ghost layers = self.layers();
        let ghost g = |l: RuntimeConfigOpts| l.outbound_http_opts@;
        let mut out: Vec<(String, OutboundHttpOpts)> = Vec::new();
        let lv = self.layers_vec();
        let mut li: usize = 0;
        proof {
            assert(layers.take(0).flat_map(g) =~= Seq::<OutboundHttpOpts>::empty());
        }
        while li < lv.len()
            invariant
                li <= lv@.len(),
                layers == self.layers(),
                lv@.len() == layers.len(),
                forall|i: int| 0 <= i < lv@.len() ==> *(#[trigger] lv@[i]) == layers[i],
                g == (|l: RuntimeConfigOpts| l.outbound_http_opts@),
                forall|i: int, j: int| 0 <= i < j < out@.len() ==> (#[trigger] out@[i]).0@ != (
                #[trigger] out@[j]).0@,
                forall|i: int| 0 <= i < out@.len() ==> last_with_host(
                    layers.take(li as int).flat_map(g),
                    (#[trigger] out@[i]).0@,
                ) == Some(out@[i].1),
                forall|h: Seq<char>|
                    #[trigger] last_with_host(layers.take(li as int).flat_map(g), h) is Some
                        ==> exists|i: int| 0 <= i < out@.len() && (#[trigger] out@[i]).0@ == h,
            decreases lv@.len() - li,
        {
            let layer = lv[li];
            let mut pj: usize = 0;
            while pj < layer.outbound_http_opts.len()
                invariant
                    li < lv@.len(),
                    pj <= layer.outbound_http_opts@.len(),
                    layers == self.layers(),
                    lv@.len() == layers.len(),
                    forall|i: int| 0 <= i < lv@.len() ==> *(#[trigger] lv@[i]) == layers[i],
                    *layer == layers[li as int],
                    g == (|l: RuntimeConfigOpts| l.outbound_http_opts@),
                    forall|i: int, j: int| 0 <= i < j < out@.len() ==> (#[trigger] out@[i]).0@ != (
                    #[trigger] out@[j]).0@,
                    forall|i: int| 0 <= i < out@.len() ==> last_with_host(
                        layers.take(li as int).flat_map(g) + layers[li as int].outbound_http_opts@.take(pj as int),
                        (#[trigger] out@[i]).0@,
                    ) == Some(out@[i].1),
                    forall|h: Seq<char>|
                        #[trigger] last_with_host(
                            layers.take(li as int).flat_map(g) + layers[li as int].outbound_http_opts@.take(pj as int),
                            h,
                        ) is Some ==> exists|i: int|
                        0 <= i < out@.len() && (#[trigger] out@[i]).0@ == h,
                decreases layer.outbound_http_opts@.len() - pj,
            {
                let ghost occs = layers.take(li as int).flat_map(g) + layers[li as int].outbound_http_opts@.take(pj as int);
                let ghost occs2 = layers.take(li as int).flat_map(g) + layers[li as int].outbound_http_opts@.take(pj + 1 as int);
                let ghost o_v = layers[li as int].outbound_http_opts@[pj as int];
                proof {
                    assert(occs2 =~= occs.push(o_v));
                    assert(occs2.drop_last() =~= occs);
                }
                let opts = clone_outbound_opts(&layer.outbound_http_opts[pj]);
                let host = layer.outbound_http_opts[pj].host.clone();
                let ghost pre = out@;
                match outbound_host_index(&out, host.as_str()) {
                    Some(idx) => {
                        let _ = out.remove(idx);
                        out.insert(idx, (host, opts));
                        proof {
                            assert(out@[idx as int].0@ == o_v.host@);
                            assert(out@[idx as int].1 == o_v);
                            assert(out@.len() == pre.len());
                            assert(forall|i: int|
                                0 <= i < pre.len() && i != idx ==> #[trigger] out@[i] == pre[i]);
                        }
                    },
                    None => {
                        out.push((host, opts));
                        proof {
                            assert(out@.len() == pre.len() + 1);
                            assert(out@[pre.len() as int].0@ == o_v.host@);
                            assert(out@[pre.len() as int].1 == o_v);
                            assert(forall|i: int| 0 <= i < pre.len() ==> #[trigger] out@[i]
                                == pre[i]);
                        }
                    },
                }
                proof {
                    assert forall|i: int| 0 <= i < out@.len() implies last_with_host(
                        occs2,
                        (#[trigger] out@[i]).0@,
                    ) == Some(out@[i].1) by {
                        if out@[i].0@ == o_v.host@ {
                            assert(out@[i].1 == o_v);
                        } else {
                            assert(pre[i] == out@[i]);
                            assert(last_with_host(occs, out@[i].0@) == Some(out@[i].1));
                        }
                    }
                    assert forall|h: Seq<char>| #[trigger] last_with_host(occs2, h) is Some implies exists|
                        i: int,
                    | 0 <= i < out@.len() && (#[trigger] out@[i]).0@ == h by {
                        if h == o_v.host@ {
                            let w = choose|i: int|
                                0 <= i < out@.len() && (#[trigger] out@[i]).0@ == o_v.host@ && out@[i].1 == o_v;
                            assert(out@[w].0@ == h);
                        } else {
                            assert(last_with_host(occs, h) is Some);
                            let i = choose|i: int|
                                0 <= i < pre.len() && (#[trigger] pre[i]).0@ == h;
                            assert(out@[i].0@ == h);
                        }
                    }
                }
                pj = pj + 1;
            }
            proof {
                layers.lemma_flat_map_take_append(g, li as int);
                let lo = layers[li as int].outbound_http_opts@;
                assert(lo.take(lo.len() as int) =~= lo);
                assert(g(layers[li as int]) == lo);
                assert(layers.take(li + 1 as int).flat_map(g) =~= layers.take(li as int).flat_map(g)
                    + lo.take(lo.len() as int));
            }
            li = li + 1;
        }
        proof {
            assert(layers.take(layers.len() as int) =~= layers);
        }
        out
    }
}

/// The one-word tag of a key/value store's backend kind.
pub open spec fn kv_tag(o: KeyValueStoreOpts) -> Seq<char> {
    match o {
        KeyValueStoreOpts::Spin(_) => "spin"@,
        KeyValueStoreOpts::Redis(_) => "redis"@,
        KeyValueStoreOpts::AzureCosmos(_) => "cosmos"@,
    }
}

/// The one-line summary of one configured key/value store.
pub open spec fn kv_summary(id: Seq<char>, o: KeyValueStoreOpts) -> Seq<char> {
    "[key_value_store."@ + id + ": "@ + kv_tag(o) + "]"@
}

/// The one-word tag of a relational database's backend kind.
pub open spec fn sqlite_tag(o: SqliteDatabaseOpts) -> Seq<char> {
    match o {
        SqliteDatabaseOpts::Spin(_) => "spin"@,
        SqliteDatabaseOpts::Libsql(_) => "libsql"@,
    }
}

/// The one-line summary of one configured relational database.
pub open spec fn sqlite_summary(id: Seq<char>, o: SqliteDatabaseOpts) -> Seq<char> {
    "[sqlite_database."@ + id + ": "@ + sqlite_tag(o) + "]"@
}

/// The one-line summary of the language-model compute choice.
pub open spec fn llm_summary(o: LlmComputeOpts) -> Seq<char> {
    "[llm_compute: "@ + (match o {
        LlmComputeOpts::Spin => "spin"@,
        LlmComputeOpts::RemoteHttp { .. } => "remote-http"@,
    }) + "]"@
}

/// The summaries one layer contributes: its stores, its databases, and its
/// compute choice when set.
pub open spec fn layer_summaries(l: RuntimeConfigOpts) -> Seq<Seq<char>> {
    l.key_value_stores@.map_values(|p: (String, KeyValueStoreOpts)| kv_summary(p.0@, p.1))
        + l.sqlite_databases@.map_values(
        |p: (String, SqliteDatabaseOpts)| sqlite_summary(p.0@, p.1),
    ) + (match l.llm_compute {
        Some(o) => seq![llm_summary(o)],
        None => Seq::<Seq<char>>::empty(),
    })
}

/// The summaries of every layer's options, in precedence order.
pub open spec fn all_summaries(layers: Seq<RuntimeConfigOpts>) -> Seq<Seq<char>> {
    layers.flat_map(|l: RuntimeConfigOpts| layer_summaries(l))
}

/// Writes one startup line that names every configured runtime-config
/// option, when a configuration file was given and configures anything.
pub struct SummariseRuntimeConfigHook {
    /// The configuration file the summarised options came from.
    pub runtime_config_file: Option<String>,
}

impl SummariseRuntimeConfigHook {
    /// Creates the hook for the given configuration file, if one was given.
    pub fn new(runtime_config_file: &Option<String>) -> (r: Self)
        ensures
            r.runtime_config_file == *runtime_config_file,
    {
        SummariseRuntimeConfigHook { runtime_config_file: clone_opt_string(runtime_config_file) }
    }

    fn summarise_kv(id: &str, opt: &KeyValueStoreOpts) -> (r: String)
        ensures
            r@ == kv_summary(id@, *opt),
    {
        let source = match opt {
            KeyValueStoreOpts::Spin(_) => "spin",
            KeyValueStoreOpts::Redis(_) => "redis",
            KeyValueStoreOpts::AzureCosmos(_) => "cosmos",
        };
        String::from_str("[key_value_store.").concat(id).concat(": ").concat(source).concat("]")
    }

    fn summarise_sqlite(id: &str, opt: &SqliteDatabaseOpts) -> (r: String)
        ensures
            r@ == sqlite_summary(id@, *opt),
    {
        let source = match opt {
            SqliteDatabaseOpts::Spin(_) => "spin",
            SqliteDatabaseOpts::Libsql(_) => "libsql",
        };
        String::from_str("[sqlite_database.").concat(id).concat(": ").concat(source).concat("]")
    }

    fn summarise_llm(opt: &LlmComputeOpts) -> (r: String)
        ensures
            r@ == llm_summary(*opt),
    {
        let source = match opt {
            LlmComputeOpts::Spin => "spin",
            LlmComputeOpts::RemoteHttp { .. } => "remote-http",
        };
        String::from_str("[llm_compute: ").concat(source).concat("]")
    }

    /// The startup line to print once the application is loaded: every
    /// layer's option summaries joined into one sentence naming the
    /// configuration file — or nothing, when no file was given or nothing
    /// is configured.
    pub fn app_loaded(&self, runtime_config: &RuntimeConfig) -> (r: Option<String>)
        ensures
            self.runtime_config_file is None ==> r is None,
            self.runtime_config_file matches Some(path) ==> {
                let sums = all_summaries(runtime_config.layers());
                &&& sums.len() == 0 ==> r is None
                &&& sums.len() > 0 ==> (r matches Some(line) && line@ == "Using "@ + joined(
                    sums,
                    ", "@,
                ) + " runtime config from "@ + path@)
            },
    {
        let path = match &self.runtime_config_file {
            None => {
                return None;
            },
            Some(p) => p,
        };
        let ghost layers = runtime_config.layers();
        let ghost h = |l: RuntimeConfigOpts| layer_summaries(l);
        let mut sums: Vec<String> = Vec::new();
        let lv = runtime_config.layers_vec();
        let mut li: usize = 0;
        proof {
            assert(layers.take(0).flat_map(h) =~= Seq::<Seq<char>>::empty());
            assert(sums.deep_view() =~= layers.take(0).flat_map(h));
        }
        while li < lv.len()
            invariant
                li <= lv@.len(),
                layers == runtime_config.layers(),
                lv@.len() == layers.len(),
                forall|i: int| 0 <= i < lv@.len() ==> *(#[trigger] lv@[i]) == layers[i],
                h == (|l: RuntimeConfigOpts| layer_summaries(l)),
                sums.deep_view() == layers.take(li as int).flat_map(h),
            decreases lv@.len() - li,
        {
            let layer = lv[li];
            let ghost base = layers.take(li as int).flat_map(h);
            let ghost kvpart = layers[li as int].key_value_stores@.map_values(
                |p: (String, KeyValueStoreOpts)| kv_summary(p.0@, p.1),
            );
            let ghost sqlpart = layers[li as int].sqlite_databases@.map_values(
                |p: (String, SqliteDatabaseOpts)| sqlite_summary(p.0@, p.1),
            );
            let mut pj: usize = 0;
            proof {
                assert(kvpart.take(0) =~= Seq::<Seq<char>>::empty());
                assert(sums.deep_view() =~= base + kvpart.take(0));
            }
            while pj < layer.key_value_stores.len()
                invariant
                    li < lv@.len(),
                    pj <= layer.key_value_stores@.len(),
                    layers == runtime_config.layers(),
                    *layer == layers[li as int],
                    base == layers.take(li as int).flat_map(h),
                    kvpart == layers[li as int].key_value_stores@.map_values(
                        |p: (String, KeyValueStoreOpts)| kv_summary(p.0@, p.1),
                    ),
                    kvpart.len() == layer.key_value_stores@.len(),
                    sums.deep_view() == base + kvpart.take(pj as int),
                decreases layer.key_value_stores@.len() - pj,
            {
                let ghost before = sums.deep_view();
                let s = Self::summarise_kv(
                    layer.key_value_stores[pj].0.as_str(),
                    &layer.key_value_stores[pj].1,
                );
                sums.push(s);
                proof {
                    assert(sums.deep_view() =~= before.push(kvpart[pj as int]));
                    assert(kvpart.take(pj + 1 as int) =~= kvpart.take(pj as int).push(
                        kvpart[pj as int],
                    ));
                    assert(sums.deep_view() =~= base + kvpart.take(pj + 1 as int));
                }
                pj = pj + 1;
            }
            proof {
                assert(kvpart.take(kvpart.len() as int) =~= kvpart);
                assert(sqlpart.take(0) =~= Seq::<Seq<char>>::empty());
                assert(sums.deep_view() =~= base + kvpart + sqlpart.take(0));
            }
            let mut qj: usize = 0;
            while qj < layer.sqlite_databases.len()
                invariant
                    li < lv@.len(),
                    qj <= layer.sqlite_databases@.len(),
                    layers == runtime_config.layers(),
                    *layer == layers[li as int],
                    base == layers.take(li as int).flat_map(h),
                    kvpart == layers[li as int].key_value_stores@.map_values(
                        |p: (String, KeyValueStoreOpts)| kv_summary(p.0@, p.1),
                    ),
                    sqlpart == layers[li as int].sqlite_databases@.map_values(
                        |p: (String, SqliteDatabaseOpts)| sqlite_summary(p.0@, p.1),
                    ),
                    sqlpart.len() == layer.sqlite_databases@.len(),
                    sums.deep_view() == base + kvpart + sqlpart.take(qj as int),
                decreases layer.sqlite_databases@.len() - qj,
            {
                let ghost before = sums.deep_view();
                let s = Self::summarise_sqlite(
                    layer.sqlite_databases[qj].0.as_str(),
                    &layer.sqlite_databases[qj].1,
                );
                sums.push(s);
                proof {
                    assert(sums.deep_view() =~= before.push(sqlpart[qj as int]));
                    assert(sqlpart.take(qj + 1 as int) =~= sqlpart.take(qj as int).push(
                        sqlpart[qj as int],
                    ));
                    assert(sums.deep_view() =~= base + kvpart + sqlpart.take(qj + 1 as int));
                }
                qj = qj + 1;
            }
            proof {
                assert(sqlpart.take(sqlpart.len() as int) =~= sqlpart);
            }
            match &layer.llm_compute {
                Some(o) => {
                    let ghost before = sums.deep_view();
                    let s = Self::summarise_llm(o);
                    sums.push(s);
                    proof {
                        assert(sums.deep_view() =~= before.push(
                            llm_summary(layers[li as int].llm_compute.unwrap()),
                        ));
                    }
                },
                None => {},
            }
            proof {
                layers.lemma_flat_map_take_append(h, li as int);
                assert(h(layers[li as int]) == layer_summaries(layers[li as int]));
                assert(sums.deep_view() =~= base + layer_summaries(layers[li as int]));
                assert(sums.deep_view() =~= layers.take(li + 1 as int).flat_map(h));
            }
            li = li + 1;
        }
        proof {
            assert(layers.take(layers.len() as int) =~= layers);
        }
        if sums.len() == 0 {
            proof {
                assert(all_summaries(layers).len() == 0);
            }
            return None;
        }
        let opts_text = crate::strutil::join_strings(&sums, ", ");
        let line = String::from_str("Using ").concat(opts_text.as_str()).concat(
            " runtime config from ",
        ).concat(path.as_str());
        Some(line)
    }
}

/// The decided format of a configuration file's text.
#[derive(Clone, Copy, Debug, PartialEq, Eq)]
pub enum ConfigFormat {
    /// The file is to be parsed as JSON.
    Json,
    /// The file is to be parsed as TOML.
    Toml,
}

/// What `str::trim_start` returns: the text with its leading whitespace
/// removed.
pub uninterp spec fn trim_start_of(s: Seq<char>) -> Seq<char>;

/// Relies on str::trim_start: the result depends on the text alone.
#[verifier::external_body]
fn trim_start(s: &str) -> (r: &str)
    ensures
        r@ == trim_start_of(s@),
{
    s.trim_start()
}

/// Whether a configuration file with the given extension and text is to be
/// read as JSON: anything not marked TOML whose extension says JSON or
/// whose text opens with a brace.
pub open spec fn is_json_config(ext: Seq<char>, contents: Seq<char>) -> bool {
    ext != "toml"@ && (ext == "json"@ || (trim_start_of(contents).len() > 0 && trim_start_of(
        contents,
    )[0] == '{'))
}

/// Decides the format a configuration file is parsed as, from its
/// extension and its text.
pub fn config_format(extension: &str, contents: &str) -> (r: ConfigFormat)
    ensures
        r == ConfigFormat::Json <==> is_json_config(extension@, contents@),
        r == ConfigFormat::Toml <==> !is_json_config(extension@, contents@),
{
    if str_eq(extension, "toml") {
        return ConfigFormat::Toml;
    }
    if str_eq(extension, "json") {
        return ConfigFormat::Json;
    }
    let trimmed = trim_start(contents);
    if trimmed.unicode_len() > 0 && trimmed.get_char(0) == '{' {
        ConfigFormat::Json
    } else {
        ConfigFormat::Toml
    }
}

} // verus!
