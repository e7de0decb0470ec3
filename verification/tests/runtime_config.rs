use hostcap::runtime_config::{
    config_format, ConfigFormat, KeyValueStoreOpts, LlmComputeOpts, RedisKeyValueStoreOpts,
    RuntimeConfig, RuntimeConfigOpts, SpinKeyValueStoreOpts, SqliteDatabaseOpts,
    SummariseRuntimeConfigHook, VariablesProvider, VariablesProviderOpts,
};

fn default_spin_store_path(config: &RuntimeConfig) -> Option<String> {
    match config.default_key_value_opts() {
        KeyValueStoreOpts::Spin(opts) => opts.path,
        other => panic!("unexpected default store opts {other:?}"),
    }
}

fn merge_opts(config: &mut RuntimeConfig, opts: RuntimeConfigOpts, path: &str) {
    config.merge_config_file(opts, path.to_string());
}

#[test]
fn defaults_without_local_app_dir() {
    let config = RuntimeConfig::new(None);

    assert_eq!(config.state_dir(), None);
    assert_eq!(config.log_dir(), None);
    assert_eq!(default_spin_store_path(&config), None);
}

#[test]
fn defaults_with_local_app_dir() {
    let app_dir = "/srv/apps/demo";
    let config = RuntimeConfig::new(Some(app_dir.to_string()));

    let state_dir = config.state_dir().unwrap();
    assert!(state_dir.starts_with(app_dir));

    let log_dir = config.log_dir().unwrap();
    assert!(log_dir.starts_with(&state_dir));

    let default_db_path = default_spin_store_path(&config).unwrap();
    assert!(default_db_path.starts_with(&state_dir));
}

#[test]
fn state_dir_force_unset() {
    let app_dir = "/srv/apps/demo";
    let mut config = RuntimeConfig::new(Some(app_dir.to_string()));
    assert!(config.state_dir().is_some());

    config.set_state_dir("".to_string());
    assert!(config.state_dir().is_none());
}

#[test]
fn opts_layers_precedence() {
    let mut config = RuntimeConfig::new(None);

    let mut file_opts = RuntimeConfigOpts::default();
    file_opts.state_dir = Some("file-state-dir".to_string());
    file_opts.log_dir = Some("file-log-dir".to_string());
    merge_opts(&mut config, file_opts, "runtime-config.toml");

    assert_eq!(config.state_dir().unwrap(), "file-state-dir");
    assert_eq!(config.log_dir().unwrap(), "file-log-dir");

    config.set_state_dir("override-state-dir".to_string());
    config.set_log_dir("override-log-dir".to_string());

    assert_eq!(config.state_dir().unwrap(), "override-state-dir");
    assert_eq!(config.log_dir().unwrap(), "override-log-dir");
}

#[test]
fn later_files_take_precedence_over_earlier_ones() {
    let mut config = RuntimeConfig::new(None);
    let mut first = RuntimeConfigOpts::default();
    first.state_dir = Some("first".to_string());
    merge_opts(&mut config, first, "first.toml");
    let mut second = RuntimeConfigOpts::default();
    second.state_dir = Some("second".to_string());
    merge_opts(&mut config, second, "second.toml");
    assert_eq!(config.state_dir().unwrap(), "second");
}

#[test]
fn deprecated_config_provider_in_runtime_config_file() {
    let mut config = RuntimeConfig::new(None);

    // one default provider
    assert_eq!(config.variables_providers().len(), 1);

    let mut opts = RuntimeConfigOpts::default();
    opts.variables_providers = vec![VariablesProviderOpts::Vault {
        url: "http://vault".to_string(),
        token: "secret".to_string(),
        mount: "root".to_string(),
    }];
    merge_opts(&mut config, opts, "runtime-config.toml");
    assert_eq!(config.variables_providers().len(), 2);
}

#[test]
fn variables_providers_from_file() {
    let mut config = RuntimeConfig::new(None);

    assert_eq!(config.variables_providers().len(), 1);

    let mut opts = RuntimeConfigOpts::default();
    opts.variables_providers = vec![VariablesProviderOpts::Vault {
        url: "http://vault".to_string(),
        token: "secret".to_string(),
        mount: "root".to_string(),
    }];
    merge_opts(&mut config, opts, "runtime-config.toml");

    let providers = config.variables_providers();
    assert_eq!(providers.len(), 2);
    assert_eq!(providers[0], VariablesProvider::Env { prefix: None });
    assert_eq!(
        providers[1],
        VariablesProvider::Vault {
            url: "http://vault".to_string(),
            token: "secret".to_string(),
            mount: "root".to_string(),
        }
    );
}

#[test]
fn key_value_stores_from_file() {
    let mut config = RuntimeConfig::new(None);

    // one default store
    assert_eq!(config.key_value_stores().unwrap().len(), 1);

    let mut opts = RuntimeConfigOpts::default();
    opts.key_value_stores = vec![
        (
            "default".to_string(),
            KeyValueStoreOpts::Spin(SpinKeyValueStoreOpts {
                path: Some("override.db".to_string()),
            }),
        ),
        (
            "other".to_string(),
            KeyValueStoreOpts::Spin(SpinKeyValueStoreOpts {
                path: Some("other.db".to_string()),
            }),
        ),
    ];
    merge_opts(&mut config, opts, "runtime-config.toml");
    assert_eq!(config.key_value_stores().unwrap().len(), 2);
}

#[test]
fn default_redis_key_value_store_from_file() {
    let mut config = RuntimeConfig::new(None);

    let mut opts = RuntimeConfigOpts::default();
    opts.key_value_stores = vec![(
        "default".to_string(),
        KeyValueStoreOpts::Redis(RedisKeyValueStoreOpts {
            url: "redis://127.0.0.1/".to_string(),
        }),
    )];
    merge_opts(&mut config, opts, "runtime-config.toml");
    assert_eq!(config.key_value_stores().unwrap().len(), 1);

    assert!(
        matches!(config.default_key_value_opts(), KeyValueStoreOpts::Redis(_)),
        "expected default Redis store",
    );
}

#[test]
fn malformed_store_url_fails_the_whole_resolution() {
    let mut config = RuntimeConfig::new(None);
    let mut opts = RuntimeConfigOpts::default();
    opts.key_value_stores = vec![(
        "broken".to_string(),
        KeyValueStoreOpts::Redis(RedisKeyValueStoreOpts {
            url: "not a url".to_string(),
        }),
    )];
    merge_opts(&mut config, opts, "runtime-config.toml");
    match config.key_value_stores() {
        Err(e) => assert_eq!(e, "Invalid Redis URL"),
        Ok(_) => panic!("a malformed store URL must fail the resolution"),
    }
}

#[test]
fn sqlite_databases_upsert_the_default() {
    let config = RuntimeConfig::new(None);
    let dbs = config.sqlite_databases();
    assert_eq!(dbs.len(), 1);
    assert_eq!(dbs[0].0, "default");
    assert!(matches!(config.default_sqlite_opts(), SqliteDatabaseOpts::Spin(_)));
}

#[test]
fn llm_compute_defaults_to_in_process() {
    let config = RuntimeConfig::new(None);
    assert_eq!(config.llm_compute(), LlmComputeOpts::Spin);

    let mut with_remote = RuntimeConfig::new(None);
    let mut opts = RuntimeConfigOpts::default();
    opts.llm_compute = Some(LlmComputeOpts::RemoteHttp {
        url: "http://llm.example".to_string(),
    });
    merge_opts(&mut with_remote, opts, "runtime-config.toml");
    assert_eq!(
        with_remote.llm_compute(),
        LlmComputeOpts::RemoteHttp {
            url: "http://llm.example".to_string()
        }
    );
}

#[test]
fn outbound_http_opts_keep_one_entry_per_host() {
    let mut config = RuntimeConfig::new(None);
    let mut first = RuntimeConfigOpts::default();
    first.outbound_http_opts = vec![hostcap::runtime_config::OutboundHttpOpts {
        host: "example.com".to_string(),
        custom_root_ca_file: Some("first.pem".to_string()),
        client_cert_auth: None,
    }];
    merge_opts(&mut config, first, "first.toml");
    let mut second = RuntimeConfigOpts::default();
    second.outbound_http_opts = vec![hostcap::runtime_config::OutboundHttpOpts {
        host: "example.com".to_string(),
        custom_root_ca_file: Some("second.pem".to_string()),
        client_cert_auth: None,
    }];
    merge_opts(&mut config, second, "second.toml");

    let opts = config.outbound_http_opts();
    assert_eq!(opts.len(), 1);
    assert_eq!(opts[0].0, "example.com");
    // the scan runs in decreasing precedence and a later occurrence
    // replaces an earlier one, so the earliest-merged file's entry is kept
    assert_eq!(opts[0].1.custom_root_ca_file, Some("first.pem".to_string()));
}

#[test]
fn config_format_decides_json_or_toml() {
    assert_eq!(config_format("toml", "{}"), ConfigFormat::Toml);
    assert_eq!(config_format("json", "state_dir = \"x\""), ConfigFormat::Json);
    assert_eq!(config_format("conf", "  \t{\"a\": 1}"), ConfigFormat::Json);
    assert_eq!(config_format("conf", "state_dir = \"x\""), ConfigFormat::Toml);
    assert_eq!(config_format("", ""), ConfigFormat::Toml);
}

#[test]
fn summary_names_each_configured_option() {
    let hook = SummariseRuntimeConfigHook::new(&Some("runtime-config.toml".to_string()));

    let empty = RuntimeConfig::new(None);
    assert_eq!(hook.app_loaded(&empty), None);

    let mut config = RuntimeConfig::new(None);
    let mut opts = RuntimeConfigOpts::default();
    opts.key_value_stores = vec![(
        "default".to_string(),
        KeyValueStoreOpts::Redis(RedisKeyValueStoreOpts {
            url: "redis://127.0.0.1/".to_string(),
        }),
    )];
    opts.llm_compute = Some(LlmComputeOpts::Spin);
    merge_opts(&mut config, opts, "runtime-config.toml");

    let line = hook.app_loaded(&config).unwrap();
    assert_eq!(
        line,
        "Using [key_value_store.default: redis], [llm_compute: spin] \
         runtime config from runtime-config.toml"
    );

    let no_file = SummariseRuntimeConfigHook::new(&None);
    assert_eq!(no_file.app_loaded(&config), None);
}
