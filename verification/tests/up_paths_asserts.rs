use hostcap::asserts::{
    assert_failure_msg, check_http_response, check_status, u16_string, ResponseCheckError,
};
use hostcap::paths::{appdir, join_path, parent_dir, resolve_config_path};
use hostcap::redis_store::KeyValueRedis;
use hostcap::store::SwapError;
use hostcap::strutil::{join_strings, str_eq};
use hostcap::up::{parse_env_var, AppSource, UpCommand};

fn command() -> UpCommand {
    UpCommand {
        address: "127.0.0.1:3000".to_string(),
        app: None,
        bindle: None,
        server: None,
        tmp: None,
        env: vec![],
        tls_cert: None,
        tls_key: None,
    }
}

#[test]
fn app_source_requires_exactly_one_source() {
    let neither = command();
    assert_eq!(
        neither.app_source().unwrap_err(),
        "Must specify app file or bindle id"
    );

    let mut both = command();
    both.app = Some("spin.toml".to_string());
    both.bindle = Some("my-app".to_string());
    assert_eq!(
        both.app_source().unwrap_err(),
        "Specify only one of app file or bindle ID"
    );

    let mut file = command();
    file.app = Some("spin.toml".to_string());
    assert_eq!(
        file.app_source().unwrap(),
        AppSource::File {
            path: "spin.toml".to_string()
        }
    );

    let mut bindle = command();
    bindle.bindle = Some("my-app".to_string());
    assert_eq!(
        bindle.app_source().unwrap_err(),
        "Loading from a bindle requires a Bindle server URL"
    );
    bindle.server = Some("https://bindle.example".to_string());
    assert_eq!(
        bindle.app_source().unwrap(),
        AppSource::Bindle {
            id: "my-app".to_string(),
            server: "https://bindle.example".to_string()
        }
    );
}

#[test]
fn tls_config_checks_both_files() {
    let plain = command();
    assert_eq!(plain.tls_config(false, false).unwrap(), None);

    let mut tls = command();
    tls.tls_cert = Some("cert.pem".to_string());
    tls.tls_key = Some("key.pem".to_string());
    assert_eq!(
        tls.tls_config(false, true).unwrap_err(),
        "TLS certificate file does not exist or is not a file"
    );
    assert_eq!(
        tls.tls_config(true, false).unwrap_err(),
        "TLS key file does not exist or is not a file"
    );
    let config = tls.tls_config(true, true).unwrap().unwrap();
    assert_eq!(config.cert_path, "cert.pem");
    assert_eq!(config.key_path, "key.pem");
}

#[test]
fn env_vars_split_at_the_first_equals() {
    assert_eq!(
        parse_env_var("key=value").unwrap(),
        ("key".to_string(), "value".to_string())
    );
    assert_eq!(
        parse_env_var("a=b=c").unwrap(),
        ("a".to_string(), "b=c".to_string())
    );
    assert_eq!(parse_env_var("k=").unwrap(), ("k".to_string(), "".to_string()));
    assert_eq!(parse_env_var("=v").unwrap(), ("".to_string(), "v".to_string()));
    assert_eq!(
        parse_env_var("novalue").unwrap_err(),
        "Environment variable must be of the form `key=value`"
    );
}

#[test]
fn path_helpers_join_and_split() {
    assert_eq!(join_path("/srv/app", "x.db"), "/srv/app/x.db");
    assert_eq!(join_path("/srv/app/", "x.db"), "/srv/app/x.db");
    assert_eq!(join_path("", "x.db"), "x.db");
    assert_eq!(parent_dir("/srv/app/config.toml"), "/srv/app");
    assert_eq!(parent_dir("/config.toml"), "/");
    assert_eq!(parent_dir("config.toml"), "");
    assert_eq!(appdir("/tests/testcases", "demo-app"), "/tests/testcases/demo-app");
}

#[test]
fn config_paths_resolve_against_their_file() {
    assert_eq!(
        resolve_config_path("/abs/x.db", &Some("/etc/cfg.toml".to_string()), "/cwd"),
        "/abs/x.db"
    );
    assert_eq!(
        resolve_config_path("x.db", &Some("/etc/cfg.toml".to_string()), "/cwd"),
        "/etc/x.db"
    );
    assert_eq!(resolve_config_path("x.db", &None, "/cwd"), "/cwd/x.db");
}

#[test]
fn string_helpers_compare_and_join() {
    assert!(str_eq("abc", "abc"));
    assert!(!str_eq("abc", "abd"));
    assert!(!str_eq("abc", "ab"));
    let items = vec!["a".to_string(), "b".to_string(), "c".to_string()];
    assert_eq!(join_strings(&items, "\n"), "a\nb\nc");
    assert_eq!(join_strings(&vec![], ", "), "");
}

#[test]
fn status_checks_render_the_full_failure_message() {
    assert!(check_status(200, 200).is_ok());
    let msg = check_status(404, 200).unwrap_err();
    assert_eq!(
        msg,
        "assertion failed: `(left == right)`\n  left: `404`,\n right: `200`: \
         status code assertion failed"
    );
    assert_eq!(u16_string(404), "404");
    assert_eq!(
        assert_failure_msg("==", "1", "2", None),
        "assertion failed: `(left == right)`\n  left: `1`,\n right: `2`"
    );
}

#[test]
fn response_checks_cover_status_headers_and_body() {
    let headers = vec![
        ("content-type".to_string(), "text/plain".to_string()),
        ("x-extra".to_string(), "yes".to_string()),
    ];
    let expect_ct = vec![("content-type".to_string(), "text/plain".to_string())];

    assert!(check_http_response(200, 200, &headers, &expect_ct, "hi", Some("hi")).is_ok());
    assert_eq!(
        check_http_response(500, 200, &headers, &expect_ct, "hi", Some("hi")),
        Err(ResponseCheckError::UnexpectedStatus)
    );
    assert_eq!(
        check_http_response(
            200,
            200,
            &headers,
            &vec![("missing".to_string(), "v".to_string())],
            "hi",
            None
        ),
        Err(ResponseCheckError::MissingHeader("missing".to_string()))
    );
    assert_eq!(
        check_http_response(
            200,
            200,
            &headers,
            &vec![("x-extra".to_string(), "no".to_string())],
            "hi",
            None
        ),
        Err(ResponseCheckError::HeaderMismatch("x-extra".to_string()))
    );
    assert_eq!(
        check_http_response(200, 200, &headers, &expect_ct, "hi", Some("bye")),
        Err(ResponseCheckError::BodyMismatch)
    );
    assert!(check_http_response(200, 200, &headers, &expect_ct, "anything", None).is_ok());
}

#[test]
fn redis_manager_validates_addresses_and_summarises() {
    let manager = KeyValueRedis::new("redis://127.0.0.1/".to_string()).unwrap();
    assert!(manager.is_defined("anything"));
    assert_eq!(
        manager.summary("anything"),
        Some("Redis at 127.0.0.1:6379".to_string())
    );

    match KeyValueRedis::new("not a redis url".to_string()) {
        Err(e) => assert_eq!(e, "Invalid Redis URL"),
        Ok(_) => panic!("a malformed address must be rejected"),
    }
    match KeyValueRedis::new("http://127.0.0.1/".to_string()) {
        Err(e) => assert_eq!(e, "Invalid Redis URL"),
        Ok(_) => panic!("a non-store scheme must be rejected"),
    }
}

#[test]
fn bulk_replies_pair_with_their_requested_keys() {
    let keys = vec!["a".to_string(), "b".to_string(), "c".to_string()];
    let values = vec![Some(b"1".to_vec()), None, Some(b"3".to_vec())];
    let out = hostcap::redis_store::pair_replies(&keys, values);
    assert_eq!(
        out,
        vec![
            ("a".to_string(), Some(b"1".to_vec())),
            ("b".to_string(), None),
            ("c".to_string(), Some(b"3".to_vec())),
        ]
    );
}

#[test]
fn swap_outcomes_map_to_commit_or_retriable_conflict() {
    assert!(hostcap::redis_store::swap_outcome(Ok(true)).is_ok());
    assert!(matches!(
        hostcap::redis_store::swap_outcome(Ok(false)),
        Err(SwapError::CasFailed(_))
    ));
    let transport_fault = redis::RedisError::from((redis::ErrorKind::Io, "connection reset"));
    assert!(matches!(
        hostcap::redis_store::swap_outcome(Err(transport_fault)),
        Err(SwapError::CasFailed(_))
    ));
}
