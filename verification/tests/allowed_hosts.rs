use hostcap::allowed_hosts::{
    parse_allowed_http_hosts, validate_allowed_http_hosts, AllowedHttpHost, AllowedHttpHosts,
};
use hostcap::url_parts::UrlParts;

fn url(scheme: &str, host: Option<&str>, port: Option<u16>, path: &str) -> UrlParts {
    UrlParts {
        scheme: scheme.to_string(),
        host: host.map(|h| h.to_string()),
        port,
        path: path.to_string(),
    }
}

#[test]
fn allow_all_permits_everything() {
    let hosts = AllowedHttpHosts::AllowAll;
    assert!(hosts.allow(&url("http", Some("example.com"), None, "/")));
    assert!(hosts.allow(&url("https", Some("other.test"), Some(8080), "/x")));
    assert!(hosts.allow(&url("ftp", Some("weird"), Some(21), "/")));
    assert!(hosts.allow(&url("gopher", None, None, "/")));
}

#[test]
fn single_entry_matches_host_and_port() {
    let entry = AllowedHttpHost::host_and_port("example.com", 8080);
    let hosts = AllowedHttpHosts::AllowSpecific(vec![entry]);
    assert!(hosts.allow(&url("http", Some("example.com"), Some(8080), "/")));
    assert!(hosts.allow(&url("https", Some("example.com"), Some(8080), "/")));
    assert!(!hosts.allow(&url("http", Some("example.com"), Some(8081), "/")));
    assert!(!hosts.allow(&url("http", Some("example.com"), None, "/")));
    assert!(!hosts.allow(&url("http", Some("other.com"), Some(8080), "/")));
    assert!(!hosts.allow(&url("ftp", Some("example.com"), Some(8080), "/")));
}

#[test]
fn default_port_entry_matches_only_absent_port() {
    let entry = AllowedHttpHost::host("example.com");
    let hosts = AllowedHttpHosts::AllowSpecific(vec![entry]);
    assert!(hosts.allow(&url("http", Some("example.com"), None, "/")));
    assert!(!hosts.allow(&url("http", Some("example.com"), Some(80), "/")));
}

#[test]
fn empty_list_denies_everything() {
    let hosts = AllowedHttpHosts::AllowSpecific(vec![]);
    assert!(!hosts.allow(&url("http", Some("example.com"), None, "/")));
    assert!(!hosts.allow(&url("https", Some("example.com"), Some(443), "/")));
}

#[test]
fn absent_metadata_resolves_to_nothing_permitted() {
    let resolved = parse_allowed_http_hosts(&None).unwrap();
    match resolved {
        AllowedHttpHosts::AllowSpecific(v) => assert!(v.is_empty()),
        other => panic!("expected an empty allow-list, got {other:?}"),
    }
}

#[test]
fn sentinel_anywhere_resolves_to_allow_all() {
    let raw = Some(vec![
        "insecure:allow-all".to_string(),
        "anything-even-malformed !!".to_string(),
    ]);
    let resolved = parse_allowed_http_hosts(&raw).unwrap();
    assert_eq!(resolved, AllowedHttpHosts::AllowAll);
}

#[test]
fn batch_validation_reports_every_invalid_entry() {
    let raw = Some(vec!["not a host!!".to_string(), "example.com".to_string()]);
    let err = parse_allowed_http_hosts(&raw).unwrap_err();
    assert!(err.message.contains("not a host!!"), "message was: {}", err.message);
    assert_eq!(
        err.message,
        "One or more allowed_http_hosts entries was invalid:\n\
         not a host!! isn't a valid host or host:port string"
    );
}

#[test]
fn multiple_invalid_entries_are_all_reported() {
    let raw = Some(vec![
        "not a host!!".to_string(),
        "also bad//".to_string(),
        "fine.example".to_string(),
    ]);
    let err = parse_allowed_http_hosts(&raw).unwrap_err();
    assert!(err.message.contains("not a host!!"));
    assert!(err.message.contains("also bad//"));
}

#[test]
fn well_formed_entries_resolve_to_specific_hosts() {
    let raw = Some(vec![
        "example.com:8080".to_string(),
        "https://other.test".to_string(),
        "bare.host".to_string(),
    ]);
    let resolved = parse_allowed_http_hosts(&raw).unwrap();
    match resolved {
        AllowedHttpHosts::AllowSpecific(v) => {
            assert_eq!(v.len(), 3);
            assert_eq!(v[0], AllowedHttpHost::host_and_port("example.com", 8080));
            assert_eq!(v[1], AllowedHttpHost::host("other.test"));
            assert_eq!(v[2], AllowedHttpHost::host("bare.host"));
        }
        other => panic!("expected specific hosts, got {other:?}"),
    }
}

#[test]
fn schemed_entry_rejects_non_http_schemes() {
    let raw = Some(vec!["ftp://example.com".to_string()]);
    let err = parse_allowed_http_hosts(&raw).unwrap_err();
    assert!(err
        .message
        .contains("ftp://example.com isn't a valid host or host:port string"));
}

#[test]
fn entry_with_path_is_rejected() {
    let raw = Some(vec!["http://example.com/some/path".to_string()]);
    let err = parse_allowed_http_hosts(&raw).unwrap_err();
    assert!(err.message.contains(
        "http://example.com/some/path contains a path, should be host and optional port only"
    ));
}

#[test]
fn root_path_is_accepted() {
    let raw = Some(vec!["http://example.com/".to_string()]);
    let resolved = parse_allowed_http_hosts(&raw).unwrap();
    match resolved {
        AllowedHttpHosts::AllowSpecific(v) => {
            assert_eq!(v, vec![AllowedHttpHost::host("example.com")]);
        }
        other => panic!("expected specific hosts, got {other:?}"),
    }
}

#[test]
fn validate_accepts_and_rejects_like_parse() {
    assert!(validate_allowed_http_hosts(&None).is_ok());
    assert!(validate_allowed_http_hosts(&Some(vec!["example.com".to_string()])).is_ok());
    assert!(validate_allowed_http_hosts(&Some(vec!["insecure:allow-all".to_string()])).is_ok());
    let err =
        validate_allowed_http_hosts(&Some(vec!["not a host!!".to_string()])).unwrap_err();
    assert!(err.message.contains("not a host!!"));
}
