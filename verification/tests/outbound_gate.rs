use hostcap::allowed_hosts::{AllowedHttpHost, AllowedHttpHosts};
use hostcap::outbound::{
    request_error_description, HttpError, Method, OutboundHttp, OutboundHttpComponent, Request,
};

fn request(uri: &str, headers: Vec<(String, String)>) -> Request {
    Request {
        method: Method::Get,
        uri: uri.to_string(),
        headers,
        params: vec![],
        body: Some(b"body".to_vec()),
    }
}

#[test]
fn denial_short_circuits_before_any_request_exists() {
    let gate = OutboundHttp {
        allowed_hosts: AllowedHttpHosts::AllowSpecific(vec![]),
    };
    // a well-formed destination is refused as a policy denial, and no
    // prepared request comes back that anything could send
    let r = gate.prepare_request(request("http://example.com/x", vec![]));
    assert_eq!(r.err(), Some(HttpError::DestinationNotAllowed));
}

#[test]
fn is_allowed_distinguishes_invalid_urls() {
    let gate = OutboundHttp {
        allowed_hosts: AllowedHttpHosts::AllowAll,
    };
    assert_eq!(gate.is_allowed("http://example.com/"), Ok(true));
    assert_eq!(gate.is_allowed("not a url"), Err(HttpError::InvalidUrl));

    let closed = OutboundHttp {
        allowed_hosts: AllowedHttpHosts::AllowSpecific(vec![]),
    };
    assert_eq!(closed.is_allowed("http://example.com/"), Ok(false));
}

#[test]
fn allowed_request_is_prepared_unchanged() {
    let gate = OutboundHttp {
        allowed_hosts: AllowedHttpHosts::AllowSpecific(vec![AllowedHttpHost::host(
            "example.com",
        )]),
    };
    let headers = vec![("content-type".to_string(), "text/plain".to_string())];
    let prepared = gate
        .prepare_request(request("https://example.com/path", headers.clone()))
        .unwrap();
    assert_eq!(prepared.method, Method::Get);
    assert_eq!(prepared.uri, "https://example.com/path");
    assert_eq!(prepared.headers, headers);
    assert_eq!(prepared.body, b"body".to_vec());
}

#[test]
fn invalid_destination_text_is_a_runtime_error() {
    let gate = OutboundHttp {
        allowed_hosts: AllowedHttpHosts::AllowAll,
    };
    let r = gate.prepare_request(request("::: not a url :::", vec![]));
    assert_eq!(r.err(), Some(HttpError::RuntimeError));
}

#[test]
fn invalid_header_name_is_a_runtime_error() {
    let gate = OutboundHttp {
        allowed_hosts: AllowedHttpHosts::AllowAll,
    };
    let bad = vec![("bad header\n".to_string(), "v".to_string())];
    let r = gate.prepare_request(request("http://example.com/", bad));
    assert_eq!(r.err(), Some(HttpError::RuntimeError));
}

#[test]
fn component_data_starts_closed_and_updates_from_metadata() {
    let component = OutboundHttpComponent;
    let mut data = component.build_data();
    match &data.allowed_hosts {
        AllowedHttpHosts::AllowSpecific(v) => assert!(v.is_empty()),
        other => panic!("a fresh instance must permit nothing, got {other:?}"),
    }

    component
        .update_data(&mut data, &Some(vec!["example.com".to_string()]))
        .unwrap();
    assert_eq!(
        data.allowed_hosts,
        AllowedHttpHosts::AllowSpecific(vec![AllowedHttpHost::host("example.com")])
    );

    // a malformed list fails the preparation and leaves the grant unchanged
    let err = component
        .update_data(&mut data, &Some(vec!["not a host!!".to_string()]))
        .unwrap_err();
    assert!(err.message.contains("not a host!!"));
    assert_eq!(
        data.allowed_hosts,
        AllowedHttpHosts::AllowSpecific(vec![AllowedHttpHost::host("example.com")])
    );
}

#[test]
fn method_names_are_their_wire_forms() {
    assert_eq!(Method::Get.as_str(), "GET");
    assert_eq!(Method::Post.as_str(), "POST");
    assert_eq!(Method::Put.as_str(), "PUT");
    assert_eq!(Method::Delete.as_str(), "DELETE");
    assert_eq!(Method::Patch.as_str(), "PATCH");
    assert_eq!(Method::Head.as_str(), "HEAD");
    assert_eq!(Method::Options.as_str(), "OPTIONS");
}

#[test]
fn transport_failures_are_classified_in_order() {
    assert_eq!(
        request_error_description(true, true, false, false, false),
        "timeout error"
    );
    assert_eq!(
        request_error_description(false, true, false, false, false),
        "connection error"
    );
    assert_eq!(
        request_error_description(false, false, true, false, false),
        "message body error"
    );
    assert_eq!(
        request_error_description(false, false, false, true, false),
        "message body error"
    );
    assert_eq!(
        request_error_description(false, false, false, false, true),
        "request error"
    );
    assert_eq!(
        request_error_description(false, false, false, false, false),
        "error"
    );
}
