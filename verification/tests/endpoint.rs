use keryx_miner::endpoint::{endpoint_uri, open_endpoint, EndpointError};

#[test]
fn an_address_without_a_scheme_is_a_grpc_address() {
    assert_eq!(endpoint_uri("10.0.0.2:22110"), "grpc://10.0.0.2:22110");
    assert_eq!(endpoint_uri("http://node:1"), "http://node:1");
    assert_eq!(endpoint_uri(""), "grpc://");
    assert_eq!(endpoint_uri(&endpoint_uri("node")), "grpc://node");
}

#[test]
fn an_endpoint_is_at_its_uri() {
    let endpoint = open_endpoint("10.0.0.2:22110").unwrap();
    assert_eq!(endpoint.uri().scheme_str(), Some("grpc"));
    assert_eq!(endpoint.uri().host(), Some("10.0.0.2"));
    assert_eq!(endpoint.uri().port_u16(), Some(22110));
    let endpoint = open_endpoint("http://node.example:7").unwrap();
    assert_eq!(endpoint.uri().scheme_str(), Some("http"));
}

#[test]
fn what_is_no_uri_is_no_endpoint() {
    assert!(matches!(open_endpoint("not a host"), Err(EndpointError::Invalid(_))));
    assert!(matches!(open_endpoint(""), Err(EndpointError::Invalid(_))));
}
