use slix::oauth::{form_lookup, form_params, get_authorization, token_pair, OAuthError, PinFlow};

fn pin_flow() -> PinFlow {
    PinFlow::for_endpoints("http://127.0.0.1:5000/oauth/", "test-consumer-key", "test-consumer-secret")
}

#[test]
fn authorize_url_builds_url_with_request_token_from_response() {
    let mut flow = pin_flow();
    let url = flow.accept_request_token("oauth_token=RTTOK&oauth_token_secret=RTSEC").ok().unwrap();

    assert!(url.starts_with("http://127.0.0.1:5000/oauth/authorize?"), "{url}");
    assert!(url.contains("oauth_token=RTTOK"), "{url}");
}

#[test]
fn authorize_url_sends_signed_request_with_callback_and_fresh_nonce() {
    let flow = pin_flow();
    let first = flow.request_token_authorization();
    let second = flow.request_token_authorization();

    for header in [&first, &second] {
        assert!(header.starts_with("OAuth "), "{header}");
        assert!(header.contains("oauth_callback=\"oob\""), "{header}");
    }
    assert_ne!(first, second, "each call must use a fresh nonce");
}

#[test]
fn exchange_trades_pin_for_access_token_pair() {
    let mut flow = pin_flow();
    flow.accept_request_token("oauth_token=RTTOK&oauth_token_secret=RTSEC").ok().unwrap();

    let auth = flow.access_token_authorization("123456").ok().unwrap();
    let (token, secret) =
        flow.accept_access_token("oauth_token=ATTOK&oauth_token_secret=ATSEC").ok().unwrap();

    assert_eq!(token, "ATTOK");
    assert_eq!(secret, "ATSEC");
    assert!(auth.contains("oauth_token=\"RTTOK\""), "{auth}");
    assert!(auth.contains("oauth_verifier=\"123456\""), "{auth}");
}

#[test]
fn exchange_maps_protocol_failures_to_errors() {
    let mut flow = pin_flow();
    flow.accept_request_token("oauth_token=RTTOK&oauth_token_secret=RTSEC").ok().unwrap();

    let err = flow.accept_access_token("not-a-token-pair").err().unwrap();
    assert!(matches!(err, OAuthError::Protocol(_)));
}

// ---------------------------------------------------------------- further cases

#[test]
fn endpoints_drop_trailing_slashes_of_the_base() {
    let flow = PinFlow::for_endpoints("https://api.x.com/oauth//", "k", "s");
    assert_eq!(flow.request_token_endpoint(), "https://api.x.com/oauth/request_token");
    assert_eq!(flow.access_token_endpoint(), "https://api.x.com/oauth/access_token");
}

#[test]
fn exchange_before_authorize_is_a_protocol_error() {
    let flow = pin_flow();
    match flow.access_token_authorization("123456") {
        Err(OAuthError::Protocol(msg)) => {
            assert_eq!(msg, "no request token; call authorize_url first")
        }
        _ => panic!("expected a protocol error"),
    }
}

#[test]
fn missing_fields_are_named_in_the_error() {
    match token_pair("oauth_token_secret=S") {
        Err(OAuthError::Protocol(msg)) => assert_eq!(msg, "missing oauth_token"),
        _ => panic!("expected a protocol error"),
    }
    match token_pair("oauth_token=T") {
        Err(OAuthError::Protocol(msg)) => assert_eq!(msg, "missing oauth_token_secret"),
        _ => panic!("expected a protocol error"),
    }
}

#[test]
fn a_rejected_request_token_leaves_the_flow_without_one() {
    let mut flow = pin_flow();
    assert!(flow.accept_request_token("oauth_token=T").is_err());
    assert!(flow.access_token_authorization("1").is_err());
}

#[test]
fn form_body_splits_on_ampersand_and_first_equals() {
    let pairs = form_params("a=1&b=x=y&noequals&&c=");
    assert_eq!(
        pairs,
        vec![
            ("a".to_string(), "1".to_string()),
            ("b".to_string(), "x=y".to_string()),
            ("c".to_string(), "".to_string())
        ]
    );
}

#[test]
fn the_last_value_of_a_key_wins() {
    let pairs = form_params("k=first&k=second");
    assert_eq!(form_lookup(&pairs, "k"), Some("second".to_string()));
    assert_eq!(form_lookup(&pairs, "missing"), None);
}

#[test]
fn api_requests_are_signed_with_the_access_token() {
    let header = get_authorization(
        "https://api.x.com/2/users/me",
        "ck",
        "cs",
        "AT",
        "ATS",
        &[("max_results", "100")],
    );
    assert!(header.starts_with("OAuth "), "{header}");
    assert!(header.contains("oauth_token=\"AT\""), "{header}");
    assert!(header.contains("oauth_consumer_key=\"ck\""), "{header}");
    assert!(!header.contains("max_results"), "{header}");
}

#[test]
fn header_names_the_consumer_key_method_and_version() {
    let header = pin_flow().request_token_authorization();
    assert!(header.contains("oauth_consumer_key=\"test-consumer-key\""), "{header}");
    assert!(header.contains("oauth_signature_method=\"HMAC-SHA1\""), "{header}");
    assert!(header.contains("oauth_version=\"1.0\""), "{header}");
    assert!(!header.contains("oauth_token="), "{header}");
}

#[test]
fn header_values_are_percent_encoded() {
    let mut flow = pin_flow();
    flow.accept_request_token("oauth_token=R T&oauth_token_secret=S").ok().unwrap();
    let auth = flow.access_token_authorization("a b/é-._~").ok().unwrap();
    assert!(auth.contains("oauth_verifier=\"a%20b%2F%C3%A9-._~\""), "{auth}");
    assert!(auth.contains("oauth_token=\"R%20T\""), "{auth}");
}

#[test]
fn header_carries_a_nonce_a_timestamp_and_a_signature() {
    let header = pin_flow().request_token_authorization();
    assert!(header.contains("oauth_nonce=\""), "{header}");
    assert!(header.contains("oauth_timestamp=\""), "{header}");
    assert!(header.contains("oauth_signature=\""), "{header}");
}
