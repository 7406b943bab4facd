use feed_bridge::xrpc_client::{carries_content, XrpcReqwestClient};

#[test]
fn new_client_has_no_session() {
    let client = XrpcReqwestClient::new("https://bsky.social".to_string(), reqwest::Client::new(), false);
    assert_eq!(client.host(), "https://bsky.social");
    assert_eq!(client.auth(), None);
    assert_eq!(client.current_did(), None);
    assert!(!client.is_dry_run());
    assert_eq!(client.refusal(), None);
}

#[test]
fn session_is_kept() {
    let mut client = XrpcReqwestClient::new("h".to_string(), reqwest::Client::new(), false);
    client.set_session("jwt".to_string(), "did:plc:abc".to_string());
    assert_eq!(client.auth(), Some("jwt"));
    assert_eq!(client.current_did(), Some("did:plc:abc"));
    assert_eq!(client.host(), "h");
    client.set_session("jwt2".to_string(), "did:plc:def".to_string());
    assert_eq!(client.auth(), Some("jwt2"));
    assert_eq!(client.current_did(), Some("did:plc:def"));
}

#[test]
fn dry_run_refuses_every_request() {
    let client = XrpcReqwestClient::new("h".to_string(), reqwest::Client::new(), true);
    assert!(client.is_dry_run());
    assert_eq!(client.refusal(), Some("Enabled dry run mode.".to_string()));
}

#[test]
fn only_status_200_carries_content() {
    assert!(carries_content(200));
    assert!(!carries_content(201));
    assert!(!carries_content(204));
    assert!(!carries_content(404));
    assert!(!carries_content(0));
}
