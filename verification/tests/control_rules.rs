use overlands_agent::json::{part, JsonValue};
use overlands_agent::control::{
    no_answer, refresh_refusal, request_refusal, socket_path_refusal, Admin, ControlSocket,
};

/// A DID is taken as it is.
#[test]
fn a_did_is_the_admin_as_given() {
    let admin = Admin::bind(
        " did:plc:admin ",
        Ok(("did:plc:admin".to_owned(), None)),
        "did:plc:agent",
    )
    .expect("an admin");
    assert_eq!(admin.did, "did:plc:admin");
    assert_eq!(admin.handle, None);
}

/// An agent told to take chat from itself would hear nobody; the start is
/// refused instead.
#[test]
fn the_agent_cannot_be_its_own_admin() {
    let refused = Admin::bind("did:plc:agent", Ok(("did:plc:agent".to_owned(), None)), "did:plc:agent")
        .err()
        .expect("refused");
    assert!(refused.contains("another account"), "{refused}");
}

#[test]
fn a_name_that_does_not_resolve_says_which() {
    let refused = Admin::bind("ghost.test", Err("no such handle".to_owned()), "did:plc:agent")
        .err()
        .expect("refused");
    assert_eq!(refused, "the admin ghost.test: no such handle");
}

#[test]
fn a_dead_refresh_token_asks_for_a_fresh_sign_in() {
    let said = refresh_refusal("refresh: OAuth server error: invalid_grant - revoked", true);
    assert!(said.contains("agent login"), "{said}");
}

#[test]
fn a_transient_refresh_failure_does_not_ask_for_a_sign_in() {
    let said = refresh_refusal("refresh: fetch error: operation timed out", false);
    assert!(!said.contains("agent login"), "{said}");
    assert!(said.contains("timed out"), "{said}");
}

#[test]
fn a_did_plc_socket_fits_under_the_usual_runtime_directory() {
    let path = "/run/user/1000/symbios-overlands-agent/did_plc_abcdefghijklmnopqrstuvwx.sock";
    assert_eq!(socket_path_refusal(path.len(), path), None);
    let long = format!("/{}", "x".repeat(120));
    assert_eq!(
        socket_path_refusal(long.len(), &long).unwrap(),
        format!(
            "the control socket's path is 121 bytes, longer than a Unix socket allows (107): {long}; point XDG_RUNTIME_DIR at a shorter directory"
        )
    );
}

#[test]
fn a_request_line_cut_off_at_the_limit_is_refused() {
    assert_eq!(request_refusal(10, true), None);
    assert_eq!(request_refusal(65_536, true), None);
    assert_eq!(
        request_refusal(65_536, false).unwrap(),
        "the request is longer than 65536 bytes"
    );
    assert_eq!(request_refusal(12, false), None);
}

#[test]
fn an_unanswered_request_says_how_long_it_waited() {
    assert_eq!(no_answer(5_000), "the agent did not answer within 5 s");
}

#[test]
fn a_control_socket_knows_where_it_listens() {
    let socket = ControlSocket::new(std::path::PathBuf::from("/tmp/agent.sock"));
    assert_eq!(socket.listens_at(), &std::path::PathBuf::from("/tmp/agent.sock"));
}

#[test]
fn the_admin_is_shown_by_handle_and_did() {
    let named = Admin { did: "did:plc:admin".to_owned(), handle: Some("admin.test".to_owned()) };
    assert_eq!(named.shown(), "@admin.test (did:plc:admin)");
    let bare = Admin { did: "did:plc:admin".to_owned(), handle: None };
    assert_eq!(bare.shown(), "did:plc:admin");
}

#[test]
fn the_admin_as_json_gives_its_did_and_handle() {
    let named = Admin { did: "did:plc:admin".to_owned(), handle: Some("admin.test".to_owned()) };
    let v = named.to_json();
    assert!(matches!(part(&v, "/did"), Ok(JsonValue::String(s)) if s == "did:plc:admin"));
    assert!(matches!(part(&v, "/handle"), Ok(JsonValue::String(s)) if s == "admin.test"));
    let bare = Admin { did: "did:plc:admin".to_owned(), handle: None };
    assert!(matches!(part(&bare.to_json(), "/handle"), Ok(JsonValue::Null)));
}
