use overlands_agent::cli::{account_name, pds_url, relay_host, room_did, LoginArgs, TravelArgs, AccountArg};
use overlands_agent::config::{DEFAULT_PDS, DEFAULT_RELAY_HOST};
use overlands_agent::protocol::UnsavedEdits;

#[test]
fn a_bare_pds_host_gets_https() {
    assert_eq!(pds_url("pds.example/").unwrap(), "https://pds.example");
    assert_eq!(
        pds_url("http://localhost:2583").unwrap(),
        "http://localhost:2583"
    );
    assert!(pds_url("   ").is_err());
    assert!(pds_url("ftp://pds.example").is_err());
}

#[test]
fn a_room_is_named_by_a_did() {
    assert_eq!(room_did(" did:plc:abc ").unwrap(), "did:plc:abc");
    assert_eq!(
        room_did("did:web:host.example").unwrap(),
        "did:web:host.example"
    );
    assert!(room_did("alice.bsky.social").is_err());
    assert!(room_did("did:plc:").is_err());
    assert!(room_did("did::abc").is_err());
}

#[test]
fn a_pasted_relay_url_is_cut_to_its_host() {
    assert_eq!(relay_host("wss://relay.example/").unwrap(), "relay.example");
    assert_eq!(relay_host(" relay.example ").unwrap(), "relay.example");
    assert!(relay_host("wss://").is_err());
    assert!(relay_host("relay.example/overlands/did").is_err());
}

#[test]
fn an_admin_name_is_a_handle_or_a_did() {
    assert_eq!(
        account_name("@Codewright.bsky.social").unwrap(),
        "codewright.bsky.social"
    );
    assert_eq!(
        account_name("did:plc:z5yhcebtrvzblrojezn6pjgi").unwrap(),
        "did:plc:z5yhcebtrvzblrojezn6pjgi"
    );
    for typo in ["codewright", "code wright.bsky.social", "@", "did:plc:", "-a.test"] {
        assert!(account_name(typo).is_err(), "{typo:?} was taken");
    }
    assert_eq!(
        account_name("codewright").unwrap_err(),
        "\"codewright\" is neither a handle (name.example.com) nor a DID (did:plc:...)"
    );
}

#[test]
fn an_empty_pds_or_relay_names_the_default() {
    assert_eq!(
        pds_url("").unwrap_err(),
        format!("empty; the default is {DEFAULT_PDS}")
    );
    assert_eq!(
        relay_host(" / ").unwrap_err(),
        format!("empty; the default is {DEFAULT_RELAY_HOST}")
    );
    assert_eq!(
        relay_host("relay.example/x").unwrap_err(),
        "\"relay.example/x\" is not a bare host name"
    );
    assert_eq!(
        pds_url("ftp://pds.example").unwrap_err(),
        "\"ftp://pds.example\" is not an http(s):// URL"
    );
    assert_eq!(
        room_did("alice").unwrap_err(),
        "\"alice\" is not a DID (did:plc:... or did:web:...)"
    );
}

#[test]
fn login_args_default_to_the_apps_own_pds_and_relay() {
    let args = LoginArgs::defaults();
    assert_eq!(args.pds, DEFAULT_PDS);
    assert_eq!(args.relay, DEFAULT_RELAY_HOST);
    assert_eq!(args.account, None);
    assert!(!args.no_browser);
}

#[test]
fn a_trip_refuses_discards_or_saves_edits_by_its_flags() {
    let trip = |discard_edits: bool, save_edits: bool| TravelArgs {
        account: AccountArg { name: None },
        to: "home".to_owned(),
        wait: false,
        discard_edits,
        save_edits,
    };
    assert_eq!(trip(false, false).unsaved(), UnsavedEdits::Refuse);
    assert_eq!(trip(true, false).unsaved(), UnsavedEdits::Discard);
    assert_eq!(trip(false, true).unsaved(), UnsavedEdits::Save);
}

/// A URL `--pds` has made comes through a second time unchanged.
#[test]
fn a_normalised_pds_url_passes_through() {
    for raw in ["pds.example/", " http://localhost:2583 ", "https://pds.example//"] {
        let once = pds_url(raw).unwrap();
        assert_eq!(pds_url(&once).unwrap(), once);
    }
    // Whitespace before trailing slashes outlives the first reading.
    assert_eq!(pds_url("pds.example /").unwrap(), "https://pds.example ");
    assert_eq!(pds_url("https://pds.example ").unwrap(), "https://pds.example");
}
