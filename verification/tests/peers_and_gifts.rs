use overlands_agent::events::EventKind;
use overlands_agent::gifts::{answer_event, give_decision, GiftSource, OfferOutcome, OfferWatch, sort_offers, IncomingOffer};
use overlands_agent::json::{JsonNumber, JsonValue};
use overlands_agent::observe::{delivery_word, record_peers, ChatDelivery, KnownPeers, PeerSeen};

fn seen(entity: u64, did: Option<&str>, handle: Option<&str>) -> PeerSeen {
    PeerSeen {
        entity,
        did: did.map(str::to_owned),
        handle: handle.map(str::to_owned),
    }
}

/// THE SEQUENCE: a peer's entity appears before its identity does, the
/// DID lands, then the handle, then the peer goes. One join - when there
/// is someone to name - and one leave, naming them with what was learned
/// since.
#[test]
fn a_peer_joins_when_named_and_leaves_with_its_name() {
    let mut known = KnownPeers::new();
    let mut all = Vec::new();
    all.extend(record_peers(&mut known, &vec![], &vec![seen(7, None, None)]));
    assert!(all.is_empty(), "nobody to name yet");
    all.extend(record_peers(&mut known, &vec![], &vec![seen(7, Some("did:plc:bob"), None)]));
    all.extend(record_peers(
        &mut known,
        &vec![],
        &vec![seen(7, Some("did:plc:bob"), Some("bob.test"))],
    ));
    all.extend(record_peers(&mut known, &vec![7], &vec![]));
    assert_eq!(all.len(), 2);
    match &all[0] {
        EventKind::PeerJoined { did, handle } => {
            assert_eq!(did, "did:plc:bob");
            assert_eq!(handle, &None);
        }
        _ => panic!("a join"),
    }
    match &all[1] {
        EventKind::PeerLeft { did, handle } => {
            assert_eq!(did, "did:plc:bob");
            assert_eq!(handle.as_deref(), Some("bob.test"));
        }
        _ => panic!("a leave"),
    }
    assert!(known.peers.is_empty());
}

#[test]
fn a_gift_goes_to_a_player_in_the_world_with_nothing_waiting() {
    assert_eq!(
        give_decision(true, true, None, false, true, "did:plc:bob"),
        Ok(GiftSource::Inventory)
    );
    assert_eq!(
        give_decision(true, true, None, false, false, "did:plc:bob"),
        Ok(GiftSource::Catalogue)
    );
    assert_eq!(
        give_decision(true, false, None, false, true, "did:plc:bob").unwrap_err(),
        "did:plc:bob is not in this world; `agent status` lists who is"
    );
    assert_eq!(
        give_decision(true, true, Some("they are muted"), false, true, "did:plc:bob").unwrap_err(),
        "the gift cannot go to them: they are muted"
    );
    assert!(give_decision(true, true, None, true, true, "did:plc:bob")
        .unwrap_err()
        .contains("still waiting"));
    assert_eq!(
        give_decision(false, true, None, false, true, "did:plc:bob").unwrap_err(),
        "the agent is not signed in"
    );
    assert_eq!(GiftSource::Catalogue.word(), "catalogue");
}

#[test]
fn each_answer_to_a_gift_is_an_event() {
    match answer_event(3, "did:plc:bob".to_owned(), OfferOutcome::Accepted) {
        EventKind::GiftAnswered { offer_id, to_did, accepted, answer } => {
            assert_eq!((offer_id, to_did.as_str(), accepted, answer.as_str()), (3, "did:plc:bob", true, "accepted"));
        }
        _ => panic!("gift_answered"),
    }
}

#[test]
fn an_offer_the_agent_answered_is_not_said_closed() {
    let admin = "did:plc:admin";
    let mut watch = OfferWatch::new();
    let o = IncomingOffer {
        sender_did: admin.to_owned(),
        sender_label: "@admin.test".to_owned(),
        offer_id: 5,
        item_name: "a hat".to_owned(),
        item_kind: "Cuboid".to_owned(),
        wearable: true,
        answer_within_s: 60,
    };
    sort_offers(&mut watch, Some(&o), Some(admin));
    watch.mark_answered(admin.to_owned(), 5);
    let gone = sort_offers(&mut watch, None, Some(admin));
    assert!(gone.closed.is_none());
}

#[test]
fn a_lines_delivery_is_said_in_a_word() {
    match delivery_word(ChatDelivery::Reached(2)) {
        JsonValue::Object(members) => {
            assert_eq!(members.len(), 1);
            assert_eq!(members[0].0, "reached");
            assert!(matches!(members[0].1, JsonValue::Number(JsonNumber::PosInt(2))));
        }
        _ => panic!("an object"),
    }
    assert!(matches!(delivery_word(ChatDelivery::NotConnected), JsonValue::String(ref s) if s == "not_connected"));
    assert!(matches!(delivery_word(ChatDelivery::NotApplicable), JsonValue::Null));
}
