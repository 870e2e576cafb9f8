use overlands_agent::protocol::{face_target, stop_answer, FaceTarget};
use overlands_agent::json::part;
use overlands_agent::config::{LOOK_ANSWER_TIMEOUT_MS, UI_ANSWER_TIMEOUT_MS, WORLD_ANSWER_TIMEOUT_MS, MAX_EVENT_WAIT_SECS};
use overlands_agent::json::JsonValue;
use overlands_agent::protocol::{
    answer_bound, event_wait_secs, CLIENT_MARGIN_MS, EditRecord, LookSpec, Request, Route, UiRequest, UnsavedEdits, WorldRequest,
};

fn writes(request: Request) -> bool {
    match request.route() {
        Route::World(world) => world.writes_a_record(),
        Route::Events { .. } => false,
    }
}

/// A picture may take a render to answer; nothing else may take longer
/// than a frame's grace.
#[test]
fn only_a_look_waits_longer_than_the_world_answers() {
    assert_eq!(
        WorldRequest::Look(LookSpec::default()).answer_within(),
        LOOK_ANSWER_TIMEOUT_MS
    );
    assert_eq!(WorldRequest::Status.answer_within(), WORLD_ANSWER_TIMEOUT_MS);
    assert_eq!(
        WorldRequest::Ui(UiRequest::Summary { picture: false }).answer_within(),
        UI_ANSWER_TIMEOUT_MS
    );
}

/// What may write a record is what ends the daemon's turn for a frame;
/// reads and saves do not write one.
#[test]
fn only_what_writes_a_record_ends_a_frames_turn() {
    let writers = vec![
        Request::Place { slug: "lamp".into(), at: None, yaw_deg: None },
        Request::Remove { index: 0 },
        Request::RoomSet { pointer: String::new(), value: JsonValue::Object(vec![]) },
        Request::AvatarSet { pointer: String::new(), value: JsonValue::Object(vec![]) },
        Request::Undo { record: EditRecord::Avatar },
        Request::Revert { record: EditRecord::Room },
        Request::Travel { room_did: "did:plc:a".into(), label: None, unsaved: UnsavedEdits::Discard },
        Request::Stash { what: "lamp".into() },
        Request::Unstash { name: "lamp".into() },
        Request::Wear { name: "hat".into() },
        Request::TakeOff { name: "hat".into() },
        Request::GiftAccept { offer_id: 1 },
    ];
    for writer in writers {
        assert!(writes(writer));
    }
    let readers = vec![
        Request::Status,
        Request::Placements { within_m: None },
        Request::RoomGet { pointer: String::new() },
        Request::Save { record: EditRecord::Room },
        Request::Travel { room_did: "did:plc:a".into(), label: None, unsaved: UnsavedEdits::Save },
        Request::Inventory,
        Request::GiftDecline { offer_id: 1 },
        Request::GiftGive { to_did: "did:plc:a".into(), item: "lamp".into() },
    ];
    for reader in readers {
        assert!(!writes(reader));
    }
}

#[test]
fn only_working_a_control_writes_of_the_interface_commands() {
    let path = || "Avatar > Re-roll".to_owned();
    for acting in [
        Request::UiClick { path: path() },
        Request::UiType { path: path(), text: "x".into(), enter: true },
        Request::UiSet { path: path(), value: 1.0f64.to_bits() },
        Request::UiChoose { path: path(), option: "Light".into() },
    ] {
        assert!(writes(acting));
    }
    for reading in [
        Request::Ui { picture: true },
        Request::UiShow { window: "Avatar".into(), picture: false },
        Request::UiOpen { window: "Avatar".into() },
        Request::UiClose { window: "Avatar".into() },
        Request::UiScroll { window: "Avatar".into(), points: 40.0f32.to_bits() },
    ] {
        assert!(!writes(reading));
    }
}

#[test]
fn events_are_answered_without_the_world() {
    match (Request::Events { since: 4, wait_secs: 30 }).route() {
        Route::Events { since, wait_secs } => {
            assert_eq!(since, 4);
            assert_eq!(wait_secs, 30);
        }
        Route::World(_) => panic!("events are the socket's"),
    }
}

#[test]
fn an_events_wait_is_bounded_by_what_the_daemon_will_wait() {
    let bound = answer_bound(&Request::Events {
        since: 0,
        wait_secs: u64::MAX,
    });
    assert_eq!(bound, MAX_EVENT_WAIT_SECS * 1000 + CLIENT_MARGIN_MS);
}

#[test]
fn an_events_wait_is_what_was_asked_up_to_a_minute() {
    assert_eq!(event_wait_secs(5), 5);
    assert_eq!(event_wait_secs(3600), MAX_EVENT_WAIT_SECS);
    assert_eq!(
        answer_bound(&Request::Status),
        WORLD_ANSWER_TIMEOUT_MS + CLIENT_MARGIN_MS
    );
}

#[test]
fn a_response_carries_a_result_or_an_error_never_both() {
    let ok = overlands_agent::protocol::Response::success(JsonValue::Bool(true));
    assert!(ok.ok && ok.result.is_some() && ok.error.is_none());
    let refused = overlands_agent::protocol::Response::failure("no".to_owned());
    assert!(!refused.ok && refused.result.is_none());
    assert_eq!(refused.error.as_deref(), Some("no"));
}

#[test]
fn a_face_takes_a_player_or_a_point_not_both() {
    assert!(matches!(face_target(Some("did:plc:bob".into()), None), Ok(FaceTarget::Peer(p)) if p == "did:plc:bob"));
    assert!(matches!(face_target(None, Some([1, 2])), Ok(FaceTarget::Point([1, 2]))));
    for refused in [face_target(None, None), face_target(Some("did:plc:bob".into()), Some([1, 2]))] {
        match refused {
            Err(e) => assert_eq!(e, "face takes a player or a point, not both and not neither"),
            Ok(_) => panic!("refused"),
        }
    }
}

#[test]
fn stop_says_which_unsaved_edits_it_discards() {
    let said = stop_answer(&vec!["room", "avatar"], &vec!["inventory"]);
    assert!(matches!(part(&said, "/stopping"), Ok(JsonValue::Bool(true))));
    assert!(matches!(part(&said, "/discarded/1"), Ok(JsonValue::String(s)) if s == "avatar"));
    assert!(matches!(part(&said, "/saves_in_flight/0"), Ok(JsonValue::String(s)) if s == "inventory"));
}
