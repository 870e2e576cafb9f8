use overlands_agent::config::{HARD_RECORD_CEILING_BYTES, SOFT_RECORD_BUDGET_BYTES};
use overlands_agent::edit::{no_record_yet, pointer_refusal, revert, reverted_answer, in_world, own_room, names_of, over_budget, owns_room, readout, recovery_refusal, EditProfile, SizeReadout};
use overlands_agent::json::{part, JsonNumber, JsonValue};
use overlands_agent::protocol::EditRecord;

/// Past the budget the answer says so, and what it means for a save.
#[test]
fn a_record_past_the_budget_says_what_a_save_will_do() {
    let over = readout(&SizeReadout {
        bytes: Some(SOFT_RECORD_BUDGET_BYTES + 1),
        largest: Some("room manifest".into()),
        unserializable: None,
    });
    let said = |v: &JsonValue| match part(v, "/over") {
        Ok(JsonValue::String(s)) => Some(s),
        _ => None,
    };
    assert!(said(&over).is_some_and(|s| s.starts_with("the budget")), "{over:?}");
    let refused = readout(&SizeReadout {
        bytes: Some(HARD_RECORD_CEILING_BYTES + 1),
        largest: Some("room manifest".into()),
        unserializable: None,
    });
    assert!(said(&refused).is_some_and(|s| s.contains("refused")), "{refused:?}");
}

#[test]
fn a_record_within_the_budget_says_its_size_only() {
    let fine = readout(&SizeReadout {
        bytes: Some(10),
        largest: Some("room generator \"shed\"".into()),
        unserializable: None,
    });
    assert!(part(&fine, "/over").is_err());
    assert!(matches!(part(&fine, "/bytes"), Ok(JsonValue::Number(JsonNumber::PosInt(10)))));
    assert!(matches!(
        part(&fine, "/budget_bytes"),
        Ok(JsonValue::Number(JsonNumber::PosInt(n))) if n as usize == SOFT_RECORD_BUDGET_BYTES
    ));
    let unwritable = readout(&SizeReadout {
        bytes: None,
        largest: None,
        unserializable: Some("a NaN".into()),
    });
    assert!(matches!(part(&unwritable, "/unwritable"), Ok(JsonValue::String(s)) if s == "a NaN"));
    assert!(matches!(part(&unwritable, "/bytes"), Ok(JsonValue::Null)));
    assert_eq!(over_budget(Some(SOFT_RECORD_BUDGET_BYTES)), None);
    assert_eq!(over_budget(None), None);
}

#[test]
fn saving_is_refused_offline_first_then_unless_allowed() {
    let offline = EditProfile { allow_save: true, offline: true };
    assert_eq!(
        offline.save_refused(),
        Some("the agent is offline, so there is no account to save to")
    );
    let unallowed = EditProfile::default();
    assert_eq!(
        unallowed.save_refused(),
        Some("the agent was started without --allow-save, so it may not save")
    );
    let allowed = EditProfile { allow_save: true, offline: false };
    assert_eq!(allowed.save_refused(), None);
}

#[test]
fn only_the_agents_own_world_is_edited() {
    assert!(owns_room(Some("did:plc:me"), Some("did:plc:me")));
    assert!(!owns_room(Some("did:plc:me"), Some("did:plc:you")));
    assert!(!owns_room(None, Some("did:plc:me")));
    assert!(!owns_room(Some("did:plc:me"), None));
}

#[test]
fn edits_wait_until_the_agent_stands_in_a_world() {
    assert_eq!(in_world(false, false).unwrap_err(), "the agent is not in a world yet");
    assert_eq!(in_world(true, true).unwrap_err(), "the agent is travelling");
    assert!(in_world(true, false).is_ok());
}

#[test]
fn records_are_named_room_avatar_inventory_in_that_order() {
    assert_eq!(names_of(true, true, true), vec!["room", "avatar", "inventory"]);
    assert_eq!(names_of(false, true, false), vec!["avatar"]);
    assert!(names_of(false, false, false).is_empty());
    assert_eq!(EditRecord::Inventory.word(), "inventory");
    assert_eq!(EditRecord::default(), EditRecord::Room);
}

#[test]
fn a_record_that_never_loaded_is_not_saved_over() {
    assert_eq!(
        recovery_refusal("avatar", "timed out"),
        "the agent's saved avatar could not be read when it arrived (timed out), so saving now could overwrite it with what the agent has instead; a person can check it in the game's editor"
    );
}

#[test]
fn only_the_agents_own_world_may_be_edited() {
    assert!(own_room(true, false, true).is_ok());
    assert_eq!(
        own_room(true, false, false).unwrap_err(),
        "this is not the agent's world, and only a world's owner can edit it; `agent travel home` goes back to its own"
    );
    assert_eq!(own_room(false, false, true).unwrap_err(), "the agent is not in a world yet");
}

#[test]
fn a_revert_names_its_record_or_says_it_has_none_yet() {
    assert_eq!(no_record_yet(EditRecord::Avatar), "the agent has no avatar record yet");
    assert_eq!(no_record_yet(EditRecord::Inventory), "the agent's inventory has not loaded yet");
    assert!(matches!(part(&reverted_answer(EditRecord::Room), "/reverted"), Ok(JsonValue::String(s)) if s == "room"));
}

/// A revert goes through the checks in turn - a world, not travelling, the
/// agent's own for the room, the record there, the editor willing - and
/// past them answers with the record's name.
#[test]
fn a_revert_checks_in_turn_then_answers() {
    let room = EditRecord::Room;
    assert_eq!(revert(room, false, true, false, false, Some("x")).unwrap_err(), "the agent is not in a world yet");
    assert_eq!(revert(room, true, true, false, false, Some("x")).unwrap_err(), "the agent is travelling");
    assert_eq!(
        revert(room, true, false, false, false, Some("x")).unwrap_err(),
        "this is not the agent's world, and only a world's owner can edit it; `agent travel home` goes back to its own"
    );
    assert_eq!(revert(room, true, false, true, false, Some("x")).unwrap_err(), "the agent's world has no record yet");
    assert_eq!(revert(room, true, false, true, true, Some("nothing to revert")).unwrap_err(), "nothing to revert");
    let done = revert(room, true, false, true, true, None).unwrap();
    assert!(matches!(part(&done, "/reverted"), Ok(JsonValue::String(s)) if s == "room"));
    // The avatar and the inventory are reverted in any world.
    let avatar = revert(EditRecord::Avatar, true, false, false, true, None).unwrap();
    assert!(matches!(part(&avatar, "/reverted"), Ok(JsonValue::String(s)) if s == "avatar"));
    assert_eq!(
        revert(EditRecord::Inventory, true, false, false, false, None).unwrap_err(),
        "the agent's inventory has not loaded yet"
    );
}

#[test]
fn the_inventory_is_not_reached_by_pointer() {
    assert_eq!(
        pointer_refusal(EditRecord::Inventory),
        Some("the inventory is read with `agent inventory`, and changed with `agent stash` and `agent unstash`")
    );
    assert_eq!(pointer_refusal(EditRecord::Room), None);
    assert_eq!(pointer_refusal(EditRecord::Avatar), None);
}

/// No two records answer to the same name.
#[test]
fn each_record_has_a_name_of_its_own() {
    let words = [EditRecord::Room.word(), EditRecord::Avatar.word(), EditRecord::Inventory.word()];
    assert_eq!(words, ["room", "avatar", "inventory"]);
}
