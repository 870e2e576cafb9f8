//! The rules every edit and save keeps: only the agent's own world, only
//! in a world, saving only when the operator allowed it, and what a save
//! of a record would weigh against the budget.
use vstd::prelude::*;
use crate::config::{HARD_RECORD_CEILING_BYTES, SOFT_RECORD_BUDGET_BYTES};
use crate::protocol::{record_word, EditRecord};
use crate::text::{joined, opt_view};
use crate::json::{lemma_member_models, member_models, Json, JsonNumber, JsonValue};

verus! {

broadcast use vstd::string::group_string_axioms;

/// What the operator allowed when the agent was started.
#[derive(PartialEq, Eq, Structural, Clone, Copy, Debug)]
pub struct EditProfile {
    /// `--allow-save`: the agent may save its world and its avatar.
    pub allow_save: bool,
    /// The offline stand-in has no account to save to.
    pub offline: bool,
}

impl Default for EditProfile {
    fn default() -> (p: Self)
        ensures
            !p.allow_save,
            !p.offline,
    {
        EditProfile { allow_save: false, offline: false }
    }
}

/// Why a save is refused whatever is asked: offline first, then not
/// allowed.
pub open spec fn save_refusal(p: EditProfile) -> Option<Seq<char>> {
    if p.offline {
        Some("the agent is offline, so there is no account to save to"@)
    } else if !p.allow_save {
        Some("the agent was started without --allow-save, so it may not save"@)
    } else {
        None
    }
}

impl EditProfile {
    /// Why `save` is refused whatever is asked, if it is.
    pub fn save_refused(self) -> (why: Option<&'static str>)
        ensures
            why is Some <==> (self.offline || !self.allow_save),
            why is Some ==> Some(why->0@) == save_refusal(self),
    {
        if self.offline {
            Some("the agent is offline, so there is no account to save to")
        } else if !self.allow_save {
            Some("the agent was started without --allow-save, so it may not save")
        } else {
            None
        }
    }
}

/// Whether the world the agent stands in is its own: the session's DID
/// is the room's. With either unknown, it is not.
pub open spec fn owns_room_spec(session_did: Option<Seq<char>>, room_did: Option<Seq<char>>) -> bool {
    match (session_did, room_did) {
        (Some(s), Some(r)) => s == r,
        _ => false,
    }
}

/// Whether the world the agent stands in is its own: the only one the
/// game lets it edit, and the only one a save of a world can write.
pub fn owns_room(session_did: Option<&str>, room_did: Option<&str>) -> (b: bool)
    ensures
        b == owns_room_spec(
            match session_did {
                Some(s) => Some(s@),
                None => None,
            },
            match room_did {
                Some(r) => Some(r@),
                None => None,
            },
        ),
{
    match (session_did, room_did) {
        (Some(s), Some(r)) => {
            let a = crate::text::chars_of(s);
            let b = crate::text::chars_of(r);
            crate::observe::same_chars(&a, &b)
        },
        _ => false,
    }
}

/// Refused unless the agent is standing in a world - not signing in,
/// loading, or on its way somewhere.
pub fn in_world(in_game: bool, travelling: bool) -> (res: Result<(), String>)
    ensures
        res is Ok <==> (in_game && !travelling),
        !in_game ==> (res matches Err(e) && e@ == "the agent is not in a world yet"@),
        in_game && travelling ==> (res matches Err(e) && e@ == "the agent is travelling"@),
{
    if !in_game {
        return Err("the agent is not in a world yet".to_owned());
    }
    if travelling {
        return Err("the agent is travelling".to_owned());
    }
    Ok(())
}

/// Refused unless the agent stands in a world, and that world is its own
/// (`owns`): the only one the game lets it edit.
pub fn own_room(in_game: bool, travelling: bool, owns: bool) -> (res: Result<(), String>)
    ensures
        res is Ok <==> (in_game && !travelling && owns),
        !in_game ==> (res matches Err(e) && e@ == "the agent is not in a world yet"@),
        in_game && travelling ==> (res matches Err(e) && e@ == "the agent is travelling"@),
        in_game && !travelling && !owns ==> (res matches Err(e) && e@
            == "this is not the agent's world, and only a world's owner can edit it; `agent travel home` goes back to its own"@),
{
    in_world(in_game, travelling)?;
    if !owns {
        return Err(
            "this is not the agent's world, and only a world's owner can edit it; `agent travel home` goes back to its own".to_owned(),
        );
    }
    Ok(())
}

/// The names of the records whose flags are set, in the order room,
/// avatar, inventory.
pub open spec fn names_spec(room: bool, avatar: bool, inventory: bool) -> Seq<Seq<char>> {
    (if room { seq![record_word(EditRecord::Room)] } else { Seq::empty() })
        + (if avatar { seq![record_word(EditRecord::Avatar)] } else { Seq::empty() })
        + (if inventory { seq![record_word(EditRecord::Inventory)] } else { Seq::empty() })
}

/// Which records hold edits no save has taken - or which have a save under
/// way - by name, given which do.
pub fn names_of(room: bool, avatar: bool, inventory: bool) -> (names: Vec<&'static str>)
    ensures
        names@.map_values(|s: &'static str| s@) == names_spec(room, avatar, inventory),
{
    let mut names: Vec<&'static str> = Vec::new();
    if room {
        names.push(EditRecord::Room.word());
    }
    let ghost after_room = names@;
    if avatar {
        names.push(EditRecord::Avatar.word());
    }
    let ghost after_avatar = names@;
    if inventory {
        names.push(EditRecord::Inventory.word());
    }
    assert(names@.map_values(|s: &'static str| s@) =~= names_spec(room, avatar, inventory));
    names
}

/// How far past the budget a record of `bytes` is, as an answer says it:
/// past the ceiling a save is refused; past the budget it still goes
/// through.
pub open spec fn over_spec(bytes: Option<usize>) -> Option<Seq<char>> {
    match bytes {
        Some(b) => if b > HARD_RECORD_CEILING_BYTES {
            Some("the ceiling: a save is refused"@)
        } else if b > SOFT_RECORD_BUDGET_BYTES {
            Some("the budget: a save still goes through, but cut it down"@)
        } else {
            None
        },
        None => None,
    }
}

/// How far past the budget the largest record a save would write is, if
/// it is: `bytes` is its size, when it could be measured.
pub fn over_budget(bytes: Option<usize>) -> (over: Option<&'static str>)
    ensures
        match over {
            Some(o) => over_spec(bytes) == Some(o@),
            None => over_spec(bytes) is None,
        },
{
    match bytes {
        Some(b) => if b > HARD_RECORD_CEILING_BYTES {
            Some("the ceiling: a save is refused")
        } else if b > SOFT_RECORD_BUDGET_BYTES {
            Some("the budget: a save still goes through, but cut it down")
        } else {
            None
        },
        None => None,
    }
}

/// Why a record whose saved copy never loaded is not saved over: the
/// editor asks a person first, and nobody is here to ask.
pub fn recovery_refusal(what: &str, reason: &str) -> (why: String)
    ensures
        why@ == "the agent's saved "@ + what@ + " could not be read when it arrived ("@ + reason@
            + "), so saving now could overwrite it with what the agent has instead; a person can check it in the game's editor"@,
{
    let a = joined("the agent's saved ", what);
    let b = joined(a.as_str(), " could not be read when it arrived (");
    let c = joined(b.as_str(), reason);
    joined(
        c.as_str(),
        "), so saving now could overwrite it with what the agent has instead; a person can check it in the game's editor",
    )
}


/// What a record's size measured as: the size of its largest record as a
/// save would write it, which record that is, and why it could not be
/// written, if it could not.
pub struct SizeReadout {
    pub bytes: Option<usize>,
    pub largest: Option<String>,
    pub unserializable: Option<String>,
}

/// A size as JSON: the number, or null.
pub open spec fn bytes_model(bytes: Option<usize>) -> Json {
    match bytes {
        Some(b) => Json::Number(JsonNumber::PosInt(b as u64)),
        None => Json::Null,
    }
}

/// An optional text as JSON: the string, or null.
pub open spec fn text_model(t: Option<Seq<char>>) -> Json {
    match t {
        Some(s) => Json::Str(s),
        None => Json::Null,
    }
}

/// How `status` shows a record's size: the largest record and its bytes
/// against the budget - and, past it, what that means for a save, and why
/// a record cannot be written at all, when it cannot. Members in the order
/// of their names.
pub open spec fn readout_model(size: &SizeReadout) -> Json {
    Json::Object(
        seq![
            ("budget_bytes"@, Json::Number(JsonNumber::PosInt(SOFT_RECORD_BUDGET_BYTES as u64))),
            ("bytes"@, bytes_model(size.bytes)),
            ("largest"@, text_model(opt_view(size.largest))),
        ] + match over_spec(size.bytes) {
            Some(o) => seq![("over"@, Json::Str(o))],
            None => Seq::empty(),
        } + match size.unserializable {
            Some(r) => seq![("unwritable"@, Json::Str(r@))],
            None => Seq::empty(),
        },
    )
}

/// How `status` shows a record's size.
pub fn readout(size: &SizeReadout) -> (v: JsonValue)
    ensures
        v.model() == readout_model(size),
{
    let mut members: Vec<(String, JsonValue)> = Vec::new();
    members.push(
        ("budget_bytes".to_owned(), JsonValue::Number(JsonNumber::PosInt(SOFT_RECORD_BUDGET_BYTES as u64))),
    );
    members.push(
        (
            "bytes".to_owned(),
            match size.bytes {
                Some(b) => JsonValue::Number(JsonNumber::PosInt(b as u64)),
                None => JsonValue::Null,
            },
        ),
    );
    members.push(
        (
            "largest".to_owned(),
            match &size.largest {
                Some(l) => JsonValue::String(l.clone()),
                None => JsonValue::Null,
            },
        ),
    );
    match over_budget(size.bytes) {
        Some(o) => members.push(("over".to_owned(), JsonValue::String(o.to_owned()))),
        None => {},
    }
    match &size.unserializable {
        Some(r) => members.push(("unwritable".to_owned(), JsonValue::String(r.clone()))),
        None => {},
    }
    proof {
        lemma_member_models(members@);
    }
    assert(member_models(members@) =~= readout_model(size)->Object_0);
    JsonValue::Object(members)
}

/// Why a record cannot be reverted before it is there at all.
pub open spec fn no_record_spec(record: EditRecord) -> Seq<char> {
    match record {
        EditRecord::Room => "the agent's world has no record yet"@,
        EditRecord::Avatar => "the agent has no avatar record yet"@,
        EditRecord::Inventory => "the agent's inventory has not loaded yet"@,
    }
}

/// Why `record` cannot be reverted, or saved, before it has arrived.
pub fn no_record_yet(record: EditRecord) -> (why: &'static str)
    ensures
        why@ == no_record_spec(record),
{
    match record {
        EditRecord::Room => "the agent's world has no record yet",
        EditRecord::Avatar => "the agent has no avatar record yet",
        EditRecord::Inventory => "the agent's inventory has not loaded yet",
    }
}

/// What a revert of `record` answers: `{"reverted": <record>}`.
pub open spec fn reverted_model(record: EditRecord) -> Json {
    Json::Object(seq![("reverted"@, Json::Str(record_word(record)))])
}

/// What a revert of `record` answers.
pub fn reverted_answer(record: EditRecord) -> (v: JsonValue)
    ensures
        v.model() == reverted_model(record),
{
    let members = vec![("reverted".to_owned(), JsonValue::String(record.word().to_owned()))];
    proof {
        lemma_member_models(members@);
    }
    assert(member_models(members@) =~= reverted_model(record)->Object_0);
    JsonValue::Object(members)
}

/// The one answer a JSON pointer gets on the inventory record: it is read
/// and changed with commands of its own.
pub open spec fn pointer_refusal_spec(record: EditRecord) -> Option<Seq<char>> {
    match record {
        EditRecord::Inventory => Some(
            "the inventory is read with `agent inventory`, and changed with `agent stash` and `agent unstash`"@,
        ),
        _ => None,
    }
}

/// Why a get or a set by JSON pointer on `record` is refused, if it is:
/// only the room and the avatar records are reached that way.
pub fn pointer_refusal(record: EditRecord) -> (why: Option<&'static str>)
    ensures
        match why {
            Some(w) => pointer_refusal_spec(record) == Some(w@),
            None => pointer_refusal_spec(record) is None,
        },
{
    match record {
        EditRecord::Inventory => Some(
            "the inventory is read with `agent inventory`, and changed with `agent stash` and `agent unstash`",
        ),
        _ => None,
    }
}

/// What reverting `record` comes to, where the agent stands as the flags
/// say, with the record there or not (`has_record`), and with what the
/// record's editor says of a revert now (`refusal`, set when it refuses):
/// each check in turn - in a world, not travelling, in its own world for
/// the room, the record there, the editor willing - and, past them all,
/// the answer that goes with putting the saved record back.
pub open spec fn revert_spec(
    record: EditRecord,
    in_game: bool,
    travelling: bool,
    owns: bool,
    has_record: bool,
    refusal: Option<Seq<char>>,
) -> Result<Json, Seq<char>> {
    if !in_game {
        Err("the agent is not in a world yet"@)
    } else if travelling {
        Err("the agent is travelling"@)
    } else if record == EditRecord::Room && !owns {
        Err(
            "this is not the agent's world, and only a world's owner can edit it; `agent travel home` goes back to its own"@,
        )
    } else if !has_record {
        Err(no_record_spec(record))
    } else if refusal is Some {
        Err(refusal->0)
    } else {
        Ok(reverted_model(record))
    }
}

/// Throw `record`'s unsaved edits away, as "Revert to saved" does. `Ok`
/// holds the answer, and means: put the saved record in place of the live
/// one now. `Err` holds why not, and nothing changes.
pub fn revert(
    record: EditRecord,
    in_game: bool,
    travelling: bool,
    owns: bool,
    has_record: bool,
    refusal: Option<&str>,
) -> (res: Result<JsonValue, String>)
    ensures
        ({
            let refused = match refusal {
                Some(r) => Some(r@),
                None => None,
            };
            let want = revert_spec(record, in_game, travelling, owns, has_record, refused);
            match res {
                Ok(v) => want == Ok::<Json, Seq<char>>(v.model()),
                Err(e) => want == Err::<Json, Seq<char>>(e@),
            }
        }),
{
    match record {
        EditRecord::Room => own_room(in_game, travelling, owns)?,
        _ => in_world(in_game, travelling)?,
    }
    if !has_record {
        return Err(no_record_yet(record).to_owned());
    }
    if let Some(why) = refusal {
        return Err(why.to_owned());
    }
    Ok(reverted_answer(record))
}

} // verus!
