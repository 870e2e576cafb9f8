//! What travels over the control socket: one [`Request`] in, one
//! [`Response`] out, and where each request is answered.
//!
//! The library never computes with a coordinate, a distance or a heading:
//! it carries them from the wire to the world. They travel here as the
//! IEEE-754 bits of the number the client wrote ([`F32Bits`], [`F64Bits`]).
use vstd::prelude::*;
use crate::config::{
    FOLLOW_DISTANCE_M_BITS, LOOK_ANSWER_TIMEOUT_MS, MAX_EVENT_WAIT_SECS, UI_ANSWER_TIMEOUT_MS,
    WORLD_ANSWER_TIMEOUT_MS,
};
use crate::json::{lemma_member_models, lemma_models, member_models, models, Json, JsonValue};

verus! {

/// The bits of an `f32`, carried and never computed with.
pub type F32Bits = u32;

/// The bits of an `f64`, carried and never computed with.
pub type F64Bits = u64;

#[verifier::external_type_specification]
#[verifier::external_body]
pub struct ExPathBuf(std::path::PathBuf);

/// A command, as a client sends it.
pub enum Request {
    /// Who, where and with whom the agent is.
    Status,
    /// What has happened after event `since`, waiting up to `wait_secs` for
    /// something to.
    Events { since: u64, wait_secs: u64 },
    /// Leave the world and end the daemon. The saved session is kept.
    Stop,
    /// Say `text` in the room, as the chat window would.
    Say { text: String },
    /// Walk (or drive) to the point `x`, `z` on the ground, running if `run`.
    WalkTo { x: F32Bits, z: F32Bits, run: bool },
    /// Stop walking.
    Halt,
    /// Travel to the world of `room_did`, which the operator called `label`,
    /// doing `unsaved` with any unsaved edits to the agent's own world.
    Travel { room_did: String, label: Option<String>, unsaved: UnsavedEdits },
    /// Take a picture of what the agent sees and write it to a PNG.
    Look(LookSpec),
    /// Follow the player `did`, `distance` metres behind (a default when
    /// absent), running if `run`.
    Follow { did: String, distance: Option<F32Bits>, run: bool },
    /// Turn to face the player `did`, or the point `at` (x, z) - one of them.
    Face { did: Option<String>, at: Option<[F32Bits; 2]> },
    /// The things placed in the agent's world, by index - within
    /// `within_m` of the agent when given.
    Placements { within_m: Option<F32Bits> },
    /// The catalogue's entries - those matching `search`, when given.
    Catalogue { search: Option<String> },
    /// Put the catalogue entry `slug` down at `at` (x, z), turned to
    /// `yaw_deg`.
    Place { slug: String, at: Option<[F32Bits; 2]>, yaw_deg: Option<F32Bits> },
    /// Move the placement `index` to (`x`, `z`), and turn it to `yaw_deg`
    /// when given.
    Move { index: usize, x: F32Bits, z: F32Bits, yaw_deg: Option<F32Bits> },
    /// Take the placement `index` out of the world.
    Remove { index: usize },
    /// The world's record as JSON, or the part of it at `pointer`.
    RoomGet { pointer: String },
    /// Replace the part of the world's record at `pointer` with `value`.
    RoomSet { pointer: String, value: JsonValue },
    /// The agent's avatar as JSON, or the part at `pointer`.
    AvatarGet { pointer: String },
    /// Replace the part of the avatar's JSON at `pointer` with `value`.
    AvatarSet { pointer: String, value: JsonValue },
    /// Step back one edit of `record`, as Ctrl+Z does.
    Undo { record: EditRecord },
    /// Step forward again one edit of `record` that was undone.
    Redo { record: EditRecord },
    /// Throw `record`'s unsaved edits away: back to what was last saved.
    Revert { record: EditRecord },
    /// Save `record` to the agent's account.
    Save { record: EditRecord },
    /// What the agent's inventory holds.
    Inventory,
    /// Put `what` into the inventory.
    Stash { what: String },
    /// Take the item `name` out of the inventory.
    Unstash { name: String },
    /// Put the inventory item `name` on the avatar.
    Wear { name: String },
    /// Take the worn item `name` off the avatar.
    TakeOff { name: String },
    /// Offer `item` to the player `to_did`.
    GiftGive { to_did: String, item: String },
    /// Accept the gift the agent was offered as `offer_id`.
    GiftAccept { offer_id: u64 },
    /// Decline it.
    GiftDecline { offer_id: u64 },
    /// The interface: what is open, with a picture of it when `picture`.
    Ui { picture: bool },
    /// One window's controls and words, with a picture when `picture`.
    UiShow { window: String, picture: bool },
    /// Open a window and list it.
    UiOpen { window: String },
    /// Close a window.
    UiClose { window: String },
    /// Click the control at `path`.
    UiClick { path: String },
    /// Type `text` into the field at `path`, and press Enter after when
    /// `enter`.
    UiType { path: String, text: String, enter: bool },
    /// Set the slider or number at `path` to `value`.
    UiSet { path: String, value: F64Bits },
    /// Pick `option` from the combo box or menu at `path`.
    UiChoose { path: String, option: String },
    /// Scroll `window`'s list by `points`: down when positive.
    UiScroll { window: String, points: F32Bits },
}

/// An interface command, as the world answers it.
pub enum UiRequest {
    Summary { picture: bool },
    Show { window: String, picture: bool },
    Open { window: String },
    Close { window: String },
    Click { path: String },
    Type { path: String, text: String, enter: bool },
    SetValue { path: String, value: F64Bits },
    Choose { path: String, option: String },
    Scroll { window: String, points: F32Bits },
}

impl UiRequest {
    /// Whether it works a control, which may write one of the agent's
    /// records - the way an edit may.
    pub open spec fn works_a_control(&self) -> bool {
        ||| self is Click
        ||| self is Type
        ||| self is SetValue
        ||| self is Choose
    }

    /// Whether it works a control, which may write one of the agent's
    /// records - the way an edit may.
    pub fn acts(&self) -> (b: bool)
        ensures
            b == self.works_a_control(),
    {
        match self {
            UiRequest::Click { .. } | UiRequest::Type { .. } | UiRequest::SetValue { .. }
            | UiRequest::Choose { .. } => true,
            _ => false,
        }
    }
}

/// Which of the agent's records an edit command is about.
#[derive(PartialEq, Eq, Structural, Clone, Copy, Debug)]
pub enum EditRecord {
    /// The agent's own world.
    Room,
    /// The agent's avatar.
    Avatar,
    /// The agent's inventory: saved and reverted, but with no undo history
    /// - the game keeps none for it.
    Inventory,
}

/// `room`, `avatar` or `inventory`: a record's name in answers and events.
pub open spec fn record_word(record: EditRecord) -> Seq<char> {
    match record {
        EditRecord::Room => seq!['r', 'o', 'o', 'm'],
        EditRecord::Avatar => seq!['a', 'v', 'a', 't', 'a', 'r'],
        EditRecord::Inventory => seq!['i', 'n', 'v', 'e', 'n', 't', 'o', 'r', 'y'],
    }
}

/// No two records share a name: the name in an answer or an event says
/// which record it is.
pub proof fn lemma_record_words_differ(a: EditRecord, b: EditRecord)
    ensures
        record_word(a) == record_word(b) ==> a == b,
{
    if record_word(a) == record_word(b) && a != b {
        assert(record_word(a).len() != record_word(b).len()
            || record_word(a)[0] != record_word(b)[0]);
    }
}

impl EditRecord {
    /// The record's name in answers and events.
    pub fn word(self) -> (w: &'static str)
        ensures
            w@ == record_word(self),
    {
        match self {
            EditRecord::Room => {
                proof {
                    reveal_strlit("room");
                }
                "room"
            },
            EditRecord::Avatar => {
                proof {
                    reveal_strlit("avatar");
                }
                "avatar"
            },
            EditRecord::Inventory => {
                proof {
                    reveal_strlit("inventory");
                }
                "inventory"
            },
        }
    }
}

impl Default for EditRecord {
    fn default() -> (r: Self)
        ensures
            r == EditRecord::Room,
    {
        EditRecord::Room
    }
}

/// What a trip does with unsaved edits to the agent's own world, which
/// leaving it would lose.
#[derive(PartialEq, Eq, Structural, Clone, Copy, Debug)]
pub enum UnsavedEdits {
    /// Do not leave: the trip is refused, and says why.
    Refuse,
    /// Leave and lose them - the travel dialog's "Discard & travel".
    Discard,
    /// Save them, and leave once the save has landed - "Save & travel".
    Save,
}

impl Default for UnsavedEdits {
    fn default() -> (r: Self)
        ensures
            r == UnsavedEdits::Refuse,
    {
        UnsavedEdits::Refuse
    }
}

/// Which picture `look` takes.
pub struct LookSpec {
    pub view: LookView,
    /// Which way to look, in degrees clockwise from where the agent faces.
    pub heading_deg: Option<F32Bits>,
    /// A point on the ground to look toward, as (x, z), instead.
    pub at: Option<[F32Bits; 2]>,
    /// Where to write the picture; the agent's own directory by default.
    pub out: Option<std::path::PathBuf>,
}

impl Default for LookSpec {
    fn default() -> (s: Self)
        ensures
            s.view == LookView::Play,
            s.heading_deg is None,
            s.at is None,
            s.out is None,
    {
        LookSpec { view: LookView::Play, heading_deg: None, at: None, out: None }
    }
}

/// Where a picture is taken from.
#[derive(PartialEq, Eq, Structural, Clone, Copy, Debug)]
pub enum LookView {
    /// The game's own camera, behind and above the body.
    Play,
    /// From the body's eyes, looking level.
    Eyes,
}

impl Default for LookView {
    fn default() -> (v: Self)
        ensures
            v == LookView::Play,
    {
        LookView::Play
    }
}

/// Where a [`Request`] is answered.
pub enum Route {
    /// By the control socket itself, from the event log.
    Events { since: u64, wait_secs: u64 },
    /// By the daemon, in the world, on its next frame.
    World(WorldRequest),
}

/// A request the daemon answers from the world.
pub enum WorldRequest {
    Status,
    Stop,
    Say(String),
    WalkTo { x: F32Bits, z: F32Bits, run: bool },
    Halt,
    Travel { room_did: String, label: Option<String>, unsaved: UnsavedEdits },
    Look(LookSpec),
    Follow { did: String, distance: F32Bits, run: bool },
    Face { did: Option<String>, at: Option<[F32Bits; 2]> },
    /// An edit command.
    Edit(EditRequest),
    /// A gift command.
    Gift(GiftRequest),
    /// An interface command.
    Ui(UiRequest),
}

/// A request that offers a gift, or answers one.
#[derive(PartialEq, Eq, Clone, Debug)]
pub enum GiftRequest {
    Give { to_did: String, item: String },
    Accept(u64),
    Decline(u64),
}

/// A request that reads or edits the agent's world or avatar.
pub enum EditRequest {
    Placements { within_m: Option<F32Bits> },
    Catalogue { search: Option<String> },
    Place { slug: String, at: Option<[F32Bits; 2]>, yaw_deg: Option<F32Bits> },
    Move { index: usize, x: F32Bits, z: F32Bits, yaw_deg: Option<F32Bits> },
    Remove { index: usize },
    Get { record: EditRecord, pointer: String },
    SetPart { record: EditRecord, pointer: String, value: JsonValue },
    Undo(EditRecord),
    Redo(EditRecord),
    Revert(EditRecord),
    Save(EditRecord),
    Inventory,
    Stash { what: String },
    Unstash { name: String },
    Wear { name: String },
    TakeOff { name: String },
}

impl EditRequest {
    /// Whether answering this may write one of the agent's records: all
    /// but the reads and the save.
    pub open spec fn may_write(&self) -> bool {
        !(self is Placements || self is Catalogue || self is Get || self is Save
            || self is Inventory)
    }

    /// Whether answering this may write one of the agent's records. The
    /// daemon answers at most one of these a frame: the undo history takes
    /// one entry per frame a record changed in.
    pub fn writes(&self) -> (b: bool)
        ensures
            b == self.may_write(),
    {
        match self {
            EditRequest::Placements { .. } | EditRequest::Catalogue { .. }
            | EditRequest::Get { .. } | EditRequest::Save(_) | EditRequest::Inventory => false,
            _ => true,
        }
    }
}

impl WorldRequest {
    /// Whether answering this may write one of the agent's records - an
    /// edit that may, accepting a gift, working a control, or a trip that
    /// throws the world's unsaved edits away first.
    pub open spec fn may_write(&self) -> bool {
        match self {
            WorldRequest::Edit(edit) => edit.may_write(),
            WorldRequest::Gift(gift) => gift is Accept,
            WorldRequest::Ui(ui) => ui.works_a_control(),
            WorldRequest::Travel { unsaved, .. } => *unsaved == UnsavedEdits::Discard,
            _ => false,
        }
    }

    /// Whether answering this may write one of the agent's records - see
    /// [`EditRequest::writes`].
    pub fn writes_a_record(&self) -> (b: bool)
        ensures
            b == self.may_write(),
    {
        match self {
            WorldRequest::Edit(edit) => edit.writes(),
            WorldRequest::Gift(GiftRequest::Accept(_)) => true,
            WorldRequest::Ui(ui) => ui.acts(),
            WorldRequest::Travel { unsaved: UnsavedEdits::Discard, .. } => true,
            _ => false,
        }
    }

    /// How long the world may take to answer, in milliseconds: a frame for
    /// most requests, a render for a picture, the interface's passes for an
    /// interface command.
    pub fn answer_within(&self) -> (ms: u64)
        ensures
            ms == (match self {
                WorldRequest::Look(_) => LOOK_ANSWER_TIMEOUT_MS,
                WorldRequest::Ui(_) => UI_ANSWER_TIMEOUT_MS,
                _ => WORLD_ANSWER_TIMEOUT_MS,
            }),
    {
        match self {
            WorldRequest::Look(_) => LOOK_ANSWER_TIMEOUT_MS,
            WorldRequest::Ui(_) => UI_ANSWER_TIMEOUT_MS,
            _ => WORLD_ANSWER_TIMEOUT_MS,
        }
    }
}

/// How long an `events` request waits at most, in seconds: what it asked
/// for, but never longer than the daemon waits.
pub open spec fn event_wait_spec(wait_secs: u64) -> u64 {
    if wait_secs < MAX_EVENT_WAIT_SECS {
        wait_secs
    } else {
        MAX_EVENT_WAIT_SECS
    }
}

/// How long an `events` request waits at most, in seconds.
pub fn event_wait_secs(wait_secs: u64) -> (w: u64)
    ensures
        w == event_wait_spec(wait_secs),
{
    if wait_secs < MAX_EVENT_WAIT_SECS {
        wait_secs
    } else {
        MAX_EVENT_WAIT_SECS
    }
}

/// The route of an interface command.
pub open spec fn ui_route(request: UiRequest) -> Route {
    Route::World(WorldRequest::Ui(request))
}

/// The route of an edit command.
pub open spec fn edit_route(request: EditRequest) -> Route {
    Route::World(WorldRequest::Edit(request))
}

impl Request {
    /// Where `self` is answered, and as what: `events` by the socket, every
    /// other command by the world, with the same fields - a follow with no
    /// distance at the default one.
    pub open spec fn routed(self) -> Route {
        match self {
            Request::Events { since, wait_secs } => Route::Events { since, wait_secs },
            Request::Status => Route::World(WorldRequest::Status),
            Request::Stop => Route::World(WorldRequest::Stop),
            Request::Say { text } => Route::World(WorldRequest::Say(text)),
            Request::WalkTo { x, z, run } => Route::World(WorldRequest::WalkTo { x, z, run }),
            Request::Halt => Route::World(WorldRequest::Halt),
            Request::Travel { room_did, label, unsaved } => Route::World(
                WorldRequest::Travel { room_did, label, unsaved },
            ),
            Request::Look(spec) => Route::World(WorldRequest::Look(spec)),
            Request::Follow { did, distance, run } => Route::World(
                WorldRequest::Follow {
                    did,
                    distance: match distance {
                        Some(d) => d,
                        None => FOLLOW_DISTANCE_M_BITS,
                    },
                    run,
                },
            ),
            Request::Face { did, at } => Route::World(WorldRequest::Face { did, at }),
            Request::Placements { within_m } => edit_route(EditRequest::Placements { within_m }),
            Request::Catalogue { search } => edit_route(EditRequest::Catalogue { search }),
            Request::Place { slug, at, yaw_deg } => edit_route(EditRequest::Place { slug, at, yaw_deg }),
            Request::Move { index, x, z, yaw_deg } => edit_route(
                EditRequest::Move { index, x, z, yaw_deg },
            ),
            Request::Remove { index } => edit_route(EditRequest::Remove { index }),
            Request::RoomGet { pointer } => edit_route(
                EditRequest::Get { record: EditRecord::Room, pointer },
            ),
            Request::RoomSet { pointer, value } => edit_route(
                EditRequest::SetPart { record: EditRecord::Room, pointer, value },
            ),
            Request::AvatarGet { pointer } => edit_route(
                EditRequest::Get { record: EditRecord::Avatar, pointer },
            ),
            Request::AvatarSet { pointer, value } => edit_route(
                EditRequest::SetPart { record: EditRecord::Avatar, pointer, value },
            ),
            Request::Undo { record } => edit_route(EditRequest::Undo(record)),
            Request::Redo { record } => edit_route(EditRequest::Redo(record)),
            Request::Revert { record } => edit_route(EditRequest::Revert(record)),
            Request::Save { record } => edit_route(EditRequest::Save(record)),
            Request::Inventory => edit_route(EditRequest::Inventory),
            Request::Stash { what } => edit_route(EditRequest::Stash { what }),
            Request::Unstash { name } => edit_route(EditRequest::Unstash { name }),
            Request::Wear { name } => edit_route(EditRequest::Wear { name }),
            Request::TakeOff { name } => edit_route(EditRequest::TakeOff { name }),
            Request::GiftGive { to_did, item } => Route::World(
                WorldRequest::Gift(GiftRequest::Give { to_did, item }),
            ),
            Request::GiftAccept { offer_id } => Route::World(
                WorldRequest::Gift(GiftRequest::Accept(offer_id)),
            ),
            Request::GiftDecline { offer_id } => Route::World(
                WorldRequest::Gift(GiftRequest::Decline(offer_id)),
            ),
            Request::Ui { picture } => ui_route(UiRequest::Summary { picture }),
            Request::UiShow { window, picture } => ui_route(UiRequest::Show { window, picture }),
            Request::UiOpen { window } => ui_route(UiRequest::Open { window }),
            Request::UiClose { window } => ui_route(UiRequest::Close { window }),
            Request::UiClick { path } => ui_route(UiRequest::Click { path }),
            Request::UiType { path, text, enter } => ui_route(UiRequest::Type { path, text, enter }),
            Request::UiSet { path, value } => ui_route(UiRequest::SetValue { path, value }),
            Request::UiChoose { path, option } => ui_route(UiRequest::Choose { path, option }),
            Request::UiScroll { window, points } => ui_route(UiRequest::Scroll { window, points }),
        }
    }

    /// Where this request is answered, and as what.
    pub fn route(self) -> (r: Route)
        ensures
            r == self.routed(),
    {
        match self {
            Request::Events { since, wait_secs } => Route::Events { since, wait_secs },
            Request::Status => Route::World(WorldRequest::Status),
            Request::Stop => Route::World(WorldRequest::Stop),
            Request::Say { text } => Route::World(WorldRequest::Say(text)),
            Request::WalkTo { x, z, run } => Route::World(WorldRequest::WalkTo { x, z, run }),
            Request::Halt => Route::World(WorldRequest::Halt),
            Request::Travel { room_did, label, unsaved } => Route::World(
                WorldRequest::Travel { room_did, label, unsaved },
            ),
            Request::Look(spec) => Route::World(WorldRequest::Look(spec)),
            Request::Follow { did, distance, run } => Route::World(
                WorldRequest::Follow {
                    did,
                    distance: match distance {
                        Some(d) => d,
                        None => FOLLOW_DISTANCE_M_BITS,
                    },
                    run,
                },
            ),
            Request::Face { did, at } => Route::World(WorldRequest::Face { did, at }),
            Request::Placements { within_m } => edit(EditRequest::Placements { within_m }),
            Request::Catalogue { search } => edit(EditRequest::Catalogue { search }),
            Request::Place { slug, at, yaw_deg } => edit(EditRequest::Place { slug, at, yaw_deg }),
            Request::Move { index, x, z, yaw_deg } => edit(
                EditRequest::Move { index, x, z, yaw_deg },
            ),
            Request::Remove { index } => edit(EditRequest::Remove { index }),
            Request::RoomGet { pointer } => edit(
                EditRequest::Get { record: EditRecord::Room, pointer },
            ),
            Request::RoomSet { pointer, value } => edit(
                EditRequest::SetPart { record: EditRecord::Room, pointer, value },
            ),
            Request::AvatarGet { pointer } => edit(
                EditRequest::Get { record: EditRecord::Avatar, pointer },
            ),
            Request::AvatarSet { pointer, value } => edit(
                EditRequest::SetPart { record: EditRecord::Avatar, pointer, value },
            ),
            Request::Undo { record } => edit(EditRequest::Undo(record)),
            Request::Redo { record } => edit(EditRequest::Redo(record)),
            Request::Revert { record } => edit(EditRequest::Revert(record)),
            Request::Save { record } => edit(EditRequest::Save(record)),
            Request::Inventory => edit(EditRequest::Inventory),
            Request::Stash { what } => edit(EditRequest::Stash { what }),
            Request::Unstash { name } => edit(EditRequest::Unstash { name }),
            Request::Wear { name } => edit(EditRequest::Wear { name }),
            Request::TakeOff { name } => edit(EditRequest::TakeOff { name }),
            Request::GiftGive { to_did, item } => Route::World(
                WorldRequest::Gift(GiftRequest::Give { to_did, item }),
            ),
            Request::GiftAccept { offer_id } => Route::World(
                WorldRequest::Gift(GiftRequest::Accept(offer_id)),
            ),
            Request::GiftDecline { offer_id } => Route::World(
                WorldRequest::Gift(GiftRequest::Decline(offer_id)),
            ),
            Request::Ui { picture } => ui(UiRequest::Summary { picture }),
            Request::UiShow { window, picture } => ui(UiRequest::Show { window, picture }),
            Request::UiOpen { window } => ui(UiRequest::Open { window }),
            Request::UiClose { window } => ui(UiRequest::Close { window }),
            Request::UiClick { path } => ui(UiRequest::Click { path }),
            Request::UiType { path, text, enter } => ui(UiRequest::Type { path, text, enter }),
            Request::UiSet { path, value } => ui(UiRequest::SetValue { path, value }),
            Request::UiChoose { path, option } => ui(UiRequest::Choose { path, option }),
            Request::UiScroll { window, points } => ui(UiRequest::Scroll { window, points }),
        }
    }
}

fn ui(request: UiRequest) -> (r: Route)
    ensures
        r == ui_route(request),
{
    Route::World(WorldRequest::Ui(request))
}

fn edit(request: EditRequest) -> (r: Route)
    ensures
        r == edit_route(request),
{
    Route::World(WorldRequest::Edit(request))
}

/// The answer to one request: a result or an error, never both.
pub struct Response {
    pub ok: bool,
    pub result: Option<JsonValue>,
    pub error: Option<String>,
}

impl Response {
    /// `{"ok":true,"result":...}`.
    pub fn success(result: JsonValue) -> (r: Response)
        ensures
            r.ok,
            r.result == Some(result),
            r.error is None,
    {
        Response { ok: true, result: Some(result), error: None }
    }

    /// `{"ok":false,"error":"..."}`.
    pub fn failure(error: String) -> (r: Response)
        ensures
            !r.ok,
            r.result is None,
            r.error == Some(error),
    {
        Response { ok: false, result: None, error: Some(error) }
    }
}

/// How long a client waits for the answer to `request`, in milliseconds:
/// the daemon's own bound on it, and a margin so that the daemon's
/// timeout - which says what timed out - is the one that fires.
pub open spec fn answer_bound_spec(request: &Request) -> int {
    (match request {
        Request::Events { wait_secs, .. } => event_wait_spec(*wait_secs) * 1000,
        _ => WORLD_ANSWER_TIMEOUT_MS as int,
    }) + CLIENT_MARGIN_MS
}

/// How much longer than the daemon's own bound a client waits.
pub const CLIENT_MARGIN_MS: u64 = 5_000u64;

/// How long a client waits for the answer to `request`, in milliseconds.
pub fn answer_bound(request: &Request) -> (ms: u64)
    ensures
        ms == answer_bound_spec(request),
{
    let waits = match request {
        Request::Events { wait_secs, .. } => event_wait_secs(*wait_secs) * 1000,
        _ => WORLD_ANSWER_TIMEOUT_MS,
    };
    waits + CLIENT_MARGIN_MS
}


/// Only `events` is answered without the world: every other request goes
/// to the world, and what it may write there is what its command says.
pub proof fn lemma_only_events_bypass_the_world(r: Request)
    ensures
        (r.routed() is Events) <==> (r is Events),
        r is RoomSet ==> (r.routed() matches Route::World(w) && w.may_write()),
        r is Save ==> (r.routed() matches Route::World(w) && !w.may_write()),
        r is GiftAccept ==> (r.routed() matches Route::World(w) && w.may_write()),
        r is GiftDecline ==> (r.routed() matches Route::World(w) && !w.may_write()),
{
}

/// Routing carries every field of a request over unchanged: each request
/// reaches the world as the command of the same name with the same
/// fields - a follow with no distance at the default one - and `events`
/// stays with the socket, with its cursor and wait.
pub proof fn lemma_routing_keeps_fields(r: Request)
    ensures
        r matches Request::Events { since, wait_secs } ==> r.routed() == (Route::Events {
            since,
            wait_secs,
        }),
        r is Status ==> r.routed() == Route::World(WorldRequest::Status),
        r is Stop ==> r.routed() == Route::World(WorldRequest::Stop),
        r matches Request::Say { text } ==> r.routed() == Route::World(WorldRequest::Say(text)),
        r matches Request::WalkTo { x, z, run } ==> r.routed() == Route::World(
            WorldRequest::WalkTo { x, z, run },
        ),
        r is Halt ==> r.routed() == Route::World(WorldRequest::Halt),
        r matches Request::Travel { room_did, label, unsaved } ==> r.routed() == Route::World(
            WorldRequest::Travel { room_did, label, unsaved },
        ),
        r matches Request::Look(spec) ==> r.routed() == Route::World(WorldRequest::Look(spec)),
        r matches Request::Follow { did, distance: Some(d), run } ==> r.routed() == Route::World(
            WorldRequest::Follow { did, distance: d, run },
        ),
        r matches Request::Follow { did, distance: None, run } ==> r.routed() == Route::World(
            WorldRequest::Follow { did, distance: FOLLOW_DISTANCE_M_BITS, run },
        ),
        r matches Request::Face { did, at } ==> r.routed() == Route::World(
            WorldRequest::Face { did, at },
        ),
        r matches Request::Placements { within_m } ==> r.routed() == Route::World(
            WorldRequest::Edit(EditRequest::Placements { within_m }),
        ),
        r matches Request::Catalogue { search } ==> r.routed() == Route::World(
            WorldRequest::Edit(EditRequest::Catalogue { search }),
        ),
        r matches Request::Place { slug, at, yaw_deg } ==> r.routed() == Route::World(
            WorldRequest::Edit(EditRequest::Place { slug, at, yaw_deg }),
        ),
        r matches Request::Move { index, x, z, yaw_deg } ==> r.routed() == Route::World(
            WorldRequest::Edit(EditRequest::Move { index, x, z, yaw_deg }),
        ),
        r matches Request::Remove { index } ==> r.routed() == Route::World(
            WorldRequest::Edit(EditRequest::Remove { index }),
        ),
        r matches Request::RoomGet { pointer } ==> r.routed() == Route::World(
            WorldRequest::Edit(EditRequest::Get { record: EditRecord::Room, pointer }),
        ),
        r matches Request::RoomSet { pointer, value } ==> r.routed() == Route::World(
            WorldRequest::Edit(EditRequest::SetPart { record: EditRecord::Room, pointer, value }),
        ),
        r matches Request::AvatarGet { pointer } ==> r.routed() == Route::World(
            WorldRequest::Edit(EditRequest::Get { record: EditRecord::Avatar, pointer }),
        ),
        r matches Request::AvatarSet { pointer, value } ==> r.routed() == Route::World(
            WorldRequest::Edit(EditRequest::SetPart { record: EditRecord::Avatar, pointer, value }),
        ),
        r matches Request::Undo { record } ==> r.routed() == Route::World(
            WorldRequest::Edit(EditRequest::Undo(record)),
        ),
        r matches Request::Redo { record } ==> r.routed() == Route::World(
            WorldRequest::Edit(EditRequest::Redo(record)),
        ),
        r matches Request::Revert { record } ==> r.routed() == Route::World(
            WorldRequest::Edit(EditRequest::Revert(record)),
        ),
        r matches Request::Save { record } ==> r.routed() == Route::World(
            WorldRequest::Edit(EditRequest::Save(record)),
        ),
        r is Inventory ==> r.routed() == Route::World(WorldRequest::Edit(EditRequest::Inventory)),
        r matches Request::Stash { what } ==> r.routed() == Route::World(
            WorldRequest::Edit(EditRequest::Stash { what }),
        ),
        r matches Request::Unstash { name } ==> r.routed() == Route::World(
            WorldRequest::Edit(EditRequest::Unstash { name }),
        ),
        r matches Request::Wear { name } ==> r.routed() == Route::World(
            WorldRequest::Edit(EditRequest::Wear { name }),
        ),
        r matches Request::TakeOff { name } ==> r.routed() == Route::World(
            WorldRequest::Edit(EditRequest::TakeOff { name }),
        ),
        r matches Request::GiftGive { to_did, item } ==> r.routed() == Route::World(
            WorldRequest::Gift(GiftRequest::Give { to_did, item }),
        ),
        r matches Request::GiftAccept { offer_id } ==> r.routed() == Route::World(
            WorldRequest::Gift(GiftRequest::Accept(offer_id)),
        ),
        r matches Request::GiftDecline { offer_id } ==> r.routed() == Route::World(
            WorldRequest::Gift(GiftRequest::Decline(offer_id)),
        ),
        r matches Request::Ui { picture } ==> r.routed() == Route::World(
            WorldRequest::Ui(UiRequest::Summary { picture }),
        ),
        r matches Request::UiShow { window, picture } ==> r.routed() == Route::World(
            WorldRequest::Ui(UiRequest::Show { window, picture }),
        ),
        r matches Request::UiOpen { window } ==> r.routed() == Route::World(
            WorldRequest::Ui(UiRequest::Open { window }),
        ),
        r matches Request::UiClose { window } ==> r.routed() == Route::World(
            WorldRequest::Ui(UiRequest::Close { window }),
        ),
        r matches Request::UiClick { path } ==> r.routed() == Route::World(
            WorldRequest::Ui(UiRequest::Click { path }),
        ),
        r matches Request::UiType { path, text, enter } ==> r.routed() == Route::World(
            WorldRequest::Ui(UiRequest::Type { path, text, enter }),
        ),
        r matches Request::UiSet { path, value } ==> r.routed() == Route::World(
            WorldRequest::Ui(UiRequest::SetValue { path, value }),
        ),
        r matches Request::UiChoose { path, option } ==> r.routed() == Route::World(
            WorldRequest::Ui(UiRequest::Choose { path, option }),
        ),
        r matches Request::UiScroll { window, points } ==> r.routed() == Route::World(
            WorldRequest::Ui(UiRequest::Scroll { window, points }),
        ),
{
}

/// Which requests may write one of the agent's records, and so end a
/// frame's turn: every edit that changes a record - placing, moving and
/// removing a placement, setting part of the room or the avatar, undo,
/// redo and revert, and each change to the inventory - accepting a gift,
/// working an interface control, and a trip that throws unsaved edits
/// away. Reads, the save, and everything else do not.
pub proof fn lemma_which_requests_may_write(r: Request)
    ensures
        (r.routed() matches Route::World(w) && w.may_write()) <==> (r is Place || r is Move
            || r is Remove || r is RoomSet || r is AvatarSet || r is Undo || r is Redo
            || r is Revert || r is Stash || r is Unstash || r is Wear || r is TakeOff
            || r is GiftAccept || r is UiClick || r is UiType || r is UiSet || r is UiChoose
            || (r matches Request::Travel { unsaved, .. } && unsaved == UnsavedEdits::Discard)),
{
}

/// What a `face` turns to: a player, or a point on the ground.
pub enum FaceTarget {
    Peer(String),
    Point([F32Bits; 2]),
}

/// What a `face` request names: a player or a point, not both and not
/// neither.
pub fn face_target(did: Option<String>, at: Option<[F32Bits; 2]>) -> (r: Result<FaceTarget, String>)
    ensures
        match (did, at) {
            (Some(d), None) => r matches Ok(FaceTarget::Peer(p)) && p@ == d@,
            (None, Some(a)) => r matches Ok(FaceTarget::Point(q)) && q == a,
            _ => r matches Err(e) && e@
                == "face takes a player or a point, not both and not neither"@,
        },
{
    match (did, at) {
        (Some(d), None) => Ok(FaceTarget::Peer(d)),
        (None, Some(a)) => Ok(FaceTarget::Point(a)),
        _ => Err("face takes a player or a point, not both and not neither".to_owned()),
    }
}

/// The names as a JSON list.
pub open spec fn names_model(names: Seq<&'static str>) -> Json {
    Json::Array(names.map_values(|n: &'static str| Json::Str(n@)))
}

/// The names as a JSON list of strings.
fn names_json(names: &Vec<&'static str>) -> (v: JsonValue)
    ensures
        v.model() == names_model(names@),
{
    let mut items: Vec<JsonValue> = Vec::new();
    let mut i: usize = 0;
    while i < names.len()
        invariant
            i <= names@.len(),
            items@.len() == i,
            forall|j: int| 0 <= j < i ==> (#[trigger] items@[j]).model() == Json::Str(names@[j]@),
        decreases names@.len() - i,
    {
        items.push(JsonValue::String(names[i].to_owned()));
        i = i + 1;
    }
    proof {
        lemma_models(items@);
    }
    assert(models(items@) =~= names_model(names@)->Array_0);
    JsonValue::Array(items)
}

/// What `stop` answers: that the agent is stopping, which records' unsaved
/// edits it throws away, and which saves are still under way.
pub open spec fn stop_model(discarded: Seq<&'static str>, saving: Seq<&'static str>) -> Json {
    Json::Object(
        seq![
            ("discarded"@, names_model(discarded)),
            ("saves_in_flight"@, names_model(saving)),
            ("stopping"@, Json::Bool(true)),
        ],
    )
}

/// What `stop` answers, given the records whose unsaved edits it discards
/// and those with a save under way, by name.
pub fn stop_answer(discarded: &Vec<&'static str>, saving: &Vec<&'static str>) -> (v: JsonValue)
    ensures
        v.model() == stop_model(discarded@, saving@),
{
    let members = vec![
        ("discarded".to_owned(), names_json(discarded)),
        ("saves_in_flight".to_owned(), names_json(saving)),
        ("stopping".to_owned(), JsonValue::Bool(true)),
    ];
    proof {
        lemma_member_models(members@);
    }
    assert(member_models(members@) =~= stop_model(discarded@, saving@)->Object_0);
    JsonValue::Object(members)
}

} // verus!
