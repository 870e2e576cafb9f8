//! What the daemon writes into its event log of what others say: the
//! admin's lines, and who else spoke.
//!
//! "Unread" is a property of [`record_chat`]'s shape: a line's sender is
//! compared with the admin's before anything else about the line is looked
//! at, and its words are copied only inside the admin's arm. A stranger's
//! text never reaches the event log ([`lemma_strangers_are_never_quoted`]).
use vstd::prelude::*;
use crate::events::{EventKind, EventKindView};
use crate::text::{chars_of, opt_view};
use std::collections::HashMap;
use crate::json::{Json, JsonNumber, JsonValue};

verus! {

/// What became of a chat line: who heard it.
#[derive(PartialEq, Eq, Structural, Clone, Copy, Debug)]
pub enum ChatDelivery {
    /// It reached this many peers.
    Reached(usize),
    /// Nobody else was in the world.
    NobodyHere,
    /// The link was down.
    NotConnected,
    /// Someone else's line: it was delivered to the agent, not by it.
    NotApplicable,
}

/// One line of the room's chat, as the game keeps it.
pub struct ChatEntry {
    /// The relay-mapped DID of its sender; none for the system's own lines.
    pub did: Option<String>,
    /// The name it was shown under.
    pub author: String,
    pub text: String,
    pub delivery: ChatDelivery,
}

/// The room's chat, as the game keeps it: its most recent lines, and how
/// many it has ever been given.
pub struct ChatHistory {
    pub messages: Vec<ChatEntry>,
    /// Only grows, until a logout replaces the history.
    pub pushed: u64,
}

/// The views of event kinds.
pub open spec fn kind_views(events: Seq<EventKind>) -> Seq<EventKindView> {
    events.map_values(|e: EventKind| e@)
}

/// What one chat line becomes in the event log, if anything: the admin's
/// line with its words; anyone else's, delivered to the agent, as who
/// spoke; a line with no sender, or the agent's own, nothing.
pub open spec fn chat_event(entry: ChatEntry, admin: Option<Seq<char>>) -> Seq<EventKindView> {
    match entry.did {
        None => Seq::empty(),
        Some(did) => if Some(did@) == admin {
            seq![EventKindView::Chat { from_did: did@, from: entry.author@, text: entry.text@ }]
        } else if entry.delivery == ChatDelivery::NotApplicable {
            seq![EventKindView::ChatDropped { from_did: did@ }]
        } else {
            Seq::empty()
        },
    }
}

/// What the lines `entries` become in the event log, in order.
pub open spec fn chat_events(entries: Seq<ChatEntry>, admin: Option<Seq<char>>) -> Seq<
    EventKindView,
>
    decreases entries.len(),
{
    if entries.len() == 0 {
        Seq::empty()
    } else {
        chat_events(entries.drop_last(), admin) + chat_event(entries.last(), admin)
    }
}

/// Where the count of lines last seen restarts: a logout replaces the
/// history, count and all.
pub open spec fn seen_from(pushed: u64, seen: u64) -> u64 {
    if pushed < seen {
        0
    } else {
        seen
    }
}

/// The lines that arrived since `seen` of them had been: the last
/// `pushed - seen` the history still holds.
pub open spec fn arrived(chat: &ChatHistory, seen: u64) -> Seq<ChatEntry> {
    let new = chat.pushed - seen_from(chat.pushed, seen);
    let len = chat.messages@.len();
    chat.messages@.subrange(if new >= len { 0 } else { len - new }, len as int)
}

/// The admin's chat becomes `chat` events; anyone else's line becomes a
/// `chat_dropped` event that names who spoke and not a word of what they
/// said. `seen` is how many lines had been read before; it becomes how
/// many have now.
pub fn record_chat(chat: &ChatHistory, admin: Option<&str>, seen: &mut u64) -> (events: Vec<
    EventKind,
>)
    ensures
        *final(seen) == chat.pushed,
        kind_views(events@) == chat_events(
            arrived(chat, *old(seen)),
            match admin {
                Some(a) => Some(a@),
                None => None,
            },
        ),
{
    if chat.pushed < *seen {
        *seen = 0;
    }
    let new = chat.pushed - *seen;
    *seen = chat.pushed;
    let len = chat.messages.len();
    let start = if new >= len as u64 {
        0
    } else {
        len - new as usize
    };
    let admin_chars: Option<Vec<char>> = match admin {
        Some(a) => Some(chars_of(a)),
        None => None,
    };
    let ghost admin_view: Option<Seq<char>> = match admin {
        Some(a) => Some(a@),
        None => None,
    };
    let ghost lines = chat.messages@.subrange(start as int, len as int);
    let mut events: Vec<EventKind> = Vec::new();
    let mut i = start;
    while i < len
        invariant
            start <= i <= len,
            len == chat.messages@.len(),
            lines == chat.messages@.subrange(start as int, len as int),
            admin_view == match admin {
                Some(a) => Some(a@),
                None => None::<Seq<char>>,
            },
            match admin_chars {
                Some(v) => admin_view == Some(v@),
                None => admin_view is None,
            },
            kind_views(events@) == chat_events(lines.subrange(0, i - start), admin_view),
        decreases len - i,
    {
        let entry = &chat.messages[i];
        let ghost before = events@;
        proof {
            assert(lines.subrange(0, i + 1 - start).drop_last() == lines.subrange(0, i - start));
            assert(lines.subrange(0, i + 1 - start).last() == *entry);
        }
        match &entry.did {
            None => {
                assert(kind_views(events@) == chat_events(lines.subrange(0, i + 1 - start), admin_view));
            },
            Some(did) => {
                let did_chars = chars_of(did.as_str());
                let from_admin = match &admin_chars {
                    Some(a) => same_chars(&did_chars, a),
                    None => false,
                };
                if from_admin {
                    events.push(
                        EventKind::Chat {
                            from_did: did.clone(),
                            from: entry.author.clone(),
                            text: entry.text.clone(),
                        },
                    );
                    proof {
                        assert(kind_views(events@) =~= kind_views(before) + chat_event(*entry, admin_view));
                    }
                } else if entry.delivery == ChatDelivery::NotApplicable {
                    events.push(EventKind::ChatDropped { from_did: did.clone() });
                    proof {
                        assert(kind_views(events@) =~= kind_views(before) + chat_event(*entry, admin_view));
                    }
                } else {
                    assert(kind_views(events@) =~= kind_views(before) + chat_event(*entry, admin_view));
                }
            },
        }
        i = i + 1;
    }
    proof {
        assert(lines.subrange(0, len - start) == lines);
    }
    events
}

/// Whether `a` and `b` hold the same characters.
pub fn same_chars(a: &Vec<char>, b: &Vec<char>) -> (r: bool)
    ensures
        r == (a@ == b@),
{
    if a.len() != b.len() {
        return false;
    }
    let mut i: usize = 0;
    while i < a.len()
        invariant
            a@.len() == b@.len(),
            i <= a@.len(),
            forall|j: int| 0 <= j < i ==> a@[j] == b@[j],
        decreases a@.len() - i,
    {
        if a[i] != b[i] {
            return false;
        }
        i = i + 1;
    }
    assert(a@ =~= b@);
    true
}

/// A stranger's words never reach the event log: every `chat` event
/// comes from the admin, and with no admin there is none at all.
pub proof fn lemma_strangers_are_never_quoted(entries: Seq<ChatEntry>, admin: Option<Seq<char>>)
    ensures
        forall|i: int|
            0 <= i < chat_events(entries, admin).len() ==> (#[trigger] chat_events(entries, admin)[i]
                matches EventKindView::Chat { from_did, .. } ==> admin == Some(from_did)),
    decreases entries.len(),
{
    if entries.len() > 0 {
        lemma_strangers_are_never_quoted(entries.drop_last(), admin);
        let front = chat_events(entries.drop_last(), admin);
        let back = chat_event(entries.last(), admin);
        assert forall|i: int| 0 <= i < chat_events(entries, admin).len() implies (
        #[trigger] chat_events(entries, admin)[i] matches EventKindView::Chat { from_did, .. }
            ==> admin == Some(from_did)) by {
            if i >= front.len() {
                assert(chat_events(entries, admin)[i] == back[i - front.len()]);
            } else {
                assert(chat_events(entries, admin)[i] == front[i]);
            }
        }
    }
}


/// What the daemon knows of a peer: its DID and, once it lands, its
/// handle.
pub type PeerNames = (String, Option<String>);

/// [`PeerNames`], as characters.
pub open spec fn names_view(n: PeerNames) -> (Seq<char>, Option<Seq<char>>) {
    (n.0@, opt_view(n.1))
}

/// The peers the daemon has announced, by their entity's bits.
pub struct KnownPeers {
    pub peers: HashMap<u64, PeerNames>,
}

/// [`KnownPeers`], as characters.
pub open spec fn known_view(m: Map<u64, PeerNames>) -> Map<u64, (Seq<char>, Option<Seq<char>>)> {
    m.map_values(|n: PeerNames| names_view(n))
}

impl KnownPeers {
    /// Nobody announced yet.
    pub fn new() -> (k: KnownPeers)
        ensures
            k.peers@ == Map::<u64, PeerNames>::empty(),
    {
        KnownPeers { peers: HashMap::new() }
    }
}

/// A peer whose entity changed this frame: its entity's bits, and the DID
/// and handle it now carries.
pub struct PeerSeen {
    pub entity: u64,
    pub did: Option<String>,
    pub handle: Option<String>,
}

/// A [`PeerSeen`], as characters.
pub open spec fn seen_view(p: PeerSeen) -> (u64, Option<Seq<char>>, Option<Seq<char>>) {
    (p.entity, opt_view(p.did), opt_view(p.handle))
}

/// What the peers whose entities went, `gone`, make of what is known: each
/// one known leaves, named with what was learned of it, and is forgotten.
pub open spec fn leaving(
    known: Map<u64, (Seq<char>, Option<Seq<char>>)>,
    gone: Seq<u64>,
) -> (Map<u64, (Seq<char>, Option<Seq<char>>)>, Seq<EventKindView>)
    decreases gone.len(),
{
    if gone.len() == 0 {
        (known, Seq::empty())
    } else {
        let (k, ev) = leaving(known, gone.drop_last());
        let e = gone.last();
        if k.contains_key(e) {
            (k.remove(e), ev.push(EventKindView::PeerLeft { did: k[e].0, handle: k[e].1 }))
        } else {
            (k, ev)
        }
    }
}

/// What the peers seen this frame make of what is known: one that carries
/// a DID and is not known joins, and is known from then on; one known
/// keeps its DID and takes the handle it now carries; one with no DID yet
/// is nobody to name.
pub open spec fn arriving(
    known: Map<u64, (Seq<char>, Option<Seq<char>>)>,
    seen: Seq<(u64, Option<Seq<char>>, Option<Seq<char>>)>,
) -> (Map<u64, (Seq<char>, Option<Seq<char>>)>, Seq<EventKindView>)
    decreases seen.len(),
{
    if seen.len() == 0 {
        (known, Seq::empty())
    } else {
        let (k, ev) = arriving(known, seen.drop_last());
        let (e, did, handle) = seen.last();
        match did {
            None => (k, ev),
            Some(d) => if k.contains_key(e) {
                (k.insert(e, (k[e].0, handle)), ev)
            } else {
                (k.insert(e, (d, handle)), ev.push(EventKindView::PeerJoined { did: d, handle }))
            },
        }
    }
}

/// A copy of an optional string, by its view.
fn opt_copy(o: &Option<String>) -> (r: Option<String>)
    ensures
        opt_view(r) == opt_view(*o),
{
    crate::text::copy_opt(o)
}

/// A peer joins once their identity is known - a DID, which is what a peer
/// is announced by - and leaves when their entity goes, whether they
/// walked out or the agent did. `gone` are the entities that went this
/// frame, `seen` those that changed.
pub fn record_peers(known: &mut KnownPeers, gone: &Vec<u64>, seen: &Vec<PeerSeen>) -> (events: Vec<
    EventKind,
>)
    ensures
        ({
            let (k1, left) = leaving(known_view(old(known).peers@), gone@);
            let (k2, joined) = arriving(k1, seen@.map_values(|p: PeerSeen| seen_view(p)));
            &&& known_view(final(known).peers@) == k2
            &&& kind_views(events@) == left + joined
        }),
{
    broadcast use vstd::std_specs::hash::group_hash_axioms;
    let ghost start = known_view(known.peers@);
    let mut events: Vec<EventKind> = Vec::new();
    let mut i: usize = 0;
    assert(gone@.take(0) =~= Seq::<u64>::empty());
    while i < gone.len()
        invariant
            i <= gone@.len(),
            start == known_view(old(known).peers@),
            (known_view(known.peers@), kind_views(events@)) == leaving(start, gone@.take(i as int)),
        decreases gone@.len() - i,
    {
        let e = gone[i];
        assert(gone@.take(i + 1).drop_last() =~= gone@.take(i as int));
        let ghost k0 = known.peers@;
        let ghost ev0 = kind_views(events@);
        match known.peers.remove(&e) {
            Some(names) => {
                let (did, handle) = names;
                events.push(EventKind::PeerLeft { did, handle });
                assert(known_view(known.peers@) =~= known_view(k0).remove(e));
                assert(kind_views(events@) =~= ev0.push(
                    EventKindView::PeerLeft { did: known_view(k0)[e].0, handle: known_view(k0)[e].1 },
                ));
            },
            None => {
                assert(known_view(known.peers@) =~= known_view(k0));
            },
        }
        i = i + 1;
    }
    assert(gone@.take(i as int) =~= gone@);
    let ghost mid = known_view(known.peers@);
    let ghost left = kind_views(events@);
    let ghost views = seen@.map_values(|p: PeerSeen| seen_view(p));
    let mut joined: Vec<EventKind> = Vec::new();
    let mut j: usize = 0;
    assert(views.take(0) =~= Seq::<(u64, Option<Seq<char>>, Option<Seq<char>>)>::empty());
    while j < seen.len()
        invariant
            j <= seen@.len(),
            views == seen@.map_values(|p: PeerSeen| seen_view(p)),
            (known_view(known.peers@), kind_views(joined@)) == arriving(mid, views.take(j as int)),
        decreases seen@.len() - j,
    {
        let p = &seen[j];
        assert(views.take(j + 1).drop_last() =~= views.take(j as int));
        assert(views.take(j + 1).last() == seen_view(*p));
        let ghost k0 = known.peers@;
        let ghost ev0 = kind_views(joined@);
        match &p.did {
            None => {},
            Some(d) => {
                match known.peers.remove(&p.entity) {
                    Some(names) => {
                        let (did, _was) = names;
                        let handle = opt_copy(&p.handle);
                        known.peers.insert(p.entity, (did, handle));
                        assert(known_view(known.peers@) =~= known_view(k0).insert(
                            p.entity,
                            (known_view(k0)[p.entity].0, opt_view(p.handle)),
                        ));
                    },
                    None => {
                        let handle = opt_copy(&p.handle);
                        known.peers.insert(p.entity, (d.clone(), handle));
                        joined.push(
                            EventKind::PeerJoined { did: d.clone(), handle: opt_copy(&p.handle) },
                        );
                        assert(known_view(known.peers@) =~= known_view(k0).insert(
                            p.entity,
                            (d@, opt_view(p.handle)),
                        ));
                        assert(kind_views(joined@) =~= ev0.push(
                            EventKindView::PeerJoined { did: d@, handle: opt_view(p.handle) },
                        ));
                    },
                }
            },
        }
        j = j + 1;
    }
    assert(views.take(j as int) =~= views);
    let ghost joined_views = kind_views(joined@);
    let mut k: usize = 0;
    let ghost before_all = events@;
    while k < joined.len()
        invariant
            k <= joined@.len(),
            kind_views(events@) == left + joined_views.take(k as int),
            joined_views == kind_views(joined@),
        decreases joined@.len() - k,
    {
        let ghost ev0 = kind_views(events@);
        let c = joined[k].copy();
        assert(c@ == joined_views[k as int]);
        events.push(c);
        assert(kind_views(events@) =~= ev0.push(joined_views[k as int]));
        assert(joined_views.take(k + 1) =~= joined_views.take(k as int).push(joined_views[k as int]));
        assert(kind_views(events@) =~= left + joined_views.take(k + 1));
        k = k + 1;
    }
    assert(joined_views.take(k as int) =~= joined_views);
    events
}


/// A peer that went is forgotten: none of the entities that went is known
/// after their leaving.
pub proof fn lemma_gone_are_forgotten(
    known: Map<u64, (Seq<char>, Option<Seq<char>>)>,
    gone: Seq<u64>,
)
    ensures
        forall|i: int| 0 <= i < gone.len() ==> !leaving(known, gone).0.contains_key(#[trigger] gone[i]),
    decreases gone.len(),
{
    if gone.len() > 0 {
        lemma_gone_are_forgotten(known, gone.drop_last());
        assert forall|i: int| 0 <= i < gone.len() implies !leaving(known, gone).0.contains_key(
            #[trigger] gone[i],
        ) by {
            if i < gone.len() - 1 {
                assert(gone[i] == gone.drop_last()[i]);
            }
        }
    }
}

/// A peer is announced once: seeing peers that are all known already
/// announces nobody, and leaves every one of them known.
pub proof fn lemma_known_peers_join_once(
    known: Map<u64, (Seq<char>, Option<Seq<char>>)>,
    seen: Seq<(u64, Option<Seq<char>>, Option<Seq<char>>)>,
)
    requires
        forall|i: int| 0 <= i < seen.len() ==> known.contains_key(#[trigger] seen[i].0),
    ensures
        arriving(known, seen).1 == Seq::<EventKindView>::empty(),
        arriving(known, seen).0.dom() == known.dom(),
    decreases seen.len(),
{
    if seen.len() > 0 {
        let front = seen.drop_last();
        assert forall|i: int| 0 <= i < front.len() implies known.contains_key(#[trigger] front[i].0) by {
            assert(front[i] == seen[i]);
        }
        lemma_known_peers_join_once(known, front);
        let k = arriving(known, front).0;
        assert(k.contains_key(seen.last().0));
        assert(k.insert(seen.last().0, (k[seen.last().0].0, seen.last().2)).dom() =~= k.dom());
    }
}


/// A peer not known yet, seen with DID `d` and handle `h`, joins as
/// exactly that - `d` and `h` - and is known by them from then on.
pub proof fn lemma_a_join_names_what_was_seen(
    known: Map<u64, (Seq<char>, Option<Seq<char>>)>,
    e: u64,
    d: Seq<char>,
    h: Option<Seq<char>>,
)
    requires
        !known.contains_key(e),
    ensures
        arriving(known, seq![(e, Some(d), h)]) == (
            known.insert(e, (d, h)),
            seq![EventKindView::PeerJoined { did: d, handle: h }],
        ),
{
    let seen = seq![(e, Some(d), h)];
    assert(seen.drop_last() =~= Seq::<(u64, Option<Seq<char>>, Option<Seq<char>>)>::empty());
    assert(arriving(known, seen.drop_last()) == (known, Seq::<EventKindView>::empty()));
    assert(seen.last() == (e, Some(d), h));
    assert(arriving(known, seen).0 == known.insert(e, (d, h)));
    assert(arriving(known, seen).1 =~= seq![EventKindView::PeerJoined { did: d, handle: h }]);
}

/// A peer already known, seen again, is not announced: it keeps the DID
/// it joined with and takes the handle it is now seen with.
pub proof fn lemma_a_known_peer_takes_its_new_handle(
    known: Map<u64, (Seq<char>, Option<Seq<char>>)>,
    e: u64,
    d: Seq<char>,
    h: Option<Seq<char>>,
)
    requires
        known.contains_key(e),
    ensures
        arriving(known, seq![(e, Some(d), h)]) == (
            known.insert(e, (known[e].0, h)),
            Seq::<EventKindView>::empty(),
        ),
{
    let seen = seq![(e, Some(d), h)];
    assert(seen.drop_last() =~= Seq::<(u64, Option<Seq<char>>, Option<Seq<char>>)>::empty());
    assert(arriving(known, seen.drop_last()) == (known, Seq::<EventKindView>::empty()));
    assert(seen.last() == (e, Some(d), h));
}

/// A known peer whose entity went leaves, named with the DID and handle it
/// was known by, and is known no more.
pub proof fn lemma_a_leave_names_what_was_known(known: Map<u64, (Seq<char>, Option<Seq<char>>)>, e: u64)
    requires
        known.contains_key(e),
    ensures
        leaving(known, seq![e]) == (
            known.remove(e),
            seq![EventKindView::PeerLeft { did: known[e].0, handle: known[e].1 }],
        ),
{
    let gone = seq![e];
    assert(gone.drop_last() =~= Seq::<u64>::empty());
    assert(leaving(known, gone.drop_last()) == (known, Seq::<EventKindView>::empty()));
    assert(gone.last() == e);
    assert(leaving(known, gone).1 =~= seq![
        EventKindView::PeerLeft { did: known[e].0, handle: known[e].1 },
    ]);
}

/// Every peer announced as joining is announced with a DID and a handle it
/// was seen with together, and only peers seen with a DID join.
pub proof fn lemma_joins_name_what_was_seen(
    known: Map<u64, (Seq<char>, Option<Seq<char>>)>,
    seen: Seq<(u64, Option<Seq<char>>, Option<Seq<char>>)>,
)
    ensures
        forall|j: int| 0 <= j < arriving(known, seen).1.len() ==> {
            let ev = #[trigger] arriving(known, seen).1[j];
            ev matches EventKindView::PeerJoined { did, handle } && exists|i: int|
                0 <= i < seen.len() && seen[i].1 == Some(did) && seen[i].2 == handle
        },
    decreases seen.len(),
{
    if seen.len() > 0 {
        let front = seen.drop_last();
        lemma_joins_name_what_was_seen(known, front);
        let (k, ev0) = arriving(known, front);
        let ev = arriving(known, seen).1;
        let n = seen.len() - 1;
        assert forall|j: int| 0 <= j < ev.len() implies {
            let x = #[trigger] ev[j];
            x matches EventKindView::PeerJoined { did, handle } && exists|i: int|
                0 <= i < seen.len() && seen[i].1 == Some(did) && seen[i].2 == handle
        } by {
            if j < ev0.len() {
                assert(ev[j] == ev0[j]);
                let x = ev0[j];
                if let EventKindView::PeerJoined { did, handle } = x {
                    let i = choose|i: int|
                        0 <= i < front.len() && front[i].1 == Some(did) && front[i].2 == handle;
                    assert(seen[i] == front[i]);
                }
            } else {
                assert(seen[n].1 is Some);
                assert(ev[j] == EventKindView::PeerJoined { did: seen[n].1->0, handle: seen[n].2 });
            }
        }
    }
}

/// How an answer says a line of the agent's was delivered.
pub open spec fn delivery_model(d: ChatDelivery) -> Json {
    match d {
        ChatDelivery::Reached(n) => Json::Object(
            seq![("reached"@, Json::Number(JsonNumber::PosInt(n as u64)))],
        ),
        ChatDelivery::NobodyHere => Json::Str("nobody_here"@),
        ChatDelivery::NotConnected => Json::Str("not_connected"@),
        ChatDelivery::NotApplicable => Json::Null,
    }
}

/// How an answer says a line of the agent's was delivered: to how many,
/// to nobody, or not at all.
pub fn delivery_word(d: ChatDelivery) -> (v: JsonValue)
    ensures
        v.model() == delivery_model(d),
{
    match d {
        ChatDelivery::Reached(n) => {
            let members = vec![("reached".to_owned(), JsonValue::Number(JsonNumber::PosInt(n as u64)))];
            proof {
                crate::json::lemma_member_models(members@);
            }
            assert(crate::json::member_models(members@) =~= seq![
                ("reached"@, Json::Number(JsonNumber::PosInt(n as u64))),
            ]);
            JsonValue::Object(members)
        },
        ChatDelivery::NobodyHere => JsonValue::String("nobody_here".to_owned()),
        ChatDelivery::NotConnected => JsonValue::String("not_connected".to_owned()),
        ChatDelivery::NotApplicable => JsonValue::Null,
    }
}

} // verus!
