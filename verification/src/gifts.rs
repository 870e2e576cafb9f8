//! Gift offers: sorting each offer to the agent the moment it lands, and
//! answering one.
//!
//! The agent takes gifts from its admin only: anyone else's offer is
//! declined the moment it lands, before its item's name is read; the
//! admin's is reported, to be accepted or declined. An offer the agent
//! never answered that goes away - its time ran out, or its sender was
//! muted - is said to have closed.
use vstd::prelude::*;
use crate::config::MAX_INVENTORY_ITEMS;
use crate::edit::EditProfile;
use crate::observe::same_chars;
use crate::text::{chars_of, decimal, decimal_spec, joined};
use crate::events::{EventKind, EventKindView};
use crate::observe::kind_views;

verus! {

broadcast use vstd::string::group_string_axioms;

/// An offer - its sender and its number - as characters.
pub type OfferKey = (Seq<char>, u64);

/// The offer on hand, as the daemon has sorted it.
pub struct OfferWatch {
    /// The offer sorted last - its sender and id - and whether it was the
    /// admin's, reported rather than declined.
    pub seen: Option<(String, u64, bool)>,
    /// The offer the agent answered itself, whose going away is no news.
    pub answered: Option<(String, u64)>,
}

/// An [`OfferWatch`], as characters.
pub struct OfferWatchView {
    pub seen: Option<(Seq<char>, u64, bool)>,
    pub answered: Option<OfferKey>,
}

impl View for OfferWatch {
    type V = OfferWatchView;

    open spec fn view(&self) -> OfferWatchView {
        OfferWatchView {
            seen: match self.seen {
                Some((d, i, r)) => Some((d@, i, r)),
                None => None,
            },
            answered: match self.answered {
                Some((d, i)) => Some((d@, i)),
                None => None,
            },
        }
    }
}

impl OfferWatch {
    /// A watch with nothing sorted yet.
    pub fn new() -> (w: OfferWatch)
        ensures
            w@.seen is None,
            w@.answered is None,
    {
        OfferWatch { seen: None, answered: None }
    }
}

/// What becomes of an offer that has just landed.
#[derive(PartialEq, Eq, Structural, Clone, Copy, Debug)]
pub enum Arrival {
    /// No offer landed.
    Nothing,
    /// The admin's: a `gift_offered` event, and it waits for an answer.
    Report,
    /// Anyone else's: declined at once, unread, and a `gift_declined` event.
    Decline,
}

/// What one sorting decided: an offer that went away unanswered, to be
/// said closed, and what becomes of one that landed.
pub struct OfferSorting {
    pub closed: Option<(String, u64)>,
    pub arrival: Arrival,
    /// The events the sorting gives, in order: the closing of the offer
    /// that went away, then the report or the decline of the one that
    /// landed.
    pub events: Vec<EventKind>,
}

/// An offer to the agent, as the game raises it: who sent it and under
/// what name, its number, and what it offers - the item's name and kind,
/// whether it can be worn, and the whole seconds left to answer it.
pub struct IncomingOffer {
    pub sender_did: String,
    pub sender_label: String,
    pub offer_id: u64,
    pub item_name: String,
    pub item_kind: String,
    pub wearable: bool,
    pub answer_within_s: u64,
}

/// An incoming offer's sender and number, as characters.
pub open spec fn incoming_key(o: Option<&IncomingOffer>) -> Option<OfferKey> {
    match o {
        Some(x) => Some((x.sender_did@, x.offer_id)),
        None => None,
    }
}

/// The `gift_offered` event for the admin's offer `o`.
pub open spec fn offered_view(o: &IncomingOffer) -> EventKindView {
    EventKindView::GiftOffered {
        offer_id: o.offer_id,
        from_did: o.sender_did@,
        from: o.sender_label@,
        item: o.item_name@,
        item_kind: o.item_kind@,
        wearable: o.wearable,
        answer_within_s: o.answer_within_s,
    }
}

/// The events a sorting gives: `gift_offer_closed` for the offer that went
/// away unanswered; then `gift_offered` for the admin's offer that landed,
/// with what it offers, or `gift_declined` for anyone else's, naming only
/// who sent it.
pub open spec fn sorting_events(want: SortingView, current: Option<&IncomingOffer>) -> Seq<
    EventKindView,
> {
    (match want.closed {
        Some((d, i)) => seq![EventKindView::GiftOfferClosed { offer_id: i, from_did: d }],
        None => Seq::empty(),
    }) + match (want.arrival, current) {
        (Arrival::Report, Some(o)) => seq![offered_view(o)],
        (Arrival::Decline, Some(o)) => seq![EventKindView::GiftDeclined { from_did: o.sender_did@ }],
        _ => Seq::empty(),
    }
}

/// The sorting's decision and the watch it leaves, as characters.
pub struct SortingView {
    pub watch: OfferWatchView,
    pub closed: Option<OfferKey>,
    pub arrival: Arrival,
}

/// How `current` - the offer on hand, if any - is sorted against `watch`,
/// for an agent whose admin is `admin`.
///
/// The offer sorted last is forgotten once it is no longer on hand; it is
/// said to have closed if it was the admin's and the agent never answered
/// it. An offer on hand and not yet sorted is reported if it is the
/// admin's, and declined - and so answered - otherwise.
pub open spec fn sort_spec(
    watch: OfferWatchView,
    current: Option<OfferKey>,
    admin: Option<Seq<char>>,
) -> SortingView {
    let (seen1, answered1, closed) = match watch.seen {
        Some((d, i, reported)) => if current == Some((d, i)) {
            (Some((d, i, reported)), watch.answered, None::<OfferKey>)
        } else {
            (
                None::<(Seq<char>, u64, bool)>,
                None::<OfferKey>,
                if reported && watch.answered != Some((d, i)) {
                    Some((d, i))
                } else {
                    None
                },
            )
        },
        None => (None, watch.answered, None),
    };
    match current {
        Some((d, i)) => if seen1 is None {
            let from_admin = admin == Some(d);
            SortingView {
                watch: OfferWatchView {
                    seen: Some((d, i, from_admin)),
                    answered: if from_admin {
                        answered1
                    } else {
                        Some((d, i))
                    },
                },
                closed,
                arrival: if from_admin {
                    Arrival::Report
                } else {
                    Arrival::Decline
                },
            }
        } else {
            SortingView {
                watch: OfferWatchView { seen: seen1, answered: answered1 },
                closed,
                arrival: Arrival::Nothing,
            }
        },
        None => SortingView {
            watch: OfferWatchView { seen: seen1, answered: answered1 },
            closed,
            arrival: Arrival::Nothing,
        },
    }
}

/// Whether `a` and `b` hold the same characters.
fn same_str(a: &str, b: &str) -> (r: bool)
    ensures
        r == (a@ == b@),
{
    let x = chars_of(a);
    let y = chars_of(b);
    same_chars(&x, &y)
}

/// The optional string's characters.
pub open spec fn opt_str_view(o: Option<&str>) -> Option<Seq<char>> {
    match o {
        Some(s) => Some(s@),
        None => None,
    }
}

/// The optional offer's sender's characters and its number.
pub open spec fn offer_view(o: Option<(&str, u64)>) -> Option<OfferKey> {
    match o {
        Some((d, i)) => Some((d@, i)),
        None => None,
    }
}

/// The sender of an offer, if there is one.
pub open spec fn offer_sender(o: Option<OfferKey>) -> Option<Seq<char>> {
    match o {
        Some((d, _)) => Some(d),
        None => None,
    }
}

/// Sort the offer on hand, `current`, as it lands: the admin's is
/// reported, anyone else's is declined unread. And when an offer the
/// agent never answered goes away, say so.
pub fn sort_offers(watch: &mut OfferWatch, current: Option<&IncomingOffer>, admin: Option<&str>) -> (s:
    OfferSorting)
    ensures
        ({
            let want = sort_spec(old(watch)@, incoming_key(current), opt_str_view(admin));
            &&& final(watch)@ == want.watch
            &&& s.arrival == want.arrival
            &&& match s.closed {
                Some((d, i)) => want.closed == Some((d@, i)),
                None => want.closed is None,
            }
            &&& kind_views(s.events@) == sorting_events(want, current)
        }),
        // A stranger's offer is never reported, and the admin's never declined.
        s.arrival == Arrival::Report ==> (offer_sender(incoming_key(current)) is Some
            && offer_sender(incoming_key(current)) == opt_str_view(admin)),
        s.arrival == Arrival::Decline ==> (offer_sender(incoming_key(current)) is Some
            && offer_sender(incoming_key(current)) != opt_str_view(admin)),
{
    let mut closed: Option<(String, u64)> = None;
    let mut events: Vec<EventKind> = Vec::new();
    match watch.seen.take() {
        Some((did, id, reported)) => {
            let still_here = match current {
                Some(o) => o.offer_id == id && same_str(o.sender_did.as_str(), did.as_str()),
                None => false,
            };
            if still_here {
                watch.seen = Some((did, id, reported));
            } else {
                let answered = match watch.answered.take() {
                    Some((ad, ai)) => ai == id && same_str(ad.as_str(), did.as_str()),
                    None => false,
                };
                if reported && !answered {
                    events.push(EventKind::GiftOfferClosed { offer_id: id, from_did: did.clone() });
                    closed = Some((did, id));
                }
            }
        },
        None => {},
    }
    let ghost closing = kind_views(events@);
    let arrival = match current {
        Some(o) => if watch.seen.is_none() {
            let did = o.sender_did.as_str();
            let from_admin = match admin {
                Some(a) => same_str(a, did),
                None => false,
            };
            if !from_admin {
                watch.answered = Some((did.to_owned(), o.offer_id));
            }
            watch.seen = Some((did.to_owned(), o.offer_id, from_admin));
            if from_admin {
                events.push(
                    EventKind::GiftOffered {
                        offer_id: o.offer_id,
                        from_did: o.sender_did.clone(),
                        from: o.sender_label.clone(),
                        item: o.item_name.clone(),
                        item_kind: o.item_kind.clone(),
                        wearable: o.wearable,
                        answer_within_s: o.answer_within_s,
                    },
                );
                assert(kind_views(events@) =~= closing.push(offered_view(o)));
                Arrival::Report
            } else {
                events.push(EventKind::GiftDeclined { from_did: o.sender_did.clone() });
                assert(kind_views(events@) =~= closing.push(
                    EventKindView::GiftDeclined { from_did: o.sender_did@ },
                ));
                Arrival::Decline
            }
        } else {
            Arrival::Nothing
        },
        None => Arrival::Nothing,
    };
    let ghost want = sort_spec(old(watch)@, incoming_key(current), opt_str_view(admin));
    assert(kind_views(events@) =~= sorting_events(want, current));
    OfferSorting { closed, arrival, events }
}

/// Why an offer sent to another player was turned down.
#[derive(PartialEq, Eq, Structural, Clone, Copy, Debug)]
pub enum DeclineReason {
    Declined,
    Busy,
    Unavailable,
    Unanswered,
}

/// How an offer the agent sent was answered.
#[derive(PartialEq, Eq, Structural, Clone, Copy, Debug)]
pub enum OfferOutcome {
    Accepted,
    Declined(DeclineReason),
    NoAnswer,
}

/// The word a `gift_answered` event gives an outcome.
pub open spec fn answer_word_spec(outcome: OfferOutcome) -> Seq<char> {
    match outcome {
        OfferOutcome::Accepted => "accepted"@,
        OfferOutcome::Declined(DeclineReason::Declined) => "declined"@,
        OfferOutcome::Declined(DeclineReason::Busy) => "busy"@,
        OfferOutcome::Declined(DeclineReason::Unavailable) => "unavailable"@,
        OfferOutcome::Declined(DeclineReason::Unanswered) => "unanswered"@,
        OfferOutcome::NoAnswer => "no_answer"@,
    }
}

/// Whether an answer to a gift the agent offered took it, and the word the
/// `gift_answered` event gives the answer.
pub fn answer_word(outcome: OfferOutcome) -> (r: (bool, &'static str))
    ensures
        r.0 == (outcome == OfferOutcome::Accepted),
        r.1@ == answer_word_spec(outcome),
{
    match outcome {
        OfferOutcome::Accepted => (true, "accepted"),
        OfferOutcome::Declined(reason) => (
            false,
            match reason {
                DeclineReason::Declined => "declined",
                DeclineReason::Busy => "busy",
                DeclineReason::Unavailable => "unavailable",
                DeclineReason::Unanswered => "unanswered",
            },
        ),
        OfferOutcome::NoAnswer => (false, "no_answer"),
    }
}

/// How the agent answers an offer.
#[derive(PartialEq, Eq, Structural, Clone, Copy, Debug)]
pub enum OfferAnswer {
    /// Take it, and save the inventory at once when `publish`.
    Accept { publish: bool },
    Decline,
}

/// What `agent gift accept|decline offer_id` answers the offer on hand,
/// `offer`, with - or why it cannot: the offer on hand must be that one,
/// and the admin's; accepting needs the inventory loaded and not full.
/// `held` is how many items the inventory holds, when it has loaded.
pub open spec fn respond_spec(
    offer: Option<OfferKey>,
    admin: Option<Seq<char>>,
    offer_id: u64,
    accept: bool,
    held: Option<usize>,
    profile: EditProfile,
) -> Option<OfferAnswer> {
    match offer {
        Some((d, i)) => if i == offer_id && admin == Some(d) {
            if accept {
                match held {
                    Some(h) => if h >= MAX_INVENTORY_ITEMS {
                        None
                    } else {
                        Some(
                            OfferAnswer::Accept {
                                publish: !profile.offline && profile.allow_save,
                            },
                        )
                    },
                    None => None,
                }
            } else {
                Some(OfferAnswer::Decline)
            }
        } else {
            None
        },
        None => None,
    }
}

/// Why `agent gift accept|decline offer_id` is refused, when it is: the
/// offer waiting is not that one, or not the admin's; or, accepting, the
/// inventory has not loaded or is full.
pub open spec fn respond_refusal(
    offer: Option<OfferKey>,
    admin: Option<Seq<char>>,
    offer_id: u64,
    held: Option<usize>,
) -> Seq<char> {
    let waiting = match offer {
        Some((d, i)) => i == offer_id && admin == Some(d),
        None => false,
    };
    if !waiting {
        "no gift offer "@ + decimal_spec(offer_id as nat)
            + " is waiting; `agent status` shows the one that is"@
    } else {
        match held {
            None => "the agent's inventory has not loaded yet; the offer still waits"@,
            Some(h) => "the inventory is full ("@ + decimal_spec(h as nat) + " of "@ + decimal_spec(
                MAX_INVENTORY_ITEMS as nat,
            ) + "); `agent unstash` something first, or decline - the offer still waits"@,
        }
    }
}

/// Accept or decline the admin's offer `offer_id`: the answer to give it,
/// or why it cannot be given. A refusal leaves the offer waiting.
pub fn respond(
    offer: Option<(&str, u64)>,
    admin: Option<&str>,
    offer_id: u64,
    accept: bool,
    held: Option<usize>,
    profile: EditProfile,
) -> (res: Result<OfferAnswer, String>)
    ensures
        match res {
            Ok(a) => respond_spec(offer_view(offer), opt_str_view(admin), offer_id, accept, held, profile)
                == Some(a),
            Err(e) => respond_spec(offer_view(offer), opt_str_view(admin), offer_id, accept, held, profile)
                is None && e@ == respond_refusal(offer_view(offer), opt_str_view(admin), offer_id, held),
        },
{
    let waiting = match (offer, admin) {
        (Some((did, id)), Some(a)) => id == offer_id && same_str(did, a),
        _ => false,
    };
    if !waiting {
        let n = decimal(offer_id);
        let a = joined("no gift offer ", n.as_str());
        return Err(joined(a.as_str(), " is waiting; `agent status` shows the one that is"));
    }
    if accept {
        let held = match held {
            Some(h) => h,
            None => {
                return Err(
                    "the agent's inventory has not loaded yet; the offer still waits".to_owned(),
                );
            },
        };
        if held >= MAX_INVENTORY_ITEMS {
            let h = decimal(held as u64);
            let m = decimal(MAX_INVENTORY_ITEMS as u64);
            let a = joined("the inventory is full (", h.as_str());
            let b = joined(a.as_str(), " of ");
            let c = joined(b.as_str(), m.as_str());
            return Err(
                joined(
                    c.as_str(),
                    "); `agent unstash` something first, or decline - the offer still waits",
                ),
            );
        }
        Ok(OfferAnswer::Accept { publish: profile.save_refused().is_none() })
    } else {
        Ok(OfferAnswer::Decline)
    }
}


impl OfferWatch {
    /// The agent answered the offer `offer_id` from `did` itself: its going
    /// away is no news.
    pub fn mark_answered(&mut self, did: String, offer_id: u64)
        ensures
            final(self)@.seen == old(self)@.seen,
            final(self)@.answered == Some((did@, offer_id)),
    {
        self.answered = Some((did, offer_id));
    }
}

/// An offer the agent answered itself is never said to have closed when
/// it goes away.
pub proof fn lemma_answered_offer_never_closed(
    watch: OfferWatchView,
    current: Option<OfferKey>,
    admin: Option<Seq<char>>,
)
    requires
        watch.seen matches Some((d, i, _)) && watch.answered == Some((d, i)),
    ensures
        sort_spec(watch, current, admin).closed is None,
{
}

/// Once sorted, an offer still on hand is sorted no more: no second
/// report, no second decline.
pub proof fn lemma_sorted_once(watch: OfferWatchView, d: Seq<char>, i: u64, admin: Option<Seq<char>>)
    requires
        watch.seen matches Some((sd, si, _)) && sd == d && si == i,
    ensures
        sort_spec(watch, Some((d, i)), admin).arrival == Arrival::Nothing,
        sort_spec(watch, Some((d, i)), admin).watch == watch,
        sort_spec(watch, Some((d, i)), admin).closed is None,
{
}

/// Where a gift the agent gives comes from.
#[derive(PartialEq, Eq, Structural, Clone, Copy, Debug)]
pub enum GiftSource {
    /// An item of the agent's inventory, by its name.
    Inventory,
    /// A catalogue entry, by its slug.
    Catalogue,
}

impl GiftSource {
    /// The word an answer gives the source.
    pub fn word(self) -> (w: &'static str)
        ensures
            w@ == (match self {
                GiftSource::Inventory => "inventory"@,
                GiftSource::Catalogue => "catalogue"@,
            }),
    {
        match self {
            GiftSource::Inventory => "inventory",
            GiftSource::Catalogue => "catalogue",
        }
    }
}

/// What `agent gift give` finds before it looks for the item: whether the
/// agent is signed in; whether `to_did` is a player in the world, and if so
/// why a gift cannot go to them, if it cannot; whether an offer to them
/// still waits; whether the inventory holds an item of that name.
pub open spec fn give_spec(
    signed_in: bool,
    present: bool,
    blocked: Option<Seq<char>>,
    waiting: bool,
    in_inventory: bool,
    to_did: Seq<char>,
) -> Result<GiftSource, Seq<char>> {
    if !signed_in {
        Err("the agent is not signed in"@)
    } else if !present {
        Err(to_did + " is not in this world; `agent status` lists who is"@)
    } else if blocked is Some {
        Err("the gift cannot go to them: "@ + blocked->0)
    } else if waiting {
        Err("an offer to them is still waiting for their answer; `agent events` says when it comes"@)
    } else if in_inventory {
        Ok(GiftSource::Inventory)
    } else {
        Ok(GiftSource::Catalogue)
    }
}

/// Whether a gift may go to `to_did`, and from where: refused unless the
/// agent is signed in, they are in the world, nothing blocks a gift to
/// them, and no earlier offer to them still waits; from the inventory when
/// it holds an item of that name, the catalogue otherwise.
pub fn give_decision(
    signed_in: bool,
    present: bool,
    blocked: Option<&str>,
    waiting: bool,
    in_inventory: bool,
    to_did: &str,
) -> (r: Result<GiftSource, String>)
    ensures
        match give_spec(signed_in, present, opt_str_view(blocked), waiting, in_inventory, to_did@) {
            Ok(s) => r == Ok::<GiftSource, String>(s),
            Err(m) => r matches Err(e) && e@ == m,
        },
{
    if !signed_in {
        return Err("the agent is not signed in".to_owned());
    }
    if !present {
        return Err(joined(to_did, " is not in this world; `agent status` lists who is"));
    }
    match blocked {
        Some(reason) => {
            return Err(joined("the gift cannot go to them: ", reason));
        },
        None => {},
    }
    if waiting {
        return Err(
            "an offer to them is still waiting for their answer; `agent events` says when it comes".to_owned(),
        );
    }
    if in_inventory {
        Ok(GiftSource::Inventory)
    } else {
        Ok(GiftSource::Catalogue)
    }
}

/// The `gift_answered` event for an answer to an offer the agent made.
pub fn answer_event(offer_id: u64, to_did: String, outcome: OfferOutcome) -> (e: EventKind)
    ensures
        e@ == (EventKindView::GiftAnswered {
            offer_id,
            to_did: to_did@,
            accepted: outcome == OfferOutcome::Accepted,
            answer: answer_word_spec(outcome),
        }),
{
    let (accepted, word) = answer_word(outcome);
    EventKind::GiftAnswered { offer_id, to_did, accepted, answer: word.to_owned() }
}

/// An offer that lands while none is on hand gives exactly one event: a
/// stranger's, `gift_declined` naming the sender and nothing of what was
/// offered; the admin's, `gift_offered` with what it offers.
pub proof fn lemma_one_event_per_landed_offer(
    watch: OfferWatchView,
    o: &IncomingOffer,
    admin: Option<Seq<char>>,
)
    requires
        watch.seen is None,
    ensures
        ({
            let want = sort_spec(watch, incoming_key(Some(o)), admin);
            &&& admin != Some(o.sender_did@) ==> want.arrival == Arrival::Decline
                && sorting_events(want, Some(o)) == seq![
                EventKindView::GiftDeclined { from_did: o.sender_did@ },
            ]
            &&& admin == Some(o.sender_did@) ==> want.arrival == Arrival::Report
                && sorting_events(want, Some(o)) == seq![offered_view(o)]
        }),
{
    let want = sort_spec(watch, incoming_key(Some(o)), admin);
    assert(want.closed is None);
    if admin != Some(o.sender_did@) {
        assert(sorting_events(want, Some(o)) =~= seq![
            EventKindView::GiftDeclined { from_did: o.sender_did@ },
        ]);
    } else {
        assert(sorting_events(want, Some(o)) =~= seq![offered_view(o)]);
    }
}

/// A sorting that reports the offer on hand, `o`, says what `o` offers and
/// nothing else: its last event is `gift_offered` with `o`'s number, its
/// sender's DID and label, the item's name and kind, whether it is worn,
/// and how long it waits for an answer.
pub proof fn lemma_report_repeats_the_offer(
    watch: OfferWatchView,
    o: &IncomingOffer,
    admin: Option<Seq<char>>,
)
    ensures
        ({
            let want = sort_spec(watch, incoming_key(Some(o)), admin);
            want.arrival == Arrival::Report ==> sorting_events(want, Some(o)).last() == (
            EventKindView::GiftOffered {
                offer_id: o.offer_id,
                from_did: o.sender_did@,
                from: o.sender_label@,
                item: o.item_name@,
                item_kind: o.item_kind@,
                wearable: o.wearable,
                answer_within_s: o.answer_within_s,
            })
        }),
{
}

} // verus!
