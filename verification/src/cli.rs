//! The checks the agent's command line makes of what it is given: a PDS
//! URL, a relay host, an account name and a world's DID.
use vstd::prelude::*;
use crate::config::{DEFAULT_PDS, DEFAULT_RELAY_HOST};
use crate::protocol::{EditRecord, UnsavedEdits};
use crate::text::{
    chars_of, contains_seq, debug_quoted, has_infix, has_prefix, joined, quoted, slice_of, starts_with, string_of,
    trim, trim_end_char, trim_start_char, trimmed, trimmed_end_char, trimmed_start_char, drop_end_while,
    drop_start_while, is_char, is_ws, ws, lemma_drop_end_shape, lemma_drop_start_shape,
};

verus! {

broadcast use vstd::string::group_string_axioms;

/// `://`
pub open spec fn scheme_mark() -> Seq<char> {
    seq![':', '/', '/']
}

/// `https://`
pub open spec fn https_scheme() -> Seq<char> {
    seq!['h', 't', 't', 'p', 's', ':', '/', '/']
}

/// `http://`
pub open spec fn http_scheme() -> Seq<char> {
    seq!['h', 't', 't', 'p', ':', '/', '/']
}

/// What `--pds` makes of `raw`: a URL, or nothing for a refusal.
pub open spec fn pds_url_spec(raw: Seq<char>) -> Option<Seq<char>> {
    let t = trim_end_char(trim(raw), '/');
    if t.len() == 0 {
        None
    } else if !contains_seq(t, scheme_mark()) {
        Some(https_scheme() + t)
    } else if starts_with(t, https_scheme()) || starts_with(t, http_scheme()) {
        Some(t)
    } else {
        None
    }
}

/// A URL `--pds` has made of its input comes through a second time as it
/// is - unless it ends in whitespace, which the second reading trims (as
/// from `host /`, where the slash went first and the space stayed).
pub proof fn lemma_pds_url_settles(raw: Seq<char>)
    requires
        pds_url_spec(raw) is Some,
        !is_ws(pds_url_spec(raw)->0.last()),
    ensures
        pds_url_spec(pds_url_spec(raw)->0) == pds_url_spec(raw),
{
    let u = trim(raw);
    let t = trim_end_char(u, '/');
    let s = pds_url_spec(raw)->0;
    lemma_drop_end_shape(raw, ws());
    lemma_drop_start_shape(drop_end_while(raw, ws()), ws());
    lemma_drop_end_shape(u, is_char('/'));
    assert(t.len() > 0);
    assert(t[0] == u[0]);
    assert(!is_ws(t[0]));
    assert(t.last() != '/');
    if !contains_seq(t, scheme_mark()) {
        assert(s == https_scheme() + t);
        assert(s.last() == t.last());
        assert(s[0] == 'h');
        assert(s.subrange(5, 5 + scheme_mark().len() as int) == scheme_mark());
        assert(contains_seq(s, scheme_mark()));
        assert(s.subrange(0, 8) == https_scheme());
        assert(starts_with(s, https_scheme()));
    } else {
        assert(s == t);
    }
    assert(!ws()(s.last()));
    assert(!ws()(s[0]));
    assert(drop_end_while(s, ws()) == s);
    assert(drop_start_while(s, ws()) == s);
    assert(trim(s) == s);
    assert(!is_char('/')(s.last()));
    assert(trim_end_char(s, '/') == s);
    assert(trim_end_char(trim(s), '/') == s);
}

/// `--pds`: an http(s) URL. A bare host is unambiguous, so it gets
/// `https://` rather than an error.
pub fn pds_url(raw: &str) -> (res: Result<String, String>)
    ensures
        res is Ok <==> pds_url_spec(raw@) is Some,
        res is Ok ==> res->Ok_0@ == pds_url_spec(raw@)->0,
        res is Err ==> res->Err_0@ == ({
            let t = trim_end_char(trim(raw@), '/');
            if t.len() == 0 {
                "empty; the default is "@ + DEFAULT_PDS@
            } else {
                debug_quoted(t) + " is not an http(s):// URL"@
            }
        }),
{
    let all = chars_of(raw);
    let t0 = trimmed(&all);
    let t = trimmed_end_char(&t0, '/');
    if t.len() == 0 {
        return Err(joined("empty; the default is ", DEFAULT_PDS));
    }
    let mark = vec![':', '/', '/'];
    let https = vec!['h', 't', 't', 'p', 's', ':', '/', '/'];
    let http = vec!['h', 't', 't', 'p', ':', '/', '/'];
    assert(mark@ == scheme_mark());
    assert(https@ == https_scheme());
    assert(http@ == http_scheme());
    if !has_infix(&t, &mark) {
        let mut url = https;
        let mut i: usize = 0;
        while i < t.len()
            invariant
                i <= t@.len(),
                url@ == https_scheme() + t@.subrange(0, i as int),
            decreases t@.len() - i,
        {
            url.push(t[i]);
            i = i + 1;
            assert(url@ == https_scheme() + t@.subrange(0, i as int));
        }
        assert(t@.subrange(0, t@.len() as int) == t@);
        return Ok(string_of(&url));
    }
    if has_prefix(&t, &https) || has_prefix(&t, &http) {
        return Ok(string_of(&t));
    }
    let shown = string_of(&t);
    Err(joined(quoted(shown.as_str()).as_str(), " is not an http(s):// URL"))
}

/// `s` without `p` at its start, when it starts with `p`.
pub open spec fn strip_prefix(s: Seq<char>, p: Seq<char>) -> Seq<char> {
    if starts_with(s, p) {
        s.subrange(p.len() as int, s.len() as int)
    } else {
        s
    }
}

/// `wss://`
pub open spec fn wss_scheme() -> Seq<char> {
    seq!['w', 's', 's', ':', '/', '/']
}

/// `ws://`
pub open spec fn ws_scheme() -> Seq<char> {
    seq!['w', 's', ':', '/', '/']
}

/// `raw` trimmed, each of the schemes `wss://`, `ws://`, `https://` and
/// `http://` cut from its start in turn, and its trailing slashes cut.
pub open spec fn relay_host_of(raw: Seq<char>) -> Seq<char> {
    trim_end_char(
        strip_prefix(
            strip_prefix(strip_prefix(strip_prefix(trim(raw), wss_scheme()), ws_scheme()), https_scheme()),
            http_scheme(),
        ),
        '/',
    )
}

/// What `--relay` makes of `raw`: a bare host, or nothing for a refusal.
pub open spec fn relay_host_spec(raw: Seq<char>) -> Option<Seq<char>> {
    let h = relay_host_of(raw);
    if h.len() == 0 {
        None
    } else if h.contains('/') {
        None
    } else {
        Some(h)
    }
}

/// `v` without `p` at its start, when it starts with `p`.
fn stripped(v: &Vec<char>, p: &Vec<char>) -> (r: Vec<char>)
    ensures
        r@ == strip_prefix(v@, p@),
{
    if has_prefix(v, p) {
        slice_of(v, p.len(), v.len())
    } else {
        slice_of(v, 0, v.len())
    }
}

/// Whether `c` occurs in `v`.
pub fn has_char(v: &Vec<char>, c: char) -> (b: bool)
    ensures
        b == v@.contains(c),
{
    let mut i: usize = 0;
    while i < v.len()
        invariant
            i <= v@.len(),
            forall|j: int| 0 <= j < i ==> v@[j] != c,
        decreases v@.len() - i,
    {
        if v[i] == c {
            return true;
        }
        i = i + 1;
    }
    false
}

/// `--relay`: a bare host, which the room address is built around. A
/// pasted scheme and trailing slash are dropped.
pub fn relay_host(raw: &str) -> (res: Result<String, String>)
    ensures
        res is Ok <==> relay_host_spec(raw@) is Some,
        res is Ok ==> res->Ok_0@ == relay_host_spec(raw@)->0,
        res is Err ==> res->Err_0@ == ({
            let h = relay_host_of(raw@);
            if h.len() == 0 {
                "empty; the default is "@ + DEFAULT_RELAY_HOST@
            } else {
                debug_quoted(h) + " is not a bare host name"@
            }
        }),
{
    let wss = vec!['w', 's', 's', ':', '/', '/'];
    let ws = vec!['w', 's', ':', '/', '/'];
    let https = vec!['h', 't', 't', 'p', 's', ':', '/', '/'];
    let http = vec!['h', 't', 't', 'p', ':', '/', '/'];
    let all = chars_of(raw);
    let h0 = trimmed(&all);
    let h1 = stripped(&h0, &wss);
    let h2 = stripped(&h1, &ws);
    let h3 = stripped(&h2, &https);
    let h4 = stripped(&h3, &http);
    let host = trimmed_end_char(&h4, '/');
    if host.len() == 0 {
        return Err(joined("empty; the default is ", DEFAULT_RELAY_HOST));
    }
    if has_char(&host, '/') {
        let shown = string_of(&host);
        return Err(joined(quoted(shown.as_str()).as_str(), " is not a bare host name"));
    }
    Ok(string_of(&host))
}

/// `did:`
pub open spec fn did_mark() -> Seq<char> {
    seq!['d', 'i', 'd', ':']
}

/// Whether `s` reads as `did:<method>:<id>`, both parts non-empty: the
/// colon after the method is the first one after `did:`, and something
/// follows it.
pub open spec fn is_did(s: Seq<char>) -> bool {
    &&& starts_with(s, did_mark())
    &&& exists|k: int|
        4 < k && k + 1 < s.len() && s[k] == ':' && forall|j: int|
            4 <= j < k ==> #[trigger] s[j] != ':'
}

/// What `--room` makes of `raw`: the DID, or nothing for a refusal.
pub open spec fn room_did_spec(raw: Seq<char>) -> Option<Seq<char>> {
    if is_did(trim(raw)) {
        Some(trim(raw))
    } else {
        None
    }
}

/// Whether `v` is a DID - see [`is_did`].
fn did_shaped(v: &Vec<char>) -> (b: bool)
    ensures
        b == is_did(v@),
{
    let mark = vec!['d', 'i', 'd', ':'];
    assert(mark@ == did_mark());
    if !has_prefix(v, &mark) {
        return false;
    }
    let mut k: usize = 4;
    while k < v.len() && v[k] != ':'
        invariant
            4 <= k <= v@.len(),
            forall|j: int| 4 <= j < k ==> #[trigger] v@[j] != ':',
        decreases v@.len() - k,
    {
        k = k + 1;
    }
    if k == v.len() {
        assert forall|k2: int| 4 < k2 && k2 + 1 < v@.len() && v@[k2] == ':' implies
            !(forall|j: int| 4 <= j < k2 ==> #[trigger] v@[j] != ':') by {
            assert(v@[k2] != ':');
        }
        return false;
    }
    if k > 4 && k + 1 < v.len() {
        return true;
    }
    assert forall|k2: int| 4 < k2 && k2 + 1 < v@.len() && v@[k2] == ':' implies
        !(forall|j: int| 4 <= j < k2 ==> #[trigger] v@[j] != ':') by {
        if k2 > k {
            assert(v@[k as int] == ':');
        } else if k2 < k {
            assert(v@[k2] != ':');
        }
    }
    false
}

/// `--room`: a DID - `did:<method>:<id>`, both parts non-empty.
pub fn room_did(raw: &str) -> (res: Result<String, String>)
    ensures
        res is Ok <==> room_did_spec(raw@) is Some,
        res is Ok ==> res->Ok_0@ == room_did_spec(raw@)->0,
        res is Err ==> res->Err_0@ == not_a_did(trim(raw@)),
{
    let all = chars_of(raw);
    let did = trimmed(&all);
    did_or_refusal(&did)
}

/// What a text that is not a DID is told.
pub open spec fn not_a_did(shown: Seq<char>) -> Seq<char> {
    debug_quoted(shown) + " is not a DID (did:plc:... or did:web:...)"@
}

/// `did` as a DID, or why it is not one.
fn did_or_refusal(did: &Vec<char>) -> (res: Result<String, String>)
    ensures
        res is Ok <==> is_did(did@),
        res is Ok ==> res->Ok_0@ == did@,
        res is Err ==> res->Err_0@ == not_a_did(did@),
{
    let shown = string_of(did);
    if did_shaped(did) {
        Ok(shown)
    } else {
        Err(joined(quoted(shown.as_str()).as_str(), " is not a DID (did:plc:... or did:web:...)"))
    }
}

/// `char::to_ascii_lowercase`.
pub open spec fn ascii_lower(c: char) -> char {
    if 'A' <= c && c <= 'Z' {
        ((c as u32) + 32) as char
    } else {
        c
    }
}

/// `char::is_ascii_alphanumeric`.
pub open spec fn ascii_alnum(c: char) -> bool {
    ('a' <= c && c <= 'z') || ('A' <= c && c <= 'Z') || ('0' <= c && c <= '9')
}

/// A handle's shape: a dot in it, no dot or hyphen at either end, and
/// nothing but ASCII letters, digits, dots and hyphens.
pub open spec fn handle_shaped(h: Seq<char>) -> bool {
    &&& h.contains('.')
    &&& !(h.len() > 0 && (h[0] == '.' || h[0] == '-'))
    &&& !(h.len() > 0 && (h.last() == '.' || h.last() == '-'))
    &&& forall|i: int| 0 <= i < h.len() ==> ascii_alnum(#[trigger] h[i]) || h[i] == '.' || h[i] == '-'
}

/// The handle `name` stands for: its @ off, in lower case.
pub open spec fn handle_of(name: Seq<char>) -> Seq<char> {
    trim_start_char(name, '@').map_values(|c: char| ascii_lower(c))
}

/// What `--admin` makes of `raw`: a DID or a handle, or nothing for a
/// refusal.
pub open spec fn account_name_spec(raw: Seq<char>) -> Option<Seq<char>> {
    let name = trim(raw);
    if starts_with(name, did_mark()) {
        room_did_spec(name)
    } else if handle_shaped(handle_of(name)) {
        Some(handle_of(name))
    } else {
        None
    }
}

/// `v` in ASCII lower case.
fn lowered(v: &Vec<char>) -> (r: Vec<char>)
    ensures
        r@ == v@.map_values(|c: char| ascii_lower(c)),
{
    let mut r: Vec<char> = Vec::new();
    let mut i: usize = 0;
    while i < v.len()
        invariant
            i <= v@.len(),
            r@ == v@.subrange(0, i as int).map_values(|c: char| ascii_lower(c)),
        decreases v@.len() - i,
    {
        let c = v[i];
        let l = if 'A' <= c && c <= 'Z' {
            char_from_code((c as u32) + 32)
        } else {
            c
        };
        r.push(l);
        i = i + 1;
        assert(r@ == v@.subrange(0, i as int).map_values(|c: char| ascii_lower(c)));
    }
    assert(v@.subrange(0, v@.len() as int) == v@);
    r
}

/// The character with code `n`, an ASCII letter.
fn char_from_code(n: u32) -> (c: char)
    requires
        0x61 <= n <= 0x7a,
    ensures
        c == n as char,
{
    (n as u8) as char
}

/// Whether `h` has a handle's shape - see [`handle_shaped`].
fn handle_ok(h: &Vec<char>) -> (b: bool)
    ensures
        b == handle_shaped(h@),
{
    if !has_char(h, '.') {
        return false;
    }
    let n = h.len();
    if h[0] == '.' || h[0] == '-' || h[n - 1] == '.' || h[n - 1] == '-' {
        return false;
    }
    let mut i: usize = 0;
    while i < n
        invariant
            n == h@.len(),
            i <= n,
            forall|j: int| 0 <= j < i ==> ascii_alnum(#[trigger] h@[j]) || h@[j] == '.' || h@[j] == '-',
        decreases n - i,
    {
        let c = h[i];
        let fits = ('a' <= c && c <= 'z') || ('A' <= c && c <= 'Z') || ('0' <= c && c <= '9')
            || c == '.' || c == '-';
        if !fits {
            return false;
        }
        i = i + 1;
    }
    true
}

/// `--admin`: a DID, or a handle with or without its @. Handles are
/// lower-case ASCII names with a dot in them; anything else is a typo best
/// caught before a lookup is spent on it.
pub fn account_name(raw: &str) -> (res: Result<String, String>)
    ensures
        res is Ok <==> account_name_spec(raw@) is Some,
        res is Ok ==> res->Ok_0@ == account_name_spec(raw@)->0,
        res is Err ==> res->Err_0@ == (if starts_with(trim(raw@), did_mark()) {
            not_a_did(trim(trim(raw@)))
        } else {
            debug_quoted(trim(raw@))
                + " is neither a handle (name.example.com) nor a DID (did:plc:...)"@
        }),
{
    let all = chars_of(raw);
    let name = trimmed(&all);
    let mark = vec!['d', 'i', 'd', ':'];
    assert(mark@ == did_mark());
    if has_prefix(&name, &mark) {
        let did = trimmed(&name);
        return did_or_refusal(&did);
    }
    let bare = trimmed_start_char(&name, '@');
    let handle = lowered(&bare);
    if handle_ok(&handle) {
        Ok(string_of(&handle))
    } else {
        let shown = string_of(&name);
        Err(joined(
            quoted(shown.as_str()).as_str(),
            " is neither a handle (name.example.com) nor a DID (did:plc:...)",
        ))
    }
}


/// Which agent a command is for.
pub struct AccountArg {
    /// The agent's account, as a handle or DID. Needed only when more than
    /// one session is saved.
    pub name: Option<String>,
}

/// `agent stash <what>`.
pub struct StashArgs {
    pub account: AccountArg,
    /// A thing in the agent's own world, by its name, or a catalogue
    /// entry, by its slug.
    pub what: String,
}

/// `agent unstash|wear|take-off <item>`.
pub struct ItemArgs {
    pub account: AccountArg,
    /// The item, by the name `inventory` gives it.
    pub item: String,
}

/// `agent gift ...`.
pub struct GiftArgs {
    pub action: GiftAction,
}

/// Offer a gift, or answer the admin's.
pub enum GiftAction {
    /// Offer a player in the agent's world an item. A gift is a copy.
    Give(GiveArgs),
    /// Accept the admin's gift offer.
    Accept(OfferArgs),
    /// Decline the admin's gift offer.
    Decline(OfferArgs),
}

/// `agent gift give <player> <item>`.
pub struct GiveArgs {
    pub account: AccountArg,
    /// Whom: a DID, or a handle (with or without its @).
    pub player: String,
    /// An inventory item's name, or a catalogue entry's slug.
    pub item: String,
    /// Wait for the answer, or for the offer to lapse.
    pub wait: bool,
}

/// `agent gift accept|decline <offer_id>`.
pub struct OfferArgs {
    pub account: AccountArg,
    /// The offer, by the id its `gift_offered` event gives.
    pub offer_id: u64,
}

/// `agent catalogue [search]`.
pub struct CatalogueArgs {
    pub account: AccountArg,
    /// Words to look for in an entry's slug, name, section or description.
    pub search: Option<String>,
}

/// `agent remove <index>`.
pub struct RemoveArgs {
    pub account: AccountArg,
    /// Which placement, by the index `placements` gives it.
    pub index: usize,
}

/// `agent room|avatar get|set`.
pub struct RecordJsonArgs {
    pub action: JsonAction,
}

/// Read or write a record as JSON.
pub enum JsonAction {
    /// Print the record, or the part at a JSON pointer.
    Get(JsonGetArgs),
    /// Replace the part at a JSON pointer with a JSON value.
    SetPart(JsonSetArgs),
}

/// `get [pointer]`.
pub struct JsonGetArgs {
    pub account: AccountArg,
    /// A JSON pointer; the whole record when absent.
    pub pointer: Option<String>,
}

/// `set <pointer> (<value> | --file <path>)`.
pub struct JsonSetArgs {
    pub account: AccountArg,
    /// Where: a JSON pointer; empty for the whole record.
    pub pointer: String,
    /// The new value, as JSON.
    pub value: Option<String>,
    /// Read the new value from this file instead.
    pub file: Option<std::path::PathBuf>,
}

/// `undo|redo|revert [record]`.
pub struct RecordArg {
    pub account: AccountArg,
    /// Which record: the agent's world, its avatar, or its inventory.
    pub record: EditRecord,
}

/// `agent save [record] [--wait]`.
pub struct SaveArgs {
    pub record: RecordArg,
    /// Wait for the save to land, and print how.
    pub wait: bool,
}

/// `agent face <player | x z>`.
pub struct FaceArgs {
    pub account: AccountArg,
    /// A player's DID or handle, or a point's x and z in world metres.
    pub target: Vec<String>,
    /// Wait for the turn to end and print how.
    pub wait: bool,
}

/// `agent travel <to>`.
pub struct TravelArgs {
    pub account: AccountArg,
    /// Whose world: a DID, a handle, or `home` for the agent's own.
    pub to: String,
    /// Wait for the trip to end, and print how.
    pub wait: bool,
    /// Leave though the agent's own world has unsaved edits, losing them.
    pub discard_edits: bool,
    /// Save the unsaved edits first, and leave once the save has landed.
    pub save_edits: bool,
}

/// What a trip does with unsaved edits, by its flags: `--discard-edits`,
/// `--save-edits`, or neither to be refused. The two flags exclude each
/// other.
pub open spec fn unsaved_choice(discard_edits: bool, save_edits: bool) -> UnsavedEdits {
    if discard_edits {
        UnsavedEdits::Discard
    } else if save_edits {
        UnsavedEdits::Save
    } else {
        UnsavedEdits::Refuse
    }
}

impl TravelArgs {
    /// What the trip does with the agent's own world's unsaved edits.
    pub fn unsaved(&self) -> (u: UnsavedEdits)
        requires
            !(self.discard_edits && self.save_edits),
        ensures
            u == unsaved_choice(self.discard_edits, self.save_edits),
    {
        if self.discard_edits {
            UnsavedEdits::Discard
        } else if self.save_edits {
            UnsavedEdits::Save
        } else {
            UnsavedEdits::Refuse
        }
    }
}

/// `agent say <text>`.
pub struct SayArgs {
    pub account: AccountArg,
    /// What to say: one line.
    pub text: String,
}

/// `agent start`: the world to enter and how.
pub struct RunArgs {
    pub account: AccountArg,
    /// The world to enter, as its owner's DID; the agent's own by default.
    pub room: Option<String>,
    /// Run with no account, a stand-in identity alone in its seeded world.
    pub offline: bool,
    /// Offline only: stand in as this identity instead.
    pub stand_in: Option<String>,
    /// Testing only, offline: fly the default airplane.
    pub wear_airplane: bool,
    /// The one player whose chat the agent hears, as a handle or DID.
    pub admin: Option<String>,
    /// Let the agent save its world and its avatar to its account.
    pub allow_save: bool,
}

/// `agent run`: what `start` takes, and what it hands the daemon.
pub struct DaemonArgs {
    pub run: RunArgs,
    /// The handle `start` resolved `--admin` from, a label only.
    pub admin_handle: Option<String>,
}

/// `agent events [--since n] [--wait secs]`.
pub struct EventsArgs {
    pub account: AccountArg,
    /// The `seq` of the last event already seen; 0 for everything kept.
    pub since: u64,
    /// Seconds to wait for something to happen when nothing has yet.
    pub wait: u64,
}

/// `agent login`.
pub struct LoginArgs {
    /// The account's PDS or sign-in server.
    pub pds: String,
    /// The relay the agent joins rooms through.
    pub relay: String,
    /// The agent's account, as a handle or DID.
    pub account: Option<String>,
    /// Only print the sign-in address; do not open a browser.
    pub no_browser: bool,
}

impl LoginArgs {
    /// `agent login` with nothing given: the app's own PDS and relay.
    pub fn defaults() -> (a: LoginArgs)
        ensures
            a.pds@ == DEFAULT_PDS@,
            a.relay@ == DEFAULT_RELAY_HOST@,
            a.account is None,
            !a.no_browser,
    {
        LoginArgs {
            pds: DEFAULT_PDS.to_owned(),
            relay: DEFAULT_RELAY_HOST.to_owned(),
            account: None,
            no_browser: false,
        }
    }
}

} // verus!
