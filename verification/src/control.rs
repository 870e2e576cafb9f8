//! The control channel's own rules: the socket's path, the request line,
//! and the admin the agent takes chat from.
use vstd::prelude::*;
use crate::config::{MAX_REQUEST_BYTES, MAX_SOCKET_PATH};
use crate::text::{decimal, decimal_spec, joined};
use crate::json::{lemma_member_models, member_models, Json, JsonValue};

verus! {

broadcast use vstd::string::group_string_axioms;

/// A bound control socket: where it listens. The socket file is removed
/// when the daemon is done with it, so the next daemon for the account
/// does not find a stale one.
pub struct ControlSocket {
    path: std::path::PathBuf,
}

impl ControlSocket {
    /// The socket bound at `path`.
    pub fn new(path: std::path::PathBuf) -> (s: ControlSocket)
        ensures
            s.path() == path,
    {
        ControlSocket { path }
    }

    /// Where the socket listens.
    pub closed spec fn path(&self) -> std::path::PathBuf {
        self.path
    }

    /// Where the socket listens.
    pub fn listens_at(&self) -> (p: &std::path::PathBuf)
        ensures
            *p == self.path(),
    {
        &self.path
    }
}

/// What a socket path of `len` bytes, shown as `shown`, is told when it is
/// longer than a Unix socket address holds.
pub open spec fn socket_path_refusal_spec(len: nat, shown: Seq<char>) -> Option<Seq<char>> {
    if len > MAX_SOCKET_PATH {
        Some(
            "the control socket's path is "@ + decimal_spec(len)
                + " bytes, longer than a Unix socket allows ("@ + decimal_spec(
                MAX_SOCKET_PATH as nat,
            ) + "): "@ + shown + "; point XDG_RUNTIME_DIR at a shorter directory"@,
        )
    } else {
        None
    }
}

/// Why the socket path of `len` bytes, shown as `shown`, cannot be used,
/// if it cannot: a Unix socket address holds at most
/// [`MAX_SOCKET_PATH`] bytes.
pub fn socket_path_refusal(len: usize, shown: &str) -> (r: Option<String>)
    ensures
        match socket_path_refusal_spec(len as nat, shown@) {
            Some(m) => r matches Some(s) && s@ == m,
            None => r is None,
        },
{
    if len > MAX_SOCKET_PATH {
        let a = joined("the control socket's path is ", decimal(len as u64).as_str());
        let b = joined(a.as_str(), " bytes, longer than a Unix socket allows (");
        let c = joined(b.as_str(), decimal(MAX_SOCKET_PATH as u64).as_str());
        let d = joined(c.as_str(), "): ");
        let e = joined(d.as_str(), shown);
        Some(joined(e.as_str(), "; point XDG_RUNTIME_DIR at a shorter directory"))
    } else {
        None
    }
}

/// What a request line that was cut off at the size the socket reads is
/// told: `len` bytes read, and whether they ended the line.
pub open spec fn request_refusal_spec(len: nat, ended: bool) -> Option<Seq<char>> {
    if !ended && len >= MAX_REQUEST_BYTES {
        Some("the request is longer than "@ + decimal_spec(MAX_REQUEST_BYTES as nat) + " bytes"@)
    } else {
        None
    }
}

/// Why a request line of `len` bytes - `ended` when its newline came -
/// is refused before it is parsed, if it is: the socket reads at most
/// [`MAX_REQUEST_BYTES`], and a line that fills them without ending was
/// cut off.
pub fn request_refusal(len: u64, ended: bool) -> (r: Option<String>)
    ensures
        match request_refusal_spec(len as nat, ended) {
            Some(m) => r matches Some(s) && s@ == m,
            None => r is None,
        },
{
    if !ended && len >= MAX_REQUEST_BYTES {
        let a = joined("the request is longer than ", decimal(MAX_REQUEST_BYTES).as_str());
        Some(joined(a.as_str(), " bytes"))
    } else {
        None
    }
}

/// What a client whose request the world did not answer in time is told.
pub open spec fn no_answer_spec(within_ms: u64) -> Seq<char> {
    "the agent did not answer within "@ + decimal_spec((within_ms / 1000) as nat) + " s"@
}

/// What a client whose request the world did not answer within
/// `within_ms` is told, in whole seconds.
pub fn no_answer(within_ms: u64) -> (m: String)
    ensures
        m@ == no_answer_spec(within_ms),
{
    let a = joined("the agent did not answer within ", decimal(within_ms / 1000).as_str());
    joined(a.as_str(), " s")
}

/// The account the agent takes chat from, bound by DID; the handle the
/// operator named it by is shown, never used to decide.
pub struct Admin {
    pub did: String,
    pub handle: Option<String>,
}

/// What `--admin name` binds to, given what looking the name up gave
/// (`resolved`: a DID and the handle it was found by, or why it was not
/// found), for an agent that plays as `agent_did`.
pub open spec fn admin_spec(
    name: Seq<char>,
    resolved: Result<(Seq<char>, Option<Seq<char>>), Seq<char>>,
    agent_did: Seq<char>,
) -> Result<(Seq<char>, Option<Seq<char>>), Seq<char>> {
    match resolved {
        Err(e) => Err("the admin "@ + name + ": "@ + e),
        Ok((did, handle)) => if did == agent_did {
            Err("the admin must be another account: the agent never hears its own lines"@)
        } else {
            Ok((did, handle))
        },
    }
}

/// A lookup's result, as characters.
pub open spec fn resolved_view(r: Result<(String, Option<String>), String>) -> Result<
    (Seq<char>, Option<Seq<char>>),
    Seq<char>,
> {
    match r {
        Ok((d, h)) => Ok((d@, crate::text::opt_view(h))),
        Err(e) => Err(e@),
    }
}

/// The admin as `status` and the start give it: `{"did": .., "handle": ..}`,
/// the handle null when the admin was named by a DID.
pub open spec fn admin_model(a: &Admin) -> Json {
    Json::Object(
        seq![
            ("did"@, Json::Str(a.did@)),
            (
                "handle"@,
                match a.handle {
                    Some(h) => Json::Str(h@),
                    None => Json::Null,
                },
            ),
        ],
    )
}

impl Admin {
    /// The admin as JSON: its DID and the handle it was named by, if any.
    pub fn to_json(&self) -> (v: JsonValue)
        ensures
            v.model() == admin_model(self),
    {
        let handle = match &self.handle {
            Some(h) => JsonValue::String(h.clone()),
            None => JsonValue::Null,
        };
        let members = vec![
            ("did".to_owned(), JsonValue::String(self.did.clone())),
            ("handle".to_owned(), handle),
        ];
        proof {
            lemma_member_models(members@);
        }
        assert(member_models(members@) =~= admin_model(self)->Object_0);
        JsonValue::Object(members)
    }

    /// How `status` and the start show the admin: `@handle (did)`, or the
    /// bare DID when the admin was named by one.
    pub fn shown(&self) -> (s: String)
        ensures
            s@ == (match self.handle {
                Some(h) => "@"@ + h@ + " ("@ + self.did@ + ")"@,
                None => self.did@,
            }),
    {
        match &self.handle {
            Some(handle) => {
                let a = joined("@", handle.as_str());
                let b = joined(a.as_str(), " (");
                let c = joined(b.as_str(), self.did.as_str());
                joined(c.as_str(), ")")
            },
            None => self.did.clone(),
        }
    }

    /// The admin `name` stands for, given what looking it up gave: never
    /// the agent itself, which never hears its own lines.
    pub fn bind(name: &str, resolved: Result<(String, Option<String>), String>, agent_did: &str) -> (r:
        Result<Admin, String>)
        ensures
            match admin_spec(name@, resolved_view(resolved), agent_did@) {
                Ok((d, h)) => r matches Ok(a) && a.did@ == d && crate::text::opt_view(a.handle) == h,
                Err(m) => r matches Err(e) && e@ == m,
            },
    {
        match resolved {
            Err(e) => {
                let a = joined("the admin ", name);
                let b = joined(a.as_str(), ": ");
                Err(joined(b.as_str(), e.as_str()))
            },
            Ok((did, handle)) => {
                let mine = crate::text::chars_of(agent_did);
                let theirs = crate::text::chars_of(did.as_str());
                if crate::observe::same_chars(&theirs, &mine) {
                    Err(
                        "the admin must be another account: the agent never hears its own lines".to_owned(),
                    )
                } else {
                    Ok(Admin { did, handle })
                }
            },
        }
    }
}


/// What a refresh of the saved session that failed with `error` means for
/// the operator: a refusal that is `terminal` - a dead refresh token -
/// needs a fresh sign-in; anything else may pass on its own.
pub open spec fn refresh_refusal_spec(error: Seq<char>, terminal: bool) -> Seq<char> {
    if terminal {
        "the saved session is no longer accepted ("@ + error
            + "); sign the account in again with `agent login`"@
    } else {
        "refreshing the saved session failed, possibly for now ("@ + error + ")"@
    }
}

/// Say what a failed refresh means for the operator.
pub fn refresh_refusal(error: &str, terminal: bool) -> (m: String)
    ensures
        m@ == refresh_refusal_spec(error@, terminal),
{
    if terminal {
        let a = joined("the saved session is no longer accepted (", error);
        joined(a.as_str(), "); sign the account in again with `agent login`")
    } else {
        let a = joined("refreshing the saved session failed, possibly for now (", error);
        joined(a.as_str(), ")")
    }
}

} // verus!
