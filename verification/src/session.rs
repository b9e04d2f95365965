//! The session-multiplexed push transport's core: the directory that
//! maps a session id to its delivery channel, the announcement event a
//! fresh session pushes first, and the decision of what one submitted
//! request yields — the direct reply, and the identical text to push
//! when the reply is a success.

use vstd::prelude::*;
use crate::dispatch::{dispatch_post, ser_response, RequestEnvelope, ResponseEnvelope};
use crate::json::JsonValue;
use crate::registry::McpServer;
use crate::types::{McpError, ToolResult};

verus! {

/// Whether the entries of a directory carry pairwise distinct ids.
pub open spec fn wf_sessions<C>(s: Seq<(String, C)>) -> bool {
    forall|i: int, j: int| 0 <= i < j < s.len() ==> s[i].0@ != s[j].0@
}

/// The position of the first entry under `id`, if any.
pub open spec fn find_session<C>(s: Seq<(String, C)>, id: Seq<char>) -> Option<int>
    decreases s.len(),
{
    if s.len() == 0 {
        None
    } else if s[0].0@ == id {
        Some(0)
    } else {
        match find_session(s.skip(1), id) {
            Some(i) => Some(i + 1),
            None => None,
        }
    }
}

/// What `find_session` returns: the first position under `id`, or
/// nothing when no entry is under it.
pub proof fn lemma_find_session<C>(s: Seq<(String, C)>, id: Seq<char>)
    ensures
        match find_session(s, id) {
            Some(i) => 0 <= i < s.len() && s[i].0@ == id
                && forall|j: int| 0 <= j < i ==> s[j].0@ != id,
            None => forall|j: int| 0 <= j < s.len() ==> s[j].0@ != id,
        },
    decreases s.len(),
{
    if s.len() == 0 {
    } else if s[0].0@ == id {
    } else {
        lemma_find_session(s.skip(1), id);
        match find_session(s.skip(1), id) {
            Some(i) => {
                assert(s[i + 1] == s.skip(1)[i]);
                assert forall|j: int| 0 <= j < i + 1 implies s[j].0@ != id by {
                    if j >= 1 {
                        assert(s[j] == s.skip(1)[j - 1]);
                    }
                }
            }
            None => {
                assert forall|j: int| 0 <= j < s.len() implies s[j].0@ != id by {
                    if j >= 1 {
                        assert(s[j] == s.skip(1)[j - 1]);
                    }
                }
            }
        }
    }
}

/// A first entry under `id` with nothing earlier pins `find_session` down.
pub proof fn lemma_find_session_is<C>(s: Seq<(String, C)>, id: Seq<char>, i: int)
    requires
        0 <= i < s.len(),
        s[i].0@ == id,
        forall|j: int| 0 <= j < i ==> s[j].0@ != id,
    ensures
        find_session(s, id) == Some(i),
{
    lemma_find_session(s, id);
    match find_session(s, id) {
        Some(fi) => {
            assert(!(fi < i));
            assert(!(i < fi));
        }
        None => {
            assert(false);
        }
    }
}

/// An id no entry carries makes `find_session` return nothing.
pub proof fn lemma_find_session_none<C>(s: Seq<(String, C)>, id: Seq<char>)
    requires
        forall|j: int| 0 <= j < s.len() ==> s[j].0@ != id,
    ensures
        find_session(s, id) is None,
{
    lemma_find_session(s, id);
    if find_session(s, id) is Some {
        assert(false);
    }
}

/// Law: in a directory of pairwise distinct ids, looking a session's
/// own id up resolves to exactly that session's entry — a message
/// submitted under one session's id is delivered on that session's
/// channel and never on another's.
pub proof fn lemma_lookup_own<C>(s: Seq<(String, C)>, i: int)
    requires
        wf_sessions(s),
        0 <= i < s.len(),
    ensures
        find_session(s, s[i].0@) == Some(i),
{
    lemma_find_session_is(s, s[i].0@, i);
}

/// The session directory: one delivery channel per open session id.
/// The channel type is the host's; the directory only routes to it.
pub struct SessionDirectory<C> {
    pub sessions: Vec<(String, C)>,
}

impl<C> SessionDirectory<C> {
    /// Whether this directory carries pairwise distinct ids.
    pub open spec fn wf(self) -> bool {
        wf_sessions(self.sessions@)
    }

    /// An empty directory.
    pub fn new() -> (r: Self)
        ensures
            r.wf(),
            r.sessions@ =~= Seq::<(String, C)>::empty(),
    {
        SessionDirectory { sessions: Vec::new() }
    }

    /// Open a session: record the channel under the id, unless the id
    /// is already taken — then nothing changes and the caller retries
    /// with a fresh id.
    #[verifier::loop_isolation(false)]
    pub fn open_session(&mut self, id: String, chan: C) -> (r: bool)
        requires
            old(self).wf(),
        ensures
            final(self).wf(),
            r ==> find_session(old(self).sessions@, id@) is None
                && final(self).sessions@ == old(self).sessions@.push((id, chan)),
            !r ==> find_session(old(self).sessions@, id@) is Some
                && final(self).sessions@ == old(self).sessions@,
    {
        let ghost s = self.sessions@;
        let mut i: usize = 0;
        while i < self.sessions.len()
            invariant
                0 <= i <= s.len(),
                self.sessions@ == s,
                forall|j: int| 0 <= j < i ==> s[j].0@ != id@,
            decreases s.len() - i,
        {
            if crate::strutil::str_eq(self.sessions[i].0.as_str(), id.as_str()) {
                proof {
                    lemma_find_session_is(s, id@, i as int);
                }
                return false;
            }
            i = i + 1;
        }
        proof {
            lemma_find_session_none(s, id@);
        }
        self.sessions.push((id, chan));
        proof {
            let s2 = self.sessions@;
            lemma_find_session(s, s2.last().0@);
            assert forall|a: int, b: int| 0 <= a < b < s2.len() implies s2[a].0@ != s2[b].0@ by {
                if b < s2.len() - 1 {
                    assert(s2[a] == s[a] && s2[b] == s[b]);
                } else {
                    assert(s2[a] == s[a]);
                }
            }
        }
        true
    }

    /// Open a session under a freshly drawn id: when the id was free —
    /// as a fresh random id practically always is — the channel now
    /// stands under it and the id is handed back for the announcement
    /// event. A drawn id that is already taken leaves the directory
    /// unchanged; the caller draws again.
    pub fn open_fresh(&mut self, chan: C) -> (r: Option<String>)
        requires
            old(self).wf(),
        ensures
            final(self).wf(),
            match r {
                Some(id) => {
                    &&& find_session(old(self).sessions@, id@) is None
                    &&& final(self).sessions@.len() == old(self).sessions@.len() + 1
                    &&& final(self).sessions@.last().0@ == id@
                    &&& final(self).sessions@.drop_last() == old(self).sessions@
                    &&& id@.len() == 36
                },
                None => final(self).sessions@ == old(self).sessions@,
            },
    {
        let id = fresh_session_id();
        let ret = id.clone();
        if self.open_session(id, chan) {
            proof {
                assert(final(self).sessions@.drop_last() =~= old(self).sessions@);
            }
            Some(ret)
        } else {
            None
        }
    }

    /// The channel of the session under `id`, if one is open.
    #[verifier::loop_isolation(false)]
    pub fn lookup<'a>(&'a self, id: &str) -> (r: Option<&'a C>)
        ensures
            match r {
                Some(c) => find_session(self.sessions@, id@) is Some
                    && *c == self.sessions@[find_session(self.sessions@, id@)->0].1,
                None => find_session(self.sessions@, id@) is None,
            },
    {
        let mut i: usize = 0;
        while i < self.sessions.len()
            invariant
                0 <= i <= self.sessions@.len(),
                forall|j: int| 0 <= j < i ==> self.sessions@[j].0@ != id@,
            decreases self.sessions@.len() - i,
        {
            if crate::strutil::str_eq(self.sessions[i].0.as_str(), id) {
                proof {
                    lemma_find_session_is(self.sessions@, id@, i as int);
                }
                return Some(&self.sessions[i].1);
            }
            i = i + 1;
        }
        proof {
            lemma_find_session_none(self.sessions@, id@);
        }
        None
    }

    /// Close a session: drop the entry under `id`, if one is open.
    /// Absence is tolerated — a session torn down twice is gone once.
    #[verifier::loop_isolation(false)]
    pub fn remove_session(&mut self, id: &str) -> (r: bool)
        requires
            old(self).wf(),
        ensures
            final(self).wf(),
            match find_session(old(self).sessions@, id@) {
                Some(i) => r && final(self).sessions@ == old(self).sessions@.remove(i),
                None => !r && final(self).sessions@ == old(self).sessions@,
            },
    {
        let ghost s = self.sessions@;
        let mut i: usize = 0;
        while i < self.sessions.len()
            invariant
                0 <= i <= s.len(),
                self.sessions@ == s,
                forall|j: int| 0 <= j < i ==> s[j].0@ != id@,
            decreases s.len() - i,
        {
            if crate::strutil::str_eq(self.sessions[i].0.as_str(), id) {
                proof {
                    lemma_find_session_is(s, id@, i as int);
                }
                self.sessions.remove(i);
                return true;
            }
            i = i + 1;
        }
        proof {
            lemma_find_session_none(s, id@);
        }
        false
    }

    /// How many sessions are open.
    pub fn count(&self) -> (r: usize)
        ensures
            r == self.sessions@.len(),
    {
        self.sessions.len()
    }
}

/// Relies on uuid::Uuid::new_v4 and its Display form: a fresh random
/// identifier, rendered as the 36-character hyphenated form. Nothing is
/// assumed about which identifier comes back.
#[verifier::external_body]
pub fn fresh_session_id() -> (r: String)
    ensures
        r@.len() == 36,
{
    uuid::Uuid::new_v4().to_string()
}

/// The announcement a fresh push stream carries first: the submission
/// path that embeds the session's id.
pub fn endpoint_event(id: &str) -> (r: String)
    ensures
        r@ == "/message?sessionId="@ + id@,
{
    let mut s = String::from_str("/message?sessionId=");
    s.append(id);
    s
}

/// What one submitted request yields at the transport: a protocol
/// error the host maps to a generic failure status, silence for a
/// notification, or the direct reply — with the identical text to
/// push down the session's channel exactly when the reply is a
/// success.
pub enum SubmitStep {
    Protocol(McpError),
    NoReply,
    Reply { body: String, push: Option<String> },
}

/// Dispatch one submitted request and frame what the session gets
/// back: the direct reply always; the same text as a push event only
/// when the reply is a success.
pub fn submit_request<F: Fn(String, JsonValue) -> Result<ToolResult, String>>(
    server: &McpServer,
    invoke: F,
    req: &RequestEnvelope,
) -> (r: SubmitStep)
    requires
        forall|args: (String, JsonValue)| #[trigger] call_requires(invoke, args),
    ensures
        exists|res: Result<Option<ResponseEnvelope>, McpError>|
            {
                &&& #[trigger] dispatch_post(*server, invoke, req@, res)
                &&& match res {
                    Ok(Some(e)) => match r {
                        SubmitStep::Reply { body, push } => {
                            &&& body@ == ser_response(e@)
                            &&& (e@ is Success ==> push == Some(body))
                            &&& (!(e@ is Success) ==> push is None)
                        },
                        _ => false,
                    },
                    Ok(None) => r is NoReply,
                    Err(err) => r == SubmitStep::Protocol(err),
                }
            },
{
    let res = server.handle_request(invoke, req);
    match res {
        Ok(Some(e)) => {
            let body = e.encode();
            let push: Option<String> = if e.is_success() {
                Some(body.clone())
            } else {
                None
            };
            SubmitStep::Reply { body, push }
        }
        Ok(None) => SubmitStep::NoReply,
        Err(err) => SubmitStep::Protocol(err),
    }
}

} // verus!
