//! Approval of tool calls by a person.
//!
//! A context that requires approval routes the calls that can change things
//! through an [`Approvals`] gate. A call passes where it matches one of the
//! context's patterns or one that was granted for the session; else it is put
//! to the approver. Without an approver such a call is denied.

use vstd::prelude::*;
use vstd::string::*;

use crate::text;
use crate::tools;

verus! {

/// What the approver answers.
#[derive(Debug, Clone, Copy, PartialEq, Eq, Structural)]
pub enum Decision {
    /// Allow this call only.
    Approve,
    /// Allow this call and, for the rest of the session, all that its
    /// pattern matches.
    AlwaysAllow,
    Deny,
}

/// What is put to the approver.
pub struct ApprovalRequest {
    /// What is attempted, such as `shell cargo test`.
    pub descriptor: String,
    /// Fuller detail for display.
    pub detail: String,
    /// The pattern that "always" would grant.
    pub always_pattern: String,
}

/// The approvals of a session.
pub struct Approvals {
    /// Whether there is an approver.
    pub interactive: bool,
    /// Patterns granted for the session.
    pub session_allow: Vec<String>,
}

impl Approvals {
    /// A session with an approver and nothing granted.
    pub fn new() -> (r: Approvals)
        ensures
            r.interactive,
            r.session_allow@.len() == 0,
    {
        Approvals { interactive: true, session_allow: Vec::new() }
    }

    /// A session without an approver: gated calls are denied.
    pub fn non_interactive() -> (r: Approvals)
        ensures
            !r.interactive,
            r.session_allow@.len() == 0,
    {
        Approvals { interactive: false, session_allow: Vec::new() }
    }

    /// Whether there is an approver.
    pub fn is_interactive(&self) -> (r: bool)
        ensures
            r == self.interactive,
    {
        self.interactive
    }

    /// Whether a grant of the session covers a call.
    pub fn session_allowed(&self, descriptor: &str) -> (r: bool)
        ensures
            r == tools::any_match(text::views(self.session_allow@), descriptor@),
    {
        tools::matches_any(&self.session_allow, descriptor)
    }

    /// Grant a pattern for the rest of the session.
    pub fn allow_always(&mut self, pattern: String)
        ensures
            text::views(final(self).session_allow@) == text::views(old(self).session_allow@).push(
                pattern@,
            ),
            final(self).interactive == old(self).interactive,
    {
        text::add_text(&mut self.session_allow, pattern);
    }

    /// What the reply to a request decides: without an approver, or where no
    /// reply comes, the call is denied.
    pub fn decide(&self, reply: Option<Decision>) -> (r: Decision)
        ensures
            r == (match reply {
                Some(decision) => if self.interactive {
                    decision
                } else {
                    Decision::Deny
                },
                None => Decision::Deny,
            }),
    {
        if !self.interactive {
            return Decision::Deny;
        }
        match reply {
            Some(decision) => decision,
            None => Decision::Deny,
        }
    }
}

/// A grant lasts: what a session allows, it goes on allowing after further
/// grants, and each grant covers what its pattern matches.
pub proof fn law_grants_last(
    granted: Seq<Seq<char>>,
    pattern: Seq<char>,
    descriptor: Seq<char>,
)
    ensures
        tools::any_match(granted, descriptor) ==> tools::any_match(
            granted.push(pattern),
            descriptor,
        ),
        tools::wildcard_spec(pattern, descriptor) ==> tools::any_match(
            granted.push(pattern),
            descriptor,
        ),
{
    let more = granted.push(pattern);
    if tools::any_match(granted, descriptor) {
        let i = choose|i: int|
            0 <= i < granted.len() && #[trigger] tools::wildcard_spec(granted[i], descriptor);
        assert(tools::wildcard_spec(more[i], descriptor));
    }
    if tools::wildcard_spec(pattern, descriptor) {
        assert(tools::wildcard_spec(more[granted.len() as int], descriptor));
    }
}

} // verus!
