use vstd::prelude::*;

verus! {

/// The next step of the authorization check for an archive request.
#[derive(Clone, Copy, Debug, PartialEq, Eq, Structural)]
pub enum AuthStep {
    /// The actor may archive.
    Granted,
    /// Ownership did not settle it: ask the platform whether the actor holds
    /// the archivist role, then decide again with the answer.
    AskRole,
    /// The actor may not archive; nothing is to be changed.
    Declined,
}

/// The actor may archive: it owns the guild or holds the archivist role.
pub open spec fn is_authorized(actor_id: u64, owner_id: u64, holds_archivist_role: bool) -> bool {
    actor_id == owner_id || holds_archivist_role
}

/// The step that follows from the actor's and the guild owner's
/// identifiers and, once asked, whether the actor holds the archivist role.
pub open spec fn auth_step(actor_id: u64, owner_id: u64, role_answer: Option<bool>) -> AuthStep {
    if actor_id == owner_id {
        AuthStep::Granted
    } else {
        match role_answer {
            None => AuthStep::AskRole,
            Some(holds) => if holds {
                AuthStep::Granted
            } else {
                AuthStep::Declined
            },
        }
    }
}

/// Decides an archive request from what is known so far. The owner is
/// granted without asking for roles.
pub fn authorize(actor_id: u64, owner_id: u64, role_answer: Option<bool>) -> (r: AuthStep)
    ensures
        r == auth_step(actor_id, owner_id, role_answer),
{
    if actor_id == owner_id {
        AuthStep::Granted
    } else {
        match role_answer {
            None => AuthStep::AskRole,
            Some(true) => AuthStep::Granted,
            Some(false) => AuthStep::Declined,
        }
    }
}

/// Once the role question is answered, or where it was never asked because
/// the actor owns the guild, the request is granted exactly when the actor is
/// the owner or holds the archivist role, and declined otherwise: the owner
/// whatever its roles, an archivist who is not the owner too, anyone else not.
pub proof fn lemma_authorization_decides(actor_id: u64, owner_id: u64, holds_archivist_role: bool)
    ensures
        auth_step(actor_id, owner_id, Some(holds_archivist_role)) == AuthStep::Granted
            <==> is_authorized(actor_id, owner_id, holds_archivist_role),
        auth_step(actor_id, owner_id, Some(holds_archivist_role)) == AuthStep::Declined
            <==> !is_authorized(actor_id, owner_id, holds_archivist_role),
        auth_step(owner_id, owner_id, None) == AuthStep::Granted,
        actor_id != owner_id ==> auth_step(actor_id, owner_id, None) == AuthStep::AskRole,
{
}

} // verus!
