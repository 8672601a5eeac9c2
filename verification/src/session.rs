//! Per-connection session logic: the join-before-message state machine that
//! a server runs for each accepted connection, over the shared
//! [`ConnectionRegistry`].
//!
//! A session is `Unjoined` until its identity is registered, `Joined` while
//! it may send messages, and `Closed` once the connection ends; closing
//! always unregisters the identity. Protocol-state faults (a message before
//! joining, a duplicate join) are answered in-protocol and keep the session
//! alive; transport and framing faults close it.

use vstd::prelude::*;

use crate::codec::{Request, RequestView, Response, ResponseView};
use crate::registry::ConnectionRegistry;

verus! {

/// Where a session stands in its lifecycle.
#[derive(Clone, Copy, PartialEq, Eq, Structural, Debug)]
pub enum SessionState {
    /// No join accepted yet: messages are answered with `Error`.
    Unjoined,
    /// The identity is registered: messages are accepted.
    Joined,
    /// Terminal: the connection ended and the identity was unregistered.
    Closed,
}

/// One connection's session: its identity and its current state.
pub struct Session {
    /// The key under which the registry knows this connection.
    pub identity: u128,
    /// The current lifecycle state.
    pub state: SessionState,
}

/// The transition table: from a state, the registered members and one
/// request, to the next state, the new members and the response. The
/// `message_id` argument is the identifier a freshly accepted message is
/// filed under.
pub open spec fn spec_step(
    state: SessionState,
    members: Set<u128>,
    identity: u128,
    req: RequestView,
    message_id: u128,
) -> (SessionState, Set<u128>, ResponseView) {
    match state {
        SessionState::Unjoined => match req {
            RequestView::Join { room_id } => {
                if !members.contains(identity) {
                    (SessionState::Joined, members.insert(identity), ResponseView::Joined {
                        room_id,
                    })
                } else {
                    (SessionState::Unjoined, members, ResponseView::JoinReject)
                }
            },
            RequestView::Message { .. } => (SessionState::Unjoined, members, ResponseView::Error),
        },
        SessionState::Joined => match req {
            RequestView::Join { .. } => (SessionState::Joined, members, ResponseView::JoinReject),
            RequestView::Message { .. } => (SessionState::Joined, members, ResponseView::MsgSent {
                message_id,
            }),
        },
        SessionState::Closed => (SessionState::Closed, members, ResponseView::Error),
    }
}

/// Relies on `uuid::Uuid::new_v4` and `uuid::Uuid::as_u128`: a freshly
/// generated random version-4 UUID as its 128-bit value. The value is
/// random, so nothing is promised of it.
#[verifier::external_body]
fn fresh_message_id() -> u128 {
    uuid::Uuid::new_v4().as_u128()
}

impl Session {
    /// A session for a newly accepted connection: not yet joined.
    pub fn new(identity: u128) -> (s: Session)
        ensures
            s.identity == identity,
            s.state == SessionState::Unjoined,
    {
        Session { identity, state: SessionState::Unjoined }
    }

    /// Answers one request exactly as the transition table says, the offered
    /// `message_id` naming an accepted message. The registry check and
    /// insert happen as one operation inside `try_register`.
    pub fn step(
        &mut self,
        registry: &mut ConnectionRegistry,
        req: &Request,
        message_id: u128,
    ) -> (resp: Response)
        requires
            old(self).state is Unjoined || old(self).state is Joined,
            old(registry).wf(),
        ensures
            final(registry).wf(),
            final(self).identity == old(self).identity,
            (final(self).state, final(registry)@, resp@) == spec_step(
                old(self).state,
                old(registry)@,
                old(self).identity,
                req@,
                message_id,
            ),
    {
        match self.state {
            SessionState::Unjoined => match req {
                Request::Join(room_id) => {
                    if registry.try_register(self.identity) {
                        self.state = SessionState::Joined;
                        Response::Joined(*room_id)
                    } else {
                        proof {
                            assert(final(registry)@ =~= old(registry)@);
                        }
                        Response::JoinReject
                    }
                },
                Request::Message { .. } => Response::Error,
            },
            SessionState::Joined => match req {
                Request::Join(_) => Response::JoinReject,
                Request::Message { .. } => Response::MsgSent(message_id),
            },
            SessionState::Closed => Response::Error,
        }
    }

    /// Answers one request, generating a fresh identifier for an accepted
    /// message. The outcome is a transition of the table under some
    /// identifier.
    pub fn handle(&mut self, registry: &mut ConnectionRegistry, req: &Request) -> (resp: Response)
        requires
            old(self).state is Unjoined || old(self).state is Joined,
            old(registry).wf(),
        ensures
            final(registry).wf(),
            final(self).identity == old(self).identity,
            exists|mid: u128|
                (final(self).state, final(registry)@, resp@) == #[trigger] spec_step(
                    old(self).state,
                    old(registry)@,
                    old(self).identity,
                    req@,
                    mid,
                ),
    {
        let mid = fresh_message_id();
        let resp = self.step(registry, req, mid);
        proof {
            assert((final(self).state, final(registry)@, resp@) == spec_step(
                old(self).state,
                old(registry)@,
                old(self).identity,
                req@,
                mid,
            ));
        }
        resp
    }

    /// Ends the session: the state becomes terminal and the identity leaves
    /// the registry, whatever caused the closure, so the slot can be reused
    /// by a later connection.
    pub fn close(&mut self, registry: &mut ConnectionRegistry)
        requires
            old(registry).wf(),
        ensures
            final(registry).wf(),
            final(self).identity == old(self).identity,
            final(self).state == SessionState::Closed,
            final(registry)@ == old(registry)@.remove(old(self).identity),
    {
        registry.unregister(self.identity);
        self.state = SessionState::Closed;
    }
}

/// Law: from a fresh registry a join is accepted and echoes the room; a
/// message from the now-joined session is accepted under the offered
/// identifier; a message from a session that never joined is answered with
/// an in-protocol error.
pub proof fn lemma_join_then_message(
    identity: u128,
    other: u128,
    room_id: u128,
    text: Seq<char>,
    message_id: u128,
)
    ensures
        ({
            let (s1, m1, r1) = spec_step(
                SessionState::Unjoined,
                Set::<u128>::empty(),
                identity,
                RequestView::Join { room_id },
                message_id,
            );
            &&& s1 == SessionState::Joined
            &&& m1 == Set::<u128>::empty().insert(identity)
            &&& r1 == (ResponseView::Joined { room_id })
            &&& ({
                let (s2, m2, r2) = spec_step(
                    s1,
                    m1,
                    identity,
                    RequestView::Message { room_id, text },
                    message_id,
                );
                &&& s2 == SessionState::Joined
                &&& m2 == m1
                &&& r2 == (ResponseView::MsgSent { message_id })
            })
        }),
        spec_step(
            SessionState::Unjoined,
            Set::<u128>::empty(),
            other,
            RequestView::Message { room_id, text },
            message_id,
        ).2 == ResponseView::Error,
{
}

/// Law: while an identity stays registered, a further join from it, whether
/// the session has joined or not, is rejected and changes neither the
/// session's standing nor the membership.
pub proof fn lemma_duplicate_join(
    state: SessionState,
    members: Set<u128>,
    identity: u128,
    room_id: u128,
    message_id: u128,
)
    requires
        members.contains(identity),
        state is Unjoined || state is Joined,
    ensures
        spec_step(state, members, identity, RequestView::Join { room_id }, message_id)
            == (state, members, ResponseView::JoinReject),
{
}

/// The registry contents after a series of fresh sessions have each issued
/// one join, in this order, through the registry's lock. Which joins are
/// accepted does not depend on the rooms asked for, so the room is left at
/// zero here.
pub open spec fn spec_members_after_joins(members: Set<u128>, ids: Seq<u128>) -> Set<u128>
    decreases ids.len(),
{
    if ids.len() == 0 {
        members
    } else {
        spec_members_after_joins(
            spec_step(
                SessionState::Unjoined,
                members,
                ids[0],
                RequestView::Join { room_id: 0 },
                0,
            ).1,
            ids.drop_first(),
        )
    }
}

/// A series of joins registers exactly the identities that attempted, on
/// top of those already present.
pub proof fn lemma_members_after_joins(members: Set<u128>, ids: Seq<u128>, x: u128)
    ensures
        spec_members_after_joins(members, ids).contains(x) <==> members.contains(x)
            || ids.contains(x),
    decreases ids.len(),
{
    if ids.len() != 0 {
        let after_first = spec_step(
            SessionState::Unjoined,
            members,
            ids[0],
            RequestView::Join { room_id: 0 },
            0,
        ).1;
        lemma_members_after_joins(after_first, ids.drop_first(), x);
        assert(after_first.contains(x) <==> members.contains(x) || x == ids[0]);
        if ids.contains(x) {
            let k = choose|k: int| 0 <= k < ids.len() && ids[k] == x;
            if k > 0 {
                assert(ids.drop_first()[k - 1] == x);
                assert(ids.drop_first().contains(x));
            }
        }
        if ids.drop_first().contains(x) {
            let k = choose|k: int| 0 <= k < ids.drop_first().len() && ids.drop_first()[k] == x;
            assert(ids[k + 1] == x);
            assert(ids.contains(x));
        }
        if x == ids[0] {
            assert(ids.contains(x));
        }
    }
}

/// Law: N connections issue joins, serialised in some order by the
/// registry's lock. An attempt is accepted, and answered with its room,
/// exactly when its identity was neither registered at the outset nor used
/// by any earlier attempt: joins with distinct fresh identities are all
/// accepted, and of several with one identity exactly the first is.
pub proof fn lemma_join_race(
    members: Set<u128>,
    ids: Seq<u128>,
    i: int,
    room_id: u128,
    message_id: u128,
)
    requires
        0 <= i < ids.len(),
    ensures
        ({
            let before = spec_members_after_joins(members, ids.take(i));
            let resp = spec_step(
                SessionState::Unjoined,
                before,
                ids[i],
                RequestView::Join { room_id },
                message_id,
            ).2;
            resp == if members.contains(ids[i]) || (exists|j: int|
                0 <= j < i && ids[j] == ids[i]) {
                ResponseView::JoinReject
            } else {
                ResponseView::Joined { room_id }
            }
        }),
{
    let earlier = ids.take(i);
    lemma_members_after_joins(members, earlier, ids[i]);
    if earlier.contains(ids[i]) {
        let k = choose|k: int| 0 <= k < earlier.len() && earlier[k] == ids[i];
        assert(ids[k] == ids[i]);
    }
    if exists|j: int| 0 <= j < i && ids[j] == ids[i] {
        let j = choose|j: int| 0 <= j < i && ids[j] == ids[i];
        assert(earlier[j] == ids[i]);
        assert(earlier.contains(ids[i]));
    }
}

/// Law: the registry admits each identity once, so of two join attempts
/// racing for the same identity, in whichever order the registry's lock
/// serialises them, exactly the first is accepted; attempts with distinct
/// identities do not disturb each other and are all accepted.
pub proof fn lemma_concurrent_joins(
    members: Set<u128>,
    a: u128,
    b: u128,
    room_a: u128,
    room_b: u128,
    message_id: u128,
)
    requires
        !members.contains(a),
        !members.contains(b),
    ensures
        ({
            let (s1, m1, r1) = spec_step(
                SessionState::Unjoined,
                members,
                a,
                RequestView::Join { room_id: room_a },
                message_id,
            );
            let (s2, m2, r2) = spec_step(
                SessionState::Unjoined,
                m1,
                a,
                RequestView::Join { room_id: room_b },
                message_id,
            );
            r1 == (ResponseView::Joined { room_id: room_a }) && r2 == ResponseView::JoinReject
                && m2 == m1
        }),
        a != b ==> ({
            let (s1, m1, r1) = spec_step(
                SessionState::Unjoined,
                members,
                a,
                RequestView::Join { room_id: room_a },
                message_id,
            );
            let (s2, m2, r2) = spec_step(
                SessionState::Unjoined,
                m1,
                b,
                RequestView::Join { room_id: room_b },
                message_id,
            );
            r1 == (ResponseView::Joined { room_id: room_a }) && r2 == (ResponseView::Joined {
                room_id: room_b,
            }) && m1.contains(b) == members.contains(b)
        }),
{
}

} // verus!
