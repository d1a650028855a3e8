use vstd::prelude::*;

use crate::client::{Client, ClientView};
use crate::command::parse_spec;
use crate::history::{lemma_display_name_follows_latest, lemma_left_stays_out, leaves, RegistryOp};
use crate::protocol::{welcome_line, WELCOME};
use crate::registry::{
    deliveries_view, lemma_add_membership, lemma_apply_membership, lemma_remove_membership, Delivery,
    Registry, RegistryView,
};

verus! {

/// Where a session stands in its life.
#[derive(PartialEq, Eq, Structural)]
pub enum Phase {
    /// Registered; the welcome line is being written.
    Registered,
    /// Reading and carrying out lines.
    Active,
    /// Deregistered; nothing more is read or written.
    Closed,
}

/// What the transport reports to a session.
pub enum Event {
    /// The welcome line was written.
    WelcomeSent,
    /// Writing the welcome line failed.
    WelcomeFailed,
    /// One line was read.
    Line(String),
    /// The stream ended, or reading from it failed.
    StreamEnded,
}

/// The state of one connection's session.
pub struct Session {
    pub id: u64,
    pub phase: Phase,
}

/// A session and the registry agree: the connection is registered exactly while
/// the session is not closed, and its handle was handed out by this registry.
pub open spec fn consistent(s: Session, r: RegistryView) -> bool {
    &&& r.wf()
    &&& s.id < r.next_id
    &&& (r.contains(s.id) <==> s.phase != Phase::Closed)
}

impl Session {
    /// Registers a new connection with no identity; the caller then writes the
    /// returned welcome line to it.
    pub fn open(registry: &mut Registry) -> (r: (Session, String))
        requires
            old(registry)@.wf(),
            old(registry)@.next_id < u64::MAX,
        ensures
            r.0.id == old(registry)@.next_id,
            r.0.phase == Phase::Registered,
            final(registry)@ == old(registry)@.add(ClientView::unnamed()),
            consistent(r.0, final(registry)@),
            r.1@ == WELCOME@,
    {
        let ghost before = registry@;
        let id = registry.add(Client::new());
        proof {
            lemma_add_membership(before, ClientView::unnamed(), id);
        }
        (Session { id, phase: Phase::Registered }, welcome_line())
    }

    /// Takes one event and returns the lines to write. A welcome line that was
    /// written makes the session active; a line read while active is carried out;
    /// a failed welcome or the end of the stream deregisters the connection and
    /// closes the session. Any other event changes nothing.
    pub fn step(&mut self, registry: &mut Registry, event: Event) -> (r: Vec<Delivery>)
        requires
            old(registry)@.wf(),
        ensures
            final(registry)@.wf(),
            final(self).id == old(self).id,
            match (old(self).phase, event) {
                (Phase::Registered, Event::WelcomeSent) => {
                    &&& final(self).phase == Phase::Active
                    &&& final(registry)@ == old(registry)@
                    &&& r@.len() == 0
                },
                (Phase::Registered, Event::WelcomeFailed) | (Phase::Registered, Event::StreamEnded) | (
                    Phase::Active,
                    Event::StreamEnded,
                ) => {
                    &&& final(self).phase == Phase::Closed
                    &&& final(registry)@ == old(registry)@.remove(old(self).id)
                    &&& r@.len() == 0
                },
                (Phase::Active, Event::Line(line)) => {
                    &&& final(self).phase == Phase::Active
                    &&& final(registry)@ == old(registry)@.apply(old(self).id, parse_spec(line@))
                    &&& deliveries_view(r@) == old(registry)@.outgoing(
                        old(self).id,
                        parse_spec(line@),
                    )
                },
                _ => {
                    &&& final(self).phase == old(self).phase
                    &&& final(registry)@ == old(registry)@
                    &&& r@.len() == 0
                },
            },
            consistent(*old(self), old(registry)@) ==> consistent(*final(self), final(registry)@),
    {
        proof {
            lemma_remove_membership(registry@, self.id, self.id);
        }
        match (&self.phase, event) {
            (Phase::Registered, Event::WelcomeSent) => {
                self.phase = Phase::Active;
                Vec::new()
            },
            (Phase::Registered, Event::WelcomeFailed) | (Phase::Registered, Event::StreamEnded) | (
                Phase::Active,
                Event::StreamEnded,
            ) => {
                registry.remove(self.id);
                self.phase = Phase::Closed;
                Vec::new()
            },
            (Phase::Active, Event::Line(line)) => {
                proof {
                    lemma_apply_membership(registry@, self.id, parse_spec(line@), self.id);
                }
                registry.dispatch(self.id, line.as_str())
            },
            _ => Vec::new(),
        }
    }
}

/// Whatever other sessions do to the registry, as long as this session does not
/// leave, its connection is registered exactly while the session is not closed.
pub proof fn lemma_consistent_under_others(s: Session, r: RegistryView, ops: Seq<RegistryOp>)
    requires
        consistent(s, r),
        !leaves(ops, s.id),
    ensures
        consistent(s, r.run(ops)),
{
    if r.contains(s.id) {
        lemma_display_name_follows_latest(r, ops, s.id);
        let q = r.run(ops);
        assert(s.id < q.next_id) by {
            let i = q.position(s.id);
            assert(q.members[i].0 == s.id);
        }
    } else {
        lemma_left_stays_out(r, ops, s.id);
    }
}

} // verus!
