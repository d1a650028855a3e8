use vstd::prelude::*;

use crate::client::{display_name_of, ClientView};
use crate::command::{nick_prefix, parse_spec, user_prefix, CommandView};
use crate::text::{first_word, record_of, starts_with, trim_front, trimmed};
use crate::registry::{
    lemma_add_membership, lemma_apply_membership, lemma_position, lemma_remove_membership,
    RegistryView,
};

verus! {

/// One change to the registry, made by any session.
pub enum RegistryOp {
    /// A connection with this identity registers under the next handle.
    Join(ClientView),
    /// The connection with this handle deregisters.
    Leave(u64),
    /// The connection with this handle sends a line.
    Issue(u64, Seq<char>),
}

impl RegistryView {
    /// The registry after `op`. A join is refused once every handle has been given out.
    pub open spec fn step(self, op: RegistryOp) -> RegistryView {
        match op {
            RegistryOp::Join(c) => if self.next_id < u64::MAX {
                self.add(c)
            } else {
                self
            },
            RegistryOp::Leave(x) => self.remove(x),
            RegistryOp::Issue(x, line) => self.apply(x, parse_spec(line)),
        }
    }

    /// The registry after each of `ops` in turn.
    pub open spec fn run(self, ops: Seq<RegistryOp>) -> RegistryView
        decreases ops.len(),
    {
        if ops.len() == 0 {
            self
        } else {
            self.run(ops.drop_last()).step(ops.last())
        }
    }
}

/// Whether `ops` holds a `Leave` of handle `id`.
pub open spec fn leaves(ops: Seq<RegistryOp>, id: u64) -> bool {
    exists|k: int| 0 <= k < ops.len() && ops[k] == RegistryOp::Leave(id)
}

/// The nickname named by `line`, if it is a `NICK` record: the rest of the record,
/// trimmed of white space.
pub open spec fn nickname_in(line: Seq<char>) -> Option<Seq<char>> {
    let rec = record_of(line);
    if starts_with(rec, nick_prefix()) {
        Some(trimmed(rec.subrange(5, rec.len() as int)))
    } else {
        None
    }
}

/// The username named by `line`, if it is a `USER` record with a second word.
pub open spec fn username_in(line: Seq<char>) -> Option<Seq<char>> {
    let rec = record_of(line);
    let word = first_word(trim_front(rec.subrange(5, rec.len() as int)));
    if starts_with(rec, user_prefix()) && word.len() > 0 {
        Some(word)
    } else {
        None
    }
}

/// The nickname that connection `id` set last in `ops`, or `init` if it set none.
pub open spec fn last_nickname(ops: Seq<RegistryOp>, id: u64, init: Option<Seq<char>>) -> Option<
    Seq<char>,
>
    decreases ops.len(),
{
    if ops.len() == 0 {
        init
    } else {
        let earlier = last_nickname(ops.drop_last(), id, init);
        match ops.last() {
            RegistryOp::Issue(x, line) => if x == id && nickname_in(line) is Some {
                nickname_in(line)
            } else {
                earlier
            },
            _ => earlier,
        }
    }
}

/// The username that connection `id` set last in `ops`, or `init` if it set none.
pub open spec fn last_username(ops: Seq<RegistryOp>, id: u64, init: Option<Seq<char>>) -> Option<
    Seq<char>,
>
    decreases ops.len(),
{
    if ops.len() == 0 {
        init
    } else {
        let earlier = last_username(ops.drop_last(), id, init);
        match ops.last() {
            RegistryOp::Issue(x, line) => if x == id && username_in(line) is Some {
                username_in(line)
            } else {
                earlier
            },
            _ => earlier,
        }
    }
}

/// A line sets a nickname or a username exactly when it reads as that command.
proof fn lemma_identity_records(line: Seq<char>)
    ensures
        match parse_spec(line) {
            CommandView::Nick(n) => nickname_in(line) == Some(n) && username_in(line) is None,
            CommandView::User(u) => username_in(line) == Some(u) && nickname_in(line) is None,
            _ => nickname_in(line) is None && username_in(line) is None,
        },
{
    let rec = record_of(line);
    if starts_with(rec, user_prefix()) {
        assert(rec.subrange(0, 5)[0] == 'U');
        assert(nick_prefix()[0] == 'N');
    }
}

/// One operation keeps a registered connection registered unless it is its own
/// `Leave`, and changes its identity only by its own `NICK` or `USER`.
proof fn lemma_step_member(r: RegistryView, op: RegistryOp, id: u64)
    requires
        r.wf(),
        r.contains(id),
        op != RegistryOp::Leave(id),
    ensures
        r.step(op).wf(),
        r.step(op).contains(id),
        r.step(op).client(id) == ({
            let c = r.client(id);
            match op {
                RegistryOp::Issue(x, line) => if x == id {
                    match parse_spec(line) {
                        CommandView::Nick(n) => ClientView { nickname: Some(n), username: c.username },
                        CommandView::User(u) => ClientView { nickname: c.nickname, username: Some(u) },
                        _ => c,
                    }
                } else {
                    c
                },
                _ => c,
            }
        }),
{
    let i = r.position(id);
    let s = r.step(op);
    lemma_position(r, i);
    match op {
        RegistryOp::Join(c) => {
            if r.next_id < u64::MAX {
                lemma_add_membership(r, c, id);
                assert(s.members[i] == r.members[i]);
                lemma_position(s, i);
            }
        },
        RegistryOp::Leave(x) => {
            lemma_remove_membership(r, x, id);
            if r.contains(x) {
                let p = r.position(x);
                lemma_position(r, p);
                if i < p {
                    assert(s.members[i] == r.members[i]);
                    lemma_position(s, i);
                } else {
                    assert(s.members[i - 1] == r.members[i]);
                    lemma_position(s, i - 1);
                }
            }
        },
        RegistryOp::Issue(x, line) => {
            lemma_apply_membership(r, x, parse_spec(line), id);
            if r.contains(x) {
                let p = r.position(x);
                lemma_position(r, p);
                lemma_position(s, i);
            }
        },
    }
}

/// Whatever other connections send or do in between, a connection stays registered
/// until it leaves, and its display name is always that of the nickname and username
/// that its own `NICK` and `USER` lines set last: `nick!user`, the one of them it
/// set, or `Anonymous`.
pub proof fn lemma_display_name_follows_latest(r: RegistryView, ops: Seq<RegistryOp>, id: u64)
    requires
        r.wf(),
        r.contains(id),
        !leaves(ops, id),
    ensures
        r.run(ops).wf(),
        r.run(ops).contains(id),
        r.run(ops).client(id).nickname == last_nickname(ops, id, r.client(id).nickname),
        r.run(ops).client(id).username == last_username(ops, id, r.client(id).username),
        r.run(ops).client(id).display_name() == display_name_of(
            last_nickname(ops, id, r.client(id).nickname),
            last_username(ops, id, r.client(id).username),
        ),
    decreases ops.len(),
{
    if ops.len() > 0 {
        let front = ops.drop_last();
        assert(!leaves(front, id)) by {
            if leaves(front, id) {
                let k = choose|k: int| 0 <= k < front.len() && front[k] == RegistryOp::Leave(id);
                assert(ops[k] == RegistryOp::Leave(id));
            }
        }
        assert(ops.last() != RegistryOp::Leave(id)) by {
            if ops.last() == RegistryOp::Leave(id) {
                assert(ops[ops.len() - 1] == RegistryOp::Leave(id));
            }
        }
        lemma_display_name_follows_latest(r, front, id);
        lemma_step_member(r.run(front), ops.last(), id);
        if let RegistryOp::Issue(x, line) = ops.last() {
            lemma_identity_records(line);
        }
    }
}

/// A handle that has been given out and is not registered never becomes registered
/// again: once a connection has left, no later operation brings it back.
pub proof fn lemma_left_stays_out(r: RegistryView, ops: Seq<RegistryOp>, id: u64)
    requires
        r.wf(),
        id < r.next_id,
        !r.contains(id),
    ensures
        r.run(ops).wf(),
        id < r.run(ops).next_id,
        !r.run(ops).contains(id),
    decreases ops.len(),
{
    if ops.len() > 0 {
        let front = ops.drop_last();
        lemma_left_stays_out(r, front, id);
        let q = r.run(front);
        match ops.last() {
            RegistryOp::Join(c) => {
                if q.next_id < u64::MAX {
                    lemma_add_membership(q, c, id);
                }
            },
            RegistryOp::Leave(x) => {
                lemma_remove_membership(q, x, id);
            },
            RegistryOp::Issue(x, line) => {
                lemma_apply_membership(q, x, parse_spec(line), id);
            },
        }
    }
}

} // verus!
