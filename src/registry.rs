use vstd::prelude::*;

use crate::client::{Client, ClientView};
use crate::command::{
    lemma_privmsg_body, parse_command, parse_spec, privmsg_line, Command, CommandView,
};
use crate::text::marker_at;
use crate::protocol::{relay_line, relay_spec};

verus! {

/// One line to be written to the connection with handle `to`.
pub struct Delivery {
    pub to: u64,
    pub line: String,
}

impl View for Delivery {
    type V = (u64, Seq<char>);

    open spec fn view(&self) -> (u64, Seq<char>) {
        (self.to, self.line@)
    }
}

/// The handles and lines of a list of deliveries.
pub open spec fn deliveries_view(d: Seq<Delivery>) -> Seq<(u64, Seq<char>)> {
    d.map_values(|x: Delivery| x@)
}

/// The registry as a value: its members in order, each a handle with an identity,
/// and the handle that the next connection will get.
pub struct RegistryView {
    pub members: Seq<(u64, ClientView)>,
    pub next_id: u64,
}

impl RegistryView {
    /// Handles are unique, and each is below `next_id`, so none is ever given twice.
    pub open spec fn wf(self) -> bool {
        &&& forall|i: int, j: int|
            0 <= i < j < self.members.len() ==> self.members[i].0 != self.members[j].0
        &&& forall|i: int| 0 <= i < self.members.len() ==> self.members[i].0 < self.next_id
    }

    /// Whether the connection with handle `id` is registered.
    pub open spec fn contains(self, id: u64) -> bool {
        exists|i: int| 0 <= i < self.members.len() && self.members[i].0 == id
    }

    /// Where the connection with handle `id` stands among the members.
    pub open spec fn position(self, id: u64) -> int
        recommends
            self.contains(id),
    {
        choose|i: int| 0 <= i < self.members.len() && self.members[i].0 == id
    }

    /// The identity of the registered connection with handle `id`.
    pub open spec fn client(self, id: u64) -> ClientView
        recommends
            self.contains(id),
    {
        self.members[self.position(id)].1
    }

    /// The registry after a connection with identity `c` joins under handle `next_id`.
    pub open spec fn add(self, c: ClientView) -> RegistryView {
        RegistryView {
            members: self.members.push((self.next_id, c)),
            next_id: (self.next_id + 1) as u64,
        }
    }

    /// The registry after the connection with handle `id` leaves; unchanged if it
    /// is not there.
    pub open spec fn remove(self, id: u64) -> RegistryView {
        if self.contains(id) {
            RegistryView { members: self.members.remove(self.position(id)), next_id: self.next_id }
        } else {
            self
        }
    }

    /// The registry with the identity of connection `id` replaced by `c`.
    pub open spec fn set_client(self, id: u64, c: ClientView) -> RegistryView {
        if self.contains(id) {
            RegistryView {
                members: self.members.update(self.position(id), (id, c)),
                next_id: self.next_id,
            }
        } else {
            self
        }
    }

    /// One relay line for each member, in member order, each naming that member
    /// as the recipient.
    pub open spec fn broadcast(self, sender: Seq<char>, body: Seq<char>) -> Seq<(u64, Seq<char>)> {
        self.members.map_values(
            |e: (u64, ClientView)| (e.0, relay_spec(sender, e.1.display_name(), body)),
        )
    }

    /// The registry after connection `id` has issued `cmd`.
    pub open spec fn apply(self, id: u64, cmd: CommandView) -> RegistryView {
        let c = self.client(id);
        match cmd {
            CommandView::Nick(n) => self.set_client(
                id,
                ClientView { nickname: Some(n), username: c.username },
            ),
            CommandView::User(u) => self.set_client(
                id,
                ClientView { nickname: c.nickname, username: Some(u) },
            ),
            _ => self,
        }
    }

    /// The lines that `cmd`, issued by connection `id`, sends out.
    pub open spec fn outgoing(self, id: u64, cmd: CommandView) -> Seq<(u64, Seq<char>)> {
        match cmd {
            CommandView::Privmsg(body) => if self.contains(id) {
                self.broadcast(self.client(id).display_name(), body)
            } else {
                Seq::empty()
            },
            _ => Seq::empty(),
        }
    }
}

/// In a well-formed registry, a member's handle determines its position.
pub proof fn lemma_position(r: RegistryView, i: int)
    requires
        r.wf(),
        0 <= i < r.members.len(),
    ensures
        r.contains(r.members[i].0),
        r.position(r.members[i].0) == i,
{
    let id = r.members[i].0;
    assert(r.members[i].0 == id);
    let p = r.position(id);
    assert(p == i);
}

/// Joining adds exactly the new handle, which was not registered before.
pub proof fn lemma_add_membership(r: RegistryView, c: ClientView, id: u64)
    requires
        r.wf(),
        r.next_id < u64::MAX,
    ensures
        r.add(c).wf(),
        !r.contains(r.next_id),
        r.add(c).contains(id) <==> (r.contains(id) || id == r.next_id),
{
    let a = r.add(c);
    if r.contains(id) {
        let i = r.position(id);
        assert(a.members[i].0 == id);
    }
    if id == r.next_id {
        assert(a.members[r.members.len() as int].0 == id);
    }
    if a.contains(id) {
        let k = a.position(id);
        if k < r.members.len() {
            assert(r.members[k].0 == id);
        }
    }
}

/// Leaving removes exactly the handle that leaves; the next handle stays as it was.
pub proof fn lemma_remove_membership(r: RegistryView, x: u64, id: u64)
    requires
        r.wf(),
    ensures
        r.remove(x).wf(),
        r.remove(x).next_id == r.next_id,
        r.remove(x).contains(id) <==> (r.contains(id) && id != x),
{
    if r.contains(x) {
        let p = r.position(x);
        let m = r.remove(x).members;
        assert(m == r.members.remove(p));
        if r.contains(id) && id != x {
            let i = r.position(id);
            if i < p {
                assert(m[i].0 == id);
            } else {
                assert(m[i - 1].0 == id);
            }
        }
        if r.remove(x).contains(id) {
            let k = choose|k: int| 0 <= k < m.len() && m[k].0 == id;
            if k < p {
                assert(r.members[k].0 == id);
            } else {
                assert(r.members[k + 1].0 == id);
            }
        }
    }
}

/// Carrying out a command leaves the set of registered handles as it was.
pub proof fn lemma_apply_membership(r: RegistryView, x: u64, cmd: CommandView, id: u64)
    requires
        r.wf(),
    ensures
        r.apply(x, cmd).wf(),
        r.apply(x, cmd).next_id == r.next_id,
        r.apply(x, cmd).contains(id) <==> r.contains(id),
{
    let a = r.apply(x, cmd);
    assert(a.members.len() == r.members.len());
    assert(forall|k: int| 0 <= k < r.members.len() ==> #[trigger] a.members[k].0 == r.members[k].0);
    if r.contains(id) {
        let i = r.position(id);
        assert(a.members[i].0 == id);
    }
    if a.contains(id) {
        let k = choose|k: int| 0 <= k < a.members.len() && a.members[k].0 == id;
        assert(r.members[k].0 == id);
    }
}

/// Whether a member's handle differs from `id`.
pub open spec fn other_than(id: u64) -> spec_fn((u64, ClientView)) -> bool {
    |e: (u64, ClientView)| e.0 != id
}

proof fn lemma_filter_keeps_all(s: Seq<(u64, ClientView)>, id: u64)
    requires
        forall|k: int| 0 <= k < s.len() ==> #[trigger] s[k].0 != id,
    ensures
        s.filter(other_than(id)) == s,
    decreases s.len(),
{
    reveal(Seq::filter);
    if s.len() > 0 {
        lemma_filter_keeps_all(s.drop_last(), id);
        s.drop_last().lemma_filter_push(s.last(), other_than(id));
        assert(s.drop_last().push(s.last()) =~= s);
    }
}

/// Leaving keeps every other member, in order: the members afterwards are exactly
/// those whose handle is not `id`.
pub proof fn lemma_remove_keeps_others(r: RegistryView, id: u64)
    requires
        r.wf(),
    ensures
        r.remove(id).members == r.members.filter(other_than(id)),
        r.remove(id).next_id == r.next_id,
{
    let s = r.members;
    if r.contains(id) {
        let p = r.position(id);
        assert(0 <= p < s.len() && s[p].0 == id);
        let a = s.subrange(0, p);
        let x = seq![s[p]];
        let b = s.subrange(p + 1, s.len() as int);
        assert(s =~= a + x + b);
        assert(forall|k: int| 0 <= k < a.len() ==> #[trigger] a[k] == s[k]);
        assert(forall|k: int| 0 <= k < b.len() ==> #[trigger] b[k] == s[k + p + 1]);
        lemma_filter_keeps_all(a, id);
        lemma_filter_keeps_all(b, id);
        Seq::filter_distributes_over_add(a + x, b, other_than(id));
        Seq::filter_distributes_over_add(a, x, other_than(id));
        let none = Seq::<(u64, ClientView)>::empty();
        reveal(Seq::filter);
        assert(none.filter(other_than(id)) == none);
        none.lemma_filter_push(s[p], other_than(id));
        assert(none.push(s[p]) =~= x);
        assert(x.filter(other_than(id)) == none);
        assert(s.remove(p) =~= a + b);
        assert(a + Seq::<(u64, ClientView)>::empty() =~= a);
    } else {
        lemma_filter_keeps_all(s, id);
    }
}

/// Lines go only to registered connections: one that has left is never written to.
pub proof fn lemma_outgoing_to_members(r: RegistryView, x: u64, cmd: CommandView)
    ensures
        forall|k: int|
            0 <= k < r.outgoing(x, cmd).len() ==> r.contains(#[trigger] r.outgoing(x, cmd)[k].0),
{
    assert forall|k: int| 0 <= k < r.outgoing(x, cmd).len() implies r.contains(
        #[trigger] r.outgoing(x, cmd)[k].0,
    ) by {
        assert(r.members[k].0 == r.outgoing(x, cmd)[k].0);
    }
}

/// A message from a registered connection yields exactly one line for each registered
/// connection, in member order: `:<sender> PRIVMSG <recipient> :<body>\r\n`, with the
/// sender's and each recipient's own display names and the body verbatim, whatever
/// target the line named.
pub proof fn lemma_relay_reaches_every_member(
    r: RegistryView,
    x: u64,
    target: Seq<char>,
    body: Seq<char>,
)
    requires
        r.contains(x),
        forall|k: int| 0 <= k < target.len() ==> !#[trigger] marker_at(seq![' '] + target, k),
    ensures
        r.outgoing(x, parse_spec(privmsg_line(target, body))).len() == r.members.len(),
        forall|i: int|
            0 <= i < r.members.len() ==> #[trigger] r.outgoing(
                x,
                parse_spec(privmsg_line(target, body)),
            )[i] == (r.members[i].0, relay_spec(
                r.client(x).display_name(),
                r.members[i].1.display_name(),
                body,
            )),
{
    lemma_privmsg_body(target, body);
}

/// Removing a connection that is not registered changes nothing.
pub proof fn lemma_remove_absent(r: RegistryView, id: u64)
    requires
        !r.contains(id),
    ensures
        r.remove(id) == r,
{
}

/// The connections that are currently registered, each with its identity.
pub struct Registry {
    members: Vec<(u64, Client)>,
    next_id: u64,
}

impl View for Registry {
    type V = RegistryView;

    closed spec fn view(&self) -> RegistryView {
        RegistryView {
            members: self.members@.map_values(|e: (u64, Client)| (e.0, e.1@)),
            next_id: self.next_id,
        }
    }
}

impl Registry {
    /// An empty registry.
    pub fn new() -> (r: Registry)
        ensures
            r@.members == Seq::<(u64, ClientView)>::empty(),
            r@.next_id == 0,
            r@.wf(),
    {
        let r = Registry { members: Vec::new(), next_id: 0 };
        assert(r@.members =~= Seq::<(u64, ClientView)>::empty());
        r
    }

    /// The number of registered connections.
    pub fn len(&self) -> (r: usize)
        ensures
            r == self@.members.len(),
    {
        self.members.len()
    }

    /// Whether another connection can still be given a fresh handle.
    pub fn can_add(&self) -> (r: bool)
        ensures
            r == (self@.next_id < u64::MAX),
    {
        self.next_id < u64::MAX
    }

    /// The position of the connection with handle `id`, if it is registered.
    fn find(&self, id: u64) -> (r: Option<usize>)
        requires
            self@.wf(),
        ensures
            match r {
                Some(i) => self@.contains(id) && i == self@.position(id) && i
                    < self@.members.len(),
                None => !self@.contains(id),
            },
    {
        let mut i: usize = 0;
        while i < self.members.len()
            invariant
                self@.wf(),
                i <= self@.members.len(),
                forall|k: int| 0 <= k < i ==> self@.members[k].0 != id,
            decreases self@.members.len() - i,
        {
            if self.members[i].0 == id {
                proof {
                    lemma_position(self@, i as int);
                }
                return Some(i);
            }
            i = i + 1;
        }
        None
    }

    /// Whether the connection with handle `id` is registered.
    pub fn contains(&self, id: u64) -> (r: bool)
        requires
            self@.wf(),
        ensures
            r == self@.contains(id),
    {
        self.find(id).is_some()
    }

    /// Registers a connection with identity `client` and returns its handle, which
    /// no connection has had before.
    pub fn add(&mut self, client: Client) -> (id: u64)
        requires
            old(self)@.wf(),
            old(self)@.next_id < u64::MAX,
        ensures
            id == old(self)@.next_id,
            final(self)@ == old(self)@.add(client@),
            final(self)@.wf(),
            !old(self)@.contains(id),
    {
        let id = self.next_id;
        let ghost before = self@;
        self.members.push((id, client));
        self.next_id = id + 1;
        assert(self@.members =~= before.add(client@).members);
        id
    }

    /// Deregisters the connection with handle `id`. Nothing changes when it is not
    /// registered.
    pub fn remove(&mut self, id: u64)
        requires
            old(self)@.wf(),
        ensures
            final(self)@ == old(self)@.remove(id),
            final(self)@.members == old(self)@.members.filter(other_than(id)),
            final(self)@.wf(),
            !final(self)@.contains(id),
    {
        let ghost before = self@;
        proof {
            lemma_remove_keeps_others(before, id);
        }
        match self.find(id) {
            Some(i) => {
                let _ = self.members.remove(i);
                assert(self@.members =~= before.members.remove(i as int));
            },
            None => {},
        }
    }

    /// The display name of the connection with handle `id`, if it is registered.
    pub fn display_name(&self, id: u64) -> (r: Option<String>)
        requires
            self@.wf(),
        ensures
            match r {
                Some(s) => self@.contains(id) && s@ == self@.client(id).display_name(),
                None => !self@.contains(id),
            },
    {
        match self.find(id) {
            Some(i) => Some(self.members[i].1.display_name()),
            None => None,
        }
    }

    /// One relay line of `body` from `sender` for each registered connection,
    /// whatever the target the message named, each with the recipient's own
    /// display name.
    pub fn broadcast(&self, sender: &str, body: &str) -> (r: Vec<Delivery>)
        ensures
            deliveries_view(r@) == self@.broadcast(sender@, body@),
    {
        let mut out: Vec<Delivery> = Vec::new();
        let mut i: usize = 0;
        while i < self.members.len()
            invariant
                i <= self@.members.len(),
                out@.len() == i,
                forall|k: int| 0 <= k < i ==> #[trigger] out@[k]@ == self@.broadcast(sender@, body@)[k],
            decreases self@.members.len() - i,
        {
            let name = self.members[i].1.display_name();
            let line = relay_line(sender, name.as_str(), body);
            out.push(Delivery { to: self.members[i].0, line });
            i = i + 1;
        }
        assert(deliveries_view(out@) =~= self@.broadcast(sender@, body@));
        out
    }

    /// Carries out `cmd` on behalf of connection `id`: a new nickname or username
    /// replaces the old one, a message is broadcast under the sender's display name,
    /// and nothing else has any effect. Nothing happens for a handle that is not
    /// registered.
    pub fn apply(&mut self, id: u64, cmd: Command) -> (r: Vec<Delivery>)
        requires
            old(self)@.wf(),
        ensures
            final(self)@ == old(self)@.apply(id, cmd@),
            final(self)@.wf(),
            deliveries_view(r@) == old(self)@.outgoing(id, cmd@),
    {
        let ghost before = self@;
        let pos = self.find(id);
        match pos {
            None => {
                proof {
                    assert(deliveries_view(Seq::<Delivery>::empty()) =~= Seq::empty());
                }
                Vec::new()
            },
            Some(i) => {
                match cmd {
                    Command::Nick(n) => {
                        self.members[i].1.set_nickname(n);
                        assert(self@.members =~= before.apply(id, cmd@).members);
                        assert(deliveries_view(Seq::<Delivery>::empty()) =~= Seq::empty());
                        Vec::new()
                    },
                    Command::User(u) => {
                        self.members[i].1.set_username(u);
                        assert(self@.members =~= before.apply(id, cmd@).members);
                        assert(deliveries_view(Seq::<Delivery>::empty()) =~= Seq::empty());
                        Vec::new()
                    },
                    Command::Privmsg(body) => {
                        let sender = self.members[i].1.display_name();
                        self.broadcast(sender.as_str(), body.as_str())
                    },
                    Command::Unrecognized => {
                        assert(deliveries_view(Seq::<Delivery>::empty()) =~= Seq::empty());
                        Vec::new()
                    },
                }
            },
        }
    }

    /// Reads `line`, received from connection `id`, as a command and carries it out.
    pub fn dispatch(&mut self, id: u64, line: &str) -> (r: Vec<Delivery>)
        requires
            old(self)@.wf(),
        ensures
            final(self)@ == old(self)@.apply(id, parse_spec(line@)),
            final(self)@.wf(),
            deliveries_view(r@) == old(self)@.outgoing(id, parse_spec(line@)),
    {
        let cmd = parse_command(line);
        self.apply(id, cmd)
    }
}

} // verus!
