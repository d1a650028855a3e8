use vstd::prelude::*;

verus! {

/// What a connection is known by: the values last set by `NICK` and `USER`.
pub struct ClientView {
    pub nickname: Option<Seq<char>>,
    pub username: Option<Seq<char>>,
}

/// The identity of one connected client.
pub struct Client {
    pub nickname: Option<String>,
    pub username: Option<String>,
}

/// The contents of an optional string.
pub open spec fn opt_view(o: Option<String>) -> Option<Seq<char>> {
    match o {
        Some(s) => Some(s@),
        None => None,
    }
}

/// The name shown for a client that has set neither a nickname nor a username.
pub open spec fn anonymous() -> Seq<char> {
    seq!['A', 'n', 'o', 'n', 'y', 'm', 'o', 'u', 's']
}

/// The display name of a client with the given nickname and username.
pub open spec fn display_name_of(nickname: Option<Seq<char>>, username: Option<Seq<char>>) -> Seq<
    char,
> {
    match (nickname, username) {
        (Some(n), Some(u)) => n + seq!['!'] + u,
        (Some(n), None) => n,
        (None, Some(u)) => u,
        (None, None) => anonymous(),
    }
}

impl ClientView {
    /// The identity of a client that has set neither a nickname nor a username.
    pub open spec fn unnamed() -> ClientView {
        ClientView { nickname: None, username: None }
    }

    /// The display name of this identity.
    pub open spec fn display_name(self) -> Seq<char> {
        display_name_of(self.nickname, self.username)
    }
}

impl View for Client {
    type V = ClientView;

    open spec fn view(&self) -> ClientView {
        ClientView { nickname: opt_view(self.nickname), username: opt_view(self.username) }
    }
}

impl Client {
    /// A client that has set neither a nickname nor a username.
    pub fn new() -> (r: Client)
        ensures
            r@ == ClientView::unnamed(),
    {
        Client { nickname: None, username: None }
    }

    /// Replaces the nickname; the username is kept.
    pub fn set_nickname(&mut self, nickname: String)
        ensures
            final(self)@.nickname == Some(nickname@),
            final(self)@.username == old(self)@.username,
    {
        self.nickname = Some(nickname);
    }

    /// Replaces the username; the nickname is kept.
    pub fn set_username(&mut self, username: String)
        ensures
            final(self)@.username == Some(username@),
            final(self)@.nickname == old(self)@.nickname,
    {
        self.username = Some(username);
    }

    /// The name under which this client appears in relayed messages:
    /// `nick!user`, the one of the two that is set, or `Anonymous`.
    pub fn display_name(&self) -> (r: String)
        ensures
            r@ == self@.display_name(),
    {
        match (&self.nickname, &self.username) {
            (Some(n), Some(u)) => {
                let mut r = n.clone();
                r.append("!");
                r.append(u.as_str());
                proof {
                    reveal_strlit("!");
                }
                r
            },
            (Some(n), None) => n.clone(),
            (None, Some(u)) => u.clone(),
            (None, None) => {
                proof {
                    reveal_strlit("Anonymous");
                }
                String::from_str("Anonymous")
            },
        }
    }
}

} // verus!
