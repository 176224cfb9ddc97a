//! The session gateway: the decisions taken for one client connection.
//!
//! The connection itself (reading frames, decoding them, writing replies) lives
//! with the caller, which hands each decoded message here and carries out the
//! action that comes back.
use vstd::prelude::*;
use crate::protocol::{ClientMessage, Intent, ServerError, SessionId};

verus! {

/// The game a session has joined.
pub struct SessionGame {
    pub token: String,
    pub id: SessionId,
}

/// One client connection.
pub struct Session {
    game: Option<SessionGame>,
    connecting: bool,
}

pub struct SessionView {
    /// Token and participant id of the joined game.
    pub joined: Option<(Seq<char>, SessionId)>,
    /// A join request is on its way.
    pub connecting: bool,
}

/// What the caller must do for a client message.
pub enum GatewayAction {
    /// Resolve `token` in the directory and ask that coordinator to admit `username`.
    Connect { token: String, username: String },
    /// Hand the intent to the joined coordinator on behalf of participant `id`.
    Forward { id: SessionId, intent: Intent },
    /// Reply to this connection with an error.
    Reply(ServerError),
}

pub enum ActionView {
    Connect { token: Seq<char>, username: Seq<char> },
    Forward { id: SessionId, intent: Intent },
    Reply(ServerError),
}

impl View for Session {
    type V = SessionView;

    closed spec fn view(&self) -> SessionView {
        SessionView {
            joined: match self.game {
                Some(g) => Some((g.token@, g.id)),
                None => None,
            },
            connecting: self.connecting,
        }
    }
}

impl View for GatewayAction {
    type V = ActionView;

    open spec fn view(&self) -> ActionView {
        match self {
            GatewayAction::Connect { token, username } => ActionView::Connect {
                token: token@,
                username: username@,
            },
            GatewayAction::Forward { id, intent } => ActionView::Forward { id: *id, intent: *intent },
            GatewayAction::Reply(e) => ActionView::Reply(*e),
        }
    }
}

pub open spec fn intent_of(m: ClientMessage) -> Option<Intent> {
    match m {
        ClientMessage::Ready => Some(Intent::Ready),
        ClientMessage::Start => Some(Intent::Start),
        ClientMessage::Cancel => Some(Intent::Cancel),
        ClientMessage::Answer(a) => Some(Intent::Answer(a)),
        ClientMessage::TryConnect { .. } => None,
    }
}

/// A message that needs a game is forwarded when one is joined and refused otherwise.
pub open spec fn forward_spec(s: SessionView, intent: Intent) -> ActionView {
    match s.joined {
        Some((_, id)) => ActionView::Forward { id, intent },
        None => ActionView::Reply(ServerError::NotJoined),
    }
}

/// A join request is sent only when no game is joined and none is being joined.
pub open spec fn connect_spec(s: SessionView, token: Seq<char>, username: Seq<char>) -> (
    SessionView,
    ActionView,
) {
    if s.joined is Some || s.connecting {
        (s, ActionView::Reply(ServerError::AlreadyJoined))
    } else {
        (SessionView { connecting: true, ..s }, ActionView::Connect { token, username })
    }
}

/// What a decoded client message does to a session and asks of the caller.
pub open spec fn message_spec(s: SessionView, m: ClientMessage) -> (SessionView, ActionView) {
    match m {
        ClientMessage::TryConnect { token, username } => connect_spec(s, token@, username@),
        _ => (s, forward_spec(s, intent_of(m)->Some_0)),
    }
}

/// An undecodable frame gets a `MalformedMessage` reply and changes nothing.
pub open spec fn frame_spec(s: SessionView, decoded: Option<ClientMessage>) -> (SessionView, ActionView) {
    match decoded {
        Some(m) => message_spec(s, m),
        None => (s, ActionView::Reply(ServerError::MalformedMessage)),
    }
}

impl Session {
    /// A connection that has joined nothing yet.
    pub fn new() -> (r: Session)
        ensures
            r@ == (SessionView { joined: None, connecting: false }),
    {
        Session { game: None, connecting: false }
    }

    /// The joined game's participant id, if any.
    pub fn id(&self) -> (r: Option<SessionId>)
        ensures
            r == (match self@.joined {
                Some((_, id)) => Some(id),
                None => None::<SessionId>,
            }),
    {
        match &self.game {
            Some(g) => Some(g.id),
            None => None,
        }
    }

    /// The joined game's token, if any.
    pub fn token(&self) -> (r: Option<&String>)
        ensures
            match r {
                Some(t) => match self@.joined {
                    Some((k, _)) => k == t@,
                    None => false,
                },
                None => self@.joined is None,
            },
    {
        match &self.game {
            Some(g) => Some(&g.token),
            None => None,
        }
    }

    /// Starts joining the game of `token` under `username`.
    pub fn try_connect(&mut self, token: String, username: String) -> (r: GatewayAction)
        ensures
            (final(self)@, r@) == connect_spec(old(self)@, token@, username@),
    {
        if self.game.is_some() || self.connecting {
            return GatewayAction::Reply(ServerError::AlreadyJoined);
        }
        self.connecting = true;
        GatewayAction::Connect { token, username }
    }

    /// Decides what a decoded client message leads to.
    pub fn handle_message(&mut self, message: ClientMessage) -> (r: GatewayAction)
        ensures
            (final(self)@, r@) == message_spec(old(self)@, message),
    {
        let intent = match message {
            ClientMessage::TryConnect { token, username } => {
                return self.try_connect(token, username);
            },
            ClientMessage::Ready => Intent::Ready,
            ClientMessage::Start => Intent::Start,
            ClientMessage::Cancel => Intent::Cancel,
            ClientMessage::Answer(a) => Intent::Answer(a),
        };
        match &self.game {
            Some(g) => GatewayAction::Forward { id: g.id, intent },
            None => GatewayAction::Reply(ServerError::NotJoined),
        }
    }

    /// Decides what an incoming text frame leads to; `None` stands for a frame
    /// that could not be decoded.
    pub fn handle_frame(&mut self, decoded: Option<ClientMessage>) -> (r: GatewayAction)
        ensures
            (final(self)@, r@) == frame_spec(old(self)@, decoded),
    {
        match decoded {
            Some(m) => self.handle_message(m),
            None => GatewayAction::Reply(ServerError::MalformedMessage),
        }
    }

    /// The answer to a join request: on success the session joins the game of
    /// `token` as participant `id`; on failure the error goes to the client.
    pub fn connected(&mut self, token: String, outcome: Result<SessionId, ServerError>) -> (r: Option<ServerError>)
        ensures
            match outcome {
                Ok(id) => r is None && final(self)@ == (SessionView {
                    joined: Some((token@, id)),
                    connecting: false,
                }),
                Err(e) => r == Some(e) && final(self)@ == (SessionView {
                    connecting: false,
                    ..old(self)@
                }),
            },
    {
        self.connecting = false;
        match outcome {
            Ok(id) => {
                self.game = Some(SessionGame { token, id });
                None
            },
            Err(e) => Some(e),
        }
    }

    /// The connection closed: the game it joined, if any, must be told that
    /// this participant departed.
    pub fn close(&mut self) -> (r: Option<SessionGame>)
        ensures
            final(self)@ == (SessionView { joined: None, connecting: false }),
            match r {
                Some(g) => old(self)@.joined == Some((g.token@, g.id)),
                None => old(self)@.joined is None,
            },
    {
        self.connecting = false;
        self.game.take()
    }
}

} // verus!
