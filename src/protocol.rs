//! Messages exchanged between clients, session gateways and game coordinators.
use vstd::prelude::*;

verus! {

/// Identifier of one admitted participant, unique within a game.
pub type SessionId = u32;

/// Fixed metadata of a game.
#[derive(PartialEq, Eq, Debug)]
pub struct BasicConfig {
    pub title: String,
    pub question_count: u32,
}

/// Durations of the timed phases, in milliseconds.
#[derive(Clone, Copy, PartialEq, Eq, Structural, Debug)]
pub struct GameTiming {
    pub countdown: u64,
    pub answer_window: u64,
    pub reveal: u64,
}

/// A question as shown to participants (the answer key is never part of it).
#[derive(PartialEq, Eq, Debug)]
pub struct Question {
    pub text: String,
    pub answers: Vec<String>,
}

/// A participant's choice for the question that is currently open.
#[derive(Clone, Copy, PartialEq, Eq, Structural, Debug)]
pub struct QuestionAnswer {
    pub answer: u32,
}

/// Outcome of one question for one participant.
#[derive(Clone, Copy, PartialEq, Eq, Structural, Debug)]
pub struct AnswerResult {
    pub correct: bool,
    pub score: u32,
}

/// Phase of a game.
#[derive(Clone, Copy, PartialEq, Eq, Structural, Debug)]
pub enum GameState {
    Lobby,
    Starting,
    Question { index: u32, deadline: u64 },
    Reveal { index: u32 },
    Finished,
}

/// Messages received from a client.
#[derive(PartialEq, Eq, Debug)]
pub enum ClientMessage {
    TryConnect { token: String, username: String },
    Ready,
    Start,
    Cancel,
    Answer(QuestionAnswer),
}

/// What a joined client asks of its game.
#[derive(Clone, Copy, PartialEq, Eq, Structural, Debug)]
pub enum Intent {
    Ready,
    Start,
    Cancel,
    Answer(QuestionAnswer),
}

/// Messages sent to a client.
#[derive(PartialEq, Eq, Debug)]
pub enum ServerMessage {
    Connected { id: SessionId, token: String, basic: BasicConfig, timing: GameTiming },
    OtherPlayer { id: SessionId, name: String },
    GameState(GameState),
    TimeSync { total: u64, elapsed: u64 },
    Question(Question),
    AnswerResult(AnswerResult),
    BeginQuestion,
    ScoreUpdate { scores: Vec<(SessionId, u32)> },
}

/// Errors reported to the one connection that caused them.
#[derive(Clone, Copy, PartialEq, Eq, Structural, Debug)]
pub enum ServerError {
    MalformedMessage,
    UnknownToken,
    NotInLobby,
    NotYourTurn,
    NotHost,
    NotJoined,
    AlreadyJoined,
    InvalidName,
    NameTaken,
    GameFull,
}

/// A request handed to a session gateway.
#[derive(PartialEq, Eq, Debug)]
pub enum SessionRequest {
    Message(ServerMessage),
    Error(ServerError),
}

/// The reply of a session gateway to a request.
#[derive(Clone, Copy, PartialEq, Eq, Structural, Debug)]
pub enum SessionResponse {
    Empty,
}

pub struct BasicView {
    pub title: Seq<char>,
    pub question_count: u32,
}

pub struct QuestionView {
    pub text: Seq<char>,
    pub answers: Seq<Seq<char>>,
}

/// Mathematical content of a [`ServerMessage`].
pub enum MessageView {
    Connected { id: SessionId, token: Seq<char>, basic: BasicView, timing: GameTiming },
    OtherPlayer { id: SessionId, name: Seq<char> },
    GameState(GameState),
    TimeSync { total: u64, elapsed: u64 },
    Question(QuestionView),
    AnswerResult(AnswerResult),
    BeginQuestion,
    ScoreUpdate { scores: Seq<(SessionId, u32)> },
}

pub open spec fn strings_view(v: Seq<String>) -> Seq<Seq<char>> {
    v.map_values(|s: String| s@)
}

impl View for BasicConfig {
    type V = BasicView;

    open spec fn view(&self) -> BasicView {
        BasicView { title: self.title@, question_count: self.question_count }
    }
}

impl View for Question {
    type V = QuestionView;

    open spec fn view(&self) -> QuestionView {
        QuestionView { text: self.text@, answers: strings_view(self.answers@) }
    }
}

impl View for ServerMessage {
    type V = MessageView;

    open spec fn view(&self) -> MessageView {
        match self {
            ServerMessage::Connected { id, token, basic, timing } => MessageView::Connected {
                id: *id,
                token: token@,
                basic: basic@,
                timing: *timing,
            },
            ServerMessage::OtherPlayer { id, name } => MessageView::OtherPlayer {
                id: *id,
                name: name@,
            },
            ServerMessage::GameState(s) => MessageView::GameState(*s),
            ServerMessage::TimeSync { total, elapsed } => MessageView::TimeSync {
                total: *total,
                elapsed: *elapsed,
            },
            ServerMessage::Question(q) => MessageView::Question(q@),
            ServerMessage::AnswerResult(a) => MessageView::AnswerResult(*a),
            ServerMessage::BeginQuestion => MessageView::BeginQuestion,
            ServerMessage::ScoreUpdate { scores } => MessageView::ScoreUpdate { scores: scores@ },
        }
    }
}

/// Copies a list of strings.
pub fn copy_strings(v: &Vec<String>) -> (r: Vec<String>)
    ensures
        strings_view(r@) == strings_view(v@),
{
    let mut r: Vec<String> = Vec::new();
    let mut i: usize = 0;
    while i < v.len()
        invariant
            i <= v.len(),
            r@.len() == i,
            forall|j: int| 0 <= j < i ==> #[trigger] r@[j]@ == v@[j]@,
        decreases v.len() - i,
    {
        r.push(v[i].clone());
        i = i + 1;
    }
    assert(strings_view(r@) =~= strings_view(v@));
    r
}

impl BasicConfig {
    pub fn copy(&self) -> (r: BasicConfig)
        ensures
            r@ == self@,
    {
        BasicConfig { title: self.title.clone(), question_count: self.question_count }
    }
}

impl Question {
    pub fn copy(&self) -> (r: Question)
        ensures
            r@ == self@,
    {
        Question { text: self.text.clone(), answers: copy_strings(&self.answers) }
    }
}

impl ServerMessage {
    /// Copies a message; used to send one message to many recipients.
    pub fn copy(&self) -> (r: ServerMessage)
        ensures
            r@ == self@,
    {
        match self {
            ServerMessage::Connected { id, token, basic, timing } => ServerMessage::Connected {
                id: *id,
                token: token.clone(),
                basic: basic.copy(),
                timing: *timing,
            },
            ServerMessage::OtherPlayer { id, name } => ServerMessage::OtherPlayer {
                id: *id,
                name: name.clone(),
            },
            ServerMessage::GameState(s) => ServerMessage::GameState(*s),
            ServerMessage::TimeSync { total, elapsed } => ServerMessage::TimeSync {
                total: *total,
                elapsed: *elapsed,
            },
            ServerMessage::Question(q) => ServerMessage::Question(q.copy()),
            ServerMessage::AnswerResult(a) => ServerMessage::AnswerResult(*a),
            ServerMessage::BeginQuestion => ServerMessage::BeginQuestion,
            ServerMessage::ScoreUpdate { scores } => {
                let mut c: Vec<(SessionId, u32)> = Vec::new();
                let mut i: usize = 0;
                while i < scores.len()
                    invariant
                        i <= scores.len(),
                        c@ == scores@.subrange(0, i as int),
                    decreases scores.len() - i,
                {
                    c.push(scores[i]);
                    i = i + 1;
                    assert(c@ =~= scores@.subrange(0, i as int));
                }
                assert(scores@.subrange(0, i as int) =~= scores@);
                ServerMessage::ScoreUpdate { scores: c }
            },
        }
    }
}

} // verus!
