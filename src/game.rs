//! The game coordinator: sole owner of one game's state, roster, timing and scores.
//!
//! Every operation is a step of a state machine: it changes the coordinator and
//! returns the messages to deliver (each addressed to one participant) and, where a
//! timed phase begins, the timer to schedule. The caller runs the timers and hands
//! expired ones back through [`Coordinator::on_timer`]; a timer from a phase that has
//! already ended carries a stale epoch and is ignored.
//!
//! Policies:
//! - a name is refused when empty or when it equals an admitted participant's
//!   name exactly (the comparison is case-sensitive);
//! - readiness is recorded but does not gate the start: only the host starts;
//! - the host is the earliest admitted participant still present, so when the
//!   host leaves the next one takes over; the game closes only when everyone left;
//! - a correct answer earns [`BASE_POINTS`] plus up to [`SPEED_POINTS`], falling
//!   linearly from the full bonus at the opening of the question to none at the
//!   end of its window; a wrong or missing answer earns nothing.
use vstd::prelude::*;
use crate::protocol::{
    AnswerResult, BasicConfig, BasicView, GameState, GameTiming, MessageView, Question,
    Intent, QuestionAnswer, QuestionView, ServerError, ServerMessage, SessionId,
};

verus! {

/// Points for any correct answer.
pub const BASE_POINTS: u32 = 500;

/// Most points added for speed; they shrink linearly over the answer window.
pub const SPEED_POINTS: u32 = 500;

/// An answer a participant gave to the open question.
#[derive(Clone, Copy, PartialEq, Eq, Structural, Debug)]
pub struct Submission {
    pub choice: u32,
    /// Milliseconds between the question opening and the answer arriving.
    pub elapsed: u64,
}

/// A question together with the index of its correct answer.
pub struct QuestionEntry {
    pub question: Question,
    pub correct: u32,
}

/// A message addressed to one participant.
pub struct Outgoing {
    pub to: SessionId,
    pub message: ServerMessage,
}

/// A timer the caller must schedule; it fires after `delay` milliseconds.
#[derive(Clone, Copy, PartialEq, Eq, Structural, Debug)]
pub struct Timer {
    pub epoch: u64,
    pub delay: u64,
}

/// What one operation asks the caller to do.
pub struct Step {
    /// Messages to deliver, in order.
    pub out: Vec<Outgoing>,
    /// A timer to schedule, if a timed phase began.
    pub timer: Option<Timer>,
    /// The last participant left: the game must be torn down.
    pub closed: bool,
}

struct Participant {
    id: SessionId,
    name: String,
    ready: bool,
    score: u32,
    answer: Option<Submission>,
}

/// The coordinator of one game.
pub struct Coordinator {
    token: String,
    basic: BasicConfig,
    timing: GameTiming,
    questions: Vec<QuestionEntry>,
    state: GameState,
    players: Vec<Participant>,
    next_id: SessionId,
    epoch: u64,
    phase_start: u64,
}

pub struct PlayerModel {
    pub id: SessionId,
    pub name: Seq<char>,
    pub ready: bool,
    pub score: u32,
    pub answer: Option<Submission>,
}

/// The mathematical state of a coordinator.
pub struct GameModel {
    pub token: Seq<char>,
    pub basic: BasicView,
    pub timing: GameTiming,
    pub questions: Seq<QuestionView>,
    pub key: Seq<u32>,
    pub state: GameState,
    /// Participants in order of admission; the first is the host.
    pub players: Seq<PlayerModel>,
    pub next_id: SessionId,
    pub epoch: u64,
    /// When the current phase began, in milliseconds.
    pub phase_start: u64,
}

pub type Envelope = (SessionId, MessageView);

pub struct StepView {
    pub out: Seq<Envelope>,
    pub timer: Option<Timer>,
    pub closed: bool,
}

impl View for Participant {
    type V = PlayerModel;

    closed spec fn view(&self) -> PlayerModel {
        PlayerModel {
            id: self.id,
            name: self.name@,
            ready: self.ready,
            score: self.score,
            answer: self.answer,
        }
    }
}

impl View for Outgoing {
    type V = Envelope;

    open spec fn view(&self) -> Envelope {
        (self.to, self.message@)
    }
}

pub open spec fn envs(s: Seq<Outgoing>) -> Seq<Envelope> {
    s.map_values(|o: Outgoing| o@)
}

impl View for Step {
    type V = StepView;

    open spec fn view(&self) -> StepView {
        StepView { out: envs(self.out@), timer: self.timer, closed: self.closed }
    }
}

spec fn players_view(s: Seq<Participant>) -> Seq<PlayerModel> {
    s.map_values(|p: Participant| p@)
}

impl View for Coordinator {
    type V = GameModel;

    closed spec fn view(&self) -> GameModel {
        GameModel {
            token: self.token@,
            basic: self.basic@,
            timing: self.timing,
            questions: self.questions@.map_values(|q: QuestionEntry| q.question@),
            key: self.questions@.map_values(|q: QuestionEntry| q.correct),
            state: self.state,
            players: players_view(self.players@),
            next_id: self.next_id,
            epoch: self.epoch,
            phase_start: self.phase_start,
        }
    }
}

// ---------------------------------------------------------------------------
// The state machine
// ---------------------------------------------------------------------------

pub open spec fn ids_increasing(ps: Seq<PlayerModel>) -> bool {
    forall|i: int, j: int| 0 <= i < j < ps.len() ==> #[trigger] ps[i].id < #[trigger] ps[j].id
}

/// Ids are issued in increasing order, every issued id is below `next_id`, and a
/// phase that names a question names an existing one.
pub open spec fn game_wf(g: GameModel) -> bool {
    &&& g.questions.len() == g.key.len()
    &&& g.questions.len() < u32::MAX
    &&& 1 <= g.next_id
    &&& ids_increasing(g.players)
    &&& forall|i: int| 0 <= i < g.players.len() ==> #[trigger] g.players[i].id < g.next_id
    &&& match g.state {
        GameState::Question { index, .. } => index < g.questions.len(),
        GameState::Reveal { index } => index < g.questions.len(),
        _ => true,
    }
}

pub open spec fn quiet() -> StepView {
    StepView { out: Seq::empty(), timer: None, closed: false }
}

/// One copy of `m` for each participant, in roster order.
pub open spec fn bcast(ps: Seq<PlayerModel>, m: MessageView) -> Seq<Envelope> {
    ps.map_values(|p: PlayerModel| (p.id, m))
}

pub open spec fn next_epoch(e: u64) -> u64 {
    if e == u64::MAX {
        0
    } else {
        (e + 1) as u64
    }
}

pub open spec fn add_time(a: u64, b: u64) -> u64 {
    if a + b > u64::MAX {
        u64::MAX
    } else {
        (a + b) as u64
    }
}

pub open spec fn since(now: u64, start: u64) -> u64 {
    if now < start {
        0
    } else {
        (now - start) as u64
    }
}

/// Points for a correct answer given `elapsed` milliseconds into a window of
/// `window` milliseconds: the base, plus a speed bonus that falls linearly to zero.
pub open spec fn points(elapsed: u64, window: u64) -> u32 {
    if elapsed >= window {
        BASE_POINTS
    } else {
        (BASE_POINTS + (SPEED_POINTS * (window - elapsed)) / (window as int)) as u32
    }
}

pub open spec fn add_score(a: u32, b: u32) -> u32 {
    if a + b > u32::MAX {
        u32::MAX
    } else {
        (a + b) as u32
    }
}

pub open spec fn result_of(p: PlayerModel, key: u32, window: u64) -> AnswerResult {
    match p.answer {
        Some(s) => if s.choice == key {
            AnswerResult { correct: true, score: points(s.elapsed, window) }
        } else {
            AnswerResult { correct: false, score: 0 }
        },
        None => AnswerResult { correct: false, score: 0 },
    }
}

pub open spec fn scored(p: PlayerModel, key: u32, window: u64) -> PlayerModel {
    PlayerModel { score: add_score(p.score, result_of(p, key, window).score), ..p }
}

pub open spec fn cleared(p: PlayerModel) -> PlayerModel {
    PlayerModel { answer: None, ..p }
}

pub open spec fn scores_of(ps: Seq<PlayerModel>) -> Seq<(SessionId, u32)> {
    ps.map_values(|p: PlayerModel| (p.id, p.score))
}

pub open spec fn results_of(ps: Seq<PlayerModel>, key: u32, window: u64) -> Seq<Envelope> {
    ps.map_values(|p: PlayerModel| (p.id, MessageView::AnswerResult(result_of(p, key, window))))
}

pub open spec fn all_answered(ps: Seq<PlayerModel>) -> bool {
    forall|i: int| 0 <= i < ps.len() ==> (#[trigger] ps[i]).answer is Some
}

pub open spec fn present(ps: Seq<PlayerModel>, id: SessionId) -> bool {
    exists|k: int| 0 <= k < ps.len() && (#[trigger] ps[k]).id == id
}

/// Position of the participant with `id` (meaningful when it is present).
pub open spec fn slot(ps: Seq<PlayerModel>, id: SessionId) -> int {
    choose|k: int| 0 <= k < ps.len() && (#[trigger] ps[k]).id == id
}

pub open spec fn is_host(g: GameModel, id: SessionId) -> bool {
    g.players.len() > 0 && g.players[0].id == id
}

pub open spec fn initial(
    token: Seq<char>,
    basic: BasicView,
    timing: GameTiming,
    questions: Seq<QuestionView>,
    key: Seq<u32>,
) -> GameModel {
    GameModel {
        token,
        basic,
        timing,
        questions,
        key,
        state: GameState::Lobby,
        players: Seq::empty(),
        next_id: 1,
        epoch: 0,
        phase_start: 0,
    }
}

/// Opens question `i`: answers are cleared and everyone is told the new phase,
/// then to begin, then the question itself.
pub open spec fn begin_question(g: GameModel, i: u32, now: u64) -> (GameModel, StepView) {
    let ps = g.players.map_values(|p: PlayerModel| cleared(p));
    let state = GameState::Question {
        index: i,
        deadline: add_time(now, g.timing.answer_window),
    };
    let e = next_epoch(g.epoch);
    (
        GameModel { state, players: ps, epoch: e, phase_start: now, ..g },
        StepView {
            out: bcast(ps, MessageView::GameState(state)) + bcast(ps, MessageView::BeginQuestion)
                + bcast(ps, MessageView::Question(g.questions[i as int])),
            timer: Some(Timer { epoch: e, delay: g.timing.answer_window }),
            closed: false,
        },
    )
}

/// Closes question `i`: scores are added, everyone is told the new phase, each
/// participant gets its own result, then everyone gets all scores.
pub open spec fn close_question(g: GameModel, i: u32) -> (GameModel, StepView) {
    let key = g.key[i as int];
    let w = g.timing.answer_window;
    let ps = g.players.map_values(|p: PlayerModel| scored(p, key, w));
    let state = GameState::Reveal { index: i };
    let e = next_epoch(g.epoch);
    (
        GameModel { state, players: ps, epoch: e, ..g },
        StepView {
            out: bcast(ps, MessageView::GameState(state)) + results_of(g.players, key, w) + bcast(
                ps,
                MessageView::ScoreUpdate { scores: scores_of(ps) },
            ),
            timer: Some(Timer { epoch: e, delay: g.timing.reveal }),
            closed: false,
        },
    )
}

/// Ends the game and announces the final scores.
pub open spec fn finish(g: GameModel) -> (GameModel, StepView) {
    let e = next_epoch(g.epoch);
    (
        GameModel { state: GameState::Finished, epoch: e, ..g },
        StepView {
            out: bcast(g.players, MessageView::GameState(GameState::Finished)) + bcast(
                g.players,
                MessageView::ScoreUpdate { scores: scores_of(g.players) },
            ),
            timer: None,
            closed: false,
        },
    )
}

/// Moves on to question `next`, or finishes when there is none.
pub open spec fn advance(g: GameModel, next: int, now: u64) -> (GameModel, StepView) {
    if next < g.questions.len() {
        begin_question(g, next as u32, now)
    } else {
        finish(g)
    }
}

pub open spec fn join_spec(g: GameModel, name: Seq<char>) -> (
    GameModel,
    Result<SessionId, ServerError>,
    Seq<Envelope>,
) {
    if g.state != GameState::Lobby {
        (g, Err(ServerError::NotInLobby), Seq::empty())
    } else if name.len() == 0 {
        (g, Err(ServerError::InvalidName), Seq::empty())
    } else if exists|k: int| 0 <= k < g.players.len() && (#[trigger] g.players[k]).name == name {
        (g, Err(ServerError::NameTaken), Seq::empty())
    } else if g.next_id == u32::MAX {
        (g, Err(ServerError::GameFull), Seq::empty())
    } else {
        let id = g.next_id;
        let p = PlayerModel { id, name, ready: false, score: 0, answer: None };
        (
            GameModel { players: g.players.push(p), next_id: (id + 1) as u32, ..g },
            Ok(id),
            seq![(id, MessageView::Connected { id, token: g.token, basic: g.basic, timing: g.timing })]
                + bcast(g.players, MessageView::OtherPlayer { id, name }) + seq![
                (id, MessageView::GameState(g.state)),
            ],
        )
    }
}

pub open spec fn ready_spec(g: GameModel, id: SessionId) -> GameModel {
    if present(g.players, id) {
        let k = slot(g.players, id);
        GameModel { players: g.players.update(k, PlayerModel { ready: true, ..g.players[k] }), ..g }
    } else {
        g
    }
}

pub open spec fn start_spec(g: GameModel, id: SessionId, now: u64) -> (
    GameModel,
    Result<StepView, ServerError>,
) {
    if !is_host(g, id) {
        (g, Err(ServerError::NotHost))
    } else if g.state != GameState::Lobby {
        (g, Err(ServerError::NotInLobby))
    } else {
        let e = next_epoch(g.epoch);
        (
            GameModel { state: GameState::Starting, epoch: e, phase_start: now, ..g },
            Ok(
                StepView {
                    out: bcast(g.players, MessageView::GameState(GameState::Starting)),
                    timer: Some(Timer { epoch: e, delay: g.timing.countdown }),
                    closed: false,
                },
            ),
        )
    }
}

pub open spec fn cancel_spec(g: GameModel, id: SessionId) -> (
    GameModel,
    Result<StepView, ServerError>,
) {
    if !is_host(g, id) {
        (g, Err(ServerError::NotHost))
    } else if g.state != GameState::Starting {
        (g, Err(ServerError::NotYourTurn))
    } else {
        (
            GameModel { state: GameState::Lobby, epoch: next_epoch(g.epoch), ..g },
            Ok(
                StepView {
                    out: bcast(g.players, MessageView::GameState(GameState::Lobby)),
                    timer: None,
                    closed: false,
                },
            ),
        )
    }
}

/// The first answer of a participant to the open question is recorded; when it
/// completes the set, the question is revealed at once. Anything else is ignored.
pub open spec fn answer_spec(g: GameModel, id: SessionId, a: QuestionAnswer, now: u64) -> (
    GameModel,
    StepView,
) {
    match g.state {
        GameState::Question { index, .. } => {
            if present(g.players, id) && g.players[slot(g.players, id)].answer is None {
                let k = slot(g.players, id);
                let sub = Submission { choice: a.answer, elapsed: since(now, g.phase_start) };
                let ps = g.players.update(k, PlayerModel { answer: Some(sub), ..g.players[k] });
                let g1 = GameModel { players: ps, ..g };
                if all_answered(ps) {
                    close_question(g1, index)
                } else {
                    (g1, quiet())
                }
            } else {
                (g, quiet())
            }
        },
        _ => (g, quiet()),
    }
}

/// What an intent forwarded by a gateway does.
pub open spec fn intent_spec(g: GameModel, id: SessionId, intent: Intent, now: u64) -> (
    GameModel,
    Result<StepView, ServerError>,
) {
    match intent {
        Intent::Ready => (ready_spec(g, id), Ok(quiet())),
        Intent::Start => start_spec(g, id, now),
        Intent::Cancel => cancel_spec(g, id),
        Intent::Answer(a) => (answer_spec(g, id, a, now).0, Ok(answer_spec(g, id, a, now).1)),
    }
}

pub open spec fn timer_spec(g: GameModel, epoch: u64, now: u64) -> (GameModel, StepView) {
    if epoch != g.epoch {
        (g, quiet())
    } else {
        match g.state {
            GameState::Starting => advance(g, 0, now),
            GameState::Question { index, .. } => close_question(g, index),
            GameState::Reveal { index } => advance(g, index + 1, now),
            _ => (g, quiet()),
        }
    }
}

/// The participant leaves. When nobody is left the game closes; when everyone
/// left has answered the open question, it is revealed.
pub open spec fn depart_spec(g: GameModel, id: SessionId) -> (GameModel, StepView) {
    if !present(g.players, id) {
        (g, quiet())
    } else {
        let ps = g.players.remove(slot(g.players, id));
        let g1 = GameModel { players: ps, ..g };
        if ps.len() == 0 {
            (g1, StepView { out: Seq::empty(), timer: None, closed: true })
        } else {
            match g.state {
                GameState::Question { index, .. } => if all_answered(ps) {
                    close_question(g1, index)
                } else {
                    (g1, quiet())
                },
                _ => (g1, quiet()),
            }
        }
    }
}

pub open spec fn time_sync_spec(g: GameModel, now: u64) -> Seq<Envelope> {
    match g.state {
        GameState::Starting => {
            let total = g.timing.countdown;
            let e = since(now, g.phase_start);
            bcast(
                g.players,
                MessageView::TimeSync { total, elapsed: if e < total { e } else { total } },
            )
        },
        GameState::Question { .. } => {
            let total = g.timing.answer_window;
            let e = since(now, g.phase_start);
            bcast(
                g.players,
                MessageView::TimeSync { total, elapsed: if e < total { e } else { total } },
            )
        },
        _ => Seq::empty(),
    }
}


// ---------------------------------------------------------------------------
// Executable helpers
// ---------------------------------------------------------------------------

fn bump_epoch(e: u64) -> (r: u64)
    ensures
        r == next_epoch(e),
{
    if e == u64::MAX {
        0
    } else {
        e + 1
    }
}

fn time_after(a: u64, b: u64) -> (r: u64)
    ensures
        r == add_time(a, b),
{
    if a > u64::MAX - b {
        u64::MAX
    } else {
        a + b
    }
}

fn elapsed_since(now: u64, start: u64) -> (r: u64)
    ensures
        r == since(now, start),
{
    if now < start {
        0
    } else {
        now - start
    }
}

/// Points earned by a correct answer.
pub fn answer_points(elapsed: u64, window: u64) -> (r: u32)
    ensures
        r == points(elapsed, window),
        BASE_POINTS <= r <= BASE_POINTS + SPEED_POINTS,
{
    if elapsed >= window {
        BASE_POINTS
    } else {
        let rem: u128 = (window - elapsed) as u128;
        assert(rem * 500 <= 500 * 0xffff_ffff_ffff_ffff) by (nonlinear_arith)
            requires
                rem <= 0xffff_ffff_ffff_ffff,
        ;
        let scaled: u128 = rem * (SPEED_POINTS as u128);
        let bonus: u128 = scaled / (window as u128);
        proof {
            let (x, w) = (rem as int, window as int);
            assert(x * 500 / w <= 500) by (nonlinear_arith)
                requires
                    0 <= x <= w,
                    0 < w,
            ;
        }
        BASE_POINTS + bonus as u32
    }
}

fn add_points(a: u32, b: u32) -> (r: u32)
    ensures
        r == add_score(a, b),
{
    if a > u32::MAX - b {
        u32::MAX
    } else {
        a + b
    }
}

fn result_for(p: &Participant, key: u32, window: u64) -> (r: AnswerResult)
    ensures
        r == result_of(p@, key, window),
{
    match p.answer {
        Some(s) => if s.choice == key {
            AnswerResult { correct: true, score: answer_points(s.elapsed, window) }
        } else {
            AnswerResult { correct: false, score: 0 }
        },
        None => AnswerResult { correct: false, score: 0 },
    }
}

fn quiet_step() -> (r: Step)
    ensures
        r@ == quiet(),
{
    let out: Vec<Outgoing> = Vec::new();
    assert(envs(out@) =~= Seq::empty());
    Step { out, timer: None, closed: false }
}

/// Sends a copy of `msg` to every participant, in roster order.
fn push_all(players: &Vec<Participant>, msg: &ServerMessage, out: &mut Vec<Outgoing>)
    ensures
        envs(final(out)@) == envs(old(out)@) + bcast(players_view(players@), msg@),
{
    let mut i: usize = 0;
    while i < players.len()
        invariant
            i <= players.len(),
            out@.len() == old(out)@.len() + i,
            forall|j: int| 0 <= j < old(out)@.len() ==> #[trigger] out@[j] == old(out)@[j],
            forall|j: int|
                0 <= j < i ==> (#[trigger] out@[old(out)@.len() + j])@ == (players@[j]@.id, msg@),
        decreases players.len() - i,
    {
        out.push(Outgoing { to: players[i].id, message: msg.copy() });
        i = i + 1;
    }
    assert(envs(out@) =~= envs(old(out)@) + bcast(players_view(players@), msg@)) by {
        let n = old(out)@.len();
        assert forall|j: int| 0 <= j < out@.len() implies #[trigger] envs(out@)[j] == (envs(old(out)@)
            + bcast(players_view(players@), msg@))[j] by {
            if j < n {
                assert(out@[j] == old(out)@[j]);
            } else {
                let m = j - n;
                assert(out@[n + m]@ == (players@[m]@.id, msg@));
            }
        }
    }
}

/// Where the participant with `id` stands in the roster.
fn position(players: &Vec<Participant>, id: SessionId) -> (r: Option<usize>)
    requires
        ids_increasing(players_view(players@)),
    ensures
        match r {
            Some(k) => present(players_view(players@), id) && k == slot(
                players_view(players@),
                id,
            ) && k < players@.len(),
            None => !present(players_view(players@), id),
        },
{
    let ghost pv = players_view(players@);
    let mut i: usize = 0;
    while i < players.len()
        invariant
            i <= players.len(),
            pv == players_view(players@),
            ids_increasing(pv),
            forall|j: int| 0 <= j < i ==> (#[trigger] pv[j]).id != id,
        decreases players.len() - i,
    {
        if players[i].id == id {
            proof {
                assert(pv[i as int].id == id);
                assert(present(pv, id));
                let k = slot(pv, id);
                assert(0 <= k < pv.len() && pv[k].id == id);
                assert(ids_increasing(pv));
                if k < i {
                    assert(pv[k].id < pv[i as int].id);
                } else if k > i {
                    assert(pv[i as int].id < pv[k].id);
                }
            }
            return Some(i);
        }
        i = i + 1;
    }
    None
}

fn everyone_answered(players: &Vec<Participant>) -> (r: bool)
    ensures
        r == all_answered(players_view(players@)),
{
    let ghost pv = players_view(players@);
    let mut i: usize = 0;
    while i < players.len()
        invariant
            i <= players.len(),
            pv == players_view(players@),
            forall|j: int| 0 <= j < i ==> (#[trigger] pv[j]).answer is Some,
        decreases players.len() - i,
    {
        if players[i].answer.is_none() {
            assert(pv[i as int].answer is None);
            return false;
        }
        i = i + 1;
    }
    true
}

fn name_taken(players: &Vec<Participant>, name: &String) -> (r: bool)
    ensures
        r == exists|k: int|
            0 <= k < players@.len() && (#[trigger] players_view(players@)[k]).name == name@,
{
    let ghost pv = players_view(players@);
    let mut i: usize = 0;
    while i < players.len()
        invariant
            i <= players.len(),
            pv == players_view(players@),
            forall|j: int| 0 <= j < i ==> (#[trigger] pv[j]).name != name@,
        decreases players.len() - i,
    {
        if players[i].name == *name {
            assert(pv[i as int].name == name@);
            return true;
        }
        i = i + 1;
    }
    false
}

fn score_list(players: &Vec<Participant>) -> (r: Vec<(SessionId, u32)>)
    ensures
        r@ == scores_of(players_view(players@)),
{
    let mut r: Vec<(SessionId, u32)> = Vec::new();
    let mut i: usize = 0;
    while i < players.len()
        invariant
            i <= players.len(),
            r@ == scores_of(players_view(players@.subrange(0, i as int))),
        decreases players.len() - i,
    {
        r.push((players[i].id, players[i].score));
        i = i + 1;
        assert(r@ =~= scores_of(players_view(players@.subrange(0, i as int))));
    }
    assert(players@.subrange(0, i as int) =~= players@);
    r
}

proof fn lemma_remove_keeps_order(ps: Seq<PlayerModel>, k: int, bound: u32)
    requires
        ids_increasing(ps),
        0 <= k < ps.len(),
        forall|i: int| 0 <= i < ps.len() ==> #[trigger] ps[i].id < bound,
    ensures
        ids_increasing(ps.remove(k)),
        forall|i: int| 0 <= i < ps.remove(k).len() ==> #[trigger] ps.remove(k)[i].id < bound,
{
    let r = ps.remove(k);
    assert forall|i: int, j: int| 0 <= i < j < r.len() implies #[trigger] r[i].id < #[trigger] r[j].id by {
        let a = if i < k { i } else { i + 1 };
        let b = if j < k { j } else { j + 1 };
        assert(r[i] == ps[a] && r[j] == ps[b]);
        assert(ps[a].id < ps[b].id);
    }
    assert forall|j: int| 0 <= j < r.len() implies #[trigger] r[j].id < bound by {
        let m = if j < k { j } else { j + 1 };
        assert(r[j] == ps[m]);
    }
}

// ---------------------------------------------------------------------------
// The coordinator
// ---------------------------------------------------------------------------

impl Coordinator {
    pub open spec fn wf(&self) -> bool {
        game_wf(self@)
    }

    /// A new game in the lobby, with nobody admitted yet.
    pub fn new(token: String, basic: BasicConfig, timing: GameTiming, questions: Vec<QuestionEntry>) -> (r: Coordinator)
        requires
            questions.len() < u32::MAX,
        ensures
            r.wf(),
            r@ == initial(
                token@,
                basic@,
                timing,
                questions@.map_values(|q: QuestionEntry| q.question@),
                questions@.map_values(|q: QuestionEntry| q.correct),
            ),
    {
        let r = Coordinator {
            token,
            basic,
            timing,
            questions,
            state: GameState::Lobby,
            players: Vec::new(),
            next_id: 1,
            epoch: 0,
            phase_start: 0,
        };
        assert(players_view(r.players@) =~= Seq::empty());
        r
    }

    pub fn state(&self) -> (r: GameState)
        ensures
            r == self@.state,
    {
        self.state
    }

    pub fn token(&self) -> (r: &String)
        ensures
            r@ == self@.token,
    {
        &self.token
    }

    pub fn timing(&self) -> (r: GameTiming)
        ensures
            r == self@.timing,
    {
        self.timing
    }

    pub fn participant_count(&self) -> (r: usize)
        ensures
            r == self@.players.len(),
    {
        self.players.len()
    }

    /// The host: the earliest admitted participant still present.
    pub fn host(&self) -> (r: Option<SessionId>)
        ensures
            r == (if self@.players.len() > 0 {
                Some(self@.players[0].id)
            } else {
                None::<SessionId>
            }),
    {
        if self.players.len() > 0 {
            Some(self.players[0].id)
        } else {
            None
        }
    }

    /// Each participant's id and cumulative score, in order of admission.
    pub fn scores(&self) -> (r: Vec<(SessionId, u32)>)
        ensures
            r@ == scores_of(self@.players),
    {
        score_list(&self.players)
    }

    fn begin_question(&mut self, i: u32, now: u64) -> (r: Step)
        requires
            game_wf(old(self)@),
            i < old(self)@.questions.len(),
        ensures
            game_wf(final(self)@),
            (final(self)@, r@) == begin_question(old(self)@, i, now),
    {
        let ghost g = self@;
        let mut k: usize = 0;
        while k < self.players.len()
            invariant
                k <= self.players@.len() == g.players.len(),
                self@ == (GameModel { players: players_view(self.players@), ..g }),
                forall|j: int| 0 <= j < k ==> #[trigger] players_view(self.players@)[j] == cleared(g.players[j]),
                forall|j: int| k <= j < g.players.len() ==> #[trigger] players_view(self.players@)[j] == g.players[j],
            decreases g.players.len() - k,
        {
            let ghost before = self.players@;
            self.players[k].answer = None;
            proof {
                assert forall|j: int| 0 <= j < g.players.len() && j != k implies #[trigger] players_view(
                    self.players@,
                )[j] == players_view(before)[j] by {
                    assert(self.players@[j] == before[j]);
                }
                assert(players_view(before)[k as int] == g.players[k as int]);
                assert(self.players@[k as int].id == before[k as int].id);
                assert(self.players@[k as int].name == before[k as int].name);
                assert(self.players@[k as int].ready == before[k as int].ready);
                assert(self.players@[k as int].score == before[k as int].score);
                assert(players_view(self.players@)[k as int] == cleared(g.players[k as int]));
            }
            k = k + 1;
        }
        assert(players_view(self.players@) =~= g.players.map_values(|p: PlayerModel| cleared(p)));
        let deadline = time_after(now, self.timing.answer_window);
        self.state = GameState::Question { index: i, deadline };
        self.epoch = bump_epoch(self.epoch);
        self.phase_start = now;
        let mut out: Vec<Outgoing> = Vec::new();
        push_all(&self.players, &ServerMessage::GameState(self.state), &mut out);
        push_all(&self.players, &ServerMessage::BeginQuestion, &mut out);
        let q = self.questions[i as usize].question.copy();
        push_all(&self.players, &ServerMessage::Question(q), &mut out);
        let ghost ps = players_view(self.players@);
        assert(envs(out@) =~= bcast(ps, MessageView::GameState(self.state)) + bcast(ps, MessageView::BeginQuestion)
            + bcast(ps, MessageView::Question(g.questions[i as int])));
        Step { out, timer: Some(Timer { epoch: self.epoch, delay: self.timing.answer_window }), closed: false }
    }

    fn close_question(&mut self, i: u32) -> (r: Step)
        requires
            game_wf(old(self)@),
            i < old(self)@.questions.len(),
        ensures
            game_wf(final(self)@),
            (final(self)@, r@) == close_question(old(self)@, i),
    {
        let ghost g = self@;
        let key = self.questions[i as usize].correct;
        let w = self.timing.answer_window;
        let mut results: Vec<Outgoing> = Vec::new();
        let mut k: usize = 0;
        while k < self.players.len()
            invariant
                k <= self.players@.len() == g.players.len(),
                self@ == (GameModel { players: players_view(self.players@), ..g }),
                i < g.key.len(),
                key == g.key[i as int],
                w == g.timing.answer_window,
                forall|j: int| 0 <= j < k ==> #[trigger] players_view(self.players@)[j] == scored(g.players[j], key, w),
                forall|j: int| k <= j < g.players.len() ==> #[trigger] players_view(self.players@)[j] == g.players[j],
                results@.len() == k,
                forall|j: int| 0 <= j < k ==> (#[trigger] results@[j])@ == results_of(g.players, key, w)[j],
            decreases g.players.len() - k,
        {
            assert(players_view(self.players@)[k as int] == g.players[k as int]);
            let res = result_for(&self.players[k], key, w);
            results.push(Outgoing { to: self.players[k].id, message: ServerMessage::AnswerResult(res) });
            let s = add_points(self.players[k].score, res.score);
            let ghost before = self.players@;
            self.players[k].score = s;
            proof {
                assert forall|j: int| 0 <= j < g.players.len() && j != k implies #[trigger] players_view(
                    self.players@,
                )[j] == players_view(before)[j] by {
                    assert(self.players@[j] == before[j]);
                }
                assert(players_view(before)[k as int] == g.players[k as int]);
                assert(self.players@[k as int].id == before[k as int].id);
                assert(self.players@[k as int].name == before[k as int].name);
                assert(self.players@[k as int].ready == before[k as int].ready);
                assert(self.players@[k as int].answer == before[k as int].answer);
                assert(players_view(self.players@)[k as int] == scored(g.players[k as int], key, w));
            }
            k = k + 1;
        }
        assert(envs(results@) =~= results_of(g.players, key, w)) by {
            assert forall|j: int| 0 <= j < k implies #[trigger] envs(results@)[j] == results_of(
                g.players,
                key,
                w,
            )[j] by {
                assert(results@[j]@ == results_of(g.players, key, w)[j]);
            }
        }
        let ghost ps = g.players.map_values(|p: PlayerModel| scored(p, key, w));
        assert(players_view(self.players@) =~= ps);
        self.state = GameState::Reveal { index: i };
        self.epoch = bump_epoch(self.epoch);
        let mut out: Vec<Outgoing> = Vec::new();
        push_all(&self.players, &ServerMessage::GameState(self.state), &mut out);
        let ghost before = envs(out@);
        out.append(&mut results);
        assert(envs(out@) =~= before + results_of(g.players, key, w));
        let scores = score_list(&self.players);
        push_all(&self.players, &ServerMessage::ScoreUpdate { scores }, &mut out);
        assert(envs(out@) =~= bcast(ps, MessageView::GameState(self.state)) + results_of(g.players, key, w)
            + bcast(ps, MessageView::ScoreUpdate { scores: scores_of(ps) }));
        Step { out, timer: Some(Timer { epoch: self.epoch, delay: self.timing.reveal }), closed: false }
    }

    fn finish(&mut self) -> (r: Step)
        requires
            game_wf(old(self)@),
        ensures
            game_wf(final(self)@),
            (final(self)@, r@) == finish(old(self)@),
    {
        let ghost g = self@;
        self.state = GameState::Finished;
        self.epoch = bump_epoch(self.epoch);
        let mut out: Vec<Outgoing> = Vec::new();
        push_all(&self.players, &ServerMessage::GameState(GameState::Finished), &mut out);
        let scores = score_list(&self.players);
        push_all(&self.players, &ServerMessage::ScoreUpdate { scores }, &mut out);
        assert(envs(out@) =~= bcast(g.players, MessageView::GameState(GameState::Finished)) + bcast(
            g.players,
            MessageView::ScoreUpdate { scores: scores_of(g.players) },
        ));
        Step { out, timer: None, closed: false }
    }

    fn advance(&mut self, next: u32, now: u64) -> (r: Step)
        requires
            game_wf(old(self)@),
        ensures
            game_wf(final(self)@),
            (final(self)@, r@) == advance(old(self)@, next as int, now),
    {
        if (next as usize) < self.questions.len() {
            self.begin_question(next, now)
        } else {
            self.finish()
        }
    }
}


impl Coordinator {
    /// Admits a participant under `name`. On success the new participant gets
    /// `Connected`, everyone admitted before gets `OtherPlayer`, and the new
    /// participant gets the current phase.
    pub fn join(&mut self, name: String) -> (r: Result<(SessionId, Vec<Outgoing>), ServerError>)
        requires
            old(self).wf(),
        ensures
            final(self).wf(),
            final(self)@ == join_spec(old(self)@, name@).0,
            match r {
                Ok((id, out)) => join_spec(old(self)@, name@).1 == Ok::<SessionId, ServerError>(id)
                    && envs(out@) == join_spec(old(self)@, name@).2,
                Err(e) => join_spec(old(self)@, name@).1 == Err::<SessionId, ServerError>(e),
            },
    {
        let ghost g = self@;
        if self.state != GameState::Lobby {
            return Err(ServerError::NotInLobby);
        }
        if name.as_str().is_empty() {
            return Err(ServerError::InvalidName);
        }
        if name_taken(&self.players, &name) {
            return Err(ServerError::NameTaken);
        }
        if self.next_id == u32::MAX {
            return Err(ServerError::GameFull);
        }
        let id = self.next_id;
        let mut out: Vec<Outgoing> = Vec::new();
        out.push(
            Outgoing {
                to: id,
                message: ServerMessage::Connected {
                    id,
                    token: self.token.clone(),
                    basic: self.basic.copy(),
                    timing: self.timing,
                },
            },
        );
        let ghost c = (id, MessageView::Connected { id, token: g.token, basic: g.basic, timing: g.timing });
        assert(envs(out@) =~= seq![c]);
        push_all(&self.players, &ServerMessage::OtherPlayer { id, name: name.clone() }, &mut out);
        let ghost mid = envs(out@);
        out.push(Outgoing { to: id, message: ServerMessage::GameState(self.state) });
        assert(envs(out@) =~= mid.push((id, MessageView::GameState(g.state))));
        let ghost p = PlayerModel { id, name: name@, ready: false, score: 0, answer: None };
        proof {
            let o = bcast(g.players, MessageView::OtherPlayer { id, name: name@ });
            let st = (id, MessageView::GameState(g.state));
            assert(!(exists|k: int| 0 <= k < g.players.len() && (#[trigger] g.players[k]).name == name@)) by {
                if exists|k: int| 0 <= k < g.players.len() && (#[trigger] g.players[k]).name == name@ {
                    let k = choose|k: int| 0 <= k < g.players.len() && (#[trigger] g.players[k]).name == name@;
                    assert(players_view(self.players@)[k].name == name@);
                }
            }
            assert(join_spec(g, name@).2 == seq![c] + o + seq![st]);
            assert(envs(out@) =~= seq![c] + o + seq![st]);
        }
        self.players.push(Participant { id, name, ready: false, score: 0, answer: None });
        self.next_id = id + 1;
        assert(players_view(self.players@) =~= g.players.push(p));
        Ok((id, out))
    }

    /// Records that a participant is ready; readiness is informational and does
    /// not gate the start.
    pub fn ready(&mut self, id: SessionId)
        requires
            old(self).wf(),
        ensures
            final(self).wf(),
            final(self)@ == ready_spec(old(self)@, id),
    {
        let ghost g = self@;
        match position(&self.players, id) {
            Some(k) => {
                let ghost before = self.players@;
                self.players[k].ready = true;
                proof {
                    let np = PlayerModel { ready: true, ..g.players[k as int] };
                    assert(self.players@[k as int]@ == np);
                    assert(players_view(self.players@) =~= g.players.update(k as int, np));
                }
            },
            None => {},
        }
    }

    /// The host moves the game from the lobby to the countdown.
    pub fn start(&mut self, id: SessionId, now: u64) -> (r: Result<Step, ServerError>)
        requires
            old(self).wf(),
        ensures
            final(self).wf(),
            final(self)@ == start_spec(old(self)@, id, now).0,
            match r {
                Ok(s) => start_spec(old(self)@, id, now).1 == Ok::<StepView, ServerError>(s@),
                Err(e) => start_spec(old(self)@, id, now).1 == Err::<StepView, ServerError>(e),
            },
    {
        let ghost g = self@;
        if !(self.players.len() > 0 && self.players[0].id == id) {
            return Err(ServerError::NotHost);
        }
        if self.state != GameState::Lobby {
            return Err(ServerError::NotInLobby);
        }
        self.state = GameState::Starting;
        self.epoch = bump_epoch(self.epoch);
        self.phase_start = now;
        let mut out: Vec<Outgoing> = Vec::new();
        push_all(&self.players, &ServerMessage::GameState(GameState::Starting), &mut out);
        assert(envs(out@) =~= bcast(g.players, MessageView::GameState(GameState::Starting)));
        Ok(Step { out, timer: Some(Timer { epoch: self.epoch, delay: self.timing.countdown }), closed: false })
    }

    /// The host aborts the countdown and the game returns to the lobby.
    pub fn cancel(&mut self, id: SessionId) -> (r: Result<Step, ServerError>)
        requires
            old(self).wf(),
        ensures
            final(self).wf(),
            final(self)@ == cancel_spec(old(self)@, id).0,
            match r {
                Ok(s) => cancel_spec(old(self)@, id).1 == Ok::<StepView, ServerError>(s@),
                Err(e) => cancel_spec(old(self)@, id).1 == Err::<StepView, ServerError>(e),
            },
    {
        let ghost g = self@;
        if !(self.players.len() > 0 && self.players[0].id == id) {
            return Err(ServerError::NotHost);
        }
        if self.state != GameState::Starting {
            return Err(ServerError::NotYourTurn);
        }
        self.state = GameState::Lobby;
        self.epoch = bump_epoch(self.epoch);
        let mut out: Vec<Outgoing> = Vec::new();
        push_all(&self.players, &ServerMessage::GameState(GameState::Lobby), &mut out);
        assert(envs(out@) =~= bcast(g.players, MessageView::GameState(GameState::Lobby)));
        Ok(Step { out, timer: None, closed: false })
    }

    /// Records a participant's first answer to the open question, received at `now`.
    pub fn answer(&mut self, id: SessionId, a: QuestionAnswer, now: u64) -> (r: Step)
        requires
            old(self).wf(),
        ensures
            final(self).wf(),
            (final(self)@, r@) == answer_spec(old(self)@, id, a, now),
    {
        let ghost g = self@;
        match self.state {
            GameState::Question { index, .. } => {
                match position(&self.players, id) {
                    Some(k) => {
                        if self.players[k].answer.is_some() {
                            return quiet_step();
                        }
                        let sub = Submission { choice: a.answer, elapsed: elapsed_since(now, self.phase_start) };
                        self.players[k].answer = Some(sub);
                        proof {
                            let np = PlayerModel { answer: Some(sub), ..g.players[k as int] };
                            assert(self.players@[k as int]@ == np);
                            assert(players_view(self.players@) =~= g.players.update(k as int, np));
                        }
                        if everyone_answered(&self.players) {
                            self.close_question(index)
                        } else {
                            quiet_step()
                        }
                    },
                    None => quiet_step(),
                }
            },
            _ => quiet_step(),
        }
    }

    /// A timer scheduled by an earlier step has expired at `now`.
    pub fn on_timer(&mut self, epoch: u64, now: u64) -> (r: Step)
        requires
            old(self).wf(),
        ensures
            final(self).wf(),
            (final(self)@, r@) == timer_spec(old(self)@, epoch, now),
    {
        if epoch != self.epoch {
            return quiet_step();
        }
        match self.state {
            GameState::Starting => self.advance(0, now),
            GameState::Question { index, .. } => self.close_question(index),
            GameState::Reveal { index } => self.advance(index + 1, now),
            _ => quiet_step(),
        }
    }

    /// A participant has left (or can no longer be reached).
    pub fn depart(&mut self, id: SessionId) -> (r: Step)
        requires
            old(self).wf(),
        ensures
            final(self).wf(),
            (final(self)@, r@) == depart_spec(old(self)@, id),
    {
        let ghost g = self@;
        match position(&self.players, id) {
            None => quiet_step(),
            Some(k) => {
                self.players.remove(k);
                proof {
                    assert(players_view(self.players@) =~= g.players.remove(k as int));
                    lemma_remove_keeps_order(g.players, k as int, g.next_id);
                }
                if self.players.len() == 0 {
                    let out: Vec<Outgoing> = Vec::new();
                    assert(envs(out@) =~= Seq::empty());
                    Step { out, timer: None, closed: true }
                } else {
                    match self.state {
                        GameState::Question { index, .. } => if everyone_answered(&self.players) {
                            self.close_question(index)
                        } else {
                            quiet_step()
                        },
                        _ => quiet_step(),
                    }
                }
            },
        }
    }

    /// The countdown or answer window as seen at `now`, for every participant.
    pub fn time_sync(&self, now: u64) -> (r: Vec<Outgoing>)
        ensures
            envs(r@) == time_sync_spec(self@, now),
    {
        let mut out: Vec<Outgoing> = Vec::new();
        let total = match self.state {
            GameState::Starting => self.timing.countdown,
            GameState::Question { .. } => self.timing.answer_window,
            _ => {
                assert(envs(out@) =~= Seq::empty());
                return out;
            },
        };
        let e = elapsed_since(now, self.phase_start);
        let elapsed = if e < total {
            e
        } else {
            total
        };
        push_all(&self.players, &ServerMessage::TimeSync { total, elapsed }, &mut out);
        assert(envs(out@) =~= time_sync_spec(self@, now));
        out
    }
}


impl Coordinator {
    /// Carries out an intent that a gateway forwarded for participant `id`.
    pub fn handle_intent(&mut self, id: SessionId, intent: Intent, now: u64) -> (r: Result<Step, ServerError>)
        requires
            old(self).wf(),
        ensures
            final(self).wf(),
            final(self)@ == intent_spec(old(self)@, id, intent, now).0,
            match r {
                Ok(s) => intent_spec(old(self)@, id, intent, now).1 == Ok::<StepView, ServerError>(s@),
                Err(e) => intent_spec(old(self)@, id, intent, now).1 == Err::<StepView, ServerError>(e),
            },
    {
        match intent {
            Intent::Ready => {
                self.ready(id);
                Ok(quiet_step())
            },
            Intent::Start => self.start(id, now),
            Intent::Cancel => self.cancel(id),
            Intent::Answer(a) => Ok(self.answer(id, a, now)),
        }
    }
}


// ---------------------------------------------------------------------------
// Guarantees of the state machine
// ---------------------------------------------------------------------------

proof fn lemma_slot_is_unique(ps: Seq<PlayerModel>, k: int)
    requires
        ids_increasing(ps),
        0 <= k < ps.len(),
    ensures
        present(ps, ps[k].id),
        slot(ps, ps[k].id) == k,
{
    let id = ps[k].id;
    assert(present(ps, id));
    let j = slot(ps, id);
    if j < k {
        assert(ps[j].id < ps[k].id);
    } else if j > k {
        assert(ps[k].id < ps[j].id);
    }
}

/// A participant admitted by `join` gets an id above that of everyone admitted
/// before it, and the next id to be handed out is larger still; a refused join
/// changes nothing. So over any sequence of joins the ids handed out strictly
/// increase and none is handed out twice.
pub proof fn lemma_join_ids_increase(g: GameModel, name: Seq<char>)
    requires
        game_wf(g),
    ensures
        game_wf(join_spec(g, name).0),
        match join_spec(g, name).1 {
            Ok(id) => {
                &&& id == g.next_id
                &&& join_spec(g, name).0.next_id == id + 1
                &&& join_spec(g, name).0.players == g.players.push(
                    join_spec(g, name).0.players.last(),
                )
                &&& join_spec(g, name).0.players.last().id == id
                &&& forall|k: int| 0 <= k < g.players.len() ==> #[trigger] g.players[k].id < id
            },
            Err(_) => join_spec(g, name).0 == g,
        },
{
    let (g2, res, _) = join_spec(g, name);
    if res is Ok {
        let ps = g2.players;
        assert forall|i: int, j: int| 0 <= i < j < ps.len() implies #[trigger] ps[i].id
            < #[trigger] ps[j].id by {
            if j < g.players.len() {
                assert(ps[i] == g.players[i] && ps[j] == g.players[j]);
            } else {
                assert(ps[i] == g.players[i]);
            }
        }
        assert forall|i: int| 0 <= i < ps.len() implies #[trigger] ps[i].id < g2.next_id by {
            if i < g.players.len() {
                assert(ps[i] == g.players[i]);
            }
        }
    }
}

/// Outside the lobby a join is always refused with `NotInLobby`, and nothing
/// changes and nothing is sent.
pub proof fn lemma_join_needs_lobby(g: GameModel, name: Seq<char>)
    requires
        g.state != GameState::Lobby,
    ensures
        join_spec(g, name) == (g, Err::<SessionId, ServerError>(ServerError::NotInLobby), Seq::<Envelope>::empty()),
{
}

/// Once a participant has answered the open question, a further answer from it
/// changes nothing and sends nothing, so only the first answer is ever scored.
pub proof fn lemma_second_answer_ignored(
    g: GameModel,
    id: SessionId,
    first: QuestionAnswer,
    second: QuestionAnswer,
    t1: u64,
    t2: u64,
)
    requires
        game_wf(g),
    ensures
        answer_spec(answer_spec(g, id, first, t1).0, id, second, t2) == (
            answer_spec(g, id, first, t1).0,
            quiet(),
        ),
{
    match g.state {
        GameState::Question { index, .. } => {
            if present(g.players, id) && g.players[slot(g.players, id)].answer is None {
                let k = slot(g.players, id);
                let sub = Submission { choice: first.answer, elapsed: since(t1, g.phase_start) };
                let ps = g.players.update(k, PlayerModel { answer: Some(sub), ..g.players[k] });
                assert(ids_increasing(ps)) by {
                    assert forall|i: int, j: int| 0 <= i < j < ps.len() implies #[trigger] ps[i].id
                        < #[trigger] ps[j].id by {
                        assert(ps[i].id == g.players[i].id && ps[j].id == g.players[j].id);
                    }
                }
                assert(ps[k].id == id);
                lemma_slot_is_unique(ps, k);
            }
        },
        _ => {},
    }
}

/// A start from anyone but the host is refused with `NotHost` and leaves the
/// game as it was.
pub proof fn lemma_only_host_starts(g: GameModel, id: SessionId, now: u64)
    requires
        !is_host(g, id),
    ensures
        start_spec(g, id, now).0 == g,
        start_spec(g, id, now).1 == Err::<StepView, ServerError>(ServerError::NotHost),
{
}

/// When the last participant still to answer does so, the question closes at
/// once, without waiting for its window to run out.
pub proof fn lemma_last_answer_closes_question(
    g: GameModel,
    id: SessionId,
    a: QuestionAnswer,
    now: u64,
)
    requires
        game_wf(g),
        (g.state is Question),
        present(g.players, id),
        forall|k: int|
            0 <= k < g.players.len() ==> ((#[trigger] g.players[k]).answer is Some || g.players[k].id
                == id),
    ensures
        (g.players[slot(g.players, id)].answer is None) ==> (answer_spec(g, id, a, now).0.state
            == (GameState::Reveal { index: g.state->Question_index })),
{
    let k = slot(g.players, id);
    if g.players[k].answer is None {
        let sub = Submission { choice: a.answer, elapsed: since(now, g.phase_start) };
        let ps = g.players.update(k, PlayerModel { answer: Some(sub), ..g.players[k] });
        assert forall|j: int| 0 <= j < ps.len() implies (#[trigger] ps[j]).answer is Some by {
            if j != k {
                lemma_slot_is_unique(g.players, j);
                assert(ps[j] == g.players[j]);
            }
        }
    }
}

/// The game closes exactly when its last participant departs; once the caller
/// then unregisters its token, the directory no longer resolves it.
pub proof fn lemma_last_departure_closes<R>(g: GameModel, id: SessionId, directory: Map<Seq<char>, R>)
    requires
        game_wf(g),
    ensures
        depart_spec(g, id).1.closed <==> (present(g.players, id) && g.players.len() == 1),
        !directory.remove(g.token).contains_key(g.token),
{
}

} // verus!
