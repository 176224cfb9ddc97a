use quizler::game::{answer_points, Coordinator, Outgoing, QuestionEntry, Step};
use quizler::protocol::{
    AnswerResult, BasicConfig, GameState, GameTiming, Intent, Question, QuestionAnswer,
    ServerError, ServerMessage,
};

fn timing() -> GameTiming {
    GameTiming { countdown: 3000, answer_window: 10000, reveal: 5000 }
}

fn question(text: &str) -> QuestionEntry {
    QuestionEntry {
        question: Question {
            text: text.to_string(),
            answers: vec!["red".to_string(), "green".to_string(), "blue".to_string()],
        },
        correct: 1,
    }
}

fn game(questions: usize) -> Coordinator {
    let mut qs = Vec::new();
    for i in 0..questions {
        qs.push(question(&format!("q{}", i)));
    }
    let basic = BasicConfig { title: "Colours".to_string(), question_count: questions as u32 };
    Coordinator::new("W2133".to_string(), basic, timing(), qs)
}

fn states_for(out: &[Outgoing], id: u32) -> Vec<GameState> {
    out.iter()
        .filter(|o| o.to == id)
        .filter_map(|o| match &o.message {
            ServerMessage::GameState(s) => Some(*s),
            _ => None,
        })
        .collect()
}

fn results_for(out: &[Outgoing], id: u32) -> Vec<AnswerResult> {
    out.iter()
        .filter(|o| o.to == id)
        .filter_map(|o| match &o.message {
            ServerMessage::AnswerResult(r) => Some(*r),
            _ => None,
        })
        .collect()
}

fn last_scores(out: &[Outgoing]) -> Vec<(u32, u32)> {
    let mut scores = Vec::new();
    for o in out {
        if let ServerMessage::ScoreUpdate { scores: s } = &o.message {
            scores = s.clone();
        }
    }
    scores
}

fn fire(g: &mut Coordinator, step: &Step, now: u64) -> Step {
    let t = step.timer.expect("a timer was scheduled");
    g.on_timer(t.epoch, now)
}

#[test]
fn join_hands_out_increasing_ids() {
    let mut g = game(1);
    let (a, _) = g.join("ann".to_string()).unwrap();
    let (b, _) = g.join("bob".to_string()).unwrap();
    let (c, _) = g.join("cat".to_string()).unwrap();
    assert!(a < b && b < c);
    assert_eq!((a, b, c), (1, 2, 3));
    g.depart(b);
    let (d, _) = g.join("dan".to_string()).unwrap();
    assert_eq!(d, 4);
}

#[test]
fn join_announces_newcomer_to_earlier_players_only() {
    let mut g = game(1);
    let (a, _) = g.join("ann".to_string()).unwrap();
    let (b, out) = g.join("bob".to_string()).unwrap();
    assert_eq!(out.len(), 3);
    assert_eq!(out[0].to, b);
    match &out[0].message {
        ServerMessage::Connected { id, token, basic, timing: t } => {
            assert_eq!(*id, b);
            assert_eq!(token, "W2133");
            assert_eq!(basic.title, "Colours");
            assert_eq!(*t, timing());
        }
        other => panic!("unexpected {:?}", other),
    }
    assert_eq!(out[1].to, a);
    assert_eq!(out[1].message, ServerMessage::OtherPlayer { id: b, name: "bob".to_string() });
    assert_eq!(out[2].to, b);
    assert_eq!(out[2].message, ServerMessage::GameState(GameState::Lobby));
}

#[test]
fn join_outside_lobby_is_rejected_silently() {
    let mut g = game(1);
    let (a, _) = g.join("ann".to_string()).unwrap();
    g.start(a, 0).unwrap();
    assert_eq!(g.join("bob".to_string()).err(), Some(ServerError::NotInLobby));
    assert_eq!(g.participant_count(), 1);
    assert_eq!(g.state(), GameState::Starting);
}

#[test]
fn join_rejects_empty_and_duplicate_names() {
    let mut g = game(1);
    assert_eq!(g.join(String::new()).err(), Some(ServerError::InvalidName));
    g.join("ann".to_string()).unwrap();
    assert_eq!(g.join("ann".to_string()).err(), Some(ServerError::NameTaken));
    assert!(g.join("Ann".to_string()).is_ok());
}

#[test]
fn second_answer_is_not_scored() {
    let mut g = game(1);
    let (a, _) = g.join("ann".to_string()).unwrap();
    let (b, _) = g.join("bob".to_string()).unwrap();
    let s = g.start(a, 0).unwrap();
    let _q = fire(&mut g, &s, 3000);
    let first = g.answer(a, QuestionAnswer { answer: 0 }, 4000);
    assert!(first.out.is_empty());
    let second = g.answer(a, QuestionAnswer { answer: 1 }, 4500);
    assert!(second.out.is_empty());
    assert!(second.timer.is_none());
    let reveal = g.answer(b, QuestionAnswer { answer: 1 }, 8000);
    assert_eq!(results_for(&reveal.out, a), vec![AnswerResult { correct: false, score: 0 }]);
    assert_eq!(results_for(&reveal.out, b), vec![AnswerResult { correct: true, score: 750 }]);
    assert_eq!(last_scores(&reveal.out), vec![(a, 0), (b, 750)]);
}

#[test]
fn start_by_guest_changes_nothing() {
    let mut g = game(1);
    let (_a, _) = g.join("ann".to_string()).unwrap();
    let (b, _) = g.join("bob".to_string()).unwrap();
    assert_eq!(g.start(b, 0).err(), Some(ServerError::NotHost));
    assert_eq!(g.state(), GameState::Lobby);
    assert_eq!(g.handle_intent(b, Intent::Start, 0).err(), Some(ServerError::NotHost));
    assert_eq!(g.state(), GameState::Lobby);
}

#[test]
fn two_question_game_walks_every_phase_once() {
    let mut g = game(2);
    let (a, _) = g.join("ann".to_string()).unwrap();
    let (b, _) = g.join("bob".to_string()).unwrap();
    let mut seen_a = Vec::new();
    let mut seen_b = Vec::new();
    let mut step = g.start(a, 0).unwrap();
    assert_eq!(step.timer.unwrap().delay, 3000);
    let mut now = 0;
    loop {
        seen_a.extend(states_for(&step.out, a));
        seen_b.extend(states_for(&step.out, b));
        match step.timer {
            Some(t) => {
                now += t.delay;
                step = g.on_timer(t.epoch, now);
            }
            None => break,
        }
    }
    let expected = vec![
        GameState::Starting,
        GameState::Question { index: 0, deadline: 13000 },
        GameState::Reveal { index: 0 },
        GameState::Question { index: 1, deadline: 28000 },
        GameState::Reveal { index: 1 },
        GameState::Finished,
    ];
    assert_eq!(seen_a, expected);
    assert_eq!(seen_b, expected);
    assert_eq!(g.state(), GameState::Finished);
}

#[test]
fn question_opens_with_begin_then_question() {
    let mut g = game(1);
    let (a, _) = g.join("ann".to_string()).unwrap();
    let s = g.start(a, 0).unwrap();
    let q = fire(&mut g, &s, 3000);
    assert_eq!(q.out.len(), 3);
    assert_eq!(q.out[0].message, ServerMessage::GameState(GameState::Question { index: 0, deadline: 13000 }));
    assert_eq!(q.out[1].message, ServerMessage::BeginQuestion);
    match &q.out[2].message {
        ServerMessage::Question(question) => {
            assert_eq!(question.text, "q0");
            assert_eq!(question.answers.len(), 3);
        }
        other => panic!("unexpected {:?}", other),
    }
    assert_eq!(q.timer.unwrap().delay, 10000);
}

#[test]
fn last_answer_reveals_immediately() {
    let mut g = game(2);
    let (a, _) = g.join("ann".to_string()).unwrap();
    let (b, _) = g.join("bob".to_string()).unwrap();
    let s = g.start(a, 0).unwrap();
    let q = fire(&mut g, &s, 3000);
    let first = g.answer(b, QuestionAnswer { answer: 1 }, 3000);
    assert!(first.out.is_empty());
    assert!(matches!(g.state(), GameState::Question { index: 0, .. }));
    let last = g.answer(a, QuestionAnswer { answer: 1 }, 5000);
    assert_eq!(g.state(), GameState::Reveal { index: 0 });
    assert_eq!(states_for(&last.out, a), vec![GameState::Reveal { index: 0 }]);
    assert_eq!(last_scores(&last.out), vec![(a, 900), (b, 1000)]);
    // The question's own timer now fires into a later phase and does nothing.
    let stale = fire(&mut g, &q, 13000);
    assert!(stale.out.is_empty());
    assert_eq!(g.state(), GameState::Reveal { index: 0 });
}

#[test]
fn cancel_returns_to_lobby_and_voids_countdown() {
    let mut g = game(1);
    let (a, _) = g.join("ann".to_string()).unwrap();
    let (b, _) = g.join("bob".to_string()).unwrap();
    assert_eq!(g.cancel(a).err(), Some(ServerError::NotYourTurn));
    let s = g.start(a, 0).unwrap();
    assert_eq!(g.cancel(b).err(), Some(ServerError::NotHost));
    let c = g.cancel(a).unwrap();
    assert_eq!(states_for(&c.out, b), vec![GameState::Lobby]);
    assert_eq!(g.state(), GameState::Lobby);
    let stale = fire(&mut g, &s, 3000);
    assert!(stale.out.is_empty());
    assert_eq!(g.state(), GameState::Lobby);
    assert_eq!(g.start(a, 4000).map(|s| s.out.len()), Ok(2));
}

#[test]
fn host_passes_to_next_admitted() {
    let mut g = game(1);
    let (a, _) = g.join("ann".to_string()).unwrap();
    let (b, _) = g.join("bob".to_string()).unwrap();
    let (_c, _) = g.join("cat".to_string()).unwrap();
    assert_eq!(g.host(), Some(a));
    let step = g.depart(a);
    assert!(!step.closed);
    assert_eq!(g.host(), Some(b));
    assert!(g.start(b, 0).is_ok());
}

#[test]
fn last_departure_closes_game() {
    let mut g = game(1);
    let (a, _) = g.join("ann".to_string()).unwrap();
    let (b, _) = g.join("bob".to_string()).unwrap();
    assert!(!g.depart(a).closed);
    assert!(!g.depart(a).closed);
    let last = g.depart(b);
    assert!(last.closed);
    assert!(last.out.is_empty());
    assert_eq!(g.participant_count(), 0);
}

#[test]
fn departure_of_only_pending_answerer_reveals() {
    let mut g = game(1);
    let (a, _) = g.join("ann".to_string()).unwrap();
    let (b, _) = g.join("bob".to_string()).unwrap();
    let s = g.start(a, 0).unwrap();
    let _q = fire(&mut g, &s, 1000);
    g.answer(a, QuestionAnswer { answer: 2 }, 2000);
    let step = g.depart(b);
    assert_eq!(g.state(), GameState::Reveal { index: 0 });
    assert_eq!(results_for(&step.out, a), vec![AnswerResult { correct: false, score: 0 }]);
}

#[test]
fn answers_outside_question_are_ignored() {
    let mut g = game(1);
    let (a, _) = g.join("ann".to_string()).unwrap();
    let s = g.answer(a, QuestionAnswer { answer: 1 }, 0);
    assert!(s.out.is_empty());
    assert_eq!(g.scores(), vec![(a, 0)]);
    let unknown = g.answer(99, QuestionAnswer { answer: 1 }, 0);
    assert!(unknown.out.is_empty());
}

#[test]
fn finished_game_reports_final_scores() {
    let mut g = game(1);
    let (a, _) = g.join("ann".to_string()).unwrap();
    let s = g.start(a, 0).unwrap();
    let _q = fire(&mut g, &s, 3000);
    let r = g.answer(a, QuestionAnswer { answer: 1 }, 3000);
    let f = fire(&mut g, &r, 8000);
    assert_eq!(g.state(), GameState::Finished);
    assert!(f.timer.is_none());
    assert_eq!(f.out[0].message, ServerMessage::GameState(GameState::Finished));
    assert_eq!(f.out[1].message, ServerMessage::ScoreUpdate { scores: vec![(a, 1000)] });
}

#[test]
fn time_sync_reports_countdown_progress() {
    let mut g = game(1);
    let (a, _) = g.join("ann".to_string()).unwrap();
    assert!(g.time_sync(0).is_empty());
    g.start(a, 1000).unwrap();
    let sync = g.time_sync(2500);
    assert_eq!(sync.len(), 1);
    assert_eq!(sync[0].message, ServerMessage::TimeSync { total: 3000, elapsed: 1500 });
    let late = g.time_sync(9000);
    assert_eq!(late[0].message, ServerMessage::TimeSync { total: 3000, elapsed: 3000 });
}

#[test]
fn ready_is_informational() {
    let mut g = game(1);
    let (a, _) = g.join("ann".to_string()).unwrap();
    let r = g.handle_intent(a, Intent::Ready, 0).unwrap();
    assert!(r.out.is_empty());
    assert_eq!(g.state(), GameState::Lobby);
}

#[test]
fn speed_bonus_falls_linearly() {
    assert_eq!(answer_points(0, 10000), 1000);
    assert_eq!(answer_points(2000, 10000), 900);
    assert_eq!(answer_points(5000, 10000), 750);
    assert_eq!(answer_points(9999, 10000), 500);
    assert_eq!(answer_points(10000, 10000), 500);
    assert_eq!(answer_points(20000, 10000), 500);
}
