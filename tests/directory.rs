use quizler::directory::Directory;
use quizler::game::{Coordinator, QuestionEntry};
use quizler::protocol::{BasicConfig, GameTiming, ServerError};

#[test]
fn register_resolve_unregister() {
    let mut d: Directory<u64> = Directory::new();
    assert_eq!(d.register("W2133".to_string(), 7), Ok(()));
    assert_eq!(d.register("A1".to_string(), 8), Ok(()));
    assert_eq!(d.register("W2133".to_string(), 9), Err(9));
    assert_eq!(d.resolve("W2133"), Some(&7));
    assert_eq!(d.resolve("A1"), Some(&8));
    assert_eq!(d.resolve("w2133"), None);
    assert_eq!(d.unregister("W2133"), Some(7));
    assert_eq!(d.resolve("W2133"), None);
    assert_eq!(d.unregister("W2133"), None);
    assert_eq!(d.resolve("A1"), Some(&8));
}

#[test]
fn lookup_reports_unknown_token() {
    let mut d: Directory<u64> = Directory::new();
    assert_eq!(d.lookup("nope"), Err(ServerError::UnknownToken));
    d.register("T1".to_string(), 1).unwrap();
    assert_eq!(d.lookup("T1"), Ok(&1));
}

#[test]
fn closed_game_no_longer_resolves() {
    let timing = GameTiming { countdown: 3000, answer_window: 10000, reveal: 5000 };
    let basic = BasicConfig { title: "t".to_string(), question_count: 0 };
    let questions: Vec<QuestionEntry> = Vec::new();
    let mut game = Coordinator::new("W2133".to_string(), basic, timing, questions);
    let mut games: Directory<u64> = Directory::new();
    games.register("W2133".to_string(), 1).unwrap();
    let (id, _) = game.join("ann".to_string()).unwrap();
    let step = game.depart(id);
    assert!(step.closed);
    assert_eq!(games.unregister(game.token()), Some(1));
    assert!(games.resolve("W2133").is_none());
}
