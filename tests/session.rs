use quizler::protocol::{ClientMessage, Intent, QuestionAnswer, ServerError};
use quizler::session::{GatewayAction, Session};

fn is_reply(a: &GatewayAction, e: ServerError) -> bool {
    matches!(a, GatewayAction::Reply(x) if *x == e)
}

#[test]
fn messages_before_joining_are_refused() {
    let mut s = Session::new();
    assert!(is_reply(&s.handle_message(ClientMessage::Start), ServerError::NotJoined));
    assert!(is_reply(&s.handle_message(ClientMessage::Ready), ServerError::NotJoined));
    assert_eq!(s.id(), None);
}

#[test]
fn malformed_frame_gets_error_reply() {
    let mut s = Session::new();
    assert!(is_reply(&s.handle_frame(None), ServerError::MalformedMessage));
}

#[test]
fn connect_then_forward() {
    let mut s = Session::new();
    let a = s.handle_frame(Some(ClientMessage::TryConnect {
        token: "W2133".to_string(),
        username: "ann".to_string(),
    }));
    match a {
        GatewayAction::Connect { token, username } => {
            assert_eq!(token, "W2133");
            assert_eq!(username, "ann");
        }
        _ => panic!("expected a join request"),
    }
    let again = s.handle_message(ClientMessage::TryConnect {
        token: "W2133".to_string(),
        username: "ann".to_string(),
    });
    assert!(is_reply(&again, ServerError::AlreadyJoined));
    assert_eq!(s.connected("W2133".to_string(), Ok(4)), None);
    assert_eq!(s.id(), Some(4));
    assert_eq!(s.token().map(|t| t.as_str()), Some("W2133"));
    match s.handle_message(ClientMessage::Answer(QuestionAnswer { answer: 2 })) {
        GatewayAction::Forward { id, intent } => {
            assert_eq!(id, 4);
            assert_eq!(intent, Intent::Answer(QuestionAnswer { answer: 2 }));
        }
        _ => panic!("expected a forward"),
    }
    let game = s.close().unwrap();
    assert_eq!((game.token.as_str(), game.id), ("W2133", 4));
    assert!(s.close().is_none());
}

#[test]
fn failed_connect_can_be_retried() {
    let mut s = Session::new();
    s.try_connect("X".to_string(), "ann".to_string());
    assert_eq!(s.connected("X".to_string(), Err(ServerError::UnknownToken)), Some(ServerError::UnknownToken));
    assert_eq!(s.id(), None);
    assert!(matches!(s.try_connect("W2133".to_string(), "ann".to_string()), GatewayAction::Connect { .. }));
}
