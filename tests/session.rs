use webserver::error::RoomError;
use webserver::message::SocketMessage;
use webserver::registry::Registry;
use webserver::session::{Session, SessionAction, SessionEvent, SessionState};

fn registry() -> Registry {
    let mut reg = Registry::new();
    reg.register_user("alice".to_string()).unwrap();
    reg.register_user("bob".to_string()).unwrap();
    reg.create_room("general".to_string()).unwrap();
    reg
}

#[test]
fn session_lifecycle() {
    let mut reg = registry();
    let mut s = Session::new("alice".to_string());
    assert_eq!(s.state(), SessionState::Connecting);
    assert_eq!(s.user(), "alice");
    let _rx = s.attach(&mut reg).unwrap();
    assert_eq!(s.state(), SessionState::Active);
    assert!(reg.is_connected("alice"));

    match s.on_event(&mut reg, SessionEvent::Directive(SocketMessage::Join("general".to_string()))) {
        SessionAction::Deliver(f) => assert_eq!(f.message.message, "alice joined general"),
        _ => panic!("expected a delivery"),
    }
    assert!(matches!(
        s.on_event(&mut reg, SessionEvent::Malformed),
        SessionAction::Dropped(RoomError::MalformedDirective)
    ));
    assert!(matches!(
        s.on_event(&mut reg, SessionEvent::Directive(SocketMessage::Join("general".to_string()))),
        SessionAction::Dropped(RoomError::AlreadyMember)
    ));
    assert!(matches!(s.on_event(&mut reg, SessionEvent::PeerClosed), SessionAction::Drain));
    assert_eq!(s.state(), SessionState::Draining);
    assert!(matches!(s.on_event(&mut reg, SessionEvent::Malformed), SessionAction::Ignored));

    let notices = s.close(&mut reg);
    assert_eq!(notices.len(), 1);
    assert_eq!(notices[0].message.message, "alice left general");
    assert_eq!(s.state(), SessionState::Closed);
    assert!(!reg.is_connected("alice"));
    assert!(!reg.is_user_in_room("alice", "general"));
    assert!(s.close(&mut reg).is_empty());
}

#[test]
fn cleanup_runs_once() {
    let mut reg = registry();
    let mut s = Session::new("alice".to_string());
    let _rx = s.attach(&mut reg).unwrap();
    reg.join_room("alice", "general").unwrap();
    assert!(matches!(s.on_event(&mut reg, SessionEvent::TransportError), SessionAction::Drain));
    assert!(matches!(s.on_event(&mut reg, SessionEvent::ChannelClosed), SessionAction::Ignored));
    assert_eq!(s.close(&mut reg).len(), 1);
    let mut again = Session::new("alice".to_string());
    let _rx2 = again.attach(&mut reg).unwrap();
    reg.join_room("alice", "general").unwrap();
    assert!(s.close(&mut reg).is_empty());
    assert!(reg.is_user_in_room("alice", "general"));
    assert!(reg.is_connected("alice"));
}

#[test]
fn second_session_is_refused() {
    let mut reg = registry();
    let mut first = Session::new("alice".to_string());
    let _rx = first.attach(&mut reg).unwrap();
    reg.join_room("alice", "general").unwrap();
    let mut second = Session::new("alice".to_string());
    assert!(matches!(second.attach(&mut reg), Err(RoomError::AlreadyConnected)));
    assert_eq!(second.state(), SessionState::Closed);
    assert!(second.close(&mut reg).is_empty());
    assert_eq!(reg.members_of("general").unwrap(), vec!["alice".to_string()]);
    assert!(reg.is_connected("alice"));
}

#[test]
fn unknown_principal_is_refused() {
    let mut reg = registry();
    let mut s = Session::new("mallory".to_string());
    assert!(matches!(s.attach(&mut reg), Err(RoomError::UserNotFound)));
    assert_eq!(s.state(), SessionState::Closed);
}
