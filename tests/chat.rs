use std::sync::Arc;

use tokio::sync::broadcast::Receiver;
use webserver::error::RoomError;
use webserver::message::{ChannelMessage, Fanout, Room, SocketMessage};
use webserver::registry::Registry;

fn setup(users: &[&str], rooms: &[&str]) -> Registry {
    let mut reg = Registry::new();
    for u in users {
        reg.register_user(u.to_string()).unwrap();
    }
    for r in rooms {
        reg.create_room(r.to_string()).unwrap();
    }
    reg
}

fn drain(rx: &mut Receiver<Arc<ChannelMessage>>) -> Vec<(String, Option<String>, String)> {
    let mut out = Vec::new();
    while let Ok(m) = rx.try_recv() {
        out.push((m.room.name.clone(), m.from.clone(), m.message.clone()));
    }
    out
}

fn content(room: &str, text: &str) -> SocketMessage {
    SocketMessage::Content(ChannelMessage {
        room: Room { name: room.to_string() },
        from: None,
        message: text.to_string(),
    })
}

fn sorted(mut v: Vec<String>) -> Vec<String> {
    v.sort();
    v
}

#[test]
fn scenario_alice_says_hi_in_general() {
    let mut reg = setup(&["alice", "bob"], &["general"]);
    let mut alice_rx = reg.connect("alice").unwrap();
    let mut bob_rx = reg.connect("bob").unwrap();
    for u in ["alice", "bob"] {
        let f = reg.route(u, SocketMessage::Join("general".to_string())).unwrap();
        assert!(reg.deliver(f).is_empty());
    }
    drain(&mut alice_rx);
    drain(&mut bob_rx);

    let f = reg.route("alice", content("general", "hi")).unwrap();
    assert!(reg.deliver(f).is_empty());
    let expected = vec![("general".to_string(), Some("alice".to_string()), "hi".to_string())];
    assert_eq!(drain(&mut bob_rx), expected);
    assert_eq!(drain(&mut alice_rx), expected);
}

#[test]
fn second_connection_is_refused() {
    let mut reg = setup(&["alice"], &["general"]);
    let _rx = reg.connect("alice").unwrap();
    reg.join_room("alice", "general").unwrap();
    assert!(matches!(reg.connect("alice"), Err(RoomError::AlreadyConnected)));
    let members = reg.members_of("general").unwrap();
    assert_eq!(members.iter().filter(|m| m.as_str() == "alice").count(), 1);
    assert_eq!(reg.rooms_of("alice").unwrap(), vec!["general".to_string()]);
}

#[test]
fn deleting_a_room_removes_its_memberships() {
    let mut reg = setup(&["alice", "bob"], &["general", "rust"]);
    reg.join_room("alice", "general").unwrap();
    reg.join_room("bob", "general").unwrap();
    reg.join_room("alice", "rust").unwrap();
    let room = reg.delete_room("general").unwrap();
    assert_eq!(room.name, "general");
    assert!(matches!(reg.members_of("general"), Err(RoomError::RoomNotFound)));
    assert_eq!(reg.rooms_of("alice").unwrap(), vec!["rust".to_string()]);
    assert!(reg.rooms_of("bob").unwrap().is_empty());
    assert!(matches!(reg.delete_room("general"), Err(RoomError::RoomNotFound)));
}

#[test]
fn join_then_leave_updates_both_views() {
    let mut reg = setup(&["alice"], &["general"]);
    let f = reg.route("alice", SocketMessage::Join("general".to_string())).unwrap();
    assert_eq!(f.message.message, "alice joined general");
    assert_eq!(f.recipients, vec!["alice".to_string()]);
    assert!(reg.is_user_in_room("alice", "general"));
    assert_eq!(reg.members_of("general").unwrap(), vec!["alice".to_string()]);
    assert_eq!(reg.rooms_of("alice").unwrap(), vec!["general".to_string()]);

    let f = reg.route("alice", SocketMessage::Leave("general".to_string())).unwrap();
    assert_eq!(f.message.message, "alice left general");
    assert!(f.recipients.is_empty());
    assert!(!reg.is_user_in_room("alice", "general"));
    assert!(reg.members_of("general").unwrap().is_empty());
    assert!(reg.rooms_of("alice").unwrap().is_empty());
}

#[test]
fn membership_tables_agree() {
    let mut reg = setup(&["alice", "bob", "carol"], &["a", "b"]);
    reg.join_room("alice", "a").unwrap();
    reg.join_room("bob", "a").unwrap();
    reg.join_room("bob", "b").unwrap();
    reg.join_room("carol", "b").unwrap();
    reg.leave_room("bob", "a").unwrap();
    reg.delete_user("carol").unwrap();
    let by_user = reg.user_rooms_table();
    let by_room = reg.room_users_table();
    for (u, rooms) in &by_user {
        for r in rooms {
            let (_, members) = by_room.iter().find(|(n, _)| n == r).unwrap();
            assert!(members.contains(u));
        }
    }
    for (r, members) in &by_room {
        for u in members {
            let (_, rooms) = by_user.iter().find(|(n, _)| n == u).unwrap();
            assert!(rooms.contains(r));
        }
    }
    assert_eq!(sorted(reg.members_of("a").unwrap()), vec!["alice".to_string()]);
    assert_eq!(sorted(reg.members_of("b").unwrap()), vec!["bob".to_string()]);
}

#[test]
fn content_from_non_member_is_not_delivered() {
    let mut reg = setup(&["alice", "bob"], &["general"]);
    let mut bob_rx = reg.connect("bob").unwrap();
    reg.join_room("bob", "general").unwrap();
    assert!(matches!(reg.route("alice", content("general", "spam")), Err(RoomError::NotMember)));
    assert!(matches!(reg.route("alice", content("nowhere", "spam")), Err(RoomError::RoomNotFound)));
    assert!(matches!(reg.route("mallory", content("general", "spam")), Err(RoomError::UserNotFound)));
    assert!(drain(&mut bob_rx).is_empty());
}

#[test]
fn content_reaches_exactly_the_room() {
    let mut reg = setup(&["alice", "bob", "carol", "dave"], &["general", "other"]);
    let mut rxs: Vec<_> = ["alice", "bob", "carol", "dave"]
        .iter()
        .map(|u| reg.connect(u).unwrap())
        .collect();
    for u in ["alice", "bob", "carol"] {
        reg.join_room(u, "general").unwrap();
    }
    reg.join_room("dave", "other").unwrap();
    let f = reg.route("alice", content("general", "hello")).unwrap();
    assert_eq!(f.message.from.as_deref(), Some("alice"));
    assert_eq!(sorted(f.recipients.clone()), vec!["alice", "bob", "carol"]);
    assert!(reg.deliver(f).is_empty());
    for rx in rxs.iter_mut().take(3) {
        assert_eq!(drain(rx).len(), 1);
    }
    assert!(drain(&mut rxs[3]).is_empty());
}

#[test]
fn caller_supplied_sender_is_ignored() {
    let mut reg = setup(&["alice"], &["general"]);
    reg.join_room("alice", "general").unwrap();
    let msg = SocketMessage::Content(ChannelMessage {
        room: Room { name: "general".to_string() },
        from: Some("bob".to_string()),
        message: "hi".to_string(),
    });
    let f = reg.route("alice", msg).unwrap();
    assert_eq!(f.message.from.as_deref(), Some("alice"));
    assert_eq!(f.message.room.name, "general");
    assert_eq!(f.message.message, "hi");
}

#[test]
fn disconnect_leaves_every_room_with_notices() {
    let mut reg = setup(&["alice", "bob", "carol"], &["a", "b", "c"]);
    let _alice_rx = reg.connect("alice").unwrap();
    let mut bob_rx = reg.connect("bob").unwrap();
    let mut carol_rx = reg.connect("carol").unwrap();
    reg.join_room("alice", "a").unwrap();
    reg.join_room("alice", "b").unwrap();
    reg.join_room("bob", "a").unwrap();
    reg.join_room("carol", "b").unwrap();
    reg.join_room("carol", "c").unwrap();

    let notices = reg.disconnect("alice");
    assert_eq!(notices.len(), 2);
    for n in notices {
        let room = n.message.room.name.clone();
        assert_eq!(n.message.message, format!("alice left {}", room));
        let expected = if room == "a" { vec!["bob".to_string()] } else { vec!["carol".to_string()] };
        assert_eq!(n.recipients, expected);
        assert!(reg.deliver(n).is_empty());
    }
    assert!(reg.rooms_of("alice").unwrap().is_empty());
    assert!(!reg.is_user_in_room("alice", "a"));
    assert!(!reg.is_user_in_room("alice", "b"));
    assert!(!reg.is_connected("alice"));
    assert_eq!(
        drain(&mut bob_rx),
        vec![("a".to_string(), Some("alice".to_string()), "alice left a".to_string())]
    );
    assert_eq!(
        drain(&mut carol_rx),
        vec![("b".to_string(), Some("alice".to_string()), "alice left b".to_string())]
    );
    assert!(reg.connect("alice").is_ok());
}

#[test]
fn disconnect_of_unknown_user_does_nothing() {
    let mut reg = setup(&["alice"], &["a"]);
    reg.join_room("alice", "a").unwrap();
    assert!(reg.disconnect("zed").is_empty());
    assert!(reg.is_user_in_room("alice", "a"));
}

#[test]
fn joining_twice_is_a_no_op() {
    let mut reg = setup(&["alice", "bob"], &["general"]);
    reg.route("bob", SocketMessage::Join("general".to_string())).unwrap();
    reg.route("alice", SocketMessage::Join("general".to_string())).unwrap();
    let once = (sorted(reg.members_of("general").unwrap()), reg.rooms_of("alice").unwrap());
    assert!(matches!(
        reg.route("alice", SocketMessage::Join("general".to_string())),
        Err(RoomError::AlreadyMember)
    ));
    let twice = (sorted(reg.members_of("general").unwrap()), reg.rooms_of("alice").unwrap());
    assert_eq!(once, twice);
}

#[test]
fn directive_errors() {
    let mut reg = setup(&["alice"], &["general"]);
    assert!(matches!(
        reg.route("alice", SocketMessage::Join("nowhere".to_string())),
        Err(RoomError::RoomNotFound)
    ));
    assert!(matches!(
        reg.route("nobody", SocketMessage::Join("general".to_string())),
        Err(RoomError::UserNotFound)
    ));
    assert!(matches!(
        reg.route("alice", SocketMessage::Leave("general".to_string())),
        Err(RoomError::NotMember)
    ));
    assert!(matches!(
        reg.route("alice", SocketMessage::Leave("nowhere".to_string())),
        Err(RoomError::RoomNotFound)
    ));
    assert!(matches!(reg.leave_room("alice", "general"), Err(RoomError::NotMember)));
    assert!(matches!(reg.join_room("ghost", "general"), Err(RoomError::UserNotFound)));
}

#[test]
fn registration_conflicts_and_lookups() {
    let mut reg = setup(&["alice"], &["general"]);
    assert!(matches!(reg.register_user("alice".to_string()), Err(RoomError::AlreadyExists)));
    assert!(matches!(reg.create_room("general".to_string()), Err(RoomError::AlreadyExists)));
    assert!(matches!(reg.connect("nobody"), Err(RoomError::UserNotFound)));
    assert!(matches!(reg.rooms_of("nobody"), Err(RoomError::UserNotFound)));
    assert_eq!(reg.user_names(), vec!["alice".to_string()]);
    assert_eq!(reg.room_names(), vec!["general".to_string()]);
}

#[test]
fn deleting_a_user_removes_it_from_rooms() {
    let mut reg = setup(&["alice", "bob"], &["a", "b"]);
    reg.join_room("alice", "a").unwrap();
    reg.join_room("alice", "b").unwrap();
    reg.join_room("bob", "a").unwrap();
    assert_eq!(reg.delete_user("alice").unwrap().name, "alice");
    assert_eq!(reg.members_of("a").unwrap(), vec!["bob".to_string()]);
    assert!(reg.members_of("b").unwrap().is_empty());
    assert!(matches!(reg.rooms_of("alice"), Err(RoomError::UserNotFound)));
    assert!(matches!(reg.delete_user("alice"), Err(RoomError::UserNotFound)));
    assert_eq!(reg.user_names(), vec!["bob".to_string()]);
}

#[test]
fn delivery_reports_unreachable_recipients() {
    let mut reg = setup(&["alice", "bob"], &["general"]);
    let mut alice_rx = reg.connect("alice").unwrap();
    reg.join_room("alice", "general").unwrap();
    reg.join_room("bob", "general").unwrap();
    let mut f = reg.route("alice", content("general", "hi")).unwrap();
    f.recipients.push("ghost".to_string());
    let failed = sorted(reg.deliver(f));
    assert_eq!(failed, vec!["bob".to_string(), "ghost".to_string()]);
    assert_eq!(drain(&mut alice_rx).len(), 1);
}

#[test]
fn failed_recipient_does_not_stop_the_others() {
    let mut reg = setup(&["alice", "bob", "carol"], &["general"]);
    let mut alice_rx = reg.connect("alice").unwrap();
    let mut carol_rx = reg.connect("carol").unwrap();
    let fanout = Fanout {
        message: ChannelMessage {
            room: Room { name: "general".to_string() },
            from: Some("carol".to_string()),
            message: "ping".to_string(),
        },
        recipients: vec![
            "ghost".to_string(),
            "bob".to_string(),
            "alice".to_string(),
            "carol".to_string(),
        ],
    };
    assert_eq!(reg.deliver(fanout), vec!["ghost".to_string(), "bob".to_string()]);
    let expected = vec![("general".to_string(), Some("carol".to_string()), "ping".to_string())];
    assert_eq!(drain(&mut alice_rx), expected);
    assert_eq!(drain(&mut carol_rx), expected);
}
