use webserver::auth::AuthBody;
use webserver::error::{AuthError, DatabaseError, Error, RoomError, TicketError};
use webserver::manage::{
    create_room, create_user, delete_room, delete_user, list_room_users, list_rooms,
    list_user, list_user_rooms, CreateRoomPayload, CreateUserPayload, DeleteRoomPayload,
    DeleteUserPayload,
};
use webserver::registry::Registry;
use webserver::ticket::TicketController;

#[test]
fn error_status_codes() {
    assert_eq!(Error::Auth(AuthError::InvalidToken).status_code(), 401);
    assert_eq!(Error::Database(DatabaseError::DeleteFailed).status_code(), 500);
    assert_eq!(Error::Room(RoomError::UserNotFound).status_code(), 404);
    assert_eq!(Error::Room(RoomError::RoomNotFound).status_code(), 404);
    assert_eq!(Error::Room(RoomError::AlreadyExists).status_code(), 409);
    assert_eq!(Error::Room(RoomError::AlreadyMember).status_code(), 409);
    assert_eq!(Error::Room(RoomError::AlreadyConnected).status_code(), 409);
    assert_eq!(Error::Room(RoomError::NotMember).status_code(), 403);
    assert_eq!(Error::Room(RoomError::MalformedDirective).status_code(), 400);
    assert_eq!(Error::Room(RoomError::DeliveryFailed).status_code(), 500);
    assert_eq!(Error::Ticket(TicketError::NotFound(3)).status_code(), 404);
    assert_eq!(Error::Ticket(TicketError::CreateFailed).status_code(), 500);
    assert_eq!(Error::Unknown.status_code(), 500);
}

#[test]
fn error_texts() {
    assert_eq!(Error::Auth(AuthError::WrongCredentials).text(), "Invalid username or password");
    assert_eq!(Error::Auth(AuthError::InvalidCookie).text(), "Invalid cookie");
    assert_eq!(Error::Database(DatabaseError::InsertFailed).text(), "Database insert failed");
    assert_eq!(Error::Room(RoomError::RoomNotFound).text(), "Room not found");
    assert_eq!(Error::Room(RoomError::DeliveryFailed).text(), "Delivery failed");
    assert_eq!(Error::Ticket(TicketError::NotFound(42)).text(), "Ticket with id 42 not found");
    assert_eq!(Error::Ticket(TicketError::NotFound(-7)).text(), "Ticket with id -7 not found");
    assert_eq!(Error::Ticket(TicketError::NotFound(0)).text(), "Ticket with id 0 not found");
    assert_eq!(
        Error::Ticket(TicketError::NotFound(i64::MIN)).text(),
        "Ticket with id -9223372036854775808 not found"
    );
    assert_eq!(
        Error::Ticket(TicketError::NotFound(i64::MAX)).text(),
        "Ticket with id 9223372036854775807 not found"
    );
    assert_eq!(Error::Unknown.text(), "Unknown error");
    let (status, text) = Error::Room(RoomError::UserNotFound).into_response();
    assert_eq!((status, text.as_str()), (404, "User not found"));
}

#[test]
fn error_conversions() {
    assert_eq!(Error::from(AuthError::InvalidToken), Error::Auth(AuthError::InvalidToken));
    assert_eq!(Error::from(RoomError::NotMember), Error::Room(RoomError::NotMember));
    assert_eq!(Error::from(TicketError::CreateFailed), Error::Ticket(TicketError::CreateFailed));
    assert_eq!(Error::from(DatabaseError::SelectFailed), Error::Database(DatabaseError::SelectFailed));
}

#[test]
fn auth_body_is_bearer() {
    let body = AuthBody::new("tok".to_string());
    assert_eq!(body.access_token, "tok");
    assert_eq!(body.token_type, "Bearer");
}

#[test]
fn ticket_store() {
    let mut tickets = TicketController::new().unwrap();
    let a = tickets.create("first".to_string()).unwrap();
    let b = tickets.create("second".to_string()).unwrap();
    assert_eq!((a.id, a.title.as_str()), (0, "first"));
    assert_eq!((b.id, b.title.as_str()), (1, "second"));
    assert_eq!(tickets.list().unwrap().len(), 2);
    let gone = tickets.delete(0).unwrap();
    assert_eq!(gone.title, "first");
    let left = tickets.list().unwrap();
    assert_eq!(left.len(), 1);
    assert_eq!(left[0].id, 1);
    assert!(matches!(tickets.delete(0), Err(Error::Ticket(TicketError::NotFound(0)))));
    assert!(matches!(tickets.delete(9), Err(Error::Ticket(TicketError::NotFound(9)))));
    assert!(tickets.list().unwrap().iter().all(|t| t.id != 0));
    assert_eq!(tickets.create("third".to_string()).unwrap().id, 2);
}

#[test]
fn admin_operations() {
    let mut state = Registry::new();
    let u = create_user(&mut state, CreateUserPayload { name: "alice".to_string() }).unwrap();
    assert_eq!(u.name, "alice");
    assert!(matches!(
        create_user(&mut state, CreateUserPayload { name: "alice".to_string() }),
        Err(Error::Room(RoomError::AlreadyExists))
    ));
    let r = create_room(&mut state, CreateRoomPayload { name: "general".to_string() }).unwrap();
    assert_eq!(r.name, "general");
    assert!(matches!(
        create_room(&mut state, CreateRoomPayload { name: "general".to_string() }),
        Err(Error::Room(RoomError::AlreadyExists))
    ));
    state.join_room("alice", "general").unwrap();
    assert_eq!(list_user(&state), vec!["alice".to_string()]);
    assert_eq!(list_rooms(&state), vec!["general".to_string()]);
    assert_eq!(
        list_user_rooms(&state),
        vec![("alice".to_string(), vec!["general".to_string()])]
    );
    assert_eq!(
        list_room_users(&state),
        vec![("general".to_string(), vec!["alice".to_string()])]
    );
    assert!(matches!(
        delete_user(&mut state, DeleteUserPayload { name: "bob".to_string() }),
        Err(Error::Room(RoomError::UserNotFound))
    ));
    assert_eq!(
        delete_room(&mut state, DeleteRoomPayload { name: "general".to_string() }).unwrap().name,
        "general"
    );
    assert!(matches!(
        delete_room(&mut state, DeleteRoomPayload { name: "general".to_string() }),
        Err(Error::Room(RoomError::RoomNotFound))
    ));
    assert!(list_user_rooms(&state)[0].1.is_empty());
    assert_eq!(
        delete_user(&mut state, DeleteUserPayload { name: "alice".to_string() }).unwrap().name,
        "alice"
    );
    assert!(list_user(&state).is_empty());
}
