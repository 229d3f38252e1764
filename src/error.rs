//! Error types and the HTTP status each one maps to.

use vstd::prelude::*;
use vstd::string::StringExecFns;

verus! {

/// Failures of authentication.
#[derive(Debug, Clone, Copy, PartialEq, Eq, Structural)]
pub enum AuthError {
    InvalidToken,
    InvalidCookie,
    WrongCredentials,
}

/// Failures of the relational store.
#[derive(Debug, Clone, Copy, PartialEq, Eq, Structural)]
pub enum DatabaseError {
    InsertFailed,
    SelectFailed,
    DeleteFailed,
}

/// Failures of the chat registry and of directives sent over a session.
#[derive(Debug, Clone, Copy, PartialEq, Eq, Structural)]
pub enum RoomError {
    UserNotFound,
    RoomNotFound,
    AlreadyExists,
    AlreadyMember,
    NotMember,
    AlreadyConnected,
    MalformedDirective,
    DeliveryFailed,
}

/// Failures of the ticket store.
#[derive(Debug, Clone, Copy, PartialEq, Eq, Structural)]
pub enum TicketError {
    CreateFailed,
    NotFound(i64),
}

/// Every failure the service reports to a caller.
#[derive(Debug, Clone, Copy, PartialEq, Eq, Structural)]
pub enum Error {
    Auth(AuthError),
    Ticket(TicketError),
    Database(DatabaseError),
    Room(RoomError),
    Unknown,
}

/// HTTP status codes used by the service.
pub const BAD_REQUEST: u16 = 400;
pub const UNAUTHORIZED: u16 = 401;
pub const FORBIDDEN: u16 = 403;
pub const NOT_FOUND: u16 = 404;
pub const CONFLICT: u16 = 409;
pub const INTERNAL_SERVER_ERROR: u16 = 500;

/// The character of a decimal digit.
pub open spec fn digit_char(d: nat) -> char {
    if d == 0 {
        '0'
    } else if d == 1 {
        '1'
    } else if d == 2 {
        '2'
    } else if d == 3 {
        '3'
    } else if d == 4 {
        '4'
    } else if d == 5 {
        '5'
    } else if d == 6 {
        '6'
    } else if d == 7 {
        '7'
    } else if d == 8 {
        '8'
    } else {
        '9'
    }
}

/// The decimal digits of a natural number, most significant first.
pub open spec fn digits(n: nat) -> Seq<char>
    decreases n,
{
    if n < 10 {
        seq![digit_char(n)]
    } else {
        digits(n / 10).push(digit_char(n % 10))
    }
}

/// The decimal text of an integer: a leading `-` when negative, no padding.
pub open spec fn decimal(n: int) -> Seq<char> {
    if n < 0 {
        seq!['-'] + digits((-n) as nat)
    } else {
        digits(n as nat)
    }
}

/// The text of one decimal digit.
fn digit_text(d: u64) -> (r: &'static str)
    requires
        d < 10,
    ensures
        r@ == seq![digit_char(d as nat)],
{
    proof {
        reveal_strlit("0");
        reveal_strlit("1");
        reveal_strlit("2");
        reveal_strlit("3");
        reveal_strlit("4");
        reveal_strlit("5");
        reveal_strlit("6");
        reveal_strlit("7");
        reveal_strlit("8");
        reveal_strlit("9");
    }
    match d {
        0 => "0",
        1 => "1",
        2 => "2",
        3 => "3",
        4 => "4",
        5 => "5",
        6 => "6",
        7 => "7",
        8 => "8",
        _ => "9",
    }
}

/// The decimal text of `n`.
fn i64_text(n: i64) -> (r: String)
    ensures
        r@ == decimal(n as int),
{
    let mag: u64 = if n < 0 {
        (0i128 - (n as i128)) as u64
    } else {
        n as u64
    };
    let mut m: u64 = mag / 10;
    let mut acc: String = digit_text(mag % 10).to_owned();
    proof {
        if mag >= 10 {
            assert(digits(mag as nat) =~= digits(m as nat) + acc@);
        }
    }
    while m > 0
        invariant
            m == 0 ==> acc@ == digits(mag as nat),
            m > 0 ==> digits(mag as nat) == digits(m as nat) + acc@,
        decreases m,
    {
        let ghost before = acc@;
        let d = digit_text(m % 10).to_owned();
        acc = d.concat(acc.as_str());
        proof {
            if m >= 10 {
                assert(digits(m as nat) =~= digits((m / 10) as nat) + seq![digit_char((m % 10) as nat)]);
                assert(digits(mag as nat) =~= digits((m / 10) as nat) + acc@);
            } else {
                assert(acc@ =~= digits(m as nat) + before);
            }
        }
        m = m / 10;
    }
    if n < 0 {
        proof {
            reveal_strlit("-");
        }
        "-".to_owned().concat(acc.as_str())
    } else {
        acc
    }
}

impl AuthError {
    pub open spec fn spec_status_code(self) -> u16 {
        UNAUTHORIZED
    }

    pub open spec fn spec_text(self) -> Seq<char> {
        match self {
            AuthError::InvalidToken => "Invalid token"@,
            AuthError::InvalidCookie => "Invalid cookie"@,
            AuthError::WrongCredentials => "Invalid username or password"@,
        }
    }

    pub fn status_code(&self) -> (r: u16)
        ensures
            r == self.spec_status_code(),
    {
        UNAUTHORIZED
    }

    /// The human-readable description of the error.
    pub fn text(&self) -> (r: String)
        ensures
            r@ == self.spec_text(),
    {
        match self {
            AuthError::InvalidToken => "Invalid token".to_owned(),
            AuthError::InvalidCookie => "Invalid cookie".to_owned(),
            AuthError::WrongCredentials => "Invalid username or password".to_owned(),
        }
    }
}

impl DatabaseError {
    pub open spec fn spec_status_code(self) -> u16 {
        INTERNAL_SERVER_ERROR
    }

    pub open spec fn spec_text(self) -> Seq<char> {
        match self {
            DatabaseError::InsertFailed => "Database insert failed"@,
            DatabaseError::SelectFailed => "Database select failed"@,
            DatabaseError::DeleteFailed => "Database delete failed"@,
        }
    }

    pub fn status_code(&self) -> (r: u16)
        ensures
            r == self.spec_status_code(),
    {
        INTERNAL_SERVER_ERROR
    }

    /// The human-readable description of the error.
    pub fn text(&self) -> (r: String)
        ensures
            r@ == self.spec_text(),
    {
        match self {
            DatabaseError::InsertFailed => "Database insert failed".to_owned(),
            DatabaseError::SelectFailed => "Database select failed".to_owned(),
            DatabaseError::DeleteFailed => "Database delete failed".to_owned(),
        }
    }
}

impl RoomError {
    /// Missing users or rooms read as "not found", duplicates as "conflict".
    pub open spec fn spec_status_code(self) -> u16 {
        match self {
            RoomError::UserNotFound | RoomError::RoomNotFound => NOT_FOUND,
            RoomError::AlreadyExists | RoomError::AlreadyMember | RoomError::AlreadyConnected => CONFLICT,
            RoomError::NotMember => FORBIDDEN,
            RoomError::MalformedDirective => BAD_REQUEST,
            RoomError::DeliveryFailed => INTERNAL_SERVER_ERROR,
        }
    }

    pub open spec fn spec_text(self) -> Seq<char> {
        match self {
            RoomError::UserNotFound => "User not found"@,
            RoomError::RoomNotFound => "Room not found"@,
            RoomError::AlreadyExists => "Already exists"@,
            RoomError::AlreadyMember => "User already in room"@,
            RoomError::NotMember => "User not in room"@,
            RoomError::AlreadyConnected => "User already connected"@,
            RoomError::MalformedDirective => "Malformed directive"@,
            RoomError::DeliveryFailed => "Delivery failed"@,
        }
    }

    pub fn status_code(&self) -> (r: u16)
        ensures
            r == self.spec_status_code(),
    {
        match self {
            RoomError::UserNotFound | RoomError::RoomNotFound => NOT_FOUND,
            RoomError::AlreadyExists | RoomError::AlreadyMember | RoomError::AlreadyConnected => CONFLICT,
            RoomError::NotMember => FORBIDDEN,
            RoomError::MalformedDirective => BAD_REQUEST,
            RoomError::DeliveryFailed => INTERNAL_SERVER_ERROR,
        }
    }

    /// The human-readable description of the error.
    pub fn text(&self) -> (r: String)
        ensures
            r@ == self.spec_text(),
    {
        match self {
            RoomError::UserNotFound => "User not found".to_owned(),
            RoomError::RoomNotFound => "Room not found".to_owned(),
            RoomError::AlreadyExists => "Already exists".to_owned(),
            RoomError::AlreadyMember => "User already in room".to_owned(),
            RoomError::NotMember => "User not in room".to_owned(),
            RoomError::AlreadyConnected => "User already connected".to_owned(),
            RoomError::MalformedDirective => "Malformed directive".to_owned(),
            RoomError::DeliveryFailed => "Delivery failed".to_owned(),
        }
    }
}

impl TicketError {
    pub open spec fn spec_status_code(self) -> u16 {
        match self {
            TicketError::NotFound(_) => NOT_FOUND,
            TicketError::CreateFailed => INTERNAL_SERVER_ERROR,
        }
    }

    pub open spec fn spec_text(self) -> Seq<char> {
        match self {
            TicketError::CreateFailed => "Failed to create ticket"@,
            TicketError::NotFound(id) => "Ticket with id "@ + decimal(id as int) + " not found"@,
        }
    }

    pub fn status_code(&self) -> (r: u16)
        ensures
            r == self.spec_status_code(),
    {
        match self {
            TicketError::NotFound(_) => NOT_FOUND,
            TicketError::CreateFailed => INTERNAL_SERVER_ERROR,
        }
    }

    /// The human-readable description of the error.
    pub fn text(&self) -> (r: String)
        ensures
            r@ == self.spec_text(),
    {
        match self {
            TicketError::CreateFailed => "Failed to create ticket".to_owned(),
            TicketError::NotFound(id) => {
                let head = "Ticket with id ".to_owned();
                let number = i64_text(*id);
                let head = head.concat(number.as_str());
                head.concat(" not found")
            },
        }
    }
}

impl Error {
    pub open spec fn spec_status_code(self) -> u16 {
        match self {
            Error::Auth(e) => e.spec_status_code(),
            Error::Ticket(e) => e.spec_status_code(),
            Error::Database(e) => e.spec_status_code(),
            Error::Room(e) => e.spec_status_code(),
            Error::Unknown => INTERNAL_SERVER_ERROR,
        }
    }

    /// Wrapped errors keep their own text.
    pub open spec fn spec_text(self) -> Seq<char> {
        match self {
            Error::Auth(e) => e.spec_text(),
            Error::Ticket(e) => e.spec_text(),
            Error::Database(e) => e.spec_text(),
            Error::Room(e) => e.spec_text(),
            Error::Unknown => "Unknown error"@,
        }
    }

    /// The HTTP status that reports this error.
    pub fn status_code(&self) -> (r: u16)
        ensures
            r == self.spec_status_code(),
    {
        match self {
            Error::Auth(e) => e.status_code(),
            Error::Ticket(e) => e.status_code(),
            Error::Database(e) => e.status_code(),
            Error::Room(e) => e.status_code(),
            Error::Unknown => INTERNAL_SERVER_ERROR,
        }
    }

    /// The human-readable description of the error.
    pub fn text(&self) -> (r: String)
        ensures
            r@ == self.spec_text(),
    {
        match self {
            Error::Auth(e) => e.text(),
            Error::Ticket(e) => e.text(),
            Error::Database(e) => e.text(),
            Error::Room(e) => e.text(),
            Error::Unknown => "Unknown error".to_owned(),
        }
    }

    /// The status and text of the response that reports this error.
    pub fn into_response(self) -> (r: (u16, String))
        ensures
            r.0 == self.spec_status_code(),
            r.1@ == self.spec_text(),
    {
        (self.status_code(), self.text())
    }
}

impl From<AuthError> for Error {
    fn from(e: AuthError) -> (r: Error)
        ensures
            r == Error::Auth(e),
    {
        Error::Auth(e)
    }
}

impl vstd::std_specs::convert::FromSpecImpl<AuthError> for Error {
    open spec fn obeys_from_spec() -> bool {
        true
    }

    open spec fn from_spec(e: AuthError) -> Error {
        Error::Auth(e)
    }
}

impl From<TicketError> for Error {
    fn from(e: TicketError) -> (r: Error)
        ensures
            r == Error::Ticket(e),
    {
        Error::Ticket(e)
    }
}

impl vstd::std_specs::convert::FromSpecImpl<TicketError> for Error {
    open spec fn obeys_from_spec() -> bool {
        true
    }

    open spec fn from_spec(e: TicketError) -> Error {
        Error::Ticket(e)
    }
}

impl From<DatabaseError> for Error {
    fn from(e: DatabaseError) -> (r: Error)
        ensures
            r == Error::Database(e),
    {
        Error::Database(e)
    }
}

impl vstd::std_specs::convert::FromSpecImpl<DatabaseError> for Error {
    open spec fn obeys_from_spec() -> bool {
        true
    }

    open spec fn from_spec(e: DatabaseError) -> Error {
        Error::Database(e)
    }
}

impl From<RoomError> for Error {
    fn from(e: RoomError) -> (r: Error)
        ensures
            r == Error::Room(e),
    {
        Error::Room(e)
    }
}

impl vstd::std_specs::convert::FromSpecImpl<RoomError> for Error {
    open spec fn obeys_from_spec() -> bool {
        true
    }

    open spec fn from_spec(e: RoomError) -> Error {
        Error::Room(e)
    }
}

} // verus!
