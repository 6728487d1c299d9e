//! Response bodies and the error taxonomy.

use vstd::prelude::*;

verus! {

/// A list of results together with its length.
#[derive(Debug)]
pub struct ListResp<T> {
    pub results: Vec<T>,
    pub count: i32,
}

impl<T: Clone> ListResp<T> {
    /// The empty list.
    pub fn new() -> (r: Self)
        ensures
            r.results@ == Seq::<T>::empty(),
            r.count == 0,
    {
        ListResp { results: Vec::new(), count: 0 }
    }

    /// A list holding a clone of each of `results`, in order, and their number.
    pub fn from(results: &[T]) -> (r: Self)
        ensures
            r.results@.len() == results@.len(),
            forall|i: int| 0 <= i < results@.len() ==> cloned(results@[i], #[trigger] r.results@[i]),
            r.count == results@.len() as i32,
            results@.len() <= i32::MAX ==> r.count == results@.len(),
    {
        let mut out: Vec<T> = Vec::new();
        let n: usize = results.len();
        let mut i: usize = 0;
        while i < n
            invariant
                n == results@.len(),
                i <= n,
                out@.len() == i,
                forall|j: int| 0 <= j < i ==> cloned(results@[j], #[trigger] out@[j]),
            decreases n - i,
        {
            out.push(results[i].clone());
            i += 1;
        }
        ListResp { results: out, count: #[verifier::truncate] (n as i32) }
    }
}

impl<T: Clone> Default for ListResp<T> {
    /// The empty list.
    fn default() -> (r: Self)
        ensures
            r.results@ == Seq::<T>::empty(),
            r.count == 0,
    {
        ListResp::new()
    }
}

/// A plain confirmation.
#[derive(Debug)]
pub struct Message {
    pub message: String,
}

impl Message {
    pub fn new(message: &str) -> (r: Self)
        ensures
            r.message@ == message@,
    {
        Message { message: message.to_owned() }
    }
}

/// The kinds of failure that a request can end in.
#[derive(Debug, Clone, Copy, PartialEq, Eq, Structural)]
pub enum ErrorKind {
    /// No entry has the identifier that was asked for.
    NotFound,
    /// A malformed identifier, an empty search query or a field that fails
    /// validation.
    InvalidInput,
    /// A payload that is well formed but holds the wrong data.
    UnprocessableEntity,
    /// A row that breaks a unique or a foreign-key constraint.
    Conflict,
    /// Any other failure of the tables.
    DatabaseError,
    /// Any other failure.
    InternalError,
    /// A payload of a content type other than JSON.
    UnsupportedMediaType,
}

pub const STATUS_OK: u16 = 200;

pub const STATUS_BAD_REQUEST: u16 = 400;

pub const STATUS_NOT_FOUND: u16 = 404;

pub const STATUS_CONFLICT: u16 = 409;

pub const STATUS_UNSUPPORTED_MEDIA_TYPE: u16 = 415;

pub const STATUS_UNPROCESSABLE_ENTITY: u16 = 422;

pub const STATUS_INTERNAL_SERVER_ERROR: u16 = 500;

pub const STATUS_SERVICE_UNAVAILABLE: u16 = 503;

impl ErrorKind {
    /// The HTTP status that a failure of this kind is answered with.
    pub open spec fn status(self) -> u16 {
        match self {
            ErrorKind::NotFound => STATUS_NOT_FOUND,
            ErrorKind::InvalidInput => STATUS_BAD_REQUEST,
            ErrorKind::UnprocessableEntity => STATUS_UNPROCESSABLE_ENTITY,
            ErrorKind::Conflict => STATUS_CONFLICT,
            ErrorKind::DatabaseError => STATUS_INTERNAL_SERVER_ERROR,
            ErrorKind::InternalError => STATUS_INTERNAL_SERVER_ERROR,
            ErrorKind::UnsupportedMediaType => STATUS_UNSUPPORTED_MEDIA_TYPE,
        }
    }
}

/// How a statement on the tables failed, as the database client reports it.
#[derive(Debug, Clone, Copy, PartialEq, Eq, Structural)]
pub enum DatabaseFault {
    /// A query for one row found none.
    NotFound,
    /// A row would repeat a value that must be unique.
    UniqueViolation,
    /// A row refers to a row that does not exist.
    ForeignKeyViolation,
    /// The database refused the statement for another reason.
    Rejected,
    /// The statement did not reach the database, or its answer was not
    /// understood.
    Other,
}

impl DatabaseFault {
    /// The kind of failure that a fault of the database is reported as.
    pub open spec fn kind(self) -> ErrorKind {
        match self {
            DatabaseFault::NotFound => ErrorKind::NotFound,
            DatabaseFault::UniqueViolation => ErrorKind::Conflict,
            DatabaseFault::ForeignKeyViolation => ErrorKind::Conflict,
            DatabaseFault::Rejected => ErrorKind::DatabaseError,
            DatabaseFault::Other => ErrorKind::InternalError,
        }
    }
}

/// What a JSON parser found wrong with a text.
#[derive(Debug, Clone, Copy, PartialEq, Eq, Structural)]
pub enum JsonFault {
    /// The text could not be read.
    Io,
    /// The text is not JSON.
    Syntax,
    /// The text is JSON of another shape than the one expected.
    Data,
    /// The text ends too early.
    Eof,
}

/// Why a request's JSON payload could not be taken.
#[derive(Debug, Clone, Copy, PartialEq, Eq, Structural)]
pub enum PayloadFault {
    /// The request's content type is not JSON.
    ContentType,
    /// The payload could not be parsed into the expected value.
    Deserialize(JsonFault),
    /// The payload is too large, was cut short, or could not be read.
    Other,
}

impl PayloadFault {
    /// The kind of failure that a refused payload is reported as.
    pub open spec fn kind(self) -> ErrorKind {
        match self {
            PayloadFault::ContentType => ErrorKind::UnsupportedMediaType,
            PayloadFault::Deserialize(JsonFault::Data) => ErrorKind::UnprocessableEntity,
            _ => ErrorKind::InvalidInput,
        }
    }
}

/// A failure: its kind and a message for the client.
#[derive(Debug)]
pub struct ApiError {
    pub kind: ErrorKind,
    pub message: String,
}

impl ApiError {
    pub fn new(kind: ErrorKind, message: &str) -> (e: Self)
        ensures
            e.kind == kind,
            e.message@ == message@,
    {
        ApiError { kind, message: message.to_owned() }
    }

    pub fn not_found(message: &str) -> (e: Self)
        ensures
            e.kind == ErrorKind::NotFound,
            e.message@ == message@,
    {
        ApiError::new(ErrorKind::NotFound, message)
    }

    pub fn invalid_input(message: &str) -> (e: Self)
        ensures
            e.kind == ErrorKind::InvalidInput,
            e.message@ == message@,
    {
        ApiError::new(ErrorKind::InvalidInput, message)
    }

    pub fn conflict(message: &str) -> (e: Self)
        ensures
            e.kind == ErrorKind::Conflict,
            e.message@ == message@,
    {
        ApiError::new(ErrorKind::Conflict, message)
    }

    pub fn database_error(message: &str) -> (e: Self)
        ensures
            e.kind == ErrorKind::DatabaseError,
            e.message@ == message@,
    {
        ApiError::new(ErrorKind::DatabaseError, message)
    }

    /// The failure that a fault of the database is reported as, with the
    /// database client's own words as its message.
    pub fn from_database(fault: DatabaseFault, detail: &str) -> (e: Self)
        ensures
            e.kind == fault.kind(),
            e.message@ == detail@,
    {
        let kind = match fault {
            DatabaseFault::NotFound => ErrorKind::NotFound,
            DatabaseFault::UniqueViolation => ErrorKind::Conflict,
            DatabaseFault::ForeignKeyViolation => ErrorKind::Conflict,
            DatabaseFault::Rejected => ErrorKind::DatabaseError,
            DatabaseFault::Other => ErrorKind::InternalError,
        };
        ApiError::new(kind, detail)
    }

    /// The HTTP status that the failure is answered with.
    pub fn status_code(&self) -> (code: u16)
        ensures
            code == self.kind.status(),
    {
        match self.kind {
            ErrorKind::NotFound => STATUS_NOT_FOUND,
            ErrorKind::InvalidInput => STATUS_BAD_REQUEST,
            ErrorKind::UnprocessableEntity => STATUS_UNPROCESSABLE_ENTITY,
            ErrorKind::Conflict => STATUS_CONFLICT,
            ErrorKind::DatabaseError => STATUS_INTERNAL_SERVER_ERROR,
            ErrorKind::InternalError => STATUS_INTERNAL_SERVER_ERROR,
            ErrorKind::UnsupportedMediaType => STATUS_UNSUPPORTED_MEDIA_TYPE,
        }
    }

    /// The body that the failure is answered with.
    pub fn error_response(&self) -> (body: ErrorResp)
        ensures
            body.error@ == self.message@,
    {
        ErrorResp::new(self.message.as_str())
    }

    /// The message.
    pub fn to_string(&self) -> (s: String)
        ensures
            s@ == self.message@,
    {
        self.message.clone()
    }
}

/// The body of every failure: a message under the key `error`.
#[derive(Debug)]
pub struct ErrorResp {
    pub error: String,
}

impl ErrorResp {
    pub fn new(error: &str) -> (r: Self)
        ensures
            r.error@ == error@,
    {
        ErrorResp { error: error.to_owned() }
    }

    /// The body for a failure.
    pub fn from(error: &ApiError) -> (r: Self)
        ensures
            r.error@ == error.message@,
    {
        ErrorResp::new(error.message.as_str())
    }

    /// The HTTP status of a body that is returned as a failure by itself.
    pub fn status_code(&self) -> (code: u16)
        ensures
            code == STATUS_BAD_REQUEST,
    {
        STATUS_BAD_REQUEST
    }

    /// The body that is sent: one with the same message.
    pub fn error_response(&self) -> (body: Self)
        ensures
            body.error@ == self.error@,
    {
        ErrorResp::new(self.error.as_str())
    }

    /// The message.
    pub fn to_string(&self) -> (s: String)
        ensures
            s@ == self.error@,
    {
        self.error.clone()
    }
}

/// The failure that a refused JSON payload is reported as: a wrong content
/// type as unsupported media type, JSON of the wrong shape as unprocessable,
/// anything else as invalid input. The message is the payload error's own
/// text.
pub fn json_error_handler(fault: PayloadFault, detail: &str) -> (e: ApiError)
    ensures
        e.kind == fault.kind(),
        e.message@ == detail@,
{
    let kind = match fault {
        PayloadFault::ContentType => ErrorKind::UnsupportedMediaType,
        PayloadFault::Deserialize(JsonFault::Data) => ErrorKind::UnprocessableEntity,
        _ => ErrorKind::InvalidInput,
    };
    ApiError::new(kind, detail)
}

} // verus!
