//! A glossary of terms and definitions, with per-entry likes and a revision
//! history.
//!
//! The crate holds the rules of the glossary service: how entries, history
//! records and likes relate, what each operation returns and changes, and how
//! failures map to response statuses. The tables live in a [`store::Store`];
//! identifiers, timestamps, markup sanitising and the check of a term's
//! length come from the `uuid`, `chrono`, `ammonia` and `validator` crates.

use vstd::prelude::*;

pub mod clock;
pub mod ident;
pub mod laws;
pub mod order;
pub mod response;
pub mod schema;
pub mod store;
pub mod text;
pub mod v1;

verus! {

/// Name of the request header in which an upstream proxy passes the
/// authenticated user's e-mail address.
pub const AUTHENTICATED_USER_HEADER: &'static str = "x-authenticated-user-email";

/// What the root of the service answers with.
pub const GREETING: &'static str = "Hello world!";

/// What a ping is answered with.
pub const PONG: &'static str = "pong";

/// The body that the root of the service answers with.
pub fn index() -> (body: &'static str)
    ensures
        body@ == GREETING@,
{
    GREETING
}

/// The body that a ping is answered with.
pub fn ping() -> (body: &'static str)
    ensures
        body@ == PONG@,
{
    PONG
}

} // verus!
