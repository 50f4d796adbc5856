//! Verified core of a campground-directory backend.
//!
//! The library models the two mechanisms the service depends on for
//! correctness: the request-authorization gate (bearer-token checking before
//! any data access) and the review/rating bookkeeping (a camp's stored rating
//! must always equal the mean of its current reviews). The storage tables are
//! modelled as plain vectors inside a store; every mutating operation is an
//! atomic transition on that state, so any serialization of concurrent
//! requests is a sequence of these transitions.

pub mod auth;
pub mod camp;
pub mod camp_request;
pub mod errors;
pub mod favorite;
pub mod rating;
pub mod review;
pub mod store;
pub mod user;
