//! The authorization gate and the token-verification protocol.
//!
//! Every protected request is authorized before any data access: one
//! designated header is read, and a missing header is refused outright as
//! [`Error::MissingCredential`], without ever consulting the identity
//! provider. A present token is handed to the provider in a single round
//! trip ([`GateStep::Consult`]); whatever the provider answers is folded
//! back by [`gate_complete`]: a verified identity on success, and
//! [`Error::InvalidToken`] both when the provider rejects the token and
//! when it is unreachable.
//!
//! The network round trip itself is performed by the caller between
//! [`gate_begin`] and [`gate_complete`]; the types make it impossible to
//! consult the provider more than once per request, and impossible to reach
//! a handler without a [`UserCtx`].

use vstd::prelude::*;

use crate::errors::Error;

verus! {

/// Name of the request header that carries the opaque bearer token.
pub const AUTH_HEADER: &'static str = "Supabase-Auth-Token";

/// A verified identity, attached to a request after token verification and
/// visible to every downstream handler. Its view is the stable unique user
/// identifier the provider vouched for.
#[derive(Debug)]
pub struct UserCtx {
    pub user_id: String,
}

impl View for UserCtx {
    type V = Seq<char>;

    open spec fn view(&self) -> Seq<char> {
        self.user_id@
    }
}

impl Clone for UserCtx {
    fn clone(&self) -> (res: Self)
        ensures
            res@ == self@,
    {
        UserCtx { user_id: self.user_id.clone() }
    }
}

/// How an incoming request is handled, determined by the header alone:
/// refuse it at once, or consult the identity provider with the carried
/// token (exactly one consultation per request).
#[derive(Debug)]
pub enum GateStep {
    Reject(Error),
    Consult(String),
}

/// What the identity provider answered for one token: a verified stable
/// user identifier, a rejection, or no answer at all (provider outage).
#[derive(Debug)]
pub enum VerifyOutcome {
    Verified(String),
    Rejected,
    Unreachable,
}

/// What is made of the (optional) bearer-token header: a missing header
/// is `Err(MissingCredential)`; a present one names the token the
/// provider must be consulted with.
pub open spec fn gate_decision(header: Option<Seq<char>>) -> Result<Seq<char>, Error> {
    match header {
        None => Err(Error::MissingCredential),
        Some(token) => Ok(token),
    }
}

/// What becomes of the request once the provider has answered: only a
/// verified identifier admits it; a rejection and an unreachable provider
/// alike surface as `InvalidToken`.
pub open spec fn verdict_decision(outcome: VerifyOutcome) -> Result<Seq<char>, Error> {
    match outcome {
        VerifyOutcome::Verified(user_id) => Ok(user_id@),
        VerifyOutcome::Rejected => Err(Error::InvalidToken),
        VerifyOutcome::Unreachable => Err(Error::InvalidToken),
    }
}

/// Inspect the bearer-token header. A request without the header is
/// rejected as `MissingCredential` here, before the identity provider or
/// storage could be touched; a request with the header proceeds to exactly
/// one provider consultation, with the token as given.
pub fn gate_begin(header: Option<String>) -> (step: GateStep)
    ensures
        match gate_decision(header.deep_view()) {
            Err(e) => step matches GateStep::Reject(err) && err == e,
            Ok(token) => step matches GateStep::Consult(t) && t@ == token,
        },
{
    match header {
        None => GateStep::Reject(Error::MissingCredential),
        Some(token) => GateStep::Consult(token),
    }
}

/// Fold the identity provider's answer back into the request: the
/// verified identifier becomes the request's `UserCtx`; everything else —
/// the provider rejecting the token or not answering — is `InvalidToken`.
pub fn gate_complete(outcome: VerifyOutcome) -> (r: Result<UserCtx, Error>)
    ensures
        match verdict_decision(outcome) {
            Ok(user_id) => r matches Ok(utx) && utx@ == user_id,
            Err(e) => r matches Err(err) && err == e,
        },
{
    match outcome {
        VerifyOutcome::Verified(user_id) => Ok(UserCtx { user_id }),
        VerifyOutcome::Rejected => Err(Error::InvalidToken),
        VerifyOutcome::Unreachable => Err(Error::InvalidToken),
    }
}

/// Law: a request with no bearer-token header is rejected as
/// `MissingCredential` before anything else happens, so neither the
/// identity provider nor storage is ever consulted for it.
pub proof fn lemma_missing_header_rejected_first(header: Option<Seq<char>>)
    requires
        header is None,
    ensures
        gate_decision(header) == Err::<Seq<char>, Error>(Error::MissingCredential),
{
}

/// Law: a request that does carry a token is sent to the identity provider
/// exactly once, with the token unaltered; and whenever the provider does
/// not vouch for it — rejection and outage alike — the request ends in
/// `InvalidToken`.
pub proof fn lemma_present_token_consulted_once(header: Option<Seq<char>>, outcome: VerifyOutcome)
    requires
        header matches Some(token),
    ensures
        gate_decision(header) == Ok::<Seq<char>, Error>(header.unwrap()),
        !(outcome is Verified) ==> verdict_decision(outcome) == Err::<Seq<char>, Error>(
            Error::InvalidToken,
        ),
{
}

} // verus!
