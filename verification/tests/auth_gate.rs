use campground::auth::{gate_begin, gate_complete, GateStep, VerifyOutcome, AUTH_HEADER};
use campground::errors::Error;

#[test]
fn missing_header_rejected_without_any_call() {
    // Test doubles: count how often the identity provider and the storage
    // layer would have been reached.
    let mut provider_calls = 0;
    let mut storage_calls = 0;

    match gate_begin(None) {
        GateStep::Reject(e) => {
            assert_eq!(e, Error::MissingCredential);
        }
        GateStep::Consult(_) => {
            // only this arm would reach the provider and then storage
            provider_calls += 1;
            storage_calls += 1;
        }
    }
    assert_eq!(provider_calls, 0);
    assert_eq!(storage_calls, 0);
}

#[test]
fn present_token_consults_provider_exactly_once() {
    let mut provider_calls = 0;
    let step = gate_begin(Some("token-abc".to_string()));
    match step {
        GateStep::Reject(_) => panic!("a present token must reach the provider"),
        GateStep::Consult(token) => {
            assert_eq!(token, "token-abc");
            provider_calls += 1;
            // the provider rejects the token
            let r = gate_complete(VerifyOutcome::Rejected);
            assert_eq!(r.unwrap_err(), Error::InvalidToken);
        }
    }
    assert_eq!(provider_calls, 1);
}

#[test]
fn unreachable_provider_surfaces_as_invalid_token() {
    let r = gate_complete(VerifyOutcome::Unreachable);
    assert_eq!(r.unwrap_err(), Error::InvalidToken);
}

#[test]
fn verified_token_yields_identity() {
    let r = gate_complete(VerifyOutcome::Verified("user-77".to_string()));
    assert_eq!(r.unwrap().user_id, "user-77");
}

#[test]
fn auth_header_name_is_fixed() {
    assert_eq!(AUTH_HEADER, "Supabase-Auth-Token");
}

#[test]
fn error_status_codes() {
    assert_eq!(Error::MissingCredential.status_code(), 401);
    assert_eq!(Error::InvalidToken.status_code(), 401);
    assert_eq!(Error::NotFound.status_code(), 404);
    assert_eq!(Error::StorageFailure.status_code(), 500);
    assert_eq!(Error::ValidationFailure.status_code(), 400);
}

#[test]
fn error_envelope_messages() {
    assert_eq!(
        Error::MissingCredential.message(),
        "Fail authentication missing Supabase-Auth-Token header."
    );
    assert_eq!(Error::NotFound.message(), "Entity not found.");
    let env = campground::errors::WebErrorMessage::of_error(&Error::InvalidToken);
    assert_eq!(env.typ, "core::Error");
    assert_eq!(env.message, "Fail authentication invalid token.");
    let env2 = campground::errors::WebErrorMessage::rejection("web::Error", "boom".to_string());
    assert_eq!(env2.typ, "web::Error");
    assert_eq!(env2.message, "boom");
}
