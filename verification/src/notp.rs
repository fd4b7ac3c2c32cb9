//! The transfer protocol's refusals in the API's vocabulary.

use vstd::prelude::*;

use crate::api::{ApiError, ErrorClass};
use crate::catalog::api_view;
use crate::engine::EngineError;
use crate::text::{decimal, push_decimal, push_str};

verus! {

/// The refusal the API answers an engine refusal with: class, code, safe
/// sentence, and the detail kept for the operator.
pub open spec fn spec_api_error(error: EngineError) -> (ErrorClass, Seq<char>, Seq<char>, Option<Seq<char>>) {
    match error {
        EngineError::Validation { code, message } => (ErrorClass::Validation, code@, message@, None),
        EngineError::Conflict { current } => (
            ErrorClass::Conflict,
            "ref_conflict"@,
            "the ref moved: negotiate again from the current head"@,
            match current {
                Some(state) => Some("current head "@ + state.head@ + " counter "@ + decimal(state.counter as nat)),
                None => None,
            },
        ),
        EngineError::NotFound { what } => (ErrorClass::NotFound, "not_found"@, "nothing answers to "@ + what@, None),
        EngineError::Unavailable { message } => (ErrorClass::Unavailable, "quota_exhausted"@, message@, None),
        EngineError::Internal { detail } => (ErrorClass::Internal, "notp_failed"@, "the ledger store failed"@, Some(detail@)),
    }
}

/// Translates the engine's vocabulary into the API's: the one place they meet.
pub fn api_error(error: EngineError) -> (api: ApiError)
    ensures
        api_view(api) == spec_api_error(error),
{
    match error {
        EngineError::Validation { code, message } => ApiError::new(ErrorClass::Validation, code, message),
        EngineError::Conflict { current } => {
            let api = ApiError::new(
                ErrorClass::Conflict,
                "ref_conflict",
                "the ref moved: negotiate again from the current head".to_string(),
            );
            match current {
                Some(state) => {
                    let mut detail = String::new();
                    push_str(&mut detail, "current head ");
                    push_str(&mut detail, state.head.as_str());
                    push_str(&mut detail, " counter ");
                    push_decimal(&mut detail, state.counter);
                    assert(detail@ =~= "current head "@ + state.head@ + " counter "@ + decimal(state.counter as nat));
                    api.with_internal(detail)
                },
                None => api,
            }
        },
        EngineError::NotFound { what } => {
            let mut message = String::new();
            push_str(&mut message, "nothing answers to ");
            push_str(&mut message, what.as_str());
            assert(message@ =~= "nothing answers to "@ + what@);
            ApiError::new(ErrorClass::NotFound, "not_found", message)
        },
        EngineError::Unavailable { message } => ApiError::new(ErrorClass::Unavailable, "quota_exhausted", message),
        EngineError::Internal { detail } => ApiError::new(
            ErrorClass::Internal,
            "notp_failed",
            "the ledger store failed".to_string(),
        ).with_internal(detail),
    }
}

/// gRPC carries an absent string as empty; the domain speaks `Option`.
pub fn optional_text(value: &str) -> (text: Option<String>)
    ensures
        value@.len() == 0 ==> text is None,
        value@.len() > 0 ==> (text matches Some(t) && t@ == value@),
{
    if value.is_empty() {
        None
    } else {
        Some(value.to_string())
    }
}

} // verus!
