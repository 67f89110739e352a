//! The error taxonomy: each kind's status code, machine name, message and
//! uniform envelope.

use auth_gateway::errors::{CustomError, FormattedErrorResponse};

#[test]
fn status_codes_follow_the_taxonomy() {
    assert_eq!(
        CustomError::ValidationError { error_messages: "x".to_string() }.status_code(),
        400
    );
    assert_eq!(CustomError::BadClientData.status_code(), 400);
    assert_eq!(CustomError::AlreadyRequested.status_code(), 400);
    assert_eq!(CustomError::ShelteredError.status_code(), 400);
    assert_eq!(CustomError::FosteredError.status_code(), 400);
    assert_eq!(CustomError::WrongLogin.status_code(), 401);
    assert_eq!(CustomError::NotFound.status_code(), 404);
    assert_eq!(CustomError::InternalError.status_code(), 500);
    assert_eq!(CustomError::CreationError.status_code(), 500);
    assert_eq!(CustomError::UpdateError.status_code(), 500);
    assert_eq!(CustomError::DeletionError.status_code(), 500);
}

#[test]
fn names_are_the_short_machine_names() {
    assert_eq!(CustomError::WrongLogin.name(), "Invalid Credentials");
    assert_eq!(CustomError::BadClientData.name(), "Bad Request");
    assert_eq!(CustomError::NotFound.name(), "Not Found");
    assert_eq!(CustomError::InternalError.name(), "Internal Server Error");
    assert_eq!(
        CustomError::ValidationError { error_messages: "x".to_string() }.name(),
        "Validation Error"
    );
}

#[test]
fn credential_failures_share_one_generic_message() {
    assert_eq!(
        CustomError::WrongLogin.message(),
        "Les informations saisies n'ont pas l'air correctes. Merci de réessayer."
    );
    assert_eq!(
        CustomError::BadClientData.message(),
        "Les informations saisies n'ont pas l'air correctes. Merci de réessayer."
    );
}

#[test]
fn validation_error_carries_its_field_messages() {
    let e = CustomError::ValidationError {
        error_messages: "email: Invalid email format".to_string(),
    };
    assert_eq!(
        e.message(),
        "Les champs suivants présentent des erreurs : email: Invalid email format"
    );
}

#[test]
fn the_envelope_is_uniform() {
    let e = CustomError::NotFound;
    let body = e.error_response();
    assert_eq!(
        body,
        FormattedErrorResponse {
            status_code: 404,
            error: "Not Found".to_string(),
            message: "Ce que vous recherchez n'a pas l'air d'exister.".to_string(),
        }
    );
}
