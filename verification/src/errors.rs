//! The closed failure taxonomy of the gateway.
//!
//! Each kind maps one-to-one to an HTTP status code, a short machine name
//! and a human-readable message, and every failure is rendered to the
//! client as the uniform envelope [`FormattedErrorResponse`].

use vstd::prelude::*;

verus! {

/// One member of the closed failure taxonomy.
#[derive(Debug, Clone, PartialEq, Eq)]
pub enum CustomError {
    /// Field-level input was rejected; carries the joined field messages.
    ValidationError { error_messages: String },
    /// An unexpected internal failure.
    InternalError,
    /// A record could not be created.
    CreationError,
    /// A record could not be updated.
    UpdateError,
    /// A record could not be deleted.
    DeletionError,
    /// Malformed, corrupt or unverifiable client data, such as a bad token.
    BadClientData,
    /// A placement request for this animal already exists.
    AlreadyRequested,
    /// The account still shelters animals and cannot be removed.
    ShelteredError,
    /// The account still fosters an animal and cannot be removed.
    FosteredError,
    /// The referenced entity does not exist.
    NotFound,
    /// Credential lookup or verification failed.
    WrongLogin,
}

/// The uniform JSON envelope in which every failure reaches the client.
#[derive(Debug, Clone, PartialEq, Eq)]
pub struct FormattedErrorResponse {
    pub status_code: u16,
    pub error: String,
    pub message: String,
}

impl CustomError {
    /// The short machine name of this kind.
    pub open spec fn spec_name(&self) -> Seq<char> {
        match self {
            CustomError::ValidationError { .. } => "Validation Error"@,
            CustomError::InternalError => "Internal Server Error"@,
            CustomError::CreationError => "Creation Failed"@,
            CustomError::UpdateError => "Update Failed"@,
            CustomError::DeletionError => "Could not delete"@,
            CustomError::BadClientData => "Bad Request"@,
            CustomError::AlreadyRequested => "Already requested"@,
            CustomError::FosteredError => "Still fostering"@,
            CustomError::ShelteredError => "Still sheltering"@,
            CustomError::NotFound => "Not Found"@,
            CustomError::WrongLogin => "Invalid Credentials"@,
        }
    }

    /// The HTTP status code of this kind.
    pub open spec fn spec_status_code(&self) -> u16 {
        match self {
            CustomError::ValidationError { .. } => 400,
            CustomError::InternalError => 500,
            CustomError::CreationError => 500,
            CustomError::UpdateError => 500,
            CustomError::DeletionError => 500,
            CustomError::BadClientData => 400,
            CustomError::AlreadyRequested => 400,
            CustomError::FosteredError => 400,
            CustomError::ShelteredError => 400,
            CustomError::NotFound => 404,
            CustomError::WrongLogin => 401,
        }
    }

    /// The human-readable message of this kind.
    pub open spec fn spec_message(&self) -> Seq<char> {
        match self {
            CustomError::ValidationError { error_messages } =>
                "Les champs suivants présentent des erreurs : "@ + error_messages@,
            CustomError::InternalError =>
                "Une erreur est survenue. Merci de réessayer ultérieurement."@,
            CustomError::CreationError => "Erreur lors de la création"@,
            CustomError::UpdateError => "Erreur lors de la mise à jour."@,
            CustomError::DeletionError => "Suppression impossible."@,
            CustomError::BadClientData =>
                "Les informations saisies n'ont pas l'air correctes. Merci de réessayer."@,
            CustomError::AlreadyRequested =>
                "Vous avez déjà effectué une demande pour cet animal !"@,
            CustomError::ShelteredError =>
                "Vous accueillez actuellement un ou plusieurs animaux enregistrés sur notre site. Merci de contacter un administrateur afin de supprimer votre compte !"@,
            CustomError::FosteredError =>
                "Vous accueillez actuellement un animal. Merci de contacter le refuge concerné avant de supprimer votre compte !"@,
            CustomError::NotFound => "Ce que vous recherchez n'a pas l'air d'exister."@,
            CustomError::WrongLogin =>
                "Les informations saisies n'ont pas l'air correctes. Merci de réessayer."@,
        }
    }

    /// The short machine name of this kind.
    pub fn name(&self) -> (r: String)
        ensures
            r@ == self.spec_name(),
    {
        match self {
            CustomError::ValidationError { .. } => "Validation Error".to_owned(),
            CustomError::InternalError => "Internal Server Error".to_owned(),
            CustomError::CreationError => "Creation Failed".to_owned(),
            CustomError::UpdateError => "Update Failed".to_owned(),
            CustomError::DeletionError => "Could not delete".to_owned(),
            CustomError::BadClientData => "Bad Request".to_owned(),
            CustomError::AlreadyRequested => "Already requested".to_owned(),
            CustomError::FosteredError => "Still fostering".to_owned(),
            CustomError::ShelteredError => "Still sheltering".to_owned(),
            CustomError::NotFound => "Not Found".to_owned(),
            CustomError::WrongLogin => "Invalid Credentials".to_owned(),
        }
    }

    /// The HTTP status code under which this kind is reported.
    pub fn status_code(&self) -> (r: u16)
        ensures
            r == self.spec_status_code(),
    {
        match self {
            CustomError::ValidationError { .. } => 400,
            CustomError::InternalError => 500,
            CustomError::CreationError => 500,
            CustomError::UpdateError => 500,
            CustomError::DeletionError => 500,
            CustomError::BadClientData => 400,
            CustomError::AlreadyRequested => 400,
            CustomError::FosteredError => 400,
            CustomError::ShelteredError => 400,
            CustomError::NotFound => 404,
            CustomError::WrongLogin => 401,
        }
    }

    /// The human-readable message shown to the client.
    pub fn message(&self) -> (r: String)
        ensures
            r@ == self.spec_message(),
    {
        match self {
            CustomError::ValidationError { error_messages } => {
                let prefix = "Les champs suivants présentent des erreurs : ".to_owned();
                prefix.concat(error_messages.as_str())
            },
            CustomError::InternalError =>
                "Une erreur est survenue. Merci de réessayer ultérieurement.".to_owned(),
            CustomError::CreationError => "Erreur lors de la création".to_owned(),
            CustomError::UpdateError => "Erreur lors de la mise à jour.".to_owned(),
            CustomError::DeletionError => "Suppression impossible.".to_owned(),
            CustomError::BadClientData =>
                "Les informations saisies n'ont pas l'air correctes. Merci de réessayer.".to_owned(),
            CustomError::AlreadyRequested =>
                "Vous avez déjà effectué une demande pour cet animal !".to_owned(),
            CustomError::ShelteredError =>
                "Vous accueillez actuellement un ou plusieurs animaux enregistrés sur notre site. Merci de contacter un administrateur afin de supprimer votre compte !".to_owned(),
            CustomError::FosteredError =>
                "Vous accueillez actuellement un animal. Merci de contacter le refuge concerné avant de supprimer votre compte !".to_owned(),
            CustomError::NotFound =>
                "Ce que vous recherchez n'a pas l'air d'exister.".to_owned(),
            CustomError::WrongLogin =>
                "Les informations saisies n'ont pas l'air correctes. Merci de réessayer.".to_owned(),
        }
    }

    /// The uniform envelope for this kind: status, name and message together.
    pub fn error_response(&self) -> (r: FormattedErrorResponse)
        ensures
            r.status_code == self.spec_status_code(),
            r.error@ == self.spec_name(),
            r.message@ == self.spec_message(),
    {
        FormattedErrorResponse {
            status_code: self.status_code(),
            error: self.name(),
            message: self.message(),
        }
    }
}

} // verus!
