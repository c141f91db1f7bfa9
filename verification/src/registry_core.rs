//! Error responses and request and response bodies of the package registry.
use std::collections::HashMap;
use vstd::prelude::*;

verus! {

/// Why a package upload was refused.
#[derive(Debug, Clone)]
pub enum PackagingError {
    /// package data is empty
    EmptyPackageData,
    /// invalid file '{path}': {reason}
    InvalidFile { path: String, reason: String },
}

/// The kinds of error the registry reports to clients.
#[derive(Debug)]
pub enum PublicErrorType {
    InternalServerError,
    CodeExchangeError,
    SessionError,
    InvalidCookie,
    Unauthorized,
    Forbidden,
    NotFound,
    InvalidToken,
    TokenExpired,
    AuthorizationRequired,
    Validation,
    ManifestError,
    Multiple,
    PackagingError(PackagingError),
}

impl PublicErrorType {
    /// The kebab-case code of the error kind.
    pub fn as_str(&self) -> (r: &'static str)
        ensures
            r@ == match self {
                PublicErrorType::InternalServerError => "internal-server-error"@,
                PublicErrorType::CodeExchangeError => "code-exchange-error"@,
                PublicErrorType::SessionError => "session-error"@,
                PublicErrorType::InvalidCookie => "invalid-cookie"@,
                PublicErrorType::Unauthorized => "unauthorized"@,
                PublicErrorType::Forbidden => "forbidden"@,
                PublicErrorType::NotFound => "not-found"@,
                PublicErrorType::InvalidToken => "invalid-token"@,
                PublicErrorType::TokenExpired => "token-expired"@,
                PublicErrorType::AuthorizationRequired => "authorization-required"@,
                PublicErrorType::Validation => "validation-error"@,
                PublicErrorType::ManifestError => "manifest-error"@,
                PublicErrorType::Multiple => "multiple-errors"@,
                PublicErrorType::PackagingError(_) => "packaging-error"@,
            },
    {
        match self {
            PublicErrorType::InternalServerError => "internal-server-error",
            PublicErrorType::CodeExchangeError => "code-exchange-error",
            PublicErrorType::SessionError => "session-error",
            PublicErrorType::InvalidCookie => "invalid-cookie",
            PublicErrorType::Unauthorized => "unauthorized",
            PublicErrorType::Forbidden => "forbidden",
            PublicErrorType::NotFound => "not-found",
            PublicErrorType::InvalidToken => "invalid-token",
            PublicErrorType::TokenExpired => "token-expired",
            PublicErrorType::AuthorizationRequired => "authorization-required",
            PublicErrorType::Validation => "validation-error",
            PublicErrorType::ManifestError => "manifest-error",
            PublicErrorType::Multiple => "multiple-errors",
            PublicErrorType::PackagingError(_) => "packaging-error",
        }
    }
}

/// The body of an error reply.
#[derive(Debug)]
pub struct ErrorResponse {
    pub error: PublicErrorType,
    pub errors: Vec<PublicErrorType>,
    pub error_description: Option<String>,
    pub error_uri: Option<String>,
    pub validation: Option<HashMap<String, Vec<String>>>,
}

impl ErrorResponse {
    /// An internal server error with no details.
    pub fn internal() -> (r: Self)
        ensures
            r.error is InternalServerError,
            r.errors@.len() == 0,
            r.error_description is None,
            r.error_uri is None,
            r.validation is None,
    {
        ErrorResponse {
            error: PublicErrorType::InternalServerError,
            errors: Vec::new(),
            error_description: None,
            error_uri: None,
            validation: None,
        }
    }

    /// A reply for one error with an optional description.
    pub fn from_public_error(error: PublicErrorType, desc: Option<String>) -> (r: Self)
        ensures
            r.error == error,
            r.errors@.len() == 0,
            r.error_description == desc,
            r.error_uri is None,
            r.validation is None,
    {
        ErrorResponse { error, errors: Vec::new(), error_description: desc, error_uri: None, validation: None }
    }

    /// A reply for several errors at once.
    pub fn from_public_errors(errors: Vec<PublicErrorType>, desc: Option<String>) -> (r: Self)
        ensures
            r.error is Multiple,
            r.errors == errors,
            r.error_description == desc,
            r.error_uri is None,
            r.validation is None,
    {
        ErrorResponse {
            error: PublicErrorType::Multiple,
            errors,
            error_description: desc,
            error_uri: None,
            validation: None,
        }
    }
}

/// Response type for package download statistics
pub struct DownloadStats {
    /// Package name
    pub package: String,
    /// Total number of downloads across all versions
    pub total_downloads: i64,
}

/// Candidate GitHub organization that can be imported
pub struct CandidateOrg {
    /// GitHub organization ID
    pub gh_id: i32,
    /// Organization name/login on GitHub
    pub name: String,
    /// Organization avatar URL
    pub avatar_url: String,
    /// Whether this organization has already been imported to the registry
    pub is_imported: bool,
}

/// Request body for importing a GitHub organization
pub struct ImportOrgRequest {
    /// GitHub organization name/login (1-39 characters per GitHub limits)
    pub org_name: String,
}

impl ImportOrgRequest {
    /// The organization name has between 1 and 39 characters.
    pub fn validate(&self) -> (r: bool)
        ensures
            r == (1 <= self.org_name@.len() <= 39),
    {
        let v = crate::text::chars_of(self.org_name.as_str());
        1 <= v.len() && v.len() <= 39
    }
}

pub struct RevokeSchemaRoleRequest {
    pub role_id: i64,
}

pub struct RevokeOrgRoleRequest {
    pub org_id: i64,
    pub user_id: i64,
}

/// Target for a user favourite (either package or org)
#[derive(Debug)]
pub enum FavouriteTargetRequest {
    /// Favourite a package by ID
    Package(i64),
    /// Favourite an organization by ID
    Org(i64),
}

/// Request body for creating a user favourite
#[derive(Debug)]
pub struct CreateFavouriteRequest {
    /// The target to favourite (package or org)
    pub target: FavouriteTargetRequest,
}

pub struct FavouritesCount {
    pub count: u64,
}

} // verus!
