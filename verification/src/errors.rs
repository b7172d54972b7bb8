//! API error kinds, their messages and their HTTP status codes.
use vstd::prelude::*;

verus! {

/// Errors the HTTP API reports.
#[derive(Debug)]
pub enum AppError {
    MissingAuthHeader,
    InvalidAuthHeader,
    ApiKeyNotFound,
    SudoRequired,
    IpBanned,
    IpNotWhitelisted,
    UsernameAlreadyExists,
    Internal(String),
    ReplayDetected,
    TimestampExpired,
    ApiKeyExpired,
    InvalidPath(String),
    Validation(String),
}

/// Abstract view of an [`AppError`]: the same variants, with messages as
/// character sequences.
pub enum ApiError {
    MissingAuthHeader,
    InvalidAuthHeader,
    ApiKeyNotFound,
    SudoRequired,
    IpBanned,
    IpNotWhitelisted,
    UsernameAlreadyExists,
    Internal(Seq<char>),
    ReplayDetected,
    TimestampExpired,
    ApiKeyExpired,
    InvalidPath(Seq<char>),
    Validation(Seq<char>),
}

impl AppError {
    pub open spec fn view(&self) -> ApiError {
        match self {
            AppError::MissingAuthHeader => ApiError::MissingAuthHeader,
            AppError::InvalidAuthHeader => ApiError::InvalidAuthHeader,
            AppError::ApiKeyNotFound => ApiError::ApiKeyNotFound,
            AppError::SudoRequired => ApiError::SudoRequired,
            AppError::IpBanned => ApiError::IpBanned,
            AppError::IpNotWhitelisted => ApiError::IpNotWhitelisted,
            AppError::UsernameAlreadyExists => ApiError::UsernameAlreadyExists,
            AppError::Internal(m) => ApiError::Internal(m@),
            AppError::ReplayDetected => ApiError::ReplayDetected,
            AppError::TimestampExpired => ApiError::TimestampExpired,
            AppError::ApiKeyExpired => ApiError::ApiKeyExpired,
            AppError::InvalidPath(m) => ApiError::InvalidPath(m@),
            AppError::Validation(m) => ApiError::Validation(m@),
        }
    }
}

/// `a` followed by `b`.
pub fn concat(a: &str, b: &str) -> (r: String)
    ensures
        r@ == a@ + b@,
{
    let mut s = String::from_str(a);
    s.append(b);
    s
}

/// The message text of each error (what `Display` prints).
pub open spec fn error_message(e: AppError) -> Seq<char> {
    match e {
        AppError::MissingAuthHeader => "Missing Authorization header"@,
        AppError::InvalidAuthHeader => "Invalid Authorization header format"@,
        AppError::ApiKeyNotFound => "API key or username not found"@,
        AppError::SudoRequired => "Sudo privileges required"@,
        AppError::IpBanned => "IP is banned"@,
        AppError::IpNotWhitelisted => "IP not whitelisted"@,
        AppError::UsernameAlreadyExists => "Username already exists"@,
        AppError::Internal(m) => m@,
        AppError::ReplayDetected => "Request replay detected"@,
        AppError::TimestampExpired => "Request timestamp expired or missing"@,
        AppError::ApiKeyExpired => "API key has expired"@,
        AppError::InvalidPath(m) => "Invalid path: "@ + m@,
        AppError::Validation(m) => m@,
    }
}

/// The HTTP status code each error is answered with.
pub open spec fn error_status(e: AppError) -> u16 {
    match e {
        AppError::MissingAuthHeader | AppError::InvalidAuthHeader | AppError::ApiKeyNotFound => 401,
        AppError::SudoRequired | AppError::IpBanned | AppError::IpNotWhitelisted => 403,
        AppError::UsernameAlreadyExists => 409,
        AppError::ReplayDetected => 429,
        AppError::TimestampExpired | AppError::ApiKeyExpired => 401,
        AppError::InvalidPath(_) | AppError::Validation(_) => 400,
        AppError::Internal(_) => 500,
    }
}

/// The message put in the response body: internal details are not leaked.
pub open spec fn response_message(e: AppError) -> Seq<char> {
    match e {
        AppError::Internal(_) => "Internal error"@,
        _ => error_message(e),
    }
}

impl AppError {
    /// The error's message.
    pub fn message(&self) -> (r: String)
        ensures
            r@ == error_message(*self),
    {
        match self {
            AppError::MissingAuthHeader => String::from_str("Missing Authorization header"),
            AppError::InvalidAuthHeader => String::from_str("Invalid Authorization header format"),
            AppError::ApiKeyNotFound => String::from_str("API key or username not found"),
            AppError::SudoRequired => String::from_str("Sudo privileges required"),
            AppError::IpBanned => String::from_str("IP is banned"),
            AppError::IpNotWhitelisted => String::from_str("IP not whitelisted"),
            AppError::UsernameAlreadyExists => String::from_str("Username already exists"),
            AppError::Internal(m) => m.clone(),
            AppError::ReplayDetected => String::from_str("Request replay detected"),
            AppError::TimestampExpired => String::from_str("Request timestamp expired or missing"),
            AppError::ApiKeyExpired => String::from_str("API key has expired"),
            AppError::InvalidPath(m) => concat("Invalid path: ", m.as_str()),
            AppError::Validation(m) => m.clone(),
        }
    }

    /// The HTTP status code of the response.
    pub fn status_code(&self) -> (r: u16)
        ensures
            r == error_status(*self),
    {
        match self {
            AppError::MissingAuthHeader | AppError::InvalidAuthHeader | AppError::ApiKeyNotFound => 401,
            AppError::SudoRequired | AppError::IpBanned | AppError::IpNotWhitelisted => 403,
            AppError::UsernameAlreadyExists => 409,
            AppError::ReplayDetected => 429,
            AppError::TimestampExpired | AppError::ApiKeyExpired => 401,
            AppError::InvalidPath(_) | AppError::Validation(_) => 400,
            AppError::Internal(_) => 500,
        }
    }

    /// The `(status, message)` pair of the JSON error response.
    pub fn response_parts(&self) -> (r: (u16, String))
        ensures
            r.0 == error_status(*self),
            r.1@ == response_message(*self),
    {
        let status = self.status_code();
        match self {
            AppError::Internal(_) => (status, String::from_str("Internal error")),
            _ => (status, self.message()),
        }
    }
}

/// Errors of the server-management layer.
#[derive(Debug)]
pub enum Error {
    /// A command could not be handed to the server console.
    StdinSend,
    /// A `server.properties` line is not `key=value`.
    MalformedProperty { line: String },
    /// Any other failure, with its message.
    Other(String),
}

impl Error {
    pub fn other(msg: String) -> (r: Self)
        ensures
            r == Error::Other(msg),
    {
        Error::Other(msg)
    }
}

} // verus!
