//! The crate's error type.

use std::sync::mpsc::RecvError;
use std::sync::mpsc::TryRecvError;
use vstd::prelude::*;
use vstd::string::*;

verus! {

#[verifier::external_type_specification]
#[verifier::external_body]
pub struct ExRecvError(RecvError);

#[verifier::external_type_specification]
#[verifier::external_body]
pub struct ExTryRecvError(TryRecvError);

#[verifier::external_type_specification]
#[verifier::external_body]
pub struct ExIoError(std::io::Error);

/// `Result` with the crate's error as its default error type.
pub type Result<T, E = Error> = std::result::Result<T, E>;

/// Everything that can go wrong in the crate's workers.
///
/// The errors that senders and unknown sources report are kept as the text
/// that they display.
#[derive(Debug)]
pub enum Error {
    SyncRecvError(RecvError),
    SyncTryRecvError(TryRecvError),
    SyncSendError(String),
    SyncThreadError(std::io::Error),
    SyncError(String),
    UnknownError(String),
}

impl Error {
    /// Wraps the error of a failed send; the error is kept as the text that it
    /// displays.
    pub fn as_sync_send_error<E: core::fmt::Display>(err: E) -> (r: Self)
        ensures
            exists|text: String|
                to_string_from_display_ensures::<E>(&err, text) && r == Error::SyncSendError(
                    text,
                ),
    {
        let text = err.to_string();
        Error::SyncSendError(text)
    }

    /// The text that the error displays: a prefix naming the kind of failure,
    /// then the text of what caused it.
    pub fn message(&self) -> (r: String)
        ensures
            match self {
                Error::SyncError(text) => r@ == "sync error: "@ + text@,
                Error::SyncRecvError(cause) => exists|text: String|
                    to_string_from_display_ensures::<RecvError>(cause, text) && r@
                        == "sync recv error: "@ + text@,
                Error::SyncTryRecvError(cause) => exists|text: String|
                    to_string_from_display_ensures::<TryRecvError>(cause, text) && r@
                        == "sync try recv error: "@ + text@,
                Error::SyncSendError(text) => r@ == "sync send error: "@ + text@,
                Error::SyncThreadError(cause) => exists|text: String|
                    to_string_from_display_ensures::<std::io::Error>(cause, text) && r@
                        == "sync thread error: "@ + text@,
                Error::UnknownError(text) => r@ == "unknown error: "@ + text@,
            },
    {
        let (mut r, cause) = match self {
            Error::SyncError(text) => (String::from_str("sync error: "), text.clone()),
            Error::SyncRecvError(cause) => (
                String::from_str("sync recv error: "),
                cause.to_string(),
            ),
            Error::SyncTryRecvError(cause) => (
                String::from_str("sync try recv error: "),
                cause.to_string(),
            ),
            Error::SyncSendError(text) => (String::from_str("sync send error: "), text.clone()),
            Error::SyncThreadError(cause) => (
                String::from_str("sync thread error: "),
                cause.to_string(),
            ),
            Error::UnknownError(text) => (String::from_str("unknown error: "), text.clone()),
        };
        r.append(cause.as_str());
        r
    }
}

} // verus!
