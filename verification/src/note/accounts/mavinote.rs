//! The Mavinote account: how the server's answers become results.
use vstd::prelude::*;
use crate::text::same_text;

pub mod requests;
pub mod responses;

pub use requests::{CreateFolderRequest, CreateNoteRequest, RespondRequests, RespondFolderRequest, RespondNoteRequest, CreateRequests};
pub use responses::Device;

verus! {

/// A session token handed out by the server.
pub struct Token {
    pub token: String,
}

/// The body of a failed request.
pub struct HttpError {
    pub error: String,
}

/// Errors of talking to the Mavinote server.
#[derive(Debug)]
pub enum Error {
    Unauthorized(Option<i32>),
    /// The device with this id was deleted from the account.
    DeviceDeleted(i32),
    Message(String),
    NoConnection,
    UnexpectedResponse,
    Unknown,
}

/// What the library reads of a failed HTTP exchange: the status the server
/// answered with, if any, and whether connecting or decoding the body failed.
pub struct HttpFailure {
    pub status: Option<u16>,
    pub is_connect: bool,
    pub is_decode: bool,
}

/// The HTTP status of an unauthorized request.
pub const UNAUTHORIZED: u16 = 401;

/// The HTTP status of a missing resource.
pub const NOT_FOUND: u16 = 404;

/// The error that a failed HTTP exchange becomes.
pub open spec fn failure_error(f: HttpFailure) -> Error {
    if f.status == Some(UNAUTHORIZED) {
        Error::Unauthorized(None)
    } else if f.is_connect {
        Error::NoConnection
    } else if f.is_decode {
        Error::UnexpectedResponse
    } else {
        Error::Unknown
    }
}

impl From<HttpFailure> for Error {
    fn from(f: HttpFailure) -> (e: Error) {
        if f.status == Some(UNAUTHORIZED) {
            Error::Unauthorized(None)
        } else if f.is_connect {
            Error::NoConnection
        } else if f.is_decode {
            Error::UnexpectedResponse
        } else {
            Error::Unknown
        }
    }
}

impl vstd::std_specs::convert::FromSpecImpl<HttpFailure> for Error {
    open spec fn obeys_from_spec() -> bool {
        true
    }

    open spec fn from_spec(f: HttpFailure) -> Error {
        failure_error(f)
    }
}

/// What to do with a response, judged by its status.
pub enum StatusCheck {
    /// The request succeeded: read the body.
    Success,
    /// The request failed with this error.
    Failed(Error),
    /// The request failed: read the server's message from the body.
    ReadMessage,
}

/// Whether `status` is a success (2xx) status.
pub open spec fn is_success(status: u16) -> bool {
    200 <= status < 300
}

/// How a response with `status` is treated, for the account `account_id`
/// (`None` before the account exists).
pub fn check_status(account_id: Option<i32>, status: u16) -> (c: StatusCheck)
    ensures
        is_success(status) ==> c is Success,
        !is_success(status) && status == UNAUTHORIZED ==> (c matches StatusCheck::Failed(Error::Unauthorized(id)) && id == account_id),
        !is_success(status) && status != UNAUTHORIZED ==> c is ReadMessage,
{
    if 200 <= status && status < 300 {
        StatusCheck::Success
    } else if status == UNAUTHORIZED {
        StatusCheck::Failed(Error::Unauthorized(account_id))
    } else {
        StatusCheck::ReadMessage
    }
}

/// The error that a failed request becomes once its body has been read.
pub fn message_error(body: HttpError) -> (e: Error)
    ensures
        e matches Error::Message(m) && m@ == body.error@,
{
    Error::Message(body.error)
}

/// Whether a note that was asked for is missing on the server: then the
/// lookup gives `None` in place of an error.
pub fn is_missing(status: u16) -> (r: bool)
    ensures
        r == (status == NOT_FOUND),
{
    status == NOT_FOUND
}

/// The first frame that arrives while waiting for an account's verification.
pub enum VerificationFrame {
    Text(String),
    NonText,
    ReceiveError,
    Closed,
}

/// What waiting for verification ends with, given the first frame, or `None`
/// where the connection could not be made.
pub fn verification_outcome(frame: Option<VerificationFrame>) -> (r: Result<(), Error>)
    ensures
        (frame matches Some(VerificationFrame::Text(t)) && t@ == "accepted"@) ==> r is Ok,
        (frame matches Some(VerificationFrame::Text(t)) && t@ == "timeout"@)
            ==> (r matches Err(Error::Message(m)) && m@ == "ws_timeout"@),
        !(frame matches Some(VerificationFrame::Text(t)) && (t@ == "accepted"@ || t@ == "timeout"@))
            ==> (r matches Err(Error::Message(m)) && m@ == "ws_failed"@),
{
    proof {
        reveal_strlit("accepted");
        reveal_strlit("timeout");
        assert("accepted"@.len() != "timeout"@.len());
    }
    if let Some(VerificationFrame::Text(t)) = &frame {
        if same_text(t.as_str(), "accepted") {
            return Ok(());
        }
        if same_text(t.as_str(), "timeout") {
            return Err(Error::Message(String::from_str("ws_timeout")));
        }
    }
    Err(Error::Message(String::from_str("ws_failed")))
}

} // verus!

verus! {

/// A notification that the server pushes to a device.
#[derive(Clone, Copy, Debug, PartialEq, Eq, Structural)]
pub enum DeviceMessage {
    RefreshRequests,
    RefreshRemote,
    RefreshFolder(i32),
    RefreshNote { folder_id: i32, note_id: i32 },
    Timeout,
}

} // verus!
