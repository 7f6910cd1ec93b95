//! What the replies to the two requests mean.

use crate::settings::{STATUS_NO_CONTENT, STATUS_OK};
use vstd::prelude::*;

verus! {

/// Why a page could not be fetched. Either ends the run.
#[derive(Debug, PartialEq, Eq)]
pub enum FetchError {
    /// The server answered with a status other than OK; the body is kept as
    /// it came.
    HttpStatus(u16, String),
    /// No usable answer arrived: the request failed on the way, or the body
    /// was not a list of messages.
    Transport(String),
}

/// Why one message could not be deleted. Neither ends anything: the other
/// messages of the batch are still attempted.
#[derive(Debug, PartialEq, Eq)]
pub enum DeleteError {
    /// The server answered with a status other than No Content; the body is
    /// kept as it came.
    HttpStatus(u16, String),
    /// No answer arrived.
    Transport(String),
}

/// What came back for one delete request.
#[derive(Debug)]
pub enum DeleteReply {
    /// The server answered.
    Status { code: u16, body: String },
    /// The request failed on the way.
    Transport { cause: String },
}

impl Clone for FetchError {
    fn clone(&self) -> (copy: Self)
        ensures
            copy == *self,
    {
        match self {
            FetchError::HttpStatus(code, body) => FetchError::HttpStatus(*code, body.clone()),
            FetchError::Transport(cause) => FetchError::Transport(cause.clone()),
        }
    }
}

impl Clone for DeleteError {
    fn clone(&self) -> (copy: Self)
        ensures
            copy == *self,
    {
        match self {
            DeleteError::HttpStatus(code, body) => DeleteError::HttpStatus(*code, body.clone()),
            DeleteError::Transport(cause) => DeleteError::Transport(cause.clone()),
        }
    }
}

/// The failure that a page reply with this status and body stands for, if
/// it stands for one.
pub open spec fn rejection_of(status: u16, body: String) -> Option<FetchError> {
    if status == STATUS_OK {
        None
    } else {
        Some(FetchError::HttpStatus(status, body))
    }
}

/// What a reply to a delete request means for its message.
pub open spec fn outcome_of(reply: DeleteReply) -> Result<(), DeleteError> {
    match reply {
        DeleteReply::Status { code, body } => if code == STATUS_NO_CONTENT {
            Ok(())
        } else {
            Err(DeleteError::HttpStatus(code, body))
        },
        DeleteReply::Transport { cause } => Err(DeleteError::Transport(cause)),
    }
}

/// Whether a reply with this status carries a page, so that its body is to
/// be read as a list of messages.
pub fn expects_page(status: u16) -> (yes: bool)
    ensures
        yes == (status == STATUS_OK),
{
    status == STATUS_OK
}

/// Judges the status of a page reply: `None` where the reply carries a
/// page, else the failure, with the status and the body as they came.
pub fn page_rejection(status: u16, body: String) -> (failure: Option<FetchError>)
    ensures
        failure == rejection_of(status, body),
{
    if status == STATUS_OK {
        None
    } else {
        Some(FetchError::HttpStatus(status, body))
    }
}

/// Whether a reply with this status confirms a deletion.
pub fn confirms_delete(status: u16) -> (yes: bool)
    ensures
        yes == (status == STATUS_NO_CONTENT),
{
    status == STATUS_NO_CONTENT
}

/// Judges the reply to a delete request: success where the server answered
/// No Content, else the failure with what came back.
pub fn classify_delete(reply: DeleteReply) -> (outcome: Result<(), DeleteError>)
    ensures
        outcome == outcome_of(reply),
{
    match reply {
        DeleteReply::Status { code, body } => {
            if code == STATUS_NO_CONTENT {
                Ok(())
            } else {
                Err(DeleteError::HttpStatus(code, body))
            }
        },
        DeleteReply::Transport { cause } => Err(DeleteError::Transport(cause)),
    }
}

} // verus!
