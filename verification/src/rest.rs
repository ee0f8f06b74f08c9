//! The outcome of one request to a REST service: on which status a reply
//! counts as a success, and how its body is read in either case.

use vstd::prelude::*;

verus! {

/// What came back from one HTTP GET.
#[derive(Debug, PartialEq, Eq)]
pub enum HttpOutcome {
    /// No reply was had: the connection, the transfer or the reading of the
    /// body failed, for the reason given.
    Failed(String),
    /// A reply, with its status code and its whole body as text
    Reply { status: u16, body: String },
}

/// Why a request did not yield the payload asked for. `F` is the payload in
/// which the service reports its own failures.
#[derive(Debug, PartialEq, Eq)]
pub enum RestError<F> {
    /// No reply was had
    Transport(String),
    /// The reply reported success, but its body is no success payload: the
    /// decoder's reason, then the body as received
    UnexpectedSuccessShape(String, String),
    /// The reply reported a failure, and its body is no failure payload: the
    /// status code, the decoder's reason, then the body as received
    UnexpectedFailureShape(u16, String, String),
    /// The service reported a failure of its own
    Api(F),
}

/// Whether an HTTP status code reports success.
pub open spec fn is_success(status: u16) -> bool {
    200 <= status < 300
}

/// Whether an HTTP status code reports success.
pub fn status_is_success(status: u16) -> (r: bool)
    ensures
        r == is_success(status),
{
    200 <= status && status < 300
}

/// Whether `decode`, given a text that reads `body`, may answer `result`.
pub open spec fn decodes<T, D: FnOnce(&str) -> Result<T, String>>(
    decode: D,
    body: Seq<char>,
    result: Result<T, String>,
) -> bool {
    exists|text: &str| text@ == body && #[trigger] call_ensures(decode, (text,), result)
}

/// Reads the outcome of a GET as a payload of the kind `S`, or as the reason
/// why there is none.
///
/// No decoder runs where no reply was had. On a success status only
/// `decode_success` reads the body, on any other status only `decode_failure`
/// does. A decoder answers with the payload, or with the reason why the body
/// holds none.
pub fn restful_get<S, F, DS, DF>(outcome: HttpOutcome, decode_success: DS, decode_failure: DF) -> (r:
    Result<S, RestError<F>>) where
    DS: FnOnce(&str) -> Result<S, String>,
    DF: FnOnce(&str) -> Result<F, String>,

    requires
        forall|text: &str| call_requires(decode_success, (text,)),
        forall|text: &str| call_requires(decode_failure, (text,)),
    ensures
        match outcome {
            HttpOutcome::Failed(cause) => r == Err::<S, RestError<F>>(RestError::Transport(cause)),
            HttpOutcome::Reply { status, body } => if is_success(status) {
                match r {
                    Ok(payload) => decodes(decode_success, body@, Ok(payload)),
                    Err(RestError::UnexpectedSuccessShape(cause, raw)) => raw == body && decodes(
                        decode_success,
                        body@,
                        Err(cause),
                    ),
                    Err(_) => false,
                }
            } else {
                match r {
                    Err(RestError::Api(failure)) => decodes(decode_failure, body@, Ok(failure)),
                    Err(RestError::UnexpectedFailureShape(code, cause, raw)) => code == status
                        && raw == body && decodes(decode_failure, body@, Err(cause)),
                    _ => false,
                }
            },
        },
{
    match outcome {
        HttpOutcome::Failed(cause) => Err(RestError::Transport(cause)),
        HttpOutcome::Reply { status, body } => {
            if status_is_success(status) {
                match decode_success(body.as_str()) {
                    Ok(payload) => Ok(payload),
                    Err(cause) => Err(RestError::UnexpectedSuccessShape(cause, body)),
                }
            } else {
                match decode_failure(body.as_str()) {
                    Ok(failure) => Err(RestError::Api(failure)),
                    Err(cause) => Err(RestError::UnexpectedFailureShape(status, cause, body)),
                }
            }
        },
    }
}

} // verus!
