//! What a client of the guest makes of the daemons' answers: the error of a
//! non-success HTTP reply, and a screenshot as the wire carries it.
use vstd::prelude::*;

use crate::num::{dec_text, nat_string};
use crate::text::{chars_of, extend_str, string_of};

verus! {

/// The string at `/error/message` of `text` read as JSON: nothing when
/// `text` is not JSON or holds no string there.
pub uninterp spec fn json_error_message(text: Seq<char>) -> Option<Seq<char>>;

/// `serde_json::from_str::<Value>`, then `Value::pointer("/error/message")`
/// and `Value::as_str`: the message field of a JSON error envelope, if the
/// text parses and has one.
#[verifier::external_body]
fn error_message_field(text: &str) -> (r: Option<String>)
    ensures
        match r {
            Some(m) => json_error_message(text@) == Some(m@),
            None => json_error_message(text@) is None,
        },
{
    serde_json::from_str::<serde_json::Value>(text).ok().and_then(
        |v| v.pointer("/error/message").and_then(|m| m.as_str().map(str::to_owned)),
    )
}

/// Why a call to the guest failed.
#[derive(Debug, Clone)]
pub enum Error {
    /// The daemon could not be reached.
    Connect(String),
    /// A non-success reply: its status, the message of its JSON error
    /// envelope (or the whole text when there is none), and the text.
    Http { status: u16, message: String, body: String },
    /// The exchange broke off.
    Transport(String),
}

/// The message an error reply is reported with.
pub open spec fn reported_message(text: Seq<char>, found: Option<Seq<char>>) -> Seq<char> {
    match found {
        Some(m) => m,
        None => text,
    }
}

/// The error of a reply whose text is `text` and whose envelope message,
/// read from that text, is `found`.
pub fn http_error(status: u16, text: &str, found: Option<String>) -> (e: Error)
    ensures
        (e matches Error::Http { status: s, message, body } && s == status && message@
            == reported_message(
            text@,
            match found {
                Some(m) => Some(m@),
                None => None,
            },
        ) && body@ == text@),
{
    let message = match found {
        Some(m) => m,
        None => text.to_owned(),
    };
    Error::Http { status, message, body: text.to_owned() }
}

impl Error {
    /// The error of a non-success reply with status `status` and body
    /// `text`.
    pub fn from_status(status: u16, text: &str) -> (e: Self)
        ensures
            (e matches Error::Http { status: s, message, body } && s == status && message@
                == reported_message(text@, json_error_message(text@)) && body@ == text@),
    {
        let found = error_message_field(text);
        http_error(status, text, found)
    }

    /// The text the error is shown with: an HTTP error as
    /// `HTTP <status>: <message>`, the others as their text.
    pub fn display_text(&self) -> (m: String)
        ensures
            m@ == match self {
                Error::Connect(t) => t@,
                Error::Http { status, message, body: _ } => "HTTP "@ + dec_text(*status as nat)
                    + ": "@ + message@,
                Error::Transport(t) => t@,
            },
    {
        match self {
            Error::Connect(t) => t.clone(),
            Error::Http { status, message, .. } => {
                let mut v = chars_of("HTTP ");
                extend_str(&mut v, nat_string(*status as u64).as_str());
                extend_str(&mut v, ": ");
                extend_str(&mut v, message.as_str());
                proof {
                    reveal_strlit("HTTP ");
                }
                string_of(v.as_slice())
            },
            Error::Transport(t) => t.clone(),
        }
    }
}

/// A screenshot as a client receives it.
#[derive(Debug, Clone)]
pub struct ScreenshotResponse {
    pub encoding: String,
    pub mime: String,
    pub width: u32,
    pub height: u32,
    pub png_base64: String,
    pub bytes: usize,
    pub path: Option<String>,
}

} // verus!
