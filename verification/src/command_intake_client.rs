//! How the intake client reads the server's reply, one line at a time.
//!
//! The reply is zero or more progress lines and then one final line, told
//! apart by the keys of each JSON object rather than by a type tag.
//! Connecting, reading lines and decoding each line into its type are in
//! the application.

use crate::text::{chars_of, concat_chars, string_of, trim, trim_chars};
use vstd::prelude::*;

verus! {

/// What a reply line is.
pub enum LineShape {
    /// `{"error": ...}`: the command was refused.
    Error,
    /// Has `duration_ms`: the final response.
    Response,
    /// Anything else: intermediate progress.
    Progress,
}

/// The shape of a reply object: an `error` key makes it a refusal, even
/// when `duration_ms` is present too; `duration_ms` alone makes it the
/// final response; otherwise it is progress.
pub fn line_shape(has_error_key: bool, has_duration_ms_key: bool) -> (s: LineShape)
    ensures
        s == if has_error_key {
            LineShape::Error
        } else if has_duration_ms_key {
            LineShape::Response
        } else {
            LineShape::Progress
        },
{
    if has_error_key {
        LineShape::Error
    } else if has_duration_ms_key {
        LineShape::Response
    } else {
        LineShape::Progress
    }
}

/// Whether a reply line holds nothing but whitespace; such lines are skipped.
pub fn is_blank_line(line: &str) -> (b: bool)
    ensures
        b == (trim(line@).len() == 0),
{
    let chars = chars_of(line);
    trim_chars(&chars).len() == 0
}

/// Whether `line`, read as JSON, is a value holding the key `key`; `None`
/// when `line` is not JSON.
pub uninterp spec fn json_key_present(line: Seq<char>, key: Seq<char>) -> Option<bool>;

#[verifier::external_body]
/// `serde_json::from_str::<serde_json::Value>(line)`, then `Value::get(key)`;
/// `None` when the parse fails.  `get` finds nothing in a value that is not
/// an object.
fn json_has_key(line: &str, key: &str) -> (r: Option<bool>)
    ensures
        r == json_key_present(line@, key@),
{
    match serde_json::from_str::<serde_json::Value>(line) {
        Ok(v) => Some(v.get(key).is_some()),
        Err(_) => None,
    }
}

/// What the client does with one line of the reply.
pub enum ReplyStep {
    /// A blank line: read on.
    Skip,
    /// Not JSON: the reply cannot be read.
    Unparsable,
    /// The command was refused; the line holds the reason.
    Rejected,
    /// The final response.
    Final,
    /// Intermediate progress, for the caller's callback.
    Progress,
}

/// The reply protocol, line by line: blank lines are skipped; any other line
/// must be JSON; an `error` key means refused (even next to `duration_ms`),
/// `duration_ms` means the final response, anything else is progress.
pub fn reply_step(line: &str) -> (s: ReplyStep)
    ensures
        s == (if trim(line@).len() == 0 {
            ReplyStep::Skip
        } else {
            match json_key_present(line@, "error"@) {
                None => ReplyStep::Unparsable,
                Some(has_error) => match json_key_present(line@, "duration_ms"@) {
                    None => ReplyStep::Unparsable,
                    Some(has_duration) => if has_error {
                        ReplyStep::Rejected
                    } else if has_duration {
                        ReplyStep::Final
                    } else {
                        ReplyStep::Progress
                    },
                },
            }
        }),
{
    if is_blank_line(line) {
        return ReplyStep::Skip;
    }
    let has_error = match json_has_key(line, "error") {
        None => {
            return ReplyStep::Unparsable;
        },
        Some(b) => b,
    };
    let has_duration = match json_has_key(line, "duration_ms") {
        None => {
            return ReplyStep::Unparsable;
        },
        Some(b) => b,
    };
    match line_shape(has_error, has_duration) {
        LineShape::Error => ReplyStep::Rejected,
        LineShape::Response => ReplyStep::Final,
        LineShape::Progress => ReplyStep::Progress,
    }
}

/// How a call of the intake client failed.
pub enum ClientFailure {
    Connect,
    Write,
    Read,
    Parse,
    Auth,
    Rejected,
    NoResponse,
}

/// The text before the detail in a client failure's message.
pub open spec fn client_failure_prefix(kind: ClientFailure) -> Seq<char> {
    match kind {
        ClientFailure::Connect => "could not connect to command intake: "@,
        ClientFailure::Write => "could not write command envelope: "@,
        ClientFailure::Read => "could not read from command intake: "@,
        ClientFailure::Parse => "could not parse intake response: "@,
        ClientFailure::Auth => "could not load shared auth token: "@,
        ClientFailure::Rejected => "command rejected: "@,
        ClientFailure::NoResponse => "command intake closed without a final response"@,
    }
}

/// The message of a client failure with `detail` (the underlying error's
/// text, or the refusal's reason): the prefix followed by the detail, except
/// for a missing final response, which has no detail.
pub fn client_error_message(kind: ClientFailure, detail: &str) -> (m: String)
    ensures
        m@ == match kind {
            ClientFailure::NoResponse => client_failure_prefix(kind),
            _ => client_failure_prefix(kind) + detail@,
        },
{
    let head = match kind {
        ClientFailure::Connect => chars_of("could not connect to command intake: "),
        ClientFailure::Write => chars_of("could not write command envelope: "),
        ClientFailure::Read => chars_of("could not read from command intake: "),
        ClientFailure::Parse => chars_of("could not parse intake response: "),
        ClientFailure::Auth => chars_of("could not load shared auth token: "),
        ClientFailure::Rejected => chars_of("command rejected: "),
        ClientFailure::NoResponse => {
            return String::from_str("command intake closed without a final response");
        },
    };
    let tail = chars_of(detail);
    let all = concat_chars(&head, &tail);
    string_of(&all)
}

} // verus!
