//! The status an agent exposes, and where its status socket lives.
//!
//! The payload has fixed fields common to every agent plus a free-form
//! `details` that this crate never looks into.  The shared handle, JSON
//! encoding and the socket server are in the application; the names are
//! fixed here so that agents, `status`/`top` and Nexus all agree on them.

use crate::text::{chars_of, concat_chars, string_of};
use vstd::prelude::*;

verus! {

/// An agent's status as served on its socket.
pub struct StatusPayload {
    pub agent: String,
    pub version: String,
    /// "starting", "running", "degraded", "stopping", or any agent-specific stage.
    pub state: String,
    pub since_unix: i64,
    /// Free per agent; never interpreted here.
    pub details: serde_json::Value,
}

impl StatusPayload {
    /// The status of an agent that has just started: state `starting`.
    pub fn starting(agent: &str, version: &str, since_unix: i64, details: serde_json::Value) -> (p:
        Self)
        ensures
            p.agent@ == agent@,
            p.version@ == version@,
            p.state@ == "starting"@,
            p.since_unix == since_unix,
            p.details == details,
    {
        StatusPayload {
            agent: String::from_str(agent),
            version: String::from_str(version),
            state: String::from_str("starting"),
            since_unix,
            details,
        }
    }

    /// Replaces the state; everything else stays.
    pub fn set_state(&mut self, state: String)
        ensures
            final(self).state == state,
            final(self).agent == old(self).agent,
            final(self).version == old(self).version,
            final(self).since_unix == old(self).since_unix,
            final(self).details == old(self).details,
    {
        self.state = state;
    }

    /// Replaces the details; everything else stays.
    pub fn set_details(&mut self, details: serde_json::Value)
        ensures
            final(self).details == details,
            final(self).agent == old(self).agent,
            final(self).version == old(self).version,
            final(self).state == old(self).state,
            final(self).since_unix == old(self).since_unix,
    {
        self.details = details;
    }
}

/// `\\.\pipe\sb-agent-<agent>`: the status named pipe on Windows.
pub fn default_socket_path(agent_name: &str) -> (p: String)
    ensures
        p@ == "\\\\.\\pipe\\sb-agent-"@ + agent_name@,
{
    let head = chars_of("\\\\.\\pipe\\sb-agent-");
    let name = chars_of(agent_name);
    let all = concat_chars(&head, &name);
    string_of(&all)
}

/// `<agent>.sock`: the status socket's file name on Unix.
pub fn socket_file_name(agent_name: &str) -> (p: String)
    ensures
        p@ == agent_name@ + ".sock"@,
{
    let name = chars_of(agent_name);
    let tail = chars_of(".sock");
    let all = concat_chars(&name, &tail);
    string_of(&all)
}

/// How reading a status snapshot failed.
pub enum StatusFailure {
    Connect,
    Read,
    Parse,
}

/// The text before the detail in a status-read failure's message.
pub open spec fn status_failure_prefix(kind: StatusFailure) -> Seq<char> {
    match kind {
        StatusFailure::Connect => "could not connect to status socket: "@,
        StatusFailure::Read => "could not read from status socket: "@,
        StatusFailure::Parse => "could not parse status payload: "@,
    }
}

/// The message of a status-read failure whose underlying error reads `detail`.
pub fn status_error_message(kind: StatusFailure, detail: &str) -> (m: String)
    ensures
        m@ == status_failure_prefix(kind) + detail@,
{
    let head = match kind {
        StatusFailure::Connect => chars_of("could not connect to status socket: "),
        StatusFailure::Read => chars_of("could not read from status socket: "),
        StatusFailure::Parse => chars_of("could not parse status payload: "),
    };
    let tail = chars_of(detail);
    let all = concat_chars(&head, &tail);
    string_of(&all)
}

} // verus!
