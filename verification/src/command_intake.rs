//! The command intake's rules: the shape of requests, progress and results,
//! the shared-token check, the per-command timeout, and the memory of
//! recent `command_id`s that makes a repeated command return its first
//! result instead of running twice.
//!
//! Sockets, handler futures and JSON framing live in the application; every
//! decision they take is one of the functions here.

use crate::intake_auth::constant_time_eq;
use crate::text::{chars_of, concat_chars, str_eq, string_of};
use std::collections::VecDeque;
use vstd::prelude::*;

verus! {

#[verifier::external_type_specification]
#[verifier::external_body]
pub struct ExJsonValue(serde_json::Value);

/// A command request as it reaches the intake.  `payload` is free-form and
/// only handed to the handler; the core never looks inside it.
pub struct CommandEnvelope {
    pub command_id: String,
    pub command_type: String,
    pub payload: serde_json::Value,
    /// 0 means "no timeout of its own": the core's default applies.
    pub timeout_secs: u32,
    /// The machine's shared intake token; the server refuses any other.
    pub auth_token: String,
}

/// Intermediate progress of a long command.  `percent` is -1 when it does
/// not apply.
pub struct CommandProgress {
    pub command_id: String,
    pub stage: String,
    pub message: String,
    pub percent: i32,
}

/// What a handler returns; the core adds `command_id` and `duration_ms`.
pub struct CommandOutcome {
    pub success: bool,
    pub stdout: String,
    pub stderr: String,
    pub exit_code: i32,
}

/// The final result sent back to the peer.
pub struct CommandResponse {
    pub command_id: String,
    pub success: bool,
    pub stdout: String,
    pub stderr: String,
    pub exit_code: i32,
    pub duration_ms: i64,
}

/// Why the core refused to run any handler.
pub enum IntakeError {
    UnknownCommandType(String),
    Timeout,
    /// The envelope did not carry the machine's shared token.
    InvalidAuthToken,
}

impl Clone for CommandResponse {
    fn clone(&self) -> (r: Self)
        ensures
            r == *self,
    {
        CommandResponse {
            command_id: self.command_id.clone(),
            success: self.success,
            stdout: self.stdout.clone(),
            stderr: self.stderr.clone(),
            exit_code: self.exit_code,
            duration_ms: self.duration_ms,
        }
    }
}

impl Clone for CommandProgress {
    fn clone(&self) -> (r: Self)
        ensures
            r == *self,
    {
        CommandProgress {
            command_id: self.command_id.clone(),
            stage: self.stage.clone(),
            message: self.message.clone(),
            percent: self.percent,
        }
    }
}

impl Clone for CommandOutcome {
    fn clone(&self) -> (r: Self)
        ensures
            r == *self,
    {
        CommandOutcome {
            success: self.success,
            stdout: self.stdout.clone(),
            stderr: self.stderr.clone(),
            exit_code: self.exit_code,
        }
    }
}

impl Clone for IntakeError {
    fn clone(&self) -> (r: Self)
        ensures
            r == *self,
    {
        match self {
            IntakeError::UnknownCommandType(t) => IntakeError::UnknownCommandType(t.clone()),
            IntakeError::Timeout => IntakeError::Timeout,
            IntakeError::InvalidAuthToken => IntakeError::InvalidAuthToken,
        }
    }
}

impl CommandOutcome {
    /// A successful outcome with `stdout`, an empty `stderr` and exit code 0.
    pub fn ok(stdout: &str) -> (o: Self)
        ensures
            o.success,
            o.stdout@ == stdout@,
            o.stderr@ == Seq::<char>::empty(),
            o.exit_code == 0,
    {
        CommandOutcome {
            success: true,
            stdout: String::from_str(stdout),
            stderr: String::new(),
            exit_code: 0,
        }
    }

    /// A failed outcome with `stderr`, an empty `stdout` and exit code 1.
    pub fn failed(stderr: &str) -> (o: Self)
        ensures
            !o.success,
            o.stdout@ == Seq::<char>::empty(),
            o.stderr@ == stderr@,
            o.exit_code == 1,
    {
        CommandOutcome {
            success: false,
            stdout: String::new(),
            stderr: String::from_str(stderr),
            exit_code: 1,
        }
    }
}

/// The text of an intake error, as the peer receives it.
pub open spec fn intake_error_text(e: IntakeError) -> Seq<char> {
    match e {
        IntakeError::UnknownCommandType(t) => "unknown command_type: "@ + t@,
        IntakeError::Timeout => "command timed out"@,
        IntakeError::InvalidAuthToken => "invalid auth_token"@,
    }
}

impl IntakeError {
    /// The error's text: `unknown command_type: <type>`, `command timed
    /// out`, or `invalid auth_token`.
    pub fn message(&self) -> (m: String)
        ensures
            m@ == intake_error_text(*self),
    {
        match self {
            IntakeError::UnknownCommandType(t) => {
                let head = chars_of("unknown command_type: ");
                let tail = chars_of(t.as_str());
                let all = concat_chars(&head, &tail);
                string_of(&all)
            },
            IntakeError::Timeout => String::from_str("command timed out"),
            IntakeError::InvalidAuthToken => String::from_str("invalid auth_token"),
        }
    }
}

impl CommandResponse {
    /// The final response for `command_id`: the outcome's fields plus the
    /// measured duration.
    pub fn from_outcome(command_id: String, outcome: CommandOutcome, duration_ms: i64) -> (r: Self)
        ensures
            r == (CommandResponse {
                command_id,
                success: outcome.success,
                stdout: outcome.stdout,
                stderr: outcome.stderr,
                exit_code: outcome.exit_code,
                duration_ms,
            }),
    {
        CommandResponse {
            command_id,
            success: outcome.success,
            stdout: outcome.stdout,
            stderr: outcome.stderr,
            exit_code: outcome.exit_code,
            duration_ms,
        }
    }
}

/// Seconds a command may run before it is abandoned when it names none.
pub const DEFAULT_TIMEOUT_SECS: u64 = 300;

/// How many recent `command_id`s are remembered, so that a command resent
/// after a tunnel reconnect is not executed twice.
pub const SEEN_CAPACITY: usize = 256;

/// The timeout that applies to an envelope asking for `timeout_secs`.
pub fn effective_timeout_secs(timeout_secs: u32) -> (t: u64)
    ensures
        t == if timeout_secs == 0 {
            DEFAULT_TIMEOUT_SECS
        } else {
            timeout_secs as u64
        },
{
    if timeout_secs == 0 {
        DEFAULT_TIMEOUT_SECS
    } else {
        timeout_secs as u64
    }
}

/// `progress` stamped with the `command_id` of the envelope that started
/// it; handlers do not know that id and need not fill it in.
pub fn stamp_progress(progress: CommandProgress, command_id: &str) -> (p: CommandProgress)
    ensures
        p.command_id@ == command_id@,
        p.stage == progress.stage,
        p.message == progress.message,
        p.percent == progress.percent,
{
    CommandProgress {
        command_id: String::from_str(command_id),
        stage: progress.stage,
        message: progress.message,
        percent: progress.percent,
    }
}

/// The server's token check, made before any handler is looked up: the
/// envelope must carry exactly the machine's token.
pub fn authorize(expected_token: &str, envelope: &CommandEnvelope) -> (r: Result<(), IntakeError>)
    ensures
        r is Ok <==> envelope.auth_token@ == expected_token@,
        r is Err ==> r == Err::<(), IntakeError>(IntakeError::InvalidAuthToken),
{
    if constant_time_eq(envelope.auth_token.as_str(), expected_token) {
        Ok(())
    } else {
        Err(IntakeError::InvalidAuthToken)
    }
}

/// The remembered responses, oldest first, keyed by command id.
pub type SeenView = Seq<(Seq<char>, CommandResponse)>;

/// The response remembered for `id`, if any.
pub open spec fn seen_lookup(v: SeenView, id: Seq<char>) -> Option<CommandResponse>
    decreases v.len(),
{
    if v.len() == 0 {
        None
    } else if v.last().0 == id {
        Some(v.last().1)
    } else {
        seen_lookup(v.drop_last(), id)
    }
}

/// No command id is remembered twice.
pub open spec fn ids_distinct(v: SeenView) -> bool {
    forall|i: int, j: int| 0 <= i < j < v.len() ==> v[i].0 != v[j].0
}

/// Remembering `resp` for `id`: a known id keeps its place and gets the new
/// response; a new id goes last, and when that makes more than
/// `SEEN_CAPACITY` entries the oldest one is forgotten.
pub open spec fn seen_insert(v: SeenView, id: Seq<char>, resp: CommandResponse) -> SeenView {
    if seen_lookup(v, id) is Some {
        Seq::new(
            v.len(),
            |i: int|
                if v[i].0 == id {
                    (id, resp)
                } else {
                    v[i]
                },
        )
    } else if v.len() + 1 > SEEN_CAPACITY {
        v.push((id, resp)).drop_first()
    } else {
        v.push((id, resp))
    }
}

/// Recent command ids and the responses they produced.
pub struct SeenCommands {
    entries: VecDeque<(String, CommandResponse)>,
}

impl View for SeenCommands {
    type V = SeenView;

    closed spec fn view(&self) -> SeenView {
        Seq::new(self.entries@.len(), |i: int| (self.entries@[i].0@, self.entries@[i].1))
    }
}

pub proof fn lemma_lookup_found(v: SeenView, id: Seq<char>)
    ensures
        seen_lookup(v, id) is Some <==> exists|i: int| 0 <= i < v.len() && v[i].0 == id,
        ids_distinct(v) ==> forall|i: int|
            0 <= i < v.len() && v[i].0 == id ==> seen_lookup(v, id) == Some(v[i].1),
    decreases v.len(),
{
    if v.len() > 0 {
        let d = v.drop_last();
        lemma_lookup_found(d, id);
        if seen_lookup(v, id) is None {
            assert forall|i: int| 0 <= i < v.len() implies v[i].0 != id by {
                if i < v.len() - 1 {
                    assert(d[i] == v[i]);
                }
            }
        } else if v.last().0 != id {
            let k = choose|k: int| 0 <= k < d.len() && d[k].0 == id;
            assert(v[k] == d[k]);
        }
        if ids_distinct(v) {
            assert(ids_distinct(d));
            assert forall|i: int| 0 <= i < v.len() && v[i].0 == id implies seen_lookup(v, id)
                == Some(v[i].1) by {
                if i < v.len() - 1 {
                    assert(d[i] == v[i]);
                    assert(v.last().0 != id);
                }
            }
        }
    }
}

impl SeenCommands {
    #[verifier::type_invariant]
    spec fn bounded_and_distinct(self) -> bool {
        &&& self.entries@.len() <= SEEN_CAPACITY
        &&& ids_distinct(self@)
    }

    pub fn new() -> (s: Self)
        ensures
            s@ == Seq::<(Seq<char>, CommandResponse)>::empty(),
    {
        let s = SeenCommands { entries: VecDeque::new() };
        assert(s@ =~= Seq::<(Seq<char>, CommandResponse)>::empty());
        s
    }

    /// The response remembered for `id`, if any.
    pub fn get(&self, id: &str) -> (r: Option<CommandResponse>)
        ensures
            r == seen_lookup(self@, id@),
            self@.len() <= SEEN_CAPACITY,
            ids_distinct(self@),
    {
        proof {
            use_type_invariant(self);
            lemma_lookup_found(self@, id@);
        }
        let mut i: usize = 0;
        while i < self.entries.len()
            invariant
                i <= self.entries@.len(),
                self@.len() == self.entries@.len(),
                self@.len() <= SEEN_CAPACITY,
                ids_distinct(self@),
                forall|k: int|
                    0 <= k < self@.len() && self@[k].0 == id@ ==> seen_lookup(self@, id@) == Some(
                        self@[k].1,
                    ),
                (forall|k: int| 0 <= k < self@.len() ==> self@[k].0 != id@) ==> seen_lookup(
                    self@,
                    id@,
                ) is None,
                forall|j: int| 0 <= j < i ==> self@[j].0 != id@,
            decreases self.entries.len() - i,
        {
            if str_eq(self.entries[i].0.as_str(), id) {
                assert(self@[i as int].0 == id@);
                return Some(self.entries[i].1.clone());
            }
            i = i + 1;
        }
        None
    }

    /// Remembers `resp` as the response of `id` (see `seen_insert`).
    pub fn insert(&mut self, id: String, resp: CommandResponse)
        ensures
            final(self)@ == seen_insert(old(self)@, id@, resp),
            final(self)@.len() <= SEEN_CAPACITY,
            ids_distinct(final(self)@),
    {
        proof {
            use_type_invariant(&*self);
            lemma_lookup_found(self@, id@);
        }
        let ghost v = self@;
        let mut entries: VecDeque<(String, CommandResponse)> = VecDeque::new();
        std::mem::swap(&mut entries, &mut self.entries);
        assert(Seq::new(entries@.len(), |i: int| (entries@[i].0@, entries@[i].1)) == v);
        let mut i: usize = 0;
        while i < entries.len()
            invariant
                i <= entries@.len(),
                Seq::new(entries@.len(), |k: int| (entries@[k].0@, entries@[k].1)) == v,
                v == old(self)@,
                ids_distinct(v),
                v.len() <= SEEN_CAPACITY,
                seen_lookup(v, id@) is Some <==> exists|k: int| 0 <= k < v.len() && v[k].0 == id@,
                forall|j: int| 0 <= j < i ==> v[j].0 != id@,
            decreases entries.len() - i,
        {
            if str_eq(entries[i].0.as_str(), id.as_str()) {
                let ghost before = entries@;
                let key = entries[i].0.clone();
                let _ = entries.remove(i);
                entries.insert(i, (key, resp));
                proof {
                    assert(v[i as int].0 == id@);
                    assert(seen_lookup(v, id@) is Some);
                    let w = Seq::new(entries@.len(), |k: int| (entries@[k].0@, entries@[k].1));
                    assert forall|k: int| 0 <= k < v.len() implies w[k] == (if v[k].0 == id@ {
                        (id@, resp)
                    } else {
                        v[k]
                    }) by {
                        if k != i {
                            assert(entries@[k] == before[k]);
                            assert(v[k].0 != v[i as int].0);
                        }
                    }
                    assert(w =~= seen_insert(v, id@, resp));
                    assert forall|a: int, b: int| 0 <= a < b < w.len() implies w[a].0 != w[b].0 by {
                        assert(w[a].0 == v[a].0 && w[b].0 == v[b].0);
                    }
                }
                self.entries = entries;
                return;
            }
            i = i + 1;
        }
        proof {
            assert(seen_lookup(v, id@) is None);
        }
        entries.push_back((id, resp));
        if entries.len() > SEEN_CAPACITY {
            let _ = entries.pop_front();
        }
        proof {
            let w = Seq::new(entries@.len(), |k: int| (entries@[k].0@, entries@[k].1));
            assert(w =~= seen_insert(v, id@, resp));
            let p = v.push((id@, resp));
            assert(ids_distinct(p)) by {
                assert forall|a: int, b: int| 0 <= a < b < p.len() implies p[a].0 != p[b].0 by {
                    if b == v.len() {
                        assert(v[a].0 != id@);
                    }
                }
            }
        }
        self.entries = entries;
    }
}

/// Remembering a response makes it the one found for that id.
pub proof fn lemma_seen_insert_then_lookup(v: SeenView, id: Seq<char>, resp: CommandResponse)
    requires
        ids_distinct(v),
        v.len() <= SEEN_CAPACITY,
    ensures
        seen_lookup(seen_insert(v, id, resp), id) == Some(resp),
{
    lemma_lookup_found(v, id);
    let w = seen_insert(v, id, resp);
    if seen_lookup(v, id) is Some {
        let k = choose|k: int| 0 <= k < v.len() && v[k].0 == id;
        assert(w[k] == (id, resp));
        assert(ids_distinct(w)) by {
            assert forall|a: int, b: int| 0 <= a < b < w.len() implies w[a].0 != w[b].0 by {
                assert(w[a].0 == v[a].0 && w[b].0 == v[b].0);
            }
        }
        lemma_lookup_found(w, id);
    } else {
        assert(w.last() == (id, resp));
    }
}

/// Remembering a response for one id leaves every other id's response as it
/// was, except for the oldest entry, which is forgotten when a new id
/// arrives at full capacity.
pub proof fn lemma_seen_insert_keeps_others(
    v: SeenView,
    id: Seq<char>,
    resp: CommandResponse,
    other: Seq<char>,
)
    requires
        ids_distinct(v),
        v.len() <= SEEN_CAPACITY,
        other != id,
        !(seen_lookup(v, id) is None && v.len() == SEEN_CAPACITY && v[0].0 == other),
    ensures
        seen_lookup(seen_insert(v, id, resp), other) == seen_lookup(v, other),
{
    let w = seen_insert(v, id, resp);
    lemma_lookup_found(v, other);
    lemma_lookup_found(v, id);
    assert(ids_distinct(w)) by {
        if seen_lookup(v, id) is Some {
            assert forall|a: int, b: int| 0 <= a < b < w.len() implies w[a].0 != w[b].0 by {
                assert(w[a].0 == v[a].0 && w[b].0 == v[b].0);
            }
        } else {
            let p = v.push((id, resp));
            assert forall|a: int, b: int| 0 <= a < b < p.len() implies p[a].0 != p[b].0 by {
                if b == v.len() {
                    assert(v[a].0 != id);
                }
            }
            if v.len() + 1 > SEEN_CAPACITY {
                assert forall|a: int, b: int| 0 <= a < b < w.len() implies w[a].0 != w[b].0 by {
                    assert(w[a] == p[a + 1] && w[b] == p[b + 1]);
                }
            }
        }
    }
    lemma_lookup_found(w, other);
    if seen_lookup(v, other) is Some {
        let k = choose|k: int| 0 <= k < v.len() && v[k].0 == other;
        if seen_lookup(v, id) is Some {
            assert(w[k] == v[k]);
        } else if v.len() + 1 > SEEN_CAPACITY {
            assert(k != 0);
            assert(w[k - 1] == v[k]);
        } else {
            assert(w[k] == v[k]);
        }
    } else {
        assert forall|k: int| 0 <= k < w.len() implies w[k].0 != other by {
            if seen_lookup(v, id) is Some {
                assert(w[k].0 == v[k].0 || w[k].0 == id);
            } else if v.len() + 1 > SEEN_CAPACITY {
                if k + 1 < v.len() {
                    assert(w[k] == v[k + 1]);
                }
            } else {
                if k < v.len() {
                    assert(w[k] == v[k]);
                }
            }
        }
    }
}

/// What the intake does with an authorised envelope.
pub enum DispatchPlan {
    /// The command id was seen before: answer with its first response.
    Cached(CommandResponse),
    /// No handler can run it.
    Rejected(IntakeError),
    /// Run the handler, abandoning it after `timeout_secs` seconds.
    Run { timeout_secs: u64 },
}

/// The intake's decision for `envelope`: a remembered command id returns its
/// first response (whatever handlers exist now), an unknown command type is
/// refused, and anything else runs under its timeout.
pub fn plan_dispatch(seen: &SeenCommands, envelope: &CommandEnvelope, handler_registered: bool) -> (p:
    DispatchPlan)
    ensures
        p == (match seen_lookup(seen@, envelope.command_id@) {
            Some(r) => DispatchPlan::Cached(r),
            None => if handler_registered {
                DispatchPlan::Run {
                    timeout_secs: if envelope.timeout_secs == 0 {
                        DEFAULT_TIMEOUT_SECS
                    } else {
                        envelope.timeout_secs as u64
                    },
                }
            } else {
                DispatchPlan::Rejected(IntakeError::UnknownCommandType(envelope.command_type))
            },
        }),
{
    match seen.get(envelope.command_id.as_str()) {
        Some(r) => DispatchPlan::Cached(r),
        None => {
            if handler_registered {
                DispatchPlan::Run { timeout_secs: effective_timeout_secs(envelope.timeout_secs) }
            } else {
                DispatchPlan::Rejected(
                    IntakeError::UnknownCommandType(envelope.command_type.clone()),
                )
            }
        },
    }
}

/// What can happen while a handler runs.
pub enum DispatchEvent {
    /// The handler reported progress.
    Progress(CommandProgress),
    /// The handler finished with this outcome.
    HandlerDone(CommandOutcome),
    /// The command's timeout, counted from its start, ran out.
    DeadlinePassed,
}

/// What the intake does about a `DispatchEvent`.
pub enum DispatchAction {
    /// Pass this (stamped) progress on to the peer.
    Forward(CommandProgress),
    /// The command is over: answer with this response.
    Respond(CommandResponse),
    /// The command is abandoned with this error.
    GiveUp(IntakeError),
}

/// `a` and the remembered responses `after` are what one step of command
/// `id` gives for `event`, `elapsed_ms` after its start, from `before`.
pub open spec fn dispatch_step_done(
    before: SeenView,
    after: SeenView,
    id: Seq<char>,
    event: DispatchEvent,
    elapsed_ms: i64,
    a: DispatchAction,
) -> bool {
    match event {
        DispatchEvent::Progress(p) => {
            &&& a matches DispatchAction::Forward(q) && q.command_id@ == id && q.stage == p.stage
                && q.message == p.message && q.percent == p.percent
            &&& after == before
        },
        DispatchEvent::HandlerDone(o) => {
            &&& a matches DispatchAction::Respond(r) && r.command_id@ == id && r.success
                == o.success && r.stdout == o.stdout && r.stderr == o.stderr && r.exit_code
                == o.exit_code && r.duration_ms == elapsed_ms && after == seen_insert(before, id, r)
        },
        DispatchEvent::DeadlinePassed => {
            &&& a == DispatchAction::GiveUp(IntakeError::Timeout)
            &&& after == before
        },
    }
}

/// One step of a running command `command_id`, `elapsed_ms` after its
/// start.  Progress is stamped with the command id and passed on; a finished
/// handler's outcome becomes the response, which is remembered for the id so
/// that a repeat gets it back; a passed deadline abandons the command with
/// `Timeout` and remembers nothing.
pub fn dispatch_step(
    seen: &mut SeenCommands,
    command_id: &str,
    event: DispatchEvent,
    elapsed_ms: i64,
) -> (a: DispatchAction)
    ensures
        dispatch_step_done(old(seen)@, final(seen)@, command_id@, event, elapsed_ms, a),
{
    match event {
        DispatchEvent::Progress(p) => DispatchAction::Forward(stamp_progress(p, command_id)),
        DispatchEvent::HandlerDone(o) => {
            let r = CommandResponse::from_outcome(String::from_str(command_id), o, elapsed_ms);
            seen.insert(String::from_str(command_id), r.clone());
            DispatchAction::Respond(r)
        },
        DispatchEvent::DeadlinePassed => DispatchAction::GiveUp(IntakeError::Timeout),
    }
}

/// A command whose handler is running.  Once it has answered or given up,
/// nothing more goes out for it: later events are ignored.
pub struct RunningCommand {
    command_id: String,
    finished: bool,
}

impl RunningCommand {
    /// The id of the running command.
    pub closed spec fn id(self) -> Seq<char> {
        self.command_id@
    }

    /// Whether the command has answered or given up.
    pub closed spec fn is_finished(self) -> bool {
        self.finished
    }

    pub fn start(command_id: &str) -> (r: Self)
        ensures
            r.id() == command_id@,
            !r.is_finished(),
    {
        RunningCommand { command_id: String::from_str(command_id), finished: false }
    }

    /// Handles `event`, `elapsed_ms` after the start.  Before the command
    /// finishes this is `dispatch_step`, and a finished handler or a passed
    /// deadline finishes it; after that every event gives `None` and changes
    /// nothing, so no progress follows the response.
    pub fn step(&mut self, seen: &mut SeenCommands, event: DispatchEvent, elapsed_ms: i64) -> (a:
        Option<DispatchAction>)
        ensures
            final(self).id() == old(self).id(),
            old(self).is_finished() ==> a is None && final(seen)@ == old(seen)@,
            old(self).is_finished() ==> final(self).is_finished(),
            !old(self).is_finished() ==> (a matches Some(x) && dispatch_step_done(
                old(seen)@,
                final(seen)@,
                old(self).id(),
                event,
                elapsed_ms,
                x,
            )) && final(self).is_finished() == !(event is Progress),
    {
        if self.finished {
            return None;
        }
        let finishes = match &event {
            DispatchEvent::Progress(_) => false,
            _ => true,
        };
        let a = dispatch_step(seen, self.command_id.as_str(), event, elapsed_ms);
        self.finished = finishes;
        Some(a)
    }
}

/// The remembered responses after inserting the responses `xs`, in order,
/// starting from `v`.
pub open spec fn seen_insert_all(v: SeenView, xs: SeenView) -> SeenView
    decreases xs.len(),
{
    if xs.len() == 0 {
        v
    } else {
        seen_insert(seen_insert_all(v, xs.drop_last()), xs.last().0, xs.last().1)
    }
}

/// How many of `n` entries in a row are forgotten: all but the newest
/// `SEEN_CAPACITY`.
pub open spec fn forgotten_count(n: int) -> int {
    if n > SEEN_CAPACITY {
        n - SEEN_CAPACITY
    } else {
        0
    }
}

/// Inserting ids never seen before keeps the newest `SEEN_CAPACITY`
/// entries of the old memory followed by the new ones, in insertion order.
proof fn lemma_insert_all_fresh(v: SeenView, xs: SeenView)
    requires
        ids_distinct(v + xs),
        v.len() <= SEEN_CAPACITY,
    ensures
        seen_insert_all(v, xs) == (v + xs).skip(forgotten_count((v.len() + xs.len()) as int)),
    decreases xs.len(),
{
    if xs.len() == 0 {
        assert(v + xs =~= v);
        assert((v + xs).skip(0) =~= v);
    } else {
        let d = xs.drop_last();
        let all = v + xs;
        let n = all.len();
        assert(v + d =~= all.take(n - 1));
        assert(ids_distinct(v + d)) by {
            assert forall|a: int, b: int| 0 <= a < b < (v + d).len() implies (v + d)[a].0 != (v
                + d)[b].0 by {
                assert((v + d)[a] == all[a] && (v + d)[b] == all[b]);
            }
        }
        lemma_insert_all_fresh(v, d);
        let k = forgotten_count(n - 1);
        let w = seen_insert_all(v, d);
        assert(w == (v + d).skip(k));
        let id = xs.last().0;
        let resp = xs.last().1;
        assert(all[n - 1] == (id, resp));
        lemma_lookup_found(w, id);
        assert forall|i: int| 0 <= i < w.len() implies w[i].0 != id by {
            assert(w[i] == all[i + k]);
        }
        assert(seen_lookup(w, id) is None);
        assert(w.push((id, resp)) =~= all.skip(k));
        if w.len() + 1 > SEEN_CAPACITY {
            assert(all.skip(k).drop_first() =~= all.skip(k + 1));
        }
    }
}

/// The memory holds the newest `SEEN_CAPACITY` distinct commands, oldest
/// first: after the responses `xs` of distinct command ids are inserted in
/// order into an empty memory, it is exactly the last
/// `min(|xs|, SEEN_CAPACITY)` of them, so each of those ids finds its own
/// response and every older id is forgotten.
pub proof fn lemma_seen_keeps_newest(xs: SeenView)
    requires
        ids_distinct(xs),
    ensures
        seen_insert_all(Seq::empty(), xs) == xs.skip(forgotten_count(xs.len() as int)),
        forall|j: int|
            forgotten_count(xs.len() as int) <= j < xs.len() ==> seen_lookup(
                seen_insert_all(Seq::empty(), xs),
                #[trigger] xs[j].0,
            ) == Some(xs[j].1),
        forall|j: int|
            0 <= j < forgotten_count(xs.len() as int) ==> seen_lookup(
                seen_insert_all(Seq::empty(), xs),
                #[trigger] xs[j].0,
            ) is None,
{
    let e = Seq::<(Seq<char>, CommandResponse)>::empty();
    assert(e + xs =~= xs);
    lemma_insert_all_fresh(e, xs);
    let k = forgotten_count(xs.len() as int);
    let w = xs.skip(k);
    assert(ids_distinct(w)) by {
        assert forall|a: int, b: int| 0 <= a < b < w.len() implies w[a].0 != w[b].0 by {
            assert(w[a] == xs[a + k] && w[b] == xs[b + k]);
        }
    }
    assert forall|j: int| k <= j < xs.len() implies seen_lookup(
        seen_insert_all(e, xs),
        #[trigger] xs[j].0,
    ) == Some(xs[j].1) by {
        lemma_lookup_found(w, xs[j].0);
        assert(w[j - k] == xs[j]);
    }
    assert forall|j: int| 0 <= j < k implies seen_lookup(
        seen_insert_all(e, xs),
        #[trigger] xs[j].0,
    ) is None by {
        lemma_lookup_found(w, xs[j].0);
        assert forall|i: int| 0 <= i < w.len() implies w[i].0 != xs[j].0 by {
            assert(w[i] == xs[i + k]);
        }
    }
}

/// A finished handler's outcome is the response, as it came back, and it
/// is what the command id answers from then on: the response carries the
/// outcome's `success`, `stdout`, `stderr` and `exit_code`, the command id
/// and the elapsed time, and looking the id up afterwards finds it.
pub proof fn lemma_finished_command_answers_outcome(
    before: SeenView,
    after: SeenView,
    id: Seq<char>,
    outcome: CommandOutcome,
    elapsed_ms: i64,
    a: DispatchAction,
)
    requires
        dispatch_step_done(before, after, id, DispatchEvent::HandlerDone(outcome), elapsed_ms, a),
        ids_distinct(before),
        before.len() <= SEEN_CAPACITY,
    ensures
        a matches DispatchAction::Respond(r) && r.command_id@ == id && r.success == outcome.success
            && r.stdout == outcome.stdout && r.stderr == outcome.stderr && r.exit_code
            == outcome.exit_code && r.duration_ms == elapsed_ms && seen_lookup(after, id) == Some(r),
{
    if let DispatchAction::Respond(r) = a {
        lemma_seen_insert_then_lookup(before, id, r);
    }
}

/// `\\.\pipe\sb-agent-cmd-<agent>`: the intake's named pipe on Windows.
pub fn default_socket_path(agent_name: &str) -> (p: String)
    ensures
        p@ == "\\\\.\\pipe\\sb-agent-cmd-"@ + agent_name@,
{
    let head = chars_of("\\\\.\\pipe\\sb-agent-cmd-");
    let name = chars_of(agent_name);
    let all = concat_chars(&head, &name);
    string_of(&all)
}

/// `<agent>-cmd.sock`: the intake socket's file name on Unix.
pub fn socket_file_name(agent_name: &str) -> (p: String)
    ensures
        p@ == agent_name@ + "-cmd.sock"@,
{
    let name = chars_of(agent_name);
    let tail = chars_of("-cmd.sock");
    let all = concat_chars(&name, &tail);
    string_of(&all)
}

} // verus!
