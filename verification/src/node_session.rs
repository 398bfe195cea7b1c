//! The server's side of a node's WebSocket connection: what each message a
//! node sends leads to, and the bounded log kept for each node.
use vstd::prelude::*;
use crate::text::{join, owned, push_joined, push_signed_decimal, push_str, signed_decimal, string_from, views};

verus! {

/// What the server knows of one connection.
pub struct NodeSession {
    pub node_id: Option<i32>,
    pub authenticated: bool,
}

/// A message from a node, reduced to what the server decides on. Figures
/// the server only stores (playback position, load) travel beside it.
pub enum NodeEvent {
    /// The node's credentials were checked: its id, or why they were refused.
    AuthChecked(Result<i32, String>),
    Heartbeat { errors: Vec<String> },
    RequestSchedule,
    ReportPaths,
    ContentError,
    Log,
    Screenshot,
}

/// What the server does in answer.
pub enum SessionAction {
    /// Answer the authentication.
    AuthResponse { success: bool, message: String, node_id: Option<i32> },
    /// Record the connection as node `0`'s.
    Register(i32),
    /// Store the heartbeat of node `id`, with its errors joined (none when empty).
    StoreStatus { id: i32, errors: Option<String> },
    HeartbeatAck,
    /// Tell the node its schedule changed.
    ScheduleUpdated,
    StorePaths(i32),
    ReportContentError,
    AppendLog(i32),
    SaveScreenshot(i32),
}

/// The errors of a heartbeat as stored: none, or joined by "; ".
pub open spec fn error_text(errors: Seq<Seq<char>>) -> Option<Seq<char>> {
    if errors.len() == 0 { None } else { Some(join(errors, "; "@)) }
}

/// How a connection's state changes on an event.
pub open spec fn session_after(s: NodeSession, e: NodeEvent) -> NodeSession {
    match e {
        NodeEvent::AuthChecked(Ok(id)) => NodeSession { node_id: Some(id), authenticated: true },
        _ => s,
    }
}

/// The actions for an event, in order, as a shape: which variant each is and
/// which node it concerns.
pub open spec fn actions_ok(s: NodeSession, e: NodeEvent, acts: Seq<SessionAction>) -> bool {
    match e {
        NodeEvent::AuthChecked(Ok(id)) => {
            &&& acts.len() == 2
            &&& acts[0] matches SessionAction::AuthResponse { success, message, node_id } && success
                && message@ == "Authenticated successfully"@ && node_id == Some(id)
            &&& acts[1] == SessionAction::Register(id)
        },
        NodeEvent::AuthChecked(Err(m)) => {
            &&& acts.len() == 1
            &&& acts[0] matches SessionAction::AuthResponse { success, message, node_id } && !success
                && message@ == m@ && node_id is None
        },
        NodeEvent::Heartbeat { errors } => if s.authenticated && s.node_id is Some {
            &&& acts.len() == 2
            &&& acts[0] matches SessionAction::StoreStatus { id, errors: text } && id == s.node_id->0
                && crate::tts::opt_view(text) == error_text(views(errors@))
            &&& acts[1] is HeartbeatAck
        } else {
            acts.len() == 0
        },
        NodeEvent::RequestSchedule => if s.authenticated && s.node_id is Some {
            acts.len() == 1 && acts[0] is ScheduleUpdated
        } else {
            acts.len() == 0
        },
        NodeEvent::ReportPaths => if s.authenticated && s.node_id is Some {
            acts.len() == 1 && acts[0] == SessionAction::StorePaths(s.node_id->0)
        } else {
            acts.len() == 0
        },
        NodeEvent::ContentError => if s.authenticated {
            acts.len() == 1 && acts[0] is ReportContentError
        } else {
            acts.len() == 0
        },
        NodeEvent::Log => if s.authenticated && s.node_id is Some {
            acts.len() == 1 && acts[0] == SessionAction::AppendLog(s.node_id->0)
        } else {
            acts.len() == 0
        },
        NodeEvent::Screenshot => if s.authenticated && s.node_id is Some {
            acts.len() == 1 && acts[0] == SessionAction::SaveScreenshot(s.node_id->0)
        } else {
            acts.len() == 0
        },
    }
}

impl NodeSession {
    pub fn new() -> (r: Self)
        ensures
            r.node_id is None,
            !r.authenticated,
    {
        NodeSession { node_id: None, authenticated: false }
    }

    /// Handles one event from the node: updates the connection's state and
    /// says what to do. Messages before a successful authentication are ignored.
    pub fn handle(&mut self, event: NodeEvent) -> (acts: Vec<SessionAction>)
        ensures
            *final(self) == session_after(*old(self), event),
            actions_ok(*old(self), event, acts@),
    {
        let mut acts: Vec<SessionAction> = Vec::new();
        match event {
            NodeEvent::AuthChecked(Ok(id)) => {
                self.node_id = Some(id);
                self.authenticated = true;
                acts.push(SessionAction::AuthResponse {
                    success: true,
                    message: owned("Authenticated successfully"),
                    node_id: Some(id),
                });
                acts.push(SessionAction::Register(id));
            },
            NodeEvent::AuthChecked(Err(m)) => {
                acts.push(SessionAction::AuthResponse { success: false, message: m, node_id: None });
            },
            NodeEvent::Heartbeat { errors } => {
                if self.authenticated {
                    match self.node_id {
                        Some(id) => {
                            let text = if errors.len() == 0 {
                                None
                            } else {
                                let mut out: Vec<char> = Vec::new();
                                push_joined(&mut out, errors.as_slice(), "; ");
                                Some(string_from(out.as_slice()))
                            };
                            acts.push(SessionAction::StoreStatus { id, errors: text });
                            acts.push(SessionAction::HeartbeatAck);
                        },
                        None => {},
                    }
                }
            },
            NodeEvent::RequestSchedule => {
                if self.authenticated && self.node_id.is_some() {
                    acts.push(SessionAction::ScheduleUpdated);
                }
            },
            NodeEvent::ReportPaths => {
                if self.authenticated {
                    match self.node_id {
                        Some(id) => acts.push(SessionAction::StorePaths(id)),
                        None => {},
                    }
                }
            },
            NodeEvent::ContentError => {
                if self.authenticated {
                    acts.push(SessionAction::ReportContentError);
                }
            },
            NodeEvent::Log => {
                if self.authenticated {
                    match self.node_id {
                        Some(id) => acts.push(SessionAction::AppendLog(id)),
                        None => {},
                    }
                }
            },
            NodeEvent::Screenshot => {
                if self.authenticated {
                    match self.node_id {
                        Some(id) => acts.push(SessionAction::SaveScreenshot(id)),
                        None => {},
                    }
                }
            },
        }
        acts
    }
}

/// Where a node's screenshot is saved: under the UI directory (`static`
/// when none is configured).
pub fn screenshot_path(ui_path: Option<&str>, node_id: i32) -> (r: String)
    ensures
        r@ == (match ui_path {
            Some(u) => u@,
            None => "static"@,
        }) + "/screenshots/node_"@ + signed_decimal(node_id as int) + ".jpg"@,
{
    let mut out: Vec<char> = Vec::new();
    match ui_path {
        Some(u) => push_str(&mut out, u),
        None => push_str(&mut out, "static"),
    }
    push_str(&mut out, "/screenshots/node_");
    push_signed_decimal(&mut out, node_id as i64);
    push_str(&mut out, ".jpg");
    string_from(out.as_slice())
}

/// One log line a node sent.
pub struct LogEntry {
    pub level: String,
    pub message: String,
    pub target: String,
    pub timestamp: String,
}

/// How many log lines are kept per node.
pub const LOG_CAPACITY: usize = 100;

/// A node's log queue after one more line: the oldest line goes once the
/// queue is full.
pub open spec fn log_after(q: Seq<LogEntry>, e: LogEntry) -> Seq<LogEntry> {
    if q.len() >= LOG_CAPACITY { q.drop_first().push(e) } else { q.push(e) }
}

/// The recent log lines of one node.
pub struct NodeLog {
    node: i32,
    entries: Vec<LogEntry>,
}

impl NodeLog {
    pub closed spec fn lines(&self) -> Seq<LogEntry> {
        self.entries@
    }

    pub closed spec fn owner(&self) -> i32 {
        self.node
    }

    pub fn new(node_id: i32) -> (r: Self)
        ensures
            r.owner() == node_id,
            r.lines().len() == 0,
    {
        NodeLog { node: node_id, entries: Vec::new() }
    }

    /// The node whose lines these are.
    pub fn node_id(&self) -> (r: i32)
        ensures
            r == self.owner(),
    {
        self.node
    }

    /// Appends a line, dropping the oldest one when the queue is full.
    pub fn push(&mut self, e: LogEntry)
        ensures
            final(self).lines() == log_after(old(self).lines(), e),
            final(self).owner() == old(self).owner(),
    {
        if self.entries.len() >= LOG_CAPACITY {
            self.entries.remove(0);
        }
        self.entries.push(e);
        proof {
            if old(self).entries@.len() >= LOG_CAPACITY {
                assert(self.entries@ =~= old(self).entries@.drop_first().push(e));
            }
        }
    }

    /// The lines kept, oldest first.
    pub fn entries(&self) -> (r: &Vec<LogEntry>)
        ensures
            r@ == self.lines(),
    {
        &self.entries
    }
}

/// A node's log never holds more than `LOG_CAPACITY` lines: from any queue
/// within the bound, appending a line keeps it within the bound.
pub proof fn lemma_log_bounded(q: Seq<LogEntry>, e: LogEntry)
    requires
        q.len() <= LOG_CAPACITY,
    ensures
        log_after(q, e).len() <= LOG_CAPACITY,
        log_after(q, e).last() == e,
{
}

} // verus!
