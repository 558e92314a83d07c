//! The live danmaku connection's decisions, apart from the websocket: which
//! host to connect to, when the connection counts as established, and what
//! is reported when it ends. The application runs the socket and reports
//! each event.

use vstd::prelude::*;
use crate::text;

verus! {

broadcast use vstd::string::group_string_axioms;

/// The wait after every host has failed, before trying them all again.
pub const RECONNECT_PAUSE_MS: u64 = 2000;

/// The state of the connection.
#[derive(Debug, Clone, Copy, PartialEq, Eq, Structural)]
pub enum ConnectionStatus {
    Connecting,
    Connected,
    Failed,
}

/// What the connection loop reports.
#[derive(Debug, Clone, PartialEq, Eq)]
pub enum ConnectionEvent {
    /// The authentication reply arrived with this code.
    AuthReply(i32),
    /// The server closed the connection.
    Closed,
    /// The connection failed with this error.
    Failed(String),
    /// The pause after a round of failures is over.
    PauseOver,
    /// The client asked to disconnect.
    Shutdown,
}

/// What the connection loop does next.
#[derive(Debug, Clone, Copy, PartialEq, Eq, Structural)]
pub enum ConnectionAction {
    /// Nothing new.
    Continue,
    /// Connect to the host at this index and authenticate.
    Connect(usize),
    /// Wait this many milliseconds, then report `PauseOver`.
    Pause(u64),
    /// Stop for good.
    Stop,
}

/// The hosts of a room's danmaku servers, the one in use, the state, and the
/// last error not yet taken.
pub struct LiveConnection {
    urls: Vec<String>,
    current: usize,
    status: ConnectionStatus,
    last_error: Option<String>,
}

pub struct ConnectionModel {
    pub urls: Seq<Seq<char>>,
    pub current: int,
    pub status: ConnectionStatus,
    pub last_error: Option<Seq<char>>,
}

impl View for LiveConnection {
    type V = ConnectionModel;

    closed spec fn view(&self) -> ConnectionModel {
        ConnectionModel {
            urls: self.urls@.map_values(|u: String| u@),
            current: self.current as int,
            status: self.status,
            last_error: match self.last_error {
                Some(e) => Some(e@),
                None => None,
            },
        }
    }
}

/// The error recorded when the connection to `url` ends: a close by the
/// server, a failure, or a refused authentication.
pub open spec fn ended_error(url: Seq<char>, event: ConnectionEvent) -> Seq<char> {
    match event {
        ConnectionEvent::Closed => "live connection closed: "@ + url,
        ConnectionEvent::Failed(e) => "live connection failed for "@ + url + ": "@ + e@,
        ConnectionEvent::AuthReply(code) => "live connection failed for "@ + url + ": "@
            + "live authentication failed: "@ + text::signed_decimal(code as int),
        _ => seq![],
    }
}

/// The connection after the one to the current host ended: the next host,
/// or a pause after the last one.
pub open spec fn after_end(m: ConnectionModel, event: ConnectionEvent) -> (ConnectionModel, ConnectionAction) {
    let failed = ConnectionModel {
        status: ConnectionStatus::Failed,
        last_error: Some(ended_error(m.urls[m.current], event)),
        ..m
    };
    if m.current + 1 < m.urls.len() {
        (ConnectionModel { current: m.current + 1, status: ConnectionStatus::Connecting, ..failed },
            ConnectionAction::Connect((m.current + 1) as usize))
    } else {
        (failed, ConnectionAction::Pause(RECONNECT_PAUSE_MS))
    }
}

/// The connection step.
pub open spec fn connection_step_spec(m: ConnectionModel, event: ConnectionEvent) -> (ConnectionModel, ConnectionAction) {
    match event {
        ConnectionEvent::AuthReply(code) => if code == 0 {
            (ConnectionModel { status: ConnectionStatus::Connected, ..m }, ConnectionAction::Continue)
        } else {
            after_end(m, event)
        },
        ConnectionEvent::Closed => after_end(m, event),
        ConnectionEvent::Failed(_) => after_end(m, event),
        ConnectionEvent::PauseOver => (ConnectionModel { current: 0, status: ConnectionStatus::Connecting, ..m },
            ConnectionAction::Connect(0)),
        ConnectionEvent::Shutdown => (m, ConnectionAction::Stop),
    }
}

pub open spec fn connection_inv(m: ConnectionModel) -> bool {
    m.urls.len() > 0 && 0 <= m.current < m.urls.len() && m.urls.len() <= usize::MAX
}

impl LiveConnection {
    #[verifier::type_invariant]
    closed spec fn inv(self) -> bool {
        self.urls@.len() > 0 && self.current < self.urls@.len()
    }

    /// A connection over `urls`, about to connect to the first; `None`
    /// when there is no host.
    pub fn start(urls: Vec<String>) -> (res: Option<(LiveConnection, ConnectionAction)>)
        ensures
            match res {
                Some((c, a)) => urls@.len() > 0 && c@.urls == urls@.map_values(|u: String| u@) && c@.current == 0
                    && c@.status == ConnectionStatus::Connecting && c@.last_error is None
                    && a == ConnectionAction::Connect(0),
                None => urls@.len() == 0,
            },
    {
        if urls.len() == 0 {
            return None;
        }
        Some((LiveConnection { urls, current: 0, status: ConnectionStatus::Connecting, last_error: None },
            ConnectionAction::Connect(0)))
    }

    /// The host at `index`.
    pub fn url(&self, index: usize) -> (res: &str)
        requires
            index < self@.urls.len(),
        ensures
            res@ == self@.urls[index as int],
    {
        &self.urls[index]
    }

    /// Whether the connection is established.
    pub fn is_connected(&self) -> (res: bool)
        ensures
            res == (self@.status == ConnectionStatus::Connected),
    {
        self.status == ConnectionStatus::Connected
    }

    /// The last error, which is then cleared; the connection keeps trying.
    pub fn take_error(&mut self) -> (res: Option<String>)
        ensures
            match res {
                Some(e) => old(self)@.last_error == Some(e@),
                None => old(self)@.last_error is None,
            },
            final(self)@ == (ConnectionModel { last_error: None, ..old(self)@ }),
    {
        proof { use_type_invariant(&*self); }
        let mut taken: Option<String> = None;
        std::mem::swap(&mut taken, &mut self.last_error);
        taken
    }

    fn ended(&mut self, event: ConnectionEvent) -> (action: ConnectionAction)
        requires
            !(event is PauseOver || event is Shutdown),
        ensures
            (final(self)@, action) == after_end(old(self)@, event),
    {
        proof { use_type_invariant(&*self); }
        let has_next = self.current < self.urls.len() - 1;
        let url = self.urls[self.current].as_str();
        let mut error = match &event {
            ConnectionEvent::Closed => text::to_owned_string("live connection closed: "),
            _ => text::to_owned_string("live connection failed for "),
        };
        text::push_str(&mut error, url);
        match &event {
            ConnectionEvent::Failed(e) => {
                text::push_str(&mut error, ": ");
                text::push_str(&mut error, e.as_str());
            },
            ConnectionEvent::AuthReply(code) => {
                text::push_str(&mut error, ": ");
                text::push_str(&mut error, "live authentication failed: ");
                text::push_signed_decimal(&mut error, *code as i64);
            },
            _ => {},
        }
        assert(self.urls@.map_values(|u: String| u@)[self.current as int] == self.urls@[self.current as int]@);
        self.status = ConnectionStatus::Failed;
        self.last_error = Some(error);
        if has_next {
            self.current = self.current + 1;
            self.status = ConnectionStatus::Connecting;
            ConnectionAction::Connect(self.current)
        } else {
            ConnectionAction::Pause(RECONNECT_PAUSE_MS)
        }
    }

    /// Decides what follows `event`.
    pub fn step(&mut self, event: ConnectionEvent) -> (action: ConnectionAction)
        ensures
            (final(self)@, action) == connection_step_spec(old(self)@, event),
            connection_inv(final(self)@),
    {
        proof { use_type_invariant(&*self); }
        let action = match event {
            ConnectionEvent::AuthReply(code) => {
                if code == 0 {
                    self.status = ConnectionStatus::Connected;
                    ConnectionAction::Continue
                } else {
                    self.ended(ConnectionEvent::AuthReply(code))
                }
            },
            ConnectionEvent::Closed => self.ended(ConnectionEvent::Closed),
            ConnectionEvent::Failed(e) => self.ended(ConnectionEvent::Failed(e)),
            ConnectionEvent::PauseOver => {
                self.current = 0;
                self.status = ConnectionStatus::Connecting;
                ConnectionAction::Connect(0)
            },
            ConnectionEvent::Shutdown => ConnectionAction::Stop,
        };
        proof { use_type_invariant(&*self); }
        let n = self.urls.len();
        assert(n == self@.urls.len());
        action
    }
}

/// The hosts are tried in order, each once per round; a round that fails
/// on every host ends in a pause, after which the first is tried again.
/// The connection counts as established only on an authentication reply
/// with code 0.
pub proof fn lemma_hosts_in_rounds(m: ConnectionModel, event: ConnectionEvent)
    requires
        connection_inv(m),
    ensures
        connection_step_spec(m, event).1 matches ConnectionAction::Connect(i) ==> (i == m.current + 1
            || (i == 0 && event is PauseOver)),
        connection_step_spec(m, event).1 matches ConnectionAction::Pause(_) ==> m.current == m.urls.len() - 1,
        connection_step_spec(m, event).0.status == ConnectionStatus::Connected ==> (m.status
            == ConnectionStatus::Connected && !(event is Closed || event is Failed || event is AuthReply
            || event is PauseOver)) || event == ConnectionEvent::AuthReply(0),
{
}

} // verus!
