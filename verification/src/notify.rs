//! The connection to the server's notification socket: at most one runs.
use vstd::prelude::*;

verus! {

/// The notification connection: where it connects and whether it runs.
pub struct Connection {
    pub ws_url: String,
    running: bool,
}

/// What starting the connection asks of the runtime.
pub enum StartAction {
    /// It runs already; nothing is started.
    AlreadyRunning,
    /// Spawn the connecting task for this url.
    Spawn(String),
}

/// What stopping the connection asks of the runtime.
#[derive(PartialEq, Eq, Structural)]
pub enum StopAction {
    /// It does not run; nothing is stopped.
    NotRunning,
    /// Report it disconnected and abort the connecting task.
    Abort,
}

impl Connection {
    /// Whether the connecting task runs.
    pub closed spec fn is_running(&self) -> bool {
        self.running
    }

    /// The url the connection connects to.
    pub closed spec fn url(&self) -> Seq<char> {
        self.ws_url@
    }

    /// A connection to `ws_url` that does not run yet.
    pub fn new(ws_url: String) -> (c: Connection)
        ensures
            !c.is_running(),
            c.url() == ws_url@,
    {
        Connection { ws_url, running: false }
    }

    /// Starts the connection unless it runs already.
    pub fn start(&mut self) -> (a: StartAction)
        ensures
            final(self).is_running(),
            final(self).url() == old(self).url(),
            old(self).is_running() ==> a is AlreadyRunning,
            !old(self).is_running() ==> (a matches StartAction::Spawn(u) && u@ == old(self).url()),
    {
        if self.running {
            StartAction::AlreadyRunning
        } else {
            self.running = true;
            StartAction::Spawn(self.ws_url.clone())
        }
    }

    /// Stops the connection if it runs.
    pub fn stop(&mut self) -> (a: StopAction)
        ensures
            !final(self).is_running(),
            final(self).url() == old(self).url(),
            a == if old(self).is_running() { StopAction::Abort } else { StopAction::NotRunning },
    {
        if self.running {
            self.running = false;
            StopAction::Abort
        } else {
            StopAction::NotRunning
        }
    }
}

} // verus!
