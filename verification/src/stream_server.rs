//! The state that a running gRPC echo server keeps: the handle that asks the
//! serving task to shut down, and the handle on which that task reports how
//! serving ended. The handles themselves are channel ends; this type only
//! decides when each is recorded.
use vstd::prelude::*;

verus! {

/// Why an operation on the server failed.
#[derive(Debug)]
pub struct ServerError {
    pub message: String,
}

/// A gRPC echo server's shutdown and serving-state handles, each present once
/// the server has been started.
#[derive(Debug)]
pub struct StreamEchoServer<Tx, Rx> {
    shutdown_tx: Option<Tx>,
    serve_state: Option<Rx>,
}

impl<Tx, Rx> StreamEchoServer<Tx, Rx> {
    /// The recorded shutdown handle.
    pub closed spec fn shutdown_handle(&self) -> Option<Tx> {
        self.shutdown_tx
    }

    /// The recorded serving-state handle.
    pub closed spec fn serve_state_handle(&self) -> Option<Rx> {
        self.serve_state
    }

    /// A server that has not been started: neither handle is recorded.
    pub fn new() -> (s: Self)
        ensures
            s.shutdown_handle() is None,
            s.serve_state_handle() is None,
    {
        StreamEchoServer { shutdown_tx: None, serve_state: None }
    }

    /// Shutting down asks nothing of the server and always succeeds.
    pub fn shutdown(&self) -> (r: Result<(), ServerError>)
        ensures
            r is Ok,
    {
        Ok(())
    }

    /// Records the handle that will ask the serving task to stop, replacing
    /// any handle recorded before; the serving-state handle is kept.
    pub fn record_shutdown_handle(&mut self, tx: Tx)
        ensures
            final(self).shutdown_handle() == Some(tx),
            final(self).serve_state_handle() == old(self).serve_state_handle(),
    {
        self.shutdown_tx = Some(tx);
    }

    /// Records the handle on which the serving task reports how serving
    /// ended, replacing any handle recorded before; the shutdown handle is
    /// kept.
    pub fn record_serve_state(&mut self, rx: Rx)
        ensures
            final(self).serve_state_handle() == Some(rx),
            final(self).shutdown_handle() == old(self).shutdown_handle(),
    {
        self.serve_state = Some(rx);
    }

    /// Whether a shutdown handle has been recorded.
    pub fn has_shutdown_handle(&self) -> (r: bool)
        ensures
            r == self.shutdown_handle() is Some,
    {
        self.shutdown_tx.is_some()
    }

    /// Whether a serving-state handle has been recorded.
    pub fn has_serve_state(&self) -> (r: bool)
        ensures
            r == self.serve_state_handle() is Some,
    {
        self.serve_state.is_some()
    }
}

} // verus!
