//! A viewer window as a client of the manager: what it reports, and which port
//! it tries next when serving fails.
use crate::manager::{MANAGER_PORT, RvcdManagedInfo, RvcdRpcMessage, RvcdSignalPath};
use std::sync::mpsc::Sender;
use vstd::prelude::*;

verus! {

/// The sending side of a std channel, carried as it is.
#[verifier::external_type_specification]
#[verifier::external_body]
#[verifier::reject_recursive_types(T)]
pub struct ExSender<T>(Sender<T>);

/// Number of ports after the manager's that clients try.
pub const CLIENT_PORTS: u16 = 1024;

/// Calls `std::sync::mpsc::Sender::send`; tells whether the message was
/// handed to the channel. Whether it is depends on the receiving side, so
/// nothing is promised of the result.
#[verifier::external_body]
fn send_message(tx: &Sender<RvcdRpcMessage>, msg: RvcdRpcMessage) -> (sent: bool) {
    tx.send(msg).is_ok()
}

/// What a client reports to the manager.
#[derive(Debug)]
pub struct RvcdManagedClientData {
    pub port: u16,
    pub paths: Vec<String>,
    pub wave_file: String,
}

impl Default for RvcdManagedClientData {
    fn default() -> (d: Self)
        ensures
            d.port == MANAGER_PORT + 1,
            d.paths@.len() == 0,
            d.wave_file@.len() == 0,
    {
        RvcdManagedClientData { port: MANAGER_PORT + 1, paths: Vec::new(), wave_file: String::new() }
    }
}

/// A client: its report, whether it is stopping, and where requests for its
/// window go.
pub struct RvcdManagedClient {
    pub data: RvcdManagedClientData,
    pub stop: bool,
    pub tx: Option<Sender<RvcdRpcMessage>>,
}

impl Default for RvcdManagedClient {
    fn default() -> (c: Self)
        ensures
            c.data.port == MANAGER_PORT + 1,
            c.data.paths@.len() == 0,
            c.data.wave_file@.len() == 0,
            !c.stop,
            c.tx is None,
    {
        RvcdManagedClient { data: RvcdManagedClientData::default(), stop: false, tx: None }
    }
}

impl RvcdManagedClient {
    /// The report of this client.
    pub fn info(&self) -> (r: RvcdManagedInfo)
        ensures
            r.client_port == self.data.port,
            r.paths@ == self.data.paths@,
            r.wave_file@ == self.data.wave_file@,
    {
        let mut paths: Vec<String> = Vec::new();
        let mut i: usize = 0;
        while i < self.data.paths.len()
            invariant
                i <= self.data.paths.len(),
                paths@ == self.data.paths@.take(i as int),
            decreases self.data.paths.len() - i,
        {
            paths.push(self.data.paths[i].clone());
            assert(paths@ =~= self.data.paths@.take(i + 1));
            i = i + 1;
        }
        assert(self.data.paths@.take(self.data.paths.len() as int) =~= self.data.paths@);
        RvcdManagedInfo {
            client_port: self.data.port as u32,
            paths,
            wave_file: self.data.wave_file.clone(),
        }
    }

    /// Whether a ping is answered; a stopping client ends its server instead.
    pub fn ping(&self) -> (answered: bool)
        ensures
            answered == !self.stop,
    {
        !self.stop
    }

    /// The request to show the signal at `path`.
    pub fn goto_message(path: RvcdSignalPath) -> (m: RvcdRpcMessage)
        ensures
            m == RvcdRpcMessage::GotoPath(path),
    {
        RvcdRpcMessage::GotoPath(path)
    }

    /// What is handed to the window for a request to show the signal at
    /// `path`: the request itself when a window listens, nothing otherwise.
    pub fn goto_request(&self, path: RvcdSignalPath) -> (m: Option<RvcdRpcMessage>)
        ensures
            m == if self.tx is Some {
                Some(RvcdRpcMessage::GotoPath(path))
            } else {
                None
            },
    {
        match &self.tx {
            Some(_) => Some(Self::goto_message(path)),
            None => None,
        }
    }

    /// Passes a request to show a signal on to the window, when one listens:
    /// the message sent is the one `goto_request` gives. Returns false when
    /// the message could not be handed over.
    pub fn goto_signal(&self, path: RvcdSignalPath) -> (sent: bool)
        ensures
            self.tx is None ==> sent,
    {
        match (&self.tx, self.goto_request(path)) {
            (Some(tx), Some(msg)) => send_message(tx, msg),
            _ => true,
        }
    }

    /// Replaces the reported source paths.
    pub fn set_paths(&mut self, paths: &[String])
        ensures
            final(self).data.paths@ == paths@,
            final(self).data.port == old(self).data.port,
            final(self).data.wave_file == old(self).data.wave_file,
            final(self).stop == old(self).stop,
            final(self).tx == old(self).tx,
    {
        self.data.paths.clear();
        let mut i: usize = 0;
        while i < paths.len()
            invariant
                i <= paths@.len(),
                self.data.paths@ == paths@.take(i as int),
                self.data.port == old(self).data.port,
                self.data.wave_file == old(self).data.wave_file,
                self.stop == old(self).stop,
                self.tx == old(self).tx,
            decreases paths.len() - i,
        {
            self.data.paths.push(paths[i].clone());
            assert(self.data.paths@ =~= paths@.take(i + 1));
            i = i + 1;
        }
        assert(paths@.take(paths@.len() as int) =~= paths@);
    }

    /// Sets where requests for the window go.
    pub fn set_tx(&mut self, tx: Sender<RvcdRpcMessage>)
        ensures
            final(self).tx == Some(tx),
            final(self).data == old(self).data,
            final(self).stop == old(self).stop,
    {
        self.tx = Some(tx);
    }

    /// Serving on the current port ended; `served_ok` tells whether the server
    /// ended cleanly. Unless it did or the client is stopping, the next port is
    /// taken. Returns whether to serve again: a port was taken and ports are
    /// left.
    pub fn after_serve(&mut self, served_ok: bool) -> (again: bool)
        requires
            old(self).data.port < MANAGER_PORT + CLIENT_PORTS,
        ensures
            final(self).data.port == if !served_ok && !old(self).stop {
                old(self).data.port + 1
            } else {
                old(self).data.port as int
            },
            again == (!served_ok && !old(self).stop && final(self).data.port < MANAGER_PORT
                + CLIENT_PORTS),
            final(self).stop == old(self).stop,
            final(self).data.paths == old(self).data.paths,
            final(self).data.wave_file == old(self).data.wave_file,
    {
        if !served_ok && !self.stop {
            self.data.port = self.data.port + 1;
            self.data.port < MANAGER_PORT + CLIENT_PORTS
        } else {
            false
        }
    }

    /// Whether the client gave up for want of free ports.
    pub fn out_of_ports(&self) -> (r: bool)
        ensures
            r == (self.data.port >= MANAGER_PORT + CLIENT_PORTS),
    {
        self.data.port >= MANAGER_PORT + CLIENT_PORTS
    }
}

} // verus!
