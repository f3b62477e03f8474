//! WebTransport: the output of a component as datagrams.
//!
//! A connection is searched for a request that opens a session
//! ([`handle_connection`]). A session runs one component ([`handle_session`]) and
//! sends what it prints ([`session_step`]).

use vstd::prelude::*;

use crate::server::{state_preopens, Received, Workload};
use crate::text::same_text;

verus! {

/// How connections are kept.
#[derive(Clone, Copy, PartialEq, Eq, Structural, Debug)]
pub struct TransportSettings {
    /// Seconds between two signs of life.
    pub keep_alive_secs: u64,
    /// Seconds after which a silent connection is closed.
    pub max_idle_secs: u64,
    /// How many sessions a connection may hold.
    pub max_sessions: u64,
}

/// How connections are kept: they outlive several lost signs of life, and hold
/// one session each.
pub fn transport_settings() -> (s: TransportSettings)
    ensures
        s.keep_alive_secs == 2,
        s.max_idle_secs == 30,
        s.max_sessions == 1,
{
    TransportSettings { keep_alive_secs: 2, max_idle_secs: 30, max_sessions: 1 }
}

/// What a connection has given.
pub enum Accepted {
    /// A request with this method and, if it has one, this protocol.
    Request { method: String, protocol: Option<String> },
    /// The client has closed the connection.
    Closed,
    /// The connection failed.
    Failed { error: String },
}

/// What is done with a connection.
pub enum ConnectionStep {
    /// Accept the session that the request asks for, serve it, and end.
    Serve,
    /// Look at the next request.
    Next,
    /// End, with an error if there is one.
    End { result: Result<(), String> },
}

/// Whether a request asks for a session.
pub open spec fn opens_session(method: Seq<char>, protocol: Option<Seq<char>>) -> bool {
    method == "CONNECT"@ && protocol == Some("webtransport"@)
}

/// What is done with a connection: the first request that asks for a session is
/// served, other requests are passed over.
pub fn handle_connection(accepted: Accepted) -> (step: ConnectionStep)
    ensures
        match accepted {
            Accepted::Request { method, protocol } => {
                let asks = method@ == "CONNECT"@ && protocol is Some && protocol->0@
                    == "webtransport"@;
                &&& asks ==> step is Serve
                &&& !asks ==> step is Next
            },
            _ => step is End,
        },
        match accepted {
            Accepted::Request { method, protocol } => if opens_session(
                method@,
                protocol.deep_view(),
            ) {
                step is Serve
            } else {
                step is Next
            },
            Accepted::Closed => step matches ConnectionStep::End { result } && result is Ok,
            Accepted::Failed { error } => step matches ConnectionStep::End { result }
                && result matches Err(e) && e@ == error@,
        },
{
    match accepted {
        Accepted::Request { method, protocol } => {
            let session = match &protocol {
                Some(p) => same_text(p.as_str(), "webtransport"),
                None => false,
            };
            if session && same_text(method.as_str(), "CONNECT") {
                ConnectionStep::Serve
            } else {
                ConnectionStep::Next
            }
        },
        Accepted::Closed => ConnectionStep::End { result: Ok(()) },
        Accepted::Failed { error } => ConnectionStep::End { result: Err(error) },
    }
}

/// What a session runs: the shell, flooding the client with packets of 64 bytes.
pub fn handle_session(state_dir: std::path::PathBuf, wasm_bytes: Vec<u8>) -> (w: Workload)
    ensures
        w.wasm_bytes@ == wasm_bytes@,
        w.args.deep_view() == seq!["wasi-shell"@, "flood"@, "64"@],
        w.env_vars@.len() == 0,
        w.allow_network,
        w.sees_only_state(state_dir),
        w.preopens@.len() == 1,
        w.preopens@[0].host_path == state_dir,
        w.preopens@[0].guest_path@ == "/state"@,
{
    let mut args: Vec<String> = Vec::new();
    args.push("wasi-shell".to_string());
    args.push("flood".to_string());
    args.push("64".to_string());
    assert(args.deep_view() =~= seq!["wasi-shell"@, "flood"@, "64"@]);
    Workload {
        wasm_bytes,
        args,
        env_vars: Vec::new(),
        allow_network: true,
        preopens: state_preopens(state_dir),
    }
}

/// What a session does next.
pub enum SessionStep {
    /// Send a datagram, and report to [`session_sent`].
    Send { datagram: Vec<u8> },
    /// Let others run, and wait again.
    Wait,
    /// End the session.
    Stop,
}

/// What a session does with what was received: it becomes a datagram as it is.
pub fn session_step(received: Received) -> (step: SessionStep)
    ensures
        match received {
            Received::Data { bytes } => step matches SessionStep::Send { datagram } && datagram@
                == bytes@,
            Received::Timeout => step is Wait,
            Received::Disconnected => step is Stop,
        },
{
    match received {
        Received::Data { bytes } => SessionStep::Send { datagram: bytes },
        Received::Timeout => SessionStep::Wait,
        Received::Disconnected => SessionStep::Stop,
    }
}

/// What a session does after it has tried to send a datagram: it goes on, unless
/// the client is gone.
pub fn session_sent(sent: Result<(), String>) -> (step: SessionStep)
    ensures
        sent is Ok ==> step is Wait,
        sent is Err ==> step is Stop,
{
    match sent {
        Ok(()) => SessionStep::Wait,
        Err(_) => SessionStep::Stop,
    }
}

// ---- laws ----

/// A request opens a session exactly if it is a `CONNECT` for WebTransport: any
/// other method, any other protocol and no protocol at all are passed over.
pub proof fn law_only_webtransport_opens_a_session(method: Seq<char>, protocol: Option<Seq<char>>)
    ensures
        opens_session(method, protocol) <==> method == "CONNECT"@ && protocol is Some && protocol->0
            == "webtransport"@,
{
}

} // verus!
