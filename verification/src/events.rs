//! The event plane: typed events delivered to front-ends, the
//! bounded poll queue used by embeddings, and the flat record form
//! that JSON front-ends emit.

use vstd::prelude::*;

verus! {

/// Which kind of session an embedding starts.
#[derive(Debug, Clone, Copy, PartialEq, Eq, Structural)]
pub enum TransferMode {
    SendWait,
    SendToTicket,
    ReceiveFromTarget,
    ReceiveListen,
}

/// How the connection currently reaches the peer.
#[derive(Debug, Clone)]
pub enum ConnectionPathKind {
    Direct(String),
    Relay(String),
    Mixed { udp_addr: String, relay_url: String },
    NoPath,
}

/// The terminal success report.
#[derive(Debug, Clone)]
pub struct TransferCompleted {
    pub file_name: String,
    pub size_bytes: u64,
    pub saved_path: Option<String>,
}

/// One event of a running session.
#[derive(Debug, Clone)]
pub enum TransferEvent {
    Status(String),
    Ticket(String),
    QrPayload(String),
    HandshakeCode(String),
    Progress { done: u64, total: u64 },
    ConnectionPath { kind: ConnectionPathKind, latency_ms: Option<u64> },
    Completed(TransferCompleted),
    Error { code: String, message: String },
}

/// A consumer of transfer events; front-ends implement it.
pub trait TransferEventSink {
    fn on_event(&self, event: TransferEvent);
}

// ─── The embedding queue ────────────────────────────────────────────

/// The event queue an embedding polls: strictly first-in, first-out.
pub struct EventQueue {
    items: Vec<TransferEvent>,
}

impl EventQueue {
    /// The queued events, oldest first.
    pub closed spec fn items(&self) -> Seq<TransferEvent> {
        self.items@
    }

    /// An empty queue.
    pub fn new() -> (r: EventQueue)
        ensures
            r.items() == Seq::<TransferEvent>::empty(),
    {
        EventQueue { items: Vec::new() }
    }

    /// Appends one event.
    pub fn push_event(&mut self, event: TransferEvent)
        ensures
            final(self).items() == old(self).items().push(event),
    {
        self.items.push(event);
    }

    /// Takes the oldest event, if any.
    pub fn poll_event(&mut self) -> (r: Option<TransferEvent>)
        ensures
            match r {
                Some(e) => {
                    &&& old(self).items().len() > 0
                    &&& e == old(self).items().first()
                    &&& final(self).items() == old(self).items().drop_first()
                },
                None => old(self).items().len() == 0 && final(self).items() == old(self).items(),
            },
    {
        if self.items.len() == 0 {
            return None;
        }
        let e = self.items.remove(0);
        proof {
            assert(final(self).items() =~= old(self).items().drop_first());
        }
        Some(e)
    }

    /// How many events are queued.
    pub fn len(&self) -> (r: usize)
        ensures
            r == self.items().len(),
    {
        self.items.len()
    }
}

// ─── The flat record form ───────────────────────────────────────────

/// One transfer event flattened for line-oriented emission.
#[derive(Debug, Clone)]
pub struct TransferEventRecord {
    pub kind: String,
    pub message: Option<String>,
    pub value: Option<String>,
    pub schema_version: String,
    pub done: Option<u64>,
    pub total: Option<u64>,
    pub file_name: Option<String>,
    pub size_bytes: Option<u64>,
    pub saved_path: Option<String>,
    pub latency_ms: Option<u64>,
}

/// The view of an optional string.
pub open spec fn opt_view(o: Option<String>) -> Option<Seq<char>> {
    match o {
        Some(s) => Some(s@),
        None => None,
    }
}

/// Flattens one event into its record form: the kind names the
/// variant, and each variant fills exactly its own fields.
pub fn map_event(event: TransferEvent) -> (r: TransferEventRecord)
    ensures
        r.schema_version@ == "1.0.0"@,
        match event {
            TransferEvent::Status(m) => r.kind@ == "status"@ && opt_view(r.message) == Some(m@)
                && r.value is None && r.done is None && r.total is None && r.file_name is None
                && r.size_bytes is None && r.saved_path is None && r.latency_ms is None,
            TransferEvent::Ticket(t) => r.kind@ == "ticket"@ && opt_view(r.value) == Some(t@)
                && r.message is None,
            TransferEvent::QrPayload(p) => r.kind@ == "qr_payload"@ && opt_view(r.value) == Some(
                p@,
            ) && r.message is None,
            TransferEvent::HandshakeCode(c) => r.kind@ == "handshake_code"@ && opt_view(r.value)
                == Some(c@) && r.message is None,
            TransferEvent::Progress { done, total } => r.kind@ == "progress"@ && r.done == Some(
                done,
            ) && r.total == Some(total) && r.message is None && r.value is None,
            TransferEvent::ConnectionPath { kind, latency_ms } => r.kind@ == "connection_path"@
                && r.latency_ms == latency_ms && match kind {
                ConnectionPathKind::Direct(addr) => opt_view(r.value) == Some("direct"@)
                    && opt_view(r.message) == Some(addr@),
                ConnectionPathKind::Relay(url) => opt_view(r.value) == Some("relay"@) && opt_view(
                    r.message,
                ) == Some(url@),
                ConnectionPathKind::Mixed { udp_addr, relay_url } => opt_view(r.value) == Some(
                    "mixed"@,
                ) && opt_view(r.message) == Some(
                    "udp: "@ + udp_addr@ + ", relay: "@ + relay_url@,
                ),
                ConnectionPathKind::NoPath => opt_view(r.value) == Some("none"@)
                    && r.message is None,
            },
            TransferEvent::Completed(c) => r.kind@ == "completed"@ && opt_view(r.file_name)
                == Some(c.file_name@) && r.size_bytes == Some(c.size_bytes) && opt_view(
                r.saved_path,
            ) == opt_view(c.saved_path) && r.message is None && r.value is None,
            TransferEvent::Error { code, message } => r.kind@ == "error"@ && opt_view(r.value)
                == Some(code@) && opt_view(r.message) == Some(message@),
        },
{
    let base = TransferEventRecord {
        kind: new_string(""),
        message: None,
        value: None,
        schema_version: new_string("1.0.0"),
        done: None,
        total: None,
        file_name: None,
        size_bytes: None,
        saved_path: None,
        latency_ms: None,
    };
    match event {
        TransferEvent::Status(m) => TransferEventRecord {
            kind: new_string("status"),
            message: Some(m),
            ..base
        },
        TransferEvent::Ticket(t) => TransferEventRecord {
            kind: new_string("ticket"),
            value: Some(t),
            ..base
        },
        TransferEvent::QrPayload(p) => TransferEventRecord {
            kind: new_string("qr_payload"),
            value: Some(p),
            ..base
        },
        TransferEvent::HandshakeCode(c) => TransferEventRecord {
            kind: new_string("handshake_code"),
            value: Some(c),
            ..base
        },
        TransferEvent::Progress { done, total } => TransferEventRecord {
            kind: new_string("progress"),
            done: Some(done),
            total: Some(total),
            ..base
        },
        TransferEvent::ConnectionPath { kind, latency_ms } => {
            match kind {
                ConnectionPathKind::Direct(addr) => TransferEventRecord {
                    kind: new_string("connection_path"),
                    value: Some(new_string("direct")),
                    message: Some(addr),
                    latency_ms,
                    ..base
                },
                ConnectionPathKind::Relay(url) => TransferEventRecord {
                    kind: new_string("connection_path"),
                    value: Some(new_string("relay")),
                    message: Some(url),
                    latency_ms,
                    ..base
                },
                ConnectionPathKind::Mixed { udp_addr, relay_url } => {
                    let mut msg: Vec<char> = Vec::new();
                    crate::json::push_lit(&mut msg, "udp: ");
                    let ua = crate::strings::chars_of(udp_addr.as_str());
                    push_all(&mut msg, &ua);
                    crate::json::push_lit(&mut msg, ", relay: ");
                    let ru = crate::strings::chars_of(relay_url.as_str());
                    push_all(&mut msg, &ru);
                    proof {
                        assert(msg@ =~= "udp: "@ + udp_addr@ + ", relay: "@ + relay_url@);
                    }
                    TransferEventRecord {
                        kind: new_string("connection_path"),
                        value: Some(new_string("mixed")),
                        message: Some(crate::strings::string_of(&msg)),
                        latency_ms,
                        ..base
                    }
                },
                ConnectionPathKind::NoPath => TransferEventRecord {
                    kind: new_string("connection_path"),
                    value: Some(new_string("none")),
                    latency_ms,
                    ..base
                },
            }
        },
        TransferEvent::Completed(c) => TransferEventRecord {
            kind: new_string("completed"),
            file_name: Some(c.file_name),
            size_bytes: Some(c.size_bytes),
            saved_path: c.saved_path,
            ..base
        },
        TransferEvent::Error { code, message } => TransferEventRecord {
            kind: new_string("error"),
            value: Some(code),
            message: Some(message),
            ..base
        },
    }
}

/// A fresh string with the characters of `s`.
fn new_string(s: &str) -> (r: String)
    ensures
        r@ == s@,
{
    s.to_owned()
}

/// Appends all characters of `src` to `out`.
fn push_all(out: &mut Vec<char>, src: &Vec<char>)
    ensures
        final(out)@ == old(out)@ + src@,
{
    let mut i: usize = 0;
    while i < src.len()
        invariant
            i <= src@.len(),
            out@ =~= old(out)@ + src@.take(i as int),
        decreases src@.len() - i,
    {
        out.push(src[i]);
        proof {
            assert(src@.take(i as int + 1) =~= src@.take(i as int) + seq![src@[i as int]]);
        }
        i = i + 1;
    }
    proof {
        assert(src@.take(src@.len() as int) =~= src@);
        assert(out@ =~= old(out)@ + src@);
    }
}

/// The guidance shown when `receive` is invoked with neither a
/// target nor listen mode.
pub fn missing_target_error() -> (r: String)
    ensures
        r@
            == "either provide a <TARGET> ticket/address, or use --qr to listen.\n\nExamples:\n  p2p-share receive p2psh:XXXXX        # connect to a sender\n  p2p-share receive --qr               # wait for a sender (shows QR)"@,
{
    new_string(
        "either provide a <TARGET> ticket/address, or use --qr to listen.\n\nExamples:\n  p2p-share receive p2psh:XXXXX        # connect to a sender\n  p2p-share receive --qr               # wait for a sender (shows QR)",
    )
}

} // verus!
