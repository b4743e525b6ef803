//! The protocol engine: one node's state and its transitions.
//!
//! The engine owns the device registry, the chat log, and the node's own
//! identity. Each entry point takes the plain values an embedding
//! supplies — the byte body of one datagram or connection together with
//! its source address — and returns what that embedding must do next:
//! bytes to write back, a file to persist, text to display, and which
//! views changed. The embedding runs the sockets and the tasks; it
//! serializes calls into one engine (the registry's mutual-exclusion
//! domain), performs the returned actions, and nothing more.

use vstd::prelude::*;
use vstd::string::StringExecFns;
use vstd::utf8::encode_utf8;
use crate::message::{Message, MessageView, Status, FIELD_MAX, PIN_MIN, PIN_END};
use crate::codec::{encode, decode, spec_encode, spec_decode};
use crate::registry::{
    Registry,
    RegistryView,
    registry_wf,
    contains_address,
    spec_upsert,
    spec_set_status,
    spec_record_paired,
};

verus! {

/// The well-known port both listeners bind by default: UDP for
/// discovery, TCP for the message protocol.
pub const DEFAULT_PORT: u16 = 1716;

/// Mathematical image of a node.
#[verifier::ext_equal]
pub struct NodeView {
    pub registry: RegistryView,
    pub log: Seq<Seq<char>>,
    pub self_name: Seq<char>,
    pub self_address: Seq<char>,
    pub tcp_port: u16,
    pub discovery_port: u16,
}

/// One node of the protocol: its registry, its chat log, and its own
/// identity as announced to the subnet.
pub struct Node {
    pub registry: Registry,
    log: Vec<String>,
    self_name: String,
    self_address: String,
    tcp_port: u16,
    discovery_port: u16,
}

impl View for Node {
    type V = NodeView;

    closed spec fn view(&self) -> NodeView {
        NodeView {
            registry: self.registry@,
            log: self.log@.map_values(|s: String| s@),
            self_name: self.self_name@,
            self_address: self.self_address@,
            tcp_port: self.tcp_port,
            discovery_port: self.discovery_port,
        }
    }
}

/// A node's invariant: its registry is well formed and its name fits a
/// wire field.
pub open spec fn node_wf(n: NodeView) -> bool {
    &&& registry_wf(n.registry)
    &&& encode_utf8(n.self_name).len() <= FIELD_MAX
}

/// The chat-log line recorded for one incoming chat message.
pub open spec fn chat_log_entry(from: Seq<char>, content: Seq<char>) -> Seq<char> {
    "From "@ + from + ": "@ + content
}

/// A file received over the wire, to be persisted by the embedding.
pub struct IncomingFile {
    pub filename: String,
    pub data: Vec<u8>,
}

/// What one inbound connection asks of the embedding: a reply to write
/// back on the same connection, a file to save, a line of status text to
/// show, and which views (device list, chat log) now differ.
pub struct ConnectionOutcome {
    pub reply: Option<Vec<u8>>,
    pub file: Option<IncomingFile>,
    pub status_text: Option<String>,
    pub devices_changed: bool,
    pub messages_changed: bool,
}

/// How one inbound connection transforms the registry: a pair request
/// records and marks the peer paired, a pair confirm marks it paired, a
/// disconnect marks it disconnected, and everything else — content
/// messages, stray discovery, undecodable bytes — leaves it untouched.
pub open spec fn spec_connection_registry(
    r: RegistryView,
    data: Seq<u8>,
    remote: Seq<char>,
) -> RegistryView {
    match spec_decode(data) {
        Some(MessageView::PairRequest { pin }) => spec_set_status(
            spec_record_paired(r, remote),
            remote,
            Status::Paired,
            true,
        ),
        Some(MessageView::PairConfirm { pin }) => spec_set_status(r, remote, Status::Paired, true),
        Some(MessageView::Disconnect) => spec_set_status(r, remote, Status::Disconnected, false),
        _ => r,
    }
}

/// How one inbound connection extends the chat log: exactly one line per
/// chat message, nothing otherwise.
pub open spec fn spec_connection_log(log: Seq<Seq<char>>, data: Seq<u8>) -> Seq<Seq<char>> {
    match spec_decode(data) {
        Some(MessageView::ChatMessage { from, content }) => log.push(chat_log_entry(from, content)),
        _ => log,
    }
}

impl Node {
    /// A fresh node with an empty registry and log. The name is this
    /// machine's display name (announced to peers); the address is its
    /// own IP, used to ignore its own broadcasts.
    pub fn new(
        self_name: String,
        self_address: String,
        tcp_port: u16,
        discovery_port: u16,
    ) -> (r: Node)
        requires
            encode_utf8(self_name@).len() <= FIELD_MAX,
        ensures
            node_wf(r@),
            r@.registry.devices == Seq::<crate::message::DeviceView>::empty(),
            r@.registry.paired == Seq::<Seq<char>>::empty(),
            r@.log == Seq::<Seq<char>>::empty(),
            r@.self_name == self_name@,
            r@.self_address == self_address@,
            r@.tcp_port == tcp_port,
            r@.discovery_port == discovery_port,
    {
        let r = Node {
            registry: Registry::new(),
            log: Vec::new(),
            self_name: self_name,
            self_address: self_address,
            tcp_port: tcp_port,
            discovery_port: discovery_port,
        };
        proof {
            assert(r@.log =~= Seq::<Seq<char>>::empty());
        }
        r
    }

    /// The discovery datagram this node broadcasts: its name and the TCP
    /// port it listens on.
    pub fn announcement(&self) -> (r: Vec<u8>)
        requires
            node_wf(self@),
        ensures
            r@ == spec_encode(
                MessageView::Discovery { name: self@.self_name, port: self@.tcp_port },
            ),
    {
        encode(&Message::Discovery { name: self.self_name.clone(), port: self.tcp_port })
    }

    /// Ingests one discovery datagram. A decodable `Discovery` whose
    /// source is another node enters the registry (first seen wins); a
    /// datagram from this node's own address, any other message kind,
    /// and undecodable bytes are all ignored. Returns whether the device
    /// list changed.
    pub fn handle_datagram(&mut self, data: &[u8], source_address: &String) -> (changed: bool)
        requires
            node_wf(old(self)@),
        ensures
            node_wf(final(self)@),
            final(self)@ == (NodeView { registry: final(self)@.registry, ..old(self)@ }),
            final(self)@.registry == (match spec_decode(data@) {
                Some(MessageView::Discovery { name, port }) => (if source_address@
                    != old(self)@.self_address {
                    spec_upsert(old(self)@.registry, name, source_address@, port)
                } else {
                    old(self)@.registry
                }),
                _ => old(self)@.registry,
            }),
            changed == (match spec_decode(data@) {
                Some(MessageView::Discovery { name, port }) => source_address@
                    != old(self)@.self_address && !contains_address(
                    old(self)@.registry.devices,
                    source_address@,
                ),
                _ => false,
            }),
    {
        match decode(data) {
            Ok(Message::Discovery { name, port }) => {
                if !source_address.eq(&self.self_address) {
                    let existed = self.registry.has_address(source_address);
                    self.registry.upsert_discovered(name, source_address.clone(), port);
                    !existed
                } else {
                    false
                }
            },
            _ => false,
        }
    }

    /// Handles the complete byte body of one inbound connection, one
    /// message per connection: a pair request is
    /// answered with a pair confirm echoing the same PIN and the peer
    /// becomes paired; a pair confirm marks the peer paired; a file, a
    /// clipboard share, and a chat message surface their content (the
    /// chat line joins the log); a disconnect marks the peer
    /// disconnected; anything undecodable changes nothing. The one
    /// message this node never acts on over TCP is `Discovery`.
    pub fn handle_connection(&mut self, data: &[u8], remote_address: &String) -> (out:
        ConnectionOutcome)
        requires
            node_wf(old(self)@),
        ensures
            node_wf(final(self)@),
            final(self)@ == (NodeView {
                registry: final(self)@.registry,
                log: final(self)@.log,
                ..old(self)@
            }),
            final(self)@.registry == spec_connection_registry(
                old(self)@.registry,
                data@,
                remote_address@,
            ),
            final(self)@.log == spec_connection_log(old(self)@.log, data@),
            (match spec_decode(data@) {
                Some(MessageView::PairRequest { pin }) => (out.reply matches Some(b) && b@
                    == spec_encode(MessageView::PairConfirm { pin })),
                _ => (out.reply is None),
            }),
            (match spec_decode(data@) {
                Some(MessageView::FileTransfer { filename, data: contents }) => (out.file matches
                    Some(f) && f.filename@ == filename && f.data@ == contents),
                _ => (out.file is None),
            }),
            (match spec_decode(data@) {
                Some(MessageView::FileTransfer { filename, data: contents }) => (out.status_text
                    matches Some(t) && t@ == "Received file: "@ + filename),
                Some(MessageView::ClipboardShare { content }) => (out.status_text matches Some(t)
                    && t@ == "Received clipboard: "@ + content),
                _ => (out.status_text is None),
            }),
            out.devices_changed == (match spec_decode(data@) {
                Some(MessageView::PairRequest { pin }) => true,
                Some(MessageView::PairConfirm { pin }) => true,
                Some(MessageView::Disconnect) => true,
                _ => false,
            }),
            out.messages_changed == (spec_decode(data@) matches Some(
                MessageView::ChatMessage { from, content },
            )),
    {
        match decode(data) {
            Ok(Message::PairRequest { pin }) => {
                let reply = encode(&Message::PairConfirm { pin });
                self.registry.record_paired(remote_address.clone());
                self.registry.set_status(remote_address, Status::Paired, true);
                ConnectionOutcome {
                    reply: Some(reply),
                    file: None,
                    status_text: None,
                    devices_changed: true,
                    messages_changed: false,
                }
            },
            Ok(Message::PairConfirm { pin }) => {
                self.registry.set_status(remote_address, Status::Paired, true);
                ConnectionOutcome {
                    reply: None,
                    file: None,
                    status_text: None,
                    devices_changed: true,
                    messages_changed: false,
                }
            },
            Ok(Message::FileTransfer { filename, data: contents }) => {
                let text = String::from_str("Received file: ").concat(filename.as_str());
                ConnectionOutcome {
                    reply: None,
                    file: Some(IncomingFile { filename: filename, data: contents }),
                    status_text: Some(text),
                    devices_changed: false,
                    messages_changed: false,
                }
            },
            Ok(Message::ClipboardShare { content }) => {
                let text = String::from_str("Received clipboard: ").concat(content.as_str());
                ConnectionOutcome {
                    reply: None,
                    file: None,
                    status_text: Some(text),
                    devices_changed: false,
                    messages_changed: false,
                }
            },
            Ok(Message::ChatMessage { from, content }) => {
                let entry = String::from_str("From ").concat(from.as_str()).concat(": ").concat(
                    content.as_str(),
                );
                self.log.push(entry);
                ConnectionOutcome {
                    reply: None,
                    file: None,
                    status_text: None,
                    devices_changed: false,
                    messages_changed: true,
                }
            },
            Ok(Message::Disconnect) => {
                self.registry.set_status(remote_address, Status::Disconnected, false);
                ConnectionOutcome {
                    reply: None,
                    file: None,
                    status_text: None,
                    devices_changed: true,
                    messages_changed: false,
                }
            },
            _ => ConnectionOutcome {
                reply: None,
                file: None,
                status_text: None,
                devices_changed: false,
                messages_changed: false,
            },
        }
    }

    /// Judges the reply that came back on a pairing connection this node
    /// opened. The peer becomes paired exactly when the reply is a
    /// `PairConfirm` carrying the very PIN that was sent; any other
    /// reply — a different PIN, another message kind, undecodable bytes —
    /// leaves the registry untouched. Returns whether pairing completed.
    pub fn handle_pair_reply(&mut self, reply: &[u8], device_address: &String, sent_pin: u32) -> (paired:
        bool)
        requires
            node_wf(old(self)@),
        ensures
            node_wf(final(self)@),
            final(self)@ == (NodeView { registry: final(self)@.registry, ..old(self)@ }),
            paired == (spec_decode(reply@) matches Some(MessageView::PairConfirm { pin }) && pin
                == sent_pin),
            paired ==> final(self)@.registry == spec_set_status(
                spec_record_paired(old(self)@.registry, device_address@),
                device_address@,
                Status::Paired,
                true,
            ),
            !paired ==> final(self)@.registry == old(self)@.registry,
    {
        match decode(reply) {
            Ok(Message::PairConfirm { pin }) => {
                if pin == sent_pin {
                    self.registry.record_paired(device_address.clone());
                    self.registry.set_status(device_address, Status::Paired, true);
                    true
                } else {
                    false
                }
            },
            _ => false,
        }
    }

    /// An ordered copy of the chat log.
    pub fn messages_snapshot(&self) -> (r: Vec<String>)
        ensures
            r@.len() == self@.log.len(),
            forall|i: int| 0 <= i < r@.len() ==> #[trigger] r@[i]@ == self@.log[i],
    {
        let n = self.log.len();
        let mut out: Vec<String> = Vec::new();
        let mut k: usize = 0;
        while k < n
            invariant
                n == self.log@.len(),
                k <= n,
                out@.len() == k,
                forall|i: int| 0 <= i < k ==> #[trigger] out@[i]@ == self@.log[i],
            decreases n - k,
        {
            out.push(self.log[k].clone());
            k = k + 1;
        }
        out
    }

    /// A fresh pairing attempt: a newly drawn four-digit PIN and the
    /// `PairRequest` bytes to send that carry it.
    pub fn new_pair_request() -> (r: (u32, Vec<u8>))
        ensures
            PIN_MIN <= r.0 < PIN_END,
            r.1@ == spec_encode(MessageView::PairRequest { pin: r.0 }),
    {
        let pin = fresh_pin();
        let bytes = encode(&Message::PairRequest { pin });
        (pin, bytes)
    }
}

/// Relies on rand: `thread_rng().gen_range(PIN_MIN..PIN_END)` returns a
/// value drawn uniformly from that half-open range.
#[verifier::external_body]
fn fresh_pin() -> (pin: u32)
    ensures
        PIN_MIN <= pin < PIN_END,
{
    rand::Rng::gen_range(&mut rand::thread_rng(), PIN_MIN..PIN_END)
}

} // verus!
