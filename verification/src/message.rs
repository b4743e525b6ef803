//! The protocol's data model: peer devices and the wire message union.

use vstd::prelude::*;
use vstd::utf8::encode_utf8;

verus! {

/// Connection status of a known peer device.
#[derive(Clone, Copy, PartialEq, Eq, Structural, Debug)]
pub enum Status {
    Discovered,
    Paired,
    Disconnected,
}

/// One known peer: identity plus pairing state. The address acts as the
/// unique key within a discovery session; `paired` is redundant with
/// `status` but is checked independently by callers, so the registry
/// keeps the two in step (`paired <==> status is Paired`).
#[derive(Clone, Debug)]
pub struct Device {
    pub name: String,
    pub address: String,
    pub port: u16,
    pub status: Status,
    pub paired: bool,
}

/// Mathematical image of a `Device`.
#[verifier::ext_equal]
pub struct DeviceView {
    pub name: Seq<char>,
    pub address: Seq<char>,
    pub port: u16,
    pub status: Status,
    pub paired: bool,
}

impl View for Device {
    type V = DeviceView;

    open spec fn view(&self) -> DeviceView {
        DeviceView {
            name: self.name@,
            address: self.address@,
            port: self.port,
            status: self.status,
            paired: self.paired,
        }
    }
}

/// The invariant every device held by the registry satisfies.
pub open spec fn device_wf(d: DeviceView) -> bool {
    d.paired <==> d.status is Paired
}

/// The wire protocol: a closed tagged union, one message per connection.
#[derive(Debug)]
pub enum Message {
    Discovery { name: String, port: u16 },
    PairRequest { pin: u32 },
    PairConfirm { pin: u32 },
    FileTransfer { filename: String, data: Vec<u8> },
    ClipboardShare { content: String },
    ChatMessage { from: String, content: String },
    Disconnect,
}

/// Mathematical image of a `Message`.
#[verifier::ext_equal]
pub enum MessageView {
    Discovery { name: Seq<char>, port: u16 },
    PairRequest { pin: u32 },
    PairConfirm { pin: u32 },
    FileTransfer { filename: Seq<char>, data: Seq<u8> },
    ClipboardShare { content: Seq<char> },
    ChatMessage { from: Seq<char>, content: Seq<char> },
    Disconnect,
}

impl View for Message {
    type V = MessageView;

    open spec fn view(&self) -> MessageView {
        match self {
            Message::Discovery { name, port } => MessageView::Discovery { name: name@, port: *port },
            Message::PairRequest { pin } => MessageView::PairRequest { pin: *pin },
            Message::PairConfirm { pin } => MessageView::PairConfirm { pin: *pin },
            Message::FileTransfer { filename, data } => MessageView::FileTransfer {
                filename: filename@,
                data: data@,
            },
            Message::ClipboardShare { content } => MessageView::ClipboardShare { content: content@ },
            Message::ChatMessage { from, content } => MessageView::ChatMessage {
                from: from@,
                content: content@,
            },
            Message::Disconnect => MessageView::Disconnect,
        }
    }
}

impl PartialEq for Device {
    fn eq(&self, other: &Device) -> (r: bool) {
        let r = self.name.eq(&other.name) && self.address.eq(&other.address) && self.port
            == other.port && self.status == other.status && self.paired == other.paired;
        proof {
            if r {
                assert(self@ =~= other@);
            }
        }
        r
    }
}

impl vstd::std_specs::cmp::PartialEqSpecImpl for Device {
    open spec fn obeys_eq_spec() -> bool {
        true
    }

    open spec fn eq_spec(&self, other: &Device) -> bool {
        self@ == other@
    }
}

impl Eq for Device {

}

impl PartialEq for Message {
    fn eq(&self, other: &Message) -> (r: bool) {
        let r = match (self, other) {
            (
                Message::Discovery { name: n1, port: p1 },
                Message::Discovery { name: n2, port: p2 },
            ) => n1.eq(n2) && p1 == p2,
            (Message::PairRequest { pin: a }, Message::PairRequest { pin: b }) => a == b,
            (Message::PairConfirm { pin: a }, Message::PairConfirm { pin: b }) => a == b,
            (
                Message::FileTransfer { filename: f1, data: d1 },
                Message::FileTransfer { filename: f2, data: d2 },
            ) => f1.eq(f2) && bytes_eq(d1, d2),
            (
                Message::ClipboardShare { content: c1 },
                Message::ClipboardShare { content: c2 },
            ) => c1.eq(c2),
            (
                Message::ChatMessage { from: f1, content: c1 },
                Message::ChatMessage { from: f2, content: c2 },
            ) => f1.eq(f2) && c1.eq(c2),
            (Message::Disconnect, Message::Disconnect) => true,
            _ => false,
        };
        proof {
            if r {
                assert(self@ =~= other@);
            }
        }
        r
    }
}

impl vstd::std_specs::cmp::PartialEqSpecImpl for Message {
    open spec fn obeys_eq_spec() -> bool {
        true
    }

    open spec fn eq_spec(&self, other: &Message) -> bool {
        self@ == other@
    }
}

impl Eq for Message {

}

/// Whether two byte arrays hold the same bytes.
fn bytes_eq(a: &Vec<u8>, b: &Vec<u8>) -> (r: bool)
    ensures
        r == (a@ == b@),
{
    if a.len() != b.len() {
        return false;
    }
    let n = a.len();
    let mut k: usize = 0;
    while k < n
        invariant
            n == a@.len() == b@.len(),
            k <= n,
            forall|i: int| 0 <= i < k ==> a@[i] == b@[i],
        decreases n - k,
    {
        if a[k] != b[k] {
            return false;
        }
        k = k + 1;
    }
    proof {
        assert(a@ =~= b@);
    }
    true
}

/// Smallest value a pairing PIN may take.
pub const PIN_MIN: u32 = 1000;

/// One past the largest value a pairing PIN may take: PINs are four-digit
/// integers drawn from `[1000, 9999)`.
pub const PIN_END: u32 = 9999;

/// Largest byte length the wire format can carry for one string or one
/// byte-array field: the length prefix is a little-endian `u32`.
pub const FIELD_MAX: u32 = 0xFFFF_FFFFu32;

/// A message the protocol considers valid: pairing PINs are four-digit
/// integers, and every variable-length field fits behind a `u32` length
/// prefix on the wire.
pub open spec fn wf_message(m: MessageView) -> bool {
    match m {
        MessageView::Discovery { name, port } => encode_utf8(name).len() <= FIELD_MAX,
        MessageView::PairRequest { pin } => PIN_MIN <= pin < PIN_END,
        MessageView::PairConfirm { pin } => PIN_MIN <= pin < PIN_END,
        MessageView::FileTransfer { filename, data } => encode_utf8(filename).len() <= FIELD_MAX
            && data.len() <= FIELD_MAX,
        MessageView::ClipboardShare { content } => encode_utf8(content).len() <= FIELD_MAX,
        MessageView::ChatMessage { from, content } => encode_utf8(from).len() <= FIELD_MAX
            && encode_utf8(content).len() <= FIELD_MAX,
        MessageView::Disconnect => true,
    }
}

} // verus!
