//! STOMP frames: commands, headers, and the wire rendering.

use vstd::prelude::*;
use crate::crypto::str_octets;
use crate::utils::{dec_str_of, dec_string, push_char};

verus! {

/// A STOMP frame command.
#[derive(Clone, Copy, Debug, PartialEq, Eq, Structural)]
pub enum Command {
    Send,
    Subscribe,
    Unsubscribe,
    Begin,
    Commit,
    Abort,
    Ack,
    Nack,
    Disconnect,
    Connect,
    Stomp,
    Connected,
    Message,
    Receipt,
    Error,
}

/// The wire word of a command.
pub open spec fn command_str(c: Command) -> Seq<char> {
    match c {
        Command::Send => "SEND"@,
        Command::Subscribe => "SUBSCRIBE"@,
        Command::Unsubscribe => "UNSUBSCRIBE"@,
        Command::Begin => "BEGIN"@,
        Command::Commit => "COMMIT"@,
        Command::Abort => "ABORT"@,
        Command::Ack => "ACK"@,
        Command::Nack => "NACK"@,
        Command::Disconnect => "DISCONNECT"@,
        Command::Connect => "CONNECT"@,
        Command::Stomp => "STOMP"@,
        Command::Connected => "CONNECTED"@,
        Command::Message => "MESSAGE"@,
        Command::Receipt => "RECEIPT"@,
        Command::Error => "ERROR"@,
    }
}

impl Command {
    /// The wire word of this command.
    pub fn as_str(&self) -> (r: &'static str)
        ensures
            r@ == command_str(*self),
    {
        match *self {
            Command::Send => "SEND",
            Command::Subscribe => "SUBSCRIBE",
            Command::Unsubscribe => "UNSUBSCRIBE",
            Command::Begin => "BEGIN",
            Command::Commit => "COMMIT",
            Command::Abort => "ABORT",
            Command::Ack => "ACK",
            Command::Nack => "NACK",
            Command::Disconnect => "DISCONNECT",
            Command::Connect => "CONNECT",
            Command::Stomp => "STOMP",
            Command::Connected => "CONNECTED",
            Command::Message => "MESSAGE",
            Command::Receipt => "RECEIPT",
            Command::Error => "ERROR",
        }
    }
}

/// How a subscription acknowledges deliveries.
#[derive(Clone, Copy, Debug, PartialEq, Eq, Structural)]
pub enum AckMode {
    Auto,
    Client,
    ClientIndividual,
}

pub open spec fn ack_mode_str(m: AckMode) -> Seq<char> {
    match m {
        AckMode::Auto => "auto"@,
        AckMode::Client => "client"@,
        AckMode::ClientIndividual => "client-individual"@,
    }
}

impl AckMode {
    pub fn as_str(&self) -> (r: &'static str)
        ensures
            r@ == ack_mode_str(*self),
    {
        match *self {
            AckMode::Auto => "auto",
            AckMode::Client => "client",
            AckMode::ClientIndividual => "client-individual",
        }
    }
}

/// One frame header: a name and a value.
#[derive(Clone, Debug, PartialEq)]
pub struct Header {
    pub name: String,
    pub value: String,
}

impl Header {
    /// The raw header line, without the trailing newline.
    pub open spec fn spec_raw(&self) -> Seq<char> {
        self.name@ + seq![':'] + self.value@
    }

    pub fn new(name: &str, value: &str) -> (r: Header)
        ensures
            r.name@ == name@,
            r.value@ == value@,
    {
        Header { name: name.to_owned(), value: value.to_owned() }
    }

    /// Render the raw header line.
    pub fn get_raw(&self) -> (r: String)
        ensures
            r@ == self.spec_raw(),
    {
        let mut s = String::new();
        s.append(self.name.as_str());
        push_char(&mut s, ':');
        s.append(self.value.as_str());
        proof {
            assert(s@ =~= self.spec_raw());
        }
        s
    }
}

/// The value of the first header with a name, scanning front to back.
pub open spec fn header_lookup(hs: Seq<Header>, name: Seq<char>) -> Option<Seq<char>>
    decreases hs.len(),
{
    if hs.len() == 0 {
        None
    } else if hs[0].name@ == name {
        Some(hs[0].value@)
    } else {
        header_lookup(hs.skip(1), name)
    }
}

proof fn lemma_header_lookup_found(hs: Seq<Header>, name: Seq<char>, i: int)
    requires
        0 <= i < hs.len(),
        hs[i].name@ == name,
        forall|j: int| 0 <= j < i ==> (#[trigger] hs[j]).name@ != name,
    ensures
        header_lookup(hs, name) == Some(hs[i].value@),
    decreases hs.len(),
{
    if i > 0 {
        assert forall|j: int| 0 <= j < i - 1 implies (#[trigger] hs.skip(1)[j]).name@ != name by {
            assert(hs.skip(1)[j] == hs[j + 1]);
        }
        assert(hs.skip(1)[i - 1] == hs[i]);
        lemma_header_lookup_found(hs.skip(1), name, i - 1);
    }
}

proof fn lemma_header_lookup_absent(hs: Seq<Header>, name: Seq<char>)
    requires
        forall|j: int| 0 <= j < hs.len() ==> (#[trigger] hs[j]).name@ != name,
    ensures
        header_lookup(hs, name) is None,
    decreases hs.len(),
{
    if hs.len() > 0 {
        assert forall|j: int| 0 <= j < hs.len() - 1 implies (#[trigger] hs.skip(1)[j]).name@
            != name by {
            assert(hs.skip(1)[j] == hs[j + 1]);
        }
        lemma_header_lookup_absent(hs.skip(1), name);
    }
}

/// An ordered list of frame headers.
#[derive(Clone, Debug, PartialEq)]
pub struct HeaderList {
    pub items: Vec<Header>,
}

impl HeaderList {
    pub fn new() -> (r: HeaderList)
        ensures
            r.items@ =~= Seq::<Header>::empty(),
    {
        HeaderList { items: Vec::new() }
    }

    pub fn push(&mut self, h: Header)
        ensures
            final(self).items@ == old(self).items@.push(h),
    {
        self.items.push(h);
    }

    /// The value of the first header with this name.
    pub fn get(&self, name: &str) -> (r: Option<String>)
        ensures
            match r {
                Some(v) => header_lookup(self.items@, name@) == Some(v@),
                None => header_lookup(self.items@, name@) is None,
            },
    {
        let n = self.items.len();
        let mut i: usize = 0;
        while i < n
            invariant
                i <= n == self.items@.len(),
                forall|j: int| 0 <= j < i ==> (#[trigger] self.items@[j]).name@ != name@,
            decreases n - i,
        {
            if crate::utils::str_eq(self.items[i].name.as_str(), name) {
                proof {
                    lemma_header_lookup_found(self.items@, name@, i as int);
                }
                return Some(self.items[i].value.clone());
            }
            i += 1;
        }
        proof {
            lemma_header_lookup_absent(self.items@, name@);
        }
        None
    }
}

/// A STOMP frame: command, headers, body.
#[derive(Clone, Debug)]
pub struct Frame {
    pub command: Command,
    pub headers: HeaderList,
    pub body: Vec<u8>,
}

/// The wire bytes of one header line, trailing newline included.
pub open spec fn header_bytes(h: Header) -> Seq<u8> {
    str_octets(h.spec_raw()) + seq![10u8]
}

/// The wire bytes of a header list.
pub open spec fn headers_bytes(hs: Seq<Header>) -> Seq<u8>
    decreases hs.len(),
{
    if hs.len() == 0 {
        Seq::empty()
    } else {
        headers_bytes(hs.drop_last()) + header_bytes(hs.last())
    }
}

/// The wire bytes of a frame, without the terminating NUL.
pub open spec fn frame_bytes(f: Frame) -> Seq<u8> {
    str_octets(command_str(f.command)) + seq![10u8] + headers_bytes(f.headers.items@) + seq![10u8]
        + f.body@
}

/// The rendered length of every header-list prefix is bounded by the whole.
proof fn lemma_headers_bytes_prefix(hs: Seq<Header>, i: int)
    requires
        0 <= i <= hs.len(),
    ensures
        headers_bytes(hs.take(i)).len() <= headers_bytes(hs).len(),
    decreases hs.len() - i,
{
    if i < hs.len() {
        lemma_headers_bytes_prefix(hs, i + 1);
        assert(hs.take(i + 1).drop_last() =~= hs.take(i));
        assert(hs.take(i + 1).last() == hs[i]);
    } else {
        assert(hs.take(i) =~= hs);
    }
}

/// Append the UTF-8 bytes of a string to a byte vector.
fn extend_from_str(out: &mut Vec<u8>, s: &str)
    ensures
        final(out)@ == old(out)@ + str_octets(s@),
{
    let bs = s.as_bytes();
    let n = bs.len();
    let mut i: usize = 0;
    while i < n
        invariant
            i <= n == bs@.len(),
            bs@ == str_octets(s@),
            out@ =~= old(out)@ + bs@.take(i as int),
        decreases n - i,
    {
        let b = bs[i];
        out.push(b);
        i += 1;
    }
    proof {
        assert(bs@.take(n as int) =~= bs@);
        assert(out@ =~= old(out)@ + str_octets(s@));
    }
}

impl Frame {
    /// A frame with the given command and headers and an empty body.
    pub fn empty(command: Command, headers: HeaderList) -> (r: Frame)
        ensures
            r.command == command,
            r.headers == headers,
            r.body@ =~= Seq::<u8>::empty(),
    {
        Frame { command, headers, body: Vec::new() }
    }

    /// The space the rendered frame takes, without the terminating NUL.
    pub fn count_bytes(&self) -> (r: usize)
        requires
            frame_bytes(*self).len() <= usize::MAX,
        ensures
            r == frame_bytes(*self).len(),
    {
        let cmd = self.command.as_str();
        proof {
            lemma_headers_bytes_prefix(self.headers.items@, 0);
            assert(self.headers.items@.take(0) =~= Seq::<Header>::empty());
        }
        let mut space: usize = cmd.len() + 1;
        let n = self.headers.items.len();
        let mut i: usize = 0;
        while i < n
            invariant
                i <= n == self.headers.items@.len(),
                frame_bytes(*self).len() <= usize::MAX,
                space == str_octets(command_str(self.command)).len() + 1 + headers_bytes(
                    self.headers.items@.take(i as int),
                ).len(),
            decreases n - i,
        {
            proof {
                lemma_headers_bytes_prefix(self.headers.items@, i + 1);
                assert(self.headers.items@.take(i + 1 as int).drop_last() =~= self.headers.items@
                    .take(i as int));
                assert(self.headers.items@.take(i + 1 as int).last() == self.headers.items@[
                    i as int]);
            }
            let raw = self.headers.items[i].get_raw();
            space = space + raw.as_str().len() + 1;
            i += 1;
        }
        proof {
            assert(self.headers.items@.take(n as int) =~= self.headers.items@);
        }
        space = space + 1 + self.body.len();
        space
    }

    /// Render the frame onto a byte buffer: command line, header lines, a
    /// blank line, the body, and a terminating NUL.
    pub fn write(&self, out: &mut Vec<u8>)
        ensures
            final(out)@ == old(out)@ + frame_bytes(*self) + seq![0u8],
    {
        extend_from_str(out, self.command.as_str());
        out.push(10);
        let n = self.headers.items.len();
        let mut i: usize = 0;
        while i < n
            invariant
                i <= n == self.headers.items@.len(),
                out@ =~= old(out)@ + str_octets(command_str(self.command)) + seq![10u8]
                    + headers_bytes(self.headers.items@.take(i as int)),
            decreases n - i,
        {
            proof {
                assert(self.headers.items@.take(i + 1 as int).drop_last() =~= self.headers.items@
                    .take(i as int));
                assert(self.headers.items@.take(i + 1 as int).last() == self.headers.items@[
                    i as int]);
            }
            let raw = self.headers.items[i].get_raw();
            extend_from_str(out, raw.as_str());
            out.push(10);
            proof {
                assert(out@ =~= old(out)@ + str_octets(command_str(self.command)) + seq![10u8]
                    + headers_bytes(self.headers.items@.take(i + 1 as int)));
            }
            i += 1;
        }
        proof {
            assert(self.headers.items@.take(n as int) =~= self.headers.items@);
        }
        out.push(10);
        let m = self.body.len();
        let mut k: usize = 0;
        while k < m
            invariant
                k <= m == self.body@.len(),
                out@ =~= old(out)@ + str_octets(command_str(self.command)) + seq![10u8]
                    + headers_bytes(self.headers.items@) + seq![10u8] + self.body@.take(k as int),
            decreases m - k,
        {
            let b = self.body[k];
            out.push(b);
            k += 1;
        }
        out.push(0);
        proof {
            assert(self.body@.take(m as int) =~= self.body@);
            assert(out@ =~= old(out)@ + frame_bytes(*self) + seq![0u8]);
        }
    }

    /// The session-opening frame: protocol version, heartbeat, no body.
    pub fn connect(tx_heartbeat_ms: u32, rx_heartbeat_ms: u32) -> (r: Frame)
        ensures
            r.command == Command::Connect,
            r.body@ =~= Seq::<u8>::empty(),
            r.headers.items@.len() == 3,
            r.headers.items@[0].name@ == "accept-version"@ && r.headers.items@[0].value@
                == "1.2"@,
            r.headers.items@[1].name@ == "heart-beat"@ && r.headers.items@[1].value@ == dec_str_of(
                tx_heartbeat_ms as int,
            ) + seq![','] + dec_str_of(rx_heartbeat_ms as int),
            r.headers.items@[2].name@ == "content-length"@ && r.headers.items@[2].value@ == "0"@,
    {
        let mut heart_beat = dec_string(tx_heartbeat_ms as u64);
        push_char(&mut heart_beat, ',');
        let rx = dec_string(rx_heartbeat_ms as u64);
        heart_beat.append(rx.as_str());
        let mut headers = HeaderList::new();
        headers.push(Header::new("accept-version", "1.2"));
        headers.push(Header::new("heart-beat", heart_beat.as_str()));
        headers.push(Header::new("content-length", "0"));
        Frame::empty(Command::Connect, headers)
    }

    /// The session-closing frame.
    pub fn disconnect() -> (r: Frame)
        ensures
            r.command == Command::Disconnect,
            r.body@ =~= Seq::<u8>::empty(),
            r.headers.items@.len() == 1,
            r.headers.items@[0].name@ == "receipt"@ && r.headers.items@[0].value@
                == "msg/disconnect"@,
    {
        let mut headers = HeaderList::new();
        headers.push(Header::new("receipt", "msg/disconnect"));
        Frame::empty(Command::Disconnect, headers)
    }

    /// Open a subscription on a destination.
    pub fn subscribe(subscription_id: &str, destination: &str, ack_mode: AckMode) -> (r: Frame)
        ensures
            r.command == Command::Subscribe,
            r.body@ =~= Seq::<u8>::empty(),
            r.headers.items@.len() == 3,
            r.headers.items@[0].name@ == "destination"@ && r.headers.items@[0].value@
                == destination@,
            r.headers.items@[1].name@ == "id"@ && r.headers.items@[1].value@ == subscription_id@,
            r.headers.items@[2].name@ == "ack"@ && r.headers.items@[2].value@ == ack_mode_str(
                ack_mode,
            ),
    {
        let mut headers = HeaderList::new();
        headers.push(Header::new("destination", destination));
        headers.push(Header::new("id", subscription_id));
        headers.push(Header::new("ack", ack_mode.as_str()));
        Frame::empty(Command::Subscribe, headers)
    }

    /// Close a subscription.
    pub fn unsubscribe(subscription_id: &str) -> (r: Frame)
        ensures
            r.command == Command::Unsubscribe,
            r.body@ =~= Seq::<u8>::empty(),
            r.headers.items@.len() == 1,
            r.headers.items@[0].name@ == "id"@ && r.headers.items@[0].value@ == subscription_id@,
    {
        let mut headers = HeaderList::new();
        headers.push(Header::new("id", subscription_id));
        Frame::empty(Command::Unsubscribe, headers)
    }

    /// Acknowledge a delivery.
    pub fn ack(ack_id: &str) -> (r: Frame)
        ensures
            r.command == Command::Ack,
            r.body@ =~= Seq::<u8>::empty(),
            r.headers.items@.len() == 1,
            r.headers.items@[0].name@ == "id"@ && r.headers.items@[0].value@ == ack_id@,
    {
        let mut headers = HeaderList::new();
        headers.push(Header::new("id", ack_id));
        Frame::empty(Command::Ack, headers)
    }

    /// Reject a delivery.
    pub fn nack(message_id: &str) -> (r: Frame)
        ensures
            r.command == Command::Nack,
            r.body@ =~= Seq::<u8>::empty(),
            r.headers.items@.len() == 1,
            r.headers.items@[0].name@ == "id"@ && r.headers.items@[0].value@ == message_id@,
    {
        let mut headers = HeaderList::new();
        headers.push(Header::new("id", message_id));
        Frame::empty(Command::Nack, headers)
    }

    /// Send a message body to a destination.
    pub fn send(destination: &str, body: &[u8]) -> (r: Frame)
        ensures
            r.command == Command::Send,
            r.body@ == body@,
            r.headers.items@.len() == 2,
            r.headers.items@[0].name@ == "destination"@ && r.headers.items@[0].value@
                == destination@,
            r.headers.items@[1].name@ == "content-length"@ && r.headers.items@[1].value@
                == dec_str_of(body@.len() as int),
    {
        let mut headers = HeaderList::new();
        headers.push(Header::new("destination", destination));
        let len_str = dec_string(body.len() as u64);
        headers.push(Header::new("content-length", len_str.as_str()));
        Frame { command: Command::Send, headers, body: vstd::slice::slice_to_vec(body) }
    }

    /// Begin a transaction.
    pub fn begin(transaction_id: &str) -> (r: Frame)
        ensures
            r.command == Command::Begin,
            r.body@ =~= Seq::<u8>::empty(),
            r.headers.items@.len() == 1,
            r.headers.items@[0].name@ == "transaction"@ && r.headers.items@[0].value@
                == transaction_id@,
    {
        let mut headers = HeaderList::new();
        headers.push(Header::new("transaction", transaction_id));
        Frame::empty(Command::Begin, headers)
    }

    /// Abort a transaction.
    pub fn abort(transaction_id: &str) -> (r: Frame)
        ensures
            r.command == Command::Abort,
            r.body@ =~= Seq::<u8>::empty(),
            r.headers.items@.len() == 1,
            r.headers.items@[0].name@ == "transaction"@ && r.headers.items@[0].value@
                == transaction_id@,
    {
        let mut headers = HeaderList::new();
        headers.push(Header::new("transaction", transaction_id));
        Frame::empty(Command::Abort, headers)
    }

    /// Commit a transaction.
    pub fn commit(transaction_id: &str) -> (r: Frame)
        ensures
            r.command == Command::Commit,
            r.body@ =~= Seq::<u8>::empty(),
            r.headers.items@.len() == 1,
            r.headers.items@[0].name@ == "transaction"@ && r.headers.items@[0].value@
                == transaction_id@,
    {
        let mut headers = HeaderList::new();
        headers.push(Header::new("transaction", transaction_id));
        Frame::empty(Command::Commit, headers)
    }
}

/// A unit of the wire protocol: a heartbeat newline or a complete frame.
#[derive(Clone, Debug)]
pub enum Transmission {
    HeartBeat,
    CompleteFrame(Frame),
}

/// The wire bytes of a transmission.
pub open spec fn transmission_bytes(t: Transmission) -> Seq<u8> {
    match t {
        Transmission::HeartBeat => seq![10u8],
        Transmission::CompleteFrame(f) => frame_bytes(f) + seq![0u8],
    }
}

impl Transmission {
    /// Render the transmission onto a byte buffer.
    pub fn write(&self, out: &mut Vec<u8>)
        ensures
            final(out)@ == old(out)@ + transmission_bytes(*self),
    {
        match self {
            Transmission::HeartBeat => {
                out.push(10);
                proof {
                    assert(out@ =~= old(out)@ + transmission_bytes(*self));
                }
            },
            Transmission::CompleteFrame(f) => {
                f.write(out);
                proof {
                    assert(out@ =~= old(out)@ + transmission_bytes(*self));
                }
            },
        }
    }
}

/// A value usable as a frame body.
pub trait ToFrameBody {
    /// The bytes the value contributes as a body.
    spec fn body_view(&self) -> Seq<u8>;

    fn to_frame_body<'a>(&'a self) -> (r: &'a [u8])
        ensures
            r@ == self.body_view(),
    ;
}

impl ToFrameBody for &[u8] {
    open spec fn body_view(&self) -> Seq<u8> {
        self@
    }

    fn to_frame_body<'a>(&'a self) -> (r: &'a [u8]) {
        self
    }
}

impl ToFrameBody for &str {
    open spec fn body_view(&self) -> Seq<u8> {
        str_octets(self@)
    }

    fn to_frame_body<'a>(&'a self) -> (r: &'a [u8]) {
        self.as_bytes()
    }
}

impl ToFrameBody for String {
    open spec fn body_view(&self) -> Seq<u8> {
        str_octets(self@)
    }

    fn to_frame_body<'a>(&'a self) -> (r: &'a [u8]) {
        self.as_str().as_bytes()
    }
}

} // verus!
