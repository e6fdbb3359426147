use vstd::prelude::*;
use vstd::utf8::{decode_utf8, valid_utf8};
use std::collections::HashMap;
use crate::address::{AddressList, IpAddress};
use crate::client::{Client, COLOR_COUNT};
use crate::coord::{below_zero, is_below_zero, is_finite_bits, PEN_UP_BITS};
use crate::history::{pushed, History, Line};
use crate::text::string_from_utf8;

verus! {

broadcast use vstd::std_specs::hash::group_hash_axioms;

/// How the access list is read: as the only addresses let in, or as the
/// addresses kept out.
#[derive(Clone, Copy, Debug, PartialEq, Eq, Structural)]
pub enum AccessPolicy {
    AllowListed,
    DenyListed,
}

/// Why the server closes a connection.
#[derive(Clone, Copy, Debug, PartialEq, Eq, Structural)]
pub enum CloseCode {
    /// The connection has no peer address.
    Error,
    /// The address is not let in.
    Policy,
    /// The connection is not a registered client.
    Abnormal,
}

/// What the forwarding headers of a handshake say of the client's address.
#[derive(Clone, Copy, Debug, PartialEq, Eq, Structural)]
pub enum Forwarded {
    /// The forwarding headers could not be read.
    Unreadable,
    /// There is no forwarding header.
    Absent,
    /// A forwarded address is given but it is not an IP address.
    Unparsable,
    /// The forwarded IP address.
    Address(IpAddress),
}

/// Where a new connection comes from.
#[derive(Clone, Copy, Debug, PartialEq, Eq, Structural)]
pub struct Origin {
    /// The address in the last `X-Real-Ip` header, if that header is there
    /// and holds an IP address.
    pub real_ip: Option<IpAddress>,
    /// What the forwarding headers say.
    pub forwarded: Forwarded,
    /// The address of the socket peer, if known.
    pub peer: Option<IpAddress>,
}

/// The address a connection is taken to come from.
#[derive(Clone, Copy, Debug, PartialEq, Eq, Structural)]
pub enum Resolution {
    Address(IpAddress),
    /// No address at all: the connection is closed.
    NoAddress,
    /// The forwarded address does not parse: the connection is left alone.
    Unparsable,
    /// The handshake could not be read.
    Failed,
}

/// Errors that end the handling of an event.
#[derive(Clone, Copy, Debug, PartialEq, Eq, Structural)]
pub enum ServerError {
    /// The forwarding headers of the handshake could not be read.
    Handshake,
    /// A binary message that is not UTF-8 text.
    Unreadable,
    /// A message that is not JSON.
    Json,
}

/// A stroke sent to every client.
#[derive(Clone, Copy, Debug, PartialEq, Eq, Structural)]
pub struct Update {
    pub x: u64,
    pub y: u64,
    pub oldx: u64,
    pub oldy: u64,
    pub color: u8,
    pub numonline: usize,
}

/// What to do after a message.
#[derive(Clone, Copy, Debug, PartialEq, Eq, Structural)]
pub enum MessageAction {
    /// Close the sender's connection.
    Close(CloseCode),
    /// Nothing to send.
    Ignore,
    /// Broadcast the update.  The line (if any) is the stroke the server
    /// holds pending; it goes into the history once the broadcast is
    /// delivered (see `Server::finish_broadcast`).
    Broadcast(Update, Option<Line>),
}

/// What a new client is sent.
#[derive(Debug)]
pub struct Welcome {
    pub color: u8,
    pub numonline: usize,
    pub capacity: usize,
    pub history: Vec<Line>,
}

/// What to do after a connection opens.
#[derive(Debug)]
pub enum OpenAction {
    Close(CloseCode),
    /// Nothing is done (the forwarded address does not parse).
    Ignore,
    /// The client is registered; send it the welcome.
    Welcome(Welcome),
}

/// The reply to a new connection, as a value of the model.
pub enum OpenReply {
    Close(CloseCode),
    Ignore,
    Welcome { color: u8, numonline: nat, capacity: nat, history: Seq<Line> },
}

/// An incoming message.
pub enum Payload {
    Text(String),
    Binary(Vec<u8>),
}

/// The model of the server's state.
pub struct ServerView {
    pub policy: AccessPolicy,
    pub access: Set<IpAddress>,
    pub readonly: Set<IpAddress>,
    pub history: Seq<Line>,
    pub clients: Map<u32, Client>,
    pub capacity: nat,
    /// The stroke of the last broadcast, waiting to be recorded.
    pub pending: Option<Line>,
}

/// A line that can be drawn: all four coordinates on the canvas (none
/// below zero) and a client colour.
pub open spec fn drawable(l: Line) -> bool {
    &&& !is_below_zero(l.0)
    &&& !is_below_zero(l.1)
    &&& !is_below_zero(l.2)
    &&& !is_below_zero(l.3)
    &&& l.4 < COLOR_COUNT
}

/// All four coordinates of a line are finite doubles.
pub open spec fn finite_line(l: Line) -> bool {
    is_finite_bits(l.0) && is_finite_bits(l.1) && is_finite_bits(l.2) && is_finite_bits(l.3)
}

/// Every pen position held (clients, history, pending stroke) is a finite
/// double.
pub open spec fn positions_finite(s: ServerView) -> bool {
    &&& forall|k: u32| #[trigger]
        s.clients.contains_key(k) ==> is_finite_bits(s.clients[k].oldx) && is_finite_bits(
            s.clients[k].oldy,
        )
    &&& forall|i: int| 0 <= i < s.history.len() ==> finite_line(#[trigger] s.history[i])
    &&& s.pending matches Some(l) ==> finite_line(l)
}

/// A state the server can be in: each client is filed under its own
/// connection, has a colour below `COLOR_COUNT`, the history fits in a
/// positive capacity, and every recorded or pending line is drawable.
pub open spec fn valid(s: ServerView) -> bool {
    &&& s.capacity > 0
    &&& s.history.len() <= s.capacity
    &&& forall|i: int| 0 <= i < s.history.len() ==> drawable(#[trigger] s.history[i])
    &&& s.pending matches Some(l) ==> drawable(l)
    &&& s.clients.dom().finite()
    &&& forall|k: u32| #[trigger]
        s.clients.contains_key(k) ==> s.clients[k].connection_id == k && s.clients[k].color
            < COLOR_COUNT
}

/// Whether the access list lets `ip` in.
pub open spec fn admits(policy: AccessPolicy, access: Set<IpAddress>, ip: IpAddress) -> bool {
    match policy {
        AccessPolicy::AllowListed => access.contains(ip),
        AccessPolicy::DenyListed => !access.contains(ip),
    }
}

/// The address a connection is taken to come from.  Under an allow list
/// the `X-Real-Ip` header comes first, then the forwarding headers, then
/// the peer; under a deny list only the peer counts.
pub open spec fn resolution(policy: AccessPolicy, origin: Origin) -> Resolution {
    match policy {
        AccessPolicy::AllowListed => match origin.real_ip {
            Some(ip) => Resolution::Address(ip),
            None => match origin.forwarded {
                Forwarded::Unreadable => Resolution::Failed,
                Forwarded::Unparsable => Resolution::Unparsable,
                Forwarded::Address(ip) => Resolution::Address(ip),
                Forwarded::Absent => match origin.peer {
                    Some(ip) => Resolution::Address(ip),
                    None => Resolution::NoAddress,
                },
            },
        },
        AccessPolicy::DenyListed => match origin.peer {
            Some(ip) => Resolution::Address(ip),
            None => Resolution::NoAddress,
        },
    }
}

/// A new connection, when the client is given colour `color` should it be
/// registered.
pub open spec fn open_step(s: ServerView, conn: u32, origin: Origin, color: u8) -> (
    ServerView,
    Result<OpenReply, ServerError>,
) {
    match resolution(s.policy, origin) {
        Resolution::Failed => (s, Err(ServerError::Handshake)),
        Resolution::Unparsable => (s, Ok(OpenReply::Ignore)),
        Resolution::NoAddress => (s, Ok(OpenReply::Close(CloseCode::Error))),
        Resolution::Address(ip) => if !admits(s.policy, s.access, ip) {
            (s, Ok(OpenReply::Close(CloseCode::Policy)))
        } else {
            let client = Client { connection_id: conn, oldx: PEN_UP_BITS, oldy: PEN_UP_BITS, color, ip };
            let s2 = ServerView { clients: s.clients.insert(conn, client), ..s };
            (
                s2,
                Ok(
                    OpenReply::Welcome {
                        color,
                        numonline: s2.clients.len(),
                        capacity: s.capacity,
                        history: s.history,
                    },
                ),
            )
        },
    }
}

/// Whether an open action is the reply of the model.
pub open spec fn open_action_is(a: Result<OpenAction, ServerError>, r: Result<OpenReply, ServerError>) -> bool {
    match (a, r) {
        (Err(e1), Err(e2)) => e1 == e2,
        (Ok(OpenAction::Close(c1)), Ok(OpenReply::Close(c2))) => c1 == c2,
        (Ok(OpenAction::Ignore), Ok(OpenReply::Ignore)) => true,
        (
            Ok(OpenAction::Welcome(w)),
            Ok(OpenReply::Welcome { color, numonline, capacity, history }),
        ) => w.color == color && w.numonline == numonline && w.capacity == capacity
            && w.history@ == history,
        _ => false,
    }
}

/// The pen of client `conn` moves to `(x, y)`.  The stored position
/// always follows; a stroke is broadcast only when the new position is on
/// the canvas (neither coordinate below zero), and it is drawn (held
/// pending for the history) only when the old position was on it too.
pub open spec fn pen_step(s: ServerView, conn: u32, x: u64, y: u64) -> (ServerView, MessageAction) {
    let c = s.clients[conn];
    let moved = Client { oldx: x, oldy: y, ..c };
    let clients = s.clients.insert(conn, moved);
    if is_below_zero(x) || is_below_zero(y) {
        (ServerView { clients, pending: None, ..s }, MessageAction::Ignore)
    } else {
        let update = Update {
            x,
            y,
            oldx: c.oldx,
            oldy: c.oldy,
            color: c.color,
            numonline: s.clients.len() as usize,
        };
        let line = if is_below_zero(c.oldx) || is_below_zero(c.oldy) {
            None
        } else {
            Some(Line(x, y, c.oldx, c.oldy, c.color))
        };
        (ServerView { clients, pending: line, ..s }, MessageAction::Broadcast(update, line))
    }
}

/// The text of a message: a text message as it is, a binary one when it
/// is valid UTF-8.
pub open spec fn payload_text(p: &Payload) -> Option<Seq<char>> {
    match p {
        Payload::Text(s) => Some(s@),
        Payload::Binary(b) => if valid_utf8(b@) {
            Some(decode_utf8(b@))
        } else {
            None
        },
    }
}

/// What reading `text` as JSON and taking its member `key` gives: `None`
/// when the text is not JSON, `Some(None)` when there is no such member or
/// it is not a number, else the number as the bit pattern of a double.
pub uninterp spec fn json_member(text: Seq<char>, key: Seq<char>) -> Option<Option<u64>>;

/// `serde_json::from_str::<serde_json::Value>`, the value indexed by `key`
/// (a missing member, or a value that is not an object, reads as `Null`),
/// then `Value::as_f64`, whose result is turned into its bit pattern.  The
/// result is named, not described, except that it is finite: serde_json
/// refuses out-of-range numbers and keeps only finite floats.
#[verifier::external_body]
fn json_number_member(text: &str, key: &str) -> (r: Option<Option<u64>>)
    ensures
        r == json_member(text@, key@),
        r matches Some(Some(b)) ==> is_finite_bits(b),
{
    match serde_json::from_str::<serde_json::Value>(text) {
        Ok(v) => Some(v[key].as_f64().map(|n| n.to_bits())),
        Err(_) => None,
    }
}

/// A message on connection `conn`.  An unknown connection is closed; a
/// read-only client is ignored; then the text is read as JSON, its `x`
/// member first, then its `y` member, and when both are numbers the pen
/// moves.
pub open spec fn message_step(s: ServerView, conn: u32, text: Option<Seq<char>>) -> (
    ServerView,
    Result<MessageAction, ServerError>,
) {
    if !s.clients.contains_key(conn) {
        (s, Ok(MessageAction::Close(CloseCode::Abnormal)))
    } else if s.readonly.contains(s.clients[conn].ip) {
        (s, Ok(MessageAction::Ignore))
    } else {
        match text {
            None => (s, Err(ServerError::Unreadable)),
            Some(t) => match json_member(t, "x"@) {
                None => (s, Err(ServerError::Json)),
                Some(None) => (s, Ok(MessageAction::Ignore)),
                Some(Some(x)) => match json_member(t, "y"@) {
                    None => (s, Err(ServerError::Json)),
                    Some(None) => (s, Ok(MessageAction::Ignore)),
                    Some(Some(y)) => {
                        let (s2, a) = pen_step(s, conn, x, y);
                        (s2, Ok(a))
                    },
                },
            },
        }
    }
}

/// The state once a broadcast has been attempted: the pending stroke (if
/// any) goes into the history only when the broadcast was delivered, and
/// nothing is pending afterwards.
pub open spec fn broadcast_step(s: ServerView, delivered: bool) -> ServerView {
    let cleared = ServerView { pending: None, ..s };
    match s.pending {
        Some(l) => if delivered {
            ServerView { history: pushed(s.history, s.capacity, l), ..cleared }
        } else {
            cleared
        },
        None => cleared,
    }
}

/// A connection closes: its client is dropped.
pub open spec fn close_step(s: ServerView, conn: u32) -> ServerView {
    ServerView { clients: s.clients.remove(conn), ..s }
}

/// The clients whose address is not in `denied`.
pub open spec fn without_denied(m: Map<u32, Client>, denied: Set<IpAddress>) -> Map<u32, Client> {
    Map::new(|k: u32| m.contains_key(k) && !denied.contains(m[k].ip), |k: u32| m[k])
}

/// The lists are replaced; under a deny list, clients now denied are
/// dropped.
pub open spec fn reload_step(s: ServerView, access: Set<IpAddress>, readonly: Set<IpAddress>) -> ServerView {
    let clients = match s.policy {
        AccessPolicy::DenyListed => without_denied(s.clients, access),
        AccessPolicy::AllowListed => s.clients,
    };
    ServerView { access, readonly, clients, ..s }
}

/// The name of the header that carries the client's address when a proxy
/// stands in front of the server.
pub open spec fn real_ip_name() -> Seq<char> {
    "X-Real-Ip"@
}

/// The value of the last header named `name` (names compared exactly).
pub open spec fn last_header(headers: Seq<(String, Vec<u8>)>, name: Seq<char>) -> Option<Seq<u8>>
    decreases headers.len(),
{
    if headers.len() == 0 {
        None
    } else if headers.last().0@ == name {
        Some(headers.last().1@)
    } else {
        last_header(headers.drop_last(), name)
    }
}

/// The value of the last `X-Real-Ip` header of a handshake, if any.
pub fn real_ip_header(headers: &Vec<(String, Vec<u8>)>) -> (r: Option<Vec<u8>>)
    ensures
        r matches Some(v) ==> last_header(headers@, real_ip_name()) == Some(v@),
        r is None ==> last_header(headers@, real_ip_name()) is None,
{
    let name = "X-Real-Ip".to_owned();
    let mut i: usize = headers.len();
    assert(headers@.take(i as int) =~= headers@);
    while i > 0
        invariant
            0 <= i <= headers.len(),
            name@ == real_ip_name(),
            last_header(headers@, real_ip_name()) == last_header(headers@.take(i as int), real_ip_name()),
        decreases i,
    {
        proof {
            assert(headers@.take(i as int).drop_last() =~= headers@.take(i as int - 1));
        }
        if headers[i - 1].0 == name {
            let v = headers[i - 1].1.clone();
            assert(v@ =~= headers@[i - 1].1@);
            return Some(v);
        }
        i = i - 1;
    }
    None
}

/// A lifted pen sits at a finite position.
pub proof fn lemma_pen_up_finite()
    ensures
        is_finite_bits(PEN_UP_BITS),
{
    assert(0xBFF0_0000_0000_0000int / 0x10_0000_0000_0000int == 0xBFF);
}

/// Every line kept after a push was kept before or is the pushed one.
pub proof fn lemma_pushed_members(h: Seq<Line>, cap: nat, l: Line)
    requires
        0 < cap,
        h.len() <= cap,
    ensures
        forall|i: int| 0 <= i < pushed(h, cap, l).len() ==> (#[trigger] pushed(h, cap, l)[i] == l
            || h.contains(pushed(h, cap, l)[i])),
{
    let p = pushed(h, cap, l);
    assert forall|i: int| 0 <= i < p.len() implies (#[trigger] p[i] == l || h.contains(p[i])) by {
        if p[i] != l {
            if h.len() < cap {
                assert(h[i] == p[i]);
            } else {
                assert(h[i + 1] == p[i]);
                assert(h.contains(p[i]));
            }
        }
    }
}

/// The address a connection is taken to come from.
pub fn resolve(policy: AccessPolicy, origin: &Origin) -> (r: Resolution)
    ensures
        r == resolution(policy, *origin),
{
    match policy {
        AccessPolicy::AllowListed => match origin.real_ip {
            Some(ip) => Resolution::Address(ip),
            None => match origin.forwarded {
                Forwarded::Unreadable => Resolution::Failed,
                Forwarded::Unparsable => Resolution::Unparsable,
                Forwarded::Address(ip) => Resolution::Address(ip),
                Forwarded::Absent => match origin.peer {
                    Some(ip) => Resolution::Address(ip),
                    None => Resolution::NoAddress,
                },
            },
        },
        AccessPolicy::DenyListed => match origin.peer {
            Some(ip) => Resolution::Address(ip),
            None => Resolution::NoAddress,
        },
    }
}

/// The text of a message, when it has one.
pub fn read_text(p: &Payload) -> (r: Option<String>)
    ensures
        r is Some <==> payload_text(p) is Some,
        r matches Some(t) ==> payload_text(p) == Some(t@),
{
    match p {
        Payload::Text(s) => Some(s.clone()),
        Payload::Binary(b) => string_from_utf8(b.clone()),
    }
}

/// The drawing server: the access and read-only lists, the connected
/// clients and the history of drawn lines.
pub struct Server {
    policy: AccessPolicy,
    access: AddressList,
    readonly: AddressList,
    history: History,
    clients: HashMap<u32, Client>,
    capacity: usize,
    pending: Option<Line>,
}

impl View for Server {
    type V = ServerView;

    closed spec fn view(&self) -> ServerView {
        ServerView {
            policy: self.policy,
            access: self.access@,
            readonly: self.readonly@,
            history: self.history@,
            clients: self.clients@,
            capacity: self.capacity as nat,
            pending: self.pending,
        }
    }
}

impl Server {
    /// Well-formed: the model is a valid state whose positions are all
    /// finite, and the history keeps `capacity` lines.
    pub closed spec fn wf(&self) -> bool {
        &&& self.history.wf()
        &&& self.history.capacity() == self.capacity as nat
        &&& valid(self@)
        &&& positions_finite(self@)
    }

    /// A well-formed server is in a valid state, and every position it
    /// holds is a finite double.
    pub proof fn lemma_wf_valid(&self)
        requires
            self.wf(),
        ensures
            valid(self@),
            positions_finite(self@),
    {
    }

    /// A server with no client and an empty history of `capacity` lines.
    /// `capacity` must be positive (the ring buffer refuses zero).
    pub fn new(policy: AccessPolicy, access: Vec<IpAddress>, capacity: usize, readonly: Vec<IpAddress>) -> (s: Server)
        requires
            capacity > 0,
        ensures
            s.wf(),
            s@ == (ServerView {
                policy,
                access: access@.to_set(),
                readonly: readonly@.to_set(),
                history: Seq::<Line>::empty(),
                clients: Map::<u32, Client>::empty(),
                capacity: capacity as nat,
                pending: None,
            }),
    {
        let s = Server {
            policy,
            access: AddressList::from_addresses(access),
            readonly: AddressList::from_addresses(readonly),
            history: History::with_capacity(capacity),
            clients: HashMap::new(),
            capacity,
            pending: None,
        };
        proof {
            s.history.lemma_bounded();
        }
        s
    }

    /// Whether the access list lets `ip` in.
    pub fn admits(&self, ip: IpAddress) -> (r: bool)
        ensures
            r == admits(self@.policy, self@.access, ip),
    {
        match self.policy {
            AccessPolicy::AllowListed => self.access.contains(ip),
            AccessPolicy::DenyListed => !self.access.contains(ip),
        }
    }

    /// A new connection, the client (if registered) getting colour `color`.
    pub fn open_with_color(&mut self, conn: u32, origin: &Origin, color: u8) -> (r: Result<OpenAction, ServerError>)
        requires
            old(self).wf(),
            color < COLOR_COUNT,
        ensures
            final(self).wf(),
            final(self)@ == open_step(old(self)@, conn, *origin, color).0,
            open_action_is(r, open_step(old(self)@, conn, *origin, color).1),
            final(self)@.history == old(self)@.history,
            final(self)@.pending == old(self)@.pending,
            forall|k: u32| k != conn ==> (#[trigger] final(self)@.clients.contains_key(k)
                <==> old(self)@.clients.contains_key(k)),
            forall|k: u32| k != conn && old(self)@.clients.contains_key(k) ==> #[trigger] final(self)@.clients[k]
                == old(self)@.clients[k],
            r matches Ok(OpenAction::Welcome(w)) ==> w.history@ == old(self)@.history && w.capacity
                == old(self)@.capacity && w.color == color && w.numonline == final(self)@.clients.len()
                && final(self)@.clients.contains_key(conn),
    {
        match resolve(self.policy, origin) {
            Resolution::Failed => Err(ServerError::Handshake),
            Resolution::Unparsable => Ok(OpenAction::Ignore),
            Resolution::NoAddress => Ok(OpenAction::Close(CloseCode::Error)),
            Resolution::Address(ip) => {
                if !self.admits(ip) {
                    Ok(OpenAction::Close(CloseCode::Policy))
                } else {
                    let client = Client::with_color(conn, ip, color);
                    self.clients.insert(conn, client);
                    let numonline: usize = self.clients.len();
                    let history = self.history.to_vec();
                    let ghost s2 = open_step(old(self)@, conn, *origin, color).0;
                    assert(self@ =~= s2);
                    proof {
                        lemma_pen_up_finite();
                    }
                    Ok(OpenAction::Welcome(Welcome { color, numonline, capacity: self.capacity, history }))
                }
            },
        }
    }

    /// A new connection.  A registered client gets a colour drawn at random
    /// below `COLOR_COUNT`; otherwise the outcome is that of the model.
    pub fn on_open(&mut self, conn: u32, origin: &Origin) -> (r: Result<OpenAction, ServerError>)
        requires
            old(self).wf(),
        ensures
            final(self).wf(),
            exists|color: u8|
                color < COLOR_COUNT && final(self)@ == open_step(old(self)@, conn, *origin, color).0
                    && open_action_is(r, open_step(old(self)@, conn, *origin, color).1),
    {
        let color: u8 = match resolve(self.policy, origin) {
            Resolution::Address(ip) => if self.admits(ip) {
                Client::new(conn, ip).color
            } else {
                0
            },
            _ => 0,
        };
        let r = self.open_with_color(conn, origin, color);
        assert(color < COLOR_COUNT && final(self)@ == open_step(old(self)@, conn, *origin, color).0
            && open_action_is(r, open_step(old(self)@, conn, *origin, color).1));
        r
    }

    /// The pen of client `conn` moves to `(x, y)`; see `pen_step`.  The
    /// coordinates are finite doubles (as JSON numbers always are).
    pub fn move_pen(&mut self, conn: u32, x: u64, y: u64) -> (a: MessageAction)
        requires
            old(self).wf(),
            old(self)@.clients.contains_key(conn),
            is_finite_bits(x),
            is_finite_bits(y),
        ensures
            final(self).wf(),
            (final(self)@, a) == pen_step(old(self)@, conn, x, y),
            final(self)@.clients.dom() == old(self)@.clients.dom(),
            final(self)@.clients[conn] == (Client { oldx: x, oldy: y, ..old(self)@.clients[conn] }),
            forall|k: u32| k != conn && old(self)@.clients.contains_key(k) ==> #[trigger] final(self)@.clients[k]
                == old(self)@.clients[k],
            final(self)@.history == old(self)@.history,
    {
        let numonline: usize = self.clients.len();
        let c = match self.clients.get(&conn) {
            Some(c) => *c,
            None => {
                assert(false);
                return MessageAction::Ignore;
            },
        };
        let moved = Client { oldx: x, oldy: y, ..c };
        self.clients.insert(conn, moved);
        if below_zero(x) || below_zero(y) {
            self.pending = None;
            let ghost s2 = pen_step(old(self)@, conn, x, y).0;
            assert(self@ =~= s2);
            return MessageAction::Ignore;
        }
        let update = Update { x, y, oldx: c.oldx, oldy: c.oldy, color: c.color, numonline };
        let line = if below_zero(c.oldx) || below_zero(c.oldy) {
            None
        } else {
            Some(Line(x, y, c.oldx, c.oldy, c.color))
        };
        self.pending = line;
        let ghost s2 = pen_step(old(self)@, conn, x, y).0;
        assert(self@ =~= s2);
        MessageAction::Broadcast(update, line)
    }

    /// A message on connection `conn`; see `message_step`.
    pub fn on_message(&mut self, conn: u32, payload: &Payload) -> (r: Result<MessageAction, ServerError>)
        requires
            old(self).wf(),
        ensures
            final(self).wf(),
            (final(self)@, r) == message_step(old(self)@, conn, payload_text(payload)),
    {
        let ip = match self.clients.get(&conn) {
            Some(c) => c.ip,
            None => return Ok(MessageAction::Close(CloseCode::Abnormal)),
        };
        if self.readonly.contains(ip) {
            return Ok(MessageAction::Ignore);
        }
        let text = match read_text(payload) {
            Some(t) => t,
            None => return Err(ServerError::Unreadable),
        };
        let x: u64 = match json_number_member(text.as_str(), "x") {
            None => return Err(ServerError::Json),
            Some(None) => return Ok(MessageAction::Ignore),
            Some(Some(x)) => x,
        };
        let y: u64 = match json_number_member(text.as_str(), "y") {
            None => return Err(ServerError::Json),
            Some(None) => return Ok(MessageAction::Ignore),
            Some(Some(y)) => y,
        };
        Ok(self.move_pen(conn, x, y))
    }

    /// After a broadcast: the pending stroke (if any) goes into the history
    /// when the broadcast was delivered; nothing is pending afterwards.
    pub fn finish_broadcast(&mut self, delivered: bool)
        requires
            old(self).wf(),
        ensures
            final(self).wf(),
            final(self)@ == broadcast_step(old(self)@, delivered),
            final(self)@.pending is None,
            final(self)@.clients == old(self)@.clients,
            delivered ==> (old(self)@.pending matches Some(l) ==> final(self)@.history == (if old(
                self,
            )@.history.len() < old(self)@.capacity {
                old(self)@.history.push(l)
            } else {
                old(self)@.history.drop_first().push(l)
            })),
            !(old(self)@.pending is Some && delivered) ==> final(self)@.history == old(self)@.history,
    {
        let line = self.pending;
        self.pending = None;
        if delivered {
            if let Some(l) = line {
                self.history.push(l);
                proof {
                    self.history.lemma_bounded();
                    lemma_pushed_members(old(self)@.history, old(self)@.capacity, l);
                }
            }
        }
        assert(self@ =~= broadcast_step(old(self)@, delivered));
    }

    /// A connection closes: its client, if it had one, is dropped and
    /// returned.
    pub fn on_close(&mut self, conn: u32) -> (r: Option<Client>)
        requires
            old(self).wf(),
        ensures
            final(self).wf(),
            final(self)@ == close_step(old(self)@, conn),
            !final(self)@.clients.contains_key(conn),
            forall|k: u32| k != conn ==> (#[trigger] final(self)@.clients.contains_key(k)
                <==> old(self)@.clients.contains_key(k)),
            forall|k: u32| k != conn && old(self)@.clients.contains_key(k) ==> #[trigger] final(self)@.clients[k]
                == old(self)@.clients[k],
            final(self)@.history == old(self)@.history,
            r == (if old(self)@.clients.contains_key(conn) {
                Some(old(self)@.clients[conn])
            } else {
                None
            }),
    {
        let r = self.clients.remove(&conn);
        assert(self@ =~= close_step(old(self)@, conn));
        r
    }

    /// New access and read-only lists; under a deny list the clients that
    /// are now denied are dropped.
    pub fn reload(&mut self, access: Vec<IpAddress>, readonly: Vec<IpAddress>)
        requires
            old(self).wf(),
        ensures
            final(self).wf(),
            final(self)@ == reload_step(old(self)@, access@.to_set(), readonly@.to_set()),
            final(self)@.access == access@.to_set(),
            final(self)@.readonly == readonly@.to_set(),
            final(self)@.history == old(self)@.history,
            final(self)@.policy == old(self)@.policy,
            forall|k: u32| #[trigger] final(self)@.clients.contains_key(k) ==> old(self)@.clients.contains_key(k)
                && final(self)@.clients[k] == old(self)@.clients[k],
    {
        self.access = AddressList::from_addresses(access);
        self.readonly = AddressList::from_addresses(readonly);
        if let AccessPolicy::DenyListed = self.policy {
            self.drop_denied();
        }
        assert(self@ =~= reload_step(old(self)@, access@.to_set(), readonly@.to_set()));
    }

    /// Drops the clients whose address is on the access list.
    fn drop_denied(&mut self)
        requires
            old(self).wf(),
        ensures
            final(self).wf(),
            final(self)@ == (ServerView { clients: without_denied(old(self)@.clients, old(self)@.access), ..old(self)@ }),
    {
        let mut clients: HashMap<u32, Client> = HashMap::new();
        std::mem::swap(&mut clients, &mut self.clients);
        let ghost m0 = clients@;
        let mut keys: Vec<u32> = Vec::new();
        for k in it: clients.keys()
            invariant
                clients@ == m0,
                it.seq().unref().to_set() == m0.dom(),
                keys@ == it.seq().unref().take(it.index() as int),
                it.index() == it.seq().len() ==> keys@.to_set() == m0.dom(),
        {
            proof {
                assert(it.seq().unref().take(it.index() as int + 1) =~= keys@.push(*k));
            }
            keys.push(*k);
            proof {
                assert(it.index() + 1 == it.seq().len() ==> keys@ =~= it.seq().unref());
            }
        }
        let n: usize = keys.len();
        let mut i: usize = 0;
        while i < n
            invariant
                n == keys.len(),
                0 <= i <= n,
                keys@.to_set() == m0.dom(),
                forall|k: u32| #[trigger]
                    clients@.contains_key(k) <==> (m0.contains_key(k) && !(keys@.take(
                        i as int,
                    ).contains(k) && self.access@.contains(m0[k].ip))),
                forall|k: u32| #[trigger] clients@.contains_key(k) ==> clients@[k] == m0[k],
            decreases n - i,
        {
            let k: u32 = keys[i];
            let denied = match clients.get(&k) {
                Some(c) => self.access.contains(c.ip),
                None => false,
            };
            if denied {
                clients.remove(&k);
            }
            proof {
                let t0 = keys@.take(i as int);
                let t1 = keys@.take(i as int + 1);
                assert(t1 =~= t0.push(k));
                assert forall|x: u32| t1.contains(x) <==> (t0.contains(x) || x == k) by {
                    if t1.contains(x) {
                        let j = choose|j: int| 0 <= j < t1.len() && t1[j] == x;
                        if j < t0.len() {
                            assert(t0[j] == x);
                        }
                    }
                    if t0.contains(x) {
                        let j = choose|j: int| 0 <= j < t0.len() && t0[j] == x;
                        assert(t1[j] == x);
                    }
                    if x == k {
                        assert(t1[t0.len() as int] == x);
                    }
                }
            }
            i = i + 1;
        }
        proof {
            assert(keys@.take(n as int) =~= keys@);
            assert forall|k: u32| m0.contains_key(k) implies keys@.contains(k) by {
                assert(keys@.to_set().contains(k));
            }
        }
        self.clients = clients;
        assert(self.clients@ =~= without_denied(m0, self.access@));
        assert(self@ =~= (ServerView { clients: without_denied(old(self)@.clients, old(self)@.access), ..old(self)@ }));
        assert forall|k: u32| #[trigger] self@.clients.contains_key(k) implies self@.clients[k].connection_id == k
            && self@.clients[k].color < COLOR_COUNT by {
            assert(m0.contains_key(k));
        }
    }

    /// How many clients are connected.
    pub fn clients_online(&self) -> (n: usize)
        ensures
            n == self@.clients.len(),
    {
        self.clients.len()
    }

    /// The client of connection `conn`, if any.
    pub fn client(&self, conn: u32) -> (r: Option<Client>)
        ensures
            r == (if self@.clients.contains_key(conn) {
                Some(self@.clients[conn])
            } else {
                None
            }),
    {
        match self.clients.get(&conn) {
            Some(c) => Some(*c),
            None => None,
        }
    }

    /// The history, oldest line first.
    pub fn history_lines(&self) -> (v: Vec<Line>)
        ensures
            v@ == self@.history,
    {
        self.history.to_vec()
    }

    /// How many lines the history keeps.
    pub fn capacity(&self) -> (c: usize)
        ensures
            c == self@.capacity,
    {
        self.capacity
    }
}

/// A pen move keeps a valid state valid: the stroke it holds pending is
/// drawable.
pub proof fn lemma_pen_step_valid(s: ServerView, conn: u32, x: u64, y: u64)
    requires
        valid(s),
        s.clients.contains_key(conn),
    ensures
        valid(pen_step(s, conn, x, y).0),
{
    let s2 = pen_step(s, conn, x, y).0;
    assert(s2.clients.dom() =~= s.clients.dom());
}

/// Every event keeps the server in a valid state.
pub proof fn lemma_events_keep_validity(
    s: ServerView,
    conn: u32,
    origin: Origin,
    color: u8,
    text: Option<Seq<char>>,
    delivered: bool,
    access: Set<IpAddress>,
    readonly: Set<IpAddress>,
)
    requires
        valid(s),
        color < COLOR_COUNT,
    ensures
        valid(open_step(s, conn, origin, color).0),
        valid(message_step(s, conn, text).0),
        valid(broadcast_step(s, delivered)),
        valid(close_step(s, conn)),
        valid(reload_step(s, access, readonly)),
{
    let r = reload_step(s, access, readonly);
    assert(r.clients.dom().finite()) by {
        if s.policy == AccessPolicy::DenyListed {
            assert(r.clients.dom() =~= s.clients.dom().filter(|k: u32| !access.contains(s.clients[k].ip)));
        }
    }
    if let Some(l) = s.pending {
        if delivered {
            lemma_pushed_members(s.history, s.capacity, l);
            let h = pushed(s.history, s.capacity, l);
            assert forall|i: int| 0 <= i < h.len() implies drawable(#[trigger] h[i]) by {
                if h[i] != l {
                    let k = choose|k: int| 0 <= k < s.history.len() && s.history[k] == h[i];
                    assert(drawable(s.history[k]));
                }
            }
        }
    }
    if let Some(t) = text {
        if s.clients.contains_key(conn) {
            if let Some(Some(x)) = json_member(t, "x"@) {
                if let Some(Some(y)) = json_member(t, "y"@) {
                    lemma_pen_step_valid(s, conn, x, y);
                }
            }
        }
    }
}

/// An address the access list refuses is never registered: the state is
/// left as it was and the connection is closed.
pub proof fn lemma_refused_address_not_registered(s: ServerView, conn: u32, origin: Origin, color: u8, ip: IpAddress)
    requires
        resolution(s.policy, origin) == Resolution::Address(ip),
        !admits(s.policy, s.access, ip),
    ensures
        open_step(s, conn, origin, color).0 == s,
        open_step(s, conn, origin, color).1 matches Ok(OpenReply::Close(CloseCode::Policy)),
{
}

/// An admitted client is registered with its pen lifted, and the welcome
/// counts it among the clients online.
pub proof fn lemma_admitted_client_registered(s: ServerView, conn: u32, origin: Origin, color: u8, ip: IpAddress)
    requires
        valid(s),
        resolution(s.policy, origin) == Resolution::Address(ip),
        admits(s.policy, s.access, ip),
    ensures
        open_step(s, conn, origin, color).0.clients.contains_key(conn),
        open_step(s, conn, origin, color).0.clients[conn] == (Client {
            connection_id: conn,
            oldx: PEN_UP_BITS,
            oldy: PEN_UP_BITS,
            color,
            ip,
        }),
        open_step(s, conn, origin, color).1 matches Ok(OpenReply::Welcome { numonline, .. })
            && numonline >= 1 && numonline == open_step(s, conn, origin, color).0.clients.len(),
{
    let s2 = open_step(s, conn, origin, color).0;
    assert(s2.clients.dom().contains(conn));
    assert(s2.clients.dom().finite());
    vstd::set_lib::lemma_set_empty_equivalency_len(s2.clients.dom());
}

/// Once a connection has closed, its messages are answered by closing it
/// and change nothing.
pub proof fn lemma_closed_connection_refused(s: ServerView, conn: u32, text: Option<Seq<char>>)
    ensures
        message_step(close_step(s, conn), conn, text) == (
            close_step(s, conn),
            Ok::<MessageAction, ServerError>(MessageAction::Close(CloseCode::Abnormal)),
        ),
{
}

/// A read-only client's messages are ignored and change nothing.
pub proof fn lemma_readonly_changes_nothing(s: ServerView, conn: u32, text: Option<Seq<char>>)
    requires
        s.clients.contains_key(conn),
        s.readonly.contains(s.clients[conn].ip),
    ensures
        message_step(s, conn, text) == (s, Ok::<MessageAction, ServerError>(MessageAction::Ignore)),
{
}

/// Two successive pen positions on the canvas are joined: the second one
/// is broadcast as a stroke from the first, and that stroke is the line
/// that goes into the history.
pub proof fn lemma_strokes_join(s: ServerView, conn: u32, x1: u64, y1: u64, x2: u64, y2: u64)
    requires
        s.clients.contains_key(conn),
        !is_below_zero(x1),
        !is_below_zero(y1),
        !is_below_zero(x2),
        !is_below_zero(y2),
    ensures
        ({
            let c = s.clients[conn];
            let s1 = pen_step(s, conn, x1, y1).0;
            let (s2, a) = pen_step(s1, conn, x2, y2);
            &&& a == MessageAction::Broadcast(
                Update { x: x2, y: y2, oldx: x1, oldy: y1, color: c.color, numonline: s.clients.len() as usize },
                Some(Line(x2, y2, x1, y1, c.color)),
            )
            &&& s2.clients[conn].oldx == x2
            &&& s2.clients[conn].oldy == y2
            &&& s2.pending == Some(Line(x2, y2, x1, y1, c.color))
        }),
{
    let s1 = pen_step(s, conn, x1, y1).0;
    assert(s1.clients.dom() =~= s.clients.dom());
}

/// A client's first position after it connects is broadcast but draws no
/// line: its pen starts lifted.
pub proof fn lemma_first_point_draws_nothing(s: ServerView, conn: u32, x: u64, y: u64)
    requires
        s.clients.contains_key(conn),
        s.clients[conn].oldx == PEN_UP_BITS,
        !is_below_zero(x),
        !is_below_zero(y),
    ensures
        pen_step(s, conn, x, y).1 matches MessageAction::Broadcast(_, line) && line is None,
{
    assert(is_below_zero(PEN_UP_BITS));
}

/// A position off the canvas is never broadcast, yet it lifts the pen: the
/// next position draws no line.
pub proof fn lemma_off_canvas_lifts_pen(s: ServerView, conn: u32, x1: u64, y1: u64, x2: u64, y2: u64)
    requires
        s.clients.contains_key(conn),
        is_below_zero(x1) || is_below_zero(y1),
    ensures
        pen_step(s, conn, x1, y1).1 == MessageAction::Ignore,
        pen_step(pen_step(s, conn, x1, y1).0, conn, x2, y2).1 matches
            MessageAction::Broadcast(_, line) ==> line is None,
{
}

/// A stroke that was not delivered is not recorded, and is no longer
/// pending.
pub proof fn lemma_undelivered_not_recorded(s: ServerView)
    ensures
        broadcast_step(s, false).history == s.history,
        broadcast_step(s, false).pending is None,
{
}

/// A delivered stroke is recorded: after a broadcast of a stroke the
/// message produced, the history ends with that line.
pub proof fn lemma_delivered_stroke_recorded(s: ServerView, conn: u32, x: u64, y: u64)
    requires
        valid(s),
        s.clients.contains_key(conn),
    ensures
        pen_step(s, conn, x, y).1 matches MessageAction::Broadcast(_, Some(l)) ==> {
            let h = broadcast_step(pen_step(s, conn, x, y).0, true).history;
            h.len() > 0 && h.last() == l
        },
{
}

/// A move to finite coordinates keeps every held position finite; the
/// other events never bring in a new position but the lifted pen.
pub proof fn lemma_positions_stay_finite(
    s: ServerView,
    conn: u32,
    x: u64,
    y: u64,
    origin: Origin,
    color: u8,
    delivered: bool,
    access: Set<IpAddress>,
    readonly: Set<IpAddress>,
)
    requires
        valid(s),
        positions_finite(s),
        s.clients.contains_key(conn),
        is_finite_bits(x),
        is_finite_bits(y),
    ensures
        positions_finite(pen_step(s, conn, x, y).0),
        positions_finite(open_step(s, conn, origin, color).0),
        positions_finite(broadcast_step(s, delivered)),
        positions_finite(close_step(s, conn)),
        positions_finite(reload_step(s, access, readonly)),
{
    lemma_pen_up_finite();
    if let Some(l) = s.pending {
        if delivered {
            lemma_pushed_members(s.history, s.capacity, l);
            let h = pushed(s.history, s.capacity, l);
            assert forall|i: int| 0 <= i < h.len() implies finite_line(#[trigger] h[i]) by {
                if h[i] != l {
                    let k = choose|k: int| 0 <= k < s.history.len() && s.history[k] == h[i];
                    assert(finite_line(s.history[k]));
                }
            }
        }
    }
}

/// After the deny list is reloaded, no client with a denied address
/// remains, and every other client stays.
pub proof fn lemma_reload_evicts_denied(s: ServerView, access: Set<IpAddress>, readonly: Set<IpAddress>)
    requires
        s.policy == AccessPolicy::DenyListed,
    ensures
        forall|k: u32| #[trigger] reload_step(s, access, readonly).clients.contains_key(k)
            ==> !access.contains(reload_step(s, access, readonly).clients[k].ip),
        forall|k: u32| s.clients.contains_key(k) && !access.contains(s.clients[k].ip)
            ==> #[trigger] reload_step(s, access, readonly).clients.contains_key(k),
{
}

/// Opening a connection never touches the history or the pending stroke,
/// and leaves every other connection's client as it was; the welcome
/// carries exactly the history held before, the capacity, the colour
/// given, and the number of clients now online, the new one among them.
pub proof fn lemma_open_keeps_history_and_others(s: ServerView, conn: u32, origin: Origin, color: u8)
    ensures
        open_step(s, conn, origin, color).0.history == s.history,
        open_step(s, conn, origin, color).0.pending == s.pending,
        open_step(s, conn, origin, color).0.capacity == s.capacity,
        open_step(s, conn, origin, color).0.access == s.access,
        open_step(s, conn, origin, color).0.readonly == s.readonly,
        forall|k: u32| k != conn ==> (#[trigger] open_step(s, conn, origin, color).0.clients.contains_key(k)
            <==> s.clients.contains_key(k)),
        forall|k: u32| k != conn && s.clients.contains_key(k) ==> #[trigger] open_step(s, conn, origin, color).0.clients[k]
            == s.clients[k],
        open_step(s, conn, origin, color).1 matches Ok(OpenReply::Welcome { color: c, numonline, capacity, history })
            ==> history == s.history && capacity == s.capacity && c == color
            && numonline == open_step(s, conn, origin, color).0.clients.len()
            && open_step(s, conn, origin, color).0.clients.contains_key(conn),
{
}

/// A pen move changes only the sender's stored position: its other fields
/// stay, every other client stays, and the stroke starts from the
/// sender's own previous position, in the sender's colour.
pub proof fn lemma_pen_moves_only_sender(s: ServerView, conn: u32, x: u64, y: u64)
    requires
        s.clients.contains_key(conn),
    ensures
        pen_step(s, conn, x, y).0.clients.dom() == s.clients.dom(),
        pen_step(s, conn, x, y).0.clients[conn].oldx == x,
        pen_step(s, conn, x, y).0.clients[conn].oldy == y,
        pen_step(s, conn, x, y).0.clients[conn].color == s.clients[conn].color,
        pen_step(s, conn, x, y).0.clients[conn].ip == s.clients[conn].ip,
        pen_step(s, conn, x, y).0.clients[conn].connection_id == s.clients[conn].connection_id,
        forall|k: u32| k != conn && s.clients.contains_key(k) ==> #[trigger] pen_step(s, conn, x, y).0.clients[k]
            == s.clients[k],
        pen_step(s, conn, x, y).0.history == s.history,
        pen_step(s, conn, x, y).1 matches MessageAction::Broadcast(u, line) ==> u.x == x && u.y == y
            && u.oldx == s.clients[conn].oldx && u.oldy == s.clients[conn].oldy && u.color
            == s.clients[conn].color && (line matches Some(l) ==> l == Line(
            x,
            y,
            s.clients[conn].oldx,
            s.clients[conn].oldy,
            s.clients[conn].color,
        )),
{
    assert(pen_step(s, conn, x, y).0.clients.dom() =~= s.clients.dom());
}

/// Recording a delivered stroke drops at most the oldest line: below
/// capacity the stroke is appended; at capacity the oldest line goes and
/// the stroke is appended.  The history never exceeds the capacity.
pub proof fn lemma_record_drops_only_oldest(s: ServerView, l: Line)
    requires
        valid(s),
        s.pending == Some(l),
    ensures
        s.history.len() < s.capacity ==> broadcast_step(s, true).history == s.history.push(l),
        s.history.len() == s.capacity ==> broadcast_step(s, true).history == s.history.subrange(
            1,
            s.history.len() as int,
        ).push(l),
        broadcast_step(s, true).history.len() == if s.history.len() < s.capacity {
            s.history.len() + 1
        } else {
            s.capacity
        },
        broadcast_step(s, true).history.last() == l,
{
    assert(s.history.drop_first() =~= s.history.subrange(1, s.history.len() as int));
}

/// The state after each stroke of `ls` in turn is held pending and
/// delivered.
pub open spec fn record_all(s: ServerView, ls: Seq<Line>) -> ServerView
    decreases ls.len(),
{
    if ls.len() == 0 {
        s
    } else {
        let before = record_all(s, ls.drop_last());
        broadcast_step(ServerView { pending: Some(ls.last()), ..before }, true)
    }
}

/// Over any sequence of delivered strokes the history is the last
/// `capacity` lines of everything recorded, in order.
pub proof fn lemma_history_is_latest_strokes(s: ServerView, ls: Seq<Line>)
    requires
        s.capacity > 0,
        s.history.len() <= s.capacity,
    ensures
        record_all(s, ls).history == crate::history::latest(s.history + ls, s.capacity),
        record_all(s, ls).capacity == s.capacity,
        record_all(s, ls).clients == s.clients,
    decreases ls.len(),
{
    if ls.len() > 0 {
        let init = ls.drop_last();
        lemma_history_is_latest_strokes(s, init);
        crate::history::lemma_history_keeps_latest(s.history, s.capacity, init);
        crate::history::lemma_history_keeps_latest(s.history, s.capacity, ls);
        lemma_pushed_all_len(s.history, s.capacity, init);
    }
}

proof fn lemma_pushed_all_len(lines: Seq<Line>, cap: nat, ls: Seq<Line>)
    requires
        cap > 0,
        lines.len() <= cap,
    ensures
        crate::history::pushed_all(lines, cap, ls).len() <= cap,
    decreases ls.len(),
{
    if ls.len() > 0 {
        lemma_pushed_all_len(lines, cap, ls.drop_last());
    }
}

/// Reloading replaces both lists, whatever the policy; it never adds or
/// changes a client and never touches the history.
pub proof fn lemma_reload_replaces_lists(s: ServerView, access: Set<IpAddress>, readonly: Set<IpAddress>)
    ensures
        reload_step(s, access, readonly).access == access,
        reload_step(s, access, readonly).readonly == readonly,
        reload_step(s, access, readonly).policy == s.policy,
        reload_step(s, access, readonly).history == s.history,
        reload_step(s, access, readonly).pending == s.pending,
        forall|k: u32| #[trigger] reload_step(s, access, readonly).clients.contains_key(k)
            ==> s.clients.contains_key(k) && reload_step(s, access, readonly).clients[k] == s.clients[k],
        s.policy == AccessPolicy::AllowListed ==> reload_step(s, access, readonly).clients == s.clients,
{
}

/// Closing a connection drops exactly its client: every other connection
/// keeps its client, and nothing else changes.
pub proof fn lemma_close_drops_only_that_connection(s: ServerView, conn: u32)
    ensures
        !close_step(s, conn).clients.contains_key(conn),
        forall|k: u32| k != conn ==> (#[trigger] close_step(s, conn).clients.contains_key(k)
            <==> s.clients.contains_key(k)),
        forall|k: u32| k != conn && s.clients.contains_key(k) ==> #[trigger] close_step(s, conn).clients[k]
            == s.clients[k],
        close_step(s, conn).history == s.history,
        close_step(s, conn).access == s.access,
        close_step(s, conn).readonly == s.readonly,
        close_step(s, conn).pending == s.pending,
{
}

} // verus!
