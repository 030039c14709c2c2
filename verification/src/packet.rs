//! The node's state and its decisions: what it does with a packet that it
//! received, with a socket that became ready, and with a command. The
//! decisions come back as actions, which whoever owns the sockets performs
//! in order.
use crate::dhtpackettypes::{
    DHT_DEREGISTER_ACK, DHT_DEREGISTER_BEGIN, DHT_DEREGISTER_DONE, DHT_REGISTER_ACK,
    DHT_REGISTER_BEGIN, DHT_REGISTER_DONE, DHT_REGISTER_FAKE_ACK,
};
use crate::sha::{gen_key, sha1_digest};
use crate::wire::{
    be16, header_payload_length, header_type, make_packet, packet_bytes, push_u16_be, read_header,
};
use std::collections::HashMap;
use vstd::prelude::*;
use vstd::utf8::{decode_utf8, encode_utf8, valid_utf8};

verus! {

broadcast use {vstd::std_specs::hash::group_hash_axioms, vstd::utf8::encode_utf8_decode_utf8};

pub const DHT_SERVER_SHAKE: u16 = 0x413f;

pub const DHT_CLIENT_SHAKE: u16 = 0x4121;

/// Token of the socket that listens for neighbours.
pub const LISTENER: usize = 0;

/// Token of the connection to the central server.
pub const CENTRAL_SERVER: usize = 1;

/// Where the node stands in joining the table.
#[derive(Clone, Copy, PartialEq, Eq, Structural, Debug)]
pub enum NodeState {
    AwaitingHandshake,
    Registering,
    OneAck,
    Connected,
}

/// Where a connection to a neighbour stands.
#[derive(Clone, Copy, PartialEq, Eq, Structural, Debug)]
pub enum ClientState {
    Registering,
    OneAck,
    Connected,
}

/// The readiness that a neighbour's socket is registered for.
#[derive(Clone, Copy, PartialEq, Eq, Structural, Debug)]
pub enum Interest {
    Readable,
    Writable,
}

/// The readiness reported for a socket.
#[derive(Clone, Copy, PartialEq, Eq, Structural, Debug)]
pub struct EventSet {
    pub readable: bool,
    pub writable: bool,
}

/// A connection to a neighbour. A connection that the node opens is first
/// registered as writable: what it has to say waits in `sending_data` until
/// the socket can take it.
pub struct Client {
    pub interest: Interest,
    pub state: ClientState,
    pub client_key: [u8; 20],
    pub sending_data: Vec<u8>,
}

/// A key of twenty zero bytes: the key of a neighbour that has not given one.
pub open spec fn zero_key() -> Seq<u8> {
    Seq::new(20, |i: int| 0u8)
}

impl Client {
    /// A connection that the node opened, with `sending_data` to send once the
    /// socket is writable.
    pub fn outgoing(sending_data: Vec<u8>) -> (client: Client)
        ensures
            client.interest == Interest::Writable,
            client.state == ClientState::Registering,
            client.client_key@ == zero_key(),
            client.sending_data == sending_data,
    {
        let client = Client {
            interest: Interest::Writable,
            state: ClientState::Registering,
            client_key: [0u8; 20],
            sending_data,
        };
        assert(client.client_key@ =~= zero_key());
        client
    }

    /// A connection that a neighbour opened to the node: it waits to be read.
    pub fn incoming() -> (client: Client)
        ensures
            client.interest == Interest::Readable,
            client.state == ClientState::Registering,
            client.client_key@ == zero_key(),
            client.sending_data@ == Seq::<u8>::empty(),
    {
        let client = Client {
            interest: Interest::Readable,
            state: ClientState::Registering,
            client_key: [0u8; 20],
            sending_data: Vec::new(),
        };
        assert(client.client_key@ =~= zero_key());
        client
    }
}

/// The node: its connections to neighbours by token, the last token handed
/// out, where it stands in joining the table, its address and its key.
pub struct Node {
    pub token_counter: usize,
    pub clients: HashMap<usize, Client>,
    pub state: NodeState,
    pub tcp_address: String,
    pub node_key: [u8; 20],
}

/// What the owner of the sockets is asked to do.
#[derive(Clone, PartialEq, Eq, Debug)]
pub enum Action {
    /// Read the central server's handshake and answer it with these bytes.
    AnswerHandshake(Vec<u8>),
    /// Send these bytes to the central server.
    SendToServer(Vec<u8>),
    /// Read what the socket of this token holds and hand it to `handle_packet`.
    ReadPacket(usize),
    /// Accept a neighbour on the listening socket.
    Accept,
    /// Register the socket of this token again, for reading, once.
    Reregister(usize),
    /// Connect to the neighbour at this address and, once connected, keep a
    /// client that sends these bytes (see `Client::outgoing`).
    Connect(String, Vec<u8>),
    /// Write these bytes to the socket of this token.
    Write(usize, Vec<u8>),
}

/// The content of an action.
pub ghost enum ActionView {
    AnswerHandshake(Seq<u8>),
    SendToServer(Seq<u8>),
    ReadPacket(usize),
    Accept,
    Reregister(usize),
    Connect(Seq<char>, Seq<u8>),
    Write(usize, Seq<u8>),
}

impl View for Action {
    type V = ActionView;

    open spec fn view(&self) -> ActionView {
        match self {
            Action::AnswerHandshake(data) => ActionView::AnswerHandshake(data@),
            Action::SendToServer(data) => ActionView::SendToServer(data@),
            Action::ReadPacket(token) => ActionView::ReadPacket(*token),
            Action::Accept => ActionView::Accept,
            Action::Reregister(token) => ActionView::Reregister(*token),
            Action::Connect(address, data) => ActionView::Connect(address@, data@),
            Action::Write(token, data) => ActionView::Write(*token, data@),
        }
    }
}

/// The contents of a sequence of actions.
pub open spec fn actions_view(actions: Seq<Action>) -> Seq<ActionView> {
    actions.map_values(|a: Action| a@)
}


impl Node {
    /// The last token handed out is at least the central server's, and every
    /// connection's token lies above the central server's and at most at the
    /// last token handed out.
    pub open spec fn wf(&self) -> bool {
        &&& self.token_counter >= CENTRAL_SERVER
        &&& forall|t: usize| #[trigger]
            self.clients@.contains_key(t) ==> CENTRAL_SERVER < t <= self.token_counter
    }

    /// A node that has not met the central server yet: no neighbours, and the
    /// last token handed out is the central server's.
    pub fn new(tcp_address: String, node_key: [u8; 20]) -> (node: Node)
        ensures
            node.wf(),
            node.token_counter == CENTRAL_SERVER,
            node.clients@ == Map::<usize, Client>::empty(),
            node.state == NodeState::AwaitingHandshake,
            node.tcp_address == tcp_address,
            node.node_key == node_key,
    {
        Node {
            token_counter: CENTRAL_SERVER,
            clients: HashMap::new(),
            state: NodeState::AwaitingHandshake,
            tcp_address,
            node_key,
        }
    }

    /// Keeps `client` under a new token, one above the last one handed out,
    /// and returns that token. The token is held by no other connection.
    pub fn new_client(&mut self, client: Client) -> (token: usize)
        requires
            old(self).wf(),
            old(self).token_counter < usize::MAX,
        ensures
            final(self).wf(),
            token == old(self).token_counter + 1,
            final(self).token_counter == token,
            token != LISTENER,
            token != CENTRAL_SERVER,
            !old(self).clients@.contains_key(token),
            final(self).clients@ == old(self).clients@.insert(token, client),
            final(self).state == old(self).state,
            final(self).tcp_address == old(self).tcp_address,
            final(self).node_key == old(self).node_key,
    {
        self.token_counter = self.token_counter + 1;
        let new_token = self.token_counter;
        self.clients.insert(new_token, client);
        new_token
    }
}

/// The packet by which a node with this address registers with the central
/// server: its key (the SHA-1 digest of the address) as target and sender,
/// and the address as payload, its length cut to 16 bits.
pub open spec fn register_packet_bytes(tcp_address: Seq<char>) -> Seq<u8> {
    let bytes = encode_utf8(tcp_address);
    let key = sha1_digest(bytes);
    packet_bytes(key, key, DHT_REGISTER_BEGIN, (bytes.len() % 65536) as u16, bytes)
}

/// The packet by which a node with this key starts to leave the table.
pub open spec fn deregister_packet_bytes(node_key: Seq<u8>) -> Seq<u8> {
    packet_bytes(node_key, node_key, DHT_DEREGISTER_BEGIN, 0, Seq::empty())
}

/// The packet that registers `node` with the central server.
pub fn register(node: &Node) -> (packet: Vec<u8>)
    ensures
        packet@ == register_packet_bytes(node.tcp_address@),
{
    let sha_key = gen_key(&node.tcp_address);
    let bytes = node.tcp_address.as_str().as_bytes();
    let len = bytes.len();
    let payload_length = len as u16;
    assert(len as u16 == (len % 65536) as u16) by (bit_vector);
    make_packet(&sha_key, &sha_key, DHT_REGISTER_BEGIN, payload_length, bytes)
}

/// The packet by which `node` starts to leave the table.
pub fn deregister(node: &Node) -> (packet: Vec<u8>)
    ensures
        packet@ == deregister_packet_bytes(node.node_key@),
{
    let empty: [u8; 0] = [];
    let packet = make_packet(&node.node_key, &node.node_key, DHT_DEREGISTER_BEGIN, 0, &empty);
    assert(empty@ =~= Seq::<u8>::empty());
    packet
}

/// Checks `bytes` as UTF-8 through std's `str::from_utf8`, which fails exactly
/// when the bytes are not UTF-8. Trusted: the text comes back exactly when the
/// bytes are valid UTF-8 as vstd defines it, and its UTF-8 encoding is `bytes`.
#[verifier::external_body]
fn utf8_text(bytes: &[u8]) -> (text: Option<&str>)
    ensures
        text is Some <==> valid_utf8(bytes@),
        text matches Some(s) ==> encode_utf8(s@) == bytes@,
{
    std::str::from_utf8(bytes).ok()
}

/// A packet that the node can handle. Where this does not hold, the request
/// names a payload that the data does not hold in full, or an address that is
/// not UTF-8.
pub open spec fn packet_well_formed(data: Seq<u8>) -> bool {
    data.len() >= 44 ==> {
        let request_type = header_type(data);
        let end = 44 + header_payload_length(data);
        let mid = 44 + header_payload_length(data) / 2;
        &&& request_type == DHT_REGISTER_BEGIN ==> end <= data.len() && valid_utf8(
            data.subrange(44, end),
        )
        &&& request_type == DHT_DEREGISTER_ACK ==> {
            &&& end <= data.len()
            &&& valid_utf8(data.subrange(44, mid))
            &&& valid_utf8(data.subrange(mid, end))
        }
    }
}

/// Where the node stands after a packet.
pub open spec fn next_node_state(state: NodeState, data: Seq<u8>) -> NodeState {
    if data.len() < 44 {
        state
    } else if header_type(data) == DHT_REGISTER_FAKE_ACK {
        NodeState::Connected
    } else if header_type(data) == DHT_REGISTER_ACK && state == NodeState::Registering {
        NodeState::Connected
    } else {
        state
    }
}

/// What the node does with a packet:
/// - a packet shorter than a header is ignored;
/// - `DHT_REGISTER_FAKE_ACK` (the node is the first of the table): register done is
///   sent to the server, with the packet's target and sender;
/// - `DHT_REGISTER_BEGIN` (a new node): the node connects to the address in the
///   payload, to send it a register acknowledgement with the packet's target and sender;
/// - `DHT_REGISTER_ACK` (a neighbour acknowledges): while registering, register done
///   is sent to the server; otherwise the packet is ignored;
/// - `DHT_DEREGISTER_ACK` (the server lets the node leave): the node connects twice
///   to the first address of the payload, each time to send a deregister begin from
///   its own key to its own key;
/// - `DHT_DEREGISTER_BEGIN` (a neighbour leaves): deregister done is sent to the
///   server, with the packet's target and the node's key as sender;
/// - any other request type is ignored.
pub open spec fn packet_actions(state: NodeState, node_key: Seq<u8>, data: Seq<u8>) -> Seq<
    ActionView,
> {
    if data.len() < 44 {
        Seq::empty()
    } else {
        let request_type = header_type(data);
        let target = data.subrange(0, 20);
        let sender = data.subrange(20, 40);
        let end = 44 + header_payload_length(data);
        let mid = 44 + header_payload_length(data) / 2;
        if request_type == DHT_REGISTER_FAKE_ACK {
            seq![
                ActionView::SendToServer(
                    packet_bytes(target, sender, DHT_REGISTER_DONE, 0, Seq::empty()),
                ),
            ]
        } else if request_type == DHT_REGISTER_BEGIN {
            seq![
                ActionView::Connect(
                    decode_utf8(data.subrange(44, end)),
                    packet_bytes(target, sender, DHT_REGISTER_ACK, 0, Seq::empty()),
                ),
            ]
        } else if request_type == DHT_REGISTER_ACK {
            if state == NodeState::Registering {
                seq![
                    ActionView::SendToServer(
                        packet_bytes(target, sender, DHT_REGISTER_DONE, 0, Seq::empty()),
                    ),
                ]
            } else {
                Seq::empty()
            }
        } else if request_type == DHT_DEREGISTER_ACK {
            let first_address = decode_utf8(data.subrange(44, mid));
            let leave = packet_bytes(node_key, node_key, DHT_DEREGISTER_BEGIN, 0, Seq::empty());
            seq![
                ActionView::Connect(first_address, leave),
                ActionView::Connect(first_address, leave),
            ]
        } else if request_type == DHT_DEREGISTER_BEGIN {
            seq![
                ActionView::SendToServer(
                    packet_bytes(target, node_key, DHT_DEREGISTER_DONE, 0, Seq::empty()),
                ),
            ]
        } else {
            Seq::empty()
        }
    }
}


/// Whether `data` is a packet that the node can handle.
fn packet_is_well_formed(data: &[u8]) -> (ok: bool)
    ensures
        ok == packet_well_formed(data@),
{
    match read_header(data) {
        None => true,
        Some((request_type, payload_length)) => {
            let end = 44 + payload_length as usize;
            let mid = 44 + (payload_length / 2) as usize;
            if request_type == DHT_REGISTER_BEGIN {
                end <= data.len() && utf8_text(&data[44..end]).is_some()
            } else if request_type == DHT_DEREGISTER_ACK {
                end <= data.len() && utf8_text(&data[44..mid]).is_some() && utf8_text(
                    &data[mid..end],
                ).is_some()
            } else {
                true
            }
        },
    }
}

/// Handles a packet that the node can handle (see `packet_actions` and
/// `next_node_state`): only the node's state may change.
pub fn handle_well_formed_packet(node: &mut Node, data: &[u8]) -> (actions: Vec<Action>)
    requires
        packet_well_formed(data@),
    ensures
        final(node).state == next_node_state(old(node).state, data@),
        final(node).token_counter == old(node).token_counter,
        final(node).clients == old(node).clients,
        final(node).tcp_address == old(node).tcp_address,
        final(node).node_key == old(node).node_key,
        actions_view(actions@) == packet_actions(old(node).state, old(node).node_key@, data@),
{
    let ghost old_state = node.state;
    let mut actions: Vec<Action> = Vec::new();
    let (request_type, payload_length) = match read_header(data) {
        None => {
            assert(actions_view(actions@) =~= packet_actions(old_state, node.node_key@, data@));
            return actions;
        },
        Some(header) => header,
    };
    let empty: [u8; 0] = [];
    assert(empty@ =~= Seq::<u8>::empty());
    if request_type == DHT_REGISTER_FAKE_ACK {
        node.state = NodeState::Connected;
        let packet = make_packet(&data[0..20], &data[20..40], DHT_REGISTER_DONE, 0, &empty);
        actions.push(Action::SendToServer(packet));
    } else if request_type == DHT_REGISTER_BEGIN {
        let end = 44 + payload_length as usize;
        let address = utf8_text(&data[44..end]).unwrap().to_owned();
        let sending_data = make_packet(&data[0..20], &data[20..40], DHT_REGISTER_ACK, 0, &empty);
        actions.push(Action::Connect(address, sending_data));
    } else if request_type == DHT_REGISTER_ACK {
        match node.state {
            NodeState::Registering => {
                let packet = make_packet(
                    &data[0..20],
                    &data[20..40],
                    DHT_REGISTER_DONE,
                    0,
                    &empty,
                );
                actions.push(Action::SendToServer(packet));
                node.state = NodeState::Connected;
            },
            _ => {},
        }
    } else if request_type == DHT_DEREGISTER_ACK {
        let midpoint = 44 + (payload_length / 2) as usize;
        let end = 44 + payload_length as usize;
        let first_address = utf8_text(&data[44..midpoint]).unwrap().to_owned();
        let _second_address = utf8_text(&data[midpoint..end]).unwrap();
        let first_sending_data = make_packet(
            &node.node_key,
            &node.node_key,
            DHT_DEREGISTER_BEGIN,
            0,
            &empty,
        );
        actions.push(Action::Connect(first_address.clone(), first_sending_data));
        let second_sending_data = make_packet(
            &node.node_key,
            &node.node_key,
            DHT_DEREGISTER_BEGIN,
            0,
            &empty,
        );
        actions.push(Action::Connect(first_address, second_sending_data));
    } else if request_type == DHT_DEREGISTER_BEGIN {
        let packet = make_packet(&data[0..20], &node.node_key, DHT_DEREGISTER_DONE, 0, &empty);
        actions.push(Action::SendToServer(packet));
    }
    assert(actions_view(actions@) =~= packet_actions(old_state, node.node_key@, data@));
    actions
}

/// Handles a packet: `None`, with the node unchanged, for a packet that the node
/// cannot handle (see `packet_well_formed`); otherwise what
/// `handle_well_formed_packet` does.
pub fn handle_packet(node: &mut Node, data: &[u8]) -> (actions: Option<Vec<Action>>)
    ensures
        actions is Some <==> packet_well_formed(data@),
        actions is None ==> *final(node) == *old(node),
        actions matches Some(a) ==> {
            &&& final(node).state == next_node_state(old(node).state, data@)
            &&& final(node).token_counter == old(node).token_counter
            &&& final(node).clients == old(node).clients
            &&& final(node).tcp_address == old(node).tcp_address
            &&& final(node).node_key == old(node).node_key
            &&& actions_view(a@) == packet_actions(old(node).state, old(node).node_key@, data@)
        },
{
    if packet_is_well_formed(data) {
        Some(handle_well_formed_packet(node, data))
    } else {
        None
    }
}


/// The bytes by which the node answers the central server's handshake: the
/// client handshake `DHT_CLIENT_SHAKE` in big-endian order, that is `A!`.
pub open spec fn handshake_answer_bytes() -> Seq<u8> {
    be16(DHT_CLIENT_SHAKE)
}

/// The answer to the central server's handshake (see `handshake_answer_bytes`).
pub fn handshake_answer() -> (answer: Vec<u8>)
    ensures
        answer@ == handshake_answer_bytes(),
        answer@ == seq![0x41u8, 0x21u8],
{
    let mut answer: Vec<u8> = Vec::new();
    push_u16_be(&mut answer, DHT_CLIENT_SHAKE);
    assert(answer@ =~= seq![0x41u8, 0x21u8]);
    answer
}

/// The node and what it decides when its sockets become ready and when it
/// is given a command.
pub struct MyHandler {
    pub node: Node,
}

/// What the node does when the socket of `token` can be read:
/// - the central server: while awaiting the handshake, the handshake is answered
///   and the node registers; later, the server's packet is read;
/// - the listening socket: a neighbour is accepted;
/// - a neighbour: its packet is read, then its socket is registered again for reading.
pub open spec fn readable_actions(state: NodeState, tcp_address: Seq<char>, token: usize) -> Seq<ActionView> {
    if token == CENTRAL_SERVER {
        if state == NodeState::AwaitingHandshake {
            seq![
                ActionView::AnswerHandshake(handshake_answer_bytes()),
                ActionView::SendToServer(register_packet_bytes(tcp_address)),
            ]
        } else {
            seq![ActionView::ReadPacket(CENTRAL_SERVER)]
        }
    } else if token == LISTENER {
        seq![ActionView::Accept]
    } else {
        seq![ActionView::ReadPacket(token), ActionView::Reregister(token)]
    }
}

/// What the node does when the socket of `token`, kept as `client`, can be
/// written: while registering, the data that waits is written; otherwise nothing.
pub open spec fn writable_actions(client: Client, token: usize) -> Seq<ActionView> {
    if client.state == ClientState::Registering {
        seq![ActionView::Write(token, client.sending_data@)]
    } else {
        Seq::empty()
    }
}

/// A client whose waiting data has been written.
pub open spec fn sent(client: Client) -> Client {
    Client {
        interest: client.interest,
        state: ClientState::Connected,
        client_key: client.client_key,
        sending_data: client.sending_data,
    }
}

/// Where the node stands after the socket of `token` became ready.
pub open spec fn ready_state(state: NodeState, token: usize, events: EventSet) -> NodeState {
    if events.readable && token == CENTRAL_SERVER && state == NodeState::AwaitingHandshake {
        NodeState::Registering
    } else {
        state
    }
}

/// The connections after the socket of `token` became ready.
pub open spec fn ready_clients(clients: Map<usize, Client>, token: usize, events: EventSet) -> Map<
    usize,
    Client,
> {
    if events.writable && clients[token].state == ClientState::Registering {
        clients.insert(token, sent(clients[token]))
    } else {
        clients
    }
}

/// What the node does when the socket of `token` becomes ready: first for
/// reading, then for writing.
pub open spec fn ready_actions(
    state: NodeState,
    tcp_address: Seq<char>,
    clients: Map<usize, Client>,
    token: usize,
    events: EventSet,
) -> Seq<ActionView> {
    (if events.readable {
        readable_actions(state, tcp_address, token)
    } else {
        Seq::empty()
    }) + (if events.writable {
        writable_actions(clients[token], token)
    } else {
        Seq::empty()
    })
}

/// The command that starts to leave the table.
pub const DEREGISTER_COMMAND: u32 = 1;

impl MyHandler {
    /// Decides what to do when the socket of `token` becomes ready: first for
    /// reading (see `readable_actions`), then for writing (see `writable_actions`).
    /// A socket reported writable must be one of the node's connections.
    pub fn ready(&mut self, token: usize, events: EventSet) -> (actions: Vec<Action>)
        requires
            old(self).node.wf(),
            events.writable ==> old(self).node.clients@.contains_key(token),
        ensures
            final(self).node.wf(),
            actions_view(actions@) == ready_actions(
                old(self).node.state,
                old(self).node.tcp_address@,
                old(self).node.clients@,
                token,
                events,
            ),
            final(self).node.state == ready_state(old(self).node.state, token, events),
            final(self).node.clients@ == ready_clients(old(self).node.clients@, token, events),
            final(self).node.token_counter == old(self).node.token_counter,
            final(self).node.tcp_address == old(self).node.tcp_address,
            final(self).node.node_key == old(self).node.node_key,
    {
        let ghost old_node = self.node;
        let mut actions: Vec<Action> = Vec::new();
        if events.readable {
            if token == CENTRAL_SERVER {
                match self.node.state {
                    NodeState::AwaitingHandshake => {
                        actions.push(Action::AnswerHandshake(handshake_answer()));
                        self.node.state = NodeState::Registering;
                        let packet = register(&self.node);
                        actions.push(Action::SendToServer(packet));
                    },
                    _ => {
                        actions.push(Action::ReadPacket(CENTRAL_SERVER));
                    },
                }
            } else if token == LISTENER {
                actions.push(Action::Accept);
            } else {
                actions.push(Action::ReadPacket(token));
                actions.push(Action::Reregister(token));
            }
        }
        let ghost readable_part = actions@;
        if events.writable {
            let removed = self.node.clients.remove(&token);
            match removed {
                Some(mut client) => {
                    match client.state {
                        ClientState::Registering => {
                            let data = client.sending_data.clone();
                            assert(data@ =~= client.sending_data@);
                            actions.push(Action::Write(token, data));
                            client.state = ClientState::Connected;
                        },
                        _ => {},
                    }
                    self.node.clients.insert(token, client);
                },
                None => {},
            }
            assert(self.node.clients@ =~= ready_clients(old_node.clients@, token, events));
        }
        assert(actions_view(actions@) =~= ready_actions(
            old_node.state,
            old_node.tcp_address@,
            old_node.clients@,
            token,
            events,
        ));
        actions
    }

    /// Decides what to do with a command: `DEREGISTER_COMMAND` sends the packet
    /// that starts to leave the table; any other command does nothing.
    pub fn notify(&mut self, msg: u32) -> (actions: Vec<Action>)
        ensures
            final(self).node == old(self).node,
            actions_view(actions@) == (if msg == DEREGISTER_COMMAND {
                seq![ActionView::SendToServer(deregister_packet_bytes(old(self).node.node_key@))]
            } else {
                Seq::empty()
            }),
    {
        let mut actions: Vec<Action> = Vec::new();
        if msg == DEREGISTER_COMMAND {
            let packet = deregister(&self.node);
            actions.push(Action::SendToServer(packet));
        }
        assert(actions_view(actions@) =~= (if msg == DEREGISTER_COMMAND {
            seq![ActionView::SendToServer(deregister_packet_bytes(self.node.node_key@))]
        } else {
            Seq::empty()
        }));
        actions
    }
}


/// How far a node state is in joining the table.
pub open spec fn state_rank(state: NodeState) -> int {
    match state {
        NodeState::AwaitingHandshake => 0,
        NodeState::Registering => 1,
        NodeState::OneAck => 2,
        NodeState::Connected => 3,
    }
}

/// No packet moves the node back in joining the table.
pub proof fn lemma_packet_never_moves_back(state: NodeState, data: Seq<u8>)
    ensures
        state_rank(next_node_state(state, data)) >= state_rank(state),
{
}

/// No readiness moves the node back in joining the table.
pub proof fn lemma_ready_never_moves_back(node: Node, token: usize, events: EventSet)
    ensures
        state_rank(ready_state(node.state, token, events)) >= state_rank(node.state),
{
}

/// The central server's handshake is answered at most once: a readable server
/// moves a node that awaits the handshake past it, and a node past it reads the
/// server's packets instead.
pub proof fn lemma_handshake_answered_once(node: Node, events: EventSet)
    requires
        events.readable,
    ensures
        ready_state(node.state, CENTRAL_SERVER, events) != NodeState::AwaitingHandshake,
        node.state != NodeState::AwaitingHandshake ==> readable_actions(node.state, node.tcp_address@, CENTRAL_SERVER)
            == seq![ActionView::ReadPacket(CENTRAL_SERVER)],
{
}

/// Register done is sent at most once: after a register acknowledgement, a
/// second one is never answered.
pub proof fn lemma_register_done_sent_once(
    state: NodeState,
    node_key: Seq<u8>,
    first: Seq<u8>,
    second: Seq<u8>,
)
    requires
        first.len() >= 44,
        header_type(first) == DHT_REGISTER_ACK,
        header_type(second) == DHT_REGISTER_ACK,
    ensures
        packet_actions(next_node_state(state, first), node_key, second) == Seq::<ActionView>::empty(),
{
}

/// The data that waits on a neighbour's connection is written at most once:
/// after the socket was writable, a second writable event writes nothing.
pub proof fn lemma_pending_data_written_once(node: Node, token: usize, events: EventSet)
    requires
        events.writable,
        node.clients@.contains_key(token),
    ensures
        writable_actions(ready_clients(node.clients@, token, events)[token], token) == Seq::<
            ActionView,
        >::empty(),
{
}


/// Something that happens to the node: a socket becomes ready, or a packet
/// arrives.
pub ghost enum NodeEvent {
    Ready(usize, EventSet),
    Packet(Seq<u8>),
}

/// Where the node stands after one event.
pub open spec fn event_state(state: NodeState, event: NodeEvent) -> NodeState {
    match event {
        NodeEvent::Ready(token, events) => ready_state(state, token, events),
        NodeEvent::Packet(data) => next_node_state(state, data),
    }
}

/// Where the node stands after a run of events, taken in order.
pub open spec fn run_state(state: NodeState, run: Seq<NodeEvent>) -> NodeState
    decreases run.len(),
{
    if run.len() == 0 {
        state
    } else {
        run_state(event_state(state, run[0]), run.drop_first())
    }
}

/// Over any run of readiness events and packets, the node never moves back in
/// joining the table, and once connected it stays connected.
pub proof fn lemma_run_never_moves_back(state: NodeState, run: Seq<NodeEvent>)
    ensures
        state_rank(run_state(state, run)) >= state_rank(state),
        state == NodeState::Connected ==> run_state(state, run) == NodeState::Connected,
    decreases run.len(),
{
    if run.len() > 0 {
        lemma_run_never_moves_back(event_state(state, run[0]), run.drop_first());
    }
}

/// What the node does over a run of readiness events, each a token and the
/// readiness of its socket, taken in order.
pub open spec fn run_ready_actions(
    state: NodeState,
    tcp_address: Seq<char>,
    clients: Map<usize, Client>,
    run: Seq<(usize, EventSet)>,
) -> Seq<ActionView>
    decreases run.len(),
{
    if run.len() == 0 {
        Seq::empty()
    } else {
        let (token, events) = run[0];
        ready_actions(state, tcp_address, clients, token, events) + run_ready_actions(
            ready_state(state, token, events),
            tcp_address,
            ready_clients(clients, token, events),
            run.drop_first(),
        )
    }
}

/// How many of `actions` write to the socket of `token`.
pub open spec fn writes_to(actions: Seq<ActionView>, token: usize) -> nat
    decreases actions.len(),
{
    if actions.len() == 0 {
        0
    } else {
        (if actions[0] matches ActionView::Write(t, _) && t == token {
            1nat
        } else {
            0nat
        }) + writes_to(actions.drop_first(), token)
    }
}

proof fn lemma_writes_to_add(a: Seq<ActionView>, b: Seq<ActionView>, token: usize)
    ensures
        writes_to(a + b, token) == writes_to(a, token) + writes_to(b, token),
    decreases a.len(),
{
    if a.len() > 0 {
        assert((a + b).drop_first() =~= a.drop_first() + b);
        lemma_writes_to_add(a.drop_first(), b, token);
    } else {
        assert(a + b =~= b);
    }
}

/// Over any run of readiness events, the data that waits on a connection is
/// written at most once, and not at all once the connection has left the
/// registering state.
pub proof fn lemma_run_writes_at_most_once(
    state: NodeState,
    tcp_address: Seq<char>,
    clients: Map<usize, Client>,
    run: Seq<(usize, EventSet)>,
    token: usize,
)
    ensures
        writes_to(run_ready_actions(state, tcp_address, clients, run), token) <= (if clients[token].state
            == ClientState::Registering {
            1nat
        } else {
            0nat
        }),
    decreases run.len(),
{
    if run.len() > 0 {
        let (t, events) = run[0];
        let readable_part = if events.readable {
            readable_actions(state, tcp_address, t)
        } else {
            Seq::empty()
        };
        let writable_part = if events.writable {
            writable_actions(clients[t], t)
        } else {
            Seq::empty()
        };
        let next_clients = ready_clients(clients, t, events);
        let rest = run_ready_actions(ready_state(state, t, events), tcp_address, next_clients, run.drop_first());
        lemma_run_writes_at_most_once(
            ready_state(state, t, events),
            tcp_address,
            next_clients,
            run.drop_first(),
            token,
        );
        lemma_writes_to_add(readable_part, writable_part, token);
        lemma_writes_to_add(readable_part + writable_part, rest, token);
        assert(writes_to(readable_part, token) == 0) by {
            reveal_with_fuel(writes_to, 3);
        }
        assert(writes_to(writable_part, token) == (if events.writable && t == token
            && clients[t].state == ClientState::Registering {
            1nat
        } else {
            0nat
        })) by {
            reveal_with_fuel(writes_to, 2);
        }
        if t != token || !events.writable {
            assert(next_clients[token] == clients[token]);
        } else if clients[t].state == ClientState::Registering {
            assert(next_clients[token].state == ClientState::Connected);
        }
    }
}


/// The reply that carries the target and sender of `data` on to the server
/// with another request type: bytes 0 to 40 of `data`, then the request type
/// (below 256) and a zero payload length, high bytes first.
proof fn lemma_reply_bytes(data: Seq<u8>, request_type: u16)
    requires
        data.len() >= 44,
        request_type < 256,
    ensures
        packet_bytes(data.subrange(0, 20), data.subrange(20, 40), request_type, 0, Seq::empty())
            == data.subrange(0, 40) + seq![0u8, request_type as u8, 0u8, 0u8],
{
    assert(packet_bytes(data.subrange(0, 20), data.subrange(20, 40), request_type, 0, Seq::empty())
        =~= data.subrange(0, 40) + seq![0u8, request_type as u8, 0u8, 0u8]);
}

/// A packet shorter than a header is ignored, in every state.
pub proof fn lemma_short_packet_ignored(state: NodeState, node_key: Seq<u8>, data: Seq<u8>)
    requires
        data.len() < 44,
    ensures
        packet_actions(state, node_key, data) == Seq::<ActionView>::empty(),
        next_node_state(state, data) == state,
{
}

/// A fake register acknowledgement (request type 3) is answered in every state by
/// exactly one packet to the server: the first 40 bytes of the packet received
/// (its target and sender), register done (request type 4) and a zero payload
/// length. The node is then connected.
pub proof fn lemma_fake_ack_in_every_state(state: NodeState, node_key: Seq<u8>, data: Seq<u8>)
    requires
        data.len() >= 44,
        data[40] == 0u8,
        data[41] == 3u8,
    ensures
        packet_actions(state, node_key, data) == seq![
            ActionView::SendToServer(data.subrange(0, 40) + seq![0u8, 4u8, 0u8, 0u8]),
        ],
        next_node_state(state, data) == NodeState::Connected,
{
    lemma_reply_bytes(data, 4);
}

/// A register request (request type 1) makes the node connect, in every state, to
/// the address whose UTF-8 encoding is the payload, to send it a register
/// acknowledgement (request type 2) with the target and sender of the request and
/// a zero payload length. The node's state does not change.
pub proof fn lemma_register_begin_connects(state: NodeState, node_key: Seq<u8>, data: Seq<u8>)
    requires
        data.len() >= 44,
        data[40] == 0u8,
        data[41] == 1u8,
        packet_well_formed(data),
    ensures
        ({
            let actions = packet_actions(state, node_key, data);
            let end = 44 + data[42] as int * 256 + data[43] as int;
            &&& actions.len() == 1
            &&& actions[0] matches ActionView::Connect(address, reply) && {
                &&& encode_utf8(address) == data.subrange(44, end)
                &&& reply == data.subrange(0, 40) + seq![0u8, 2u8, 0u8, 0u8]
            }
        }),
        next_node_state(state, data) == state,
{
    lemma_reply_bytes(data, 2);
    let end = 44 + header_payload_length(data);
    vstd::utf8::decode_utf8_encode_utf8(data.subrange(44, end));
}

/// A register acknowledgement (request type 2) is answered only while the node
/// registers: by the first 40 bytes of the acknowledgement, register done
/// (request type 4) and a zero payload length, after which the node is connected.
/// In any other state it is ignored and the state does not change.
pub proof fn lemma_register_ack(state: NodeState, node_key: Seq<u8>, data: Seq<u8>)
    requires
        data.len() >= 44,
        data[40] == 0u8,
        data[41] == 2u8,
    ensures
        state == NodeState::Registering ==> packet_actions(state, node_key, data) == seq![
            ActionView::SendToServer(data.subrange(0, 40) + seq![0u8, 4u8, 0u8, 0u8]),
        ] && next_node_state(state, data) == NodeState::Connected,
        state != NodeState::Registering ==> packet_actions(state, node_key, data) == Seq::<
            ActionView,
        >::empty() && next_node_state(state, data) == state,
{
    lemma_reply_bytes(data, 4);
}

/// A deregister acknowledgement (request type 12) makes the node connect twice, in
/// every state, to the address whose UTF-8 encoding is the first half of the
/// payload, each time to send a deregister begin (request type 11) with its own
/// key as target and sender and a zero payload length. The state does not change.
pub proof fn lemma_deregister_ack_connects(state: NodeState, node_key: Seq<u8>, data: Seq<u8>)
    requires
        data.len() >= 44,
        data[40] == 0u8,
        data[41] == 12u8,
        packet_well_formed(data),
        node_key.len() == 20,
    ensures
        ({
            let actions = packet_actions(state, node_key, data);
            let mid = 44 + (data[42] as int * 256 + data[43] as int) / 2;
            let leave = node_key + node_key + seq![0u8, 11u8, 0u8, 0u8];
            &&& actions.len() == 2
            &&& actions[0] == actions[1]
            &&& actions[0] matches ActionView::Connect(address, reply) && {
                &&& encode_utf8(address) == data.subrange(44, mid)
                &&& reply == leave
            }
        }),
        next_node_state(state, data) == state,
{
    let mid = 44 + header_payload_length(data) / 2;
    vstd::utf8::decode_utf8_encode_utf8(data.subrange(44, mid));
    assert(packet_bytes(node_key, node_key, DHT_DEREGISTER_BEGIN, 0, Seq::empty()) =~= node_key
        + node_key + seq![0u8, 11u8, 0u8, 0u8]);
}

/// A deregister request from a neighbour (request type 11) is answered in every
/// state by exactly one packet to the server: the target of the request, the
/// node's own key as sender, deregister done (request type 13) and a zero payload
/// length. The state does not change.
pub proof fn lemma_deregister_begin_answered(state: NodeState, node_key: Seq<u8>, data: Seq<u8>)
    requires
        data.len() >= 44,
        data[40] == 0u8,
        data[41] == 11u8,
        node_key.len() == 20,
    ensures
        packet_actions(state, node_key, data) == seq![
            ActionView::SendToServer(data.subrange(0, 20) + node_key + seq![0u8, 13u8, 0u8, 0u8]),
        ],
        next_node_state(state, data) == state,
{
    assert(packet_bytes(data.subrange(0, 20), node_key, DHT_DEREGISTER_DONE, 0, Seq::empty())
        =~= data.subrange(0, 20) + node_key + seq![0u8, 13u8, 0u8, 0u8]);
}

/// A packet of any other request type is ignored, in every state.
pub proof fn lemma_other_requests_ignored(state: NodeState, node_key: Seq<u8>, data: Seq<u8>)
    requires
        data.len() >= 44,
        ({
            let t = data[40] as int * 256 + data[41] as int;
            t != 1 && t != 2 && t != 3 && t != 11 && t != 12
        }),
    ensures
        packet_actions(state, node_key, data) == Seq::<ActionView>::empty(),
        next_node_state(state, data) == state,
{
}

/// The packet that starts to leave the table: the node's key as target and as
/// sender, deregister begin (request type 11), a zero payload length and no payload.
pub proof fn lemma_deregister_packet(node_key: Seq<u8>)
    requires
        node_key.len() == 20,
    ensures
        deregister_packet_bytes(node_key) == node_key + node_key + seq![0u8, 11u8, 0u8, 0u8],
{
    assert(deregister_packet_bytes(node_key) =~= node_key + node_key + seq![0u8, 11u8, 0u8, 0u8]);
}

/// The packet that registers a node: the digest of its address's UTF-8 bytes as
/// target and as sender, register begin (request type 1), the length of those
/// bytes modulo 65536, then the bytes themselves.
pub proof fn lemma_register_packet(tcp_address: Seq<char>)
    requires
        sha1_digest(encode_utf8(tcp_address)).len() == 20,
    ensures
        ({
            let bytes = encode_utf8(tcp_address);
            let key = sha1_digest(bytes);
            let packet = register_packet_bytes(tcp_address);
            &&& packet.len() == 44 + bytes.len()
            &&& packet.subrange(0, 20) == key
            &&& packet.subrange(20, 40) == key
            &&& packet[40] == 0u8
            &&& packet[41] == 1u8
            &&& packet[42] as int * 256 + packet[43] as int == bytes.len() % 65536
            &&& packet.subrange(44, packet.len() as int) == bytes
        }),
{
    let bytes = encode_utf8(tcp_address);
    let key = sha1_digest(bytes);
    crate::wire::lemma_packet_layout(key, key, DHT_REGISTER_BEGIN, (bytes.len() % 65536) as u16, bytes);
    let packet = register_packet_bytes(tcp_address);
    assert(packet[40] as int * 256 + packet[41] as int == 1);
}

/// What a readable socket leads to, whatever the node's state: the listening
/// socket is always accepted on; a neighbour is always read and then registered
/// again; the central server is answered with `A!` and sent the register packet
/// while the node awaits the handshake, and read otherwise.
pub proof fn lemma_readable_actions(state: NodeState, tcp_address: Seq<char>, token: usize)
    ensures
        token == 0 ==> readable_actions(state, tcp_address, token) == seq![ActionView::Accept],
        token == 1 && state == NodeState::AwaitingHandshake ==> readable_actions(
            state,
            tcp_address,
            token,
        ) == seq![
            ActionView::AnswerHandshake(seq![0x41u8, 0x21u8]),
            ActionView::SendToServer(register_packet_bytes(tcp_address)),
        ],
        token == 1 && state != NodeState::AwaitingHandshake ==> readable_actions(
            state,
            tcp_address,
            token,
        ) == seq![ActionView::ReadPacket(1)],
        token > 1 ==> readable_actions(state, tcp_address, token) == seq![
            ActionView::ReadPacket(token),
            ActionView::Reregister(token),
        ],
{
    assert(handshake_answer_bytes() =~= seq![0x41u8, 0x21u8]);
}

/// What a writable neighbour leads to: the data that waits on it is written
/// while it registers, and nothing otherwise.
pub proof fn lemma_writable_actions(client: Client, token: usize)
    ensures
        client.state == ClientState::Registering ==> writable_actions(client, token) == seq![
            ActionView::Write(token, client.sending_data@),
        ],
        client.state != ClientState::Registering ==> writable_actions(client, token) == Seq::<
            ActionView,
        >::empty(),
{
}

/// A ready socket changes the node's state only when the central server is
/// readable while the node awaits the handshake: it then registers.
pub proof fn lemma_ready_state(state: NodeState, token: usize, events: EventSet)
    ensures
        events.readable && token == 1 && state == NodeState::AwaitingHandshake ==> ready_state(
            state,
            token,
            events,
        ) == NodeState::Registering,
        !(events.readable && token == 1 && state == NodeState::AwaitingHandshake) ==> ready_state(
            state,
            token,
            events,
        ) == state,
{
}

/// A ready socket changes the connections only when a registering neighbour is
/// writable: that one becomes connected, keeping its interest, key and data; no
/// other connection changes and none is added or removed.
pub proof fn lemma_ready_clients(clients: Map<usize, Client>, token: usize, events: EventSet)
    requires
        events.writable ==> clients.contains_key(token),
    ensures
        ready_clients(clients, token, events).dom() == clients.dom(),
        forall|t: usize|
            t != token && #[trigger] clients.contains_key(t) ==> ready_clients(clients, token, events)[t]
                == clients[t],
        events.writable && clients[token].state == ClientState::Registering ==> {
            let c = ready_clients(clients, token, events)[token];
            &&& c.state == ClientState::Connected
            &&& c.interest == clients[token].interest
            &&& c.client_key == clients[token].client_key
            &&& c.sending_data == clients[token].sending_data
        },
        !(events.writable && clients[token].state == ClientState::Registering) ==> ready_clients(
            clients,
            token,
            events,
        ) == clients,
{
    if events.writable && clients[token].state == ClientState::Registering {
        assert(ready_clients(clients, token, events).dom() =~= clients.dom());
    }
}

/// A ready socket leads first to what its readiness for reading asks, then to
/// what its readiness for writing asks, and to nothing when it is neither.
pub proof fn lemma_ready_actions_order(
    state: NodeState,
    tcp_address: Seq<char>,
    clients: Map<usize, Client>,
    token: usize,
    events: EventSet,
)
    ensures
        !events.readable && !events.writable ==> ready_actions(
            state,
            tcp_address,
            clients,
            token,
            events,
        ) == Seq::<ActionView>::empty(),
        events.readable && !events.writable ==> ready_actions(
            state,
            tcp_address,
            clients,
            token,
            events,
        ) == readable_actions(state, tcp_address, token),
        !events.readable && events.writable ==> ready_actions(
            state,
            tcp_address,
            clients,
            token,
            events,
        ) == writable_actions(clients[token], token),
        events.readable && events.writable ==> ready_actions(
            state,
            tcp_address,
            clients,
            token,
            events,
        ) == readable_actions(state, tcp_address, token) + writable_actions(clients[token], token),
{
    assert(Seq::<ActionView>::empty() + Seq::<ActionView>::empty() =~= Seq::<ActionView>::empty());
    assert(readable_actions(state, tcp_address, token) + Seq::<ActionView>::empty() =~= readable_actions(state, tcp_address, token));
    assert(Seq::<ActionView>::empty() + writable_actions(clients[token], token) =~= writable_actions(clients[token], token));
}


/// Each action is seen with the same variant and the views of its fields; a
/// sequence of actions is seen action by action.
pub proof fn lemma_action_views(action: Action, actions: Seq<Action>)
    ensures
        action matches Action::AnswerHandshake(d) ==> action@ == ActionView::AnswerHandshake(d@),
        action matches Action::SendToServer(d) ==> action@ == ActionView::SendToServer(d@),
        action matches Action::ReadPacket(t) ==> action@ == ActionView::ReadPacket(t),
        action matches Action::Accept ==> action@ == ActionView::Accept,
        action matches Action::Reregister(t) ==> action@ == ActionView::Reregister(t),
        action matches Action::Connect(a, d) ==> action@ == ActionView::Connect(a@, d@),
        action matches Action::Write(t, d) ==> action@ == ActionView::Write(t, d@),
        actions_view(actions).len() == actions.len(),
        forall|i: int| 0 <= i < actions.len() ==> #[trigger] actions_view(actions)[i] == actions[i]@,
{
}

/// The packets the node can handle: all but a register request (request type 1)
/// whose announced payload is missing or not UTF-8, and a deregister acknowledgement
/// (request type 12) whose announced payload is missing or has a half that is not
/// UTF-8. Packets shorter than a header are handled (ignored).
pub proof fn lemma_packet_well_formed(data: Seq<u8>)
    ensures
        data.len() < 44 ==> packet_well_formed(data),
        data.len() >= 44 ==> {
            let t = data[40] as int * 256 + data[41] as int;
            let end = 44 + data[42] as int * 256 + data[43] as int;
            let mid = 44 + (data[42] as int * 256 + data[43] as int) / 2;
            &&& t != 1 && t != 12 ==> packet_well_formed(data)
            &&& t == 1 ==> (packet_well_formed(data) <==> end <= data.len() && valid_utf8(
                data.subrange(44, end),
            ))
            &&& t == 12 ==> (packet_well_formed(data) <==> end <= data.len() && valid_utf8(
                data.subrange(44, mid),
            ) && valid_utf8(data.subrange(mid, end)))
        },
{
}


/// The key of a neighbour that has not given one is twenty zero bytes.
pub proof fn lemma_zero_key()
    ensures
        zero_key().len() == 20,
        forall|i: int| 0 <= i < 20 ==> #[trigger] zero_key()[i] == 0u8,
{
}

} // verus!
