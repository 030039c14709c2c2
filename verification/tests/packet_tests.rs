use dht_node::packet::{
    deregister, handle_packet, handshake_answer, handle_well_formed_packet, register, Action, Client, ClientState,
    EventSet, Interest, MyHandler, Node, NodeState, CENTRAL_SERVER, DEREGISTER_COMMAND, LISTENER,
};
use dht_node::sha::gen_key;
use dht_node::wire::make_packet;

const ADDRESS: &str = "127.0.0.1:9156";

fn node() -> Node {
    Node::new(ADDRESS.to_string(), [7u8; 20])
}

fn packet(request_type: u16, payload_length: u16, payload: &[u8]) -> Vec<u8> {
    make_packet(&[1u8; 20], &[2u8; 20], request_type, payload_length, payload)
}

fn readable() -> EventSet {
    EventSet { readable: true, writable: false }
}

fn writable() -> EventSet {
    EventSet { readable: false, writable: true }
}

#[test]
fn new_node_awaits_handshake() {
    let node = node();
    assert_eq!(node.token_counter, CENTRAL_SERVER);
    assert!(node.clients.is_empty());
    assert_eq!(node.state, NodeState::AwaitingHandshake);
    assert_eq!(node.tcp_address, ADDRESS);
    assert_eq!(node.node_key, [7u8; 20]);
}

#[test]
fn new_client_hands_out_fresh_tokens() {
    let mut node = node();
    let first = node.new_client(Client::incoming());
    let second = node.new_client(Client::outgoing(vec![1, 2, 3]));
    assert_eq!(first, 2);
    assert_eq!(second, 3);
    assert_ne!(first, LISTENER);
    assert_eq!(node.token_counter, 3);
    assert_eq!(node.clients.len(), 2);
    assert_eq!(node.clients[&first].interest, Interest::Readable);
    assert_eq!(node.clients[&second].interest, Interest::Writable);
    assert_eq!(node.clients[&second].sending_data, vec![1, 2, 3]);
}

#[test]
fn client_constructors() {
    let incoming = Client::incoming();
    assert_eq!(incoming.state, ClientState::Registering);
    assert_eq!(incoming.client_key, [0u8; 20]);
    assert!(incoming.sending_data.is_empty());
    let outgoing = Client::outgoing(vec![9]);
    assert_eq!(outgoing.state, ClientState::Registering);
    assert_eq!(outgoing.interest, Interest::Writable);
    assert_eq!(outgoing.sending_data, vec![9]);
}

#[test]
fn register_packet_carries_address_and_key() {
    let node = node();
    let key = gen_key(&ADDRESS.to_string());
    assert_eq!(register(&node), make_packet(&key, &key, 1, 14, ADDRESS.as_bytes()));
}

#[test]
fn register_packet_length_is_cut_to_16_bits() {
    let long_address = "a".repeat(65536 + 3);
    let node = Node::new(long_address.clone(), [0u8; 20]);
    let key = gen_key(&long_address);
    let packet = register(&node);
    assert_eq!(&packet[42..44], &[0, 3]);
    assert_eq!(packet, make_packet(&key, &key, 1, 3, long_address.as_bytes()));
}

#[test]
fn deregister_packet_uses_node_key() {
    let node = node();
    assert_eq!(deregister(&node), make_packet(&[7u8; 20], &[7u8; 20], 11, 0, &[]));
}

#[test]
fn short_packet_is_ignored() {
    let mut node = node();
    assert_eq!(handle_packet(&mut node, &[3u8; 43]), Some(vec![]));
    assert_eq!(node.state, NodeState::AwaitingHandshake);
}

#[test]
fn fake_ack_connects_first_node() {
    let mut node = node();
    let actions = handle_packet(&mut node, &packet(3, 0, &[])).unwrap();
    assert_eq!(actions, vec![Action::SendToServer(packet(4, 0, &[]))]);
    assert_eq!(node.state, NodeState::Connected);
}

#[test]
fn register_begin_connects_to_new_node() {
    let mut node = node();
    let address = b"127.0.0.1:9200";
    let actions = handle_packet(&mut node, &packet(1, 14, address)).unwrap();
    assert_eq!(
        actions,
        vec![Action::Connect("127.0.0.1:9200".to_string(), packet(2, 0, &[]))]
    );
    assert_eq!(node.state, NodeState::AwaitingHandshake);
    assert!(node.clients.is_empty());
}

#[test]
fn register_begin_takes_only_the_announced_payload() {
    let mut node = node();
    let actions = handle_packet(&mut node, &packet(1, 4, b"abcdefgh")).unwrap();
    assert_eq!(actions, vec![Action::Connect("abcd".to_string(), packet(2, 0, &[]))]);
}

#[test]
fn register_begin_with_missing_payload_is_refused() {
    let mut node = node();
    assert_eq!(handle_packet(&mut node, &packet(1, 20, b"short")), None);
    assert_eq!(node.state, NodeState::AwaitingHandshake);
}

#[test]
fn register_begin_with_non_utf8_address_is_refused() {
    let mut node = node();
    assert_eq!(handle_packet(&mut node, &packet(1, 2, &[0xff, 0xfe])), None);
}

#[test]
fn register_ack_is_answered_once() {
    let mut node = node();
    node.state = NodeState::Registering;
    let first = handle_packet(&mut node, &packet(2, 0, &[])).unwrap();
    assert_eq!(first, vec![Action::SendToServer(packet(4, 0, &[]))]);
    assert_eq!(node.state, NodeState::Connected);
    let second = handle_packet(&mut node, &packet(2, 0, &[])).unwrap();
    assert_eq!(second, vec![]);
    assert_eq!(node.state, NodeState::Connected);
}

#[test]
fn register_ack_before_registering_is_ignored() {
    let mut node = node();
    assert_eq!(handle_packet(&mut node, &packet(2, 0, &[])), Some(vec![]));
    assert_eq!(node.state, NodeState::AwaitingHandshake);
}

#[test]
fn deregister_ack_connects_twice_to_first_address() {
    let mut node = node();
    let payload = b"127.0.0.1:9201127.0.0.1:9202";
    let actions = handle_packet(&mut node, &packet(12, 28, payload)).unwrap();
    let leave = make_packet(&[7u8; 20], &[7u8; 20], 11, 0, &[]);
    assert_eq!(
        actions,
        vec![
            Action::Connect("127.0.0.1:9201".to_string(), leave.clone()),
            Action::Connect("127.0.0.1:9201".to_string(), leave),
        ]
    );
}

#[test]
fn deregister_ack_with_non_utf8_second_address_is_refused() {
    let mut node = node();
    assert_eq!(handle_packet(&mut node, &packet(12, 4, &[b'a', b'b', 0xff, 0xff])), None);
}

#[test]
fn deregister_ack_with_missing_payload_is_refused() {
    let mut node = node();
    assert_eq!(handle_packet(&mut node, &packet(12, 10, b"ab")), None);
}

#[test]
fn deregister_begin_is_reported_to_server() {
    let mut node = node();
    let actions = handle_packet(&mut node, &packet(11, 0, &[])).unwrap();
    assert_eq!(
        actions,
        vec![Action::SendToServer(make_packet(&[1u8; 20], &[7u8; 20], 13, 0, &[]))]
    );
}

#[test]
fn other_request_types_are_ignored() {
    let mut node = node();
    assert_eq!(handle_packet(&mut node, &packet(21, 0, &[])), Some(vec![]));
    assert_eq!(handle_packet(&mut node, &packet(4, 0, &[])), Some(vec![]));
    assert_eq!(node.state, NodeState::AwaitingHandshake);
}

#[test]
fn well_formed_packet_handled_directly() {
    let mut node = node();
    let actions = handle_well_formed_packet(&mut node, &packet(3, 0, &[]));
    assert_eq!(actions, vec![Action::SendToServer(packet(4, 0, &[]))]);
    assert_eq!(node.state, NodeState::Connected);
}

#[test]
fn handshake_is_answered_once() {
    let mut handler = MyHandler { node: node() };
    let key = gen_key(&ADDRESS.to_string());
    let actions = handler.ready(CENTRAL_SERVER, readable());
    assert_eq!(
        actions,
        vec![
            Action::AnswerHandshake(vec![0x41, 0x21]),
            Action::SendToServer(make_packet(&key, &key, 1, 14, ADDRESS.as_bytes())),
        ]
    );
    assert_eq!(handler.node.state, NodeState::Registering);
    let actions = handler.ready(CENTRAL_SERVER, readable());
    assert_eq!(actions, vec![Action::ReadPacket(CENTRAL_SERVER)]);
    assert_eq!(handler.node.state, NodeState::Registering);
}

#[test]
fn listener_accepts() {
    let mut handler = MyHandler { node: node() };
    assert_eq!(handler.ready(LISTENER, readable()), vec![Action::Accept]);
}

#[test]
fn neighbour_is_read_then_rearmed() {
    let mut handler = MyHandler { node: node() };
    let token = handler.node.new_client(Client::incoming());
    assert_eq!(
        handler.ready(token, readable()),
        vec![Action::ReadPacket(token), Action::Reregister(token)]
    );
}

#[test]
fn waiting_data_is_written_once() {
    let mut handler = MyHandler { node: node() };
    let token = handler.node.new_client(Client::outgoing(vec![4, 5, 6]));
    assert_eq!(handler.ready(token, writable()), vec![Action::Write(token, vec![4, 5, 6])]);
    assert_eq!(handler.node.clients[&token].state, ClientState::Connected);
    assert_eq!(handler.ready(token, writable()), vec![]);
}

#[test]
fn readable_and_writable_together() {
    let mut handler = MyHandler { node: node() };
    let token = handler.node.new_client(Client::outgoing(vec![1]));
    let both = EventSet { readable: true, writable: true };
    assert_eq!(
        handler.ready(token, both),
        vec![Action::ReadPacket(token), Action::Reregister(token), Action::Write(token, vec![1])]
    );
}

#[test]
fn nothing_ready_does_nothing() {
    let mut handler = MyHandler { node: node() };
    let none = EventSet { readable: false, writable: false };
    assert_eq!(handler.ready(CENTRAL_SERVER, none), vec![]);
    assert_eq!(handler.node.state, NodeState::AwaitingHandshake);
}

#[test]
fn deregister_command() {
    let mut handler = MyHandler { node: node() };
    assert_eq!(DEREGISTER_COMMAND, 1);
    assert_eq!(
        handler.notify(DEREGISTER_COMMAND),
        vec![Action::SendToServer(make_packet(&[7u8; 20], &[7u8; 20], 11, 0, &[]))]
    );
    assert_eq!(handler.notify(2), vec![]);
    assert_eq!(handler.node.state, NodeState::AwaitingHandshake);
}

#[test]
fn handshake_answer_is_client_shake() {
    assert_eq!(handshake_answer(), b"A!".to_vec());
    assert_eq!(handshake_answer(), dht_node::packet::DHT_CLIENT_SHAKE.to_be_bytes().to_vec());
}

#[test]
fn run_of_ready_calls_writes_each_waiting_data_once() {
    let mut handler = MyHandler { node: node() };
    let a = handler.node.new_client(Client::outgoing(vec![1]));
    let b = handler.node.new_client(Client::outgoing(vec![2]));
    let both = EventSet { readable: true, writable: true };
    let mut writes = Vec::new();
    for &(token, events) in [(a, writable()), (b, both), (a, both), (b, writable()), (a, writable())].iter() {
        for action in handler.ready(token, events) {
            if let Action::Write(t, data) = action {
                writes.push((t, data));
            }
        }
    }
    assert_eq!(writes, vec![(a, vec![1]), (b, vec![2])]);
}

#[test]
fn run_never_moves_back() {
    let mut handler = MyHandler { node: node() };
    handler.ready(CENTRAL_SERVER, readable());
    assert_eq!(handler.node.state, NodeState::Registering);
    handle_packet(&mut handler.node, &packet(3, 0, &[])).unwrap();
    assert_eq!(handler.node.state, NodeState::Connected);
    handler.ready(CENTRAL_SERVER, readable());
    handle_packet(&mut handler.node, &packet(2, 0, &[])).unwrap();
    handle_packet(&mut handler.node, &packet(1, 1, b"x")).unwrap();
    assert_eq!(handler.node.state, NodeState::Connected);
}
