use rcon::packet::Packet;
use rcon::tcp::{
    check_auth_ack, check_auth_exchange, check_auth_response, expects_auth_ack,
    reassemble_response, Reassembler, TcpSession,
};
use rcon::{Game, RconError};

fn fragment(id: i32, text: &str) -> Packet {
    Packet { id, ty: 0, body: text.as_bytes().to_vec() }
}

fn sentinel_reply(id: i32) -> Packet {
    Packet { id, ty: 0, body: Vec::new() }
}

#[test]
fn session_assigns_increasing_ids() {
    let mut s = TcpSession::new(Game::Minecraft);
    let a = s.next_packet(2, b"list".to_vec());
    let b = s.next_packet(0, Vec::new());
    let c = s.next_packet(2, b"say hi".to_vec());
    assert_eq!((a.id, b.id, c.id), (0, 1, 2));
    assert_eq!(s.next_id, 3);
}

#[test]
fn auth_request_is_type_three() {
    let mut s = TcpSession::new(Game::Source);
    let p = s.auth_request("hunter2");
    assert_eq!(p.ty, 3);
    assert_eq!(p.body, b"hunter2".to_vec());
    assert_eq!(p.id, 0);
}

#[test]
fn command_request_is_type_two() {
    let mut s = TcpSession::new(Game::Minecraft);
    let p = s.command_request("list");
    assert_eq!(p.ty, 2);
    assert_eq!(p.body, b"list".to_vec());
}

#[test]
fn sentinel_is_empty_for_most_games() {
    let mut s = TcpSession::new(Game::Source);
    let _ = s.command_request("status");
    let p = s.sentinel_request();
    assert_eq!(p.ty, 0);
    assert!(p.body.is_empty());
    assert_eq!(p.id, 1);
}

#[test]
fn sentinel_is_bogus_command_for_factorio() {
    let mut s = TcpSession::new(Game::Factorio);
    let p = s.sentinel_request();
    assert_eq!(p.ty, 2);
    assert_eq!(p.body, b"/bogus".to_vec());
}

#[test]
fn only_source_expects_auth_ack() {
    assert!(expects_auth_ack(&Game::Source));
    assert!(!expects_auth_ack(&Game::Minecraft));
    assert!(!expects_auth_ack(&Game::Factorio));
}

#[test]
fn auth_rejection_is_authentication_failed() {
    let reply = Packet { id: -1, ty: 2, body: Vec::new() };
    assert_eq!(check_auth_response(&reply), Err(RconError::AuthenticationFailed));
}

#[test]
fn auth_wrong_type_is_protocol_violation() {
    let reply = Packet { id: 0, ty: 1, body: Vec::new() };
    assert_eq!(check_auth_response(&reply), Err(RconError::ProtocolViolation));
}

#[test]
fn auth_success() {
    let reply = Packet { id: 0, ty: 2, body: Vec::new() };
    assert_eq!(check_auth_response(&reply), Ok(()));
}

#[test]
fn auth_ack_must_be_empty_response_type() {
    assert_eq!(check_auth_ack(&Packet { id: 9, ty: 0, body: Vec::new() }), Ok(()));
    assert_eq!(
        check_auth_ack(&Packet { id: 9, ty: 2, body: Vec::new() }),
        Err(RconError::ProtocolViolation)
    );
}

#[test]
fn auth_exchange_source_consumes_ack_first() {
    let packets = vec![
        Packet { id: 0, ty: 0, body: Vec::new() },
        Packet { id: 0, ty: 2, body: Vec::new() },
    ];
    assert_eq!(check_auth_exchange(&Game::Source, &packets), Ok(()));
}

#[test]
fn auth_exchange_source_bad_password() {
    let packets = vec![
        Packet { id: 0, ty: 0, body: Vec::new() },
        Packet { id: -1, ty: 2, body: Vec::new() },
    ];
    assert_eq!(check_auth_exchange(&Game::Source, &packets), Err(RconError::AuthenticationFailed));
}

#[test]
fn auth_exchange_minecraft_takes_reply_directly() {
    let packets = vec![Packet { id: 0, ty: 2, body: Vec::new() }];
    assert_eq!(check_auth_exchange(&Game::Minecraft, &packets), Ok(()));
}

#[test]
fn auth_exchange_times_out_without_packets() {
    let packets: Vec<Packet> = Vec::new();
    assert_eq!(check_auth_exchange(&Game::Minecraft, &packets), Err(RconError::Timeout));
    assert_eq!(check_auth_exchange(&Game::Source, &packets), Err(RconError::Timeout));
}

#[test]
fn response_zero_fragments() {
    let packets = vec![sentinel_reply(1)];
    assert_eq!(reassemble_response(0, 1, &packets).unwrap(), "");
}

#[test]
fn response_one_fragment() {
    let packets = vec![fragment(0, "hello world"), sentinel_reply(1)];
    assert_eq!(reassemble_response(0, 1, &packets).unwrap(), "hello world");
}

#[test]
fn response_five_fragments_in_order() {
    let packets = vec![
        fragment(0, "one "),
        fragment(0, "two "),
        fragment(0, "three "),
        fragment(0, "four "),
        fragment(0, "five"),
        sentinel_reply(1),
    ];
    assert_eq!(reassemble_response(0, 1, &packets).unwrap(), "one two three four five");
}

#[test]
fn response_is_trailing_trimmed() {
    let packets = vec![fragment(0, "players: 3"), fragment(0, " \n\t"), sentinel_reply(1)];
    assert_eq!(reassemble_response(0, 1, &packets).unwrap(), "players: 3");
}

#[test]
fn response_times_out_without_sentinel_reply() {
    let packets = vec![fragment(0, "partial")];
    assert_eq!(reassemble_response(0, 1, &packets), Err(RconError::Timeout));
}

#[test]
fn unexpected_packet_is_protocol_violation() {
    // a packet with a foreign id is neither fragment nor sentinel reply
    let packets = vec![fragment(0, "a"), fragment(7, "intruder"), sentinel_reply(1)];
    assert_eq!(reassemble_response(0, 1, &packets), Err(RconError::ProtocolViolation));
}

#[test]
fn wrong_type_on_command_id_is_protocol_violation() {
    let packets = vec![Packet { id: 0, ty: 2, body: Vec::new() }, sentinel_reply(1)];
    assert_eq!(reassemble_response(0, 1, &packets), Err(RconError::ProtocolViolation));
}

#[test]
fn sentinel_body_is_discarded() {
    let packets = vec![fragment(0, "kept"), Packet { id: 1, ty: 0, body: b"dropped".to_vec() }];
    assert_eq!(reassemble_response(0, 1, &packets).unwrap(), "kept");
}

#[test]
fn reassembler_reports_step_by_step() {
    let mut acc = Reassembler::new(5, 6);
    assert_eq!(acc.take_packet(&fragment(5, "ab")), Ok(false));
    assert_eq!(acc.take_packet(&fragment(5, "cd")), Ok(false));
    assert_eq!(acc.take_packet(&sentinel_reply(6)), Ok(true));
    assert_eq!(acc.finish(), "abcd");
}

#[test]
fn invalid_utf8_fragment_is_replaced_not_rejected() {
    let mut acc = Reassembler::new(0, 1);
    let bad = Packet { id: 0, ty: 0, body: vec![0x61, 0xff, 0x62] };
    assert_eq!(acc.take_packet(&bad), Ok(false));
    assert_eq!(acc.take_packet(&sentinel_reply(1)), Ok(true));
    assert_eq!(acc.finish(), "a\u{fffd}b");
}
