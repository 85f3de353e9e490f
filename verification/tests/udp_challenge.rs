use rcon::udp::{
    build_challenge_request, build_command_datagram, extract_challenge, prepare_command,
    reassemble_datagrams, strip_chunk, ChunkAccumulator,
};
use rcon::{Game, RconError};

#[test]
fn padding_and_marker_stripping() {
    // skip the padding run 0xff 0xfe 0x1d, skip one marker byte 'l',
    // strip the trailing nulls
    let chunk = [0xff, 0xfe, 0x1d, 0x6c, b'h', b'e', b'l', b'l', b'o', 0x00, 0x00];
    assert_eq!(strip_chunk(&chunk), b"hello".to_vec());
}

#[test]
fn stripping_all_padding_yields_empty() {
    let chunk = [0xff, 0xff, 0x00, 0x00];
    assert_eq!(strip_chunk(&chunk), Vec::<u8>::new());
}

#[test]
fn stripping_empty_chunk_yields_empty() {
    assert_eq!(strip_chunk(&[]), Vec::<u8>::new());
}

#[test]
fn stripping_skips_marker_even_without_padding() {
    let chunk = [b'l', b'o', b'k'];
    assert_eq!(strip_chunk(&chunk), b"ok".to_vec());
}

#[test]
fn accumulator_concatenates_in_receive_order() {
    let mut acc = ChunkAccumulator::new();
    acc.push_chunk(&[0xff, 0xff, b'l', b'a', b'b']);
    acc.push_chunk(&[0xff, 0xff, b'l', b'c', b'd', 0x00]);
    assert_eq!(acc.chunks, 2);
    assert_eq!(acc.finish_on_timeout().unwrap(), "abcd");
}

#[test]
fn timeout_with_no_chunk_is_hard_error() {
    let acc = ChunkAccumulator::new();
    assert_eq!(acc.finish_on_timeout(), Err(RconError::Timeout));
}

#[test]
fn timeout_after_chunks_is_success() {
    let mut acc = ChunkAccumulator::new();
    acc.push_chunk(&[0xff, b'l', b'd', b'o', b'n', b'e']);
    assert_eq!(acc.finish_on_timeout().unwrap(), "done");
}

#[test]
fn whole_response_from_datagrams() {
    let chunks =
        vec![vec![0xff, 0xff, b'l', b'p', b'a', b'r', b't', b' '], vec![0xff, b'l', b't', b'w',
            b'o', 0x00]];
    assert_eq!(reassemble_datagrams(&chunks).unwrap(), "part two");
}

#[test]
fn no_datagram_at_all_times_out() {
    let chunks: Vec<Vec<u8>> = Vec::new();
    assert_eq!(reassemble_datagrams(&chunks), Err(RconError::Timeout));
}

#[test]
fn invalid_utf8_in_chunk_is_replaced() {
    let mut acc = ChunkAccumulator::new();
    acc.push_chunk(&[b'A', 0xf0, b'B']);
    // 'A' is the marker byte here; 0xf0 alone is invalid UTF-8
    assert_eq!(acc.finish_on_timeout().unwrap(), "\u{fffd}B");
}

#[test]
fn challenge_is_last_token() {
    assert_eq!(extract_challenge("challenge rcon 12345678").unwrap(), "12345678");
}

#[test]
fn challenge_token_is_trimmed() {
    assert_eq!(extract_challenge("challenge rcon 998877\n").unwrap(), "998877");
}

#[test]
fn empty_challenge_reply_is_protocol_violation() {
    assert_eq!(extract_challenge(""), Err(RconError::ProtocolViolation));
    assert_eq!(extract_challenge("challenge rcon "), Err(RconError::ProtocolViolation));
    assert_eq!(extract_challenge(" \n"), Err(RconError::ProtocolViolation));
}

#[test]
fn challenge_request_datagram_bytes() {
    let mut expected = vec![0xff, 0xff, 0xff, 0xff];
    expected.extend_from_slice(b"challenge rcon");
    assert_eq!(build_challenge_request(), expected);
}

#[test]
fn command_datagram_bytes() {
    let d = build_command_datagram("12345678", "hunter2", "status");
    let mut expected = vec![0xff, 0xff, 0xff, 0xff];
    expected.extend_from_slice(b"rcon 12345678 \"hunter2\" status\x00");
    assert_eq!(d, expected);
}

#[test]
fn prepare_command_runs_the_whole_exchange_logic() {
    let d = prepare_command("challenge rcon 4242", "pw", "users").unwrap();
    let mut expected = vec![0xff, 0xff, 0xff, 0xff];
    expected.extend_from_slice(b"rcon 4242 \"pw\" users\x00");
    assert_eq!(d, expected);
}

#[test]
fn prepare_command_refuses_empty_challenge() {
    assert_eq!(prepare_command("", "pw", "users"), Err(RconError::ProtocolViolation));
}

#[test]
fn default_ports_per_game() {
    assert_eq!(Game::Goldsrc.default_port(), Some(27015));
    assert_eq!(Game::Source.default_port(), Some(27015));
    assert_eq!(Game::Minecraft.default_port(), Some(25575));
    assert_eq!(Game::Factorio.default_port(), None);
}

#[test]
fn protocol_selection_per_game() {
    assert!(!Game::Goldsrc.uses_tcp_protocol());
    assert!(Game::Source.uses_tcp_protocol());
    assert!(Game::Minecraft.uses_tcp_protocol());
    assert!(Game::Factorio.uses_tcp_protocol());
}
