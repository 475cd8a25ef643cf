use bpsr_tools::session::{is_game_notify, SessionTable, TcpStream, UUID_GAME};

fn sized(kind: u16, body: &[u8]) -> Vec<u8> {
    let mut f = ((6 + body.len()) as u32).to_be_bytes().to_vec();
    f.extend_from_slice(&kind.to_be_bytes());
    f.extend_from_slice(body);
    f
}

fn game_frame(method: u32) -> Vec<u8> {
    let mut body = UUID_GAME.to_be_bytes().to_vec();
    body.extend_from_slice(&0u32.to_be_bytes());
    body.extend_from_slice(&method.to_be_bytes());
    sized(2, &body)
}

#[test]
fn frames_cut_across_segments() {
    let a = sized(3, b"alpha");
    let b = sized(3, b"beta!");
    let mut s = TcpStream::new();
    assert!(s.feed(100, &a[..5]).is_empty());
    let mut rest = a[5..].to_vec();
    rest.extend_from_slice(&b);
    let out = s.feed(105, &rest);
    assert_eq!(out, vec![a, b]);
}

#[test]
fn out_of_order_segments_wait_their_turn() {
    let f = sized(3, b"0123456789");
    let mut s = TcpStream::new();
    assert!(s.feed(1000, &f[..4]).is_empty());
    assert!(s.feed(1008, &f[8..]).is_empty());
    let out = s.feed(1004, &f[4..8]);
    assert_eq!(out, vec![f]);
}

#[test]
fn retransmission_is_ignored() {
    let f = sized(3, b"xyz");
    let mut s = TcpStream::new();
    assert_eq!(s.feed(1, &f), vec![f.clone()]);
    assert!(s.feed(1, &f).is_empty());
}

#[test]
fn bad_length_drops_buffer() {
    let mut s = TcpStream::new();
    assert!(s.feed(1, &[0, 0, 0, 2, 9, 9, 9]).is_empty());
    let f = sized(3, b"ok");
    assert_eq!(s.feed(8, &f), vec![f]);
}

#[test]
fn notify_detection() {
    assert!(is_game_notify(&game_frame(1)));
    assert!(!is_game_notify(&sized(3, &[0u8; 16])));
    assert!(!is_game_notify(&[0, 0, 0, 6, 0, 2]));
}

#[test]
fn server_is_learned_from_first_game_notify() {
    let mut t = SessionTable::new();
    let f = game_frame(9);
    assert_eq!(t.feed([43, 155, 2, 3], 5003, 40000, 7, &f), vec![f.clone()]);
    // another host in the same subnet still gets through
    assert_eq!(t.feed([43, 155, 9, 9], 5004, 40001, 1, &f), vec![f.clone()]);
    // a host elsewhere is ignored from now on
    assert!(t.feed([8, 8, 8, 8], 80, 40002, 1, &f).is_empty());
}

#[test]
fn private_server_accepts_any_source() {
    let mut t = SessionTable::new();
    let f = game_frame(9);
    assert_eq!(t.feed([10, 1, 2, 3], 5003, 40000, 7, &f), vec![f.clone()]);
    assert_eq!(t.feed([8, 8, 8, 8], 80, 40002, 1, &f), vec![f.clone()]);
}
