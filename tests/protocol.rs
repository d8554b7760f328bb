use pong::game::GameData;
use pong::peers::{
    ball_message, bot_message, id_message, pallet_message, parse_frame, Frame, FrameError,
    Outgoing, PeerEntry, PeerRegistry,
};
use pong::text::{dec_string, fixed_string, parse_fixed};

fn pairs(v: &[Outgoing]) -> Vec<(u64, String)> {
    v.iter().map(|o| (o.to, o.text.clone())).collect()
}

#[test]
fn fixed_text_is_shortest() {
    assert_eq!(fixed_string(7_500), "7.5");
    assert_eq!(fixed_string(20_000), "20");
    assert_eq!(fixed_string(-250), "-0.25");
    assert_eq!(fixed_string(1), "0.001");
    assert_eq!(fixed_string(0), "0");
    assert_eq!(fixed_string(123_450), "123.45");
    assert_eq!(dec_string(0), "0");
    assert_eq!(dec_string(1234), "1234");
    assert_eq!(dec_string(u64::MAX), "18446744073709551615");
}

#[test]
fn decimals_are_read_as_thousandths() {
    assert_eq!(parse_fixed("7.5"), Some(7_500));
    assert_eq!(parse_fixed("-3"), Some(-3_000));
    assert_eq!(parse_fixed(".25"), Some(250));
    assert_eq!(parse_fixed("5."), Some(5_000));
    assert_eq!(parse_fixed("1.2345"), Some(1_234));
    assert_eq!(parse_fixed("123456789012"), Some(123_456_789_012_000));
    assert_eq!(parse_fixed("1234567890123"), None);
    assert_eq!(parse_fixed("."), None);
    assert_eq!(parse_fixed(""), None);
    assert_eq!(parse_fixed("-"), None);
    assert_eq!(parse_fixed("1e3"), None);
    assert_eq!(parse_fixed("1.2.3"), None);
    assert_eq!(parse_fixed("abc"), None);
}

#[test]
fn frames_are_classified() {
    assert_eq!(parse_frame("pallet_pos,7.5"), Frame::Position(7_500));
    assert_eq!(parse_frame("pallet_pos,3,extra"), Frame::Position(3_000));
    assert_eq!(parse_frame("pallet_pos"), Frame::Malformed);
    assert_eq!(parse_frame("pallet_pos,"), Frame::Malformed);
    assert_eq!(parse_frame("pallet_pos,x"), Frame::Malformed);
    assert_eq!(parse_frame("get_state"), Frame::GetState);
    assert_eq!(parse_frame("get_state,1"), Frame::GetState);
    assert_eq!(parse_frame("hello"), Frame::Other);
    assert_eq!(parse_frame(""), Frame::Other);
    assert_eq!(parse_frame("pallet_po,1"), Frame::Other);
}

#[test]
fn messages_have_the_wire_shape() {
    assert_eq!(id_message(4), "id,4");
    assert_eq!(pallet_message(1, 7_500), "pallet_pos,1,7.5");
    assert_eq!(ball_message(20_000, 10_500), "ball_pos,20,10.5");
    assert_eq!(bot_message(-1_000), "bot_pos,-1");
}

#[test]
fn connect_greets_with_id_and_snapshot() {
    let mut reg = PeerRegistry::new();
    let a = reg.connect().unwrap();
    assert_eq!(a.id, 1);
    assert_eq!(a.messages, vec!["id,1".to_string()]);
    let b = reg.connect().unwrap();
    assert_eq!(b.id, 2);
    assert_eq!(b.messages, vec!["id,2".to_string(), "pallet_pos,1,0".to_string()]);
    assert_eq!(reg.peers, vec![PeerEntry::new(1), PeerEntry::new(2)]);
    assert_eq!(reg.snapshot(), vec!["pallet_pos,1,0".to_string(), "pallet_pos,2,0".to_string()]);
}

#[test]
fn identities_run_out_without_reuse() {
    let mut reg = PeerRegistry::new();
    reg.next_id = u64::MAX;
    assert!(reg.connect().is_none());
    assert!(reg.peers.is_empty());
    let mut reg = PeerRegistry::new();
    reg.connect().unwrap();
    reg.connect().unwrap();
    assert!(reg.disconnect(1));
    assert_eq!(reg.connect().unwrap().id, 3);
}

#[test]
fn position_reaches_the_other_peer_once() {
    let mut reg = PeerRegistry::new();
    let mut game = GameData::new();
    let a = reg.connect().unwrap().id;
    let b = reg.connect().unwrap().id;
    let out = reg.handle_frame(&mut game, a, "pallet_pos,7.5").unwrap();
    assert_eq!(pairs(&out), vec![(b, format!("pallet_pos,{},7.5", a))]);
    assert_eq!(reg.peers[0].pallet_pos, 7_500);
    assert_eq!(game.player1.position, 7_500);
}

#[test]
fn get_state_replies_to_sender_only() {
    let mut reg = PeerRegistry::new();
    let mut game = GameData::new();
    let a = reg.connect().unwrap().id;
    reg.connect().unwrap();
    game.ball = (12_500, 30_000);
    game.player2.position = 18_250;
    let out = reg.handle_frame(&mut game, a, "get_state").unwrap();
    assert_eq!(
        pairs(&out),
        vec![
            (a, "ball_pos,12.5,30".to_string()),
            (a, "bot_pos,18.25".to_string())
        ]
    );
}

#[test]
fn other_frames_rebroadcast_last_position() {
    let mut reg = PeerRegistry::new();
    let mut game = GameData::new();
    let a = reg.connect().unwrap().id;
    let b = reg.connect().unwrap().id;
    let c = reg.connect().unwrap().id;
    reg.handle_frame(&mut game, b, "pallet_pos,-2").unwrap();
    let out = reg.handle_frame(&mut game, b, "ping").unwrap();
    assert_eq!(
        pairs(&out),
        vec![
            (a, "pallet_pos,2,-2".to_string()),
            (c, "pallet_pos,2,-2".to_string())
        ]
    );
    assert_eq!(game.player1.position, 3_000);
}

#[test]
fn frame_errors() {
    let mut reg = PeerRegistry::new();
    let mut game = GameData::new();
    let a = reg.connect().unwrap().id;
    assert_eq!(
        reg.handle_frame(&mut game, 9, "get_state").unwrap_err(),
        FrameError::UnknownPeer
    );
    assert_eq!(
        reg.handle_frame(&mut game, a, "pallet_pos,abc").unwrap_err(),
        FrameError::Malformed
    );
    assert_eq!(reg.peers[0].pallet_pos, 0);
}

#[test]
fn disconnect_removes_one_entry() {
    let mut reg = PeerRegistry::new();
    let mut game = GameData::new();
    let a = reg.connect().unwrap().id;
    let b = reg.connect().unwrap().id;
    let c = reg.connect().unwrap().id;
    assert!(reg.disconnect(b));
    assert_eq!(reg.peers.len(), 2);
    assert!(!reg.disconnect(b));
    assert_eq!(reg.peers.len(), 2);
    let out = reg.handle_frame(&mut game, a, "pallet_pos,1").unwrap();
    assert_eq!(pairs(&out), vec![(c, format!("pallet_pos,{},1", a))]);
}
