use bilibili_tui::api::live_ws::{
    make_heartbeat_packet, parse_message, parse_message_with, DecodeError, LiveMessage, OpCode, Packet, ProtoVer,
    UnknownOpCode,
};
use bilibili_tui::json::parse_json;
use std::io::Write;

fn frame(proto_ver: u16, op_code: u32, body: &[u8]) -> Vec<u8> {
    let mut out = Vec::new();
    out.extend_from_slice(&((16 + body.len()) as u32).to_be_bytes());
    out.extend_from_slice(&16u16.to_be_bytes());
    out.extend_from_slice(&proto_ver.to_be_bytes());
    out.extend_from_slice(&op_code.to_be_bytes());
    out.extend_from_slice(&1u32.to_be_bytes());
    out.extend_from_slice(body);
    out
}

#[test]
fn heartbeat_packet_bytes() {
    let mut expected = vec![0, 0, 0, 31, 0, 16, 0, 1, 0, 0, 0, 2, 0, 0, 0, 1];
    expected.extend_from_slice(b"[object Object]");
    assert_eq!(make_heartbeat_packet(), expected);
}

#[test]
fn encoded_packets_decode_back() {
    let a = Packet::new(OpCode::Message, b"{\"cmd\":\"X\"}".to_vec());
    let b = Packet::new(OpCode::HeartbeatReply, vec![0, 0, 1, 0]);
    let mut bytes = a.encode();
    bytes.extend(b.encode());
    let packets = Packet::decode(&bytes).unwrap();
    assert_eq!(packets.len(), 2);
    assert_eq!(packets[0].op_code, 5);
    assert_eq!(packets[0].body, b"{\"cmd\":\"X\"}".to_vec());
    assert_eq!(packets[1].op_code, 3);
    assert_eq!(packets[1].body, vec![0, 0, 1, 0]);
}

#[test]
fn zlib_bodies_are_opened_in_place() {
    let inner = frame(0, 5, b"{\"cmd\":\"Z\"}");
    let mut encoder = flate2::write::ZlibEncoder::new(Vec::new(), flate2::Compression::default());
    encoder.write_all(&inner).unwrap();
    let compressed = encoder.finish().unwrap();
    let outer = frame(2, 5, &compressed);
    let packets = Packet::decode(&outer).unwrap();
    assert_eq!(packets.len(), 1);
    assert_eq!(packets[0].body, b"{\"cmd\":\"Z\"}".to_vec());
}

#[test]
fn brotli_bodies_are_opened_in_place() {
    let inner = frame(0, 5, b"{\"cmd\":\"B\"}");
    let mut compressed = Vec::new();
    {
        let mut writer = brotli::CompressorWriter::new(&mut compressed, 4096, 5, 22);
        writer.write_all(&inner).unwrap();
    }
    let outer = frame(3, 5, &compressed);
    let packets = Packet::decode(&outer).unwrap();
    assert_eq!(packets.len(), 1);
    assert_eq!(packets[0].body, b"{\"cmd\":\"B\"}".to_vec());
}

#[test]
fn broken_compressed_bodies_are_errors() {
    assert_eq!(Packet::decode(&frame(2, 5, b"not zlib")).unwrap_err(), DecodeError::Zlib);
}

#[test]
fn truncated_input_yields_what_is_complete() {
    let mut bytes = Packet::new(OpCode::Message, b"ok".to_vec()).encode();
    bytes.extend_from_slice(&[0, 0, 0]);
    assert_eq!(Packet::decode(&bytes).unwrap().len(), 1);
    assert_eq!(Packet::try_decode(&bytes, 4).unwrap().unwrap().len(), 1);
}

#[test]
fn op_codes_round_trip() {
    for op in [OpCode::Heartbeat, OpCode::HeartbeatReply, OpCode::Message, OpCode::Auth, OpCode::AuthReply] {
        assert_eq!(OpCode::try_from(op.value()), Ok(op));
    }
    assert_eq!(OpCode::try_from(4), Err(UnknownOpCode(4)));
    assert_eq!(ProtoVer::Brotli.value(), 3);
}

#[test]
fn messages_of_each_kind() {
    let danmaku = Packet::new(
        OpCode::Message,
        br#"{"cmd":"DANMU_MSG","info":[[0,1,25,16777215],"hello",[42,"alice"]]}"#.to_vec(),
    );
    match parse_message(&danmaku) {
        Some(LiveMessage::Danmaku { uid, uname, content, color }) => {
            assert_eq!((uid, uname.as_str(), content.as_str(), color), (42, "alice", "hello", 16777215));
        },
        other => panic!("{other:?}"),
    }
    let popularity = Packet::new(OpCode::HeartbeatReply, vec![0, 0, 1, 2]);
    assert!(matches!(parse_message(&popularity), Some(LiveMessage::Popularity(258))));
    let auth = Packet::new(OpCode::AuthReply, br#"{"code":0}"#.to_vec());
    assert!(matches!(parse_message(&auth), Some(LiveMessage::AuthReply { code: 0 })));
    let unknown = Packet::new(OpCode::Message, br#"{"cmd":"SOMETHING"}"#.to_vec());
    assert!(matches!(parse_message(&unknown), Some(LiveMessage::Unknown(cmd)) if cmd == "SOMETHING"));
    let enter = parse_json(r#"{"cmd":"INTERACT_WORD","data":{"uid":7,"uname":"bob","msg_type":1}}"#).unwrap();
    assert!(matches!(
        parse_message_with(&Packet::new(OpCode::Message, Vec::new()), Some(&enter)),
        Some(LiveMessage::Enter { uid: 7, .. })
    ));
    assert!(parse_message(&Packet::new(OpCode::Message, b"not json".to_vec())).is_none());
}

use bilibili_tui::api::live_ws::process_frame;

#[test]
fn frames_yield_their_messages_and_the_auth_code() {
    let mut bytes = Packet::new(OpCode::AuthReply, br#"{"code":0}"#.to_vec()).encode();
    bytes.extend(Packet::new(OpCode::HeartbeatReply, vec![0, 0, 0, 9]).encode());
    bytes.extend(Packet::new(OpCode::Heartbeat, Vec::new()).encode());
    let (messages, code) = process_frame(&bytes, 8).unwrap().unwrap();
    assert_eq!(code, Some(0));
    assert_eq!(messages.len(), 2);
    assert!(matches!(messages[1], LiveMessage::Popularity(9)));
    let (none, no_code) = process_frame(&make_heartbeat_packet(), 8).unwrap().unwrap();
    assert!(none.is_empty());
    assert_eq!(no_code, None);
    assert_eq!(process_frame(&frame(2, 5, b"bad"), 8).unwrap().unwrap_err(), DecodeError::Zlib);
}

#[test]
fn frames_that_never_settle_are_refused() {
    let mut stuck = frame(0, 5, b"");
    stuck[0..4].copy_from_slice(&0u32.to_be_bytes());
    assert!(process_frame(&stuck, 8).is_none());
}

#[test]
fn bodies_holding_the_same_json_give_the_same_message() {
    let spaced = Packet::new(OpCode::Message, b"{ \"cmd\" : \"SEND_GIFT\" , \"data\" : { \"uid\" : 7 , \"uname\" : \"u\" , \"giftName\" : \"g\" , \"giftId\" : 3 , \"num\" : 2 , \"price\" : 100 } }".to_vec());
    let tight = Packet::new(OpCode::Message, br#"{"cmd":"SEND_GIFT","data":{"uid":7,"uname":"u","giftName":"g","giftId":3,"num":2,"price":100}}"#.to_vec());
    let a = parse_message(&spaced).unwrap();
    let b = parse_message(&tight).unwrap();
    assert_eq!(format!("{:?}", a), format!("{:?}", b));
    assert!(matches!(a, LiveMessage::Gift { uid: 7, gift_id: 3, num: 2, price: 100, .. }));
}
