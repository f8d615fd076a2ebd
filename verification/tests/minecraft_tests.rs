use gamedig::codec::{as_string, as_varint};
use gamedig::error::GDError;
use gamedig::minecraft::{
    auto_query_start, auto_query_step, decode_status_frame, decode_status_payload, frame_packet,
    handshake_payload, ping_request_payload, port_or_bedrock_default, port_or_java_default,
    status_request_payload, strip_length_frame, AutoStep, Server,
};
use gamedig::settings::RequestSettings;

#[test]
fn default_ports() {
    assert_eq!(port_or_java_default(None), 25565);
    assert_eq!(port_or_java_default(Some(1234)), 1234);
    assert_eq!(port_or_bedrock_default(None), 19132);
    assert_eq!(port_or_bedrock_default(Some(7)), 7);
}

#[test]
fn request_payloads() {
    assert_eq!(status_request_payload(), vec![0x00]);
    assert_eq!(ping_request_payload(), vec![0x01]);
}

#[test]
fn frame_packet_prefixes_length() {
    assert_eq!(frame_packet(vec![0x00]).unwrap(), vec![0x01, 0x00]);
    let framed = frame_packet(vec![9; 300]).unwrap();
    assert_eq!(&framed[..2], &[0xAC, 0x02]);
    assert_eq!(framed.len(), 302);
}

#[test]
fn handshake_layout() {
    let settings = RequestSettings { hostname: String::from("host"), protocol_version: -1 };
    let payload = handshake_payload(&settings, 25565).unwrap();
    let mut expected = vec![0x00];
    expected.extend_from_slice(&as_varint(-1));
    expected.extend_from_slice(&as_string("host").unwrap());
    expected.extend_from_slice(&25565u16.to_le_bytes());
    expected.push(0x01);
    assert_eq!(payload, expected);
}

#[test]
fn strip_length_frame_drops_prefix_only() {
    // Declared length 99 is informational: the remaining two bytes come
    // back even though they disagree with it.
    let mut data = as_varint(99);
    data.extend_from_slice(&[0x11, 0x22]);
    assert_eq!(strip_length_frame(data).unwrap(), vec![0x11, 0x22]);
}

fn craft_status_response(packet_id: i32, json: &str) -> Vec<u8> {
    let mut data = as_varint(packet_id);
    data.extend_from_slice(&as_string(json).unwrap());
    data
}

#[test]
fn scenario_decodes_required_fields_and_leaves_options_empty() {
    let json = "{\"version\":{\"name\":\"1.20\",\"protocol\":763},\"players\":{\"max\":20,\"online\":3},\"description\":{\"text\":\"hi\"}}";
    let frame = craft_status_response(0, json);
    let text = decode_status_frame(frame).unwrap();
    let r = decode_status_payload(&text).unwrap();
    assert_eq!(r.game_version, "1.20");
    assert_eq!(r.protocol_version, 763);
    assert_eq!(r.players_maximum, 20);
    assert_eq!(r.players_online, 3);
    assert!(r.players.is_none());
    assert!(r.favicon.is_none());
    assert!(r.previews_chat.is_none());
    assert!(r.enforces_secure_chat.is_none());
    assert_eq!(r.description, "{\"text\":\"hi\"}");
    assert_eq!(r.server_type, Server::Java);
}

#[test]
fn scenario_wrong_packet_id_is_bad_packet() {
    let frame = craft_status_response(1, "{}");
    assert_eq!(decode_status_frame(frame), Err(GDError::PacketBad));
}

#[test]
fn sample_players_decode() {
    let json = "{\"version\":{\"name\":\"1.20\",\"protocol\":763},\"players\":{\"max\":20,\"online\":1,\"sample\":[{\"name\":\"alice\",\"id\":\"u-1\"}]}}";
    let r = decode_status_payload(json).unwrap();
    let players = r.players.unwrap();
    assert_eq!(players.len(), 1);
    assert_eq!(players[0].name, "alice");
    assert_eq!(players[0].id, "u-1");
}

#[test]
fn sample_entry_missing_id_is_bad_packet() {
    let json = "{\"version\":{\"name\":\"1\",\"protocol\":1},\"players\":{\"max\":1,\"online\":1,\"sample\":[{\"name\":\"x\"}]}}";
    assert_eq!(decode_status_payload(json), Err(GDError::PacketBad));
}

#[test]
fn null_sample_is_no_player_list() {
    let json = "{\"version\":{\"name\":\"1\",\"protocol\":1},\"players\":{\"max\":1,\"online\":0,\"sample\":null}}";
    assert!(decode_status_payload(json).unwrap().players.is_none());
}

#[test]
fn optional_booleans_and_favicon_decode() {
    let json = "{\"version\":{\"name\":\"1\",\"protocol\":1},\"players\":{\"max\":1,\"online\":0},\"favicon\":\"data:image/png;base64,AAAA\",\"previewsChat\":true,\"enforcesSecureChat\":false}";
    let r = decode_status_payload(json).unwrap();
    assert_eq!(r.favicon.as_deref(), Some("data:image/png;base64,AAAA"));
    assert_eq!(r.previews_chat, Some(true));
    assert_eq!(r.enforces_secure_chat, Some(false));
}

#[test]
fn missing_description_serializes_as_null() {
    let json = "{\"version\":{\"name\":\"1\",\"protocol\":1},\"players\":{\"max\":1,\"online\":0}}";
    assert_eq!(decode_status_payload(json).unwrap().description, "null");
}

#[test]
fn malformed_json_is_json_parse_error() {
    assert_eq!(decode_status_payload("{not json"), Err(GDError::JsonParse));
}

#[test]
fn missing_required_field_is_bad_packet() {
    assert_eq!(
        decode_status_payload("{\"version\":{\"name\":\"1.20\"}}"),
        Err(GDError::PacketBad)
    );
}

#[test]
fn truncated_frame_underflows() {
    // Packet id 0 then a string prefix that promises more than is there.
    let mut data = as_varint(0);
    data.extend_from_slice(&as_varint(10));
    data.extend_from_slice(b"abc");
    assert!(matches!(decode_status_frame(data), Err(GDError::UnderflowError { .. })));
}

#[test]
fn auto_query_order_is_fixed() {
    assert_eq!(auto_query_start(), Server::Java);
    assert_eq!(auto_query_step(Server::Java, true), AutoStep::Done);
    assert_eq!(auto_query_step(Server::Java, false), AutoStep::TryNext(Server::Bedrock));
    assert_eq!(auto_query_step(Server::Bedrock, false), AutoStep::TryNext(Server::Legacy));
    assert_eq!(auto_query_step(Server::Legacy, false), AutoStep::Failed);
}

#[test]
fn out_of_range_counts_and_protocol_keep_low_bits() {
    // 2^32 + 763 and 2^32 + 5: the decode keeps the low 32 bits, as the
    // narrowing casts of the record fields do.
    let json = "{\"version\":{\"name\":\"1\",\"protocol\":4294968059},\"players\":{\"max\":4294967301,\"online\":0}}";
    let r = decode_status_payload(json).unwrap();
    assert_eq!(r.protocol_version, 763);
    assert_eq!(r.players_maximum, 5);
}

#[test]
fn non_string_favicon_is_left_empty() {
    let json = "{\"version\":{\"name\":\"1\",\"protocol\":1},\"players\":{\"max\":1,\"online\":0},\"favicon\":7}";
    let r = decode_status_payload(json).unwrap();
    assert!(r.favicon.is_none());
}
