use gamedig::error::GDError;
use gamedig::quake::QuakeThree;

fn tokens(parts: &[&str]) -> Vec<Vec<u8>> {
    parts.iter().map(|p| p.as_bytes().to_vec()).collect()
}

#[test]
fn fixed_tokens() {
    assert_eq!(QuakeThree::get_send_header(), "getstatus");
    assert_eq!(QuakeThree::get_response_header(), "statusResponse\n");
}

#[test]
fn scenario_wrong_header_is_bad_packet_before_any_parsing() {
    // A key/value section that would decode fine — but the header token
    // is wrong, so nothing of it is looked at.
    let data = b"statusReply\n\\sv_maxclients\\8\n".to_vec();
    assert_eq!(QuakeThree::parse_response(data), Err(GDError::PacketBad));
}

#[test]
fn scenario_full_response_decodes() {
    let data = "statusResponse\n\\sv_maxclients\\8\\mapname\\q3dm17\n10 25 \"Player One\"\n-3 100 Bob\n"
        .as_bytes()
        .to_vec();
    let r = QuakeThree::parse_response(data).unwrap();
    assert_eq!(r.map.len(), 2);
    assert_eq!(r.map[0], (String::from("sv_maxclients"), String::from("8")));
    assert_eq!(r.map[1], (String::from("mapname"), String::from("q3dm17")));
    assert_eq!(r.players.len(), 2);
    assert_eq!(r.players[0].score, 10);
    assert_eq!(r.players[0].ping, 25);
    assert_eq!(r.players[0].name, "Player One");
    assert_eq!(r.players[1].score, -3);
    assert_eq!(r.players[1].ping, 100);
    assert_eq!(r.players[1].name, "Bob");
}

#[test]
fn header_alone_is_empty_response() {
    let data = b"statusResponse\n".to_vec();
    let r = QuakeThree::parse_response(data).unwrap();
    assert!(r.map.is_empty());
    assert!(r.players.is_empty());
}

#[test]
fn odd_key_value_run_is_bad_packet() {
    let data = b"statusResponse\n\\keywithoutvalue\n".to_vec();
    assert_eq!(QuakeThree::parse_response(data), Err(GDError::PacketBad));
}

#[test]
fn first_malformed_player_line_fails_the_decode() {
    let data = "statusResponse\n\\mapname\\q3dm17\n10 25 \"Fine\"\nnotanumber 1 \"Broken\"\n"
        .as_bytes()
        .to_vec();
    assert_eq!(QuakeThree::parse_response(data), Err(GDError::PacketBad));
}

#[test]
fn player_line_with_too_few_tokens_fails() {
    let data = b"statusResponse\n\\a\\b\n10 25\n".to_vec();
    assert_eq!(QuakeThree::parse_response(data), Err(GDError::PacketBad));
}

#[test]
fn parse_player_string_plain() {
    let p = QuakeThree::parse_player_string(&tokens(&["7", "49", "\"Ann A\""])).unwrap();
    assert_eq!(p.score, 7);
    assert_eq!(p.ping, 49);
    assert_eq!(p.name, "Ann A");
}

#[test]
fn parse_player_string_negative_score_and_bare_name() {
    let p = QuakeThree::parse_player_string(&tokens(&["-12", "0", "Bob"])).unwrap();
    assert_eq!(p.score, -12);
    assert_eq!(p.ping, 0);
    assert_eq!(p.name, "Bob");
}

#[test]
fn parse_player_string_rejects_bad_ping() {
    assert_eq!(
        QuakeThree::parse_player_string(&tokens(&["1", "70000", "X"])),
        Err(GDError::PacketBad)
    );
    assert_eq!(
        QuakeThree::parse_player_string(&tokens(&["1", "-2", "X"])),
        Err(GDError::PacketBad)
    );
}

#[test]
fn parse_player_string_rejects_short_lines() {
    assert_eq!(QuakeThree::parse_player_string(&tokens(&["1", "2"])), Err(GDError::PacketBad));
}
