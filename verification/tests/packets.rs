use wayclicker::packet::FormulateError;
use wayclicker::packet::PacketParseError;
use wayclicker::packet::ServerPacket;
use wayclicker::packet::MAX_PACKET_LEN;

#[test]
fn parses_the_canonical_record() {
    let p = ServerPacket::from_packet("{\"enabled\":false,\"interval_ms\":100,\"hotkey\":66}")
        .unwrap();
    assert_eq!(p, ServerPacket { enabled: false, interval_ms: 100, hotkey: 66 });
}

#[test]
fn whitespace_between_tokens_is_accepted() {
    let text = " { \"enabled\" : true ,\n\t\"interval_ms\" : 50 , \"hotkey\" : 275 } ";
    let p = ServerPacket::from_packet(text).unwrap();
    assert_eq!(p, ServerPacket { enabled: true, interval_ms: 50, hotkey: 275 });
}

#[test]
fn encoding_round_trips() {
    let samples = [
        ServerPacket { enabled: false, interval_ms: 100, hotkey: 66 },
        ServerPacket { enabled: true, interval_ms: 0, hotkey: 0 },
        ServerPacket { enabled: true, interval_ms: u64::MAX, hotkey: u16::MAX },
    ];
    for p in samples {
        let text = p.to_packet_text();
        assert!(text.as_bytes().len() <= MAX_PACKET_LEN);
        assert_eq!(ServerPacket::from_packet(&text).unwrap(), p);
    }
}

#[test]
fn canonical_text_is_exact() {
    let p = ServerPacket { enabled: false, interval_ms: 100, hotkey: 66 };
    assert_eq!(p.to_packet_text(), "{\"enabled\":false,\"interval_ms\":100,\"hotkey\":66}");
}

#[test]
fn empty_text_is_reported_as_empty() {
    let err = ServerPacket::from_packet("").unwrap_err();
    assert_eq!(err, PacketParseError::EmptyPacket);
}

#[test]
fn malformed_records_are_rejected() {
    let bad = [
        "junk",
        "{\"enabled\":false}",
        "{\"interval_ms\":100,\"enabled\":false,\"hotkey\":66}",
        "{\"enabled\":yes,\"interval_ms\":100,\"hotkey\":66}",
        "{\"enabled\":false,\"interval_ms\":,\"hotkey\":66}",
        "{\"enabled\":false,\"interval_ms\":100,\"hotkey\":65536}",
        "{\"enabled\":false,\"interval_ms\":99999999999999999999999,\"hotkey\":66}",
        "{\"enabled\":false,\"interval_ms\":100,\"hotkey\":66} trailing",
        "{\"enabled\":false,\"interval_ms\":100,\"hotkey\":66",
    ];
    for text in bad {
        assert_eq!(ServerPacket::from_packet(text).unwrap_err(), PacketParseError::Malformed);
    }
}

#[test]
fn interval_just_fitting_is_accepted() {
    let text = "{\"enabled\":true,\"interval_ms\":18446744073709551615,\"hotkey\":1}";
    let p = ServerPacket::from_packet(text).unwrap();
    assert_eq!(p.interval_ms, u64::MAX);
    let text = "{\"enabled\":true,\"interval_ms\":18446744073709551616,\"hotkey\":1}";
    assert_eq!(ServerPacket::from_packet(text).unwrap_err(), PacketParseError::Malformed);
}

#[test]
fn formulates_a_packet_from_raw_fields() {
    let p = wayclicker::packet::formulate_packet(true, "250", "66").unwrap();
    assert_eq!(p, ServerPacket { enabled: true, interval_ms: 250, hotkey: 66 });
}

#[test]
fn formulate_accepts_a_leading_plus_sign() {
    // the number texts accept exactly what unsigned parsing accepts
    assert_eq!("+250".parse::<u64>(), Ok(250));
    let p = wayclicker::packet::formulate_packet(true, "+250", "+66").unwrap();
    assert_eq!(p, ServerPacket { enabled: true, interval_ms: 250, hotkey: 66 });
}

#[test]
fn formulate_rejects_bad_fields() {
    let err = wayclicker::packet::formulate_packet(true, "", "66").unwrap_err();
    assert_eq!(err, FormulateError::InvalidInterval);
    let err = wayclicker::packet::formulate_packet(true, "12x", "66").unwrap_err();
    assert_eq!(err, FormulateError::InvalidInterval);
    // a plus sign alone, doubled, or not in front is no number, as in
    // unsigned parsing
    assert!("+".parse::<u64>().is_err());
    let err = wayclicker::packet::formulate_packet(true, "+", "66").unwrap_err();
    assert_eq!(err, FormulateError::InvalidInterval);
    let err = wayclicker::packet::formulate_packet(true, "++5", "66").unwrap_err();
    assert_eq!(err, FormulateError::InvalidInterval);
    let err = wayclicker::packet::formulate_packet(true, "5+", "66").unwrap_err();
    assert_eq!(err, FormulateError::InvalidInterval);
    let err = wayclicker::packet::formulate_packet(true, "100", "sixty").unwrap_err();
    assert_eq!(err, FormulateError::InvalidKeycode);
    let err = wayclicker::packet::formulate_packet(true, "100", "65536").unwrap_err();
    assert_eq!(err, FormulateError::InvalidKeycode);
}
