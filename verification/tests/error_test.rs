use mqtt_broker::control_packet::connect::{self, ConnectError};
use mqtt_broker::control_packet::publish::{handle_puback, handle_publish};
use mqtt_broker::control_packet::subcribe;
use mqtt_broker::models::client::Client;

fn buffer_from(packet: &[u8]) -> [u8; 8192] {
    let mut buffer: [u8; 8192] = [0; 8192];
    buffer[..packet.len()].copy_from_slice(packet);
    buffer
}

#[test]
fn test_connect_invalid_protocol_name() {
    let packet = [
        0x10, 0x10, 0x00, 0x04, b'M', b'Q', b'T', b'X', 0x04, 0x02, 0x00, 0x3C, 0x00, 0x04, b't',
        b'e', b's', b't',
    ];
    let mut clients: Vec<Client> = Vec::new();
    let err = connect::handle(buffer_from(&packet), packet.len(), "10.0.0.1:50000".to_string(), &mut clients)
        .unwrap_err();
    assert_eq!(err, ConnectError::InvalidProtocolName);
    assert_eq!(err.connack(), None);
}

#[test]
fn test_connect_error_variants() {
    let mut clients: Vec<Client> = Vec::new();

    // Reserved connect flag set
    let reserved = [
        0x10, 0x10, 0x00, 0x04, b'M', b'Q', b'T', b'T', 0x04, 0x03, 0x00, 0x3C, 0x00, 0x04, b't',
        b'e', b's', b't',
    ];
    let err = connect::handle(buffer_from(&reserved), reserved.len(), "10.0.0.1:1".to_string(), &mut clients)
        .unwrap_err();
    assert_eq!(err, ConnectError::ReservedFlagSet);

    // Both will-quality bits set
    let will_qos = [
        0x10, 0x10, 0x00, 0x04, b'M', b'Q', b'T', b'T', 0x04, 0x1C, 0x00, 0x3C, 0x00, 0x04, b't',
        b'e', b's', b't',
    ];
    let err = connect::handle(buffer_from(&will_qos), will_qos.len(), "10.0.0.1:1".to_string(), &mut clients)
        .unwrap_err();
    assert_eq!(err, ConnectError::InvalidWillQos);

    // A declared remaining length beyond the packet itself
    let bad_length = [
        0x10, 0x20, 0x00, 0x04, b'M', b'Q', b'T', b'T', 0x04, 0x02, 0x00, 0x3C, 0x00, 0x04, b't',
        b'e', b's', b't',
    ];
    let err = connect::handle(buffer_from(&bad_length), bad_length.len(), "10.0.0.1:1".to_string(), &mut clients)
        .unwrap_err();
    assert_eq!(err, ConnectError::MalformedPacket);

    // No session was installed on any of the failures
    assert!(clients.is_empty());
}

#[test]
fn test_publish_error_cases() {
    // Both quality bits set in the fixed header
    let both_qos = [0x36, 0x06, 0x00, 0x01, 0x74, 0x00, 0x0A, 0x78];
    match handle_publish(buffer_from(&both_qos), both_qos.len()) {
        Err(message) => assert_eq!(message, "Wrong QoS level specified"),
        Ok(_) => panic!("expected an error"),
    }

    // A remaining length no shorter than the packet itself
    let short = [0x30, 0x10, 0x00, 0x01, 0x74];
    match handle_publish(buffer_from(&short), short.len()) {
        Err(message) => assert_eq!(message, "Packet length is lower than remaining length"),
        Ok(_) => panic!("expected an error"),
    }

    // The duplicate bit makes no sense on a quality 0 packet
    let dup_qos0 = [0x38, 0x05, 0x00, 0x01, 0x74, 0x78, 0x79];
    match handle_publish(buffer_from(&dup_qos0), dup_qos0.len()) {
        Err(message) => assert_eq!(message, "DUP flag must not be set when QoS is 0"),
        Ok(_) => panic!("expected an error"),
    }

    // A topic name that is not valid UTF-8 is refused
    let bad_topic = [0x30, 0x04, 0x00, 0x01, 0x80, 0x78];
    match handle_publish(buffer_from(&bad_topic), bad_topic.len()) {
        Err(message) => assert_eq!(message, "String value is not valid UTF-8"),
        Ok(_) => panic!("expected an error"),
    }
}

#[test]
fn test_malformed_remaining_length_is_refused() {
    // Five continuation bytes never terminate the remaining length; the
    // handlers refuse the packet instead of parsing on
    let bad = [0x82, 0x80, 0x80, 0x80, 0x80, 0x80, 0x01, 0x00];
    match subcribe::handle(&bad, bad.len()) {
        Err(message) => assert_eq!(message, "Malformed Remaining Length"),
        Ok(_) => panic!("expected an error"),
    }

    let mut ping_buffer: [u8; 8192] = [0x80; 8192];
    ping_buffer[0] = 0xC0;
    match mqtt_broker::control_packet::ping::handle(ping_buffer, 2) {
        Err(message) => assert_eq!(message, "Malformed Remaining Length"),
        Ok(_) => panic!("expected an error"),
    }
}

#[test]
fn test_acknowledgement_error_cases() {
    // An acknowledgement packet is exactly four bytes
    let long = [0x40, 0x02, 0x00, 0x0A, 0x00];
    assert_eq!(handle_puback(buffer_from(&long), long.len()), Err("Invalid packet length"));

    // Its remaining length is exactly two
    let bad_remaining = [0x40, 0x03, 0x00, 0x0A];
    assert_eq!(
        handle_puback(buffer_from(&bad_remaining), bad_remaining.len()),
        Err("Invalid remaining length")
    );

    // A well-formed one yields its packet identifier
    let good = [0x40, 0x02, 0x01, 0x0A];
    assert_eq!(handle_puback(buffer_from(&good), good.len()), Ok(0x010A));
}

#[test]
fn test_subscribe_error_cases() {
    // Too short to be a SUBSCRIBE at all
    let short = [0x82, 0x00, 0x00];
    match subcribe::handle(&short, short.len()) {
        Err(message) => assert_eq!(message, "Subscribe Packet does not have the required lenght"),
        Ok(_) => panic!("expected an error"),
    }

    // The reserved bits of the fixed header must be the required pattern
    let bad_bits = [0x80, 0x06, 0x00, 0x01, 0x00, 0x01, b'a', 0x00];
    match subcribe::handle(&bad_bits, bad_bits.len()) {
        Err(message) => assert_eq!(message, "The first byte have bit 1 is on"),
        Ok(_) => panic!("expected an error"),
    }
}
