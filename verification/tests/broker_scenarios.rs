use mqtt_broker::control_packet::connect;
use mqtt_broker::control_packet::publish::{
    enqueue_delivery, handle_publish, handle_pubrel, publish, qos1_handle_puback,
    qos2_handle_pubcomp, qos2_handle_pubrec, qos2_handle_pubrel, retransmission_packet, Delivery,
};
use mqtt_broker::control_packet::subcribe;
use mqtt_broker::models::client::Client;
use mqtt_broker::models::flags::ConnectFlags;
use mqtt_broker::models::publish_queue_item::{PublishItemState, PublishQueueItem};
use mqtt_broker::models::topic::Topic;
use mqtt_broker::{
    apply_retain, disconnect_client_by_socket_addr, handle_qos_1_session, handle_qos_2_session,
    subscribe_attach,
};

fn buffer_from(packet: &[u8]) -> [u8; 8192] {
    let mut buffer: [u8; 8192] = [0; 8192];
    buffer[..packet.len()].copy_from_slice(packet);
    buffer
}

fn plain_client(id: &str, addr: &str) -> Client {
    Client::new(
        id.to_string(),
        String::new(),
        String::new(),
        60,
        String::new(),
        String::new(),
        addr.to_string(),
        ConnectFlags::new(true, false, 0, false, false, false),
    )
}

#[test]
fn test_happy_connect() {
    // CONNECT: clean session, keep-alive 60, client id "test"
    let packet = [
        0x10, 0x10, 0x00, 0x04, 0x4D, 0x51, 0x54, 0x54, 0x04, 0x02, 0x00, 0x3C, 0x00, 0x04, 0x74,
        0x65, 0x73, 0x74,
    ];
    let mut clients: Vec<Client> = Vec::new();

    let response =
        connect::handle(buffer_from(&packet), packet.len(), "10.0.0.1:50000".to_string(), &mut clients)
            .unwrap();

    assert_eq!(response.return_packet, [0x20, 0x02, 0x00, 0x00]);
    assert_eq!(response.keep_alive, 90);
    assert_eq!(clients.len(), 1);
    assert_eq!(clients[0].id, "test");
    assert!(clients[0].is_connected);
    assert!(clients[0].connect_flags.clean_session_flag);
}

#[test]
fn test_connect_wrong_protocol_level_connack() {
    // A CONNECT with protocol level 5 earns a CONNACK with return code 1
    let packet = [
        0x10, 0x10, 0x00, 0x04, 0x4D, 0x51, 0x54, 0x54, 0x05, 0x02, 0x00, 0x3C, 0x00, 0x04, 0x74,
        0x65, 0x73, 0x74,
    ];
    let mut clients: Vec<Client> = Vec::new();

    let err = connect::handle(buffer_from(&packet), packet.len(), "10.0.0.1:50000".to_string(), &mut clients)
        .unwrap_err();

    assert_eq!(err.connack(), Some([0x20, 0x02, 0x00, 0x01]));
    assert!(clients.is_empty());
}

#[test]
fn test_subscribe_retained_replay() {
    let mut topics: Vec<Topic> = Vec::new();
    let clients: Vec<Client> = Vec::new();

    // PUBLISH retain=1 on topic "a" with payload "hi", quality 0
    let publish_packet = [0x31, 0x05, 0x00, 0x01, 0x61, 0x68, 0x69];
    let response = handle_publish(buffer_from(&publish_packet), publish_packet.len()).unwrap();
    assert!(response.retain_flag);
    assert_eq!(response.qos_level, 0);
    assert_eq!(response.topic_name, "a");
    assert_eq!(response.payload_message, "hi");

    let deliveries = publish(
        &topics,
        &clients,
        &response.topic_name,
        &response.payload_message,
        response.qos_level,
        false,
    );
    assert!(deliveries.is_empty());
    apply_retain(&mut topics, &response);

    // A separate session subscribes to "a"
    let subscriber = plain_client("sub", "10.0.0.2:50001");
    let subscribe_packet = [0x82, 0x06, 0x00, 0x01, 0x00, 0x01, 0x61, 0x00];
    let sub_info = subcribe::handle(&subscribe_packet, subscribe_packet.len()).unwrap();
    assert_eq!(sub_info.return_packet, vec![0x90, 0x03, 0x00, 0x01, 0x00]);

    let mut replay: Option<Delivery> = None;
    for filter in sub_info.topic_qos_pair {
        replay = subscribe_attach(&mut topics, &subscriber, filter);
    }

    // The retained message comes right back to the subscriber
    let delivery = replay.expect("the retained message must be replayed");
    assert_eq!(delivery.client_id, "sub");
    assert_eq!(delivery.qos, 0);
    assert_eq!(delivery.packet, vec![0x31, 0x05, 0x00, 0x01, 0x61, 0x68, 0x69]);
}

#[test]
fn test_retained_message_cleared_by_empty_payload() {
    let mut topics: Vec<Topic> = Vec::new();

    // Store a retained message, then clear it with an empty payload
    let store = handle_publish(buffer_from(&[0x31, 0x05, 0x00, 0x01, 0x61, 0x68, 0x69]), 7).unwrap();
    apply_retain(&mut topics, &store);
    assert_eq!(topics[0].retained_msg.0, "hi");

    let clear = handle_publish(buffer_from(&[0x31, 0x03, 0x00, 0x01, 0x61]), 5).unwrap();
    apply_retain(&mut topics, &clear);
    assert_eq!(topics[0].retained_msg.0, "");

    // With the retained message cleared, a new subscriber gets no replay
    let subscriber = plain_client("sub", "10.0.0.2:50001");
    let replay = subscribe_attach(&mut topics, &subscriber, ("a".to_string(), 0));
    assert!(replay.is_none());
}

#[test]
fn test_fanout_keeps_multibyte_bytes() {
    let mut topics: Vec<Topic> = Vec::new();
    let mut clients: Vec<Client> = Vec::new();

    // A subscriber holds a topic whose name has a two-byte character
    clients.push(plain_client("sub", "10.0.0.2:50001"));
    subscribe_attach(&mut topics, &clients[0], ("caf\u{e9}".to_string(), 0));

    // PUBLISH quality 0 on that topic with a multi-byte payload:
    // topic "caf\u{e9}" is 63 61 66 C3 A9, payload "\u{fc}" is C3 BC
    let packet = [0x30, 0x09, 0x00, 0x05, 0x63, 0x61, 0x66, 0xC3, 0xA9, 0xC3, 0xBC];
    let response = handle_publish(buffer_from(&packet), packet.len()).unwrap();
    assert_eq!(response.topic_name, "caf\u{e9}");
    assert_eq!(response.payload_message, "\u{fc}");

    // The delivered packet carries exactly the received bytes
    let deliveries = publish(
        &topics,
        &clients,
        &response.topic_name,
        &response.payload_message,
        response.qos_level,
        false,
    );
    assert_eq!(deliveries.len(), 1);
    assert_eq!(
        deliveries[0].packet,
        vec![0x30, 0x09, 0x00, 0x05, 0x63, 0x61, 0x66, 0xC3, 0xA9, 0xC3, 0xBC]
    );
}

#[test]
fn test_qos_1_publisher() {
    // PUBLISH quality 1, packet id 10, topic "t", payload "x", no
    // subscribers
    let packet = [0x32, 0x06, 0x00, 0x01, 0x74, 0x00, 0x0A, 0x78];
    let response = handle_publish(buffer_from(&packet), packet.len()).unwrap();
    assert_eq!(response.qos_level, 1);
    assert_eq!(response.packet_id, 0x000A);
    assert_eq!(response.topic_name, "t");
    assert_eq!(response.payload_message, "x");

    let topics: Vec<Topic> = Vec::new();
    let clients: Vec<Client> = Vec::new();
    let (deliveries, puback) = handle_qos_1_session(&topics, &clients, &response);
    assert!(deliveries.is_empty());
    assert_eq!(puback, vec![0x40, 0x02, 0x00, 0x0A]);
}

#[test]
fn test_qos_2_publisher_duplicate_publish() {
    let topics: Vec<Topic> = Vec::new();
    let clients: Vec<Client> = Vec::new();
    let mut queue: Vec<PublishQueueItem> = Vec::new();

    // PUBLISH quality 2, packet id 5, topic "t", payload "y"
    let packet = [0x34, 0x06, 0x00, 0x01, 0x74, 0x00, 0x05, 0x79];
    let response = handle_publish(buffer_from(&packet), packet.len()).unwrap();
    let publisher = "pub".to_string();
    let (_deliveries, pubrec) =
        handle_qos_2_session(&mut queue, &topics, &clients, &publisher, &response);
    assert_eq!(pubrec, vec![0x50, 0x02, 0x00, 0x05]);
    assert_eq!(queue.len(), 1);
    assert_eq!(queue[0].state, PublishItemState::AwaitingPubrel);

    // The same PUBLISH again, now with the duplicate bit: another PUBREC,
    // no second fan-out, no second entry
    let dup_packet = [0x3C, 0x06, 0x00, 0x01, 0x74, 0x00, 0x05, 0x79];
    let dup_response = handle_publish(buffer_from(&dup_packet), dup_packet.len()).unwrap();
    assert!(dup_response.dup_flag);
    let (dup_deliveries, dup_pubrec) =
        handle_qos_2_session(&mut queue, &topics, &clients, &publisher, &dup_response);
    assert!(dup_deliveries.is_empty());
    assert_eq!(dup_pubrec, vec![0x50, 0x02, 0x00, 0x05]);
    assert_eq!(queue.len(), 1);

    // PUBREL completes the exchange with a PUBCOMP
    let pubrel_packet = [0x62, 0x02, 0x00, 0x05];
    let packet_id = handle_pubrel(buffer_from(&pubrel_packet), pubrel_packet.len()).unwrap();
    assert_eq!(packet_id, 5);
    let pubcomp = qos2_handle_pubrel(&mut queue, packet_id).expect("an entry was awaiting PUBREL");
    assert_eq!(pubcomp, vec![0x70, 0x02, 0x00, 0x05]);
    assert!(queue.is_empty());
}

#[test]
fn test_session_takeover_rejected() {
    let packet = [
        0x10, 0x0D, 0x00, 0x04, 0x4D, 0x51, 0x54, 0x54, 0x04, 0x02, 0x00, 0x3C, 0x00, 0x01, b'c',
    ];
    let mut clients: Vec<Client> = Vec::new();

    // Client "c" connects
    let first = connect::handle(buffer_from(&packet), packet.len(), "10.0.0.1:50000".to_string(), &mut clients);
    assert!(first.is_ok());
    assert_eq!(clients.len(), 1);

    // A second connection claims the same client id while the session is
    // live: CONNACK with return code 2, original session untouched
    let err = connect::handle(buffer_from(&packet), packet.len(), "10.0.0.9:50009".to_string(), &mut clients)
        .unwrap_err();
    assert_eq!(err.connack(), Some([0x20, 0x02, 0x00, 0x02]));
    assert_eq!(clients.len(), 1);
    assert!(clients[0].is_connected);
    assert_eq!(clients[0].socket_addr, "10.0.0.1:50000");
}

#[test]
fn test_keep_alive_timeout_publishes_will() {
    let mut topics: Vec<Topic> = Vec::new();
    let mut clients: Vec<Client> = Vec::new();

    // Client "w" connects with keep-alive 10, a will on topic "lw" with
    // message "bye", clean session
    let packet = [
        0x10, 0x16, 0x00, 0x04, 0x4D, 0x51, 0x54, 0x54, 0x04, 0x06, 0x00, 0x0A, 0x00, 0x01, b'w',
        0x00, 0x02, b'l', b'w', 0x00, 0x03, b'b', b'y', b'e',
    ];
    let response =
        connect::handle(buffer_from(&packet), packet.len(), "10.0.0.3:50003".to_string(), &mut clients)
            .unwrap();
    assert_eq!(response.keep_alive, 15);
    assert_eq!(clients[0].will_topic, "lw");
    assert_eq!(clients[0].will_message, "bye");

    // A subscriber subscribes to the will topic
    let subscriber = plain_client("sub", "10.0.0.2:50001");
    clients.push(subscriber);
    let attached = subscribe_attach(&mut topics, &clients[1], ("lw".to_string(), 0));
    assert!(attached.is_none());

    // The read times out: the will message goes to the subscriber and the
    // clean session leaves the registry
    let deliveries =
        disconnect_client_by_socket_addr(&mut topics, &mut clients, &"10.0.0.3:50003".to_string(), false);
    assert_eq!(deliveries.len(), 1);
    assert_eq!(deliveries[0].client_id, "sub");
    assert_eq!(
        deliveries[0].packet,
        vec![0x30, 0x07, 0x00, 0x02, b'l', b'w', b'b', b'y', b'e']
    );
    assert_eq!(clients.len(), 1);
    assert_eq!(clients[0].id, "sub");
}

#[test]
fn test_orderly_disconnect_discards_will() {
    let mut topics: Vec<Topic> = Vec::new();
    let mut clients: Vec<Client> = Vec::new();

    let packet = [
        0x10, 0x16, 0x00, 0x04, 0x4D, 0x51, 0x54, 0x54, 0x04, 0x06, 0x00, 0x0A, 0x00, 0x01, b'w',
        0x00, 0x02, b'l', b'w', 0x00, 0x03, b'b', b'y', b'e',
    ];
    connect::handle(buffer_from(&packet), packet.len(), "10.0.0.3:50003".to_string(), &mut clients)
        .unwrap();

    let subscriber = plain_client("sub", "10.0.0.2:50001");
    clients.push(subscriber);
    subscribe_attach(&mut topics, &clients[1], ("lw".to_string(), 0));

    // An orderly DISCONNECT discards the will: nothing is published
    let deliveries =
        disconnect_client_by_socket_addr(&mut topics, &mut clients, &"10.0.0.3:50003".to_string(), true);
    assert!(deliveries.is_empty());
}

#[test]
fn test_qos_1_delivery_flow() {
    let mut topics: Vec<Topic> = Vec::new();
    let mut clients: Vec<Client> = Vec::new();

    // A subscriber holds topic "t" at quality 1
    let subscriber = plain_client("sub", "10.0.0.2:50001");
    clients.push(subscriber);
    subscribe_attach(&mut topics, &clients[0], ("t".to_string(), 1));

    // A quality 1 PUBLISH on "t" fans out one delivery
    let packet = [0x32, 0x06, 0x00, 0x01, 0x74, 0x00, 0x0A, 0x78];
    let response = handle_publish(buffer_from(&packet), packet.len()).unwrap();
    let (deliveries, puback) = handle_qos_1_session(&topics, &clients, &response);
    assert_eq!(puback, vec![0x40, 0x02, 0x00, 0x0A]);
    assert_eq!(deliveries.len(), 1);

    let delivery = &deliveries[0];
    assert_eq!(delivery.client_id, "sub");
    assert_eq!(delivery.qos, 1);
    assert!(1 <= delivery.packet_id);

    // The packet carries the freshly drawn identifier before the payload
    let expected_prefix = [0x32, 0x06, 0x00, 0x01, 0x74];
    assert_eq!(&delivery.packet[..5], &expected_prefix);
    assert_eq!(delivery.packet[5], (delivery.packet_id / 256) as u8);
    assert_eq!(delivery.packet[6], (delivery.packet_id % 256) as u8);
    assert_eq!(delivery.packet[7], 0x78);

    // The broker records the in-flight delivery, resends it with the
    // duplicate bit on a timeout, and drops it on PUBACK
    let mut queue: Vec<PublishQueueItem> = Vec::new();
    enqueue_delivery(&mut queue, delivery);
    assert_eq!(queue.len(), 1);
    assert_eq!(queue[0].state, PublishItemState::AwaitingPuback);

    let resend = retransmission_packet(&queue[0]);
    assert_eq!(resend[0], 0x32 | 0x08);
    assert_eq!(&resend[1..], &delivery.packet[1..]);

    // Recording the same delivery again keeps a single entry
    enqueue_delivery(&mut queue, delivery);
    assert_eq!(queue.len(), 1);

    let removed = qos1_handle_puback(&mut queue, delivery.packet_id as usize);
    assert!(removed);
    assert!(queue.is_empty());
}

#[test]
fn test_reconnect_resumes_session() {
    let mut topics: Vec<Topic> = Vec::new();
    let mut clients: Vec<Client> = Vec::new();

    // Client "c" connects without the clean-session flag
    let packet = [
        0x10, 0x0D, 0x00, 0x04, 0x4D, 0x51, 0x54, 0x54, 0x04, 0x00, 0x00, 0x3C, 0x00, 0x01, b'c',
    ];
    let first = connect::handle(buffer_from(&packet), packet.len(), "10.0.0.1:50000".to_string(), &mut clients);
    assert!(first.is_ok());

    // The connection drops; the session stays, dormant
    let deliveries =
        disconnect_client_by_socket_addr(&mut topics, &mut clients, &"10.0.0.1:50000".to_string(), false);
    assert!(deliveries.is_empty());
    assert_eq!(clients.len(), 1);
    assert!(!clients[0].is_connected);

    // The same client id connects again: one session, re-attached, and a
    // CONNACK with the session-present flag set
    let second =
        connect::handle(buffer_from(&packet), packet.len(), "10.0.0.5:50005".to_string(), &mut clients)
            .unwrap();
    assert_eq!(second.return_packet, [0x20, 0x02, 0x01, 0x00]);
    assert_eq!(clients.len(), 1);
    assert!(clients[0].is_connected);
    assert_eq!(clients[0].socket_addr, "10.0.0.5:50005");
}

#[test]
fn test_accepts_packet_ordering() {
    // CONNECT opens a connection and may not come again
    assert!(mqtt_broker::accepts_packet(false, 1));
    assert!(!mqtt_broker::accepts_packet(true, 1));

    // Every other known type waits for the connection to be established
    for packet_type in [3u8, 4, 5, 6, 7, 8, 10, 12, 14] {
        assert!(!mqtt_broker::accepts_packet(false, packet_type));
        assert!(mqtt_broker::accepts_packet(true, packet_type));
    }

    // Unknown types close the connection either way
    for packet_type in [0u8, 2, 9, 11, 13, 15] {
        assert!(!mqtt_broker::accepts_packet(false, packet_type));
        assert!(!mqtt_broker::accepts_packet(true, packet_type));
    }
}

#[test]
fn test_qos_2_delivery_flow() {
    let mut topics: Vec<Topic> = Vec::new();
    let mut clients: Vec<Client> = Vec::new();

    // A subscriber holds topic "t" at quality 2
    let subscriber = plain_client("sub", "10.0.0.2:50001");
    clients.push(subscriber);
    subscribe_attach(&mut topics, &clients[0], ("t".to_string(), 2));

    // A quality 2 PUBLISH on "t" fans out one delivery at quality 2
    let packet = [0x34, 0x06, 0x00, 0x01, 0x74, 0x00, 0x05, 0x79];
    let response = handle_publish(buffer_from(&packet), packet.len()).unwrap();
    let mut queue: Vec<PublishQueueItem> = Vec::new();
    let publisher = "pub".to_string();
    let (deliveries, _pubrec) =
        handle_qos_2_session(&mut queue, &topics, &clients, &publisher, &response);
    assert_eq!(deliveries.len(), 1);
    let delivery = &deliveries[0];
    assert_eq!(delivery.qos, 2);
    let pid = delivery.packet_id as usize;

    // The outbound exchange: record it, take the PUBREC, send the PUBREL,
    // take the PUBCOMP
    enqueue_delivery(&mut queue, delivery);
    assert_eq!(queue.len(), 2);

    let pubrel = qos2_handle_pubrec(&mut queue, pid).expect("an entry was awaiting PUBREC");
    assert_eq!(pubrel, vec![0x60, 0x02, (pid / 256) as u8, (pid % 256) as u8]);

    // While PUBCOMP is owed, a timeout resends the PUBREL
    let awaiting = queue
        .iter()
        .find(|item| item.packet_id == pid && item.state == PublishItemState::AwaitingPubcomp)
        .expect("the entry moved on to awaiting PUBCOMP");
    assert_eq!(retransmission_packet(awaiting), pubrel);

    let removed = qos2_handle_pubcomp(&mut queue, pid);
    assert!(removed);
    assert_eq!(queue.len(), 1);
}

#[test]
fn test_fanout_uses_lower_quality() {
    let mut topics: Vec<Topic> = Vec::new();
    let mut clients: Vec<Client> = Vec::new();

    // One subscriber granted quality 0, one granted quality 2
    clients.push(plain_client("low", "10.0.0.2:50001"));
    clients.push(plain_client("high", "10.0.0.4:50004"));
    subscribe_attach(&mut topics, &clients[0], ("t".to_string(), 0));
    subscribe_attach(&mut topics, &clients[1], ("t".to_string(), 2));

    // A quality 1 PUBLISH delivers at the lower of the two qualities
    let packet = [0x32, 0x06, 0x00, 0x01, 0x74, 0x00, 0x0A, 0x78];
    let response = handle_publish(buffer_from(&packet), packet.len()).unwrap();
    let (deliveries, _puback) = handle_qos_1_session(&topics, &clients, &response);
    assert_eq!(deliveries.len(), 2);
    assert_eq!(deliveries[0].client_id, "low");
    assert_eq!(deliveries[0].qos, 0);
    assert_eq!(deliveries[1].client_id, "high");
    assert_eq!(deliveries[1].qos, 1);
}
