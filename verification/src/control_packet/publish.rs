use vstd::prelude::*;

use rand::Rng;
use vstd::utf8::{decode_utf8, encode_utf8, valid_utf8};

use crate::common_fn;
use crate::common_fn::bit_operations::{encode_varint, remaining_length_ok, remaining_length_value};
use crate::common_fn::msb_lsb_creater::length_prefixed;
use crate::models::client::Client;
use crate::models::publish_queue_item::{
    PublishItemDirection, PublishItemState, PublishQueueItem, find_queue_index,
    lemma_find_queue_index, lemma_queue_unique_push, lemma_queue_unique_remove,
    lemma_queue_unique_update, queue_keys_unique,
};
use crate::models::topic::{Topic, find_pair_index, lemma_find_pair_index};

verus! {

/// What a PUBLISH packet carried: its flags, packet identifier, topic name
/// and payload.
#[derive(Debug)]
pub struct Response {
    pub dup_flag: bool,
    pub qos_level: u8,
    pub retain_flag: bool,
    pub packet_id: usize,
    pub topic_name: String,
    pub payload_message: String,
}

impl Clone for Response {
    fn clone(&self) -> (r: Response)
        ensures
            r.dup_flag == self.dup_flag,
            r.qos_level == self.qos_level,
            r.retain_flag == self.retain_flag,
            r.packet_id == self.packet_id,
            r.topic_name@ == self.topic_name@,
            r.payload_message@ == self.payload_message@,
    {
        Response {
            dup_flag: self.dup_flag,
            qos_level: self.qos_level,
            retain_flag: self.retain_flag,
            packet_id: self.packet_id,
            topic_name: self.topic_name.clone(),
            payload_message: self.payload_message.clone(),
        }
    }
}

/// Parses a PUBLISH packet.  The fixed-header flag bits give duplicate,
/// quality and retain, and the duplicate bit must be clear on a quality
/// zero packet; the variable header gives the topic name and, for quality
/// one or two, the packet identifier; the payload takes every remaining
/// byte of the packet.  Topic name and payload are UTF-8.
pub fn handle_publish(buffer: [u8; 8192], packet_length: usize) -> (r: Result<
    Response,
    &'static str,
>)
    requires
        packet_length <= 8192,
    ensures
        ({
            let b = buffer@;
            let rl = remaining_length_value(b);
            let dup = b[0] & 8 != 0;
            let q2 = b[0] & 4 != 0;
            let q1 = b[0] & 2 != 0;
            let qos: u8 = if q2 {
                2
            } else if q1 {
                1
            } else {
                0
            };
            let ci = packet_length - rl;
            let tl = if ci + 2 <= b.len() {
                b[ci] * 256 + b[ci + 1]
            } else {
                0
            };
            let after_topic = ci + 2 + tl;
            let topic_raw = b.subrange(ci + 2, after_topic);
            let after_pid = if qos != 0 {
                after_topic + 2
            } else {
                after_topic
            };
            let payload_raw = b.subrange(after_pid, packet_length as int);
            match r {
                Ok(resp) => {
                    &&& !(q1 && q2)
                    &&& !(dup && qos == 0)
                    &&& remaining_length_ok(b)
                    &&& packet_length > rl
                    &&& ci + 2 <= b.len()
                    &&& after_topic <= b.len()
                    &&& valid_utf8(topic_raw)
                    &&& resp.dup_flag == dup
                    &&& resp.qos_level == qos
                    &&& resp.retain_flag == (b[0] & 1 != 0)
                    &&& resp.topic_name@ == decode_utf8(topic_raw)
                    &&& qos != 0 ==> after_topic + 2 <= b.len() && resp.packet_id == b[after_topic]
                        * 256 + b[after_topic + 1]
                    &&& qos == 0 ==> resp.packet_id == 0
                    &&& after_pid <= packet_length ==> valid_utf8(payload_raw)
                        && resp.payload_message@ == decode_utf8(payload_raw)
                    &&& after_pid > packet_length ==> resp.payload_message@ == Seq::<char>::empty()
                },
                Err(m) => {
                    if q1 && q2 {
                        m@ == "Wrong QoS level specified"@
                    } else if dup && qos == 0 {
                        m@ == "DUP flag must not be set when QoS is 0"@
                    } else if !remaining_length_ok(b) {
                        m@ == "Malformed Remaining Length"@
                    } else if packet_length <= rl {
                        m@ == "Packet length is lower than remaining length"@
                    } else if ci + 2 > b.len() {
                        m@ == "Buffer is too small to read MSB and LSB"@
                    } else if after_topic > b.len() {
                        m@ == "Buffer is too small to read the string value"@
                    } else if !valid_utf8(topic_raw) {
                        m@ == "String value is not valid UTF-8"@
                    } else if qos != 0 && after_topic + 2 > b.len() {
                        m@ == "Buffer is too small to read MSB and LSB"@
                    } else {
                        &&& after_pid <= packet_length
                        &&& !valid_utf8(payload_raw)
                        &&& m@ == "String value is not valid UTF-8"@
                    }
                },
            }
        }),
{
    let ghost b = buffer@;

    // Check which of the fixed-header flag bits are set
    let flag_3: bool = (buffer[0] & 8) != 0;  // DUP flag
    let flag_2: bool = (buffer[0] & 4) != 0;  // QoS 2 flag
    let flag_1: bool = (buffer[0] & 2) != 0;  // QoS 1 flag
    let flag_0: bool = (buffer[0] & 1) != 0;  // Retain flag

    let mut qos_level: u8 = 0;

    if flag_1 {
        qos_level = 1;
    }

    if flag_2 {
        qos_level = 2;
    }

    if flag_1 && flag_2 {
        return Err("Wrong QoS level specified");
    }

    // A retransmission marker makes no sense without an acknowledgement
    if flag_3 && qos_level == 0 {
        return Err("DUP flag must not be set when QoS is 0");
    }

    let remaining_length: usize;

    match common_fn::bit_operations::decode_remaining_length(buffer.as_slice()) {
        Ok(value) => {
            remaining_length = value;
        }
        Err(err) => {
            return Err(err);
        }
    }

    // Reject a packet shorter than its declared remaining length
    if packet_length <= remaining_length {
        return Err("Packet length is lower than remaining length");
    }

    let mut current_index: usize = packet_length - remaining_length;

    // Gets the topic name
    let topic_name: String;
    match common_fn::msb_lsb_reader::get_values(buffer.as_slice(), current_index, true) {
        Ok(response) => {
            topic_name = response.1;
            current_index = response.2;
        }
        Err(err) => {
            return Err(err);
        }
    }

    let mut packet_id: usize = 0;

    // A packet of quality one or two carries a packet identifier
    if qos_level != 0 {
        match common_fn::msb_lsb_reader::get_values(buffer.as_slice(), current_index, false) {
            Ok(response) => {
                packet_id = response.0;
                current_index = response.2;
            }
            Err(err) => {
                return Err(err);
            }
        }
    }

    // Gets the payload of the publish packet
    let ghost after_pid = current_index as int;
    let mut payload_raw: Vec<u8> = Vec::new();
    proof {
        assert(payload_raw@ =~= b.subrange(after_pid, after_pid));
    }
    while current_index < packet_length
        invariant
            packet_length <= 8192,
            0 <= after_pid <= current_index,
            current_index <= packet_length || current_index == after_pid,
            b == buffer@,
            payload_raw@ == b.subrange(after_pid, current_index as int),
        decreases packet_length - current_index,
    {
        payload_raw.push(buffer[current_index]);
        proof {
            assert(b.subrange(after_pid, current_index + 1) =~= b.subrange(
                after_pid,
                current_index as int,
            ).push(b[current_index as int]));
        }
        current_index = current_index + 1;
    }

    let payload_message: String = match common_fn::msb_lsb_reader::string_from_utf8(payload_raw) {
        Some(s) => s,
        None => {
            return Err("String value is not valid UTF-8");
        }
    };

    // Assemble return struct
    let response: Response = Response {
        dup_flag: flag_3,
        qos_level,
        retain_flag: flag_0,
        packet_id,
        topic_name,
        payload_message,
    };

    Ok(response)
}

/// One planned delivery of a PUBLISH packet: which client receives it, the
/// packet bytes, the packet identifier the broker allocated, and the
/// delivery quality.
#[derive(Debug)]
pub struct Delivery {
    pub client_id: String,
    pub packet: Vec<u8>,
    pub packet_id: u16,
    pub qos: u8,
}

/// Relies on rand::thread_rng and rand::Rng::gen_range: returns a value in
/// the given inclusive range, here a fresh packet identifier.
#[verifier::external_body]
fn random_packet_id() -> (r: u16)
    ensures
        1 <= r <= 65535,
{
    rand::thread_rng().gen_range(1..=65535u16)
}

/// The lower of two quality levels.
pub open spec fn min_qos(a: u8, b: u8) -> u8 {
    if a <= b {
        a
    } else {
        b
    }
}

/// The bytes of a PUBLISH packet: the fixed-header byte with the duplicate,
/// quality and retain bits, the remaining length, the length-prefixed topic
/// name, the packet identifier for quality one or two, and the payload.
pub open spec fn spec_publish_packet(
    topic_bytes: Seq<u8>,
    payload: Seq<u8>,
    qos: u8,
    retain: bool,
    dup: bool,
    packet_id: int,
) -> Seq<u8> {
    let first = (48 + (if dup {
        8int
    } else {
        0int
    }) + (if qos == 2 {
        4int
    } else if qos == 1 {
        2int
    } else {
        0int
    }) + (if retain {
        1int
    } else {
        0int
    })) as u8;
    let var = length_prefixed(topic_bytes) + (if qos == 1 || qos == 2 {
        seq![(packet_id / 256) as u8, (packet_id % 256) as u8]
    } else {
        Seq::<u8>::empty()
    }) + payload;
    seq![first] + encode_varint(var.len() as int) + var
}

/// Builds the PUBLISH packet that delivers a message to one client at the
/// given quality, allocating a fresh packet identifier for quality one or
/// two.
pub fn publish_to_client(
    client: &Client,
    topic: &Topic,
    topic_message: &String,
    qos: u8,
    retain: bool,
) -> (d: Delivery)
    requires
        encode_utf8(topic.topic_name@).len() <= 0xffff,
        encode_utf8(topic.topic_name@).len() + encode_utf8(topic_message@).len() + 4
            <= 268435455,
    ensures
        d.client_id@ == client.id@,
        d.qos == qos,
        1 <= d.packet_id <= 65535,
        d.packet@ == spec_publish_packet(
            encode_utf8(topic.topic_name@),
            encode_utf8(topic_message@),
            qos,
            retain,
            false,
            d.packet_id as int,
        ),
{
    // Fixed-header byte: the PUBLISH type in the top four bits, then the
    // duplicate (always clear on a first send), quality and retain bits
    let mut first_byte: u8 = 48;
    if qos == 2 {
        first_byte = first_byte + 4;
    } else if qos == 1 {
        first_byte = first_byte + 2;
    }
    if retain {
        first_byte = first_byte + 1;
    }

    // Length-prefixed topic name
    let mut var_part: Vec<u8> = match common_fn::msb_lsb_creater::create_packet(
        topic.topic_name.as_str(),
    ) {
        Ok(v) => v,
        Err(_) => vstd::pervasive::unreached(),
    };

    // A fresh random packet identifier
    let packet_id: u16 = random_packet_id();

    // The packet identifier travels in the packet only for quality one or
    // two
    if qos == 1 || qos == 2 {
        let pid_bytes: [u8; 2] = common_fn::msb_lsb_creater::split_into_msb_lsb(
            packet_id as usize,
        );
        var_part.push(pid_bytes[0]);
        var_part.push(pid_bytes[1]);
    }

    // The message payload takes the rest
    var_part.extend_from_slice(topic_message.as_str().as_bytes());

    let ghost var_spec = length_prefixed(encode_utf8(topic.topic_name@)) + (if qos == 1 || qos
        == 2 {
        seq![((packet_id as int) / 256) as u8, ((packet_id as int) % 256) as u8]
    } else {
        Seq::<u8>::empty()
    }) + encode_utf8(topic_message@);
    proof {
        assert(var_part@ =~= var_spec);
    }

    let remaining: u32 = var_part.len() as u32;
    let mut packet: Vec<u8> = Vec::new();
    packet.push(first_byte);
    let mut remaining_bytes: Vec<u8> = common_fn::bit_operations::encode_remaining_length(
        remaining,
    );
    packet.append(&mut remaining_bytes);
    packet.extend_from_slice(var_part.as_slice());

    proof {
        assert(packet@ =~= spec_publish_packet(
            encode_utf8(topic.topic_name@),
            encode_utf8(topic_message@),
            qos,
            retain,
            false,
            packet_id as int,
        ));
    }

    Delivery { client_id: client.id.clone(), packet, packet_id, qos }
}

/// The clients, in registry order, that a topic's fan-out reaches: those
/// whose id stands in the topic's subscriber list, each with its granted
/// quality.
pub open spec fn topic_targets(clients: Seq<Client>, topic: Topic) -> Seq<(Seq<char>, u8)>
    decreases clients.len(),
{
    if clients.len() == 0 {
        Seq::empty()
    } else {
        let p = find_pair_index(topic.client_ids@, clients[0].id@);
        let head: Seq<(Seq<char>, u8)> = if p >= 0 {
            seq![(clients[0].id@, topic.client_ids@[p].1)]
        } else {
            Seq::empty()
        };
        head + topic_targets(clients.drop_first(), topic)
    }
}

/// The fan-out targets of a message: for every topic whose name matches,
/// the clients subscribed to it, in topic then registry order.
pub open spec fn fanout_targets(topics: Seq<Topic>, clients: Seq<Client>, name: Seq<char>) -> Seq<
    (Seq<char>, u8),
>
    decreases topics.len(),
{
    if topics.len() == 0 {
        Seq::empty()
    } else {
        (if topics[0].topic_name@ == name {
            topic_targets(clients, topics[0])
        } else {
            Seq::empty()
        }) + fanout_targets(topics.drop_first(), clients, name)
    }
}

/// One more client at the end of the registry adds at most its own target.
pub proof fn lemma_topic_targets_snoc(clients: Seq<Client>, c: Client, topic: Topic)
    ensures
        ({
            let p = find_pair_index(topic.client_ids@, c.id@);
            topic_targets(clients.push(c), topic) == topic_targets(clients, topic) + (if p >= 0 {
                seq![(c.id@, topic.client_ids@[p].1)]
            } else {
                Seq::<(Seq<char>, u8)>::empty()
            })
        }),
    decreases clients.len(),
{
    let p = find_pair_index(topic.client_ids@, c.id@);
    let tail_of_c: Seq<(Seq<char>, u8)> = if p >= 0 {
        seq![(c.id@, topic.client_ids@[p].1)]
    } else {
        Seq::empty()
    };
    if clients.len() == 0 {
        assert(clients.push(c).drop_first() =~= Seq::<Client>::empty());
        assert(clients.push(c)[0] == c);
        assert(topic_targets(Seq::<Client>::empty(), topic) == Seq::<(Seq<char>, u8)>::empty());
        assert(topic_targets(clients.push(c), topic) == tail_of_c + Seq::<(
            Seq<char>,
            u8,
        )>::empty());
        assert(tail_of_c + Seq::<(Seq<char>, u8)>::empty() =~= tail_of_c);
        assert(topic_targets(clients, topic) + tail_of_c =~= tail_of_c);
    } else {
        assert(clients.push(c).drop_first() =~= clients.drop_first().push(c));
        assert(clients.push(c)[0] == clients[0]);
        lemma_topic_targets_snoc(clients.drop_first(), c, topic);
        let p0 = find_pair_index(topic.client_ids@, clients[0].id@);
        let head: Seq<(Seq<char>, u8)> = if p0 >= 0 {
            seq![(clients[0].id@, topic.client_ids@[p0].1)]
        } else {
            Seq::empty()
        };
        assert(topic_targets(clients.push(c), topic) == head + (topic_targets(
            clients.drop_first(),
            topic,
        ) + tail_of_c));
        assert(head + (topic_targets(clients.drop_first(), topic) + tail_of_c) =~= (head
            + topic_targets(clients.drop_first(), topic)) + tail_of_c);
    }
}

/// One more topic at the end of the registry adds at most its own targets.
pub proof fn lemma_fanout_snoc(topics: Seq<Topic>, x: Topic, clients: Seq<Client>, name: Seq<char>)
    ensures
        fanout_targets(topics.push(x), clients, name) == fanout_targets(topics, clients, name) + (
        if x.topic_name@ == name {
            topic_targets(clients, x)
        } else {
            Seq::<(Seq<char>, u8)>::empty()
        }),
    decreases topics.len(),
{
    let tail_of_x: Seq<(Seq<char>, u8)> = if x.topic_name@ == name {
        topic_targets(clients, x)
    } else {
        Seq::empty()
    };
    if topics.len() == 0 {
        assert(topics.push(x).drop_first() =~= Seq::<Topic>::empty());
        assert(topics.push(x)[0] == x);
        assert(fanout_targets(Seq::<Topic>::empty(), clients, name) == Seq::<(
            Seq<char>,
            u8,
        )>::empty());
        assert(fanout_targets(topics.push(x), clients, name) == tail_of_x + Seq::<(
            Seq<char>,
            u8,
        )>::empty());
        assert(tail_of_x + Seq::<(Seq<char>, u8)>::empty() =~= tail_of_x);
        assert(fanout_targets(topics, clients, name) + tail_of_x =~= tail_of_x);
    } else {
        assert(topics.push(x).drop_first() =~= topics.drop_first().push(x));
        assert(topics.push(x)[0] == topics[0]);
        lemma_fanout_snoc(topics.drop_first(), x, clients, name);
        let head: Seq<(Seq<char>, u8)> = if topics[0].topic_name@ == name {
            topic_targets(clients, topics[0])
        } else {
            Seq::empty()
        };
        assert(fanout_targets(topics.push(x), clients, name) == head + (fanout_targets(
            topics.drop_first(),
            clients,
            name,
        ) + tail_of_x));
        assert(head + (fanout_targets(topics.drop_first(), clients, name) + tail_of_x) =~= (head
            + fanout_targets(topics.drop_first(), clients, name)) + tail_of_x);
    }
}

/// Deliveries realise targets: one delivery per target, addressed to its
/// client, at the lower of the publisher's and the granted quality, with a
/// packet identifier in range and exactly the packet those choices dictate.
pub open spec fn fanout_deliveries_ok(
    ds: Seq<Delivery>,
    targets: Seq<(Seq<char>, u8)>,
    name: Seq<char>,
    payload: Seq<u8>,
    qos: u8,
    retain: bool,
) -> bool {
    &&& ds.len() == targets.len()
    &&& forall|k: int|
        0 <= k < targets.len() ==> {
            &&& (#[trigger] ds[k]).client_id@ == targets[k].0
            &&& ds[k].qos == min_qos(qos, targets[k].1)
            &&& 1 <= ds[k].packet_id <= 65535
            &&& ds[k].packet@ == spec_publish_packet(
                encode_utf8(name),
                payload,
                min_qos(qos, targets[k].1),
                retain,
                false,
                ds[k].packet_id as int,
            )
        }
}

/// Plans the fan-out of a message: for every topic whose name matches and
/// every registered client subscribed to it, one delivery at the lower of
/// the publisher's and the granted quality.
pub fn publish(
    topics: &Vec<Topic>,
    clients: &Vec<Client>,
    topic_name: &String,
    topic_message: &String,
    qos: u8,
    retain: bool,
) -> (ds: Vec<Delivery>)
    requires
        forall|t: int|
            0 <= t < topics@.len() && (#[trigger] topics@[t]).topic_name@ == topic_name@ ==> {
                &&& encode_utf8(topics@[t].topic_name@).len() <= 0xffff
                &&& encode_utf8(topics@[t].topic_name@).len() + encode_utf8(
                    topic_message@,
                ).len() + 4 <= 268435455
            },
    ensures
        fanout_deliveries_ok(
            ds@,
            fanout_targets(topics@, clients@, topic_name@),
            topic_name@,
            encode_utf8(topic_message@),
            qos,
            retain,
        ),
{
    let mut deliveries: Vec<Delivery> = Vec::new();

    proof {
        assert(topics@.take(0) =~= Seq::<Topic>::empty());
    }

    let mut t: usize = 0;
    while t < topics.len()
        invariant
            t <= topics@.len(),
            forall|t2: int|
                0 <= t2 < topics@.len() && (#[trigger] topics@[t2]).topic_name@ == topic_name@
                    ==> {
                    &&& encode_utf8(topics@[t2].topic_name@).len() <= 0xffff
                    &&& encode_utf8(topics@[t2].topic_name@).len() + encode_utf8(
                        topic_message@,
                    ).len() + 4 <= 268435455
                },
            fanout_deliveries_ok(
                deliveries@,
                fanout_targets(topics@.take(t as int), clients@, topic_name@),
                topic_name@,
                encode_utf8(topic_message@),
                qos,
                retain,
            ),
        decreases topics@.len() - t,
    {
        let ghost gt = t as int;
        if topics[t].topic_name == *topic_name {
            proof {
                assert(clients@.take(0) =~= Seq::<Client>::empty());
            }
            let mut c: usize = 0;
            while c < clients.len()
                invariant
                    t < topics@.len(),
                    gt == t as int,
                    c <= clients@.len(),
                    topics@[gt].topic_name@ == topic_name@,
                    encode_utf8(topics@[gt].topic_name@).len() <= 0xffff,
                    encode_utf8(topics@[gt].topic_name@).len() + encode_utf8(
                        topic_message@,
                    ).len() + 4 <= 268435455,
                    fanout_deliveries_ok(
                        deliveries@,
                        fanout_targets(topics@.take(gt), clients@, topic_name@) + topic_targets(
                            clients@.take(c as int),
                            topics@[gt],
                        ),
                        topic_name@,
                        encode_utf8(topic_message@),
                        qos,
                        retain,
                    ),
                decreases clients@.len() - c,
            {
                let ghost before = fanout_targets(topics@.take(gt), clients@, topic_name@)
                    + topic_targets(clients@.take(c as int), topics@[gt]);
                match crate::position_pair(&topics[t].client_ids, &clients[c].id) {
                    Some(p) => {
                        proof {
                            lemma_find_pair_index(topics@[gt].client_ids@, clients@[c as int].id@);
                        }
                        let granted: u8 = topics[t].client_ids[p].1;
                        let q: u8 = if qos <= granted {
                            qos
                        } else {
                            granted
                        };
                        let d = publish_to_client(&clients[c], &topics[t], topic_message, q, retain);
                        deliveries.push(d);
                    }
                    None => {},
                }
                proof {
                    lemma_topic_targets_snoc(clients@.take(c as int), clients@[c as int], topics@[gt]);
                    assert(clients@.take(c + 1) =~= clients@.take(c as int).push(
                        clients@[c as int],
                    ));
                    let after = fanout_targets(topics@.take(gt), clients@, topic_name@)
                        + topic_targets(clients@.take(c + 1), topics@[gt]);
                    let p = find_pair_index(topics@[gt].client_ids@, clients@[c as int].id@);
                    if p >= 0 {
                        assert(after =~= before.push(
                            (clients@[c as int].id@, topics@[gt].client_ids@[p].1),
                        ));
                    } else {
                        assert(after =~= before);
                    }
                }
                c = c + 1;
            }
            proof {
                assert(clients@.take(clients@.len() as int) =~= clients@);
            }
        }
        proof {
            lemma_fanout_snoc(topics@.take(gt), topics@[gt], clients@, topic_name@);
            assert(topics@.take(gt + 1) =~= topics@.take(gt).push(topics@[gt]));
            if topics@[gt].topic_name@ != topic_name@ {
                assert(fanout_targets(topics@.take(gt + 1), clients@, topic_name@)
                    =~= fanout_targets(topics@.take(gt), clients@, topic_name@));
            }
        }
        t = t + 1;
    }

    proof {
        assert(topics@.take(topics@.len() as int) =~= topics@);
    }

    deliveries
}

/// The index of the first queue entry with the given key, searched front to
/// back.
pub(crate) fn position_queue(
    queue: &Vec<PublishQueueItem>,
    packet_id: usize,
    direction: PublishItemDirection,
) -> (r: Option<usize>)
    ensures
        ({
            let i = find_queue_index(queue@, packet_id as int, direction);
            match r {
                Some(k) => k == i,
                None => i < 0,
            }
        }),
{
    proof {
        lemma_find_queue_index(queue@, packet_id as int, direction);
    }
    let mut k: usize = 0;
    while k < queue.len()
        invariant
            k <= queue@.len(),
            forall|j: int|
                0 <= j < k ==> !((#[trigger] queue@[j]).packet_id == packet_id
                    && queue@[j].flow_direction == direction),
        decreases queue@.len() - k,
    {
        if queue[k].packet_id == packet_id && queue[k].flow_direction == direction {
            proof {
                lemma_find_queue_index(queue@, packet_id as int, direction);
            }
            return Some(k);
        }
        k = k + 1;
    }
    None
}

/// A two-byte-body acknowledgement packet: its type byte, the remaining
/// length of two, and the packet identifier.
pub(crate) fn ack_packet(first_byte: u8, packet_id: usize) -> (r: Vec<u8>)
    requires
        packet_id <= 65535,
    ensures
        r@ == seq![
            first_byte,
            2u8,
            ((packet_id as int) / 256) as u8,
            ((packet_id as int) % 256) as u8,
        ],
{
    let mut packet: Vec<u8> = Vec::new();
    packet.push(first_byte);
    packet.push(2);
    let pid_bytes: [u8; 2] = common_fn::msb_lsb_creater::split_into_msb_lsb(packet_id);
    packet.push(pid_bytes[0]);
    packet.push(pid_bytes[1]);
    proof {
        assert(packet@ =~= seq![
            first_byte,
            2u8,
            ((packet_id as int) / 256) as u8,
            ((packet_id as int) % 256) as u8,
        ]);
    }
    packet
}

/// Records an outbound quality one or two delivery as in flight: the queue
/// gains an entry keyed by the delivery's packet identifier towards the
/// subscriber, awaiting the first acknowledgement of its flow; an entry
/// already under that key is replaced.  Law: each key stays on at most one
/// entry.
pub fn enqueue_delivery(queue: &mut Vec<PublishQueueItem>, d: &Delivery)
    requires
        d.qos == 1 || d.qos == 2,
    ensures
        ({
            let idx = find_queue_index(
                old(queue)@,
                d.packet_id as int,
                PublishItemDirection::ToSubscriber,
            );
            let state = if d.qos == 1 {
                PublishItemState::AwaitingPuback
            } else {
                PublishItemState::AwaitingPubrec
            };
            let fits = |it: PublishQueueItem|
                {
                    &&& it.packet_id == d.packet_id
                    &&& it.client_id@ == d.client_id@
                    &&& it.publish_packet@ == d.packet@
                    &&& it.state == state
                    &&& it.qos_level == d.qos
                    &&& it.flow_direction == PublishItemDirection::ToSubscriber
                };
            &&& idx < 0 ==> {
                &&& final(queue)@.len() == old(queue)@.len() + 1
                &&& forall|j: int|
                    0 <= j < old(queue)@.len() ==> final(queue)@[j] == old(queue)@[j]
                &&& fits(final(queue)@.last())
            }
            &&& idx >= 0 ==> {
                &&& final(queue)@.len() == old(queue)@.len()
                &&& forall|j: int|
                    0 <= j < old(queue)@.len() && j != idx ==> final(queue)@[j] == old(queue)@[j]
                &&& fits(final(queue)@[idx])
            }
            &&& queue_keys_unique(old(queue)@) ==> queue_keys_unique(final(queue)@)
        }),
{
    let ghost orig = queue@;
    let state = if d.qos == 1 {
        PublishItemState::AwaitingPuback
    } else {
        PublishItemState::AwaitingPubrec
    };
    let item = PublishQueueItem {
        packet_id: d.packet_id as usize,
        client_id: d.client_id.clone(),
        publish_packet: d.packet.clone(),
        state,
        qos_level: d.qos,
        flow_direction: PublishItemDirection::ToSubscriber,
    };
    assert(item.publish_packet@ =~= d.packet@);
    match position_queue(queue, d.packet_id as usize, PublishItemDirection::ToSubscriber) {
        Some(i) => {
            proof {
                lemma_find_queue_index(
                    orig,
                    d.packet_id as int,
                    PublishItemDirection::ToSubscriber,
                );
            }
            let _stale = queue.remove(i);
            queue.insert(i, item);
            proof {
                assert(queue@ =~= orig.update(i as int, queue@[i as int]));
                if queue_keys_unique(orig) {
                    lemma_queue_unique_update(orig, i as int, queue@[i as int]);
                }
            }
        }
        None => {
            queue.push(item);
            proof {
                if queue_keys_unique(orig) {
                    lemma_queue_unique_push(orig, queue@.last());
                }
            }
        }
    }
}

/// Takes a PUBACK for an outbound quality one delivery: the entry awaiting
/// it leaves the queue; without such an entry nothing changes.  Law: each
/// key stays on at most one entry.
pub fn qos1_handle_puback(queue: &mut Vec<PublishQueueItem>, packet_id: usize) -> (removed: bool)
    ensures
        ({
            let idx = find_queue_index(
                old(queue)@,
                packet_id as int,
                PublishItemDirection::ToSubscriber,
            );
            &&& removed == (idx >= 0 && old(queue)@[idx].state
                == PublishItemState::AwaitingPuback)
            &&& removed ==> final(queue)@ == old(queue)@.remove(idx)
            &&& !removed ==> final(queue)@ == old(queue)@
            &&& queue_keys_unique(old(queue)@) ==> queue_keys_unique(final(queue)@)
        }),
{
    let ghost orig = queue@;
    match position_queue(queue, packet_id, PublishItemDirection::ToSubscriber) {
        Some(i) => {
            proof {
                lemma_find_queue_index(orig, packet_id as int, PublishItemDirection::ToSubscriber);
            }
            if queue[i].state == PublishItemState::AwaitingPuback {
                let _done = queue.remove(i);
                proof {
                    if queue_keys_unique(orig) {
                        lemma_queue_unique_remove(orig, i as int);
                    }
                }
                true
            } else {
                false
            }
        }
        None => false,
    }
}

/// Takes a PUBREC for an outbound quality two delivery: the entry awaiting
/// it moves on to awaiting PUBCOMP and the PUBREL packet to send comes
/// back; without such an entry nothing changes.  Law: each key stays on at
/// most one entry.
pub fn qos2_handle_pubrec(queue: &mut Vec<PublishQueueItem>, packet_id: usize) -> (r: Option<
    Vec<u8>,
>)
    requires
        packet_id <= 65535,
    ensures
        ({
            let idx = find_queue_index(
                old(queue)@,
                packet_id as int,
                PublishItemDirection::ToSubscriber,
            );
            let hit = idx >= 0 && old(queue)@[idx].state == PublishItemState::AwaitingPubrec;
            &&& r is Some <==> hit
            &&& hit ==> {
                &&& final(queue)@ == old(queue)@.update(
                    idx,
                    (PublishQueueItem {
                        state: PublishItemState::AwaitingPubcomp,
                        ..old(queue)@[idx]
                    }),
                )
                &&& r->0@ == seq![
                    96u8,
                    2u8,
                    ((packet_id as int) / 256) as u8,
                    ((packet_id as int) % 256) as u8,
                ]
            }
            &&& !hit ==> final(queue)@ == old(queue)@
            &&& queue_keys_unique(old(queue)@) ==> queue_keys_unique(final(queue)@)
        }),
{
    let ghost orig = queue@;
    match position_queue(queue, packet_id, PublishItemDirection::ToSubscriber) {
        Some(i) => {
            proof {
                lemma_find_queue_index(orig, packet_id as int, PublishItemDirection::ToSubscriber);
            }
            if queue[i].state == PublishItemState::AwaitingPubrec {
                let mut entry: PublishQueueItem = queue.remove(i);
                entry.state = PublishItemState::AwaitingPubcomp;
                queue.insert(i, entry);
                proof {
                    assert(queue@ =~= orig.update(i as int, queue@[i as int]));
                    if queue_keys_unique(orig) {
                        lemma_queue_unique_update(orig, i as int, queue@[i as int]);
                    }
                }
                Some(ack_packet(96, packet_id))
            } else {
                None
            }
        }
        None => None,
    }
}

/// Takes a PUBCOMP for an outbound quality two delivery: the entry awaiting
/// it leaves the queue; without such an entry nothing changes.  Law: each
/// key stays on at most one entry.
pub fn qos2_handle_pubcomp(queue: &mut Vec<PublishQueueItem>, packet_id: usize) -> (removed: bool)
    ensures
        ({
            let idx = find_queue_index(
                old(queue)@,
                packet_id as int,
                PublishItemDirection::ToSubscriber,
            );
            &&& removed == (idx >= 0 && old(queue)@[idx].state
                == PublishItemState::AwaitingPubcomp)
            &&& removed ==> final(queue)@ == old(queue)@.remove(idx)
            &&& !removed ==> final(queue)@ == old(queue)@
            &&& queue_keys_unique(old(queue)@) ==> queue_keys_unique(final(queue)@)
        }),
{
    let ghost orig = queue@;
    match position_queue(queue, packet_id, PublishItemDirection::ToSubscriber) {
        Some(i) => {
            proof {
                lemma_find_queue_index(orig, packet_id as int, PublishItemDirection::ToSubscriber);
            }
            if queue[i].state == PublishItemState::AwaitingPubcomp {
                let _done = queue.remove(i);
                proof {
                    if queue_keys_unique(orig) {
                        lemma_queue_unique_remove(orig, i as int);
                    }
                }
                true
            } else {
                false
            }
        }
        None => false,
    }
}

/// Takes a PUBREL from a publisher: the inbound quality two entry awaiting
/// it leaves the queue and the PUBCOMP packet to send comes back; without
/// such an entry nothing changes.  Law: each key stays on at most one
/// entry.
pub fn qos2_handle_pubrel(queue: &mut Vec<PublishQueueItem>, packet_id: usize) -> (r: Option<
    Vec<u8>,
>)
    requires
        packet_id <= 65535,
    ensures
        ({
            let idx = find_queue_index(
                old(queue)@,
                packet_id as int,
                PublishItemDirection::FromPublisher,
            );
            let hit = idx >= 0 && old(queue)@[idx].state == PublishItemState::AwaitingPubrel;
            &&& r is Some <==> hit
            &&& hit ==> {
                &&& final(queue)@ == old(queue)@.remove(idx)
                &&& r->0@ == seq![
                    112u8,
                    2u8,
                    ((packet_id as int) / 256) as u8,
                    ((packet_id as int) % 256) as u8,
                ]
            }
            &&& !hit ==> final(queue)@ == old(queue)@
            &&& queue_keys_unique(old(queue)@) ==> queue_keys_unique(final(queue)@)
        }),
{
    let ghost orig = queue@;
    match position_queue(queue, packet_id, PublishItemDirection::FromPublisher) {
        Some(i) => {
            proof {
                lemma_find_queue_index(
                    orig,
                    packet_id as int,
                    PublishItemDirection::FromPublisher,
                );
            }
            if queue[i].state == PublishItemState::AwaitingPubrel {
                let _done = queue.remove(i);
                proof {
                    if queue_keys_unique(orig) {
                        lemma_queue_unique_remove(orig, i as int);
                    }
                }
                Some(ack_packet(112, packet_id))
            } else {
                None
            }
        }
        None => None,
    }
}

/// The packet a timed-out in-flight entry sends again: the stored PUBLISH
/// with the duplicate bit set while the first acknowledgement is owed, the
/// PUBREL while PUBCOMP is owed, and the PUBREC while PUBREL is owed.
pub fn retransmission_packet(item: &PublishQueueItem) -> (r: Vec<u8>)
    requires
        item.packet_id <= 65535,
        item.state == PublishItemState::AwaitingPuback || item.state
            == PublishItemState::AwaitingPubrec ==> item.publish_packet@.len() >= 1,
    ensures
        item.state == PublishItemState::AwaitingPuback || item.state
            == PublishItemState::AwaitingPubrec ==> r@ == item.publish_packet@.update(
            0,
            item.publish_packet@[0] | 8,
        ),
        item.state == PublishItemState::AwaitingPubcomp ==> r@ == seq![
            96u8,
            2u8,
            ((item.packet_id as int) / 256) as u8,
            ((item.packet_id as int) % 256) as u8,
        ],
        item.state == PublishItemState::AwaitingPubrel ==> r@ == seq![
            80u8,
            2u8,
            ((item.packet_id as int) / 256) as u8,
            ((item.packet_id as int) % 256) as u8,
        ],
{
    match item.state {
        PublishItemState::AwaitingPuback | PublishItemState::AwaitingPubrec => {
            let ghost orig = item.publish_packet@;
            let mut packet: Vec<u8> = item.publish_packet.clone();
            assert(packet@ =~= orig);
            let first: u8 = packet.remove(0);
            packet.insert(0, first | 8);
            proof {
                assert(packet@ =~= orig.update(0, orig[0] | 8));
            }
            packet
        }
        PublishItemState::AwaitingPubcomp => ack_packet(96, item.packet_id),
        PublishItemState::AwaitingPubrel => ack_packet(80, item.packet_id),
        _ => Vec::new(),
    }
}

/// Validates a two-byte-body acknowledgement packet and returns its packet
/// identifier: four bytes in all, a remaining length of exactly two.
fn validate_qos_packet(buffer: [u8; 8192], packet_length: usize) -> (r: Result<
    usize,
    &'static str,
>)
    ensures
        packet_length != 4 ==> r is Err && r->Err_0@ == "Invalid packet length"@,
        packet_length == 4 && buffer@[1] != 2 ==> r is Err && r->Err_0@
            == "Invalid remaining length"@,
        packet_length == 4 && buffer@[1] == 2 ==> r is Ok && r->Ok_0 == buffer@[2] * 256
            + buffer@[3],
{
    if packet_length != 4 {
        return Err("Invalid packet length");
    }

    if buffer[1] != 2 {
        return Err("Invalid remaining length");
    }

    let packet_id: usize = match common_fn::msb_lsb_reader::get_values(buffer.as_slice(), 2, false) {
        Ok(response) => response.0,
        Err(err) => {
            return Err(err);
        }
    };

    Ok(packet_id)
}

/// Handles a PUBACK packet: validates it and returns its packet identifier.
pub fn handle_puback(buffer: [u8; 8192], packet_length: usize) -> (r: Result<usize, &'static str>)
    ensures
        packet_length != 4 ==> r is Err && r->Err_0@ == "Invalid packet length"@,
        packet_length == 4 && buffer@[1] != 2 ==> r is Err && r->Err_0@
            == "Invalid remaining length"@,
        packet_length == 4 && buffer@[1] == 2 ==> r is Ok && r->Ok_0 == buffer@[2] * 256
            + buffer@[3],
{
    validate_qos_packet(buffer, packet_length)
}

/// Handles a PUBREC packet: validates it and returns its packet identifier.
pub fn handle_pubrec(buffer: [u8; 8192], packet_length: usize) -> (r: Result<usize, &'static str>)
    ensures
        packet_length != 4 ==> r is Err && r->Err_0@ == "Invalid packet length"@,
        packet_length == 4 && buffer@[1] != 2 ==> r is Err && r->Err_0@
            == "Invalid remaining length"@,
        packet_length == 4 && buffer@[1] == 2 ==> r is Ok && r->Ok_0 == buffer@[2] * 256
            + buffer@[3],
{
    validate_qos_packet(buffer, packet_length)
}

/// Handles a PUBREL packet: validates it and returns its packet identifier.
pub fn handle_pubrel(buffer: [u8; 8192], packet_length: usize) -> (r: Result<usize, &'static str>)
    ensures
        packet_length != 4 ==> r is Err && r->Err_0@ == "Invalid packet length"@,
        packet_length == 4 && buffer@[1] != 2 ==> r is Err && r->Err_0@
            == "Invalid remaining length"@,
        packet_length == 4 && buffer@[1] == 2 ==> r is Ok && r->Ok_0 == buffer@[2] * 256
            + buffer@[3],
{
    validate_qos_packet(buffer, packet_length)
}

/// Handles a PUBCOMP packet: validates it and returns its packet identifier.
pub fn handle_pubcomp(buffer: [u8; 8192], packet_length: usize) -> (r: Result<usize, &'static str>)
    ensures
        packet_length != 4 ==> r is Err && r->Err_0@ == "Invalid packet length"@,
        packet_length == 4 && buffer@[1] != 2 ==> r is Err && r->Err_0@
            == "Invalid remaining length"@,
        packet_length == 4 && buffer@[1] == 2 ==> r is Ok && r->Ok_0 == buffer@[2] * 256
            + buffer@[3],
{
    validate_qos_packet(buffer, packet_length)
}

} // verus!
