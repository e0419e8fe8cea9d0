use vstd::prelude::*;

pub mod common_fn;
pub mod control_packet;
pub mod models;

use vstd::utf8::encode_utf8;

use crate::control_packet::publish::{
    Delivery, Response, ack_packet, fanout_deliveries_ok, fanout_targets, publish,
    publish_to_client, spec_publish_packet,
};
use crate::models::client::{
    Client, find_client_by_addr, lemma_find_client_by_addr, session_ids_unique,
};
use crate::models::publish_queue_item::{
    PublishItemDirection, PublishItemState, PublishQueueItem, find_queue_index,
    lemma_queue_unique_push, queue_keys_unique,
};
use crate::models::topic::{
    Topic, client_ids_unique, find_pair_index, find_topic_index, lemma_find_pair_index,
    lemma_find_topic_index, lemma_unique_remove, lemma_unique_replace, topics_wf,
};

verus! {

/// The index of the first topic with the given name, searched front to
/// back.
pub(crate) fn position_topic(topics: &Vec<Topic>, name: &String) -> (r: Option<usize>)
    ensures
        ({
            let i = find_topic_index(topics@, name@);
            match r {
                Some(k) => k == i,
                None => i < 0,
            }
        }),
{
    proof {
        lemma_find_topic_index(topics@, name@);
    }
    let mut k: usize = 0;
    while k < topics.len()
        invariant
            k <= topics@.len(),
            forall|j: int| 0 <= j < k ==> topics@[j].topic_name@ != name@,
        decreases topics@.len() - k,
    {
        if topics[k].topic_name == *name {
            proof {
                lemma_find_topic_index(topics@, name@);
            }
            return Some(k);
        }
        k = k + 1;
    }
    None
}

/// The index of the first subscriber pair with the given client id,
/// searched front to back.
pub(crate) fn position_pair(l: &Vec<(String, u8)>, id: &String) -> (r: Option<usize>)
    ensures
        ({
            let i = find_pair_index(l@, id@);
            match r {
                Some(k) => k == i,
                None => i < 0,
            }
        }),
{
    proof {
        lemma_find_pair_index(l@, id@);
    }
    let mut k: usize = 0;
    while k < l.len()
        invariant
            k <= l@.len(),
            forall|j: int| 0 <= j < k ==> l@[j].0@ != id@,
        decreases l@.len() - k,
    {
        if l[k].0 == *id {
            proof {
                lemma_find_pair_index(l@, id@);
            }
            return Some(k);
        }
        k = k + 1;
    }
    None
}

/// Subscribes a client to a topic.  An existing topic of that name gains
/// the pair, any earlier pair of the same client leaving first; an unknown
/// name brings a fresh topic holding just the pair.  Law: every subscriber
/// list free of duplicate client ids stays so.
pub fn add_client_to_topic_list(topics: &mut Vec<Topic>, client_id: String, topic: (String, u8))
    ensures
        ({
            let i = find_topic_index(old(topics)@, topic.0@);
            &&& i < 0 ==> {
                &&& final(topics)@.len() == old(topics)@.len() + 1
                &&& forall|j: int|
                    0 <= j < old(topics)@.len() ==> final(topics)@[j] == old(topics)@[j]
                &&& final(topics)@.last().topic_name@ == topic.0@
                &&& final(topics)@.last().retained_msg.0@ == Seq::<char>::empty()
                &&& final(topics)@.last().retained_msg.1 == 0
                &&& final(topics)@.last().client_ids@ == seq![(client_id, topic.1)]
            }
            &&& i >= 0 ==> {
                &&& final(topics)@.len() == old(topics)@.len()
                &&& forall|j: int|
                    0 <= j < old(topics)@.len() && j != i ==> final(topics)@[j] == old(topics)@[j]
                &&& final(topics)@[i].topic_name == old(topics)@[i].topic_name
                &&& final(topics)@[i].retained_msg == old(topics)@[i].retained_msg
                &&& ({
                    let l = old(topics)@[i].client_ids@;
                    let p = find_pair_index(l, client_id@);
                    let base = if p < 0 {
                        l
                    } else {
                        l.remove(p)
                    };
                    final(topics)@[i].client_ids@ == base.push((client_id, topic.1))
                })
            }
            &&& topics_wf(old(topics)@) ==> topics_wf(final(topics)@)
        }),
{
    let ghost orig = topics@;
    let (topic_name, qos) = topic;
    match position_topic(topics, &topic_name) {
        Some(i) => {
            proof {
                lemma_find_topic_index(orig, topic_name@);
            }
            let ghost gi = i as int;
            let mut entry: Topic = topics.remove(i);
            let ghost l = entry.client_ids@;
            match position_pair(&entry.client_ids, &client_id) {
                Some(p) => {
                    proof {
                        lemma_find_pair_index(l, client_id@);
                    }
                    entry.client_ids.remove(p);
                }
                None => {}
            }
            proof {
                lemma_find_pair_index(l, client_id@);
            }
            entry.client_ids.push((client_id, qos));
            topics.insert(i, entry);
            proof {
                assert(topics@ =~= orig.update(gi, topics@[gi]));
                if topics_wf(orig) {
                    lemma_unique_replace(l, topics@[gi].client_ids@.last());
                    assert forall|t: int|
                        0 <= t < topics@.len() implies client_ids_unique(
                        #[trigger] topics@[t].client_ids@,
                    ) by {
                        if t != gi {
                            assert(topics@[t] == orig[t]);
                        }
                    }
                }
            }
        }
        None => {
            let mut new_topic: Topic = Topic::new(topic_name);
            new_topic.client_ids.push((client_id, qos));
            topics.push(new_topic);
            proof {
                assert(final(topics)@.last().client_ids@ =~= seq![
                    (final(topics)@.last().client_ids@[0].0, qos),
                ]);
                if topics_wf(orig) {
                    assert forall|t: int|
                        0 <= t < topics@.len() implies client_ids_unique(
                        #[trigger] topics@[t].client_ids@,
                    ) by {
                        if t < orig.len() {
                            assert(topics@[t] == orig[t]);
                        }
                    }
                }
            }
        }
    }
}

/// Unsubscribes a client from a topic: the first pair with the client's id
/// leaves the topic's subscriber list; an unknown topic or an unsubscribed
/// client changes nothing.  Law: every subscriber list free of duplicate
/// client ids stays so.
pub fn remove_client_from_topic_list(topics: &mut Vec<Topic>, client_id: String, topic: (String, u8))
    ensures
        ({
            let i = find_topic_index(old(topics)@, topic.0@);
            let p = if i >= 0 {
                find_pair_index(old(topics)@[i].client_ids@, client_id@)
            } else {
                -1
            };
            &&& (i < 0 || p < 0) ==> final(topics)@ == old(topics)@
            &&& (i >= 0 && p >= 0) ==> {
                &&& final(topics)@.len() == old(topics)@.len()
                &&& forall|j: int|
                    0 <= j < old(topics)@.len() && j != i ==> final(topics)@[j] == old(topics)@[j]
                &&& final(topics)@[i].topic_name == old(topics)@[i].topic_name
                &&& final(topics)@[i].retained_msg == old(topics)@[i].retained_msg
                &&& final(topics)@[i].client_ids@ == old(topics)@[i].client_ids@.remove(p)
            }
            &&& topics_wf(old(topics)@) ==> topics_wf(final(topics)@)
        }),
{
    let ghost orig = topics@;
    let (topic_name, _qos) = topic;
    match position_topic(topics, &topic_name) {
        Some(i) => {
            proof {
                lemma_find_topic_index(orig, topic_name@);
            }
            let ghost gi = i as int;
            let mut entry: Topic = topics.remove(i);
            let ghost l = entry.client_ids@;
            match position_pair(&entry.client_ids, &client_id) {
                Some(p) => {
                    proof {
                        lemma_find_pair_index(l, client_id@);
                    }
                    entry.client_ids.remove(p);
                    topics.insert(i, entry);
                    proof {
                        assert(topics@ =~= orig.update(gi, topics@[gi]));
                        if topics_wf(orig) {
                            lemma_unique_remove(l, p as int);
                            assert forall|t: int|
                                0 <= t < topics@.len() implies client_ids_unique(
                                #[trigger] topics@[t].client_ids@,
                            ) by {
                                if t != gi {
                                    assert(topics@[t] == orig[t]);
                                }
                            }
                        }
                    }
                }
                None => {
                    topics.insert(i, entry);
                    proof {
                        assert(topics@ =~= orig);
                    }
                }
            }
        }
        None => {}
    }
}

/// Whether the reader loop dispatches a packet of the given type in its
/// current connection state: CONNECT must be the first packet and must not
/// come again; every other known type is taken only once the connection is
/// established; an unknown type closes the connection either way.
pub fn accepts_packet(has_first_packet_arrived: bool, packet_type: u8) -> (r: bool)
    ensures
        packet_type == 1 ==> r == !has_first_packet_arrived,
        packet_type != 1 ==> r == (has_first_packet_arrived && (packet_type == 3 || packet_type
            == 4 || packet_type == 5 || packet_type == 6 || packet_type == 7 || packet_type == 8
            || packet_type == 10 || packet_type == 12 || packet_type == 14)),
{
    if packet_type == 1 {
        !has_first_packet_arrived
    } else {
        has_first_packet_arrived && (packet_type == 3 || packet_type == 4 || packet_type == 5
            || packet_type == 6 || packet_type == 7 || packet_type == 8 || packet_type == 10
            || packet_type == 12 || packet_type == 14)
    }
}

/// Stores or clears a topic's retained message from a PUBLISH marked
/// retain: the payload and quality land on the existing topic of that
/// name, or on a fresh topic without subscribers; an empty payload thereby
/// clears the retained message.  A PUBLISH without the retain flag changes
/// nothing.  Law: every subscriber list free of duplicate client ids stays
/// so.
pub fn apply_retain(topics: &mut Vec<Topic>, response: &Response)
    ensures
        ({
            let i = find_topic_index(old(topics)@, response.topic_name@);
            &&& !response.retain_flag ==> final(topics)@ == old(topics)@
            &&& response.retain_flag && i >= 0 ==> {
                &&& final(topics)@.len() == old(topics)@.len()
                &&& forall|j: int|
                    0 <= j < old(topics)@.len() && j != i ==> final(topics)@[j] == old(topics)@[j]
                &&& final(topics)@[i].topic_name == old(topics)@[i].topic_name
                &&& final(topics)@[i].client_ids == old(topics)@[i].client_ids
                &&& final(topics)@[i].retained_msg.0@ == response.payload_message@
                &&& final(topics)@[i].retained_msg.1 == response.qos_level
            }
            &&& response.retain_flag && i < 0 ==> {
                &&& final(topics)@.len() == old(topics)@.len() + 1
                &&& forall|j: int|
                    0 <= j < old(topics)@.len() ==> final(topics)@[j] == old(topics)@[j]
                &&& final(topics)@.last().topic_name@ == response.topic_name@
                &&& final(topics)@.last().retained_msg.0@ == response.payload_message@
                &&& final(topics)@.last().retained_msg.1 == response.qos_level
                &&& final(topics)@.last().client_ids@ == Seq::<(String, u8)>::empty()
            }
            &&& topics_wf(old(topics)@) ==> topics_wf(final(topics)@)
        }),
{
    if !response.retain_flag {
        return ;
    }

    let ghost orig = topics@;
    match position_topic(topics, &response.topic_name) {
        Some(i) => {
            proof {
                lemma_find_topic_index(orig, response.topic_name@);
            }
            let ghost gi = i as int;
            let mut entry: Topic = topics.remove(i);
            entry.retained_msg = (response.payload_message.clone(), response.qos_level);
            topics.insert(i, entry);
            proof {
                assert(topics@ =~= orig.update(gi, topics@[gi]));
                if topics_wf(orig) {
                    assert forall|t: int|
                        0 <= t < topics@.len() implies client_ids_unique(
                        #[trigger] topics@[t].client_ids@,
                    ) by {
                        if t != gi {
                            assert(topics@[t] == orig[t]);
                        } else {
                            assert(topics@[t].client_ids == orig[t].client_ids);
                        }
                    }
                }
            }
        }
        None => {
            let mut new_topic: Topic = Topic::new(response.topic_name.clone());
            new_topic.retained_msg = (response.payload_message.clone(), response.qos_level);
            topics.push(new_topic);
            proof {
                if topics_wf(orig) {
                    assert forall|t: int|
                        0 <= t < topics@.len() implies client_ids_unique(
                        #[trigger] topics@[t].client_ids@,
                    ) by {
                        if t < orig.len() {
                            assert(topics@[t] == orig[t]);
                        }
                    }
                }
            }
        }
    }
}

/// Answers an inbound quality one PUBLISH: plans the fan-out to the
/// subscribers of the topic and hands back the PUBACK owed to the
/// publisher.
pub fn handle_qos_1_session(topics: &Vec<Topic>, clients: &Vec<Client>, response: &Response) -> (r:
    (Vec<Delivery>, Vec<u8>))
    requires
        response.packet_id <= 65535,
        forall|t: int|
            0 <= t < topics@.len() && (#[trigger] topics@[t]).topic_name@
                == response.topic_name@ ==> {
                &&& encode_utf8(topics@[t].topic_name@).len() <= 0xffff
                &&& encode_utf8(topics@[t].topic_name@).len() + encode_utf8(
                    response.payload_message@,
                ).len() + 4 <= 268435455
            },
    ensures
        fanout_deliveries_ok(
            r.0@,
            fanout_targets(topics@, clients@, response.topic_name@),
            response.topic_name@,
            encode_utf8(response.payload_message@),
            response.qos_level,
            false,
        ),
        r.1@ == seq![
            64u8,
            2u8,
            ((response.packet_id as int) / 256) as u8,
            ((response.packet_id as int) % 256) as u8,
        ],
{
    let deliveries = publish(
        topics,
        clients,
        &response.topic_name,
        &response.payload_message,
        response.qos_level,
        false,
    );
    let puback = ack_packet(64, response.packet_id);
    (deliveries, puback)
}

/// Answers an inbound quality two PUBLISH: a packet identifier already in
/// flight from a publisher marks a duplicate, which gets another PUBREC
/// and no second fan-out; a fresh one gets the fan-out planned, an entry
/// awaiting PUBREL recorded against the publisher's id, and the PUBREC.
/// Law: each key stays on at most one entry.
pub fn handle_qos_2_session(
    queue: &mut Vec<PublishQueueItem>,
    topics: &Vec<Topic>,
    clients: &Vec<Client>,
    publisher_id: &String,
    response: &Response,
) -> (r: (Vec<Delivery>, Vec<u8>))
    requires
        response.packet_id <= 65535,
        forall|t: int|
            0 <= t < topics@.len() && (#[trigger] topics@[t]).topic_name@
                == response.topic_name@ ==> {
                &&& encode_utf8(topics@[t].topic_name@).len() <= 0xffff
                &&& encode_utf8(topics@[t].topic_name@).len() + encode_utf8(
                    response.payload_message@,
                ).len() + 4 <= 268435455
            },
    ensures
        ({
            let idx = find_queue_index(
                old(queue)@,
                response.packet_id as int,
                PublishItemDirection::FromPublisher,
            );
            &&& r.1@ == seq![
                80u8,
                2u8,
                ((response.packet_id as int) / 256) as u8,
                ((response.packet_id as int) % 256) as u8,
            ]
            &&& idx >= 0 ==> r.0@.len() == 0 && final(queue)@ == old(queue)@
            &&& idx < 0 ==> {
                &&& fanout_deliveries_ok(
                    r.0@,
                    fanout_targets(topics@, clients@, response.topic_name@),
                    response.topic_name@,
                    encode_utf8(response.payload_message@),
                    response.qos_level,
                    false,
                )
                &&& final(queue)@.len() == old(queue)@.len() + 1
                &&& forall|j: int|
                    0 <= j < old(queue)@.len() ==> final(queue)@[j] == old(queue)@[j]
                &&& final(queue)@.last().packet_id == response.packet_id
                &&& final(queue)@.last().client_id@ == publisher_id@
                &&& final(queue)@.last().publish_packet@ == Seq::<u8>::empty()
                &&& final(queue)@.last().state == PublishItemState::AwaitingPubrel
                &&& final(queue)@.last().qos_level == 2
                &&& final(queue)@.last().flow_direction == PublishItemDirection::FromPublisher
            }
            &&& queue_keys_unique(old(queue)@) ==> queue_keys_unique(final(queue)@)
        }),
{
    let ghost orig = queue@;
    let pubrec = ack_packet(80, response.packet_id);
    match crate::control_packet::publish::position_queue(
        queue,
        response.packet_id,
        PublishItemDirection::FromPublisher,
    ) {
        Some(_i) => {
            // The packet identifier is already in flight: a duplicate
            (Vec::new(), pubrec)
        }
        None => {
            let deliveries = publish(
                topics,
                clients,
                &response.topic_name,
                &response.payload_message,
                response.qos_level,
                false,
            );
            let item = PublishQueueItem {
                packet_id: response.packet_id,
                client_id: publisher_id.clone(),
                publish_packet: Vec::new(),
                state: PublishItemState::AwaitingPubrel,
                qos_level: 2,
                flow_direction: PublishItemDirection::FromPublisher,
            };
            queue.push(item);
            proof {
                if queue_keys_unique(orig) {
                    lemma_queue_unique_push(orig, queue@.last());
                }
            }
            (deliveries, pubrec)
        }
    }
}

/// Attaches one subscription and plans the retained-message replay: the
/// client joins the topic's subscriber list at the granted quality, and
/// when the topic already existed with a non-empty retained message, that
/// message comes back as a delivery to the client, marked retained, at the
/// granted quality.  Law: every subscriber list free of duplicate client
/// ids stays so.
pub fn subscribe_attach(topics: &mut Vec<Topic>, client: &Client, topic_filter: (String, u8)) -> (d:
    Option<Delivery>)
    requires
        forall|t: int|
            0 <= t < old(topics)@.len() && (#[trigger] old(topics)@[t]).topic_name@
                == topic_filter.0@ ==> {
                &&& encode_utf8(old(topics)@[t].topic_name@).len() <= 0xffff
                &&& encode_utf8(old(topics)@[t].topic_name@).len() + encode_utf8(
                    old(topics)@[t].retained_msg.0@,
                ).len() + 4 <= 268435455
            },
    ensures
        ({
            let i = find_topic_index(old(topics)@, topic_filter.0@);
            &&& i < 0 ==> {
                &&& final(topics)@.len() == old(topics)@.len() + 1
                &&& forall|j: int|
                    0 <= j < old(topics)@.len() ==> final(topics)@[j] == old(topics)@[j]
                &&& final(topics)@.last().topic_name@ == topic_filter.0@
                &&& final(topics)@.last().retained_msg.0@ == Seq::<char>::empty()
                &&& final(topics)@.last().client_ids@.len() == 1
                &&& final(topics)@.last().client_ids@[0].0@ == client.id@
                &&& final(topics)@.last().client_ids@[0].1 == topic_filter.1
                &&& d is None
            }
            &&& i >= 0 ==> {
                &&& final(topics)@.len() == old(topics)@.len()
                &&& forall|j: int|
                    0 <= j < old(topics)@.len() && j != i ==> final(topics)@[j] == old(topics)@[j]
                &&& final(topics)@[i].topic_name == old(topics)@[i].topic_name
                &&& final(topics)@[i].retained_msg == old(topics)@[i].retained_msg
                &&& ({
                    let l = old(topics)@[i].client_ids@;
                    let p = find_pair_index(l, client.id@);
                    let base = if p < 0 {
                        l
                    } else {
                        l.remove(p)
                    };
                    &&& final(topics)@[i].client_ids@.len() == base.len() + 1
                    &&& final(topics)@[i].client_ids@ =~= base.push(
                        final(topics)@[i].client_ids@.last(),
                    )
                    &&& final(topics)@[i].client_ids@.last().0@ == client.id@
                    &&& final(topics)@[i].client_ids@.last().1 == topic_filter.1
                })
                &&& (d is Some <==> old(topics)@[i].retained_msg.0@.len() > 0)
                &&& d is Some ==> {
                    let t = old(topics)@[i];
                    &&& d->0.client_id@ == client.id@
                    &&& d->0.qos == topic_filter.1
                    &&& 1 <= d->0.packet_id <= 65535
                    &&& d->0.packet@ == spec_publish_packet(
                        encode_utf8(t.topic_name@),
                        encode_utf8(t.retained_msg.0@),
                        topic_filter.1,
                        true,
                        false,
                        d->0.packet_id as int,
                    )
                }
            }
            &&& topics_wf(old(topics)@) ==> topics_wf(final(topics)@)
        }),
{
    let ghost orig = topics@;
    let (topic_name, granted) = topic_filter;
    let name_lookup: String = topic_name.clone();

    add_client_to_topic_list(topics, client.id.clone(), (topic_name, granted));

    proof {
        lemma_find_topic_index(orig, name_lookup@);
    }

    match position_topic(topics, &name_lookup) {
        Some(ti) => {
            let ghost i = find_topic_index(orig, name_lookup@);
            proof {
                lemma_find_topic_index(topics@, name_lookup@);
                if i >= 0 {
                    assert(topics@[i].topic_name@ == name_lookup@);
                    assert(ti as int == i);
                } else {
                    assert(topics@.last().topic_name@ == name_lookup@);
                    assert(ti as int == orig.len());
                }
            }
            if !topics[ti].retained_msg.0.as_str().is_empty() {
                assert(i >= 0);
                let d = publish_to_client(
                    client,
                    &topics[ti],
                    &topics[ti].retained_msg.0,
                    granted,
                    true,
                );
                Some(d)
            } else {
                None
            }
        }
        None => {
            proof {
                lemma_find_topic_index(topics@, name_lookup@);
                let i = find_topic_index(orig, name_lookup@);
                if i >= 0 {
                    assert(topics@[i].topic_name@ == name_lookup@);
                } else {
                    assert(topics@.last().topic_name@ == name_lookup@);
                }
                assert(false);
            }
            None
        }
    }
}

/// Strikes a client from every topic's subscriber list.  Law: every
/// subscriber list free of duplicate client ids stays so.
fn detach_client_everywhere(topics: &mut Vec<Topic>, client_id: &String)
    ensures
        final(topics)@.len() == old(topics)@.len(),
        forall|t: int|
            0 <= t < old(topics)@.len() ==> {
                let l = old(topics)@[t].client_ids@;
                let p = find_pair_index(l, client_id@);
                &&& (#[trigger] final(topics)@[t]).topic_name == old(topics)@[t].topic_name
                &&& final(topics)@[t].retained_msg == old(topics)@[t].retained_msg
                &&& final(topics)@[t].client_ids@ == (if p < 0 {
                    l
                } else {
                    l.remove(p)
                })
            },
        topics_wf(old(topics)@) ==> topics_wf(final(topics)@),
{
    let ghost orig = topics@;
    let mut t: usize = 0;
    let n: usize = topics.len();
    while t < n
        invariant
            n == orig.len(),
            topics@.len() == orig.len(),
            t <= n,
            forall|j: int|
                0 <= j < t ==> {
                    let l = orig[j].client_ids@;
                    let p = find_pair_index(l, client_id@);
                    &&& (#[trigger] topics@[j]).topic_name == orig[j].topic_name
                    &&& topics@[j].retained_msg == orig[j].retained_msg
                    &&& topics@[j].client_ids@ == (if p < 0 {
                        l
                    } else {
                        l.remove(p)
                    })
                },
            forall|j: int| t <= j < orig.len() ==> #[trigger] topics@[j] == orig[j],
            topics_wf(orig) ==> topics_wf(topics@),
        decreases n - t,
    {
        let ghost before = topics@;
        let mut entry: Topic = topics.remove(t);
        let ghost l = entry.client_ids@;
        match position_pair(&entry.client_ids, client_id) {
            Some(p) => {
                proof {
                    lemma_find_pair_index(l, client_id@);
                }
                entry.client_ids.remove(p);
            }
            None => {}
        }
        topics.insert(t, entry);
        proof {
            assert(topics@ =~= before.update(t as int, topics@[t as int]));
            lemma_find_pair_index(l, client_id@);
            if topics_wf(orig) {
                if find_pair_index(l, client_id@) >= 0 {
                    lemma_unique_remove(l, find_pair_index(l, client_id@));
                }
                assert forall|x: int|
                    0 <= x < topics@.len() implies client_ids_unique(
                    #[trigger] topics@[x].client_ids@,
                ) by {
                    if x != t {
                        assert(topics@[x] == before[x]);
                    }
                }
            }
        }
        t = t + 1;
    }
}

/// Closes the session attached to a peer address.  Unless the close was
/// orderly, the session's will message fans out to the will topic's
/// subscribers first, at the will quality and retain settings.  A clean
/// session then leaves the registry entirely, its subscriptions detached;
/// any other session stays, marked disconnected, its will message cleared
/// after an orderly close.  Laws: at most one session per client id, and
/// every subscriber list free of duplicate client ids, are both kept.
pub fn disconnect_client_by_socket_addr(
    topics: &mut Vec<Topic>,
    clients: &mut Vec<Client>,
    socket_addr: &String,
    discard_will_msg: bool,
) -> (ds: Vec<Delivery>)
    requires
        ({
            let j = find_client_by_addr(clients@, socket_addr@);
            j >= 0 && !discard_will_msg && clients@[j].connect_flags.will_flag ==> forall|t: int|
                0 <= t < topics@.len() && (#[trigger] topics@[t]).topic_name@
                    == clients@[j].will_topic@ ==> {
                    &&& encode_utf8(topics@[t].topic_name@).len() <= 0xffff
                    &&& encode_utf8(topics@[t].topic_name@).len() + encode_utf8(
                        clients@[j].will_message@,
                    ).len() + 4 <= 268435455
                }
        }),
    ensures
        ({
            let j = find_client_by_addr(old(clients)@, socket_addr@);
            &&& j < 0 ==> {
                &&& final(clients)@ == old(clients)@
                &&& final(topics)@ == old(topics)@
                &&& ds@.len() == 0
            }
            &&& j >= 0 ==> {
                let c = old(clients)@[j];
                let rest = old(clients)@.remove(j);
                let will_published = !discard_will_msg && c.connect_flags.will_flag;
                &&& will_published ==> fanout_deliveries_ok(
                    ds@,
                    fanout_targets(old(topics)@, rest, c.will_topic@),
                    c.will_topic@,
                    encode_utf8(c.will_message@),
                    c.connect_flags.will_qos_flag,
                    c.connect_flags.will_retain_flag,
                )
                &&& !will_published ==> ds@.len() == 0
                &&& c.connect_flags.clean_session_flag ==> {
                    &&& final(clients)@ == rest
                    &&& final(topics)@.len() == old(topics)@.len()
                    &&& forall|t: int|
                        0 <= t < old(topics)@.len() ==> {
                            let l = old(topics)@[t].client_ids@;
                            let p = find_pair_index(l, c.id@);
                            &&& (#[trigger] final(topics)@[t]).topic_name == old(
                                topics,
                            )@[t].topic_name
                            &&& final(topics)@[t].retained_msg == old(topics)@[t].retained_msg
                            &&& final(topics)@[t].client_ids@ == (if p < 0 {
                                l
                            } else {
                                l.remove(p)
                            })
                        }
                }
                &&& !c.connect_flags.clean_session_flag ==> {
                    let kept = final(clients)@.last();
                    &&& final(topics)@ == old(topics)@
                    &&& final(clients)@.len() == rest.len() + 1
                    &&& forall|k: int| 0 <= k < rest.len() ==> final(clients)@[k] == rest[k]
                    &&& kept.id == c.id
                    &&& kept.is_connected == false
                    &&& kept.will_topic == c.will_topic
                    &&& kept.will_message@ == (if discard_will_msg {
                        Seq::<char>::empty()
                    } else {
                        c.will_message@
                    })
                    &&& kept.subscriptions == c.subscriptions
                    &&& kept.keep_alive == c.keep_alive
                    &&& kept.username == c.username
                    &&& kept.password == c.password
                    &&& kept.socket_addr == c.socket_addr
                    &&& kept.connect_flags == c.connect_flags
                }
            }
            &&& session_ids_unique(old(clients)@) ==> session_ids_unique(final(clients)@)
            &&& topics_wf(old(topics)@) ==> topics_wf(final(topics)@)
        }),
{
    let ghost orig_clients = clients@;
    let ghost orig_topics = topics@;
    proof {
        lemma_find_client_by_addr(orig_clients, socket_addr@);
    }
    match position_client_by_addr(clients, socket_addr) {
        None => Vec::new(),
        Some(j) => {
            let ghost gj = j as int;
            let mut client: Client = clients.remove(j);

            // Publish the will message to the will topic's subscribers,
            // unless the close was orderly
            let will_deliveries: Vec<Delivery> = if !discard_will_msg
                && client.connect_flags.will_flag {
                publish(
                    topics,
                    clients,
                    &client.will_topic,
                    &client.will_message,
                    client.connect_flags.will_qos_flag,
                    client.connect_flags.will_retain_flag,
                )
            } else {
                Vec::new()
            };

            if client.connect_flags.clean_session_flag {
                // A clean session leaves nothing behind
                detach_client_everywhere(topics, &client.id);
                proof {
                    if session_ids_unique(orig_clients) {
                        assert forall|x: int, y: int|
                            0 <= x < y < clients@.len() implies clients@[x].id@
                            != clients@[y].id@ by {
                            let ox = if x < gj {
                                x
                            } else {
                                x + 1
                            };
                            let oy = if y < gj {
                                y
                            } else {
                                y + 1
                            };
                            assert(clients@[x] == orig_clients[ox] && clients@[y]
                                == orig_clients[oy]);
                        }
                    }
                }
            } else {
                // The session stays, dormant
                client.handle_disconnect();
                if discard_will_msg {
                    client.will_message = String::new();
                }
                clients.push(client);
                proof {
                    let rest = orig_clients.remove(gj);
                    if session_ids_unique(orig_clients) {
                        assert forall|x: int, y: int|
                            0 <= x < y < clients@.len() implies clients@[x].id@
                            != clients@[y].id@ by {
                            let ox = if x < gj {
                                x
                            } else {
                                x + 1
                            };
                            assert(clients@[x] == orig_clients[ox]);
                            if y < rest.len() {
                                let oy = if y < gj {
                                    y
                                } else {
                                    y + 1
                                };
                                assert(clients@[y] == orig_clients[oy]);
                            } else {
                                assert(clients@[y].id@ == orig_clients[gj].id@);
                            }
                        }
                    }
                }
            }

            will_deliveries
        }
    }
}

/// The index of the first session attached to the given peer address,
/// searched front to back.
fn position_client_by_addr(clients: &Vec<Client>, addr: &String) -> (r: Option<usize>)
    ensures
        ({
            let i = find_client_by_addr(clients@, addr@);
            match r {
                Some(k) => k == i,
                None => i < 0,
            }
        }),
{
    proof {
        lemma_find_client_by_addr(clients@, addr@);
    }
    let mut k: usize = 0;
    while k < clients.len()
        invariant
            k <= clients@.len(),
            forall|j: int| 0 <= j < k ==> clients@[j].socket_addr@ != addr@,
        decreases clients@.len() - k,
    {
        if clients[k].socket_addr == *addr {
            proof {
                lemma_find_client_by_addr(clients@, addr@);
            }
            return Some(k);
        }
        k = k + 1;
    }
    None
}

} // verus!
