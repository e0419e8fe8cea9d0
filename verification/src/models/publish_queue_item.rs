use vstd::prelude::*;

verus! {

/// Where a quality-of-service exchange stands: which acknowledgement the
/// broker is waiting for, or has just received.
#[derive(Debug, Clone, Copy, PartialEq, Eq, Structural)]
pub enum PublishItemState {
    AwaitingPuback,
    PubackRecieved,
    AwaitingPubrec,
    PubrecRecieved,
    AwaitingPubrel,
    PubrelRecieved,
    AwaitingPubcomp,
    PubcompRecieved,
}

/// Which side of the broker an in-flight transfer belongs to: a delivery
/// towards a subscriber, or a receipt from a publisher.
#[derive(Debug, Clone, Copy, PartialEq, Eq, Structural)]
pub enum PublishItemDirection {
    ToSubscriber,
    FromPublisher,
}

/// An in-flight quality-of-service 1 or 2 transfer, keyed by packet
/// identifier and direction, holding the serialized packet for
/// retransmission and the id of the client that retransmissions address:
/// the subscriber of an outbound delivery, the publisher of an inbound
/// receipt.
#[derive(Debug)]
pub struct PublishQueueItem {
    pub packet_id: usize,
    pub client_id: String,
    pub publish_packet: Vec<u8>,
    pub state: PublishItemState,
    pub qos_level: u8,
    pub flow_direction: PublishItemDirection,
}

/// Each packet-identifier and direction pair keys at most one entry.
pub open spec fn queue_keys_unique(q: Seq<PublishQueueItem>) -> bool {
    forall|i: int, j: int|
        0 <= i < j < q.len() ==> !(q[i].packet_id == q[j].packet_id && q[i].flow_direction
            == q[j].flow_direction)
}

/// The first entry with the given key, or -1 when there is none.
pub open spec fn find_queue_index(
    q: Seq<PublishQueueItem>,
    packet_id: int,
    direction: PublishItemDirection,
) -> int
    decreases q.len(),
{
    if q.len() == 0 {
        -1
    } else if q[0].packet_id == packet_id && q[0].flow_direction == direction {
        0
    } else {
        let r = find_queue_index(q.drop_first(), packet_id, direction);
        if r < 0 {
            -1
        } else {
            r + 1
        }
    }
}

/// What the first-match search promises: a hit names an entry with the key
/// and nothing before it has the key; a miss means no entry has it.
pub proof fn lemma_find_queue_index(
    q: Seq<PublishQueueItem>,
    packet_id: int,
    direction: PublishItemDirection,
)
    ensures
        ({
            let r = find_queue_index(q, packet_id, direction);
            &&& r >= 0 ==> {
                &&& r < q.len()
                &&& q[r].packet_id == packet_id
                &&& q[r].flow_direction == direction
                &&& forall|j: int|
                    0 <= j < r ==> !(q[j].packet_id == packet_id && q[j].flow_direction
                        == direction)
            }
            &&& r < 0 ==> forall|j: int|
                0 <= j < q.len() ==> !(q[j].packet_id == packet_id && q[j].flow_direction
                    == direction)
        }),
    decreases q.len(),
{
    if q.len() > 0 && !(q[0].packet_id == packet_id && q[0].flow_direction == direction) {
        let tail = q.drop_first();
        lemma_find_queue_index(tail, packet_id, direction);
        assert(forall|j: int| 0 <= j < tail.len() ==> #[trigger] tail[j] == q[j + 1]);
        let rd = find_queue_index(tail, packet_id, direction);
        if rd >= 0 {
            assert forall|j: int|
                0 <= j < rd + 1 implies !(q[j].packet_id == packet_id && q[j].flow_direction
                == direction) by {
                if j >= 1 {
                    assert(!(tail[j - 1].packet_id == packet_id && tail[j - 1].flow_direction
                        == direction));
                }
            }
        } else {
            assert forall|j: int|
                0 <= j < q.len() implies !(q[j].packet_id == packet_id && q[j].flow_direction
                == direction) by {
                if j >= 1 {
                    assert(!(tail[j - 1].packet_id == packet_id && tail[j - 1].flow_direction
                        == direction));
                }
            }
        }
    }
}

/// Removing an entry keeps the queue's keys free of duplicates.
pub proof fn lemma_queue_unique_remove(q: Seq<PublishQueueItem>, p: int)
    requires
        queue_keys_unique(q),
        0 <= p < q.len(),
    ensures
        queue_keys_unique(q.remove(p)),
{
    let q2 = q.remove(p);
    assert forall|i: int, j: int|
        0 <= i < j < q2.len() implies !(q2[i].packet_id == q2[j].packet_id
        && q2[i].flow_direction == q2[j].flow_direction) by {
        let oi = if i < p {
            i
        } else {
            i + 1
        };
        let oj = if j < p {
            j
        } else {
            j + 1
        };
        assert(q2[i] == q[oi] && q2[j] == q[oj]);
    }
}

/// Replacing an entry with one of the same key keeps the queue's keys free
/// of duplicates.
pub proof fn lemma_queue_unique_update(q: Seq<PublishQueueItem>, p: int, item: PublishQueueItem)
    requires
        queue_keys_unique(q),
        0 <= p < q.len(),
        item.packet_id == q[p].packet_id,
        item.flow_direction == q[p].flow_direction,
    ensures
        queue_keys_unique(q.update(p, item)),
{
    let q2 = q.update(p, item);
    assert forall|i: int, j: int|
        0 <= i < j < q2.len() implies !(q2[i].packet_id == q2[j].packet_id
        && q2[i].flow_direction == q2[j].flow_direction) by {
        assert(q[i].packet_id == q2[i].packet_id || i == p);
        assert(q[j].packet_id == q2[j].packet_id || j == p);
    }
}

/// Appending an entry under a key the queue does not hold keeps its keys
/// free of duplicates.
pub proof fn lemma_queue_unique_push(q: Seq<PublishQueueItem>, item: PublishQueueItem)
    requires
        queue_keys_unique(q),
        find_queue_index(q, item.packet_id as int, item.flow_direction) < 0,
    ensures
        queue_keys_unique(q.push(item)),
{
    lemma_find_queue_index(q, item.packet_id as int, item.flow_direction);
    let q2 = q.push(item);
    assert forall|i: int, j: int|
        0 <= i < j < q2.len() implies !(q2[i].packet_id == q2[j].packet_id
        && q2[i].flow_direction == q2[j].flow_direction) by {
        if j < q.len() {
            assert(q2[i] == q[i] && q2[j] == q[j]);
        } else {
            assert(q2[i] == q[i] && q2[j] == item);
        }
    }
}

} // verus!
