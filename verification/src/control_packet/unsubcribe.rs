use vstd::prelude::*;

use vstd::utf8::{decode_utf8, valid_utf8};

use crate::common_fn;
use crate::common_fn::bit_operations::{remaining_length_ok, remaining_length_value};
use crate::control_packet::subcribe::pairs_view;
use crate::models::sub_info::SubInfo;

verus! {

/// The topic names of an UNSUBSCRIBE body, read from `ci` while the cursor
/// has not passed the remaining length: each is a length-prefixed topic
/// name.  `None` when the buffer ends before a name does.
pub open spec fn spec_unsub_topics(b: Seq<u8>, ci: int, rl: int) -> Option<Seq<Seq<char>>>
    decreases rl - ci,
{
    if ci > rl {
        Some(Seq::empty())
    } else if !(ci + 2 <= b.len() && ci + 2 + b[ci] * 256 + b[ci + 1] <= b.len()) {
        None
    } else if !valid_utf8(b.subrange(ci + 2, ci + 2 + b[ci] * 256 + b[ci + 1])) {
        None
    } else {
        let l = b[ci] * 256 + b[ci + 1];
        let name = decode_utf8(b.subrange(ci + 2, ci + 2 + l));
        let next = ci + 2 + l;
        let rest = if next > rl {
            Some(Seq::<Seq<char>>::empty())
        } else {
            spec_unsub_topics(b, next, rl)
        };
        match rest {
            Some(rest) => Some(seq![name] + rest),
            None => None,
        }
    }
}

/// Parses an UNSUBSCRIBE packet: after the remaining length come the packet
/// identifier and one or more length-prefixed topic names.  Returns the
/// identifier, the names paired with a zero quality, and the UNSUBACK
/// packet that answers them.
pub fn handle(buffer: &[u8], packet_length: usize) -> (r: Result<SubInfo, &'static str>)
    requires
        buffer@.len() >= 1,
    ensures
        ({
            let rl = remaining_length_value(buffer@);
            let ci0 = packet_length - rl;
            match r {
                Ok(info) => {
                    let names = spec_unsub_topics(buffer@, ci0 + 2, rl)->0;
                    &&& remaining_length_ok(buffer@)
                    &&& packet_length >= 6
                    &&& rl <= packet_length
                    &&& (buffer@[0] & 0x0f) == 2
                    &&& ci0 + 2 <= buffer@.len()
                    &&& spec_unsub_topics(buffer@, ci0 + 2, rl) is Some
                    &&& info.packet_id == buffer@[ci0] * 256 + buffer@[ci0 + 1]
                    &&& pairs_view(info.topic_qos_pair@) == names.map_values(
                        |n: Seq<char>| (n, 0u8),
                    )
                    &&& info.return_packet@ == seq![
                        176u8,
                        2u8,
                        (info.packet_id / 256) as u8,
                        (info.packet_id % 256) as u8,
                    ]
                },
                Err(m) => {
                    if !remaining_length_ok(buffer@) {
                        &&& buffer@.len() - 1 <= 4 ==> m@ == "Unexpected end of packet"@
                        &&& buffer@.len() - 1 > 4 ==> m@ == "Malformed Remaining Length"@
                    } else if packet_length < 6 {
                        m@ == "Subscribe Packet does not have the required lenght"@
                    } else if rl > packet_length {
                        m@ == "Packet lenght is lower than remaining lenght"@
                    } else if (buffer@[0] & 0x0f) != 2 {
                        m@ == "The first byte have bit 1 is on"@
                    } else if ci0 + 2 > buffer@.len() {
                        m@ == "Buffer is too small to read MSB and LSB"@
                    } else {
                        spec_unsub_topics(buffer@, ci0 + 2, rl) is None
                    }
                },
            }
        }),
{
    let ghost b = buffer@;
    let remaining_length: usize;

    match common_fn::bit_operations::decode_remaining_length(buffer) {
        Ok(value) => {
            remaining_length = value;
        }
        Err(err) => {
            return Err(err);
        }
    }
    assert(remaining_length_ok(b) && remaining_length == remaining_length_value(b));

    if packet_length < 6 {
        return Err("Subscribe Packet does not have the required lenght");
    }

    if packet_length < remaining_length {
        return Err("Packet lenght is lower than remaining lenght");
    }

    let mut current_index: usize = packet_length - remaining_length;
    let ghost ci0 = current_index as int;

    // The low four bits of the fixed header must be the reserved 0010
    let halves = common_fn::bit_operations::split_byte(&buffer[0], 4);
    assert((0xffu8 >> 4u8) == 0x0fu8) by (bit_vector);
    match halves {
        Ok(value) => {
            if value[1] != 2 {
                return Err("The first byte have bit 1 is on");
            }
        }
        Err(_) => {},
    }

    let mut packet_id: u16 = 0;

    // Get Packet ID
    match common_fn::msb_lsb_reader::get_values(buffer, current_index, false) {
        Ok(response) => {
            packet_id = response.0 as u16;
            current_index = response.2;
        }
        Err(err) => {
            return Err(err);
        }
    }

    // Holds the topics to unsubscribe from
    let mut topics: Vec<(String, u8)> = Vec::new();

    while current_index <= remaining_length
        invariant
            b == buffer@,
            b.len() >= 1,
            remaining_length_ok(b),
            remaining_length == remaining_length_value(b),
            remaining_length <= packet_length,
            packet_length >= 6,
            ci0 == packet_length - remaining_length,
            (b[0] & 0x0f) == 2,
            ci0 + 2 <= buffer@.len(),
            ci0 + 2 <= current_index,
            spec_unsub_topics(b, ci0 + 2, remaining_length as int) == (
            match spec_unsub_topics(b, current_index as int, remaining_length as int) {
                Some(rest) => Some(
                    pairs_view(topics@).map_values(|p: (Seq<char>, u8)| p.0) + rest,
                ),
                None => None::<Seq<Seq<char>>>,
            }),
            forall|j: int| 0 <= j < topics@.len() ==> topics@[j].1 == 0u8,
        decreases
                (if current_index <= remaining_length {
                    remaining_length + 1 - current_index
                } else {
                    0
                }),
    {
        let ghost ci = current_index as int;
        let ghost rlg = remaining_length as int;
        match common_fn::msb_lsb_reader::get_values(buffer, current_index, true) {
            Ok(response) => {
                let stop: usize = response.2;
                let ghost name = response.1@;
                topics.push((response.1, 0));
                proof {
                    let rest0 = if stop > rlg {
                        Some(Seq::<Seq<char>>::empty())
                    } else {
                        spec_unsub_topics(b, stop as int, rlg)
                    };
                    assert(spec_unsub_topics(b, ci, rlg) == (
                    match rest0 {
                        Some(rest) => Some(seq![name] + rest),
                        None => None::<Seq<Seq<char>>>,
                    }));
                    let acc_old = pairs_view(topics@.drop_last()).map_values(
                        |p: (Seq<char>, u8)| p.0,
                    );
                    let acc_new = pairs_view(topics@).map_values(|p: (Seq<char>, u8)| p.0);
                    assert(acc_new =~= acc_old.push(name));
                    match rest0 {
                        Some(rest) => {
                            assert(acc_old + (seq![name] + rest) =~= acc_new + rest);
                            if stop > rlg {
                                assert(spec_unsub_topics(b, stop as int, rlg) == Some(
                                    Seq::<Seq<char>>::empty(),
                                ));
                            }
                        }
                        None => {}
                    }
                }
                current_index = stop;
            }
            Err(err) => {
                assert(spec_unsub_topics(b, ci, rlg) is None);
                return Err(err);
            }
        }
    }

    proof {
        assert(spec_unsub_topics(b, current_index as int, remaining_length as int) == Some(
            Seq::<Seq<char>>::empty(),
        ));
        let acc = pairs_view(topics@).map_values(|p: (Seq<char>, u8)| p.0);
        assert(acc + Seq::<Seq<char>>::empty() =~= acc);
        assert(pairs_view(topics@) =~= acc.map_values(|n: Seq<char>| (n, 0u8)));
    }

    // Assembles the unsuback packet
    let mut unsuback_packet: Vec<u8> = Vec::new();
    unsuback_packet.push(176);
    unsuback_packet.push(2);
    unsuback_packet.push((packet_id / 256) as u8);
    unsuback_packet.push((packet_id % 256) as u8);

    proof {
        assert(unsuback_packet@ =~= seq![
            176u8,
            2u8,
            (packet_id / 256) as u8,
            (packet_id % 256) as u8,
        ]);
    }

    Ok(SubInfo { packet_id, topic_qos_pair: topics, return_packet: unsuback_packet })
}

} // verus!
