use vstd::prelude::*;

use vstd::utf8::{decode_utf8, valid_utf8};

use crate::common_fn;
use crate::common_fn::bit_operations::{remaining_length_ok, remaining_length_value};
use crate::models::sub_info::SubInfo;

verus! {

/// The topic-name and granted-quality pairs as abstract values.
pub open spec fn pairs_view(l: Seq<(String, u8)>) -> Seq<(Seq<char>, u8)> {
    l.map_values(|p: (String, u8)| (p.0@, p.1))
}

/// The topic filters of a SUBSCRIBE body, read from `ci` while the cursor
/// has not passed the remaining length: each filter is a length-prefixed
/// topic name followed by a quality byte, whose low two bits are granted
/// as asked when below three and refused with the failure code otherwise.
/// `None` when the buffer ends before a filter does.
pub open spec fn spec_sub_filters(b: Seq<u8>, ci: int, rl: int) -> Option<Seq<(Seq<char>, u8)>>
    decreases rl - ci,
{
    if ci > rl {
        Some(Seq::empty())
    } else if !(ci + 2 <= b.len() && ci + 2 + b[ci] * 256 + b[ci + 1] <= b.len()) {
        None
    } else if !valid_utf8(b.subrange(ci + 2, ci + 2 + b[ci] * 256 + b[ci + 1])) {
        None
    } else {
        let l = b[ci] * 256 + b[ci + 1];
        let name = decode_utf8(b.subrange(ci + 2, ci + 2 + l));
        let qi = ci + 2 + l;
        if !(qi < b.len()) {
            None
        } else {
            let low = b[qi] & 0x03;
            let granted: u8 = if low >= 3 {
                0x80
            } else {
                low
            };
            let rest = if qi + 1 > rl {
                Some(Seq::<(Seq<char>, u8)>::empty())
            } else {
                spec_sub_filters(b, qi + 1, rl)
            };
            match rest {
                Some(rest) => Some(seq![(name, granted)] + rest),
                None => None,
            }
        }
    }
}

/// Parses a SUBSCRIBE packet: after the remaining length come the packet
/// identifier and one or more topic filters, each granted its requested
/// quality when it is at most two and the failure code otherwise.  Returns
/// the identifier, the pairs, and the SUBACK packet that answers them.
pub fn handle(buffer: &[u8], packet_length: usize) -> (r: Result<SubInfo, &'static str>)
    requires
        buffer@.len() >= 1,
    ensures
        ({
            let rl = remaining_length_value(buffer@);
            let ci0 = packet_length - rl;
            match r {
                Ok(info) => {
                    let pairs = spec_sub_filters(buffer@, ci0 + 2, rl)->0;
                    &&& remaining_length_ok(buffer@)
                    &&& packet_length >= 6
                    &&& rl <= packet_length
                    &&& (buffer@[0] & 0x0f) == 2
                    &&& ci0 + 2 <= buffer@.len()
                    &&& spec_sub_filters(buffer@, ci0 + 2, rl) is Some
                    &&& pairs.len() <= 253
                    &&& info.packet_id == buffer@[ci0] * 256 + buffer@[ci0 + 1]
                    &&& pairs_view(info.topic_qos_pair@) == pairs
                    &&& info.return_packet@ == seq![
                        144u8,
                        (2 + pairs.len()) as u8,
                        (info.packet_id / 256) as u8,
                        (info.packet_id % 256) as u8,
                    ] + pairs.map_values(|p: (Seq<char>, u8)| p.1)
                },
                Err(m) => {
                    if !remaining_length_ok(buffer@) {
                        &&& buffer@.len() - 1 <= 4 ==> m@ == "Unexpected end of packet"@
                        &&& buffer@.len() - 1 > 4 ==> m@ == "Malformed Remaining Length"@
                    } else if packet_length < 6 {
                        m@ == "Subscribe Packet does not have the required lenght"@
                    } else if rl > packet_length {
                        m@ == "Packet lenght is lower than remaining lenght"@
                    } else if (buffer@[0] & 0x0f) != 2 {
                        m@ == "The first byte have bit 1 is on"@
                    } else if ci0 + 2 > buffer@.len() {
                        m@ == "Buffer is too small to read MSB and LSB"@
                    } else {
                        spec_sub_filters(buffer@, ci0 + 2, rl) is None || spec_sub_filters(
                            buffer@,
                            ci0 + 2,
                            rl,
                        )->0.len() > 253
                    }
                },
            }
        }),
{
    let ghost b = buffer@;
    let remaining_length: usize;

    match common_fn::bit_operations::decode_remaining_length(buffer) {
        Ok(value) => {
            remaining_length = value;
        }
        Err(err) => {
            return Err(err);
        }
    }
    assert(remaining_length_ok(b) && remaining_length == remaining_length_value(b));

    if packet_length < 6 {
        return Err("Subscribe Packet does not have the required lenght");
    }

    if remaining_length > packet_length {
        return Err("Packet lenght is lower than remaining lenght");
    }

    let mut current_index: usize = packet_length - remaining_length;
    let ghost ci0 = current_index as int;

    // The low four bits of the fixed header must be the reserved 0010
    let halves = common_fn::bit_operations::split_byte(&buffer[0], 4);
    assert((0xffu8 >> 4u8) == 0x0fu8) by (bit_vector);
    match halves {
        Ok(value) => {
            if value[1] != 2 {
                return Err("The first byte have bit 1 is on");
            }
        }
        Err(_) => {},
    }

    let mut packet_id: u16 = 0;

    // Get Packet ID
    match common_fn::msb_lsb_reader::get_values(buffer, current_index, false) {
        Ok(response) => {
            packet_id = response.0 as u16;
            current_index = response.2;
        }
        Err(err) => {
            return Err(err);
        }
    }

    // Holds the topic filters and the associated QoS
    let mut topic_qos_pair: Vec<(String, u8)> = Vec::new();

    // Only to hold the qos so it can be used for the suback packet
    let mut qos_vec: Vec<u8> = Vec::new();

    while current_index <= remaining_length
        invariant
            b == buffer@,
            b.len() >= 1,
            remaining_length_ok(b),
            remaining_length == remaining_length_value(b),
            remaining_length <= packet_length,
            packet_length >= 6,
            ci0 == packet_length - remaining_length,
            (b[0] & 0x0f) == 2,
            ci0 + 2 <= buffer@.len(),
            ci0 + 2 <= current_index,
            spec_sub_filters(b, ci0 + 2, remaining_length as int) == (
            match spec_sub_filters(b, current_index as int, remaining_length as int) {
                Some(rest) => Some(pairs_view(topic_qos_pair@) + rest),
                None => None::<Seq<(Seq<char>, u8)>>,
            }),
            qos_vec@ == pairs_view(topic_qos_pair@).map_values(|p: (Seq<char>, u8)| p.1),
        decreases
                (if current_index <= remaining_length {
                    remaining_length + 1 - current_index
                } else {
                    0
                }),
    {
        let ghost ci = current_index as int;
        let ghost rlg = remaining_length as int;
        match common_fn::msb_lsb_reader::get_values(buffer, current_index, true) {
            Ok(response) => {
                let stop: usize = response.2;
                if stop >= buffer.len() {
                    assert(spec_sub_filters(b, ci, rlg) is None);
                    return Err("Subscribe Packet does not have the required lenght");
                }
                let halves2 = common_fn::bit_operations::split_byte(&buffer[stop], 6);
                assert((0xffu8 >> 6u8) == 0x03u8) by (bit_vector);
                let mut granted: u8 = 0;
                match halves2 {
                    Ok(splited_byte) => {
                        if splited_byte[1] >= 3 {
                            granted = 0x80;
                        } else {
                            granted = splited_byte[1];
                        }
                    }
                    Err(_) => {},
                }
                let ghost pair = (response.1@, granted);
                topic_qos_pair.push((response.1, granted));
                qos_vec.push(granted);
                proof {
                    let rest0 = if stop + 1 > rlg {
                        Some(Seq::<(Seq<char>, u8)>::empty())
                    } else {
                        spec_sub_filters(b, stop + 1, rlg)
                    };
                    assert(spec_sub_filters(b, ci, rlg) == (
                    match rest0 {
                        Some(rest) => Some(seq![pair] + rest),
                        None => None::<Seq<(Seq<char>, u8)>>,
                    }));
                    assert(topic_qos_pair@.drop_last().push(topic_qos_pair@.last())
                        =~= topic_qos_pair@);
                    assert(pairs_view(topic_qos_pair@) =~= pairs_view(
                        topic_qos_pair@.drop_last(),
                    ).push(pair));
                    match rest0 {
                        Some(rest) => {
                            assert(pairs_view(topic_qos_pair@.drop_last()) + (seq![pair] + rest)
                                =~= pairs_view(topic_qos_pair@) + rest);
                            if stop + 1 > rlg {
                                assert(spec_sub_filters(b, stop + 1, rlg) == Some(
                                    Seq::<(Seq<char>, u8)>::empty(),
                                ));
                            }
                        }
                        None => {}
                    }
                    assert(qos_vec@ =~= pairs_view(topic_qos_pair@).map_values(
                        |p: (Seq<char>, u8)| p.1,
                    ));
                }
                current_index = stop + 1;
            }
            Err(err) => {
                assert(spec_sub_filters(b, ci, rlg) is None);
                return Err(err);
            }
        }
    }

    assert(spec_sub_filters(b, current_index as int, remaining_length as int)
        == Some(Seq::<(Seq<char>, u8)>::empty()));
    assert(pairs_view(topic_qos_pair@) + Seq::<(Seq<char>, u8)>::empty() =~= pairs_view(
        topic_qos_pair@,
    ));

    if qos_vec.len() > 253 {
        return Err("Subscribe Packet does not have the required lenght");
    }

    let pid_bytes: [u8; 2] = [(packet_id / 256) as u8, (packet_id % 256) as u8];

    // Makes the suback packet
    let suback_packet: Vec<u8> = match assemble_suback_packet(qos_vec.as_slice(), pid_bytes) {
        Ok(p) => p,
        Err(err) => {
            return Err(err);
        }
    };

    proof {
        assert(pairs_view(topic_qos_pair@).map_values(|p: (Seq<char>, u8)| p.1) == qos_vec@);
    }

    Ok(SubInfo { packet_id, topic_qos_pair, return_packet: suback_packet })
}

/// Assembles the SUBACK packet: the SUBACK type byte, the remaining length,
/// the packet identifier, and one granted-quality byte per filter.
pub fn assemble_suback_packet(qos_arr: &[u8], packet_id: [u8; 2]) -> (r: Result<
    Vec<u8>,
    &'static str,
>)
    requires
        qos_arr@.len() <= 253,
    ensures
        r is Ok,
        r->Ok_0@ == seq![144u8, (2 + qos_arr@.len()) as u8, packet_id[0], packet_id[1]]
            + qos_arr@,
{
    // The length of the SUBACK packet
    let packet_lenght: u8 = 2 + (qos_arr.len() as u8);

    let mut packet: Vec<u8> = Vec::new();

    // SUBACK control type
    packet.push(144);

    // Remaining length
    packet.push(packet_lenght);

    // Packet ID
    packet.push(packet_id[0]);
    packet.push(packet_id[1]);

    // Puts all the QoS levels in the packet
    let mut i: usize = 0;
    while i < qos_arr.len()
        invariant
            i <= qos_arr@.len() <= 253,
            packet@ == seq![144u8, (2 + qos_arr@.len()) as u8, packet_id[0], packet_id[1]]
                + qos_arr@.take(i as int),
        decreases qos_arr@.len() - i,
    {
        packet.push(qos_arr[i]);
        proof {
            assert(qos_arr@.take(i + 1) =~= qos_arr@.take(i as int).push(qos_arr@[i as int]));
            assert(packet@ =~= seq![144u8, (2 + qos_arr@.len()) as u8, packet_id[0], packet_id[1]]
                + qos_arr@.take(i + 1));
        }
        i = i + 1;
    }

    proof {
        assert(qos_arr@.take(qos_arr@.len() as int) =~= qos_arr@);
    }

    Ok(packet)
}

} // verus!
