use vstd::prelude::*;

verus! {

/// What a SUBSCRIBE or UNSUBSCRIBE packet asked for: the packet identifier,
/// the topic-name and quality pairs, and the acknowledgement packet to send
/// back.
pub struct SubInfo {
    pub packet_id: u16,
    pub topic_qos_pair: Vec<(String, u8)>,
    pub return_packet: Vec<u8>,
}

impl SubInfo {
    /// The packet identifier as its big-endian byte pair.
    pub fn get_packet_id_bytes(&self) -> (r: [u8; 2])
        ensures
            r[0] == self.packet_id as int / 256,
            r[1] == self.packet_id as int % 256,
            (r[0] as int) * 256 + (r[1] as int) == self.packet_id,
    {
        [(self.packet_id / 256) as u8, (self.packet_id % 256) as u8]
    }
}

} // verus!
