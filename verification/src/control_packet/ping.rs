use vstd::prelude::*;

use crate::common_fn;
use crate::common_fn::bit_operations::{remaining_length_ok, remaining_length_value};

verus! {

/// Validates a PINGREQ packet and hands back the PINGRESP bytes.  The low
/// four bits of the fixed header must be clear, the remaining-length field
/// must be well formed, and the packet must carry no payload: a remaining
/// length of zero and at most two bytes in all.
pub fn handle(buffer: [u8; 8192], packet_length: usize) -> (r: Result<[u8; 2], &'static str>)
    ensures
        ({
            let reserved = buffer@[0] & 0x0f;
            let rl = remaining_length_value(buffer@);
            match r {
                Ok(p) => {
                    &&& reserved == 0
                    &&& remaining_length_ok(buffer@)
                    &&& rl == 0
                    &&& packet_length <= 2
                    &&& p@ == seq![208u8, 0u8]
                },
                Err(m) => {
                    &&& reserved != 0 ==> m@ == "Reserved bits MUST not be set"@
                    &&& reserved == 0 && !remaining_length_ok(buffer@) ==> m@
                        == "Malformed Remaining Length"@
                    &&& reserved == 0 && remaining_length_ok(buffer@) ==> {
                        &&& (rl != 0 || packet_length > 2)
                        &&& m@ == "No payload expected here"@
                    }
                },
            }
        }),
{
    // The low four bits of the fixed header are reserved
    let halves = common_fn::bit_operations::split_byte(&buffer[0], 4);
    let reserved_bits: u8 = match halves {
        Ok(v) => v[1],
        Err(_) => 0,
    };
    assert((0xffu8 >> 4u8) == 0x0fu8) by (bit_vector);
    assert(reserved_bits == buffer@[0] & 0x0f);

    if reserved_bits != 0 {
        return Err("Reserved bits MUST not be set");
    }

    let remaining_length: usize;

    match common_fn::bit_operations::decode_remaining_length(buffer.as_slice()) {
        Ok(value) => {
            remaining_length = value;
        }
        Err(err) => {
            return Err(err);
        }
    }

    if remaining_length != 0 || packet_length > 2 {
        return Err("No payload expected here");
    }

    let response: [u8; 2] = [208, 0];
    assert(response@ =~= seq![208u8, 0u8]);
    Ok(response)
}

} // verus!
