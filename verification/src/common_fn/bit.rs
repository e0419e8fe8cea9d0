use vstd::prelude::*;

use crate::common_fn::bit_operations;
use crate::common_fn::bit_operations::{varint_len, varint_payload_value};

verus! {

/// Decodes the remaining-length field of a control packet, skipping the
/// fixed-header byte at position zero.
pub fn decode_remaining_length(bytes: &[u8]) -> (r: Result<usize, &'static str>)
    requires
        bytes@.len() >= 1,
    ensures
        ({
            let d = bytes@.subrange(1, bytes@.len() as int);
            match r {
                Ok(v) => {
                    &&& varint_len(d) is Some
                    &&& varint_len(d)->0 <= 4
                    &&& v == varint_payload_value(d.take(varint_len(d)->0))
                    &&& v <= 268435455
                },
                Err(m) => {
                    &&& (varint_len(d) is None || varint_len(d)->0 > 4)
                    &&& d.len() <= 4 ==> m@ == "Unexpected end of packet"@
                    &&& d.len() > 4 ==> m@ == "Malformed Remaining Length"@
                },
            }
        }),
{
    bit_operations::decode_remaining_length(bytes)
}

} // verus!
