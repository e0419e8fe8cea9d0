use vstd::prelude::*;

verus! {

/// Validates a DISCONNECT packet: the byte after the fixed header must be
/// zero, reserved bits and remaining length alike.  Either way the caller
/// closes the connection and discards the will message; the error only
/// carries the reserved-bits diagnostic.
pub fn handle(buffer: &[u8], packet_length: usize) -> (r: Result<&'static str, &'static str>)
    requires
        buffer@.len() >= 2,
    ensures
        buffer@[1] == 0 ==> r is Ok && r->Ok_0@ == "Reserved bits not set"@,
        buffer@[1] != 0 ==> r is Err && r->Err_0@ == "Reserved bits are set"@,
{
    let _ = packet_length;

    // Reserved bits MUST be 0
    let mut is_reserved_bits_set: bool = false;

    if buffer[1] != 0 {
        is_reserved_bits_set = true;
    }

    match is_reserved_bits_set {
        true => Err("Reserved bits are set"),
        false => Ok("Reserved bits not set"),
    }
}

} // verus!
