use vstd::prelude::*;
use vstd::string::StringSliceAdditionalSpecFns;

verus! {

/// A two-byte big-endian length prefix followed by the bytes themselves.
pub open spec fn length_prefixed(b: Seq<u8>) -> Seq<u8> {
    seq![(b.len() / 256) as u8, (b.len() % 256) as u8] + b
}

/// Frames a string as its two-byte big-endian byte length followed by its
/// UTF-8 bytes.
pub fn create_packet(string_value: &str) -> (r: Result<Vec<u8>, &'static str>)
    ensures
        string_value.spec_bytes().len() > 0xffff ==> r is Err && r->Err_0@
            == "String is too long to create a packet"@,
        string_value.spec_bytes().len() <= 0xffff ==> r is Ok && r->Ok_0@ == length_prefixed(
            string_value.spec_bytes(),
        ),
{
    let string_bytes: &[u8] = string_value.as_bytes();

    // Check if the length of the string exceeds what two bytes can carry
    if string_bytes.len() > 0xffff {
        return Err("String is too long to create a packet");
    }

    let string_length: usize = string_bytes.len();

    let msb: u8 = (string_length / 256) as u8;
    let lsb: u8 = (string_length % 256) as u8;

    let mut byte_packet: Vec<u8> = Vec::new();

    byte_packet.push(msb);
    byte_packet.push(lsb);

    byte_packet.extend_from_slice(string_bytes);

    proof {
        assert(byte_packet@ =~= length_prefixed(string_value.spec_bytes()));
    }

    Ok(byte_packet)
}

/// Splits a value into the big-endian byte pair of its low sixteen bits.
/// Law: reading the pair back as a big-endian integer reproduces every
/// value up to the largest sixteen-bit one.
pub fn split_into_msb_lsb(value: usize) -> (r: [u8; 2])
    ensures
        r[0] == ((value as int) / 256) % 256,
        r[1] == (value as int) % 256,
        value <= 0xffff ==> (r[0] as int) * 256 + (r[1] as int) == value,
{
    let msb: u8 = ((value / 256) % 256) as u8;
    let lsb: u8 = (value % 256) as u8;
    [msb, lsb]
}

} // verus!
