use vstd::prelude::*;

use vstd::utf8::{decode_utf8, encode_utf8, valid_utf8};

use crate::common_fn::msb_lsb_creater::length_prefixed;

verus! {

/// Relies on String::from_utf8: accepts exactly the valid UTF-8 byte
/// sequences and decodes one into its characters.
#[verifier::external_body]
pub(crate) fn string_from_utf8(bytes: Vec<u8>) -> (r: Option<String>)
    ensures
        r is Some <==> valid_utf8(bytes@),
        r is Some ==> r->0@ == decode_utf8(bytes@),
{
    match String::from_utf8(bytes) {
        Ok(s) => Some(s),
        Err(_) => None,
    }
}

/// Reads a two-byte big-endian length at `current_index` and, when asked,
/// the UTF-8 string of that many bytes that follows it.  Returns the
/// length, the string, and the index just past what was read.
pub fn get_values(buffer: &[u8], current_index: usize, read_string_value: bool) -> (r: Result<
    (usize, String, usize),
    &'static str,
>)
    ensures
        ({
            let n = buffer@.len() as int;
            let ci = current_index as int;
            let d = if ci + 2 <= n {
                buffer@[ci] * 256 + buffer@[ci + 1]
            } else {
                0
            };
            let raw = buffer@.subrange(ci + 2, ci + 2 + d);
            match r {
                Ok((value, s, stop)) => {
                    &&& ci + 2 <= n
                    &&& value == d
                    &&& read_string_value ==> {
                        &&& ci + 2 + d <= n
                        &&& stop == ci + 2 + d
                        &&& valid_utf8(raw)
                        &&& s@ == decode_utf8(raw)
                    }
                    &&& !read_string_value ==> stop == ci + 2 && s@ == Seq::<char>::empty()
                },
                Err(m) => {
                    &&& ci + 2 > n ==> m@ == "Buffer is too small to read MSB and LSB"@
                    &&& ci + 2 <= n ==> {
                        &&& read_string_value
                        &&& ci + 2 + d > n ==> m@ == "Buffer is too small to read the string value"@
                        &&& ci + 2 + d <= n ==> !valid_utf8(raw) && m@
                            == "String value is not valid UTF-8"@
                    }
                },
            }
        }),
{
    // Check if the buffer has enough bytes to read the MSB and LSB
    if current_index >= buffer.len() || buffer.len() - current_index < 2 {
        return Err("Buffer is too small to read MSB and LSB");
    }

    let msb: usize = buffer[current_index] as usize;
    let lsb: usize = buffer[current_index + 1] as usize;

    let start: usize = current_index + 2;

    let decimal_value: usize = msb * 256 + lsb;

    // Check if the buffer has enough bytes to read the string value
    if read_string_value && decimal_value > buffer.len() - start {
        return Err("Buffer is too small to read the string value");
    }

    if read_string_value {
        let stop_at_index: usize = start + decimal_value;
        let mut raw: Vec<u8> = Vec::new();

        let mut i: usize = start;
        while i < stop_at_index
            invariant
                start <= i <= stop_at_index,
                stop_at_index <= buffer@.len(),
                raw@ == buffer@.subrange(start as int, i as int),
            decreases stop_at_index - i,
        {
            raw.push(buffer[i]);
            proof {
                assert(buffer@.subrange(start as int, i + 1) =~= buffer@.subrange(
                    start as int,
                    i as int,
                ).push(buffer@[i as int]));
            }
            i = i + 1;
        }

        return match string_from_utf8(raw) {
            Some(string_value) => Ok((decimal_value, string_value, stop_at_index)),
            None => Err("String value is not valid UTF-8"),
        };
    }

    let empty: String = String::new();
    proof {
        assert(empty@ =~= Seq::<char>::empty());
    }
    Ok((decimal_value, empty, start))
}

/// Law: framing a string as a length prefix over its UTF-8 bytes and
/// reading the frame back yields the original length and string, for every
/// string whose encoding fits the two-byte prefix.
pub proof fn lemma_length_prefixed_round_trip(s: Seq<char>)
    requires
        encode_utf8(s).len() <= 0xffff,
    ensures
        ({
            let e = encode_utf8(s);
            let b = length_prefixed(e);
            &&& b.len() == 2 + e.len()
            &&& b[0] * 256 + b[1] == e.len()
            &&& valid_utf8(b.subrange(2, b.len() as int))
            &&& decode_utf8(b.subrange(2, b.len() as int)) == s
        }),
{
    vstd::utf8::encode_utf8_valid_utf8(s);
    vstd::utf8::encode_utf8_decode_utf8(s);
    let e = encode_utf8(s);
    let b = length_prefixed(e);
    let n = e.len() as int;
    assert(b[0] == (n / 256) as u8 && b[1] == (n % 256) as u8);
    assert(n / 256 <= 255 && (n / 256) * 256 + n % 256 == n);
    assert(b.subrange(2, b.len() as int) =~= e);
}

} // verus!
