use vstd::prelude::*;

verus! {

/// 128 raised to the given power; the weight of each payload group in the
/// variable-length remaining-length encoding.
pub open spec fn pow128(n: nat) -> int
    decreases n,
{
    if n == 0 {
        1
    } else {
        128 * pow128((n - 1) as nat)
    }
}

/// The integer a sequence of varint data bytes stands for: each byte
/// contributes its low seven bits, least significant group first.
pub open spec fn varint_payload_value(d: Seq<u8>) -> int
    decreases d.len(),
{
    if d.len() == 0 {
        0
    } else {
        (d[0] & 0x7f) + 128 * varint_payload_value(d.drop_first())
    }
}

/// The number of bytes up to and including the first byte without the
/// continuation bit, if any byte without it exists.
pub open spec fn varint_len(d: Seq<u8>) -> Option<int>
    decreases d.len(),
{
    if d.len() == 0 {
        None
    } else if d[0] & 128 == 0 {
        Some(1)
    } else {
        match varint_len(d.drop_first()) {
            Some(n) => Some(n + 1),
            None => None,
        }
    }
}

/// The canonical 1..4 byte varint encoding of a non-negative value.
pub open spec fn encode_varint(v: int) -> Seq<u8>
    decreases v,
{
    if v < 128 {
        seq![v as u8]
    } else {
        seq![(v % 128 + 128) as u8] + encode_varint(v / 128)
    }
}

/// The concrete powers of 128 that bound a four-byte varint.
pub proof fn lemma_pow128_values()
    ensures
        pow128(0) == 1,
        pow128(1) == 128,
        pow128(2) == 16384,
        pow128(3) == 2097152,
        pow128(4) == 268435456,
{
    assert(pow128(0) == 1);
    assert(pow128(1) == 128);
    assert(pow128(2) == 16384);
    assert(pow128(3) == 2097152);
    assert(pow128(4) == 268435456);
}

pub proof fn lemma_pow128_pos(n: nat)
    ensures
        pow128(n) >= 1,
    decreases n,
{
    if n > 0 {
        lemma_pow128_pos((n - 1) as nat);
    }
}

/// Appending a data byte raises the payload value by that byte's seven bits
/// weighted by the position's power of 128.
pub proof fn lemma_varint_payload_push(s: Seq<u8>, b: u8)
    ensures
        varint_payload_value(s.push(b)) == varint_payload_value(s) + (b & 0x7f) * pow128(s.len()),
    decreases s.len(),
{
    if s.len() == 0 {
        assert(s.push(b).drop_first() =~= Seq::<u8>::empty());
        assert(s.push(b)[0] == b);
        assert(varint_payload_value(Seq::<u8>::empty()) == 0);
        assert(varint_payload_value(s.push(b)) == (b & 0x7f) + 128 * 0);
    } else {
        assert(s.push(b).drop_first() =~= s.drop_first().push(b));
        lemma_varint_payload_push(s.drop_first(), b);
        assert(varint_payload_value(s.push(b)) == (s[0] & 0x7f) + 128 * varint_payload_value(
            s.drop_first().push(b),
        ));
        assert(128 * (varint_payload_value(s.drop_first()) + (b & 0x7f) * pow128(
            (s.len() - 1) as nat,
        )) == 128 * varint_payload_value(s.drop_first()) + (b & 0x7f) * (128 * pow128(
            (s.len() - 1) as nat,
        ))) by (nonlinear_arith);
    }
}

/// The payload value of a data sequence is bounded by the power of 128 for
/// its length.
pub proof fn lemma_varint_payload_bound(s: Seq<u8>)
    ensures
        0 <= varint_payload_value(s) < pow128(s.len()),
    decreases s.len(),
{
    if s.len() == 0 {
    } else {
        lemma_varint_payload_bound(s.drop_first());
        let b0 = s[0];
        assert((b0 & 0x7f) <= 127) by (bit_vector);
        let rest = varint_payload_value(s.drop_first());
        let p = pow128((s.len() - 1) as nat);
        assert(rest <= p - 1);
        assert(128 * rest <= 128 * (p - 1)) by (nonlinear_arith)
            requires
                rest <= p - 1,
        ;
    }
}

/// If the first clear continuation bit sits at index `k`, the varint spans
/// exactly the first `k + 1` bytes.
pub proof fn lemma_varint_len_found(d: Seq<u8>, k: int)
    requires
        0 <= k < d.len(),
        forall|j: int| 0 <= j < k ==> d[j] & 128 != 0,
        d[k] & 128 == 0,
    ensures
        varint_len(d) == Some(k + 1),
    decreases k,
{
    if k == 0 {
    } else {
        assert(d[0] & 128 != 0);
        assert(forall|j: int| 0 <= j < k - 1 ==> d.drop_first()[j] == d[j + 1]);
        lemma_varint_len_found(d.drop_first(), k - 1);
    }
}

/// While every byte of the first `k` carries the continuation bit, the varint
/// cannot end within them.
pub proof fn lemma_varint_len_min(d: Seq<u8>, k: int)
    requires
        0 <= k <= d.len(),
        forall|j: int| 0 <= j < k ==> d[j] & 128 != 0,
    ensures
        varint_len(d) is None || varint_len(d)->0 > k,
    decreases k,
{
    if k == 0 {
        if d.len() > 0 && varint_len(d) is Some {
            lemma_varint_len_ge_one(d);
        }
    } else {
        assert(forall|j: int| 0 <= j < k - 1 ==> d.drop_first()[j] == d[j + 1]);
        lemma_varint_len_min(d.drop_first(), k - 1);
    }
}

pub proof fn lemma_varint_len_ge_one(d: Seq<u8>)
    requires
        varint_len(d) is Some,
    ensures
        varint_len(d)->0 >= 1,
    decreases d.len(),
{
    if d.len() > 0 && d[0] & 128 != 0 {
        lemma_varint_len_ge_one(d.drop_first());
    }
}

/// A varint that ends at all ends within the bytes at hand.
pub proof fn lemma_varint_len_le(d: Seq<u8>)
    ensures
        varint_len(d) is Some ==> 1 <= varint_len(d)->0 <= d.len(),
    decreases d.len(),
{
    if d.len() > 0 && d[0] & 128 != 0 {
        lemma_varint_len_le(d.drop_first());
    }
}

/// Decodes the remaining-length field that follows the fixed-header byte of
/// a control packet.  Byte 0 of `bytes` is the packet-type byte and is
/// skipped; decoding starts at byte 1 and reads at most four data bytes,
/// each contributing its low seven bits, until a byte without the
/// continuation bit ends the field.
pub fn decode_remaining_length(bytes: &[u8]) -> (r: Result<usize, &'static str>)
    requires
        bytes@.len() >= 1,
    ensures
        ({
            let d = bytes@.subrange(1, bytes@.len() as int);
            match r {
                Ok(v) => {
                    &&& varint_len(d) is Some
                    &&& varint_len(d)->0 <= 4
                    &&& v == varint_payload_value(d.take(varint_len(d)->0))
                    &&& v <= 268435455
                },
                Err(m) => {
                    &&& (varint_len(d) is None || varint_len(d)->0 > 4)
                    &&& d.len() <= 4 ==> m@ == "Unexpected end of packet"@
                    &&& d.len() > 4 ==> m@ == "Malformed Remaining Length"@
                },
            }
        }),
{
    let ghost d = bytes@.subrange(1, bytes@.len() as int);
    let mut multiplier: u32 = 1;
    let mut value: u32 = 0;
    let mut i: usize = 1;

    loop
        invariant
            bytes@.len() >= 1,
            d == bytes@.subrange(1, bytes@.len() as int),
            1 <= i,
            i - 1 <= 4,
            i <= bytes@.len() || i == 1,
            i - 1 <= d.len(),
            multiplier == pow128((i - 1) as nat),
            value == varint_payload_value(d.take(i - 1)),
            value < multiplier,
            forall|j: int| 0 <= j < i - 1 ==> d[j] & 128 != 0,
        decreases 5 - i,
    {
        proof {
            lemma_pow128_pos((i - 1) as nat);
        }
        // Check if there are no more bytes in the packet
        if i >= bytes.len() {
            proof {
                lemma_varint_len_min(d, d.len() as int);
                lemma_varint_len_le(d);
            }
            return Err("Unexpected end of packet");
        }
        if i - 1 >= 4 {
            proof {
                lemma_varint_len_min(d, 4);
            }
            return Err("Malformed Remaining Length");
        }

        let encoded_byte: u8 = bytes[i];
        assert(encoded_byte == d[i - 1]);
        assert((encoded_byte & 127) <= 127) by (bit_vector);

        proof {
            assert(d.take(i - 1 + 1) =~= d.take(i - 1).push(d[i - 1]));
            lemma_varint_payload_push(d.take(i - 1), d[i - 1]);
            assert((encoded_byte & 127) * pow128((i - 1) as nat) <= 127 * pow128((i - 1) as nat))
                by (nonlinear_arith)
                requires
                    (encoded_byte & 127) <= 127,
                    pow128((i - 1) as nat) >= 1,
            ;
            assert(pow128((i - 1 + 1) as nat) == 128 * pow128((i - 1) as nat));
            assert(value + (encoded_byte & 127) * pow128((i - 1) as nat) < pow128(
                (i - 1 + 1) as nat,
            ));
            lemma_pow128_values();
        }
        value = value + ((encoded_byte & 127) as u32) * multiplier;
        multiplier = multiplier * 128;
        i = i + 1;

        if (encoded_byte & 128) == 0 {
            proof {
                lemma_varint_len_found(d, i - 2);
                lemma_varint_payload_bound(d.take(i - 1));
                lemma_pow128_values();
            }
            return Ok(value as usize);
        }
    }
}

/// Whether the remaining-length field after the fixed-header byte is well
/// formed: a terminated varint of at most four data bytes.
pub open spec fn remaining_length_ok(bytes: Seq<u8>) -> bool {
    let d = bytes.subrange(1, bytes.len() as int);
    varint_len(d) is Some && varint_len(d)->0 <= 4
}

/// The value of a well-formed remaining-length field after the
/// fixed-header byte; zero where the field is not well formed, though the
/// handlers refuse such a packet before using the value.
pub open spec fn remaining_length_value(bytes: Seq<u8>) -> int {
    let d = bytes.subrange(1, bytes.len() as int);
    if varint_len(d) is Some && varint_len(d)->0 <= 4 {
        varint_payload_value(d.take(varint_len(d)->0))
    } else {
        0
    }
}

/// Encodes a remaining-length value in the 1..4 byte variable scheme: seven
/// bits per byte, least significant group first, continuation bit on every
/// byte but the last.
pub fn encode_remaining_length(value: u32) -> (r: Vec<u8>)
    requires
        value <= 268435455,
    ensures
        r@ == encode_varint(value as int),
        1 <= r@.len() <= 4,
{
    let mut v: u32 = value;
    let mut out: Vec<u8> = Vec::new();

    loop
        invariant
            value <= 268435455,
            encode_varint(value as int) == out@ + encode_varint(v as int),
            v <= value,
        decreases v,
    {
        let byte: u8 = (v % 128) as u8;
        let next: u32 = v / 128;
        if next > 0 {
            assert(v >= 128);
            out.push(byte | 128);
            proof {
                assert(byte | 128 == byte + 128) by (bit_vector)
                    requires
                        byte <= 127,
                ;
                assert(encode_varint(v as int) == seq![((v as int) % 128 + 128) as u8]
                    + encode_varint((v as int) / 128));
                assert(encode_varint(value as int) =~= out@ + encode_varint(next as int));
            }
            v = next;
        } else {
            assert(v < 128);
            out.push(byte);
            proof {
                assert(encode_varint(v as int) == seq![(v as int) as u8]);
                assert(out@ =~= encode_varint(value as int));
                lemma_varint_round_trip(value as int);
            }
            return out;
        }
    }
}

/// Splits a byte into the integer values of its top `split_index` bits and
/// its bottom `8 - split_index` bits.
pub fn split_byte(byte: &u8, split_index: usize) -> (r: Result<[u8; 2], &'static str>)
    ensures
        split_index > 7 ==> r is Err && r->Err_0@ == "split_index is not allowed to more than 7"@,
        split_index == 0 ==> r is Err && r->Err_0@ == "split_index is not allowed to be 0"@,
        1 <= split_index <= 7 ==> {
            &&& r is Ok
            &&& r->Ok_0[0] == *byte >> (8 - split_index) as u8
            &&& r->Ok_0[1] == *byte & (0xffu8 >> split_index as u8)
        },
{
    if split_index > 7 {
        return Err("split_index is not allowed to more than 7");
    }

    if split_index == 0 {
        return Err("split_index is not allowed to be 0");
    }

    let shift: u8 = (8 - split_index) as u8;
    let first_half: u8 = *byte >> shift;
    let second_half: u8 = *byte & (0xffu8 >> (split_index as u8));

    Ok([first_half, second_half])
}

/// Law: the two halves of a split byte reassemble to the original byte,
/// for every byte and every split position.
pub proof fn lemma_split_byte_recombines(b: u8, k: u8)
    requires
        1 <= k <= 7,
    ensures
        ((b >> (8 - k) as u8) << (8 - k) as u8) | (b & (0xffu8 >> k)) == b,
{
    assert(((b >> (8 - k) as u8) << (8 - k) as u8) | (b & (0xffu8 >> k)) == b) by (bit_vector)
        requires
            1 <= k <= 7,
    ;
}

/// Law: the remaining-length decoder inverts the canonical varint encoding
/// on every value the encoding covers.
pub proof fn lemma_varint_round_trip(v: int)
    requires
        0 <= v <= 268435455,
    ensures
        ({
            let d = encode_varint(v);
            &&& 1 <= d.len() <= 4
            &&& varint_len(d) == Some(d.len() as int)
            &&& varint_payload_value(d) == v
        }),
    decreases v,
{
    let d = encode_varint(v);
    if v < 128 {
        let vb = v as u8;
        assert(vb == v);
        assert(vb & 128 == 0 && (vb & 0x7f) == vb) by (bit_vector)
            requires
                vb <= 127,
        ;
        assert(d.drop_first() =~= Seq::<u8>::empty());
        assert(varint_payload_value(Seq::<u8>::empty()) == 0);
        assert(varint_payload_value(d) == (vb & 0x7f) + 128 * 0);
    } else {
        let c = (v % 128 + 128) as u8;
        assert(128 <= v % 128 + 128 <= 255);
        assert(c & 128 != 0 && (c & 0x7f) == c - 128) by (bit_vector)
            requires
                128 <= c,
        ;
        assert(v / 128 < v && v / 128 >= 1);
        assert(v / 128 <= 2097151) by (nonlinear_arith)
            requires
                v <= 268435455,
        ;
        lemma_varint_round_trip(v / 128);
        let rest = encode_varint(v / 128);
        assert(d == seq![c] + rest);
        assert(d[0] == c);
        assert(d.drop_first() =~= rest);
        assert(varint_payload_value(d) == (c & 0x7f) + 128 * varint_payload_value(rest));
        assert((c & 0x7f) == v % 128);
        assert(v % 128 + 128 * (v / 128) == v) by (nonlinear_arith)
            requires
                v >= 0,
        ;
        // the encoding of v / 128 is at most 3 bytes long when v fits 4 groups
        assert(rest.len() <= 4);
        if rest.len() == 4 {
            lemma_encode_varint_len(v / 128);
        }
        lemma_varint_len_found_from_parts(d, rest);
    }
}

/// The varint encoding of a value below 128 to the third power spans at most
/// three bytes.
proof fn lemma_encode_varint_len(v: int)
    requires
        0 <= v <= 2097151,
    ensures
        encode_varint(v).len() <= 3,
    decreases v,
{
    if v >= 128 {
        assert(v / 128 <= 16383) by (nonlinear_arith)
            requires
                v <= 2097151,
        ;
        lemma_encode_varint_len_2(v / 128);
    }
}

proof fn lemma_encode_varint_len_2(v: int)
    requires
        0 <= v <= 16383,
    ensures
        encode_varint(v).len() <= 2,
{
    if v >= 128 {
        assert(v / 128 <= 127 && v / 128 >= 0) by (nonlinear_arith)
            requires
                0 <= v <= 16383,
        ;
        assert(encode_varint(v / 128).len() == 1);
        assert(encode_varint(v) == seq![(v % 128 + 128) as u8] + encode_varint(v / 128));
    } else {
        assert(encode_varint(v).len() == 1);
    }
}

/// Prepending a continuation byte to a terminated varint extends its length
/// by one.
proof fn lemma_varint_len_found_from_parts(d: Seq<u8>, rest: Seq<u8>)
    requires
        d.len() == rest.len() + 1,
        d[0] & 128 != 0,
        d.drop_first() == rest,
        varint_len(rest) == Some(rest.len() as int),
    ensures
        varint_len(d) == Some(d.len() as int),
{
}

} // verus!
