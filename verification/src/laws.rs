//! The library's global laws, stated and proved once over the specification
//! functions that the executable contracts use.

use vstd::prelude::*;
use vstd::utf8::decode_utf8;
use vstd::utf8::decode_utf8_encode_utf8;
use vstd::utf8::encode_utf8_decode_utf8;
use vstd::utf8::encode_utf8_valid_utf8;

use crate::codec::all_symbols;
use crate::codec::decode_spec;
use crate::codec::decoded_bytes;
use crate::codec::encode_chars;
use crate::codec::encoded_bytes;
use crate::codec::lemma_encode_utf8_width4_len;
use crate::codec::lemma_encoded_bytes_len;
use crate::codec::lemma_symbols_width4;
use crate::error::FromEmoji256Error;
use crate::table::is_symbol_code;
use crate::table::lemma_symbol_bijection;
use crate::table::lemma_symbol_char_code;
use crate::table::symbol_code;

verus! {

/// Round trip: decoding the encoded form of any byte sequence yields exactly
/// that sequence, with no error.
pub proof fn lemma_round_trip(data: Seq<u8>)
    ensures
        decode_spec(encoded_bytes(data)) == Ok::<Seq<u8>, FromEmoji256Error>(data),
{
    let chars = encode_chars(data);
    let encoded = encoded_bytes(data);
    lemma_encoded_bytes_len(data);
    encode_utf8_valid_utf8(chars);
    encode_utf8_decode_utf8(chars);
    assert(decode_utf8(encoded) == chars);
    assert forall|i: int| 0 <= i < chars.len() implies is_symbol_code(
        (#[trigger] chars[i]) as u32,
    ) by {
        lemma_symbol_char_code(data[i]);
        assert((data[i] as int) < 256 && symbol_code(data[i] as int) == chars[i] as u32);
    }
    assert(all_symbols(chars));
    assert forall|i: int| 0 <= i < chars.len() implies decoded_bytes(chars)[i] == data[i] by {
        lemma_symbol_bijection(data[i]);
    }
    assert(decoded_bytes(chars) =~= data);
}

/// Length law, decode side: a successful decode yields exactly one byte per
/// four bytes of encoded input.  (The encode side is
/// `codec::lemma_encoded_bytes_len`: the encoded form has exactly four bytes
/// per input byte.)
pub proof fn lemma_decode_length(data: Seq<u8>)
    requires
        decode_spec(data) is Ok,
    ensures
        4 * decode_spec(data)->Ok_0.len() == data.len(),
{
    let chars = decode_utf8(data);
    decode_utf8_encode_utf8(data);
    lemma_symbols_width4(chars);
    lemma_encode_utf8_width4_len(chars);
}

/// Malformed length: decoding any input whose byte length is not a multiple
/// of four fails with `InvalidSrcLength`, before any content is examined.
pub proof fn lemma_malformed_length(data: Seq<u8>)
    requires
        data.len() % 4 != 0,
    ensures
        decode_spec(data) == Err::<Seq<u8>, FromEmoji256Error>(
            FromEmoji256Error::InvalidSrcLength,
        ),
{
}

/// Invalid symbol: decoding well-formed text that contains a character
/// outside the table fails with `InvalidEmoji256`, carrying the first such
/// character and its character index (counting characters, not bytes).
pub proof fn lemma_invalid_symbol(data: Seq<u8>)
    requires
        data.len() % 4 == 0,
        vstd::utf8::valid_utf8(data),
        !all_symbols(decode_utf8(data)),
    ensures
        decode_spec(data) == Err::<Seq<u8>, FromEmoji256Error>(
            (FromEmoji256Error::InvalidEmoji256 {
                index: crate::codec::first_bad_index(decode_utf8(data)) as usize,
                c: decode_utf8(data)[crate::codec::first_bad_index(decode_utf8(data))],
            }),
        ),
{
}

} // verus!
