//! The encode and decode transforms over the symbol table, together with the
//! validation pipeline that rejects malformed input.

use vstd::prelude::*;
use vstd::utf8::decode_first_scalar;
use vstd::utf8::decode_utf8;
use vstd::utf8::encode_scalar;
use vstd::utf8::encode_utf8;
use vstd::utf8::encode_utf8_decode_utf8;
use vstd::utf8::encode_utf8_valid_utf8;
use vstd::utf8::has_width_4_encoding;
use vstd::utf8::is_scalar;
use vstd::utf8::length_of_first_scalar;
use vstd::utf8::partial_valid_partial_invalid_utf8;
use vstd::utf8::partial_valid_utf8;
use vstd::utf8::partial_valid_utf8_extend;
use vstd::utf8::pop_first_scalar;
use vstd::utf8::valid_first_scalar;
use vstd::utf8::valid_utf8;

use crate::error::FromEmoji256Error;
use crate::table::byte_for_code;
use crate::table::byte_of_char;
use crate::table::emo2byte;
use crate::table::is_symbol_code;
use crate::table::lemma_symbol_code_bounds;
use crate::table::symbol_char;
use crate::table::symbol_code;
use crate::table::symbol_code_of;

verus! {

broadcast use vstd::utf8::char_u32_cast, vstd::utf8::char_is_scalar;

/// The character sequence that encodes `data`: one table symbol per byte.
pub open spec fn encode_chars(data: Seq<u8>) -> Seq<char> {
    Seq::new(data.len(), |i: int| symbol_char(data[i]))
}

/// The UTF-8 bytes of the encoded form of `data`.
pub open spec fn encoded_bytes(data: Seq<u8>) -> Seq<u8> {
    encode_utf8(encode_chars(data))
}

/// True when every character of `chars` is a table symbol.
pub open spec fn all_symbols(chars: Seq<char>) -> bool {
    forall|i: int| 0 <= i < chars.len() ==> is_symbol_code((#[trigger] chars[i]) as u32)
}

/// The bytes that `chars` decodes to (meaningful when `all_symbols` holds).
pub open spec fn decoded_bytes(chars: Seq<char>) -> Seq<u8> {
    Seq::new(chars.len(), |i: int| byte_for_code(chars[i] as u32))
}

/// The index of the first character of `chars` that is not a table symbol
/// (meaningful when `all_symbols` fails).
pub open spec fn first_bad_index(chars: Seq<char>) -> int
    decreases chars.len(),
{
    if chars.len() == 0 {
        0
    } else if !is_symbol_code(chars[0] as u32) {
        0
    } else {
        1 + first_bad_index(chars.drop_first())
    }
}

/// The length of the longest prefix of `s` that is valid UTF-8 and ends on a
/// character boundary; this matches what a left-to-right UTF-8 decoder has
/// confirmed when it first stops.
pub open spec fn spec_valid_up_to(s: Seq<u8>) -> int
    decreases s.len(),
    via spec_valid_up_to_decreases
{
    if !valid_first_scalar(s) {
        0
    } else {
        length_of_first_scalar(s) + spec_valid_up_to(pop_first_scalar(s))
    }
}

#[via_fn]
proof fn spec_valid_up_to_decreases(s: Seq<u8>) {
    if valid_first_scalar(s) {
        assert(pop_first_scalar(s).len() < s.len());
    }
}

/// What decoding `data` into a buffer of exactly `n` bytes yields: the decoded
/// bytes, or the first error of the validation pipeline, checked in this
/// order: source length, UTF-8 validity, destination length, symbol lookup.
pub open spec fn decode_sized_spec(data: Seq<u8>, n: int) -> Result<Seq<u8>, FromEmoji256Error> {
    if data.len() % 4 != 0 {
        Err(FromEmoji256Error::InvalidSrcLength)
    } else if !valid_utf8(data) {
        Err(FromEmoji256Error::InvalidUtf8 { index: (spec_valid_up_to(data) + 1) as usize })
    } else if data.len() / 4 != n {
        Err(FromEmoji256Error::InvalidDestLength)
    } else if !all_symbols(decode_utf8(data)) {
        let k = first_bad_index(decode_utf8(data));
        Err(FromEmoji256Error::InvalidEmoji256 { index: k as usize, c: decode_utf8(data)[k] })
    } else {
        Ok(decoded_bytes(decode_utf8(data)))
    }
}

/// What decoding `data` into a freshly allocated buffer yields.
pub open spec fn decode_spec(data: Seq<u8>) -> Result<Seq<u8>, FromEmoji256Error> {
    decode_sized_spec(data, data.len() as int / 4)
}

/// `spec_valid_up_to` never exceeds the length, and reaches it exactly on
/// valid UTF-8.
pub proof fn lemma_valid_up_to_bounds(s: Seq<u8>)
    ensures
        0 <= spec_valid_up_to(s) <= s.len(),
        (spec_valid_up_to(s) == s.len()) <==> valid_utf8(s),
    decreases s.len(),
{
    if valid_first_scalar(s) {
        lemma_valid_up_to_bounds(pop_first_scalar(s));
    }
}

/// `first_bad_index` names the least non-symbol position: if everything below
/// `k` is a symbol and `chars[k]` is not, the first bad index is `k`.
pub proof fn lemma_first_bad_index(chars: Seq<char>, k: int)
    requires
        0 <= k < chars.len(),
        !is_symbol_code(chars[k] as u32),
        forall|i: int| 0 <= i < k ==> is_symbol_code((#[trigger] chars[i]) as u32),
    ensures
        first_bad_index(chars) == k,
        !all_symbols(chars),
    decreases k,
{
    if k > 0 {
        assert(forall|i: int|
            0 <= i < k - 1 ==> is_symbol_code((#[trigger] chars.drop_first()[i]) as u32));
        lemma_first_bad_index(chars.drop_first(), k - 1);
    }
}

/// Appending one character appends its scalar encoding.
pub proof fn lemma_encode_utf8_push(chars: Seq<char>, c: char)
    ensures
        encode_utf8(chars.push(c)) == encode_utf8(chars) + encode_scalar(c as u32),
    decreases chars.len(),
{
    if chars.len() == 0 {
        assert(chars.push(c).drop_first() =~= chars);
        assert(encode_utf8(chars) + encode_scalar(c as u32) =~= encode_scalar(c as u32)
            + encode_utf8(chars));
    } else {
        assert(chars.push(c).drop_first() =~= chars.drop_first().push(c));
        lemma_encode_utf8_push(chars.drop_first(), c);
        assert(encode_scalar(chars[0] as u32) + (encode_utf8(chars.drop_first()) + encode_scalar(
            c as u32,
        )) =~= (encode_scalar(chars[0] as u32) + encode_utf8(chars.drop_first())) + encode_scalar(
            c as u32,
        ));
    }
}

/// The encoded form grows by exactly the four UTF-8 bytes of the next symbol.
pub proof fn lemma_encoded_bytes_step(data: Seq<u8>, j: int)
    requires
        0 <= j < data.len(),
    ensures
        encoded_bytes(data.take(j + 1)) == encoded_bytes(data.take(j)) + encode_scalar(
            symbol_code(data[j] as int),
        ),
{
    assert(encode_chars(data.take(j + 1)) =~= encode_chars(data.take(j)).push(
        symbol_char(data[j]),
    ));
    lemma_encode_utf8_push(encode_chars(data.take(j)), symbol_char(data[j]));
    crate::table::lemma_symbol_char_code(data[j]);
}

/// A sequence of four-byte characters encodes to exactly four bytes each.
pub proof fn lemma_encode_utf8_width4_len(chars: Seq<char>)
    requires
        forall|i: int| 0 <= i < chars.len() ==> has_width_4_encoding((#[trigger] chars[i]) as u32),
    ensures
        encode_utf8(chars).len() == 4 * chars.len(),
    decreases chars.len(),
{
    if chars.len() > 0 {
        assert(forall|i: int|
            0 <= i < chars.drop_first().len() ==> has_width_4_encoding(
                (#[trigger] chars.drop_first()[i]) as u32,
            ));
        lemma_encode_utf8_width4_len(chars.drop_first());
    }
}

/// Every table symbol has a four-byte UTF-8 encoding.
pub proof fn lemma_symbols_width4(chars: Seq<char>)
    requires
        all_symbols(chars),
    ensures
        forall|i: int| 0 <= i < chars.len() ==> has_width_4_encoding((#[trigger] chars[i]) as u32),
{
    assert forall|i: int| 0 <= i < chars.len() implies has_width_4_encoding(
        (#[trigger] chars[i]) as u32,
    ) by {
        let b = choose|b: int| 0 <= b < 256 && symbol_code(b) == chars[i] as u32;
        lemma_symbol_code_bounds(b);
    }
}

/// Reads the scalar whose UTF-8 encoding starts at byte `i`, if one does.
/// Returns the scalar value and its width in bytes.
fn scalar_at(data: &[u8], i: usize) -> (r: Option<(u32, usize)>)
    requires
        i < data@.len(),
    ensures
        ({
            let suffix = data@.subrange(i as int, data@.len() as int);
            match r {
                Some(p) => {
                    &&& valid_first_scalar(suffix)
                    &&& p.0 == decode_first_scalar(suffix)
                    &&& p.1 == length_of_first_scalar(suffix)
                    &&& i + p.1 <= data@.len()
                    &&& is_scalar(p.0)
                    &&& (p.0 >= 0x10000 <==> p.1 == 4)
                },
                None => !valid_first_scalar(suffix),
            }
        }),
{
    let ghost suffix = data@.subrange(i as int, data@.len() as int);
    let n = data.len();
    let b0 = data[i];
    proof {
        assert(suffix[0] == data@[i as int]);
        assert(suffix.len() == n - i);
    }
    if b0 < 0x80 {
        proof {
            assert(b0 & 0x7F == b0) by (bit_vector)
                requires
                    b0 < 0x80,
            ;
        }
        Some((b0 as u32, 1))
    } else if b0 < 0xC0 {
        None
    } else if b0 <= 0xDF {
        if n - i < 2 {
            return None;
        }
        let b1 = data[i + 1];
        proof {
            assert(suffix[1] == data@[i as int + 1]);
        }
        if b1 < 0x80 || b1 > 0xBF {
            return None;
        }
        let cp = (((b0 & 0x1F) as u32) << 6u32) | ((b1 & 0x3F) as u32);
        if cp < 0x80 {
            return None;
        }
        proof {
            assert((((b0 & 0x1F) as u32) << 6u32) | ((b1 & 0x3F) as u32) <= 0x7FF) by (bit_vector);
        }
        Some((cp, 2))
    } else if b0 <= 0xEF {
        if n - i < 3 {
            return None;
        }
        let b1 = data[i + 1];
        let b2 = data[i + 2];
        proof {
            assert(suffix[1] == data@[i as int + 1]);
            assert(suffix[2] == data@[i as int + 2]);
        }
        if b1 < 0x80 || b1 > 0xBF || b2 < 0x80 || b2 > 0xBF {
            return None;
        }
        let cp = (((b0 & 0x0F) as u32) << 12u32) | (((b1 & 0x3F) as u32) << 6u32) | ((b2
            & 0x3F) as u32);
        if cp < 0x800 {
            return None;
        }
        if 0xD800 <= cp && cp <= 0xDFFF {
            return None;
        }
        proof {
            assert((((b0 & 0x0F) as u32) << 12u32) | (((b1 & 0x3F) as u32) << 6u32) | ((b2
                & 0x3F) as u32) <= 0xFFFF) by (bit_vector);
        }
        Some((cp, 3))
    } else if b0 <= 0xF7 {
        if n - i < 4 {
            return None;
        }
        let b1 = data[i + 1];
        let b2 = data[i + 2];
        let b3 = data[i + 3];
        proof {
            assert(suffix[1] == data@[i as int + 1]);
            assert(suffix[2] == data@[i as int + 2]);
            assert(suffix[3] == data@[i as int + 3]);
        }
        if b1 < 0x80 || b1 > 0xBF || b2 < 0x80 || b2 > 0xBF || b3 < 0x80 || b3 > 0xBF {
            return None;
        }
        let cp = (((b0 & 0x07) as u32) << 18u32) | (((b1 & 0x3F) as u32) << 12u32) | (((b2
            & 0x3F) as u32) << 6u32) | ((b3 & 0x3F) as u32);
        if cp < 0x10000 || cp > 0x10FFFF {
            return None;
        }
        Some((cp, 4))
    } else {
        None
    }
}

/// Checks that `data` is valid UTF-8; on failure returns the length of the
/// longest valid prefix.
fn validate_utf8(data: &[u8]) -> (r: Result<(), usize>)
    ensures
        match r {
            Ok(()) => valid_utf8(data@),
            Err(i) => {
                &&& !valid_utf8(data@)
                &&& i == spec_valid_up_to(data@)
                &&& i < data@.len()
            },
        },
{
    let n = data.len();
    let mut i: usize = 0;
    proof {
        assert(data@.subrange(0, n as int) =~= data@);
        assert(valid_utf8(data@.subrange(0, 0)));
    }
    while i < n
        invariant
            i <= n,
            n == data@.len(),
            partial_valid_utf8(data@, i as int),
            spec_valid_up_to(data@) == i + spec_valid_up_to(
                data@.subrange(i as int, n as int),
            ),
        decreases n - i,
    {
        let ghost suffix = data@.subrange(i as int, n as int);
        match scalar_at(data, i) {
            Some(p) => {
                let w = p.1;
                proof {
                    partial_valid_utf8_extend(data@, i as int);
                    assert(pop_first_scalar(suffix) =~= data@.subrange(
                        i as int + w as int,
                        n as int,
                    ));
                }
                i = i + w;
            },
            None => {
                proof {
                    assert(spec_valid_up_to(suffix) == 0);
                    assert(!valid_utf8(suffix));
                    partial_valid_partial_invalid_utf8(data@, i as int);
                    lemma_valid_up_to_bounds(data@);
                }
                return Err(i);
            },
        }
    }
    proof {
        assert(data@.subrange(n as int, n as int) =~= Seq::<u8>::empty());
        assert(data@.subrange(0, n as int) =~= data@);
    }
    Ok(())
}

/// The four UTF-8 bytes of every encoded symbol: `encoded_bytes` is four
/// times as long as the data it encodes.
pub proof fn lemma_encoded_bytes_len(data: Seq<u8>)
    ensures
        encoded_bytes(data).len() == 4 * data.len(),
{
    assert forall|i: int| 0 <= i < encode_chars(data).len() implies has_width_4_encoding(
        (#[trigger] encode_chars(data)[i]) as u32,
    ) by {
        crate::table::lemma_symbol_char_code(data[i]);
        lemma_symbol_code_bounds(data[i] as int);
    }
    lemma_encode_utf8_width4_len(encode_chars(data));
}

/// Relies on String::from_utf8: on bytes that are valid UTF-8 it returns
/// `Ok` of the string whose UTF-8 encoding is exactly those bytes.  The
/// precondition rules out the `Err` case, so `unwrap` cannot panic.
#[verifier::external_body]
fn string_from_utf8(bytes: Vec<u8>) -> (s: String)
    requires
        valid_utf8(bytes@),
    ensures
        encode_utf8(s@) == bytes@,
{
    String::from_utf8(bytes).unwrap()
}

/// The four UTF-8 bytes of the symbol for byte value `b`.
fn symbol_utf8(b: u8) -> (r: (u8, u8, u8, u8))
    ensures
        ({
            let s = encode_scalar(symbol_code(b as int));
            &&& s.len() == 4
            &&& r.0 == s[0]
            &&& r.1 == s[1]
            &&& r.2 == s[2]
            &&& r.3 == s[3]
        }),
{
    proof {
        lemma_symbol_code_bounds(b as int);
    }
    let cp = symbol_code_of(b);
    proof {
        assert((cp >> 18u32) & 0x7 <= 0x7 && (cp >> 12u32) & 0x3F <= 0x3F && (cp >> 6u32) & 0x3F
            <= 0x3F && cp & 0x3F <= 0x3F) by (bit_vector);
    }
    let y0 = 0xF0u8 | ((cp >> 18u32) & 0x7) as u8;
    let y1 = 0x80u8 | ((cp >> 12u32) & 0x3F) as u8;
    let y2 = 0x80u8 | ((cp >> 6u32) & 0x3F) as u8;
    let y3 = 0x80u8 | (cp & 0x3F) as u8;
    (y0, y1, y2, y3)
}

/// Encodes `data`, writing the four UTF-8 bytes of each byte's symbol into
/// the corresponding window of `output`, which must be exactly four times as
/// long as `data`; on a length mismatch nothing is written.
pub fn encode_to_slice(input: &[u8], output: &mut [u8]) -> (r: Result<(), FromEmoji256Error>)
    ensures
        final(output)@.len() == old(output)@.len(),
        match r {
            Ok(()) => {
                &&& 4 * input@.len() == old(output)@.len()
                &&& final(output)@ == encoded_bytes(input@)
            },
            Err(e) => {
                &&& e == FromEmoji256Error::InvalidDestLength
                &&& 4 * input@.len() != old(output)@.len()
                &&& final(output)@ == old(output)@
            },
        },
{
    let n = input.len();
    let m = output.len();
    if m % 4 != 0 || m / 4 != n {
        return Err(FromEmoji256Error::InvalidDestLength);
    }
    let mut j: usize = 0;
    proof {
        assert(encode_chars(input@.take(0)) =~= Seq::<char>::empty());
        assert(encoded_bytes(input@.take(0)) + old(output)@.skip(0) =~= output@);
    }
    while j < n
        invariant
            j <= n,
            n == input@.len(),
            output@.len() == old(output)@.len(),
            old(output)@.len() == m,
            m == 4 * n,
            output@ == encoded_bytes(input@.take(j as int)) + old(output)@.skip(4 * j as int),
        decreases n - j,
    {
        let y = symbol_utf8(input[j]);
        let ghost before = output@;
        output[4 * j] = y.0;
        output[4 * j + 1] = y.1;
        output[4 * j + 2] = y.2;
        output[4 * j + 3] = y.3;
        proof {
            lemma_encoded_bytes_step(input@, j as int);
            lemma_encoded_bytes_len(input@.take(j as int));
            lemma_encoded_bytes_len(input@.take(j as int + 1));
            assert(output@ =~= encoded_bytes(input@.take(j as int + 1)) + old(output)@.skip(
                4 * (j as int + 1),
            ));
        }
        j = j + 1;
    }
    proof {
        assert(input@.take(n as int) =~= input@);
        lemma_encoded_bytes_len(input@);
        assert(old(output)@.skip(4 * n as int) =~= Seq::<u8>::empty());
        assert(encoded_bytes(input@) + Seq::<u8>::empty() =~= encoded_bytes(input@));
    }
    Ok(())
}

/// Encodes `data` as an emoji256 string: one table symbol per input byte.
pub fn encode(data: &[u8]) -> (r: String)
    ensures
        r@ == encode_chars(data@),
{
    let n = data.len();
    let mut buf: Vec<u8> = Vec::new();
    let mut j: usize = 0;
    proof {
        assert(encode_chars(data@.take(0)) =~= Seq::<char>::empty());
        assert(buf@ =~= encoded_bytes(data@.take(0)));
    }
    while j < n
        invariant
            j <= n,
            n == data@.len(),
            buf@ == encoded_bytes(data@.take(j as int)),
        decreases n - j,
    {
        let y = symbol_utf8(data[j]);
        buf.push(y.0);
        buf.push(y.1);
        buf.push(y.2);
        buf.push(y.3);
        proof {
            lemma_encoded_bytes_step(data@, j as int);
            assert(buf@ =~= encoded_bytes(data@.take(j as int + 1)));
        }
        j = j + 1;
    }
    proof {
        assert(data@.take(n as int) =~= data@);
        encode_utf8_valid_utf8(encode_chars(data@));
    }
    let s = string_from_utf8(buf);
    proof {
        encode_utf8_decode_utf8(s@);
        encode_utf8_decode_utf8(encode_chars(data@));
    }
    s
}

/// Decodes `data` into `out`, which must hold exactly one byte per four input
/// bytes.  The validation pipeline runs in order: source length, UTF-8
/// validity, destination length, then symbol lookup; on an invalid symbol the
/// bytes decoded before it have already been written into `out`.
pub fn decode_to_slice(data: &[u8], out: &mut [u8]) -> (r: Result<(), FromEmoji256Error>)
    ensures
        final(out)@.len() == old(out)@.len(),
        match r {
            Ok(()) => decode_sized_spec(data@, old(out)@.len() as int) == Ok::<
                Seq<u8>,
                FromEmoji256Error,
            >(final(out)@),
            Err(e) => {
                &&& decode_sized_spec(data@, old(out)@.len() as int) == Err::<
                    Seq<u8>,
                    FromEmoji256Error,
                >(e)
                &&& match e {
                    FromEmoji256Error::InvalidEmoji256 { index, .. } => final(out)@
                        == decoded_bytes(decode_utf8(data@).take(index as int)) + old(out)@.skip(
                        index as int,
                    ),
                    _ => final(out)@ == old(out)@,
                }
            },
        },
{
    let n = data.len();
    if n % 4 != 0 {
        return Err(FromEmoji256Error::InvalidSrcLength);
    }
    match validate_utf8(data) {
        Err(i) => {
            proof {
                lemma_valid_up_to_bounds(data@);
            }
            return Err(FromEmoji256Error::InvalidUtf8 { index: i + 1 });
        },
        Ok(()) => {},
    }
    let m = out.len();
    if n / 4 != m {
        return Err(FromEmoji256Error::InvalidDestLength);
    }
    let ghost chars = decode_utf8(data@);
    let mut i: usize = 0;
    let mut k: usize = 0;
    proof {
        assert(data@.subrange(0, n as int) =~= data@);
        assert(chars.take(0) + decode_utf8(data@.subrange(0, n as int)) =~= chars);
        assert(decoded_bytes(chars.take(0)) + old(out)@.skip(0) =~= out@);
    }
    while i < n
        invariant
            n == data@.len(),
            valid_utf8(data@),
            chars == decode_utf8(data@),
            m == out@.len(),
            out@.len() == old(out)@.len(),
            n / 4 == m,
            n % 4 == 0,
            i <= n,
            i == 4 * k,
            k <= chars.len(),
            valid_utf8(data@.subrange(i as int, n as int)),
            chars == chars.take(k as int) + decode_utf8(data@.subrange(i as int, n as int)),
            forall|q: int| 0 <= q < k ==> is_symbol_code((#[trigger] chars[q]) as u32),
            out@ == decoded_bytes(chars.take(k as int)) + old(out)@.skip(k as int),
        decreases n - i,
    {
        let ghost suffix = data@.subrange(i as int, n as int);
        proof {
            assert(valid_first_scalar(suffix));
        }
        let p = match scalar_at(data, i) {
            Some(p) => p,
            None => vstd::pervasive::unreached(),
        };
        let cp = p.0;
        let c = crate::table::char_of_scalar(cp);
        proof {
            assert(decode_utf8(suffix)[0] == decode_first_scalar(suffix) as char);
            assert(chars.len() == k + decode_utf8(suffix).len());
            assert(chars[k as int] == decode_utf8(suffix)[0]);
            assert(chars[k as int] == c);
        }
        match emo2byte(c) {
            None => {
                proof {
                    lemma_first_bad_index(chars, k as int);
                }
                return Err(FromEmoji256Error::InvalidEmoji256 { index: k, c });
            },
            Some(b) => {
                proof {
                    assert(is_symbol_code(cp));
                    let bb = choose|bb: int| 0 <= bb < 256 && symbol_code(bb) == cp;
                    lemma_symbol_code_bounds(bb);
                    assert(p.1 == 4);
                }
                out[k] = b;
                i = i + 4;
                k = k + 1;
                proof {
                    let suffix_new = data@.subrange(i as int, n as int);
                    assert(pop_first_scalar(suffix) =~= suffix_new);
                    assert(valid_utf8(suffix_new));
                    assert(decode_utf8(suffix) == seq![c] + decode_utf8(suffix_new));
                    assert(chars.take(k as int) =~= chars.take(k as int - 1).push(c));
                    assert(chars.take(k as int) + decode_utf8(suffix_new) =~= chars);
                    assert(byte_of_char(c) == Some(b));
                    assert(b == byte_for_code(c as u32));
                    assert(out@ =~= decoded_bytes(chars.take(k as int)) + old(out)@.skip(
                        k as int,
                    ));
                }
            },
        }
    }
    proof {
        assert(data@.subrange(n as int, n as int) =~= Seq::<u8>::empty());
        assert(decode_utf8(Seq::<u8>::empty()) =~= Seq::<char>::empty());
        assert(chars.take(k as int) == chars);
        assert(k == chars.len());
        assert(all_symbols(chars));
        assert(old(out)@.skip(k as int) =~= Seq::<u8>::empty());
        assert(out@ =~= decoded_bytes(chars));
    }
    Ok(())
}


/// A vector of `n` zero bytes.
fn zero_vec(n: usize) -> (v: Vec<u8>)
    ensures
        v@.len() == n,
{
    let mut v: Vec<u8> = Vec::new();
    while v.len() < n
        invariant
            v@.len() <= n,
        decreases n - v@.len(),
    {
        v.push(0);
    }
    v
}

/// Decodes an emoji256 string into its raw bytes, one byte per symbol.
pub fn decode(data: &[u8]) -> (r: Result<Vec<u8>, FromEmoji256Error>)
    ensures
        match r {
            Ok(v) => decode_spec(data@) == Ok::<Seq<u8>, FromEmoji256Error>(v@),
            Err(e) => decode_spec(data@) == Err::<Seq<u8>, FromEmoji256Error>(e),
        },
{
    let mut bytes = zero_vec(data.len() / 4);
    match decode_to_slice(data, bytes.as_mut_slice()) {
        Ok(()) => Ok(bytes),
        Err(e) => Err(e),
    }
}

/// Encoding values as an emoji256 string.
///
/// Implemented for byte slices, byte vectors and text; `emoji_src` is the
/// byte sequence that the value contributes to the encoder.
pub trait ToEmoji256 {
    /// The bytes of `self` that the encoder reads.
    spec fn emoji_src(&self) -> Seq<u8>;

    /// Encodes `self` as an emoji256 string, one table symbol per byte.
    fn encode_emoji256(&self) -> (r: String)
        ensures
            r@ == encode_chars(self.emoji_src()),
    ;
}

impl ToEmoji256 for [u8] {
    open spec fn emoji_src(&self) -> Seq<u8> {
        self@
    }

    fn encode_emoji256(&self) -> (r: String) {
        encode(self)
    }
}

impl ToEmoji256 for Vec<u8> {
    open spec fn emoji_src(&self) -> Seq<u8> {
        self@
    }

    fn encode_emoji256(&self) -> (r: String) {
        encode(self.as_slice())
    }
}

impl ToEmoji256 for str {
    open spec fn emoji_src(&self) -> Seq<u8> {
        encode_utf8(self@)
    }

    fn encode_emoji256(&self) -> (r: String) {
        encode(self.as_bytes())
    }
}

impl ToEmoji256 for String {
    open spec fn emoji_src(&self) -> Seq<u8> {
        encode_utf8(self@)
    }

    fn encode_emoji256(&self) -> (r: String) {
        encode(self.as_str().as_bytes())
    }
}

/// Types that can be decoded from an emoji256 string.
///
/// Implemented for `Vec<u8>` and for fixed-size byte arrays; an array of the
/// wrong exact length is rejected with `InvalidDestLength`.
pub trait FromEmoji256: Sized {
    type Error;

    /// What a successful decode of `data` into this value means.
    spec fn from_emoji256_ok(data: Seq<u8>, v: Self) -> bool;

    /// What a failed decode of `data` with this error means.
    spec fn from_emoji256_err(data: Seq<u8>, e: Self::Error) -> bool;

    /// Decodes the emoji256 string `data` into a value of this type.
    fn from_emoji256(data: &[u8]) -> (r: Result<Self, Self::Error>)
        ensures
            match r {
                Ok(v) => Self::from_emoji256_ok(data@, v),
                Err(e) => Self::from_emoji256_err(data@, e),
            },
    ;
}

impl FromEmoji256 for Vec<u8> {
    type Error = FromEmoji256Error;

    open spec fn from_emoji256_ok(data: Seq<u8>, v: Vec<u8>) -> bool {
        decode_spec(data) == Ok::<Seq<u8>, FromEmoji256Error>(v@)
    }

    open spec fn from_emoji256_err(data: Seq<u8>, e: FromEmoji256Error) -> bool {
        decode_spec(data) == Err::<Seq<u8>, FromEmoji256Error>(e)
    }

    fn from_emoji256(data: &[u8]) -> (r: Result<Vec<u8>, FromEmoji256Error>) {
        decode(data)
    }
}

impl<const N: usize> FromEmoji256 for [u8; N] {
    type Error = FromEmoji256Error;

    open spec fn from_emoji256_ok(data: Seq<u8>, v: [u8; N]) -> bool {
        decode_sized_spec(data, N as int) == Ok::<Seq<u8>, FromEmoji256Error>(v@)
    }

    open spec fn from_emoji256_err(data: Seq<u8>, e: FromEmoji256Error) -> bool {
        decode_sized_spec(data, N as int) == Err::<Seq<u8>, FromEmoji256Error>(e)
    }

    fn from_emoji256(data: &[u8]) -> (r: Result<[u8; N], FromEmoji256Error>) {
        let mut out: [u8; N] = [0u8; N];
        match decode_to_slice(data, &mut out) {
            Ok(()) => Ok(out),
            Err(e) => Err(e),
        }
    }
}

} // verus!
