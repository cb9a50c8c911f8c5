//! The fixed symbol table: a strictly increasing map from byte values to
//! emoji code points, together with the inverse lookup by binary search.

use vstd::prelude::*;
use vstd::utf8::has_width_4_encoding;
use vstd::utf8::is_scalar;

verus! {

/// Code point of the symbol that stands for byte value `b`.
///
/// The table is a piecewise-contiguous run of emoji code points, strictly
/// increasing with `b`, and every entry lies in the supplementary planes, so
/// each symbol occupies exactly four bytes of UTF-8 storage.
pub open spec fn symbol_code(b: int) -> u32 {
    if b == 0 {
        0x1F300
    } else if b == 1 {
        0x1F308
    } else if b == 2 {
        0x1F30A
    } else if b <= 9 {
        (0x1F319 + (b - 3)) as u32
    } else if b <= 15 {
        (0x1F337 + (b - 10)) as u32
    } else if b <= 31 {
        (0x1F33F + (b - 16)) as u32
    } else if b <= 71 {
        (0x1F37B + (b - 32)) as u32
    } else if b <= 96 {
        (0x1F44A + (b - 72)) as u32
    } else if b <= 105 {
        (0x1F497 + (b - 97)) as u32
    } else if b <= 118 {
        (0x1F4A1 + (b - 106)) as u32
    } else if b <= 187 {
        (0x1F4B8 + (b - 119)) as u32
    } else {
        (0x1F600 + (b - 188)) as u32
    }
}

/// The symbol (as a character) that stands for byte value `b`.
pub open spec fn symbol_char(b: u8) -> char {
    symbol_code(b as int) as char
}

/// Every table entry is an emoji code point between U+1F300 and U+1F643.
pub proof fn lemma_symbol_code_bounds(b: int)
    requires
        0 <= b < 256,
    ensures
        0x1F300 <= symbol_code(b) <= 0x1F643,
        is_scalar(symbol_code(b)),
        has_width_4_encoding(symbol_code(b)),
{
}

/// The table is sorted: symbol code points strictly increase with the byte value.
pub proof fn lemma_symbol_codes_sorted(i: int, j: int)
    requires
        0 <= i < j < 256,
    ensures
        symbol_code(i) < symbol_code(j),
{
}

/// The table is injective: no two byte values share a symbol.
pub proof fn lemma_symbol_code_injective(i: int, j: int)
    requires
        0 <= i < 256,
        0 <= j < 256,
        symbol_code(i) == symbol_code(j),
    ensures
        i == j,
{
    if i < j {
        lemma_symbol_codes_sorted(i, j);
    } else if j < i {
        lemma_symbol_codes_sorted(j, i);
    }
}

/// A symbol character casts back to exactly its table code point.
pub proof fn lemma_symbol_char_code(b: u8)
    ensures
        symbol_char(b) as u32 == symbol_code(b as int),
        has_width_4_encoding(symbol_char(b) as u32),
{
    lemma_symbol_code_bounds(b as int);
}

/// Computes the table code point for byte value `b`.
pub fn symbol_code_of(b: u8) -> (v: u32)
    ensures
        v == symbol_code(b as int),
{
    if b == 0 {
        0x1F300
    } else if b == 1 {
        0x1F308
    } else if b == 2 {
        0x1F30A
    } else if b <= 9 {
        0x1F319 + (b as u32 - 3)
    } else if b <= 15 {
        0x1F337 + (b as u32 - 10)
    } else if b <= 31 {
        0x1F33F + (b as u32 - 16)
    } else if b <= 71 {
        0x1F37B + (b as u32 - 32)
    } else if b <= 96 {
        0x1F44A + (b as u32 - 72)
    } else if b <= 105 {
        0x1F497 + (b as u32 - 97)
    } else if b <= 118 {
        0x1F4A1 + (b as u32 - 106)
    } else if b <= 187 {
        0x1F4B8 + (b as u32 - 119)
    } else {
        0x1F600 + (b as u32 - 188)
    }
}

/// Relies on char::from_u32: for a value below the surrogate range or between
/// it and 0x10FFFF, it returns `Some` of the character with exactly that
/// scalar value.  The precondition rules out `None`, so `unwrap` cannot panic.
#[verifier::external_body]
pub(crate) fn char_of_scalar(v: u32) -> (c: char)
    requires
        is_scalar(v),
    ensures
        c as u32 == v,
{
    char::from_u32(v).unwrap()
}

/// The symbol that stands for byte value `b` (an array lookup in spirit;
/// the table is contiguous enough to compute the entry directly).
pub fn symbol_for(b: u8) -> (c: char)
    ensures
        c == symbol_char(b),
{
    proof {
        lemma_symbol_code_bounds(b as int);
    }
    let v = symbol_code_of(b);
    char_of_scalar(v)
}

/// True when some table entry has code point `v`.
pub open spec fn is_symbol_code(v: u32) -> bool {
    exists|b: int| 0 <= b < 256 && symbol_code(b) == v
}

/// The byte value whose table entry has code point `v` (meaningful only when
/// `is_symbol_code(v)` holds).
pub open spec fn byte_for_code(v: u32) -> u8 {
    (choose|b: int| 0 <= b < 256 && symbol_code(b) == v) as u8
}

/// The byte value that character `c` stands for, or `None` when `c` is not in
/// the table.
pub open spec fn byte_of_char(c: char) -> Option<u8> {
    if is_symbol_code(c as u32) {
        Some(byte_for_code(c as u32))
    } else {
        None
    }
}

/// Looking a symbol up by its character recovers exactly the byte it encodes.
pub proof fn lemma_symbol_bijection(v: u8)
    ensures
        byte_of_char(symbol_char(v)) == Some(v),
{
    lemma_symbol_char_code(v);
    assert(is_symbol_code(symbol_char(v) as u32));
    let b = choose|b: int| 0 <= b < 256 && symbol_code(b) == symbol_char(v) as u32;
    lemma_symbol_code_injective(b, v as int);
}

/// Binary search for code point `v` over the table slice `[low, high)`.
fn binary_search(v: u32, low: usize, high: usize) -> (r: Option<u8>)
    requires
        low <= high <= 256,
        forall|b: int| 0 <= b < 256 && symbol_code(b) == v ==> low <= b < high,
    ensures
        match r {
            Some(b) => symbol_code(b as int) == v,
            None => !is_symbol_code(v),
        },
    decreases high - low,
{
    if low >= high {
        return None;
    }
    let mid = low + (high - low) / 2;
    let mv = symbol_code_of(mid as u8);
    if v < mv {
        proof {
            assert forall|b: int| 0 <= b < 256 && symbol_code(b) == v implies low <= b < mid by {
                if b >= mid && b > mid as int {
                    lemma_symbol_codes_sorted(mid as int, b);
                }
            }
        }
        binary_search(v, low, mid)
    } else if v == mv {
        Some(mid as u8)
    } else {
        proof {
            assert forall|b: int| 0 <= b < 256 && symbol_code(b) == v implies mid + 1 <= b
                < high by {
                if b < mid as int {
                    lemma_symbol_codes_sorted(b, mid as int);
                }
            }
        }
        binary_search(v, mid + 1, high)
    }
}

/// The inverse table lookup: the byte value that character `c` stands for.
pub fn emo2byte(c: char) -> (r: Option<u8>)
    ensures
        r == byte_of_char(c),
{
    let r = binary_search(c as u32, 0, 256);
    proof {
        match r {
            Some(b) => {
                assert(is_symbol_code(c as u32));
                let w = choose|w: int| 0 <= w < 256 && symbol_code(w) == c as u32;
                lemma_symbol_code_injective(w, b as int);
            },
            None => {},
        }
    }
    r
}

} // verus!
