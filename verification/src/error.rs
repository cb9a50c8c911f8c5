//! The decode error type and its verified human-readable rendering.

use vstd::prelude::*;
use vstd::string::StringExecFns;

verus! {

/// The error type for decoding an emoji256 string into bytes.
#[derive(Debug, Clone, Copy, PartialEq)]
pub enum FromEmoji256Error {
    /// The input is not well-formed UTF-8.  `index` is one past the length of
    /// the longest valid prefix.
    InvalidUtf8 { index: usize },
    /// The character `c`, the `index`-th decoded character (0-based, counting
    /// characters rather than bytes), has no entry in the symbol table.
    InvalidEmoji256 { index: usize, c: char },
    /// The input's byte length is not a multiple of 4.
    InvalidSrcLength,
    /// A caller-supplied buffer does not have exactly the required length.
    InvalidDestLength,
}

/// The decimal digit `d` as a character.
pub open spec fn digit_char(d: int) -> char {
    if d == 0 {
        '0'
    } else if d == 1 {
        '1'
    } else if d == 2 {
        '2'
    } else if d == 3 {
        '3'
    } else if d == 4 {
        '4'
    } else if d == 5 {
        '5'
    } else if d == 6 {
        '6'
    } else if d == 7 {
        '7'
    } else if d == 8 {
        '8'
    } else {
        '9'
    }
}

/// The decimal rendering of `n`, most significant digit first.
pub open spec fn dec_chars(n: nat) -> Seq<char>
    decreases n,
    via dec_chars_decreases
{
    if n < 10 {
        seq![digit_char(n as int)]
    } else {
        dec_chars(n / 10) + seq![digit_char((n % 10) as int)]
    }
}

#[via_fn]
proof fn dec_chars_decreases(n: nat) {
    if n >= 10 {
        assert(n / 10 < n) by (nonlinear_arith)
            requires
                n >= 10,
        ;
    }
}

/// The debug rendering of a character, single quotes included: what `{:?}`
/// prints for it.  The full escaping rules (which characters count as
/// printable) run to pages, so the rendering is only named here; it is a
/// function of the character alone.
pub uninterp spec fn debug_escape_of(c: char) -> Seq<char>;

/// The exact text of each error's message.
pub open spec fn message_chars(e: FromEmoji256Error) -> Seq<char> {
    match e {
        FromEmoji256Error::InvalidUtf8 { index } => "Invalid character at position "@ + dec_chars(
            index as nat,
        ),
        FromEmoji256Error::InvalidEmoji256 { index, c } => "Invalid character "@
            + debug_escape_of(c) + " at position "@ + dec_chars(index as nat),
        FromEmoji256Error::InvalidSrcLength => "Source buffer length is not multiple of 4"@,
        FromEmoji256Error::InvalidDestLength => "Destination buffer length is not multiple of 4."@,
    }
}

/// Relies on char's Debug implementation (char::escape_debug behind `{:?}`):
/// the quoted, escaped rendering of a character is a function of the
/// character alone.
#[verifier::external_body]
fn debug_escape(c: char) -> (r: String)
    ensures
        r@ == debug_escape_of(c),
{
    format!("{:?}", c)
}

/// The decimal digit `d` as a one-character string slice.
fn digit_str(d: u8) -> (r: &'static str)
    requires
        d < 10,
    ensures
        r@ == seq![digit_char(d as int)],
{
    if d == 0 {
        proof {
            reveal_strlit("0");
        }
        "0"
    } else if d == 1 {
        proof {
            reveal_strlit("1");
        }
        "1"
    } else if d == 2 {
        proof {
            reveal_strlit("2");
        }
        "2"
    } else if d == 3 {
        proof {
            reveal_strlit("3");
        }
        "3"
    } else if d == 4 {
        proof {
            reveal_strlit("4");
        }
        "4"
    } else if d == 5 {
        proof {
            reveal_strlit("5");
        }
        "5"
    } else if d == 6 {
        proof {
            reveal_strlit("6");
        }
        "6"
    } else if d == 7 {
        proof {
            reveal_strlit("7");
        }
        "7"
    } else if d == 8 {
        proof {
            reveal_strlit("8");
        }
        "8"
    } else {
        proof {
            reveal_strlit("9");
        }
        "9"
    }
}

/// Appends the decimal rendering of `n` to `s`.
fn append_dec(s: &mut String, n: usize)
    ensures
        final(s)@ == old(s)@ + dec_chars(n as nat),
    decreases n,
{
    let ghost prefix = s@;
    if n >= 10 {
        append_dec(s, n / 10);
    }
    let d = (n % 10) as u8;
    s.append(digit_str(d));
    proof {
        if n >= 10 {
            assert(prefix + (dec_chars((n / 10) as nat) + seq![digit_char((n % 10) as int)])
                =~= (prefix + dec_chars((n / 10) as nat)) + seq![digit_char((n % 10) as int)]);
        }
    }
}

impl FromEmoji256Error {
    /// The error's human-readable message, exactly as `message_chars` states.
    pub fn message(&self) -> (r: String)
        ensures
            r@ == message_chars(*self),
    {
        match *self {
            FromEmoji256Error::InvalidUtf8 { index } => {
                let mut s = "Invalid character at position ".to_owned();
                append_dec(&mut s, index);
                s
            },
            FromEmoji256Error::InvalidEmoji256 { index, c } => {
                let mut s = "Invalid character ".to_owned();
                let rendered = debug_escape(c);
                s.append(rendered.as_str());
                s.append(" at position ");
                append_dec(&mut s, index);
                proof {
                    assert((("Invalid character "@ + debug_escape_of(c)) + " at position "@)
                        + dec_chars(index as nat) =~= "Invalid character "@ + debug_escape_of(c)
                        + " at position "@ + dec_chars(index as nat));
                }
                s
            },
            FromEmoji256Error::InvalidSrcLength => "Source buffer length is not multiple of 4".to_owned(),
            FromEmoji256Error::InvalidDestLength => "Destination buffer length is not multiple of 4.".to_owned(),
        }
    }
}

} // verus!
