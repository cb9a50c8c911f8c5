//! A reversible binary-to-text codec over a fixed 256-symbol emoji alphabet.
//!
//! Every byte value maps to one symbol, a character whose UTF-8 encoding is
//! exactly four bytes long, so the encoded text occupies exactly four storage
//! bytes per input byte.  Decoding walks the text, looks each character up in
//! the sorted symbol table by binary search, and rejects malformed input with
//! a typed error.

pub mod codec;
pub mod error;
pub mod laws;
pub mod table;

pub use codec::decode;
pub use codec::decode_to_slice;
pub use codec::encode;
pub use codec::encode_to_slice;
pub use codec::FromEmoji256;
pub use codec::ToEmoji256;
pub use error::FromEmoji256Error;
pub use table::emo2byte;
pub use table::symbol_for;
