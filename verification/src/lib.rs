//! Reading Ion binary data and fingerprinting Ion values.
//!
//! The primitive decoder (`binary_parser`) reads VarUInt, VarInt, UInt, Int
//! and value headers at a cursor; `binary_encoder` writes the same encodings,
//! and proves that what it writes is read back. `value_format` states, as
//! functions of the bytes, which value stands where; `ion_parser` decodes
//! values accordingly and keeps the symbol context (`symbol_table`,
//! `local_symbol_table`) of the stream. `binary_form` states the binary form
//! of a value and proves that the decoder reads each value back from it.
//! `ion_hash_encoder` serializes a value in its canonical form, and `ion_hash`
//! folds digests of such serializations into one with an order-independent
//! operator, over the digest primitives of `hasher`.

pub mod binary_encoder;
pub mod binary_form;
pub mod binary_parser;
pub mod binary_parser_types;
pub mod hasher;
pub mod ion_hash;
pub mod ion_hash_encoder;
pub mod ion_hash_order;
pub mod ion_parser;
pub mod ion_parser_types;
pub mod local_symbol_table;
pub mod numbers;
pub mod symbol_table;
pub mod value_format;

pub use hasher::{Hasher, Sha256, Sha512};
pub use ion_hash::IonHash;
pub use ion_parser::IonParser;
pub use ion_parser_types::{IonParserError, IonValue, NullIonValue};
