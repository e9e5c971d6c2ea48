//! The textual wire format.
//!
//! Snapshots, action batches and spatial-query messages travel as one JSON
//! object (or array) per line. The format is fixed: object keys in
//! declaration order, numbers in decimal with exactly three fractional
//! digits for fixed-point values, names as unescaped printable ASCII.
//! Serializers emit exactly that canonical form; parsers accept it plus
//! harmless variation in numbers (missing or shorter fractions), and
//! reject everything else, byte for byte.
//!
//! Every serializer is specified against a spec-level byte sequence, every
//! parser against a spec-level parse function, and round-trip lemmas prove
//! that parsing a serialized value yields the value back.

pub mod lits;
pub mod messages;
pub mod prims;
pub mod records;
pub mod snapshot;
