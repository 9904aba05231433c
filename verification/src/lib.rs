//! Arithmetic in a tower of binary fields.
//!
//! A field element is a bit sequence whose length is a power of two:
//! an element of length `2 * m` splits into a low half and a high half,
//! read as `low + high * g`, where `g` is the generator adjoined at the
//! top extension level.  The four operations — addition, multiplication
//! by the generator, multiplication, and inversion — recurse over that
//! structure, and each is verified against a closed-form definition on
//! bit sequences.

pub mod arithmetic;
pub mod laws;
pub mod parser;
