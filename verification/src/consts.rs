use vstd::prelude::*;

verus! {

/// Byte order used when a value is written to or read from bytes.
#[derive(Clone, Copy, Debug, PartialEq, Eq, Structural)]
pub enum Endianness {
    Big,
    Little,
}

} // verus!
