use vstd::prelude::*;

verus! {

/// Byte order of a multi-byte value on the wire.
#[derive(Clone, Copy, Debug, PartialEq, Eq, Structural)]
pub enum Endianness {
    /// Most significant byte first.
    Big,
    /// Least significant byte first.
    Little,
}

impl Endianness {
    /// The byte order a codec uses for `endian`: the one named, or `Big` where none is.
    pub open spec fn resolve(endian: Option<Endianness>) -> Endianness {
        match endian {
            Some(e) => e,
            None => Endianness::Big,
        }
    }

    /// Computes [`Endianness::resolve`].
    pub fn or_big(endian: Option<Endianness>) -> (e: Endianness)
        ensures
            e == Self::resolve(endian),
    {
        match endian {
            Some(e) => e,
            None => Endianness::Big,
        }
    }
}

impl Default for Endianness {
    fn default() -> (e: Self)
        ensures
            e == Endianness::Big,
    {
        Endianness::Big
    }
}

} // verus!
