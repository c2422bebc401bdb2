use vstd::prelude::*;

verus! {

/// Why a stream operation or a codec gave up.
#[derive(Clone, Copy, Debug, PartialEq, Eq, Structural)]
pub enum CodecError {
    /// The operation would have touched bytes past the end of the buffer.
    OutOfBounds,
    /// A variable-length integer ran on past the number of groups its width allows.
    VarIntTooLarge,
    /// An identifier's text is not 32 hexadecimal digits once its hyphens are removed.
    InvalidFormat,
}

} // verus!
