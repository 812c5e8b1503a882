use vstd::prelude::*;

verus! {

/// Everything that can go wrong while decoding a DNS message. A failed
/// decode only ever drops the one packet concerned; it is never fatal to
/// the surrounding system.
#[derive(Debug, Clone, PartialEq, Eq)]
pub enum ParserError {
    /// The fixed-size header could not be read; the payload says why.
    HeaderError(&'static str),
    /// A length, offset or field extends past the end of the packet.
    UnexpectedEOP,
    /// A decoded name is not valid UTF-8.
    LabelIsNotUTF8,
    /// A record carries a type number outside the known registry.
    UnknownRType(u16),
}

} // verus!
