use crate::parser::bytes::be16;
use crate::parser::bytes::read_be16;
use crate::parser::error::ParserError;
use vstd::prelude::*;

verus! {

/// The reason reported when a packet is too short to hold a header.
pub const HEADER_TOO_SHORT: &'static str = "input is shorter than the 12 byte header";

/// The fixed 12-byte DNS message header: the transaction id, the packed
/// flags word, and the four section counts, all big-endian.
#[derive(Debug, Default, Clone, Copy, PartialEq, Eq, Structural)]
pub struct Header {
    pub id: u16,
    pub fields: u16,
    pub qd_count: u16,
    pub an_count: u16,
    pub ns_count: u16,
    pub ar_count: u16,
}

/// The header encoded in the first 12 bytes of `data`, or `HeaderError`
/// when fewer than 12 bytes are there.
pub open spec fn spec_parse_header(data: Seq<u8>) -> Result<Header, ParserError> {
    if data.len() < 12 {
        Err(ParserError::HeaderError(HEADER_TOO_SHORT))
    } else {
        Ok(
            Header {
                id: be16(data[0], data[1]),
                fields: be16(data[2], data[3]),
                qd_count: be16(data[4], data[5]),
                an_count: be16(data[6], data[7]),
                ns_count: be16(data[8], data[9]),
                ar_count: be16(data[10], data[11]),
            },
        )
    }
}

impl Header {
    /// Decodes the fixed header from the front of `data`.
    pub fn parse(data: &[u8]) -> (r: Result<Header, ParserError>)
        ensures
            r == spec_parse_header(data@),
    {
        if data.len() < 12 {
            return Err(ParserError::HeaderError(HEADER_TOO_SHORT));
        }
        Ok(
            Header {
                id: read_be16(data, 0),
                fields: read_be16(data, 2),
                qd_count: read_be16(data, 4),
                an_count: read_be16(data, 6),
                ns_count: read_be16(data, 8),
                ar_count: read_be16(data, 10),
            },
        )
    }

    /// The query/response bit: set on responses.
    pub fn qr(&self) -> (r: bool)
        ensures
            r == (self.fields >> 15 & 1 == 1),
    {
        (self.fields >> 15) & 1 == 1
    }

    /// The four-bit operation code.
    pub fn opcode(&self) -> (r: u8)
        ensures
            r == (self.fields >> 11 & 0xf) as u8,
    {
        ((self.fields >> 11) & 0xf) as u8
    }

    /// The authoritative-answer bit.
    pub fn aa(&self) -> (r: bool)
        ensures
            r == (self.fields >> 10 & 1 == 1),
    {
        (self.fields >> 10) & 1 == 1
    }

    /// The truncation bit.
    pub fn tc(&self) -> (r: bool)
        ensures
            r == (self.fields >> 9 & 1 == 1),
    {
        (self.fields >> 9) & 1 == 1
    }

    /// The recursion-desired bit.
    pub fn rd(&self) -> (r: bool)
        ensures
            r == (self.fields >> 8 & 1 == 1),
    {
        (self.fields >> 8) & 1 == 1
    }

    /// The recursion-available bit.
    pub fn ra(&self) -> (r: bool)
        ensures
            r == (self.fields >> 7 & 1 == 1),
    {
        (self.fields >> 7) & 1 == 1
    }

    /// The three reserved bits.
    pub fn z(&self) -> (r: u8)
        ensures
            r == (self.fields >> 4 & 7) as u8,
    {
        ((self.fields >> 4) & 7) as u8
    }

    /// The four-bit response code.
    pub fn rcode(&self) -> (r: u8)
        ensures
            r == (self.fields & 0xf) as u8,
    {
        (self.fields & 0xf) as u8
    }

    /// How many bytes the wire header occupies.
    pub fn size() -> (r: usize)
        ensures
            r == 12,
    {
        12
    }
}

} // verus!
