use crate::parser::error::ParserError;
use vstd::prelude::*;

verus! {

/// An A record: one IPv4 address, stored as its four wire bytes.
#[derive(Debug, PartialEq, Eq)]
pub struct Record {
    pub address: [u8; 4],
}

impl View for Record {
    type V = Seq<u8>;

    open spec fn view(&self) -> Seq<u8> {
        self.address@
    }
}

/// The first four bytes of the rdata, or `UnexpectedEOP` when fewer are
/// there.
pub open spec fn spec_parse_a(data: Seq<u8>) -> Result<Seq<u8>, ParserError> {
    if data.len() < 4 {
        Err(ParserError::UnexpectedEOP)
    } else {
        Ok(data.subrange(0, 4))
    }
}

impl Record {
    /// Decodes an IPv4 address from the front of the rdata.
    pub fn parse(data: &[u8], _original: &[u8]) -> (r: Result<Record, ParserError>)
        ensures
            match spec_parse_a(data@) {
                Ok(v) => r matches Ok(rec) && rec@ == v,
                Err(e) => r == Err::<Record, ParserError>(e),
            },
    {
        if data.len() < 4 {
            return Err(ParserError::UnexpectedEOP);
        }
        let address: [u8; 4] = [data[0], data[1], data[2], data[3]];
        proof {
            assert(address@ =~= data@.subrange(0, 4));
        }
        Ok(Record { address })
    }
}

} // verus!
