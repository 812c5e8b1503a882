use crate::parser::error::ParserError;
use vstd::prelude::*;

verus! {

/// An AAAA record: one IPv6 address, stored as its sixteen wire bytes.
#[derive(Debug, PartialEq, Eq)]
pub struct Record {
    pub address: [u8; 16],
}

impl View for Record {
    type V = Seq<u8>;

    open spec fn view(&self) -> Seq<u8> {
        self.address@
    }
}

/// The first sixteen bytes of the rdata, or `UnexpectedEOP` when fewer are
/// there.
pub open spec fn spec_parse_aaaa(data: Seq<u8>) -> Result<Seq<u8>, ParserError> {
    if data.len() < 16 {
        Err(ParserError::UnexpectedEOP)
    } else {
        Ok(data.subrange(0, 16))
    }
}

impl Record {
    /// Decodes an IPv6 address from the front of the rdata.
    pub fn parse(data: &[u8], _original: &[u8]) -> (r: Result<Record, ParserError>)
        ensures
            match spec_parse_aaaa(data@) {
                Ok(v) => r matches Ok(rec) && rec@ == v,
                Err(e) => r == Err::<Record, ParserError>(e),
            },
    {
        if data.len() < 16 {
            return Err(ParserError::UnexpectedEOP);
        }
        let address: [u8; 16] = [
            data[0],
            data[1],
            data[2],
            data[3],
            data[4],
            data[5],
            data[6],
            data[7],
            data[8],
            data[9],
            data[10],
            data[11],
            data[12],
            data[13],
            data[14],
            data[15],
        ];
        proof {
            assert(address@ =~= data@.subrange(0, 16));
        }
        Ok(Record { address })
    }
}

} // verus!
