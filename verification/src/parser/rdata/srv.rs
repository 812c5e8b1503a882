use crate::parser::bytes::be16;
use crate::parser::bytes::read_be16;
use crate::parser::error::ParserError;
use crate::parser::qname::spec_read_qname;
use crate::parser::qname::Qname;
use vstd::prelude::*;

verus! {

/// An SRV record: priority, weight, port, and the target host name.
#[derive(Debug, PartialEq, Eq)]
pub struct Record {
    priority: u16,
    weight: u16,
    port: u16,
    target: String,
}

/// The mathematical shape of an SRV record.
pub struct SrvView {
    pub priority: u16,
    pub weight: u16,
    pub port: u16,
    pub target: Seq<char>,
}

impl View for Record {
    type V = SrvView;

    closed spec fn view(&self) -> SrvView {
        SrvView {
            priority: self.priority,
            weight: self.weight,
            port: self.port,
            target: self.target@,
        }
    }
}

/// Three big-endian 16-bit fields and then a name; the name's compression
/// pointers resolve against the whole message.
pub open spec fn spec_parse_srv(data: Seq<u8>, orig: Seq<u8>) -> Result<SrvView, ParserError> {
    if data.len() < 6 {
        Err(ParserError::UnexpectedEOP)
    } else {
        match spec_read_qname(data.skip(6), orig) {
            Ok(p) => Ok(
                SrvView {
                    priority: be16(data[0], data[1]),
                    weight: be16(data[2], data[3]),
                    port: be16(data[4], data[5]),
                    target: p.0,
                },
            ),
            Err(e) => Err(e),
        }
    }
}

impl Record {
    /// Decodes an SRV record from the rdata.
    pub fn parse(data: &[u8], original: &[u8]) -> (r: Result<Record, ParserError>)
        ensures
            match spec_parse_srv(data@, original@) {
                Ok(v) => r matches Ok(rec) && rec@ == v,
                Err(e) => r == Err::<Record, ParserError>(e),
            },
    {
        if data.len() < 6 {
            return Err(ParserError::UnexpectedEOP);
        }
        let priority = read_be16(data, 0);
        let weight = read_be16(data, 2);
        let port = read_be16(data, 4);
        let rest = &data[6..data.len()];
        proof {
            assert(rest@ =~= data@.skip(6));
        }
        let (target, _) = match Qname::read(rest, original) {
            Ok(p) => p,
            Err(e) => {
                return Err(e);
            },
        };
        Ok(Record { priority, weight, port, target })
    }
}

} // verus!
