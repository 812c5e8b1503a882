use crate::parser::error::ParserError;
use crate::parser::qname::spec_read_qname;
use crate::parser::qname::Qname;
use vstd::prelude::*;

verus! {

/// A CNAME record: the canonical name the owner is an alias for.
#[derive(Debug, PartialEq, Eq)]
pub struct Record {
    domain_name: String,
}

impl View for Record {
    type V = Seq<char>;

    closed spec fn view(&self) -> Seq<char> {
        self.domain_name@
    }
}

/// The name at the front of the rdata; its compression pointers resolve
/// against the whole message.
pub open spec fn spec_parse_cname(data: Seq<u8>, orig: Seq<u8>) -> Result<Seq<char>, ParserError> {
    match spec_read_qname(data, orig) {
        Ok(p) => Ok(p.0),
        Err(e) => Err(e),
    }
}

impl Record {
    /// Decodes the canonical name from the front of the rdata.
    pub fn parse(data: &[u8], original: &[u8]) -> (r: Result<Record, ParserError>)
        ensures
            match spec_parse_cname(data@, original@) {
                Ok(v) => r matches Ok(rec) && rec@ == v,
                Err(e) => r == Err::<Record, ParserError>(e),
            },
    {
        let (domain_name, _) = match Qname::read(data, original) {
            Ok(p) => p,
            Err(e) => {
                return Err(e);
            },
        };
        Ok(Record { domain_name })
    }
}

} // verus!
