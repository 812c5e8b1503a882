use crate::parser::error::ParserError;
use vstd::prelude::*;
use vstd::slice::slice_to_vec;

verus! {

/// A TXT record: the raw rdata bytes, kept without interpretation.
#[derive(Debug, PartialEq, Eq)]
pub struct Record {
    sets: Vec<u8>,
}

impl View for Record {
    type V = Seq<u8>;

    closed spec fn view(&self) -> Seq<u8> {
        self.sets@
    }
}

/// TXT rdata is kept as it came; this never fails.
pub open spec fn spec_parse_txt(data: Seq<u8>) -> Result<Seq<u8>, ParserError> {
    Ok(data)
}

impl Record {
    /// Copies the rdata bytes.
    pub fn parse(data: &[u8], _original: &[u8]) -> (r: Result<Record, ParserError>)
        ensures
            match spec_parse_txt(data@) {
                Ok(v) => r matches Ok(rec) && rec@ == v,
                Err(e) => r == Err::<Record, ParserError>(e),
            },
    {
        Ok(Record { sets: slice_to_vec(data) })
    }
}

} // verus!
