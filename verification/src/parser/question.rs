use crate::parser::bytes::be16;
use crate::parser::bytes::read_be16;
use crate::parser::error::ParserError;
use crate::parser::qname::spec_read_qname;
use crate::parser::qname::Qname;
use vstd::prelude::*;

verus! {

/// One entry of the question section.
#[derive(Debug, Default, PartialEq, Eq)]
pub struct Question {
    pub qname: String,
    pub qtype: u16,
    pub unicast_preferred: bool,
    pub qclass: u16,
}

/// The mathematical shape of a question: the name as text, and the
/// decoded fields.
#[verifier::ext_equal]
pub struct QuestionView {
    pub qname: Seq<char>,
    pub qtype: u16,
    pub unicast_preferred: bool,
    pub qclass: u16,
}

impl View for Question {
    type V = QuestionView;

    open spec fn view(&self) -> QuestionView {
        QuestionView {
            qname: self.qname@,
            qtype: self.qtype,
            unicast_preferred: self.unicast_preferred,
            qclass: self.qclass,
        }
    }
}

/// The question at the front of `data` and how many bytes of `data` it
/// occupies: a name, a two-byte type, and a two-byte class whose top bit
/// is the mDNS unicast-response flag, masked off before the class is kept.
pub open spec fn spec_parse_question(data: Seq<u8>, orig: Seq<u8>) -> Result<
    (QuestionView, int),
    ParserError,
> {
    match spec_read_qname(data, orig) {
        Ok(p) => {
            let read = p.1;
            if read + 4 > data.len() {
                Err(ParserError::UnexpectedEOP)
            } else {
                let qtype = be16(data[read], data[read + 1]);
                let raw_class = be16(data[read + 2], data[read + 3]);
                Ok(
                    (
                        QuestionView {
                            qname: p.0,
                            qtype: qtype,
                            unicast_preferred: raw_class & 0x8000 == 0x8000,
                            qclass: raw_class & 0x7fff,
                        },
                        read + 4,
                    ),
                )
            }
        },
        Err(e) => Err(e),
    }
}

/// A successful question decode consumed at least one byte of `data` and
/// no more than all of it.
pub proof fn lemma_parse_question_consumed(data: Seq<u8>, orig: Seq<u8>)
    requires
        spec_parse_question(data, orig) is Ok,
    ensures
        0 < spec_parse_question(data, orig)->Ok_0.1 <= data.len(),
{
    crate::parser::qname::lemma_read_qname_consumed(data, orig);
}

impl Question {
    /// Decodes the question at the front of `data`; compression pointers in
    /// the name resolve against `original`.
    pub fn parse(data: &[u8], original: &[u8]) -> (r: Result<(Question, usize), ParserError>)
        ensures
            match spec_parse_question(data@, original@) {
                Ok(p) => r matches Ok(q) && q.0@ == p.0 && q.1 == p.1,
                Err(e) => r == Err::<(Question, usize), ParserError>(e),
            },
    {
        let (qname, read) = match Qname::read(data, original) {
            Ok(p) => p,
            Err(e) => {
                return Err(e);
            },
        };
        if data.len() < 4 || read > data.len() - 4 {
            return Err(ParserError::UnexpectedEOP);
        }
        let qtype = read_be16(data, read);
        let raw_class = read_be16(data, read + 2);

        Ok(
            (
                Question {
                    qname,
                    qtype,
                    unicast_preferred: raw_class & 0x8000 == 0x8000,
                    qclass: raw_class & 0x7fff,
                },
                read + 4,
            ),
        )
    }
}

} // verus!
