use crate::parser::error::ParserError;
use crate::parser::header::spec_parse_header;
use crate::parser::header::Header;
use crate::parser::question::lemma_parse_question_consumed;
use crate::parser::question::spec_parse_question;
use crate::parser::question::Question;
use crate::parser::question::QuestionView;
use crate::parser::resource_record::lemma_parse_rr_consumed;
use crate::parser::resource_record::spec_parse_rr;
use crate::parser::resource_record::RecordView;
use crate::parser::resource_record::ResourceRecord;
use vstd::prelude::*;

verus! {

/// A decoded DNS message: the header and the question and answer sections.
/// The authority and additional sections are not decoded; forwarding reads
/// only questions and answers.
#[derive(Debug, PartialEq, Eq)]
pub struct DnsMessage {
    pub header: Header,
    pub questions: Vec<Question>,
    pub answers: Vec<ResourceRecord>,
}

/// The mathematical shape of a decoded message.
#[verifier::ext_equal]
pub struct MessageView {
    pub header: Header,
    pub questions: Seq<QuestionView>,
    pub answers: Seq<RecordView>,
}

/// The views of a sequence of questions.
pub open spec fn question_views(qs: Seq<Question>) -> Seq<QuestionView> {
    qs.map_values(|q: Question| q@)
}

/// The views of a sequence of resource records.
pub open spec fn record_views(rs: Seq<ResourceRecord>) -> Seq<RecordView> {
    rs.map_values(|r: ResourceRecord| r@)
}

impl View for DnsMessage {
    type V = MessageView;

    open spec fn view(&self) -> MessageView {
        MessageView {
            header: self.header,
            questions: question_views(self.questions@),
            answers: record_views(self.answers@),
        }
    }
}

/// `count` questions read one after another starting at `off` in the
/// message buffer, and the offset just past the last of them.
pub open spec fn spec_parse_questions(orig: Seq<u8>, off: int, count: nat) -> Result<
    (Seq<QuestionView>, int),
    ParserError,
>
    decreases count,
{
    if count == 0 {
        Ok((Seq::empty(), off))
    } else {
        match spec_parse_question(orig.skip(off), orig) {
            Err(e) => Err(e),
            Ok(p) => match spec_parse_questions(orig, off + p.1, (count - 1) as nat) {
                Ok(q) => Ok((seq![p.0] + q.0, q.1)),
                Err(e) => Err(e),
            },
        }
    }
}

/// `count` resource records read one after another starting at `off` in
/// the message buffer, and the offset just past the last of them.
pub open spec fn spec_parse_records(orig: Seq<u8>, off: int, count: nat) -> Result<
    (Seq<RecordView>, int),
    ParserError,
>
    decreases count,
{
    if count == 0 {
        Ok((Seq::empty(), off))
    } else {
        match spec_parse_rr(orig.skip(off), orig) {
            Err(e) => Err(e),
            Ok(p) => match spec_parse_records(orig, off + p.1, (count - 1) as nat) {
                Ok(q) => Ok((seq![p.0] + q.0, q.1)),
                Err(e) => Err(e),
            },
        }
    }
}

/// A successful run of question reads starts where it was asked to and
/// ends inside the buffer.
pub proof fn lemma_parse_questions_consumed(orig: Seq<u8>, off: int, count: nat)
    requires
        0 <= off <= orig.len(),
        spec_parse_questions(orig, off, count) is Ok,
    ensures
        off <= spec_parse_questions(orig, off, count)->Ok_0.1 <= orig.len(),
    decreases count,
{
    if count > 0 {
        if let Ok(p) = spec_parse_question(orig.skip(off), orig) {
            lemma_parse_question_consumed(orig.skip(off), orig);
            lemma_parse_questions_consumed(orig, off + p.1, (count - 1) as nat);
        }
    }
}

/// A successful run of record reads starts where it was asked to and ends
/// inside the buffer.
pub proof fn lemma_parse_records_consumed(orig: Seq<u8>, off: int, count: nat)
    requires
        0 <= off <= orig.len(),
        spec_parse_records(orig, off, count) is Ok,
    ensures
        off <= spec_parse_records(orig, off, count)->Ok_0.1 <= orig.len(),
    decreases count,
{
    if count > 0 {
        if let Ok(p) = spec_parse_rr(orig.skip(off), orig) {
            lemma_parse_rr_consumed(orig.skip(off), orig);
            lemma_parse_records_consumed(orig, off + p.1, (count - 1) as nat);
        }
    }
}

/// The offset just past the answer section, for a buffer whose message
/// parses; for any other buffer, zero.
pub open spec fn spec_message_end(data: Seq<u8>) -> int {
    match spec_parse_header(data) {
        Err(_) => 0,
        Ok(h) => match spec_parse_questions(data, 12, h.qd_count as nat) {
            Err(_) => 0,
            Ok(qp) => match spec_parse_records(data, qp.1, h.an_count as nat) {
                Err(_) => 0,
                Ok(ap) => ap.1,
            },
        },
    }
}

/// The whole message: the header, then as many questions and answers as
/// the header counts announce. Bytes past the answer section are ignored.
pub open spec fn spec_parse_message(data: Seq<u8>) -> Result<MessageView, ParserError> {
    match spec_parse_header(data) {
        Err(e) => Err(e),
        Ok(h) => match spec_parse_questions(data, 12, h.qd_count as nat) {
            Err(e) => Err(e),
            Ok(qp) => match spec_parse_records(data, qp.1, h.an_count as nat) {
                Err(e) => Err(e),
                Ok(ap) => Ok(MessageView { header: h, questions: qp.0, answers: ap.0 }),
            },
        },
    }
}

/// What a message decodes to depends on the bytes alone: parsing equal
/// buffers gives equal results, so parsing one immutable buffer twice
/// gives structurally equal messages.
pub proof fn lemma_parse_deterministic(d1: Seq<u8>, d2: Seq<u8>)
    requires
        d1 == d2,
    ensures
        spec_parse_message(d1) == spec_parse_message(d2),
{
}

impl DnsMessage {
    /// Decodes a whole DNS message from a packet's payload.
    #[verifier::loop_isolation(false)]
    pub fn parse(data: &[u8]) -> (r: Result<DnsMessage, ParserError>)
        ensures
            match spec_parse_message(data@) {
                Ok(v) => r matches Ok(m) && m@ == v,
                Err(e) => r == Err::<DnsMessage, ParserError>(e),
            },
    {
        let header = match Header::parse(data) {
            Ok(h) => h,
            Err(e) => {
                return Err(e);
            },
        };
        let mut off: usize = 12;
        let mut questions: Vec<Question> = Vec::new();
        let mut k: u16 = 0;
        proof {
            assert(question_views(Seq::empty()) =~= Seq::<QuestionView>::empty());
        }
        while k < header.qd_count
            invariant
                off <= data@.len(),
                k <= header.qd_count,
                match spec_parse_questions(data@, off as int, (header.qd_count - k) as nat) {
                    Ok(p) => spec_parse_questions(data@, 12, header.qd_count as nat) matches Ok(q)
                        && q.0 == question_views(questions@) + p.0 && q.1 == p.1,
                    Err(e) => spec_parse_questions(data@, 12, header.qd_count as nat) == Err::<
                        (Seq<QuestionView>, int),
                        ParserError,
                    >(e),
                },
            decreases header.qd_count - k,
        {
            let sub = &data[off..data.len()];
            proof {
                assert(sub@ =~= data@.skip(off as int));
            }
            let (q, used) = match Question::parse(sub, data) {
                Ok(p) => p,
                Err(e) => {
                    return Err(e);
                },
            };
            proof {
                lemma_parse_question_consumed(sub@, data@);
                let qv = spec_parse_question(sub@, data@)->Ok_0.0;
                assert(question_views(questions@.push(q)) =~= question_views(questions@) + seq![
                    qv,
                ]);
                let next = spec_parse_questions(
                    data@,
                    off + used as int,
                    (header.qd_count - k - 1) as nat,
                );
                if next is Ok {
                    assert(question_views(questions@) + (seq![qv] + next->Ok_0.0)
                        =~= question_views(questions@.push(q)) + next->Ok_0.0);
                }
            }
            questions.push(q);
            off = off + used;
            k = k + 1;
        }
        let ghost q_end = off as int;
        let mut answers: Vec<ResourceRecord> = Vec::new();
        let mut k: u16 = 0;
        proof {
            assert(record_views(Seq::empty()) =~= Seq::<RecordView>::empty());
            assert(question_views(questions@) + Seq::<QuestionView>::empty() =~= question_views(
                questions@,
            ));
        }
        while k < header.an_count
            invariant
                off <= data@.len(),
                k <= header.an_count,
                match spec_parse_records(data@, off as int, (header.an_count - k) as nat) {
                    Ok(p) => spec_parse_records(data@, q_end, header.an_count as nat) matches Ok(q)
                        && q.0 == record_views(answers@) + p.0 && q.1 == p.1,
                    Err(e) => spec_parse_records(data@, q_end, header.an_count as nat) == Err::<
                        (Seq<RecordView>, int),
                        ParserError,
                    >(e),
                },
            decreases header.an_count - k,
        {
            let sub = &data[off..data.len()];
            proof {
                assert(sub@ =~= data@.skip(off as int));
            }
            let (rec, used) = match ResourceRecord::parse(sub, data) {
                Ok(p) => p,
                Err(e) => {
                    return Err(e);
                },
            };
            proof {
                lemma_parse_rr_consumed(sub@, data@);
                let rv = spec_parse_rr(sub@, data@)->Ok_0.0;
                assert(record_views(answers@.push(rec)) =~= record_views(answers@) + seq![rv]);
                let next = spec_parse_records(
                    data@,
                    off + used as int,
                    (header.an_count - k - 1) as nat,
                );
                if next is Ok {
                    assert(record_views(answers@) + (seq![rv] + next->Ok_0.0) =~= record_views(
                        answers@.push(rec),
                    ) + next->Ok_0.0);
                }
            }
            answers.push(rec);
            off = off + used;
            k = k + 1;
        }
        proof {
            assert(record_views(answers@) + Seq::<RecordView>::empty() =~= record_views(answers@));
        }
        Ok(DnsMessage { header, questions, answers })
    }
}

} // verus!
