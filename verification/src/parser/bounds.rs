//! What a decode depends on: only bytes the read actually visited. Every
//! lemma here extends a read that succeeded on a truncated buffer to the
//! full buffer, unchanged; together they show that truncating a message
//! inside its records can only ever be reported as a short read, never
//! misread.
use crate::parser::bytes::be16;
use crate::parser::error::ParserError;
use crate::parser::header::spec_parse_header;
use crate::parser::header::HEADER_TOO_SHORT;
use crate::parser::message::lemma_parse_questions_consumed;
use crate::parser::message::lemma_parse_records_consumed;
use crate::parser::message::spec_message_end;
use crate::parser::message::spec_parse_message;
use crate::parser::message::spec_parse_questions;
use crate::parser::message::spec_parse_records;
use crate::parser::message::MessageView;
use crate::parser::qname::is_pointer_byte;
use crate::parser::qname::lemma_read_labels_error_is_eop;
use crate::parser::qname::lemma_read_qname_consumed;
use crate::parser::qname::pointer_target;
use crate::parser::qname::spec_read_labels;
use crate::parser::qname::spec_read_qname;
use crate::parser::question::lemma_parse_question_consumed;
use crate::parser::question::spec_parse_question;
use crate::parser::question::QuestionView;
use crate::parser::rdata::https::spec_parse_svc_params;
use crate::parser::rdata::https::SvcParamView;
use crate::parser::rdata::spec_parse_rdata;
use crate::parser::rdata::RDataView;
use crate::parser::resource_record::lemma_parse_rr_consumed;
use crate::parser::resource_record::spec_parse_rr;
use crate::parser::resource_record::spec_parse_type;
use crate::parser::resource_record::RecordView;
use crate::parser::resource_record::Type;
use vstd::prelude::*;

verus! {

/// A label read that succeeds on a truncated buffer reads the same bytes,
/// and returns the same result, on any extension of it, with any pointer
/// budget at least as large.
pub proof fn lemma_read_labels_prefix(
    cur_t: Seq<u8>,
    orig_t: Seq<u8>,
    cur_b: Seq<u8>,
    orig_b: Seq<u8>,
    off: int,
    fuel_t: nat,
    fuel_b: nat,
)
    requires
        cur_t.len() <= cur_b.len(),
        cur_t == cur_b.take(cur_t.len() as int),
        orig_t.len() <= orig_b.len(),
        orig_t == orig_b.take(orig_t.len() as int),
        fuel_t <= fuel_b,
        spec_read_labels(cur_t, orig_t, off, fuel_t) is Ok,
    ensures
        spec_read_labels(cur_b, orig_b, off, fuel_b) == spec_read_labels(
            cur_t,
            orig_t,
            off,
            fuel_t,
        ),
    decreases fuel_t, cur_t.len() - off,
{
    let b0 = cur_t[off];
    assert(cur_b[off] == b0);
    if b0 == 0 {
    } else if is_pointer_byte(b0) {
        assert(cur_b[off + 1] == cur_t[off + 1]);
        lemma_read_labels_prefix(
            orig_t,
            orig_t,
            orig_b,
            orig_b,
            pointer_target(b0, cur_t[off + 1]),
            (fuel_t - 1) as nat,
            (fuel_b - 1) as nat,
        );
    } else {
        let n = b0 as int;
        assert(cur_t.subrange(off + 1, off + 1 + n) =~= cur_b.subrange(off + 1, off + 1 + n));
        lemma_read_labels_prefix(cur_t, orig_t, cur_b, orig_b, off + 1 + n, fuel_t, fuel_b);
    }
}

/// A name read that did not run off the end of the truncated buffer — it
/// succeeded, or it failed only on the text encoding — comes out the same
/// on any extension of the buffer.
pub proof fn lemma_read_qname_prefix(
    data_t: Seq<u8>,
    orig_t: Seq<u8>,
    data_b: Seq<u8>,
    orig_b: Seq<u8>,
)
    requires
        data_t.len() <= data_b.len(),
        data_t == data_b.take(data_t.len() as int),
        orig_t.len() <= orig_b.len(),
        orig_t == orig_b.take(orig_t.len() as int),
        spec_read_qname(data_t, orig_t) is Ok || spec_read_qname(data_t, orig_t) == Err::<
            (Seq<char>, int),
            ParserError,
        >(ParserError::LabelIsNotUTF8),
    ensures
        spec_read_qname(data_b, orig_b) == spec_read_qname(data_t, orig_t),
{
    if spec_read_labels(data_t, orig_t, 0, orig_t.len() as nat) is Err {
        lemma_read_labels_error_is_eop(
            data_t,
            orig_t,
            0,
            orig_t.len() as nat,
        );
    }
    assert(spec_read_labels(data_t, orig_t, 0, orig_t.len() as nat) is Ok);
    lemma_read_labels_prefix(
        data_t,
        orig_t,
        data_b,
        orig_b,
        0,
        orig_t.len() as nat,
        orig_b.len() as nat,
    );
}

/// A question read that did not run off the end of the truncated buffer
/// comes out the same on any extension.
pub proof fn lemma_parse_question_prefix(
    data_t: Seq<u8>,
    orig_t: Seq<u8>,
    data_b: Seq<u8>,
    orig_b: Seq<u8>,
)
    requires
        data_t.len() <= data_b.len(),
        data_t == data_b.take(data_t.len() as int),
        orig_t.len() <= orig_b.len(),
        orig_t == orig_b.take(orig_t.len() as int),
        spec_parse_question(data_t, orig_t) is Ok || spec_parse_question(data_t, orig_t) == Err::<
            (QuestionView, int),
            ParserError,
        >(ParserError::LabelIsNotUTF8),
    ensures
        spec_parse_question(data_b, orig_b) == spec_parse_question(data_t, orig_t),
{
    match spec_read_qname(data_t, orig_t) {
        Err(_) => {
            lemma_read_qname_prefix(data_t, orig_t, data_b, orig_b);
        },
        Ok(p) => {
            lemma_read_qname_prefix(data_t, orig_t, data_b, orig_b);
            lemma_read_qname_consumed(data_t, orig_t);
            let read = p.1;
            if read + 4 <= data_t.len() {
                assert(data_b[read] == data_t[read]);
                assert(data_b[read + 1] == data_t[read + 1]);
                assert(data_b[read + 2] == data_t[read + 2]);
                assert(data_b[read + 3] == data_t[read + 3]);
            }
        },
    }
}

/// An rdata read that did not run off the end of the truncated message
/// buffer comes out the same when that buffer is extended. The rdata span
/// itself is the same bytes either way; only compression pointers inside
/// it look at the message buffer.
pub proof fn lemma_parse_rdata_prefix(
    rtype: Type,
    data: Seq<u8>,
    orig_t: Seq<u8>,
    orig_b: Seq<u8>,
)
    requires
        orig_t.len() <= orig_b.len(),
        orig_t == orig_b.take(orig_t.len() as int),
        spec_parse_rdata(rtype, data, orig_t) is Ok || spec_parse_rdata(rtype, data, orig_t)
            == Err::<RDataView, ParserError>(ParserError::LabelIsNotUTF8),
    ensures
        spec_parse_rdata(rtype, data, orig_b) == spec_parse_rdata(rtype, data, orig_t),
{
    assert(data == data.take(data.len() as int)) by {
        assert(data.take(data.len() as int) =~= data);
    }
    match rtype {
        Type::Cname => {
            lemma_read_qname_prefix(data, orig_t, data, orig_b);
        },
        Type::Ptr => {
            lemma_read_qname_prefix(data, orig_t, data, orig_b);
        },
        Type::Srv => {
            if data.len() >= 6 {
                let rest = data.skip(6);
                assert(rest == rest.take(rest.len() as int)) by {
                    assert(rest.take(rest.len() as int) =~= rest);
                }
                lemma_read_qname_prefix(rest, orig_t, rest, orig_b);
            }
        },
        Type::Https => {
            if data.len() >= 2 {
                let rest = data.skip(2);
                assert(rest == rest.take(rest.len() as int)) by {
                    assert(rest.take(rest.len() as int) =~= rest);
                }
                match spec_read_qname(rest, orig_t) {
                    Ok(_) => {
                        lemma_read_qname_prefix(rest, orig_t, rest, orig_b);
                    },
                    Err(_) => {
                        lemma_read_qname_prefix(rest, orig_t, rest, orig_b);
                    },
                }
            }
        },
        _ => {},
    }
}

/// A record read that did not run off the end of the truncated buffer
/// comes out the same on any extension.
pub proof fn lemma_parse_rr_prefix(
    data_t: Seq<u8>,
    orig_t: Seq<u8>,
    data_b: Seq<u8>,
    orig_b: Seq<u8>,
)
    requires
        data_t.len() <= data_b.len(),
        data_t == data_b.take(data_t.len() as int),
        orig_t.len() <= orig_b.len(),
        orig_t == orig_b.take(orig_t.len() as int),
        spec_parse_rr(data_t, orig_t) is Ok || spec_parse_rr(data_t, orig_t) == Err::<
            (RecordView, int),
            ParserError,
        >(ParserError::LabelIsNotUTF8),
    ensures
        spec_parse_rr(data_b, orig_b) == spec_parse_rr(data_t, orig_t),
{
    match spec_read_qname(data_t, orig_t) {
        Err(_) => {
            lemma_read_qname_prefix(data_t, orig_t, data_b, orig_b);
        },
        Ok(p) => {
            lemma_read_qname_prefix(data_t, orig_t, data_b, orig_b);
            lemma_read_qname_consumed(data_t, orig_t);
            let read = p.1;
            if read + 10 <= data_t.len() {
                assert forall|k: int| read <= k < read + 10 implies data_b[k] == data_t[k] by {}
                let rdlength = be16(
                    data_t[read + 8],
                    data_t[read + 9],
                ) as int;
                if read + 10 + rdlength <= data_t.len() {
                    let span_t = data_t.subrange(read + 10, read + 10 + rdlength);
                    let span_b = data_b.subrange(read + 10, read + 10 + rdlength);
                    assert(span_t =~= span_b);
                    let tcode = be16(data_t[read], data_t[read + 1]);
                    let rtype = match spec_parse_type(tcode) {
                        Ok(t) => t,
                        Err(_) => Type::Unknown(tcode),
                    };
                    lemma_parse_rdata_prefix(rtype, span_t, orig_t, orig_b);
                }
            }
        },
    }
}

/// A name read fails only as a short read or as bad text.
pub proof fn lemma_read_qname_error_kinds(data: Seq<u8>, orig: Seq<u8>)
    requires
        spec_read_qname(data, orig) is Err,
    ensures
        spec_read_qname(data, orig) == Err::<(Seq<char>, int), ParserError>(
            ParserError::UnexpectedEOP,
        ) || spec_read_qname(data, orig) == Err::<(Seq<char>, int), ParserError>(
            ParserError::LabelIsNotUTF8,
        ),
{
    if spec_read_labels(data, orig, 0, orig.len() as nat) is Err {
        lemma_read_labels_error_is_eop(data, orig, 0, orig.len() as nat);
    }
}

/// A question read fails only as a short read or as bad text.
pub proof fn lemma_parse_question_error_kinds(data: Seq<u8>, orig: Seq<u8>)
    requires
        spec_parse_question(data, orig) is Err,
    ensures
        spec_parse_question(data, orig) == Err::<(QuestionView, int), ParserError>(
            ParserError::UnexpectedEOP,
        ) || spec_parse_question(data, orig) == Err::<(QuestionView, int), ParserError>(
            ParserError::LabelIsNotUTF8,
        ),
{
    if spec_read_qname(data, orig) is Err {
        lemma_read_qname_error_kinds(data, orig);
    }
}

/// A service-parameter run fails only as a short read.
pub proof fn lemma_svc_params_error_is_eop(data: Seq<u8>)
    requires
        spec_parse_svc_params(data) is Err,
    ensures
        spec_parse_svc_params(data) == Err::<Seq<SvcParamView>, ParserError>(
            ParserError::UnexpectedEOP,
        ),
    decreases data.len(),
{
    if data.len() >= 4 {
        let vl = be16(data[2], data[3]) as int;
        if 4 + vl <= data.len() {
            if spec_parse_svc_params(data.skip(4 + vl)) is Err {
                lemma_svc_params_error_is_eop(data.skip(4 + vl));
            }
        }
    }
}

/// An rdata read fails only as a short read or as bad text.
pub proof fn lemma_parse_rdata_error_kinds(rtype: Type, data: Seq<u8>, orig: Seq<u8>)
    requires
        spec_parse_rdata(rtype, data, orig) is Err,
    ensures
        spec_parse_rdata(rtype, data, orig) == Err::<RDataView, ParserError>(
            ParserError::UnexpectedEOP,
        ) || spec_parse_rdata(rtype, data, orig) == Err::<RDataView, ParserError>(
            ParserError::LabelIsNotUTF8,
        ),
{
    match rtype {
        Type::Cname => {
            if spec_read_qname(data, orig) is Err {
                lemma_read_qname_error_kinds(data, orig);
            }
        },
        Type::Ptr => {
            if spec_read_qname(data, orig) is Err {
                lemma_read_qname_error_kinds(data, orig);
            }
        },
        Type::Srv => {
            if data.len() >= 6 && spec_read_qname(data.skip(6), orig) is Err {
                lemma_read_qname_error_kinds(data.skip(6), orig);
            }
        },
        Type::Https => {
            if data.len() >= 2 {
                match spec_read_qname(data.skip(2), orig) {
                    Err(_) => {
                        lemma_read_qname_error_kinds(data.skip(2), orig);
                    },
                    Ok(p) => {
                        if spec_parse_svc_params(data.skip(2 + p.1)) is Err {
                            lemma_svc_params_error_is_eop(data.skip(2 + p.1));
                        }
                    },
                }
            }
        },
        _ => {},
    }
}

/// A record read fails only as a short read or as bad text: a type number
/// outside the registry is not an error here.
pub proof fn lemma_parse_rr_error_kinds(data: Seq<u8>, orig: Seq<u8>)
    requires
        spec_parse_rr(data, orig) is Err,
    ensures
        spec_parse_rr(data, orig) == Err::<(RecordView, int), ParserError>(
            ParserError::UnexpectedEOP,
        ) || spec_parse_rr(data, orig) == Err::<(RecordView, int), ParserError>(
            ParserError::LabelIsNotUTF8,
        ),
{
    match spec_read_qname(data, orig) {
        Err(_) => {
            lemma_read_qname_error_kinds(data, orig);
        },
        Ok(p) => {
            let read = p.1;
            if read + 10 <= data.len() {
                let rdlength = be16(data[read + 8], data[read + 9]) as int;
                if read + 10 + rdlength <= data.len() {
                    let tcode = be16(data[read], data[read + 1]);
                    let rtype = match spec_parse_type(tcode) {
                        Ok(t) => t,
                        Err(_) => Type::Unknown(tcode),
                    };
                    let span = data.subrange(read + 10, read + 10 + rdlength);
                    if spec_parse_rdata(rtype, span, orig) is Err {
                        lemma_parse_rdata_error_kinds(rtype, span, orig);
                    }
                }
            }
        },
    }
}

/// A run of question reads fails only as a short read or as bad text.
pub proof fn lemma_parse_questions_error_kinds(orig: Seq<u8>, off: int, count: nat)
    requires
        spec_parse_questions(orig, off, count) is Err,
    ensures
        spec_parse_questions(orig, off, count) == Err::<(Seq<QuestionView>, int), ParserError>(
            ParserError::UnexpectedEOP,
        ) || spec_parse_questions(orig, off, count) == Err::<
            (Seq<QuestionView>, int),
            ParserError,
        >(ParserError::LabelIsNotUTF8),
    decreases count,
{
    if count > 0 {
        match spec_parse_question(orig.skip(off), orig) {
            Err(_) => {
                lemma_parse_question_error_kinds(orig.skip(off), orig);
            },
            Ok(p) => {
                if spec_parse_questions(orig, off + p.1, (count - 1) as nat) is Err {
                    lemma_parse_questions_error_kinds(orig, off + p.1, (count - 1) as nat);
                }
            },
        }
    }
}

/// A run of record reads fails only as a short read or as bad text.
pub proof fn lemma_parse_records_error_kinds(orig: Seq<u8>, off: int, count: nat)
    requires
        spec_parse_records(orig, off, count) is Err,
    ensures
        spec_parse_records(orig, off, count) == Err::<(Seq<RecordView>, int), ParserError>(
            ParserError::UnexpectedEOP,
        ) || spec_parse_records(orig, off, count) == Err::<(Seq<RecordView>, int), ParserError>(
            ParserError::LabelIsNotUTF8,
        ),
    decreases count,
{
    if count > 0 {
        match spec_parse_rr(orig.skip(off), orig) {
            Err(_) => {
                lemma_parse_rr_error_kinds(orig.skip(off), orig);
            },
            Ok(p) => {
                if spec_parse_records(orig, off + p.1, (count - 1) as nat) is Err {
                    lemma_parse_records_error_kinds(orig, off + p.1, (count - 1) as nat);
                }
            },
        }
    }
}

/// A run of question reads that did not run off the end of the truncated
/// buffer comes out the same on any extension.
pub proof fn lemma_parse_questions_prefix(orig_t: Seq<u8>, orig_b: Seq<u8>, off: int, count: nat)
    requires
        0 <= off <= orig_t.len(),
        orig_t.len() <= orig_b.len(),
        orig_t == orig_b.take(orig_t.len() as int),
        spec_parse_questions(orig_t, off, count) is Ok || spec_parse_questions(orig_t, off, count)
            == Err::<(Seq<QuestionView>, int), ParserError>(ParserError::LabelIsNotUTF8),
    ensures
        spec_parse_questions(orig_b, off, count) == spec_parse_questions(orig_t, off, count),
    decreases count,
{
    if count > 0 {
        let data_t = orig_t.skip(off);
        let data_b = orig_b.skip(off);
        assert(data_t == data_b.take(data_t.len() as int)) by {
            assert(data_t =~= data_b.take(data_t.len() as int));
        }
        match spec_parse_question(data_t, orig_t) {
            Err(_) => {
                lemma_parse_question_prefix(data_t, orig_t, data_b, orig_b);
            },
            Ok(p) => {
                lemma_parse_question_prefix(data_t, orig_t, data_b, orig_b);
                lemma_parse_question_consumed(data_t, orig_t);
                lemma_parse_questions_prefix(orig_t, orig_b, off + p.1, (count - 1) as nat);
            },
        }
    }
}

/// A run of record reads that did not run off the end of the truncated
/// buffer comes out the same on any extension.
pub proof fn lemma_parse_records_prefix(orig_t: Seq<u8>, orig_b: Seq<u8>, off: int, count: nat)
    requires
        0 <= off <= orig_t.len(),
        orig_t.len() <= orig_b.len(),
        orig_t == orig_b.take(orig_t.len() as int),
        spec_parse_records(orig_t, off, count) is Ok || spec_parse_records(orig_t, off, count)
            == Err::<(Seq<RecordView>, int), ParserError>(ParserError::LabelIsNotUTF8),
    ensures
        spec_parse_records(orig_b, off, count) == spec_parse_records(orig_t, off, count),
    decreases count,
{
    if count > 0 {
        let data_t = orig_t.skip(off);
        let data_b = orig_b.skip(off);
        assert(data_t == data_b.take(data_t.len() as int)) by {
            assert(data_t =~= data_b.take(data_t.len() as int));
        }
        match spec_parse_rr(data_t, orig_t) {
            Err(_) => {
                lemma_parse_rr_prefix(data_t, orig_t, data_b, orig_b);
            },
            Ok(p) => {
                lemma_parse_rr_prefix(data_t, orig_t, data_b, orig_b);
                lemma_parse_rr_consumed(data_t, orig_t);
                lemma_parse_records_prefix(orig_t, orig_b, off + p.1, (count - 1) as nat);
            },
        }
    }
}

/// A message parse that did not run off the end of the truncated buffer
/// comes out the same on any extension, with the same section end.
pub proof fn lemma_parse_message_prefix(t: Seq<u8>, b: Seq<u8>)
    requires
        t.len() <= b.len(),
        t == b.take(t.len() as int),
        spec_parse_message(t) is Ok || spec_parse_message(t) == Err::<MessageView, ParserError>(
            ParserError::LabelIsNotUTF8,
        ),
    ensures
        spec_parse_message(b) == spec_parse_message(t),
        spec_message_end(b) == spec_message_end(t),
{
    assert(t.len() >= 12);
    assert forall|k: int| 0 <= k < 12 implies b[k] == t[k] by {}
    assert(spec_parse_header(b) == spec_parse_header(t));
    let h = spec_parse_header(t)->Ok_0;
    match spec_parse_questions(t, 12, h.qd_count as nat) {
        Err(_) => {
            lemma_parse_questions_prefix(t, b, 12, h.qd_count as nat);
        },
        Ok(qp) => {
            lemma_parse_questions_prefix(t, b, 12, h.qd_count as nat);
            lemma_parse_questions_consumed(t, 12, h.qd_count as nat);
            match spec_parse_records(t, qp.1, h.an_count as nat) {
                Err(_) => {
                    lemma_parse_records_prefix(t, b, qp.1, h.an_count as nat);
                },
                Ok(_) => {
                    lemma_parse_records_prefix(t, b, qp.1, h.an_count as nat);
                },
            }
        },
    }
}

/// Bounds safety: truncating a parseable message anywhere inside its
/// header, question or answer sections makes the parse fail, and fail
/// only as a short read — `HeaderError` inside the header, and
/// `UnexpectedEOP` after it. No truncation is ever misread as a message,
/// nor reported as anything else.
pub proof fn lemma_truncation_rejected(data: Seq<u8>, i: int)
    requires
        spec_parse_message(data) is Ok,
        0 <= i < spec_message_end(data),
    ensures
        i < 12 ==> spec_parse_message(data.take(i)) == Err::<MessageView, ParserError>(
            ParserError::HeaderError(HEADER_TOO_SHORT),
        ),
        i >= 12 ==> spec_parse_message(data.take(i)) == Err::<MessageView, ParserError>(
            ParserError::UnexpectedEOP,
        ),
{
    let hd = spec_parse_header(data)->Ok_0;
    let qpd = spec_parse_questions(data, 12, hd.qd_count as nat)->Ok_0;
    lemma_parse_questions_consumed(data, 12, hd.qd_count as nat);
    lemma_parse_records_consumed(data, qpd.1, hd.an_count as nat);
    assert(spec_message_end(data) <= data.len());
    let t = data.take(i);
    assert(t.len() == i);
    if i >= 12 {
        let rt = spec_parse_message(t);
        if rt is Ok || rt == Err::<MessageView, ParserError>(ParserError::LabelIsNotUTF8) {
            lemma_parse_message_prefix(t, data);
            assert(rt is Ok);
            let h = spec_parse_header(t)->Ok_0;
            let qp = spec_parse_questions(t, 12, h.qd_count as nat)->Ok_0;
            lemma_parse_questions_consumed(t, 12, h.qd_count as nat);
            lemma_parse_records_consumed(t, qp.1, h.an_count as nat);
            assert(spec_message_end(t) <= t.len());
            assert(false);
        } else {
            assert(spec_parse_header(t) is Ok);
            let h = spec_parse_header(t)->Ok_0;
            match spec_parse_questions(t, 12, h.qd_count as nat) {
                Err(_) => {
                    lemma_parse_questions_error_kinds(t, 12, h.qd_count as nat);
                },
                Ok(qp) => {
                    if spec_parse_records(t, qp.1, h.an_count as nat) is Err {
                        lemma_parse_records_error_kinds(t, qp.1, h.an_count as nat);
                    }
                },
            }
        }
    }
}

} // verus!
