use crate::parser::bytes::be16;
use crate::parser::bytes::read_be16;
use crate::parser::error::ParserError;
use crate::parser::qname::lemma_read_qname_consumed;
use crate::parser::qname::spec_read_qname;
use crate::parser::qname::Qname;
use vstd::prelude::*;
use vstd::slice::slice_to_vec;

verus! {

/// An HTTPS record: a priority, a target name, and the service parameters.
#[derive(Debug, PartialEq, Eq)]
pub struct Record {
    pub svc_priority: u16,
    pub target_name: String,
    pub svc_params: Vec<SvcParam>,
}

/// One service parameter: a numeric key and its raw value bytes.
#[derive(Debug, PartialEq, Eq)]
pub struct SvcParam {
    key: u16,
    value: Vec<u8>,
}

/// The mathematical shape of a service parameter.
#[verifier::ext_equal]
pub struct SvcParamView {
    pub key: u16,
    pub value: Seq<u8>,
}

/// The mathematical shape of an HTTPS record.
#[verifier::ext_equal]
pub struct HttpsView {
    pub svc_priority: u16,
    pub target_name: Seq<char>,
    pub svc_params: Seq<SvcParamView>,
}

impl View for SvcParam {
    type V = SvcParamView;

    closed spec fn view(&self) -> SvcParamView {
        SvcParamView { key: self.key, value: self.value@ }
    }
}

/// The views of a sequence of service parameters.
pub open spec fn svc_views(params: Seq<SvcParam>) -> Seq<SvcParamView> {
    params.map_values(|p: SvcParam| p@)
}

impl View for Record {
    type V = HttpsView;

    open spec fn view(&self) -> HttpsView {
        HttpsView {
            svc_priority: self.svc_priority,
            target_name: self.target_name@,
            svc_params: svc_views(self.svc_params@),
        }
    }
}

/// The run of (key, length, value) tuples that must exactly fill `data`:
/// any partial tuple is `UnexpectedEOP`.
pub open spec fn spec_parse_svc_params(data: Seq<u8>) -> Result<Seq<SvcParamView>, ParserError>
    decreases data.len(),
{
    if data.len() == 0 {
        Ok(Seq::empty())
    } else if data.len() < 4 {
        Err(ParserError::UnexpectedEOP)
    } else {
        let vl = be16(data[2], data[3]) as int;
        if 4 + vl > data.len() {
            Err(ParserError::UnexpectedEOP)
        } else {
            match spec_parse_svc_params(data.skip(4 + vl)) {
                Ok(rest) => Ok(
                    seq![
                        SvcParamView { key: be16(data[0], data[1]), value: data.subrange(4, 4 + vl) },
                    ] + rest,
                ),
                Err(e) => Err(e),
            }
        }
    }
}

/// A two-byte priority, then a name, then service parameters filling the
/// rest of the rdata exactly.
pub open spec fn spec_parse_https(data: Seq<u8>, orig: Seq<u8>) -> Result<HttpsView, ParserError> {
    if data.len() < 2 {
        Err(ParserError::UnexpectedEOP)
    } else {
        match spec_read_qname(data.skip(2), orig) {
            Ok(p) => match spec_parse_svc_params(data.skip(2 + p.1)) {
                Ok(params) => Ok(
                    HttpsView {
                        svc_priority: be16(data[0], data[1]),
                        target_name: p.0,
                        svc_params: params,
                    },
                ),
                Err(e) => Err(e),
            },
            Err(e) => Err(e),
        }
    }
}

impl Record {
    /// Decodes an HTTPS record from the rdata.
    #[verifier::loop_isolation(false)]
    pub fn parse(data: &[u8], original: &[u8]) -> (r: Result<Record, ParserError>)
        ensures
            match spec_parse_https(data@, original@) {
                Ok(v) => r matches Ok(rec) && rec@ == v,
                Err(e) => r == Err::<Record, ParserError>(e),
            },
    {
        if data.len() < 2 {
            return Err(ParserError::UnexpectedEOP);
        }
        let svc_priority = read_be16(data, 0);
        let rest = &data[2..data.len()];
        proof {
            assert(rest@ =~= data@.skip(2));
        }
        let (target_name, read) = match Qname::read(rest, original) {
            Ok(p) => p,
            Err(e) => {
                return Err(e);
            },
        };
        proof {
            lemma_read_qname_consumed(rest@, original@);
        }
        let mut i: usize = 2 + read;
        let ghost start = i as int;
        let mut svc_params: Vec<SvcParam> = Vec::new();
        proof {
            assert(svc_views(Seq::empty()) =~= Seq::<SvcParamView>::empty());
        }
        loop
            invariant
                start <= i <= data@.len(),
                data@.len() <= usize::MAX,
                match spec_parse_svc_params(data@.skip(i as int)) {
                    Ok(rest_params) => spec_parse_svc_params(data@.skip(start)) matches Ok(all)
                        && all == svc_views(svc_params@) + rest_params,
                    Err(e) => spec_parse_svc_params(data@.skip(start)) == Err::<
                        Seq<SvcParamView>,
                        ParserError,
                    >(e),
                },
            decreases data@.len() - i,
        {
            if i >= data.len() {
                proof {
                    assert(data@.skip(i as int).len() == 0);
                    assert(svc_views(svc_params@) + Seq::<SvcParamView>::empty() =~= svc_views(
                        svc_params@,
                    ));
                }
                break ;
            }
            if data.len() - i < 4 {
                return Err(ParserError::UnexpectedEOP);
            }
            let key = read_be16(data, i);
            let vl = read_be16(data, i + 2) as usize;
            if vl > data.len() - (i + 4) {
                return Err(ParserError::UnexpectedEOP);
            }
            let value = slice_to_vec(&data[i + 4..i + 4 + vl]);
            let ghost params0 = svc_params@;
            svc_params.push(SvcParam { key, value });
            proof {
                let d = data@;
                let tail = d.skip(i as int);
                assert(tail.subrange(4, 4 + vl as int) =~= d.subrange(
                    i + 4,
                    i + 4 + vl as int,
                ));
                assert(tail.skip(4 + vl as int) =~= d.skip(i + 4 + vl as int));
                let pv = SvcParamView { key: key, value: d.subrange(i + 4, i + 4 + vl as int) };
                assert(svc_views(svc_params@) =~= svc_views(params0) + seq![pv]);
                if spec_parse_svc_params(d.skip(i + 4 + vl as int)) is Ok {
                    let rest_params = spec_parse_svc_params(d.skip(i + 4 + vl as int))->Ok_0;
                    assert(svc_views(params0) + (seq![pv] + rest_params) =~= svc_views(svc_params@)
                        + rest_params);
                }
            }
            i = i + 4 + vl;
        }
        Ok(Record { svc_priority, target_name, svc_params })
    }
}

} // verus!
