pub mod a;
pub mod aaaa;
pub mod cname;
pub mod https;
pub mod ptr;
pub mod srv;
pub mod txt;

use crate::parser::error::ParserError;
use crate::parser::rdata::https::HttpsView;
use crate::parser::rdata::srv::SrvView;
use crate::parser::resource_record::Type;
use vstd::prelude::*;
use vstd::slice::slice_to_vec;

verus! {

/// The decoded payload of a resource record: one variant per record type
/// the forwarding logic understands, and a raw fallback that keeps the
/// original bytes of anything else.
#[derive(Debug, PartialEq, Eq)]
pub enum RData {
    A(a::Record),
    Aaaa(aaaa::Record),
    Cname(cname::Record),
    Ptr(ptr::Record),
    Txt(txt::Record),
    Srv(srv::Record),
    Https(https::Record),
    Unknown(Type, Vec<u8>),
}

/// The mathematical shape of a decoded rdata payload.
#[verifier::ext_equal]
pub enum RDataView {
    A(Seq<u8>),
    Aaaa(Seq<u8>),
    Cname(Seq<char>),
    Ptr(Seq<char>),
    Txt(Seq<u8>),
    Srv(SrvView),
    Https(HttpsView),
    Unknown(Type, Seq<u8>),
}

impl View for RData {
    type V = RDataView;

    open spec fn view(&self) -> RDataView {
        match self {
            RData::A(rec) => RDataView::A(rec@),
            RData::Aaaa(rec) => RDataView::Aaaa(rec@),
            RData::Cname(rec) => RDataView::Cname(rec@),
            RData::Ptr(rec) => RDataView::Ptr(rec@),
            RData::Txt(rec) => RDataView::Txt(rec@),
            RData::Srv(rec) => RDataView::Srv(rec@),
            RData::Https(rec) => RDataView::Https(rec@),
            RData::Unknown(t, bytes) => RDataView::Unknown(*t, bytes@),
        }
    }
}

/// The rdata decoded according to the record type. Types without a decoder
/// of their own keep their raw bytes; that case never fails.
pub open spec fn spec_parse_rdata(rtype: Type, data: Seq<u8>, orig: Seq<u8>) -> Result<
    RDataView,
    ParserError,
> {
    match rtype {
        Type::A => match a::spec_parse_a(data) {
            Ok(v) => Ok(RDataView::A(v)),
            Err(e) => Err(e),
        },
        Type::Cname => match cname::spec_parse_cname(data, orig) {
            Ok(v) => Ok(RDataView::Cname(v)),
            Err(e) => Err(e),
        },
        Type::Ptr => match ptr::spec_parse_ptr(data, orig) {
            Ok(v) => Ok(RDataView::Ptr(v)),
            Err(e) => Err(e),
        },
        Type::Txt => match txt::spec_parse_txt(data) {
            Ok(v) => Ok(RDataView::Txt(v)),
            Err(e) => Err(e),
        },
        Type::Aaaa => match aaaa::spec_parse_aaaa(data) {
            Ok(v) => Ok(RDataView::Aaaa(v)),
            Err(e) => Err(e),
        },
        Type::Srv => match srv::spec_parse_srv(data, orig) {
            Ok(v) => Ok(RDataView::Srv(v)),
            Err(e) => Err(e),
        },
        Type::Https => match https::spec_parse_https(data, orig) {
            Ok(v) => Ok(RDataView::Https(v)),
            Err(e) => Err(e),
        },
        _ => Ok(RDataView::Unknown(rtype, data)),
    }
}

/// A record type outside the registry can never fail to decode: whatever
/// its rdata holds, it is kept as the original bytes, unchanged.
pub proof fn lemma_unknown_type_tolerated(rtype: Type, data: Seq<u8>, orig: Seq<u8>)
    requires
        rtype matches Type::Unknown(_),
    ensures
        spec_parse_rdata(rtype, data, orig) == Ok::<RDataView, ParserError>(
            RDataView::Unknown(rtype, data),
        ),
{
}

impl RData {
    /// Decodes the rdata span of a record; names inside it resolve their
    /// compression pointers against `original`, the whole message.
    pub fn parse(rtype: Type, data: &[u8], original: &[u8]) -> (r: Result<RData, ParserError>)
        ensures
            match spec_parse_rdata(rtype, data@, original@) {
                Ok(v) => r matches Ok(rd) && rd@ == v,
                Err(e) => r == Err::<RData, ParserError>(e),
            },
    {
        match rtype {
            Type::A => match a::Record::parse(data, original) {
                Ok(rec) => Ok(RData::A(rec)),
                Err(e) => Err(e),
            },
            Type::Cname => match cname::Record::parse(data, original) {
                Ok(rec) => Ok(RData::Cname(rec)),
                Err(e) => Err(e),
            },
            Type::Ptr => match ptr::Record::parse(data, original) {
                Ok(rec) => Ok(RData::Ptr(rec)),
                Err(e) => Err(e),
            },
            Type::Txt => match txt::Record::parse(data, original) {
                Ok(rec) => Ok(RData::Txt(rec)),
                Err(e) => Err(e),
            },
            Type::Aaaa => match aaaa::Record::parse(data, original) {
                Ok(rec) => Ok(RData::Aaaa(rec)),
                Err(e) => Err(e),
            },
            Type::Srv => match srv::Record::parse(data, original) {
                Ok(rec) => Ok(RData::Srv(rec)),
                Err(e) => Err(e),
            },
            Type::Https => match https::Record::parse(data, original) {
                Ok(rec) => Ok(RData::Https(rec)),
                Err(e) => Err(e),
            },
            _ => Ok(RData::Unknown(rtype, slice_to_vec(data))),
        }
    }
}

} // verus!
