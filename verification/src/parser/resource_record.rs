use crate::parser::bytes::be16;
use crate::parser::bytes::be32;
use crate::parser::bytes::read_be16;
use crate::parser::bytes::read_be32;
use crate::parser::error::ParserError;
use crate::parser::qname::lemma_read_qname_consumed;
use crate::parser::qname::spec_read_qname;
use crate::parser::qname::Qname;
use crate::parser::rdata::spec_parse_rdata;
use crate::parser::rdata::RData;
use crate::parser::rdata::RDataView;
use vstd::prelude::*;

verus! {

/// The registry of record types the decoder knows by name. A number outside
/// the registry is carried as `Unknown`, so that such a record degrades to
/// raw bytes instead of failing the whole message.
#[derive(Debug, Copy, Clone, PartialEq, Eq, Structural)]
pub enum Type {
    A,
    Cname,
    Ptr,
    Txt,
    Aaaa,
    Srv,
    Nsec,
    Https,
    Opt,
    Unknown(u16),
}

/// The registered type for a wire type number, or `UnknownRType` for a
/// number outside the registry.
pub open spec fn spec_parse_type(v: u16) -> Result<Type, ParserError> {
    if v == 1 {
        Ok(Type::A)
    } else if v == 5 {
        Ok(Type::Cname)
    } else if v == 12 {
        Ok(Type::Ptr)
    } else if v == 16 {
        Ok(Type::Txt)
    } else if v == 28 {
        Ok(Type::Aaaa)
    } else if v == 33 {
        Ok(Type::Srv)
    } else if v == 47 {
        Ok(Type::Nsec)
    } else if v == 65 {
        Ok(Type::Https)
    } else if v == 41 {
        Ok(Type::Opt)
    } else {
        Err(ParserError::UnknownRType(v))
    }
}

impl Type {
    /// Maps a wire type number to its registered type.
    pub fn parse(v: u16) -> (r: Result<Type, ParserError>)
        ensures
            r == spec_parse_type(v),
    {
        match v {
            1 => Ok(Type::A),
            5 => Ok(Type::Cname),
            12 => Ok(Type::Ptr),
            16 => Ok(Type::Txt),
            28 => Ok(Type::Aaaa),
            33 => Ok(Type::Srv),
            47 => Ok(Type::Nsec),
            65 => Ok(Type::Https),
            41 => Ok(Type::Opt),
            _ => Err(ParserError::UnknownRType(v)),
        }
    }
}

/// One entry of the answer (or any record) section.
#[derive(Debug, PartialEq, Eq)]
pub struct ResourceRecord {
    pub name: String,
    pub rtype: Type,
    pub class: u16,
    pub cache_flush: bool,
    pub ttl: u32,
    pub rdlength: u16,
    pub rdata: RData,
}

/// The mathematical shape of a resource record.
#[verifier::ext_equal]
pub struct RecordView {
    pub name: Seq<char>,
    pub rtype: Type,
    pub class: u16,
    pub cache_flush: bool,
    pub ttl: u32,
    pub rdlength: u16,
    pub rdata: RDataView,
}

impl View for ResourceRecord {
    type V = RecordView;

    open spec fn view(&self) -> RecordView {
        RecordView {
            name: self.name@,
            rtype: self.rtype,
            class: self.class,
            cache_flush: self.cache_flush,
            ttl: self.ttl,
            rdlength: self.rdlength,
            rdata: self.rdata@,
        }
    }
}

/// The cache-flush bit and the class it was masked off from.
pub open spec fn spec_parse_class(v: u16) -> (bool, u16) {
    (v & 0x8000 == 0x8000, v & 0x7fff)
}

/// The record at the front of `data` and how many bytes of `data` it
/// occupies: a name, type, class (top bit the mDNS cache-flush flag), TTL,
/// and a length-prefixed rdata span that must lie inside the buffer. A type
/// number outside the registry keeps its rdata raw rather than failing.
pub open spec fn spec_parse_rr(data: Seq<u8>, orig: Seq<u8>) -> Result<
    (RecordView, int),
    ParserError,
> {
    match spec_read_qname(data, orig) {
        Err(e) => Err(e),
        Ok(p) => {
            let read = p.1;
            if read + 10 > data.len() {
                Err(ParserError::UnexpectedEOP)
            } else {
                let tcode = be16(data[read], data[read + 1]);
                let rtype = match spec_parse_type(tcode) {
                    Ok(t) => t,
                    Err(_) => Type::Unknown(tcode),
                };
                let flags = spec_parse_class(be16(data[read + 2], data[read + 3]));
                let ttl = be32(data[read + 4], data[read + 5], data[read + 6], data[read + 7]);
                let rdlength = be16(data[read + 8], data[read + 9]) as int;
                if read + 10 + rdlength > data.len() {
                    Err(ParserError::UnexpectedEOP)
                } else {
                    match spec_parse_rdata(
                        rtype,
                        data.subrange(read + 10, read + 10 + rdlength),
                        orig,
                    ) {
                        Ok(rd) => Ok(
                            (
                                RecordView {
                                    name: p.0,
                                    rtype: rtype,
                                    class: flags.1,
                                    cache_flush: flags.0,
                                    ttl: ttl,
                                    rdlength: rdlength as u16,
                                    rdata: rd,
                                },
                                read + 10 + rdlength,
                            ),
                        ),
                        Err(e) => Err(e),
                    }
                }
            }
        },
    }
}

/// A successful record decode consumed at least one byte of `data` and no
/// more than all of it.
pub proof fn lemma_parse_rr_consumed(data: Seq<u8>, orig: Seq<u8>)
    requires
        spec_parse_rr(data, orig) is Ok,
    ensures
        0 < spec_parse_rr(data, orig)->Ok_0.1 <= data.len(),
{
    lemma_read_qname_consumed(data, orig);
}

impl ResourceRecord {
    /// Decodes the record at the front of `data`; names in it resolve their
    /// compression pointers against `original`.
    pub fn parse(data: &[u8], original: &[u8]) -> (r: Result<(ResourceRecord, usize), ParserError>)
        ensures
            match spec_parse_rr(data@, original@) {
                Ok(p) => r matches Ok(q) && q.0@ == p.0 && q.1 == p.1,
                Err(e) => r == Err::<(ResourceRecord, usize), ParserError>(e),
            },
    {
        let (name, read) = match Qname::read(data, original) {
            Ok(p) => p,
            Err(e) => {
                return Err(e);
            },
        };
        proof {
            lemma_read_qname_consumed(data@, original@);
        }
        if data.len() - read < 10 {
            return Err(ParserError::UnexpectedEOP);
        }
        let tcode = read_be16(data, read);
        let rtype = match Type::parse(tcode) {
            Ok(t) => t,
            Err(_) => Type::Unknown(tcode),
        };
        let (cache_flush, class) = Self::parse_class(read_be16(data, read + 2));
        let ttl = read_be32(data, read + 4);
        let rdlength = read_be16(data, read + 8);
        if rdlength as usize > data.len() - (read + 10) {
            return Err(ParserError::UnexpectedEOP);
        }
        let rdata_bytes = &data[read + 10..read + 10 + rdlength as usize];
        proof {
            assert(rdata_bytes@ =~= data@.subrange(
                read + 10,
                read + 10 + (rdlength as usize) as int,
            ));
        }
        let rdata = match RData::parse(rtype, rdata_bytes, original) {
            Ok(rd) => rd,
            Err(e) => {
                return Err(e);
            },
        };
        Ok(
            (
                ResourceRecord { name, rtype, class, cache_flush, ttl, rdlength, rdata },
                read + 10 + rdlength as usize,
            ),
        )
    }

    /// Splits the wire class word into the cache-flush bit and the class.
    pub fn parse_class(v: u16) -> (r: (bool, u16))
        ensures
            r == spec_parse_class(v),
    {
        (v & 0x8000 == 0x8000, v & 0x7fff)
    }
}

} // verus!
