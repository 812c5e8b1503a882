//! DNS wire-format decoding: header, compression-aware names, questions,
//! resource records and their rdata variants.
pub mod bounds;
pub mod bytes;
pub mod error;
pub mod header;
pub mod message;
pub mod qname;
pub mod question;
pub mod rdata;
pub mod resource_record;
