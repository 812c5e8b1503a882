//! A verified core for an mDNS repeater: a DNS wire-format parser with
//! compression-aware name decoding, a rule-driven forwarding engine, and
//! the computable parts of the multicast socket layer.
pub mod config;
pub mod directory;
pub mod parser;
pub mod processor;
pub mod socket;

pub use config::Config;
pub use config::MdnsConfig;
pub use parser::error::ParserError;
pub use parser::header::Header;
pub use parser::message::DnsMessage;
pub use parser::qname::Qname;
pub use parser::question::Question;
pub use parser::rdata::RData;
pub use parser::resource_record::ResourceRecord;
pub use parser::resource_record::Type;
