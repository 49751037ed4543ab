//! A bounds-checked decoder for DNS-style binary messages.
//!
//! The core is a fixed-capacity byte buffer with a movable read cursor
//! ([`byte_packet::BytePacketBuffer`]); on top of it stand a compressed-name
//! decoder with cycle protection ([`qname`]), a question decoder
//! ([`dns_question`]), a resource-record decoder ([`dns_record`]) and a
//! whole-message decoder ([`dns_packet`]). Every read is bounds-checked and
//! every decode either returns a fully populated value or the first error
//! encountered.

pub mod byte_packet;
pub mod dns_header;
pub mod dns_packet;
pub mod dns_question;
pub mod dns_record;
pub mod error;
pub mod qname;
