use crate::byte_packet::{u16_be, u32_be, BytePacketBuffer};
use crate::dns_question::{QueryType, query_type_of};
use crate::error::DecodeError;
use crate::qname::qname_decoded;
use vstd::prelude::*;

verus! {

/// A 4-byte network address, held as plain octets.
#[derive(Debug, Clone, Copy, PartialEq, Eq, Hash, PartialOrd, Ord)]
pub struct Ipv4Addr {
    pub octets: [u8; 4],
}

impl Ipv4Addr {
    pub fn new(a: u8, b: u8, c: u8, d: u8) -> (r: Ipv4Addr)
        ensures
            r.octets@ =~= seq![a, b, c, d],
    {
        Ipv4Addr { octets: [a, b, c, d] }
    }
}

/// The four octets of a 32-bit value, highest first.
pub open spec fn u32_octets(raw: u32) -> Seq<u8> {
    seq![
        ((raw >> 24) & 0xFF) as u8,
        ((raw >> 16) & 0xFF) as u8,
        ((raw >> 8) & 0xFF) as u8,
        (raw & 0xFF) as u8,
    ]
}

/// Reading a 32-bit value big-endian and splitting it back into octets
/// returns exactly the four bytes it was read from.
pub proof fn lemma_u32_octets_be(buf: Seq<u8>, p: int)
    requires
        0 <= p,
        p + 4 <= buf.len(),
    ensures
        u32_octets(u32_be(buf, p)) =~= buf.subrange(p, p + 4),
{
    let b0 = buf[p];
    let b1 = buf[p + 1];
    let b2 = buf[p + 2];
    let b3 = buf[p + 3];
    let raw = u32_be(buf, p);
    assert(raw == (b0 as u32) * 0x1000000 + (b1 as u32) * 0x10000 + (b2 as u32) * 256 + (
    b3 as u32));
    assert(raw == (b0 as u32) * 0x1000000 + (b1 as u32) * 0x10000 + (b2 as u32) * 256 + (b3 as u32)
        ==> ((raw >> 24) & 0xFF) == b0 as u32 && ((raw >> 16) & 0xFF) == b1 as u32 && ((raw >> 8)
        & 0xFF) == b2 as u32 && (raw & 0xFF) == b3 as u32) by (bit_vector);
}

/// One decoded resource record. The variant is chosen solely by the type tag
/// read just after the name: a recognized address record is decoded in full,
/// while any other tag yields the catch-all variant that keeps the raw tag
/// and the declared payload length, the payload bytes themselves skipped and
/// discarded.
#[derive(Debug, Clone, PartialEq, Eq, Hash, PartialOrd, Ord)]
pub enum DnsRecord {
    UNKNOWN { domain: String, qtype: u16, data_len: u16, ttl: u32 },
    A { domain: String, addr: Ipv4Addr, ttl: u32 },
}

/// The mathematical shape of a decoded record.
pub enum RecordModel {
    Unknown { domain: Seq<char>, qtype: u16, data_len: u16, ttl: u32 },
    Address { domain: Seq<char>, octets: Seq<u8>, ttl: u32 },
}

impl View for DnsRecord {
    type V = RecordModel;

    open spec fn view(&self) -> RecordModel {
        match self {
            DnsRecord::UNKNOWN { domain, qtype, data_len, ttl } => RecordModel::Unknown {
                domain: domain@,
                qtype: *qtype,
                data_len: *data_len,
                ttl: *ttl,
            },
            DnsRecord::A { domain, addr, ttl } => RecordModel::Address {
                domain: domain@,
                octets: addr.octets@,
                ttl: *ttl,
            },
        }
    }
}

/// What decoding one resource record starting at `start` yields: the record's
/// shape and the position just past it. After the name come the 16-bit type
/// tag, a 16-bit class field that is read and ignored, the 32-bit TTL and the
/// 16-bit declared payload length; the payload is then 4 address bytes for
/// tag 1, or `data_len` skipped bytes for any other tag.
pub open spec fn record_decoded(buf: Seq<u8>, start: nat) -> Result<(RecordModel, nat), DecodeError> {
    match qname_decoded(buf, start) {
        Err(e) => Err(e),
        Ok(d) => {
            let p = d.1 as int;
            if p + 10 > buf.len() {
                Err(DecodeError::OutOfBounds)
            } else {
                let tag = u16_be(buf, p);
                let ttl = u32_be(buf, p + 4);
                let data_len = u16_be(buf, p + 8);
                if tag == 1 {
                    if p + 14 <= buf.len() {
                        Ok(
                            (
                                RecordModel::Address {
                                    domain: d.0,
                                    octets: buf.subrange(p + 10, p + 14),
                                    ttl,
                                },
                                (p + 14) as nat,
                            ),
                        )
                    } else {
                        Err(DecodeError::OutOfBounds)
                    }
                } else {
                    if p + 10 + data_len <= buf.len() {
                        Ok(
                            (
                                RecordModel::Unknown { domain: d.0, qtype: tag, data_len, ttl },
                                (p + 10 + data_len) as nat,
                            ),
                        )
                    } else {
                        Err(DecodeError::OutOfBounds)
                    }
                }
            }
        },
    }
}

impl DnsRecord {
    /// Decodes one resource record under the buffer's cursor. Any bounds
    /// violation in any sub-read aborts the whole record and propagates.
    pub fn read(buffer: &mut BytePacketBuffer) -> (r: Result<DnsRecord, DecodeError>)
        requires
            old(buffer).wf(),
        ensures
            final(buffer).buf == old(buffer).buf,
            final(buffer).wf(),
            match r {
                Ok(rec) => {
                    &&& record_decoded(old(buffer).buf@, old(buffer).position as nat) matches Ok(d)
                    &&& rec@ == d.0
                    &&& final(buffer).position == d.1
                },
                Err(e) => record_decoded(old(buffer).buf@, old(buffer).position as nat) == Err::<
                    (RecordModel, nat),
                    DecodeError,
                >(e),
            },
    {
        let ghost buf0 = old(buffer).buf@;
        let ghost start = old(buffer).position as nat;
        let mut domain = String::new();
        match buffer.read_qname(&mut domain) {
            Ok(_) => {},
            Err(e) => {
                return Err(e);
            },
        };
        let qtype_num = match buffer.read_u16() {
            Ok(n) => n,
            Err(e) => {
                return Err(e);
            },
        };
        let qtype = QueryType::from_num(qtype_num);
        let _ = match buffer.read_u16() {
            Ok(n) => n,
            Err(e) => {
                return Err(e);
            },
        };
        let ttl = match buffer.read_u32() {
            Ok(n) => n,
            Err(e) => {
                return Err(e);
            },
        };
        let data_len = match buffer.read_u16() {
            Ok(n) => n,
            Err(e) => {
                return Err(e);
            },
        };

        match qtype {
            QueryType::A => {
                let ghost p = qname_decoded(buf0, start)->Ok_0.1 as int;
                let raw_addr = match buffer.read_u32() {
                    Ok(n) => n,
                    Err(e) => {
                        return Err(e);
                    },
                };
                assert(((raw_addr >> 24) & 0xFF) <= 0xFF && ((raw_addr >> 16) & 0xFF) <= 0xFF && ((
                raw_addr >> 8) & 0xFF) <= 0xFF && (raw_addr & 0xFF) <= 0xFF) by (bit_vector);
                let addr = Ipv4Addr::new(
                    ((raw_addr >> 24) & 0xFF) as u8,
                    ((raw_addr >> 16) & 0xFF) as u8,
                    ((raw_addr >> 8) & 0xFF) as u8,
                    (raw_addr & 0xFF) as u8,
                );
                proof {
                    assert(addr.octets@ =~= u32_octets(raw_addr));
                    lemma_u32_octets_be(buf0, p + 10);
                }
                Ok(DnsRecord::A { domain, addr, ttl })
            },
            QueryType::UNKNOWN(_) => {
                match buffer.step(data_len as usize) {
                    Ok(_) => {},
                    Err(e) => {
                        return Err(e);
                    },
                };
                Ok(DnsRecord::UNKNOWN { domain, qtype: qtype_num, data_len, ttl })
            },
        }
    }
}

/// An unrecognized record's payload is skipped whole: whatever the payload
/// bytes hold, decoding consumes exactly `data_len` of them past the fixed
/// fields, and the decoded record preserves the raw tag and the declared
/// length unchanged.
pub proof fn lemma_unknown_record_skips_payload(buf: Seq<u8>, start: nat, name: Seq<char>, p: nat)
    requires
        qname_decoded(buf, start) == Ok::<(Seq<char>, nat), DecodeError>((name, p)),
        p + 10 <= buf.len(),
        u16_be(buf, p as int) != 1,
        p + 10 + u16_be(buf, p as int + 8) <= buf.len(),
    ensures
        record_decoded(buf, start) == Ok::<(RecordModel, nat), DecodeError>(
            (
                RecordModel::Unknown {
                    domain: name,
                    qtype: u16_be(buf, p as int),
                    data_len: u16_be(buf, p as int + 8),
                    ttl: u32_be(buf, p as int + 4),
                },
                (p + 10 + u16_be(buf, p as int + 8)) as nat,
            ),
        ),
{
}

} // verus!
