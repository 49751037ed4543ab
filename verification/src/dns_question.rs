use crate::byte_packet::{u16_be, BytePacketBuffer};
use crate::error::DecodeError;
use crate::qname::qname_decoded;
use vstd::prelude::*;

verus! {

/// The recognized query-type tags, plus a catch-all that keeps the raw
/// numeric value of any unrecognized tag, so unknown tags round-trip without
/// loss.
#[derive(PartialEq, Eq, Debug, Clone, Hash, Copy, Structural)]
pub enum QueryType {
    UNKNOWN(u16),
    A,  // tag 1
}

/// Which variant a raw 16-bit tag maps to.
pub open spec fn query_type_of(num: u16) -> QueryType {
    if num == 1 {
        QueryType::A
    } else {
        QueryType::UNKNOWN(num)
    }
}

/// The raw 16-bit tag a variant stands for.
pub open spec fn query_type_num(qtype: QueryType) -> u16 {
    match qtype {
        QueryType::UNKNOWN(x) => x,
        QueryType::A => 1,
    }
}

impl QueryType {
    /// Maps a raw tag to its variant; unrecognized tags are preserved in the
    /// catch-all.
    pub fn from_num(num: u16) -> (r: QueryType)
        ensures
            r == query_type_of(num),
    {
        match num {
            1 => QueryType::A,
            _ => QueryType::UNKNOWN(num),
        }
    }

    /// The raw tag this variant stands for.
    pub fn to_enum(&self) -> (r: u16)
        ensures
            r == query_type_num(*self),
    {
        match *self {
            QueryType::UNKNOWN(x) => x,
            QueryType::A => 1,
        }
    }
}

/// Every raw tag survives the trip through the enumeration unchanged: mapping
/// a number to its variant and back yields the same number, recognized or
/// not.
pub proof fn lemma_query_type_round_trip(num: u16)
    ensures
        query_type_num(query_type_of(num)) == num,
{
}

/// One decoded question: a domain name and its query-type tag.
#[derive(PartialEq, Eq, Debug, Clone)]
pub struct DnsQuestion {
    pub name: String,
    pub qtype: QueryType,
}

impl View for DnsQuestion {
    type V = (Seq<char>, QueryType);

    open spec fn view(&self) -> (Seq<char>, QueryType) {
        (self.name@, self.qtype)
    }
}

/// What decoding one question starting at `start` yields: the name's
/// characters, the query type, and the position just past the question.
pub open spec fn question_decoded(buf: Seq<u8>, start: nat) -> Result<
    (Seq<char>, QueryType, nat),
    DecodeError,
> {
    match qname_decoded(buf, start) {
        Err(e) => Err(e),
        Ok(d) => {
            if d.1 + 2 <= buf.len() {
                Ok((d.0, query_type_of(u16_be(buf, d.1 as int)), (d.1 + 2) as nat))
            } else {
                Err(DecodeError::OutOfBounds)
            }
        },
    }
}

impl DnsQuestion {
    pub fn new(name: String, qtype: QueryType) -> (r: DnsQuestion)
        ensures
            r.name == name,
            r.qtype == qtype,
    {
        DnsQuestion { name, qtype }
    }

    /// Decodes a question under the buffer's cursor: a name followed by a
    /// 16-bit query-type tag. The name is appended to `self.name`; the tag
    /// replaces `self.qtype`. Fails when either sub-read fails, with no
    /// partial-question recovery.
    pub fn read(&mut self, buffer: &mut BytePacketBuffer) -> (r: Result<(), DecodeError>)
        requires
            old(buffer).wf(),
        ensures
            final(buffer).buf == old(buffer).buf,
            final(buffer).wf(),
            match r {
                Ok(_) => {
                    &&& question_decoded(old(buffer).buf@, old(buffer).position as nat) matches Ok(q)
                    &&& final(self).name@ == old(self).name@ + q.0
                    &&& final(self).qtype == q.1
                    &&& final(buffer).position == q.2
                },
                Err(e) => question_decoded(old(buffer).buf@, old(buffer).position as nat) == Err::<
                    (Seq<char>, QueryType, nat),
                    DecodeError,
                >(e),
            },
    {
        match buffer.read_qname(&mut self.name) {
            Ok(_) => {},
            Err(e) => {
                return Err(e);
            },
        };
        let num = match buffer.read_u16() {
            Ok(n) => n,
            Err(e) => {
                return Err(e);
            },
        };
        self.qtype = QueryType::from_num(num);
        Ok(())
    }
}

} // verus!
