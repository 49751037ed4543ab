use crate::byte_packet::BytePacketBuffer;
use crate::dns_header::{header_decoded, DnsHeader};
use crate::dns_question::{question_decoded, DnsQuestion, QueryType};
use crate::dns_record::{record_decoded, DnsRecord, RecordModel};
use crate::error::DecodeError;
use vstd::prelude::*;

verus! {

/// The views of a sequence of questions, in order.
pub open spec fn questions_view(qs: Seq<DnsQuestion>) -> Seq<(Seq<char>, QueryType)> {
    qs.map_values(|q: DnsQuestion| q@)
}

/// The views of a sequence of records, in order.
pub open spec fn records_view(rs: Seq<DnsRecord>) -> Seq<RecordModel> {
    rs.map_values(|r: DnsRecord| r@)
}

/// Puts the items already decoded in front of what a decode of the remaining
/// items yields; an error stays an error.
pub open spec fn with_prefix<T>(prefix: Seq<T>, rest: Result<(Seq<T>, nat), DecodeError>) -> Result<
    (Seq<T>, nat),
    DecodeError,
> {
    match rest {
        Ok(d) => Ok((prefix + d.0, d.1)),
        Err(e) => Err(e),
    }
}

proof fn lemma_with_prefix_empty<T>(rest: Result<(Seq<T>, nat), DecodeError>)
    ensures
        with_prefix(Seq::<T>::empty(), rest) == rest,
{
    match rest {
        Ok(d) => {
            assert(Seq::<T>::empty() + d.0 =~= d.0);
        },
        Err(_) => {},
    }
}

proof fn lemma_with_prefix_assoc<T>(a: Seq<T>, b: Seq<T>, rest: Result<(Seq<T>, nat), DecodeError>)
    ensures
        with_prefix(a, with_prefix(b, rest)) == with_prefix(a + b, rest),
{
    match rest {
        Ok(d) => {
            assert(a + (b + d.0) =~= (a + b) + d.0);
        },
        Err(_) => {},
    }
}

/// What decoding `n` questions in sequence from `start` yields: their views
/// in order and the position just past the last one, or the first error.
pub open spec fn questions_decoded(buf: Seq<u8>, start: nat, n: nat) -> Result<
    (Seq<(Seq<char>, QueryType)>, nat),
    DecodeError,
>
    decreases n,
{
    if n == 0 {
        Ok((Seq::empty(), start))
    } else {
        match question_decoded(buf, start) {
            Err(e) => Err(e),
            Ok(q) => with_prefix(seq![(q.0, q.1)], questions_decoded(buf, q.2, (n - 1) as nat)),
        }
    }
}

/// What decoding `n` resource records in sequence from `start` yields: their
/// shapes in order and the position just past the last one, or the first
/// error.
pub open spec fn records_decoded(buf: Seq<u8>, start: nat, n: nat) -> Result<
    (Seq<RecordModel>, nat),
    DecodeError,
>
    decreases n,
{
    if n == 0 {
        Ok((Seq::empty(), start))
    } else {
        match record_decoded(buf, start) {
            Err(e) => Err(e),
            Ok(r) => with_prefix(seq![r.0], records_decoded(buf, r.1, (n - 1) as nat)),
        }
    }
}

/// The mathematical shape of a whole decoded message.
pub struct PacketModel {
    pub header: DnsHeader,
    pub questions: Seq<(Seq<char>, QueryType)>,
    pub answers: Seq<RecordModel>,
    pub authorities: Seq<RecordModel>,
    pub resources: Seq<RecordModel>,
}

/// What decoding a whole message from `start` yields: the header counts are
/// read first and trusted, then exactly that many questions, answers,
/// authorities and additional records in strict sequence. The first failure
/// aborts everything; there is no partial message.
pub open spec fn packet_decoded(buf: Seq<u8>, start: nat) -> Result<(PacketModel, nat), DecodeError> {
    match header_decoded(buf, start) {
        Err(e) => Err(e),
        Ok(h) => match questions_decoded(buf, h.1, h.0.questions as nat) {
            Err(e) => Err(e),
            Ok(qs) => match records_decoded(buf, qs.1, h.0.answers as nat) {
                Err(e) => Err(e),
                Ok(ans) => match records_decoded(buf, ans.1, h.0.authoritative_entries as nat) {
                    Err(e) => Err(e),
                    Ok(auth) => match records_decoded(buf, auth.1, h.0.resource_entries as nat) {
                        Err(e) => Err(e),
                        Ok(res) => Ok(
                            (
                                PacketModel {
                                    header: h.0,
                                    questions: qs.0,
                                    answers: ans.0,
                                    authorities: auth.0,
                                    resources: res.0,
                                },
                                res.1,
                            ),
                        ),
                    },
                },
            },
        },
    }
}

/// A fully decoded message: the header's counts and the four record
/// sections, each exactly as long as its count declared.
pub struct DnsPacket {
    pub header: DnsHeader,
    pub questions: Vec<DnsQuestion>,
    pub answers: Vec<DnsRecord>,
    pub authorities: Vec<DnsRecord>,
    pub resources: Vec<DnsRecord>,
}

/// Reads `count` records in sequence, collecting them in order.
fn read_records(buffer: &mut BytePacketBuffer, count: u16) -> (r: Result<
    Vec<DnsRecord>,
    DecodeError,
>)
    requires
        old(buffer).wf(),
    ensures
        final(buffer).buf == old(buffer).buf,
        final(buffer).wf(),
        match r {
            Ok(recs) => {
                &&& records_decoded(old(buffer).buf@, old(buffer).position as nat, count as nat)
                    matches Ok(d)
                &&& records_view(recs@) == d.0
                &&& final(buffer).position == d.1
            },
            Err(e) => records_decoded(old(buffer).buf@, old(buffer).position as nat, count as nat)
                == Err::<(Seq<RecordModel>, nat), DecodeError>(e),
        },
{
    let ghost buf0 = old(buffer).buf@;
    let ghost start0 = old(buffer).position as nat;
    let ghost target = records_decoded(buf0, start0, count as nat);
    let mut recs: Vec<DnsRecord> = Vec::new();
    let mut i: u16 = 0;
    proof {
        lemma_with_prefix_empty(target);
        assert(records_view(recs@) =~= Seq::<RecordModel>::empty());
    }
    while i < count
        invariant
            buf0 == old(buffer).buf@,
            start0 == old(buffer).position as nat,
            target == records_decoded(buf0, start0, count as nat),
            i <= count,
            buffer.wf(),
            buffer.buf@ == buf0,
            with_prefix(
                records_view(recs@),
                records_decoded(buf0, buffer.position as nat, (count - i) as nat),
            ) == target,
        decreases count - i,
    {
        let ghost pre = records_view(recs@);
        let ghost cur = buffer.position as nat;
        let rec = match DnsRecord::read(buffer) {
            Ok(rec) => rec,
            Err(e) => {
                proof {
                    assert(records_decoded(buf0, cur, (count - i) as nat) == Err::<
                        (Seq<RecordModel>, nat),
                        DecodeError,
                    >(e));
                }
                return Err(e);
            },
        };
        recs.push(rec);
        proof {
            let d = record_decoded(buf0, cur)->Ok_0;
            assert(records_decoded(buf0, cur, (count - i) as nat) == with_prefix(
                seq![d.0],
                records_decoded(buf0, d.1, (count - i - 1) as nat),
            ));
            lemma_with_prefix_assoc(
                pre,
                seq![d.0],
                records_decoded(buf0, d.1, (count - i - 1) as nat),
            );
            assert(records_view(recs@) =~= pre + seq![d.0]);
        }
        i = i + 1;
    }
    proof {
        lemma_with_prefix_empty(records_decoded(buf0, buffer.position as nat, 0));
        let d = records_decoded(buf0, buffer.position as nat, 0)->Ok_0;
        assert(records_view(recs@) + d.0 =~= records_view(recs@));
    }
    Ok(recs)
}

impl DnsPacket {
    /// An empty message: zero counts and four empty sections.
    pub fn new() -> (r: DnsPacket)
        ensures
            r.header.questions == 0,
            r.header.answers == 0,
            r.header.authoritative_entries == 0,
            r.header.resource_entries == 0,
            r.questions@.len() == 0,
            r.answers@.len() == 0,
            r.authorities@.len() == 0,
            r.resources@.len() == 0,
    {
        DnsPacket {
            header: DnsHeader::new(),
            questions: Vec::new(),
            answers: Vec::new(),
            authorities: Vec::new(),
            resources: Vec::new(),
        }
    }

    /// Decodes a whole message from the buffer: the header first, then as
    /// many questions, answers, authorities and additional records as its
    /// counts declared, in strict order. The counts are trusted; a count the
    /// remaining bytes cannot supply surfaces as the first failing per-item
    /// read, which aborts the entire decode.
    pub fn from_buffer(buffer: &mut BytePacketBuffer) -> (r: Result<DnsPacket, DecodeError>)
        requires
            old(buffer).wf(),
        ensures
            final(buffer).buf == old(buffer).buf,
            final(buffer).wf(),
            match r {
                Ok(p) => {
                    &&& packet_decoded(old(buffer).buf@, old(buffer).position as nat) matches Ok(d)
                    &&& p.header == d.0.header
                    &&& questions_view(p.questions@) == d.0.questions
                    &&& records_view(p.answers@) == d.0.answers
                    &&& records_view(p.authorities@) == d.0.authorities
                    &&& records_view(p.resources@) == d.0.resources
                    &&& final(buffer).position == d.1
                },
                Err(e) => packet_decoded(old(buffer).buf@, old(buffer).position as nat) == Err::<
                    (PacketModel, nat),
                    DecodeError,
                >(e),
            },
    {
        let ghost buf0 = old(buffer).buf@;
        let ghost start0 = old(buffer).position as nat;
        let mut result = DnsPacket::new();
        match result.header.read(buffer) {
            Ok(_) => {},
            Err(e) => {
                return Err(e);
            },
        };
        let ghost hm = result.header;
        let ghost q0 = buffer.position as nat;
        let ghost qtarget = questions_decoded(buf0, q0, hm.questions as nat);

        let qcount = result.header.questions;
        let mut i: u16 = 0;
        proof {
            lemma_with_prefix_empty(qtarget);
            assert(questions_view(result.questions@) =~= Seq::<(Seq<char>, QueryType)>::empty());
        }
        while i < qcount
            invariant
                buf0 == old(buffer).buf@,
                start0 == old(buffer).position as nat,
                header_decoded(buf0, start0) == Ok::<(DnsHeader, nat), DecodeError>((hm, q0)),
                result.header == hm,
                qcount == hm.questions,
                qtarget == questions_decoded(buf0, q0, qcount as nat),
                i <= qcount,
                buffer.wf(),
                buffer.buf@ == buf0,
                with_prefix(
                    questions_view(result.questions@),
                    questions_decoded(buf0, buffer.position as nat, (qcount - i) as nat),
                ) == qtarget,
            decreases qcount - i,
        {
            let ghost pre = questions_view(result.questions@);
            let ghost cur = buffer.position as nat;
            let mut question = DnsQuestion::new(String::new(), QueryType::UNKNOWN(0));
            match question.read(buffer) {
                Ok(_) => {},
                Err(e) => {
                    proof {
                        assert(questions_decoded(buf0, cur, (qcount - i) as nat) == Err::<
                            (Seq<(Seq<char>, QueryType)>, nat),
                            DecodeError,
                        >(e));
                    }
                    return Err(e);
                },
            };
            result.questions.push(question);
            proof {
                let q = question_decoded(buf0, cur)->Ok_0;
                assert(question@ == (q.0, q.1)) by {
                    assert(Seq::<char>::empty() + q.0 =~= q.0);
                }
                assert(questions_decoded(buf0, cur, (qcount - i) as nat) == with_prefix(
                    seq![(q.0, q.1)],
                    questions_decoded(buf0, q.2, (qcount - i - 1) as nat),
                ));
                lemma_with_prefix_assoc(
                    pre,
                    seq![(q.0, q.1)],
                    questions_decoded(buf0, q.2, (qcount - i - 1) as nat),
                );
                assert(questions_view(result.questions@) =~= pre + seq![(q.0, q.1)]);
            }
            i = i + 1;
        }
        proof {
            lemma_with_prefix_empty(questions_decoded(buf0, buffer.position as nat, 0));
            let d = questions_decoded(buf0, buffer.position as nat, 0)->Ok_0;
            assert(questions_view(result.questions@) + d.0 =~= questions_view(result.questions@));
        }

        result.answers = match read_records(buffer, result.header.answers) {
            Ok(recs) => recs,
            Err(e) => {
                return Err(e);
            },
        };
        result.authorities = match read_records(buffer, result.header.authoritative_entries) {
            Ok(recs) => recs,
            Err(e) => {
                return Err(e);
            },
        };
        result.resources = match read_records(buffer, result.header.resource_entries) {
            Ok(recs) => recs,
            Err(e) => {
                return Err(e);
            },
        };
        Ok(result)
    }
}

/// A header that declares zero questions, answers, authorities and
/// additional records decodes to a message with all four sections empty,
/// whatever the rest of the buffer holds, ending just past the header.
pub proof fn lemma_empty_counts_empty_packet(buf: Seq<u8>, start: nat)
    requires
        header_decoded(buf, start) matches Ok(h) && h.0.questions == 0 && h.0.answers == 0
            && h.0.authoritative_entries == 0 && h.0.resource_entries == 0,
    ensures
        packet_decoded(buf, start) matches Ok(d) && d.0.questions.len() == 0 && d.0.answers.len()
            == 0 && d.0.authorities.len() == 0 && d.0.resources.len() == 0 && d.1 == start + 12,
{
}

} // verus!
