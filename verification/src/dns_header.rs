use crate::byte_packet::{u16_be, BytePacketBuffer};
use crate::error::DecodeError;
use vstd::prelude::*;

verus! {

/// The header summary a message decode runs on: the four section counts.
///
/// The wire header also carries an identifier and packed flag bits; their
/// bit-layout is a collaborator's concern, so this reader skips those four
/// bytes and keeps only the counts the message decoder trusts.
#[derive(PartialEq, Eq, Debug, Clone, Copy, Structural)]
pub struct DnsHeader {
    pub questions: u16,
    pub answers: u16,
    pub authoritative_entries: u16,
    pub resource_entries: u16,
}

/// What decoding the 12-byte header starting at `start` yields: the four
/// counts and the position just past the header.
pub open spec fn header_decoded(buf: Seq<u8>, start: nat) -> Result<(DnsHeader, nat), DecodeError> {
    if start + 12 <= buf.len() {
        Ok(
            (
                DnsHeader {
                    questions: u16_be(buf, start as int + 4),
                    answers: u16_be(buf, start as int + 6),
                    authoritative_entries: u16_be(buf, start as int + 8),
                    resource_entries: u16_be(buf, start as int + 10),
                },
                (start + 12) as nat,
            ),
        )
    } else {
        Err(DecodeError::OutOfBounds)
    }
}

impl DnsHeader {
    /// A header with every count zero.
    pub fn new() -> (r: DnsHeader)
        ensures
            r.questions == 0,
            r.answers == 0,
            r.authoritative_entries == 0,
            r.resource_entries == 0,
    {
        DnsHeader { questions: 0, answers: 0, authoritative_entries: 0, resource_entries: 0 }
    }

    /// Reads the 12-byte header under the buffer's cursor: four bytes of
    /// identifier and flags are skipped, then the four big-endian counts are
    /// read. Fails when fewer than twelve bytes remain.
    pub fn read(&mut self, buffer: &mut BytePacketBuffer) -> (r: Result<(), DecodeError>)
        requires
            old(buffer).wf(),
        ensures
            final(buffer).buf == old(buffer).buf,
            final(buffer).wf(),
            match r {
                Ok(_) => header_decoded(old(buffer).buf@, old(buffer).position as nat) matches Ok(h)
                    && *final(self) == h.0 && final(buffer).position == h.1,
                Err(e) => header_decoded(old(buffer).buf@, old(buffer).position as nat) == Err::<
                    (DnsHeader, nat),
                    DecodeError,
                >(e),
            },
    {
        match buffer.step(4) {
            Ok(_) => {},
            Err(e) => {
                return Err(e);
            },
        };
        self.questions = match buffer.read_u16() {
            Ok(n) => n,
            Err(e) => {
                return Err(e);
            },
        };
        self.answers = match buffer.read_u16() {
            Ok(n) => n,
            Err(e) => {
                return Err(e);
            },
        };
        self.authoritative_entries = match buffer.read_u16() {
            Ok(n) => n,
            Err(e) => {
                return Err(e);
            },
        };
        self.resource_entries = match buffer.read_u16() {
            Ok(n) => n,
            Err(e) => {
                return Err(e);
            },
        };
        Ok(())
    }
}

} // verus!
