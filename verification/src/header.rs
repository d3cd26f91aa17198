//! The fixed 12-byte packet header: six big-endian 16-bit fields in a set
//! order — transaction id, flags, and the counts of questions, answers,
//! authority records and additional records.

use vstd::prelude::*;

use crate::bytes::be16_at;
use crate::bytes::be16_bytes;
use crate::bytes::lemma_be16_bytes_roundtrip;
use crate::bytes::push_be16;
use crate::bytes::read_be16;
use crate::types::DnsError;

verus! {

/// The fixed preamble of every DNS message.
#[derive(Clone, Copy, Debug, PartialEq, Eq, Structural)]
pub struct DNSHeader {
    pub id: u16,
    pub flags: u16,
    pub num_questions: u16,
    pub num_answers: u16,
    pub num_authorities: u16,
    pub num_additionals: u16,
}

/// The 12 bytes of a header on the wire.
pub open spec fn header_bytes_spec(h: DNSHeader) -> Seq<u8> {
    be16_bytes(h.id) + be16_bytes(h.flags) + be16_bytes(h.num_questions) + be16_bytes(
        h.num_answers,
    ) + be16_bytes(h.num_authorities) + be16_bytes(h.num_additionals)
}

/// Parsing of the header that starts at position `pos`: exactly twelve
/// bytes; a shorter buffer fails.
pub open spec fn parse_header_spec(buf: Seq<u8>, pos: int) -> Result<(DNSHeader, int), DnsError>
    recommends
        0 <= pos,
{
    if pos + 12 <= buf.len() {
        Ok(
            (
                DNSHeader {
                    id: be16_at(buf, pos) as u16,
                    flags: be16_at(buf, pos + 2) as u16,
                    num_questions: be16_at(buf, pos + 4) as u16,
                    num_answers: be16_at(buf, pos + 6) as u16,
                    num_authorities: be16_at(buf, pos + 8) as u16,
                    num_additionals: be16_at(buf, pos + 10) as u16,
                },
                pos + 12,
            ),
        )
    } else {
        Err(DnsError::Truncated)
    }
}

impl DNSHeader {
    /// Serialises the header, the six fields big-endian in wire order.
    pub fn to_be_bytes(&self) -> (r: Vec<u8>)
        ensures
            r@ == header_bytes_spec(*self),
    {
        let mut bytes: Vec<u8> = Vec::new();
        push_be16(&mut bytes, self.id);
        push_be16(&mut bytes, self.flags);
        push_be16(&mut bytes, self.num_questions);
        push_be16(&mut bytes, self.num_answers);
        push_be16(&mut bytes, self.num_authorities);
        push_be16(&mut bytes, self.num_additionals);
        proof {
            assert(bytes@ =~= header_bytes_spec(*self));
        }
        bytes
    }

    /// Parses the header that starts at position `pos` of `buf`.
    pub fn parse(buf: &Vec<u8>, pos: usize) -> (r: Result<(Self, usize), DnsError>)
        ensures
            ({
                let s = parse_header_spec(buf@, pos as int);
                match r {
                    Ok((h, end)) => s == Ok::<(DNSHeader, int), DnsError>((h, end as int)),
                    Err(e) => s == Err::<(DNSHeader, int), DnsError>(e),
                }
            }),
    {
        let n = buf.len();
        if pos > n || n - pos < 12 {
            return Err(DnsError::Truncated);
        }
        let header = DNSHeader {
            id: read_be16(buf, pos),
            flags: read_be16(buf, pos + 2),
            num_questions: read_be16(buf, pos + 4),
            num_answers: read_be16(buf, pos + 6),
            num_authorities: read_be16(buf, pos + 8),
            num_additionals: read_be16(buf, pos + 10),
        };
        Ok((header, pos + 12))
    }
}

/// Wherever a message holds a serialised header as a contiguous run of
/// twelve bytes, parsing from the start of that run yields the original six
/// field values.
pub proof fn lemma_header_parses_at(buf: Seq<u8>, pos: int, h: DNSHeader)
    requires
        0 <= pos,
        pos + 12 <= buf.len(),
        buf.subrange(pos, pos + 12) == header_bytes_spec(h),
    ensures
        parse_header_spec(buf, pos) == Ok::<(DNSHeader, int), DnsError>((h, pos + 12)),
{
    let b = header_bytes_spec(h);
    assert forall|j: int| 0 <= j < 12 implies buf[pos + j] == b[j] by {
        assert(buf.subrange(pos, pos + 12)[j] == b[j]);
    }
    lemma_be16_bytes_roundtrip(h.id);
    lemma_be16_bytes_roundtrip(h.flags);
    lemma_be16_bytes_roundtrip(h.num_questions);
    lemma_be16_bytes_roundtrip(h.num_answers);
    lemma_be16_bytes_roundtrip(h.num_authorities);
    lemma_be16_bytes_roundtrip(h.num_additionals);
    assert(b[0] == be16_bytes(h.id)[0] && b[1] == be16_bytes(h.id)[1]);
    assert(b[2] == be16_bytes(h.flags)[0] && b[3] == be16_bytes(h.flags)[1]);
    assert(b[4] == be16_bytes(h.num_questions)[0] && b[5] == be16_bytes(h.num_questions)[1]);
    assert(b[6] == be16_bytes(h.num_answers)[0] && b[7] == be16_bytes(h.num_answers)[1]);
    assert(b[8] == be16_bytes(h.num_authorities)[0] && b[9] == be16_bytes(h.num_authorities)[1]);
    assert(b[10] == be16_bytes(h.num_additionals)[0] && b[11] == be16_bytes(h.num_additionals)[1]);
}

/// Header round trip: parsing a serialised header yields the original six
/// field values, consuming exactly twelve bytes.
pub proof fn lemma_header_round_trip(h: DNSHeader)
    ensures
        parse_header_spec(header_bytes_spec(h), 0) == Ok::<(DNSHeader, int), DnsError>((h, 12)),
{
    let b = header_bytes_spec(h);
    assert(b.subrange(0, 12) =~= b);
    lemma_header_parses_at(b, 0, h);
}

} // verus!
