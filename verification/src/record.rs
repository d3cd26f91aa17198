//! The resource record: a name, a ten-byte fixed block (type, class,
//! time-to-live, payload length) and a length-prefixed opaque payload whose
//! interpretation depends on the record type.

use vstd::prelude::*;

use crate::bytes::be16_at;
use crate::bytes::be32_at;
use crate::bytes::read_be16;
use crate::bytes::read_be32;
use crate::name::decode_dns_name;
use crate::name::decode_name_full;
use crate::types::DnsError;
use crate::types::Ipv4;

verus! {

/// The record type whose payload is an IPv4 address.
pub const TYPE_A: u16 = 1;

/// The record type whose payload is a delegated nameserver's name.
pub const TYPE_NS: u16 = 2;

/// One entry of the answer, authority or additional section of a packet.
#[derive(Debug, PartialEq)]
pub struct DNSRecord {
    pub name: Vec<u8>,
    pub type_: u16,
    pub class: u16,
    pub ttl: u32,
    pub data: Vec<u8>,
}

/// The mathematical image of a record: name and payload as byte sequences.
pub struct RecordView {
    pub name: Seq<u8>,
    pub type_: u16,
    pub class: u16,
    pub ttl: u32,
    pub data: Seq<u8>,
}

impl View for DNSRecord {
    type V = RecordView;

    open spec fn view(&self) -> RecordView {
        RecordView {
            name: self.name@,
            type_: self.type_,
            class: self.class,
            ttl: self.ttl,
            data: self.data@,
        }
    }
}

/// Parsing of the resource record that starts at position `pos`: a name,
/// the ten-byte fixed block, then exactly as many payload bytes as the
/// length field declares.
pub open spec fn parse_record_spec(buf: Seq<u8>, pos: int) -> Result<(RecordView, int), DnsError> {
    match decode_name_full(buf, pos) {
        Err(e) => Err(e),
        Ok((name, p)) => if p + 10 <= buf.len() {
            if p + 10 + be16_at(buf, p + 8) <= buf.len() {
                Ok(
                    (
                        RecordView {
                            name,
                            type_: be16_at(buf, p) as u16,
                            class: be16_at(buf, p + 2) as u16,
                            ttl: be32_at(buf, p + 4) as u32,
                            data: buf.subrange(p + 10, p + 10 + be16_at(buf, p + 8)),
                        },
                        p + 10 + be16_at(buf, p + 8),
                    ),
                )
            } else {
                Err(DnsError::Truncated)
            }
        } else {
            Err(DnsError::Truncated)
        },
    }
}

/// The address a record yields: only an A record has one, and only when its
/// payload is exactly four bytes.
pub open spec fn parse_ip_spec(rec: RecordView) -> Result<Ipv4, DnsError> {
    if rec.type_ != TYPE_A {
        Err(DnsError::NotARecord)
    } else if rec.data.len() != 4 {
        Err(DnsError::InvalidIpLength)
    } else {
        Ok(Ipv4 { a: rec.data[0], b: rec.data[1], c: rec.data[2], d: rec.data[3] })
    }
}

/// The delegated nameserver name a record yields: only an NS record has
/// one. The payload is read as a byte stream of its own, so a compression
/// pointer inside it refers to offsets within the payload.
pub open spec fn parse_ns_spec(rec: RecordView) -> Result<Seq<u8>, DnsError> {
    if rec.type_ != TYPE_NS {
        Err(DnsError::NotNsRecord)
    } else {
        match decode_name_full(rec.data, 0) {
            Ok((name, _)) => Ok(name),
            Err(e) => Err(e),
        }
    }
}

impl DNSRecord {
    /// Parses the resource record that starts at position `pos` of `buf`.
    pub fn parse(buf: &Vec<u8>, pos: usize) -> (r: Result<(Self, usize), DnsError>)
        ensures
            ({
                let s = parse_record_spec(buf@, pos as int);
                match r {
                    Ok((rec, end)) => s matches Ok(sr) && rec@ == sr.0 && end == sr.1,
                    Err(e) => s matches Err(se) && e == se,
                }
            }),
    {
        match decode_dns_name(buf, pos) {
            Err(e) => Err(e),
            Ok((name, p)) => {
                let n = buf.len();
                if p > n || n - p < 10 {
                    return Err(DnsError::Truncated);
                }
                let type_ = read_be16(buf, p);
                let class = read_be16(buf, p + 2);
                let ttl = read_be32(buf, p + 4);
                let data_len = read_be16(buf, p + 8) as usize;
                if data_len > n - (p + 10) {
                    return Err(DnsError::Truncated);
                }

                let mut data: Vec<u8> = Vec::new();
                let mut i: usize = 0;
                while i < data_len
                    invariant
                        0 <= i <= data_len,
                        p + 10 + data_len <= n == buf@.len(),
                        data@ == buf@.subrange(p + 10, p + 10 + i),
                    decreases data_len - i,
                {
                    let b = buf[p + 10 + i];
                    data.push(b);
                    proof {
                        assert(data@ =~= buf@.subrange(p + 10, p + 10 + (i + 1)));
                    }
                    i = i + 1;
                }

                Ok((DNSRecord { name, type_, class, ttl, data }, p + 10 + data_len))
            },
        }
    }

    /// Interprets the record's payload as an IPv4 address.
    pub fn parse_ip_address(&self) -> (r: Result<Ipv4, DnsError>)
        ensures
            r == parse_ip_spec(self@),
    {
        if self.type_ != TYPE_A {
            return Err(DnsError::NotARecord);
        }
        if self.data.len() != 4 {
            return Err(DnsError::InvalidIpLength);
        }
        Ok(Ipv4 { a: self.data[0], b: self.data[1], c: self.data[2], d: self.data[3] })
    }

    /// Interprets the record's payload as a delegated nameserver's name.
    pub fn parse_domain_name(&self) -> (r: Result<Vec<u8>, DnsError>)
        ensures
            ({
                let s = parse_ns_spec(self@);
                match r {
                    Ok(name) => s matches Ok(sn) && name@ == sn,
                    Err(e) => s matches Err(se) && e == se,
                }
            }),
    {
        if self.type_ != TYPE_NS {
            return Err(DnsError::NotNsRecord);
        }
        match decode_dns_name(&self.data, 0) {
            Ok((name, _)) => Ok(name),
            Err(e) => Err(e),
        }
    }
}

} // verus!
