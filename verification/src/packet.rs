//! The full decoded message: a header, then exactly as many questions,
//! answers, authority records and additional records as the header's counts
//! declare, read in that fixed order from one shared cursor. Any short read
//! or malformed label anywhere fails the whole packet.

use vstd::prelude::*;

use crate::header::parse_header_spec;
use crate::header::DNSHeader;
use crate::question::parse_question_spec;
use crate::question::DNSQuestion;
use crate::question::QuestionView;
use crate::record::parse_ip_spec;
use crate::record::parse_ns_spec;
use crate::record::parse_record_spec;
use crate::record::DNSRecord;
use crate::record::RecordView;
use crate::record::TYPE_A;
use crate::record::TYPE_NS;
use crate::types::DnsError;
use crate::types::Ipv4;

verus! {

/// Parsing of `n` consecutive questions starting at position `pos`.
pub open spec fn parse_questions_spec(buf: Seq<u8>, pos: int, n: nat) -> Result<
    (Seq<QuestionView>, int),
    DnsError,
>
    decreases n,
{
    if n == 0 {
        Ok((Seq::empty(), pos))
    } else {
        match parse_question_spec(buf, pos) {
            Err(e) => Err(e),
            Ok((q, p)) => match parse_questions_spec(buf, p, (n - 1) as nat) {
                Err(e) => Err(e),
                Ok((qs, end)) => Ok((seq![q] + qs, end)),
            },
        }
    }
}

/// Parsing of `n` consecutive resource records starting at position `pos`.
pub open spec fn parse_records_spec(buf: Seq<u8>, pos: int, n: nat) -> Result<
    (Seq<RecordView>, int),
    DnsError,
>
    decreases n,
{
    if n == 0 {
        Ok((Seq::empty(), pos))
    } else {
        match parse_record_spec(buf, pos) {
            Err(e) => Err(e),
            Ok((rec, p)) => match parse_records_spec(buf, p, (n - 1) as nat) {
                Err(e) => Err(e),
                Ok((rs, end)) => Ok((seq![rec] + rs, end)),
            },
        }
    }
}

/// The views of the questions held by a vector.
pub open spec fn questions_view(v: Seq<DNSQuestion>) -> Seq<QuestionView> {
    v.map(|i: int, q: DNSQuestion| q@)
}

/// The views of the records held by a vector.
pub open spec fn records_view(v: Seq<DNSRecord>) -> Seq<RecordView> {
    v.map(|i: int, r: DNSRecord| r@)
}

/// Parses `count` consecutive questions starting at position `pos`.
fn parse_questions(buf: &Vec<u8>, pos: usize, count: u16) -> (r: Result<
    (Vec<DNSQuestion>, usize),
    DnsError,
>)
    ensures
        ({
            let s = parse_questions_spec(buf@, pos as int, count as nat);
            match r {
                Ok((qs, end)) => s matches Ok(sq) && questions_view(qs@) == sq.0 && end == sq.1
                    && qs@.len() == count,
                Err(e) => s matches Err(se) && e == se,
            }
        }),
{
    let mut questions: Vec<DNSQuestion> = Vec::new();
    let mut cur = pos;
    let mut i: u16 = 0;
    while i < count
        invariant
            0 <= i <= count,
            questions@.len() == i,
            ({
                let full = parse_questions_spec(buf@, pos as int, count as nat);
                match parse_questions_spec(buf@, cur as int, (count - i) as nat) {
                    Ok((qs, end)) => full matches Ok(sq) && questions_view(questions@) + qs == sq.0
                        && end == sq.1,
                    Err(e) => full matches Err(se) && e == se,
                }
            }),
        decreases count - i,
    {
        match DNSQuestion::parse(buf, cur) {
            Err(e) => {
                return Err(e);
            },
            Ok((q, p)) => {
                proof {
                    let rem_after = parse_questions_spec(buf@, p as int, (count - i - 1) as nat);
                    if rem_after is Ok {
                        assert(questions_view(questions@) + (seq![q@] + rem_after->Ok_0.0)
                            =~= questions_view(questions@.push(q)) + rem_after->Ok_0.0);
                    }
                }
                questions.push(q);
                cur = p;
            },
        }
        i = i + 1;
    }
    proof {
        let rem = parse_questions_spec(buf@, cur as int, 0);
        assert(questions_view(questions@) + rem->Ok_0.0 =~= questions_view(questions@));
    }
    Ok((questions, cur))
}

/// Parses `count` consecutive resource records starting at position `pos`.
fn parse_records(buf: &Vec<u8>, pos: usize, count: u16) -> (r: Result<
    (Vec<DNSRecord>, usize),
    DnsError,
>)
    ensures
        ({
            let s = parse_records_spec(buf@, pos as int, count as nat);
            match r {
                Ok((rs, end)) => s matches Ok(sr) && records_view(rs@) == sr.0 && end == sr.1
                    && rs@.len() == count,
                Err(e) => s matches Err(se) && e == se,
            }
        }),
{
    let mut records: Vec<DNSRecord> = Vec::new();
    let mut cur = pos;
    let mut i: u16 = 0;
    while i < count
        invariant
            0 <= i <= count,
            records@.len() == i,
            ({
                let full = parse_records_spec(buf@, pos as int, count as nat);
                match parse_records_spec(buf@, cur as int, (count - i) as nat) {
                    Ok((rs, end)) => full matches Ok(sr) && records_view(records@) + rs == sr.0
                        && end == sr.1,
                    Err(e) => full matches Err(se) && e == se,
                }
            }),
        decreases count - i,
    {
        match DNSRecord::parse(buf, cur) {
            Err(e) => {
                return Err(e);
            },
            Ok((rec, p)) => {
                proof {
                    let rem_after = parse_records_spec(buf@, p as int, (count - i - 1) as nat);
                    if rem_after is Ok {
                        assert(records_view(records@) + (seq![rec@] + rem_after->Ok_0.0)
                            =~= records_view(records@.push(rec)) + rem_after->Ok_0.0);
                    }
                }
                records.push(rec);
                cur = p;
            },
        }
        i = i + 1;
    }
    proof {
        let rem = parse_records_spec(buf@, cur as int, 0);
        assert(records_view(records@) + rem->Ok_0.0 =~= records_view(records@));
    }
    Ok((records, cur))
}

/// A whole decoded message.
#[derive(Debug)]
pub struct DNSPacket {
    pub header: DNSHeader,
    pub questions: Vec<DNSQuestion>,
    pub answers: Vec<DNSRecord>,
    pub authorities: Vec<DNSRecord>,
    pub additionals: Vec<DNSRecord>,
}

/// The mathematical image of a packet.
pub struct PacketView {
    pub header: DNSHeader,
    pub questions: Seq<QuestionView>,
    pub answers: Seq<RecordView>,
    pub authorities: Seq<RecordView>,
    pub additionals: Seq<RecordView>,
}

impl View for DNSPacket {
    type V = PacketView;

    open spec fn view(&self) -> PacketView {
        PacketView {
            header: self.header,
            questions: questions_view(self.questions@),
            answers: records_view(self.answers@),
            authorities: records_view(self.authorities@),
            additionals: records_view(self.additionals@),
        }
    }
}

/// Every section holds exactly as many entries as the header declares.
pub open spec fn packet_counts_ok(p: PacketView) -> bool {
    &&& p.questions.len() == p.header.num_questions
    &&& p.answers.len() == p.header.num_answers
    &&& p.authorities.len() == p.header.num_authorities
    &&& p.additionals.len() == p.header.num_additionals
}

/// Parsing of a whole message: the header, then each section in wire order
/// against the header's counts. Trailing bytes are ignored.
pub open spec fn parse_packet_spec(buf: Seq<u8>) -> Result<PacketView, DnsError> {
    match parse_header_spec(buf, 0) {
        Err(e) => Err(e),
        Ok((header, p0)) => match parse_questions_spec(buf, p0, header.num_questions as nat) {
            Err(e) => Err(e),
            Ok((questions, p1)) => match parse_records_spec(buf, p1, header.num_answers as nat) {
                Err(e) => Err(e),
                Ok((answers, p2)) => match parse_records_spec(
                    buf,
                    p2,
                    header.num_authorities as nat,
                ) {
                    Err(e) => Err(e),
                    Ok((authorities, p3)) => match parse_records_spec(
                        buf,
                        p3,
                        header.num_additionals as nat,
                    ) {
                        Err(e) => Err(e),
                        Ok((additionals, _)) => Ok(
                            PacketView { header, questions, answers, authorities, additionals },
                        ),
                    },
                },
            },
        },
    }
}

/// The address the first A record of a section yields: `None` when the
/// section has no A record, the record's address when its payload is four
/// bytes, and the invalid-length failure otherwise.
pub open spec fn first_a_ip_spec(records: Seq<RecordView>) -> Result<Option<Ipv4>, DnsError>
    decreases records.len(),
{
    if records.len() == 0 {
        Ok(None)
    } else if records[0].type_ == TYPE_A {
        match parse_ip_spec(records[0]) {
            Ok(ip) => Ok(Some(ip)),
            Err(e) => Err(e),
        }
    } else {
        first_a_ip_spec(records.skip(1))
    }
}

/// The name the first NS record of a section delegates to, `None` when the
/// section has no NS record, or the failure its payload's decoding hits.
pub open spec fn first_ns_name_spec(records: Seq<RecordView>) -> Result<Option<Seq<u8>>, DnsError>
    decreases records.len(),
{
    if records.len() == 0 {
        Ok(None)
    } else if records[0].type_ == TYPE_NS {
        match parse_ns_spec(records[0]) {
            Ok(name) => Ok(Some(name)),
            Err(e) => Err(e),
        }
    } else {
        first_ns_name_spec(records.skip(1))
    }
}

/// Walks `records` for the first A record and its address, as
/// `first_a_ip_spec` describes.
fn first_a_ip(records: &Vec<DNSRecord>) -> (r: Result<Option<Ipv4>, DnsError>)
    ensures
        r == first_a_ip_spec(records_view(records@)),
{
    let n = records.len();
    let mut i: usize = 0;
    proof {
        assert(records_view(records@).skip(0) =~= records_view(records@));
    }
    while i < n
        invariant
            0 <= i <= n == records@.len(),
            first_a_ip_spec(records_view(records@).skip(i as int)) == first_a_ip_spec(
                records_view(records@),
            ),
        decreases n - i,
    {
        let ghost rv = records_view(records@);
        if records[i].type_ == TYPE_A {
            proof {
                assert(rv.skip(i as int)[0] == rv[i as int]);
            }
            return match records[i].parse_ip_address() {
                Ok(ip) => Ok(Some(ip)),
                Err(e) => Err(e),
            };
        }
        proof {
            assert(rv.skip(i as int)[0] == rv[i as int]);
            assert(rv.skip(i as int).skip(1) =~= rv.skip(i + 1));
        }
        i = i + 1;
    }
    proof {
        assert(records_view(records@).skip(n as int).len() == 0);
    }
    Ok(None)
}

/// Walks `records` for the first NS record and its delegated name, as
/// `first_ns_name_spec` describes.
fn first_ns_name(records: &Vec<DNSRecord>) -> (r: Result<Option<Vec<u8>>, DnsError>)
    ensures
        ({
            let s = first_ns_name_spec(records_view(records@));
            match r {
                Ok(Some(name)) => s matches Ok(so) && so matches Some(sn) && name@ == sn,
                Ok(None) => s == Ok::<Option<Seq<u8>>, DnsError>(None),
                Err(e) => s matches Err(se) && e == se,
            }
        }),
{
    let n = records.len();
    let mut i: usize = 0;
    proof {
        assert(records_view(records@).skip(0) =~= records_view(records@));
    }
    while i < n
        invariant
            0 <= i <= n == records@.len(),
            first_ns_name_spec(records_view(records@).skip(i as int)) == first_ns_name_spec(
                records_view(records@),
            ),
        decreases n - i,
    {
        let ghost rv = records_view(records@);
        if records[i].type_ == TYPE_NS {
            proof {
                assert(rv.skip(i as int)[0] == rv[i as int]);
            }
            return match records[i].parse_domain_name() {
                Ok(name) => Ok(Some(name)),
                Err(e) => Err(e),
            };
        }
        proof {
            assert(rv.skip(i as int)[0] == rv[i as int]);
            assert(rv.skip(i as int).skip(1) =~= rv.skip(i + 1));
        }
        i = i + 1;
    }
    proof {
        assert(records_view(records@).skip(n as int).len() == 0);
    }
    Ok(None)
}

impl DNSPacket {
    /// Parses a whole message from the start of `buf`.
    pub fn parse(buf: &Vec<u8>) -> (r: Result<Self, DnsError>)
        ensures
            ({
                let s = parse_packet_spec(buf@);
                match r {
                    Ok(p) => s matches Ok(sp) && p@ == sp && packet_counts_ok(p@),
                    Err(e) => s matches Err(se) && e == se,
                }
            }),
    {
        let (header, p0) = match DNSHeader::parse(buf, 0) {
            Ok(h) => h,
            Err(e) => {
                return Err(e);
            },
        };
        let (questions, p1) = match parse_questions(buf, p0, header.num_questions) {
            Ok(q) => q,
            Err(e) => {
                return Err(e);
            },
        };
        let (answers, p2) = match parse_records(buf, p1, header.num_answers) {
            Ok(a) => a,
            Err(e) => {
                return Err(e);
            },
        };
        let (authorities, p3) = match parse_records(buf, p2, header.num_authorities) {
            Ok(a) => a,
            Err(e) => {
                return Err(e);
            },
        };
        let (additionals, _p4) = match parse_records(buf, p3, header.num_additionals) {
            Ok(a) => a,
            Err(e) => {
                return Err(e);
            },
        };
        Ok(DNSPacket { header, questions, answers, authorities, additionals })
    }

    /// The address of the first A record of the answer section, when the
    /// response answers the query directly.
    pub fn get_ip(&self) -> (r: Result<Option<Ipv4>, DnsError>)
        ensures
            r == first_a_ip_spec(self@.answers),
    {
        first_a_ip(&self.answers)
    }

    /// The address of the first A record of the additional section: the
    /// next nameserver to ask, supplied alongside a delegation.
    pub fn get_nameserver_ip(&self) -> (r: Result<Option<Ipv4>, DnsError>)
        ensures
            r == first_a_ip_spec(self@.additionals),
    {
        first_a_ip(&self.additionals)
    }

    /// The name of the first NS record of the authority section: a
    /// delegated nameserver that must itself be resolved first.
    pub fn get_nameserver(&self) -> (r: Result<Option<Vec<u8>>, DnsError>)
        ensures
            ({
                let s = first_ns_name_spec(self@.authorities);
                match r {
                    Ok(Some(name)) => s matches Ok(so) && so matches Some(sn) && name@ == sn,
                    Ok(None) => s == Ok::<Option<Seq<u8>>, DnsError>(None),
                    Err(e) => s matches Err(se) && e == se,
                }
            }),
    {
        first_ns_name(&self.authorities)
    }
}

} // verus!
