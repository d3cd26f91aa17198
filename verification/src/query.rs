//! Building an outgoing query packet: a header announcing one question and
//! nothing else, then the question itself, class IN.

use vstd::prelude::*;

use crate::header::header_bytes_spec;
use crate::header::lemma_header_parses_at;
use crate::header::DNSHeader;
use crate::packet::parse_packet_spec;
use crate::packet::parse_questions_spec;
use crate::packet::PacketView;
use crate::question::lemma_question_parses_at;
use crate::question::question_bytes_spec;
use crate::question::DNSQuestion;
use crate::question::QuestionView;
use crate::types::DnsError;

verus! {

/// The class of the one question every query carries: IN, the internet.
pub const CLASS_IN: u16 = 1;

/// The bytes of a whole query packet: a header with the given transaction
/// id, zero flags and a lone question count, then the question for `name`
/// with the given record type and class IN.
pub open spec fn query_bytes_spec(id: u16, name: Seq<u8>, record_type: u16) -> Seq<u8> {
    header_bytes_spec(
        DNSHeader {
            id,
            flags: 0,
            num_questions: 1,
            num_answers: 0,
            num_authorities: 0,
            num_additionals: 0,
        },
    ) + question_bytes_spec(QuestionView { name, type_: record_type, class: CLASS_IN })
}

/// Query round trip: a query built for a well-formed name decodes back into
/// a packet whose header carries the transaction id, zero flags and a lone
/// question count, and whose one question carries the name, the record type
/// and class IN, with every record section empty.
pub proof fn lemma_query_round_trip(id: u16, name: Seq<u8>, record_type: u16)
    requires
        crate::name::wf_name(name),
    ensures
        parse_packet_spec(query_bytes_spec(id, name, record_type)) == Ok::<PacketView, DnsError>(
            PacketView {
                header: DNSHeader {
                    id,
                    flags: 0,
                    num_questions: 1,
                    num_answers: 0,
                    num_authorities: 0,
                    num_additionals: 0,
                },
                questions: seq![QuestionView { name, type_: record_type, class: CLASS_IN }],
                answers: Seq::empty(),
                authorities: Seq::empty(),
                additionals: Seq::empty(),
            },
        ),
{
    let h = DNSHeader {
        id,
        flags: 0,
        num_questions: 1,
        num_answers: 0,
        num_authorities: 0,
        num_additionals: 0,
    };
    let qv = QuestionView { name, type_: record_type, class: CLASS_IN };
    let buf = query_bytes_spec(id, name, record_type);
    let hb = header_bytes_spec(h);
    let qb = question_bytes_spec(qv);
    let ql = qb.len() as int;

    assert(buf.subrange(0, 12) =~= hb);
    lemma_header_parses_at(buf, 0, h);

    assert forall|j: int| 0 <= j < ql implies buf.subrange(12, 12 + ql)[j] == qb[j] by {
        assert(buf[12 + j] == qb[j]);
    }
    assert(buf.subrange(12, 12 + ql) =~= qb);
    lemma_question_parses_at(buf, 12, qv);

    // One question, then zero records of each kind, ending at the buffer's
    // end.
    assert(parse_questions_spec(buf, 12 + ql, 0) == Ok::<(Seq<QuestionView>, int), DnsError>(
        (Seq::empty(), 12 + ql),
    ));
    assert(parse_questions_spec(buf, 12, 1) == Ok::<(Seq<QuestionView>, int), DnsError>(
        (seq![qv] + Seq::empty(), 12 + ql),
    ));
    assert(seq![qv] + Seq::<QuestionView>::empty() =~= seq![qv]);
}

/// Relies on rand::random: draws a fresh transaction id from the thread's
/// generator. Nothing is assumed about the value drawn.
#[verifier::external_body]
fn random_id() -> u16 {
    rand::random()
}

/// Builds the query packet for `domain_name` with a caller-chosen
/// transaction id.
pub fn build_query_with_id(domain_name: Vec<u8>, record_type: u16, id: u16) -> (r: Vec<u8>)
    ensures
        r@ == query_bytes_spec(id, domain_name@, record_type),
{
    let ghost name_view = domain_name@;
    let header = DNSHeader {
        id,
        flags: 0,
        num_questions: 1,
        num_answers: 0,
        num_authorities: 0,
        num_additionals: 0,
    };
    let question = DNSQuestion { name: domain_name, type_: record_type, class: CLASS_IN };
    let mut bytes = header.to_be_bytes();
    let mut question_bytes = question.to_be_bytes();
    bytes.append(&mut question_bytes);
    proof {
        assert(bytes@ =~= query_bytes_spec(id, name_view, record_type));
    }
    bytes
}

/// Builds the query packet for `domain_name` with a freshly randomized
/// transaction id.
pub fn build_query(domain_name: Vec<u8>, record_type: u16) -> (r: Vec<u8>)
    ensures
        exists|id: u16| r@ == query_bytes_spec(id, domain_name@, record_type),
{
    let ghost name_view = domain_name@;
    let id = random_id();
    let r = build_query_with_id(domain_name, record_type, id);
    proof {
        assert(r@ == query_bytes_spec(id, name_view, record_type));
    }
    r
}

} // verus!
