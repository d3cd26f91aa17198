//! The question section entry: a dotted name, a record type and a class.

use vstd::prelude::*;

use crate::bytes::be16_at;
use crate::bytes::be16_bytes;
use crate::bytes::push_be16;
use crate::bytes::read_be16;
use crate::name::decode_dns_name;
use crate::name::decode_name_full;
use crate::name::encode_dns_name;
use crate::name::encode_name_spec;
use crate::types::DnsError;

verus! {

/// One query entry of a packet.
#[derive(Debug, PartialEq)]
pub struct DNSQuestion {
    pub name: Vec<u8>,
    pub type_: u16,
    pub class: u16,
}

/// The mathematical image of a question: the name as a byte sequence.
pub struct QuestionView {
    pub name: Seq<u8>,
    pub type_: u16,
    pub class: u16,
}

impl View for DNSQuestion {
    type V = QuestionView;

    open spec fn view(&self) -> QuestionView {
        QuestionView { name: self.name@, type_: self.type_, class: self.class }
    }
}

/// A question on the wire: the encoded name, then the big-endian type and
/// class fields.
pub open spec fn question_bytes_spec(q: QuestionView) -> Seq<u8> {
    encode_name_spec(q.name) + be16_bytes(q.type_) + be16_bytes(q.class)
}

/// Parsing of the question that starts at position `pos`: a name, possibly
/// compressed, then two 16-bit fields.
pub open spec fn parse_question_spec(buf: Seq<u8>, pos: int) -> Result<(QuestionView, int), DnsError> {
    match decode_name_full(buf, pos) {
        Err(e) => Err(e),
        Ok((name, p)) => if p + 4 <= buf.len() {
            Ok(
                (
                    QuestionView {
                        name,
                        type_: be16_at(buf, p) as u16,
                        class: be16_at(buf, p + 2) as u16,
                    },
                    p + 4,
                ),
            )
        } else {
            Err(DnsError::Truncated)
        },
    }
}

/// Wherever a message holds a serialised question with a well-formed name
/// as a contiguous run of bytes, parsing from the start of that run yields
/// the original name, type and class.
pub proof fn lemma_question_parses_at(buf: Seq<u8>, pos: int, q: QuestionView)
    requires
        crate::name::wf_name(q.name),
        0 <= pos,
        pos + question_bytes_spec(q).len() <= buf.len(),
        buf.subrange(pos, pos + question_bytes_spec(q).len()) == question_bytes_spec(q),
    ensures
        parse_question_spec(buf, pos) == Ok::<(QuestionView, int), DnsError>(
            (q, pos + question_bytes_spec(q).len()),
        ),
{
    let qb = question_bytes_spec(q);
    let ql = qb.len() as int;
    let enc = encode_name_spec(q.name);
    let el = enc.len() as int;
    assert forall|j: int| 0 <= j < ql implies buf[pos + j] == qb[j] by {
        assert(buf.subrange(pos, pos + ql)[j] == qb[j]);
    }

    // The name sits at the front of the run.
    assert forall|j: int| 0 <= j < el implies buf.subrange(pos, pos + el)[j] == enc[j] by {
        assert(buf[pos + j] == qb[j]);
        assert(qb[j] == enc[j]);
    }
    assert(buf.subrange(pos, pos + el) =~= enc);
    crate::name::lemma_decode_encoded_name(buf, pos, q.name, buf.len() as nat);

    // The type and class fields follow it.
    let p = pos + el;
    crate::bytes::lemma_be16_bytes_roundtrip(q.type_);
    crate::bytes::lemma_be16_bytes_roundtrip(q.class);
    assert(buf[p] == qb[el] && qb[el] == be16_bytes(q.type_)[0]);
    assert(buf[p + 1] == qb[el + 1] && qb[el + 1] == be16_bytes(q.type_)[1]);
    assert(buf[p + 2] == qb[el + 2] && qb[el + 2] == be16_bytes(q.class)[0]);
    assert(buf[p + 3] == qb[el + 3] && qb[el + 3] == be16_bytes(q.class)[1]);
}

impl DNSQuestion {
    /// Serialises the question for an outgoing packet.
    pub fn to_be_bytes(&self) -> (r: Vec<u8>)
        ensures
            r@ == question_bytes_spec(self@),
    {
        let mut bytes = encode_dns_name(&self.name);
        push_be16(&mut bytes, self.type_);
        push_be16(&mut bytes, self.class);
        proof {
            assert(bytes@ =~= question_bytes_spec(self@));
        }
        bytes
    }

    /// Parses the question that starts at position `pos` of `buf`.
    pub fn parse(buf: &Vec<u8>, pos: usize) -> (r: Result<(Self, usize), DnsError>)
        ensures
            ({
                let s = parse_question_spec(buf@, pos as int);
                match r {
                    Ok((q, end)) => s matches Ok(sq) && q@ == sq.0 && end == sq.1,
                    Err(e) => s matches Err(se) && e == se,
                }
            }),
    {
        match decode_dns_name(buf, pos) {
            Err(e) => Err(e),
            Ok((name, p)) => {
                let n = buf.len();
                if p > n || n - p < 4 {
                    return Err(DnsError::Truncated);
                }
                let type_ = read_be16(buf, p);
                let class = read_be16(buf, p + 2);
                Ok((DNSQuestion { name, type_, class }, p + 4))
            },
        }
    }
}

} // verus!
