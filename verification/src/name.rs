//! The DNS name codec.
//!
//! A name travels through the library in its dotted form, as a byte string
//! such as `www.example.com`. On the wire it is a sequence of labels, each
//! one length byte followed by that many raw bytes, terminated by a zero
//! byte; a length byte whose top two bits are both set is instead the first
//! half of a two-byte compression pointer, a 14-bit offset from the start of
//! the message at which the remainder of the name is spelled out. The two
//! remaining top-bit patterns (`01xxxxxx`, `10xxxxxx`) are reserved and
//! rejected.
//!
//! Label bytes are required to be ASCII while decoding; anything else is
//! rejected as an invalid label. Encoding writes each label's length modulo
//! 256, so a label longer than 63 bytes is not rejected here, but its length
//! byte would not read back as a plain label: `wf_name` names exactly the
//! dotted names that survive the round trip.

use vstd::prelude::*;

use crate::types::DnsError;

verus! {

/// The byte that separates labels in the dotted form of a name.
pub const DOT: u8 = 46;

/// The position of the first dot of `name`, or `name.len()` when it has
/// none. The bytes before it form the first label.
pub open spec fn first_dot(name: Seq<u8>) -> nat
    decreases name.len(),
{
    if name.len() == 0 {
        0
    } else if name[0] == DOT {
        0
    } else {
        (1 + first_dot(name.skip(1))) as nat
    }
}

/// What `first_dot` returns: the position of a dot, with none before it, or
/// the length of a dot-free name.
pub proof fn lemma_first_dot(name: Seq<u8>)
    ensures
        first_dot(name) <= name.len(),
        forall|i: int| 0 <= i < first_dot(name) ==> name[i] != DOT,
        first_dot(name) < name.len() ==> name[first_dot(name) as int] == DOT,
    decreases name.len(),
{
    if name.len() == 0 {
    } else if name[0] == DOT {
    } else {
        lemma_first_dot(name.skip(1));
        assert forall|i: int| 0 <= i < first_dot(name) implies name[i] != DOT by {
            if i > 0 {
                assert(name.skip(1)[i - 1] == name[i]);
            }
        }
        if first_dot(name) < name.len() {
            assert(name.skip(1)[first_dot(name) - 1] == name[first_dot(name) as int]);
        }
    }
}

/// A position that holds a dot (or the end) with no dot before it is the
/// first dot.
pub proof fn lemma_first_dot_at(name: Seq<u8>, m: int)
    requires
        0 <= m <= name.len(),
        forall|i: int| 0 <= i < m ==> name[i] != DOT,
        m < name.len() ==> name[m] == DOT,
    ensures
        first_dot(name) == m,
    decreases name.len(),
{
    if m == 0 {
    } else {
        assert(name[0] != DOT);
        assert forall|i: int| 0 <= i < m - 1 implies name.skip(1)[i] != DOT by {
            assert(name.skip(1)[i] == name[i + 1]);
        }
        if m < name.len() {
            assert(name.skip(1)[m - 1] == name[m]);
        }
        lemma_first_dot_at(name.skip(1), m - 1);
    }
}

/// The wire encoding of a dotted name: for each label one length byte (the
/// label's length modulo 256) and the label's bytes, then a zero terminator.
pub open spec fn encode_name_spec(name: Seq<u8>) -> Seq<u8>
    decreases name.len(),
{
    let k = first_dot(name);
    if k >= name.len() {
        seq![(k % 256) as u8] + name + seq![0u8]
    } else {
        seq![(k % 256) as u8] + name.take(k as int) + encode_name_spec(name.skip(k + 1 as int))
    }
}

/// An encoded name is at least two bytes (a length byte and the terminator)
/// and starts with the first label's length byte.
pub proof fn lemma_encode_name_shape(name: Seq<u8>)
    ensures
        encode_name_spec(name).len() >= 2,
        encode_name_spec(name)[0] == (first_dot(name) % 256) as u8,
    decreases name.len(),
{
    lemma_first_dot(name);
    let k = first_dot(name);
    if k < name.len() {
        lemma_encode_name_shape(name.skip(k + 1 as int));
    }
}

/// The dotted names that survive the round trip through the codec: every
/// label is non-empty, at most 63 bytes long, and all of its bytes are
/// ASCII.
pub open spec fn wf_name(name: Seq<u8>) -> bool
    decreases name.len(),
{
    let k = first_dot(name);
    &&& 1 <= k <= 63
    &&& forall|i: int| 0 <= i < k ==> name[i] < 0x80
    &&& (k < name.len() ==> wf_name(name.skip(k + 1 as int)))
}

/// Encodes a dotted name, starting at the label that begins at `start`.
fn encode_labels(name: &Vec<u8>, start: usize) -> (r: Vec<u8>)
    requires
        start <= name@.len(),
    ensures
        r@ == encode_name_spec(name@.skip(start as int)),
    decreases name@.len() - start,
{
    let n = name.len();
    let ghost suffix = name@.skip(start as int);

    // Find the end of the label that begins at `start`.
    let mut end: usize = start;
    while end < n && name[end] != DOT
        invariant
            start <= end <= n,
            n == name@.len(),
            forall|i: int| start <= i < end ==> name@[i] != DOT,
        decreases n - end,
    {
        end = end + 1;
    }
    proof {
        assert forall|i: int| 0 <= i < end - start implies suffix[i] != DOT by {
            assert(suffix[i] == name@[start + i]);
        }
        if (end as int) < n {
            assert(suffix[end - start] == name@[end as int]);
        }
        lemma_first_dot_at(suffix, end - start);
    }

    let k = end - start;
    let mut out: Vec<u8> = Vec::new();
    out.push((k % 256) as u8);

    // The label's bytes.
    let mut i = start;
    while i < end
        invariant
            start <= i <= end <= n,
            n == name@.len(),
            out@ == seq![((end - start) % 256) as u8] + name@.subrange(start as int, i as int),
        decreases end - i,
    {
        let b = name[i];
        out.push(b);
        proof {
            assert(out@ =~= seq![((end - start) % 256) as u8] + name@.subrange(
                start as int,
                i + 1,
            ));
        }
        i = i + 1;
    }

    if end == n {
        out.push(0);
        proof {
            assert(name@.subrange(start as int, end as int) =~= suffix);
            assert(out@ =~= seq![(first_dot(suffix) % 256) as u8] + suffix + seq![0u8]);
        }
        out
    } else {
        let mut rest = encode_labels(name, end + 1);
        out.append(&mut rest);
        proof {
            assert(name@.subrange(start as int, end as int) =~= suffix.take(end - start));
            assert(name@.skip(end + 1) =~= suffix.skip(end - start + 1));
            assert(out@ =~= seq![(first_dot(suffix) % 256) as u8] + suffix.take(
                first_dot(suffix) as int,
            ) + encode_name_spec(suffix.skip(first_dot(suffix) + 1 as int)));
        }
        out
    }
}

/// Encodes a dotted name as length-prefixed labels with a zero terminator.
pub fn encode_dns_name(name: &Vec<u8>) -> (r: Vec<u8>)
    ensures
        r@ == encode_name_spec(name@),
{
    let r = encode_labels(name, 0);
    proof {
        assert(name@.skip(0) =~= name@);
    }
    r
}

/// The 14-bit offset held by a compression pointer whose first byte sits at
/// position `pos` of the message.
pub open spec fn pointer_target(buf: Seq<u8>, pos: int) -> int
    recommends
        0 <= pos,
        pos + 2 <= buf.len(),
{
    (buf[pos] & 0x3F) as int * 256 + buf[pos + 1] as int
}

/// Decoding of the name that starts at position `pos` of the message `buf`.
///
/// `fuel` bounds how many compression pointers may still be followed; each
/// jump consumes one unit. The result carries the dotted name and the
/// position of the first byte after the name in the original stream (after
/// the pointer, when the name ends in one).
pub open spec fn decode_name_spec(buf: Seq<u8>, pos: int, fuel: nat) -> Result<
    (Seq<u8>, int),
    DnsError,
>
    decreases fuel, buf.len() - pos,
{
    if pos < 0 || pos >= buf.len() {
        Err(DnsError::Truncated)
    } else {
        let len = buf[pos];
        if len == 0 {
            Ok((Seq::empty(), pos + 1))
        } else if len & 0xC0 == 0xC0 {
            if pos + 1 >= buf.len() {
                Err(DnsError::Truncated)
            } else if fuel == 0 {
                Err(DnsError::PointerLoop)
            } else {
                let target = pointer_target(buf, pos);
                if target >= buf.len() {
                    Err(DnsError::Truncated)
                } else {
                    match decode_name_spec(buf, target, (fuel - 1) as nat) {
                        Ok((suffix, _)) => Ok((suffix, pos + 2)),
                        Err(e) => Err(e),
                    }
                }
            }
        } else if len & 0xC0 != 0 {
            Err(DnsError::InvalidLabel)
        } else if pos + 1 + len > buf.len() {
            Err(DnsError::Truncated)
        } else if exists|i: int| pos + 1 <= i < pos + 1 + len && buf[i] >= 0x80 {
            Err(DnsError::InvalidLabel)
        } else {
            let label = buf.subrange(pos + 1, pos + 1 + len);
            let next = pos + 1 + len;
            if next >= buf.len() {
                Err(DnsError::Truncated)
            } else if buf[next] == 0 {
                Ok((label, next + 1))
            } else {
                match decode_name_spec(buf, next, fuel) {
                    Ok((rest, end)) => Ok((label + seq![DOT] + rest, end)),
                    Err(e) => Err(e),
                }
            }
        }
    }
}

/// Name decoding with the pointer budget the library grants: one jump per
/// byte of the message. A chain that long must revisit a position, and a
/// chain that revisits a position never terminates, so no decodable input
/// is cut short by the budget.
pub open spec fn decode_name_full(buf: Seq<u8>, pos: int) -> Result<(Seq<u8>, int), DnsError> {
    decode_name_spec(buf, pos, buf.len() as nat)
}

/// How an executable decoding result corresponds to a specification-level
/// one.
pub open spec fn decode_matches(
    r: Result<(Vec<u8>, usize), DnsError>,
    s: Result<(Seq<u8>, int), DnsError>,
) -> bool {
    match (r, s) {
        (Ok((name, end)), Ok((s_name, s_end))) => name@ == s_name && end == s_end,
        (Err(e), Err(s_e)) => e == s_e,
        _ => false,
    }
}

/// Decodes the name starting at `pos`, spending `fuel` pointer jumps.
fn decode_name_rec(buf: &Vec<u8>, pos: usize, fuel: usize) -> (r: Result<
    (Vec<u8>, usize),
    DnsError,
>)
    ensures
        decode_matches(r, decode_name_spec(buf@, pos as int, fuel as nat)),
    decreases fuel, buf@.len() - pos,
{
    let n = buf.len();
    if pos >= n {
        return Err(DnsError::Truncated);
    }
    let len_byte = buf[pos];
    if len_byte == 0 {
        return Ok((Vec::new(), pos + 1));
    }
    if len_byte & 0xC0 == 0xC0 {
        // A compression pointer: the remaining six bits and the next byte
        // form an offset from the start of the message; the rest of the name
        // is spelled out there.
        if pos + 1 >= n {
            return Err(DnsError::Truncated);
        }
        if fuel == 0 {
            return Err(DnsError::PointerLoop);
        }
        let target = (len_byte & 0x3F) as usize * 256 + buf[pos + 1] as usize;
        if target >= n {
            return Err(DnsError::Truncated);
        }
        return match decode_name_rec(buf, target, fuel - 1) {
            Ok((suffix, _)) => Ok((suffix, pos + 2)),
            Err(e) => Err(e),
        };
    }
    if len_byte & 0xC0 != 0 {
        // `01xxxxxx` and `10xxxxxx` are reserved patterns.
        return Err(DnsError::InvalidLabel);
    }
    let len = len_byte as usize;
    if len > n - (pos + 1) {
        return Err(DnsError::Truncated);
    }

    // Copy the label, insisting on ASCII bytes.
    let mut label: Vec<u8> = Vec::new();
    let mut i: usize = 0;
    while i < len
        invariant
            0 <= i <= len,
            len == buf@[pos as int] as int,
            buf@[pos as int] != 0,
            buf@[pos as int] & 0xC0 == 0,
            pos + 1 + len <= n == buf@.len(),
            label@ == buf@.subrange(pos + 1, pos + 1 + i),
            forall|j: int| pos + 1 <= j < pos + 1 + i ==> buf@[j] < 0x80,
        decreases len - i,
    {
        let b = buf[pos + 1 + i];
        if b >= 0x80 {
            proof {
                assert(buf@[pos + 1 + i] >= 0x80);
            }
            return Err(DnsError::InvalidLabel);
        }
        label.push(b);
        proof {
            assert(label@ =~= buf@.subrange(pos + 1, pos + 1 + (i + 1)));
        }
        i = i + 1;
    }

    let next = pos + 1 + len;
    if next >= n {
        return Err(DnsError::Truncated);
    }
    if buf[next] == 0 {
        return Ok((label, next + 1));
    }
    match decode_name_rec(buf, next, fuel) {
        Ok((rest, end)) => {
            let ghost label_view = label@;
            let ghost rest_view = rest@;
            let mut name = label;
            name.push(DOT);
            let mut rest = rest;
            name.append(&mut rest);
            proof {
                assert(name@ =~= label_view + seq![DOT] + rest_view);
            }
            Ok((name, end))
        },
        Err(e) => Err(e),
    }
}

/// Every byte of a successfully decoded name is ASCII: label bytes are
/// checked while decoding, and the separating dots are ASCII themselves.
pub proof fn lemma_decoded_name_ascii(buf: Seq<u8>, pos: int, fuel: nat)
    ensures
        decode_name_spec(buf, pos, fuel) matches Ok(r) ==> forall|i: int|
            0 <= i < r.0.len() ==> r.0[i] < 0x80,
    decreases fuel, buf.len() - pos,
{
    if pos < 0 || pos >= buf.len() {
    } else {
        let len = buf[pos];
        if len == 0 {
        } else if len & 0xC0 == 0xC0 {
            if pos + 1 >= buf.len() || fuel == 0 {
            } else {
                let target = pointer_target(buf, pos);
                if target < buf.len() {
                    lemma_decoded_name_ascii(buf, target, (fuel - 1) as nat);
                }
            }
        } else if len & 0xC0 != 0 {
        } else if pos + 1 + len > buf.len() {
        } else if exists|i: int| pos + 1 <= i < pos + 1 + len && buf[i] >= 0x80 {
        } else {
            let label = buf.subrange(pos + 1, pos + 1 + len);
            assert forall|i: int| 0 <= i < label.len() implies label[i] < 0x80 by {
                assert(buf[pos + 1 + i] < 0x80);
            }
            let next = pos + 1 + len;
            if next >= buf.len() || buf[next] == 0 {
            } else {
                lemma_decoded_name_ascii(buf, next, fuel);
            }
        }
    }
}

/// Wherever a message holds the encoding of a well-formed name as a
/// contiguous run of bytes, decoding from the start of that run yields the
/// name back, ending just after its terminator, whatever the pointer budget.
pub proof fn lemma_decode_encoded_name(buf: Seq<u8>, pos: int, name: Seq<u8>, fuel: nat)
    requires
        wf_name(name),
        0 <= pos,
        pos + encode_name_spec(name).len() <= buf.len(),
        buf.subrange(pos, pos + encode_name_spec(name).len()) == encode_name_spec(name),
    ensures
        decode_name_spec(buf, pos, fuel) == Ok::<(Seq<u8>, int), DnsError>(
            (name, pos + encode_name_spec(name).len()),
        ),
    decreases name.len(),
{
    lemma_first_dot(name);
    lemma_encode_name_shape(name);
    let k = first_dot(name) as int;
    let enc = encode_name_spec(name);
    let el = enc.len() as int;

    assert forall|j: int| 0 <= j < el implies buf[pos + j] == enc[j] by {
        assert(buf.subrange(pos, pos + el)[j] == enc[j]);
    }

    // The first byte is the first label's length, a plain-label pattern.
    let b = buf[pos];
    assert(b == k as u8);
    assert(b & 0xC0 == 0 && b != 0) by (bit_vector)
        requires
            1 <= b <= 63,
    ;

    // The label's bytes are the name's first k bytes, which are ASCII.
    assert forall|j: int| pos + 1 <= j < pos + 1 + k implies buf[j] < 0x80 by {
        assert(buf[j] == enc[j - pos]);
        if k == name.len() {
            assert(enc[j - pos] == name[j - pos - 1]);
        } else {
            assert(enc[j - pos] == name.take(k)[j - pos - 1]);
        }
    }
    let label = buf.subrange(pos + 1, pos + 1 + k);
    let next = pos + 1 + k;

    if k == name.len() {
        // A single label: the terminator follows at once.
        assert forall|j: int| 0 <= j < k implies label[j] == name[j] by {
            assert(buf[pos + 1 + j] == enc[1 + j]);
            assert(enc[1 + j] == name[j]);
        }
        assert(label =~= name);
        assert(buf[next] == enc[k + 1]);
        assert(enc[k + 1] == 0);
    } else {
        // More labels follow: the byte after this label is the next label's
        // length byte, and the rest of the buffer run holds the encoding of
        // the rest of the name.
        let rest = name.skip(k + 1);
        let enc_rest = encode_name_spec(rest);
        lemma_first_dot(rest);
        lemma_encode_name_shape(rest);
        assert(wf_name(rest));
        assert(1 <= first_dot(rest) <= 63);
        assert(enc =~= seq![(first_dot(name) % 256) as u8] + name.take(k) + enc_rest);
        assert(buf[next] == enc[1 + k]);
        assert(enc[1 + k] == enc_rest[0]);
        assert(enc_rest[0] != 0);
        assert forall|j: int| 0 <= j < k implies label[j] == name.take(k)[j] by {
            assert(buf[pos + 1 + j] == enc[1 + j]);
            assert(enc[1 + j] == name.take(k)[j]);
        }
        assert(label =~= name.take(k));
        assert forall|j: int| 0 <= j < enc_rest.len() implies buf.subrange(
            next,
            next + enc_rest.len(),
        )[j] == enc_rest[j] by {
            assert(buf[next + j] == enc[1 + k + j]);
            assert(enc[1 + k + j] == enc_rest[j]);
        }
        assert(buf.subrange(next, next + enc_rest.len()) =~= enc_rest);
        lemma_decode_encoded_name(buf, next, rest, fuel);
        assert(name.take(k) + seq![DOT] + rest =~= name);
    }
}

/// Round trip: a well-formed dotted name decodes from its own encoding,
/// consuming it whole.
pub proof fn lemma_name_round_trip(name: Seq<u8>, fuel: nat)
    requires
        wf_name(name),
    ensures
        decode_name_spec(encode_name_spec(name), 0, fuel) == Ok::<(Seq<u8>, int), DnsError>(
            (name, encode_name_spec(name).len() as int),
        ),
{
    let enc = encode_name_spec(name);
    assert(enc.subrange(0, enc.len() as int) =~= enc);
    lemma_decode_encoded_name(enc, 0, name, fuel);
}

/// Compression: where a well-formed name is spelled out at some offset of
/// the message, a two-byte pointer to that offset decodes to the very same
/// name, consuming exactly the two pointer bytes.
pub proof fn lemma_pointer_round_trip(buf: Seq<u8>, pos: int, name: Seq<u8>, fuel: nat)
    requires
        wf_name(name),
        0 <= pos,
        pos + 1 < buf.len(),
        buf[pos] & 0xC0 == 0xC0,
        fuel >= 1,
        pointer_target(buf, pos) + encode_name_spec(name).len() <= buf.len(),
        buf.subrange(
            pointer_target(buf, pos),
            pointer_target(buf, pos) + encode_name_spec(name).len(),
        ) == encode_name_spec(name),
    ensures
        decode_name_spec(buf, pos, fuel) == Ok::<(Seq<u8>, int), DnsError>((name, pos + 2)),
{
    let b = buf[pos];
    assert(b != 0) by (bit_vector)
        requires
            b & 0xC0 == 0xC0,
    ;
    lemma_encode_name_shape(name);
    lemma_decode_encoded_name(buf, pointer_target(buf, pos), name, (fuel - 1) as nat);
}

/// The reserved length-byte patterns `01xxxxxx` and `10xxxxxx` make the
/// whole name decoding fail with `InvalidLabel`.
pub proof fn lemma_reserved_bits_rejected(buf: Seq<u8>, pos: int, fuel: nat)
    requires
        0 <= pos < buf.len(),
        buf[pos] & 0xC0 != 0,
        buf[pos] & 0xC0 != 0xC0,
    ensures
        decode_name_spec(buf, pos, fuel) == Err::<(Seq<u8>, int), DnsError>(DnsError::InvalidLabel),
{
    let b = buf[pos];
    assert(b != 0) by (bit_vector)
        requires
            b & 0xC0 != 0,
    ;
}

/// Decodes the name that starts at position `pos` of the message `buf`,
/// following compression pointers. Returns the dotted name together with
/// the position of the first byte after the name.
pub fn decode_dns_name(buf: &Vec<u8>, pos: usize) -> (r: Result<(Vec<u8>, usize), DnsError>)
    ensures
        decode_matches(r, decode_name_full(buf@, pos as int)),
{
    let fuel = buf.len();
    decode_name_rec(buf, pos, fuel)
}

} // verus!
