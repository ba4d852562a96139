//! Wire-level DNS message handling: extracting the question name from a
//! single-question message, and rewriting a message in place into an
//! NXDOMAIN answer.
//!
//! A message is opaque bytes except for two interpreted regions: the 16-bit
//! question count at byte offset 4 (network byte order), and the question
//! section at byte offset 12, one domain name encoded as length-prefixed
//! labels ended by a zero-length label.

use vstd::prelude::*;
use vstd::utf8::{decode_utf8, valid_utf8};

use crate::error::{Error, ErrorKind};
use crate::text::utf8_to_string;

verus! {

/// The 16-bit question count at byte offset 4, network byte order.
pub open spec fn question_count(p: Seq<u8>) -> int
    recommends
        p.len() >= 6,
{
    (p[4] as int) * 256 + (p[5] as int)
}

/// Joins two name fragments with a dot separator, omitting the separator
/// when either side is empty.
pub open spec fn join_labels(a: Seq<u8>, b: Seq<u8>) -> Seq<u8> {
    if a.len() == 0 {
        b
    } else if b.len() == 0 {
        a
    } else {
        a + seq![46u8] + b
    }
}

/// The dotted name encoded as length-prefixed labels starting at `pos`:
/// the labels joined by `.`, with no trailing separator. `None` when the
/// buffer ends before the zero-length terminator or a declared label length
/// overruns the buffer.
pub open spec fn name_bytes_from(p: Seq<u8>, pos: int) -> Option<Seq<u8>>
    decreases p.len() - pos,
{
    if pos < 0 || pos >= p.len() {
        None
    } else if p[pos] == 0 {
        Some(Seq::empty())
    } else if pos + 1 + (p[pos] as int) > p.len() {
        None
    } else {
        let label = p.subrange(pos + 1, pos + 1 + (p[pos] as int));
        match name_bytes_from(p, pos + 1 + (p[pos] as int)) {
            Some(rest) => Some(join_labels(label, rest)),
            None => None,
        }
    }
}

/// The bytes of the question name of a message: the question section starts
/// at byte offset 12.
pub open spec fn question_name_bytes(p: Seq<u8>) -> Option<Seq<u8>> {
    name_bytes_from(p, 12)
}

/// The question name as text, for messages whose name bytes decode.
pub open spec fn question_name(p: Seq<u8>) -> Seq<char>
    recommends
        question_name_bytes(p) is Some,
{
    decode_utf8(question_name_bytes(p).unwrap())
}

/// How parsing a message fails, if it does: a header too short for the
/// question count, a question count other than one, a truncated or overlong
/// label, or name bytes that are not valid text.
pub open spec fn parse_failure(p: Seq<u8>) -> Option<ErrorKind> {
    if p.len() < 6 {
        Some(ErrorKind::DnsParsing)
    } else if question_count(p) != 1 {
        Some(ErrorKind::DnsTooManyQuestions)
    } else if question_name_bytes(p) is None {
        Some(ErrorKind::DnsParsing)
    } else if !valid_utf8(question_name_bytes(p).unwrap()) {
        Some(ErrorKind::TextDecoding)
    } else {
        None
    }
}

proof fn lemma_join_labels_assoc(a: Seq<u8>, b: Seq<u8>, c: Seq<u8>)
    requires
        b.len() > 0,
    ensures
        join_labels(a, join_labels(b, c)) == join_labels(join_labels(a, b), c),
{
    if a.len() == 0 {
    } else if c.len() == 0 {
    } else {
        assert(join_labels(a, join_labels(b, c)) =~= join_labels(join_labels(a, b), c));
    }
}

/// Reads the domain name asked about by a single-question DNS message:
/// the labels of the question section joined with `.`, case preserved,
/// with no trailing dot.
pub fn get_requested_domain(packet: &[u8]) -> (r: Result<String, Error>)
    ensures
        match r {
            Ok(s) => parse_failure(packet@) is None && s@ == question_name(packet@),
            Err(e) => parse_failure(packet@) == Some(e.kind),
        },
{
    if packet.len() < 6 {
        return Err(Error::dns_parsing());
    }
    let questions: u32 = (packet[4] as u32) * 256 + (packet[5] as u32);
    if questions != 1 {
        return Err(Error::dns_too_many_questions());
    }

    let mut name: Vec<u8> = Vec::new();
    let mut pos: usize = 12;
    loop
        invariant
            packet@.len() >= 6,
            question_count(packet@) == 1,
            pos >= 12,
            match name_bytes_from(packet@, pos as int) {
                Some(rest) => question_name_bytes(packet@) == Some(join_labels(name@, rest)),
                None => question_name_bytes(packet@) is None,
            },
        decreases packet@.len() - pos,
    {
        if pos >= packet.len() {
            return Err(Error::dns_parsing());
        }
        let sz = packet[pos];
        if sz == 0 {
            proof {
                assert(join_labels(name@, Seq::<u8>::empty()) =~= name@);
            }
            return match utf8_to_string(name) {
                Some(s) => Ok(s),
                None => Err(Error::text_decoding()),
            };
        }
        if (sz as usize) > packet.len() - pos - 1 {
            return Err(Error::dns_parsing());
        }
        let ghost name0: Seq<u8> = name@;
        let ghost label: Seq<u8> = packet@.subrange(pos + 1, pos + 1 + (sz as int));
        if name.len() > 0 {
            name.push(46u8);
        }
        let ghost prefix: Seq<u8> = name@;
        let mut j: usize = 0;
        while j < sz as usize
            invariant
                packet@.len() <= usize::MAX,
                pos + 1 + (sz as usize) <= packet@.len(),
                j <= sz as usize,
                label == packet@.subrange(pos + 1, pos + 1 + (sz as int)),
                name@ == prefix + label.take(j as int),
            decreases sz as usize - j,
        {
            proof {
                assert((prefix + label.take(j as int)).push(packet@[pos + 1 + j]) =~= prefix
                    + label.take(j + 1));
            }
            name.push(packet[pos + 1 + j]);
            j += 1;
        }
        proof {
            assert(name@ =~= join_labels(name0, label)) by {
                assert(label.take(sz as int) =~= label);
                if name0.len() == 0 {
                    assert(prefix =~= name0);
                    assert(name@ =~= label);
                } else {
                    assert(prefix =~= name0 + seq![46u8]);
                    assert(name@ =~= name0 + seq![46u8] + label);
                }
            }
            match name_bytes_from(packet@, pos + 1 + sz as int) {
                Some(rest) => {
                    lemma_join_labels_assoc(name0, label, rest);
                }
                None => {}
            }
        }
        pos = pos + 1 + sz as usize;
    }
}

/// The wire encoding of a sequence of labels: each label preceded by its
/// length byte, the whole ended by a zero-length label.
pub open spec fn encode_labels(labels: Seq<Seq<u8>>) -> Seq<u8>
    decreases labels.len(),
{
    if labels.len() == 0 {
        seq![0u8]
    } else {
        seq![labels[0].len() as u8] + labels[0] + encode_labels(labels.skip(1))
    }
}

/// Labels a DNS name can encode: each between 1 and 255 bytes long.
pub open spec fn wf_labels(labels: Seq<Seq<u8>>) -> bool {
    forall|i: int| 0 <= i < labels.len() ==> 1 <= #[trigger] labels[i].len() <= 255
}

/// The labels joined with `.`, with no trailing separator.
pub open spec fn dotted(labels: Seq<Seq<u8>>) -> Seq<u8>
    decreases labels.len(),
{
    if labels.len() == 0 {
        Seq::empty()
    } else {
        join_labels(labels[0], dotted(labels.skip(1)))
    }
}

/// Parsing reads an encoded name back exactly: wherever a buffer carries
/// the wire encoding of well-formed labels, the name parsed there is their
/// dotted join, byte for byte — so the extracted name matches the encoded
/// labels with case preserved and no trailing dot.
pub proof fn lemma_parse_encoded_name(p: Seq<u8>, pos: int, labels: Seq<Seq<u8>>)
    requires
        wf_labels(labels),
        0 <= pos,
        pos + encode_labels(labels).len() <= p.len(),
        p.subrange(pos, pos + encode_labels(labels).len()) == encode_labels(labels),
    ensures
        name_bytes_from(p, pos) == Some(dotted(labels)),
    decreases labels.len(),
{
    let enc = encode_labels(labels);
    if labels.len() == 0 {
        assert(p.subrange(pos, pos + 1)[0] == p[pos]);
        assert(p[pos] == 0);
    } else {
        let lab = labels[0];
        let rest = labels.skip(1);
        let renc = encode_labels(rest);
        assert(enc == seq![lab.len() as u8] + lab + renc);
        assert(p.subrange(pos, pos + enc.len())[0] == p[pos]);
        assert(p[pos] == lab.len() as u8);
        assert(1 <= lab.len() <= 255);
        assert(p[pos] as int == lab.len());
        assert(pos + 1 + lab.len() + renc.len() <= p.len());
        assert(p.subrange(pos + 1, pos + 1 + lab.len()) =~= lab) by {
            assert forall|k: int| 0 <= k < lab.len() implies p.subrange(
                pos + 1,
                pos + 1 + lab.len(),
            )[k] == lab[k] by {
                assert(p.subrange(pos, pos + enc.len())[1 + k] == p[pos + 1 + k]);
                assert(enc[1 + k] == lab[k]);
            }
        }
        assert(p.subrange(pos + 1 + lab.len(), pos + 1 + lab.len() + renc.len()) =~= renc) by {
            assert forall|k: int| 0 <= k < renc.len() implies p.subrange(
                pos + 1 + lab.len(),
                pos + 1 + lab.len() + renc.len(),
            )[k] == renc[k] by {
                assert(p.subrange(pos, pos + enc.len())[1 + lab.len() + k] == p[pos + 1 + lab.len()
                    + k]);
                assert(enc[1 + lab.len() + k] == renc[k]);
            }
        }
        lemma_parse_encoded_name(p, pos + 1 + lab.len(), rest);
    }
}

/// A single-question message whose question section encodes well-formed
/// labels that decode as text parses successfully, to exactly their dotted
/// join.
pub proof fn lemma_wellformed_message_parses(p: Seq<u8>, labels: Seq<Seq<u8>>)
    requires
        p.len() >= 6,
        question_count(p) == 1,
        wf_labels(labels),
        12 + encode_labels(labels).len() <= p.len(),
        p.subrange(12, 12 + encode_labels(labels).len() as int) == encode_labels(labels),
        valid_utf8(dotted(labels)),
    ensures
        parse_failure(p) is None,
        question_name_bytes(p) == Some(dotted(labels)),
        question_name(p) == decode_utf8(dotted(labels)),
{
    lemma_parse_encoded_name(p, 12, labels);
}

/// The flag bytes of an NXDOMAIN answer: bytes 2 and 3 replaced by
/// `0x81 0x83`, every other byte kept.
pub open spec fn nxdomain_flags(p: Seq<u8>) -> Seq<u8> {
    p.update(2, 0x81u8).update(3, 0x83u8)
}

/// Rewrites a message in place into an answer that reports NXDOMAIN: only
/// bytes 2 and 3 change, so the transaction id and the question section of
/// the original query are kept. Fails only on a buffer too short to hold
/// the flag bytes.
pub fn tweak_to_nxdomain(packet: &mut Vec<u8>) -> (r: Result<(), Error>)
    ensures
        old(packet)@.len() >= 4 ==> r is Ok && final(packet)@ == nxdomain_flags(old(packet)@),
        old(packet)@.len() < 4 ==> r is Err && (match r {
            Err(e) => e.kind == ErrorKind::DnsParsing,
            Ok(_) => false,
        }) && final(packet)@ == old(packet)@,
{
    if packet.len() < 4 {
        return Err(Error::dns_parsing());
    }
    packet[2] = 0x81;
    packet[3] = 0x83;
    Ok(())
}

/// Forcing NXDOMAIN is idempotent: on any buffer long enough for the rewrite
/// to succeed, rewriting the flag bytes twice gives the same bytes as
/// rewriting them once, and no byte outside offsets 2 and 3 is touched.
pub proof fn lemma_nxdomain_idempotent(p: Seq<u8>)
    requires
        p.len() >= 4,
    ensures
        nxdomain_flags(nxdomain_flags(p)) == nxdomain_flags(p),
        nxdomain_flags(p).len() == p.len(),
        forall|i: int| 0 <= i < p.len() && i != 2 && i != 3 ==> nxdomain_flags(p)[i] == p[i],
        p.len() >= 4 ==> nxdomain_flags(p)[2] == 0x81 && nxdomain_flags(p)[3] == 0x83,
{
    assert(nxdomain_flags(nxdomain_flags(p)) =~= nxdomain_flags(p));
}

} // verus!
