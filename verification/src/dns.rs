//! The pure halves of a minimal DNS resolver: building a single
//! A-record query packet and validating its response. Sending and
//! receiving over a socket stay with the caller.
use vstd::prelude::*;
use vstd::string::StringSliceAdditionalSpecFns;

verus! {

/// Everything that can go wrong while resolving a domain name. The
/// first five kinds report socket failures and are raised by the
/// caller that owns the socket, never by the packet logic here.
#[derive(Debug)]
pub enum DnsError {
    BindFailed,
    ConnectFailed,
    WriteFailed,
    SendFailed,
    RecvFailed,
    /// A label between dots is longer than 255 bytes.
    DomainPartTooLong,
    /// The response holds fewer than 30 bytes.
    ResponseTooShort,
    /// The response's status nibble is not zero; the payload holds it.
    DnsErrorCode(u8),
    /// The response answers with no records for this domain.
    NoRecordFound(String),
}

/// The fixed 12-byte query header: transaction id 0x1234, the
/// recursion-desired flag, one question, and no other records.
pub open spec fn spec_dns_header() -> Seq<u8> {
    seq![0x12u8, 0x34, 0x01, 0x00, 0x00, 0x01, 0x00, 0x00, 0x00, 0x00, 0x00, 0x00]
}

/// What follows the encoded labels: the terminating zero length, then
/// QTYPE A and QCLASS IN.
pub open spec fn spec_dns_question_tail() -> Seq<u8> {
    seq![0x00u8, 0x00, 0x01, 0x00, 0x01]
}

/// The first dot at or after `from`, if any.
pub open spec fn spec_find_dot(b: Seq<u8>, from: int) -> Option<int>
    decreases b.len() - from,
{
    if from < 0 || from >= b.len() {
        None
    } else if b[from] == 0x2e {
        Some(from)
    } else {
        spec_find_dot(b, from + 1)
    }
}

/// What the dot scan yields: the first dot at or after `from`, or the
/// knowledge that none follows.
pub proof fn lemma_find_dot(b: Seq<u8>, from: int)
    requires
        0 <= from,
    ensures
        match spec_find_dot(b, from) {
            Some(j) => {
                &&& from <= j < b.len()
                &&& b[j] == 0x2e
                &&& forall|k: int| from <= k < j ==> b[k] != 0x2e
            },
            None => forall|k: int| from <= k < b.len() ==> b[k] != 0x2e,
        },
    decreases b.len() - from,
{
    if from < b.len() && b[from] != 0x2e {
        lemma_find_dot(b, from + 1);
    }
}

/// The length-prefixed label encoding of the domain bytes from `from`
/// on: each dot-separated label is its length byte followed by its
/// bytes, and a label longer than 255 bytes is an error. (The clamp of
/// `end` never changes the result; it keeps the recursion well
/// founded.)
pub open spec fn spec_encode_labels(b: Seq<u8>, from: int) -> Result<Seq<u8>, DnsError>
    decreases b.len() - from,
{
    let end_raw: int = match spec_find_dot(b, from) {
        Some(j) => j,
        None => b.len() as int,
    };
    let end: int = if end_raw < from {
        from
    } else {
        end_raw
    };
    let part = b.subrange(from, end);
    if part.len() > 255 {
        Err(DnsError::DomainPartTooLong)
    } else if end >= b.len() {
        Ok(seq![part.len() as u8] + part)
    } else {
        match spec_encode_labels(b, end + 1) {
            Err(e) => Err(e),
            Ok(rest) => Ok(seq![part.len() as u8] + part + rest),
        }
    }
}

/// The whole query packet for a domain: header, labels, terminator,
/// QTYPE and QCLASS.
pub open spec fn spec_dns_query(domain_bytes: Seq<u8>) -> Result<Seq<u8>, DnsError> {
    match spec_encode_labels(domain_bytes, 0) {
        Err(e) => Err(e),
        Ok(labels) => Ok(spec_dns_header() + labels + spec_dns_question_tail()),
    }
}

/// Builds the DNS query packet that asks for the domain's A record:
/// the fixed header, the domain as length-prefixed labels, and the
/// question's type and class. A label longer than 255 bytes fails.
pub fn build_dns_query(domain: &str) -> (r: Result<Vec<u8>, DnsError>)
    ensures
        match r {
            Ok(packet) => spec_dns_query(domain.spec_bytes()) == Ok::<_, DnsError>(packet@),
            Err(e) => spec_dns_query(domain.spec_bytes()) == Err::<Seq<u8>, _>(e),
        },
{
    let b = domain.as_bytes();
    let mut packet: Vec<u8> = Vec::new();
    packet.push(0x12);
    packet.push(0x34);
    packet.push(0x01);
    packet.push(0x00);
    packet.push(0x00);
    packet.push(0x01);
    packet.push(0x00);
    packet.push(0x00);
    packet.push(0x00);
    packet.push(0x00);
    packet.push(0x00);
    packet.push(0x00);
    proof {
        assert(packet@ =~= spec_dns_header());
    }
    let ghost mut done: Seq<u8> = Seq::empty();
    proof {
        assert(packet@ =~= spec_dns_header() + done);
        assert(b@.len() == b.len());
        assert forall|rest: Seq<u8>| Seq::<u8>::empty() + rest =~= rest by {}
    }
    let mut start: usize = 0;
    loop
        invariant_except_break
            start <= b@.len() <= usize::MAX,
            b@ == domain.spec_bytes(),
            packet@ == spec_dns_header() + done,
            spec_encode_labels(b@, 0) == (match spec_encode_labels(b@, start as int) {
                Ok(rest) => Ok::<_, DnsError>(done + rest),
                Err(e) => Err::<Seq<u8>, _>(e),
            }),
        ensures
            b@ == domain.spec_bytes(),
            spec_encode_labels(b@, 0) matches Ok(labels) && packet@ == spec_dns_header() + labels,
        decreases b@.len() - start,
    {
        let mut j: usize = start;
        while j < b.len() && b[j] != 0x2e
            invariant
                start <= j <= b@.len(),
                forall|k: int| start <= k < j ==> b@[k] != 0x2e,
            decreases b@.len() - j,
        {
            j = j + 1;
        }
        proof {
            lemma_find_dot(b@, start as int);
            if j < b@.len() {
                assert(spec_find_dot(b@, start as int) == Some(j as int));
            } else {
                assert(spec_find_dot(b@, start as int) is None);
            }
        }
        let label_len = j - start;
        if label_len > 255 {
            return Err(DnsError::DomainPartTooLong);
        }
        let ghost part = b@.subrange(start as int, j as int);
        let ghost done0 = done;
        packet.push(label_len as u8);
        let mut k = start;
        while k < j
            invariant
                start <= k <= j <= b@.len(),
                label_len == j - start <= 255,
                packet@ == spec_dns_header() + done + seq![label_len as u8] + b@.subrange(
                    start as int,
                    k as int,
                ),
            decreases j - k,
        {
            packet.push(b[k]);
            proof {
                assert(b@.subrange(start as int, k + 1) =~= b@.subrange(start as int, k as int)
                    + seq![b@[k as int]]);
                assert(packet@ =~= spec_dns_header() + done + seq![label_len as u8]
                    + b@.subrange(start as int, k + 1));
            }
            k = k + 1;
        }
        proof {
            done = done0 + seq![label_len as u8] + part;
            assert(packet@ =~= spec_dns_header() + done);
            assert(seq![label_len as u8] + part =~= seq![part.len() as u8] + part);
        }
        if j == b.len() {
            proof {
                assert(spec_encode_labels(b@, start as int) == Ok::<_, DnsError>(
                    seq![part.len() as u8] + part,
                ));
                assert(done0 + (seq![part.len() as u8] + part) =~= done);
            }
            break ;
        }
        start = j + 1;
        proof {
            assert forall|rest: Seq<u8>|
                done0 + (seq![part.len() as u8] + part + rest) =~= done + rest by {}
        }
    }
    packet.push(0x00);
    packet.push(0x00);
    packet.push(0x01);
    packet.push(0x00);
    packet.push(0x01);
    proof {
        let labels = spec_encode_labels(domain.spec_bytes(), 0)->Ok_0;
        assert(packet@ =~= spec_dns_header() + labels + spec_dns_question_tail());
    }
    Ok(packet)
}

/// Validates a DNS response and extracts the resolved address: the
/// response must hold at least 30 bytes, report status zero, and
/// answer with at least one record; the last four bytes of the
/// response are the address. `domain` only names the query in the
/// no-record error.
pub fn parse_dns_response(resp: &[u8], domain: &str) -> (r: Result<[u8; 4], DnsError>)
    ensures
        resp@.len() < 30 ==> r == Err::<[u8; 4], _>(DnsError::ResponseTooShort),
        resp@.len() >= 30 && resp@[3] & 0x0f != 0 ==> r == Err::<[u8; 4], _>(
            DnsError::DnsErrorCode(resp@[3] & 0x0f),
        ),
        resp@.len() >= 30 && resp@[3] & 0x0f == 0 && resp@[6] == 0 && resp@[7] == 0 ==> (match r {
            Err(DnsError::NoRecordFound(d)) => d@ == domain@,
            _ => false,
        }),
        resp@.len() >= 30 && resp@[3] & 0x0f == 0 && !(resp@[6] == 0 && resp@[7] == 0) ==> (match r {
            Ok(ip) => ip@ == resp@.subrange(resp@.len() - 4, resp@.len() as int),
            _ => false,
        }),
{
    if resp.len() < 30 {
        return Err(DnsError::ResponseTooShort);
    }
    let rcode: u8 = resp[3] & 0x0f;
    if rcode != 0 {
        return Err(DnsError::DnsErrorCode(rcode));
    }
    let answer_count: u16 = ((resp[6] as u16) << 8) | (resp[7] as u16);
    proof {
        let hi = resp@[6];
        let lo = resp@[7];
        assert(((hi as u16) << 8 | (lo as u16)) == 0 <==> hi == 0 && lo == 0) by (bit_vector);
    }
    if answer_count == 0 {
        return Err(DnsError::NoRecordFound(domain.to_owned()));
    }
    let n = resp.len();
    let ip: [u8; 4] = [resp[n - 4], resp[n - 3], resp[n - 2], resp[n - 1]];
    proof {
        assert(ip@ =~= resp@.subrange(resp@.len() - 4, resp@.len() as int));
    }
    Ok(ip)
}

} // verus!
