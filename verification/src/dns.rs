//! DNS over UDP: query construction, response parsing, and the dual-stack
//! lookup policy.
use crate::addr::{IpAddress, SocketAddress};
use crate::cipher::random_bytes;
use crate::config::GeneralSettings;
use crate::parse::find_char;
use crate::wire::{be_val, int_be_bytes, lemma_be_val_bound, push_u16_be, read_u16_be, read_u32_be,
    read_u128_be};
use vstd::prelude::*;
use vstd::string::StrSliceExecFns;

verus! {

/// Failures of a lookup.
#[derive(Clone, Copy, PartialEq, Eq, Structural, Debug)]
pub enum DnsError {
    /// The response's rcode was not NoError.
    Rcode(u8),
    /// The response bytes do not parse.
    BadResponse,
    /// A query was not answered in time; raised by the transport.
    Timeout,
    /// A lookup yielded no usable address.
    NoAnswers,
}

/// The record types the resolver asks for.
#[derive(Clone, Copy, PartialEq, Eq, Structural, Debug)]
pub enum RecordType {
    A,
    AAAA,
}

/// The QTYPE value of a record type.
pub open spec fn spec_qtype(ty: RecordType) -> u16 {
    match ty {
        RecordType::A => 1,
        RecordType::AAAA => 28,
    }
}

/// The wire form of a host name: each dot-separated label as a length byte
/// and its UTF-8 bytes, closed by a zero byte.
pub open spec fn qname_bytes(host: Seq<char>) -> Seq<u8>
    decreases host.len(),
    via qname_bytes_decreases
{
    let dot = find_char(host, '.', 0);
    if dot == host.len() {
        let label = vstd::utf8::encode_utf8(host);
        seq![label.len() as u8] + label + seq![0u8]
    } else {
        let label = vstd::utf8::encode_utf8(host.take(dot));
        seq![label.len() as u8] + label + qname_bytes(host.skip(dot + 1))
    }
}

/// A host whose labels fit the wire form: none empty, none over 63 bytes.
pub open spec fn host_labels_ok(host: Seq<char>) -> bool
    decreases host.len(),
    via host_labels_ok_decreases
{
    let dot = find_char(host, '.', 0);
    if dot == host.len() {
        1 <= vstd::utf8::encode_utf8(host).len() <= 63
    } else {
        1 <= vstd::utf8::encode_utf8(host.take(dot)).len() <= 63 && host_labels_ok(
            host.skip(dot + 1),
        )
    }
}

#[via_fn]
proof fn qname_bytes_decreases(host: Seq<char>) {
    crate::parse::lemma_find_char_bounds(host, '.', 0);
}

#[via_fn]
proof fn host_labels_ok_decreases(host: Seq<char>) {
    crate::parse::lemma_find_char_bounds(host, '.', 0);
}

/// One standard query: the transaction id, the recursion-desired flag, one
/// question for the host and record type, class IN.
pub open spec fn spec_query_bytes(host: Seq<char>, ty: RecordType, id: u16) -> Seq<u8> {
    int_be_bytes(id as int, 2) + seq![0x01u8, 0x00u8, 0x00u8, 0x01u8, 0x00u8, 0x00u8, 0x00u8, 0x00u8, 0x00u8, 0x00u8]
        + qname_bytes(host) + int_be_bytes(spec_qtype(ty) as int, 2) + seq![0x00u8, 0x01u8]
}

/// The resolver: its upstream servers and the address-family policy.
pub struct DnsClient {
    pub remote_dns_servers: Vec<SocketAddress>,
    pub config: GeneralSettings,
}

impl DnsClient {
    /// A resolver over the given upstream addresses, each on port 53, with
    /// both address-family switches off.
    pub fn new(ips: Vec<IpAddress>) -> (r: DnsClient)
        ensures
            r.remote_dns_servers@.len() == ips@.len(),
            forall|i: int|
                0 <= i < ips@.len() ==> #[trigger] r.remote_dns_servers@[i] == (SocketAddress {
                    ip: ips@[i],
                    port: 53,
                }),
            !r.config.prefer_ipv6 && !r.config.use_ipv6,
    {
        let mut servers: Vec<SocketAddress> = Vec::new();
        let mut i: usize = 0;
        while i < ips.len()
            invariant
                i <= ips@.len(),
                servers@.len() == i,
                forall|j: int|
                    0 <= j < i ==> #[trigger] servers@[j] == (SocketAddress {
                        ip: ips@[j],
                        port: 53,
                    }),
            decreases ips@.len() - i,
        {
            servers.push(SocketAddress { ip: ips[i], port: 53 });
            i += 1;
        }
        DnsClient { remote_dns_servers: servers, config: GeneralSettings::default() }
    }

    /// Builds one query for the host with a fresh random transaction id; the
    /// id stands in the first two bytes of the result.
    pub fn new_query(&self, host: &str, ty: RecordType) -> (r: Vec<u8>)
        requires
            host_labels_ok(host@),
        ensures
            r@ == spec_query_bytes(host@, ty, be_val(r@, 0, 2) as u16),
    {
        let id_bytes = random_bytes(2);
        let id = read_u16_be(id_bytes.as_slice(), 0);
        let mut out: Vec<u8> = Vec::new();
        push_u16_be(&mut out, id);
        out.push(0x01);
        out.push(0x00);
        out.push(0x00);
        out.push(0x01);
        let mut i: usize = 0;
        while i < 6
            invariant
                i <= 6,
                out@ =~= int_be_bytes(id as int, 2) + seq![0x01u8, 0x00u8, 0x00u8, 0x01u8]
                    + Seq::<u8>::new(i as nat, |j: int| 0u8),
            decreases 6 - i,
        {
            out.push(0x00);
            proof {
                assert(Seq::<u8>::new((i + 1) as nat, |j: int| 0u8) =~= Seq::<u8>::new(
                    i as nat,
                    |j: int| 0u8,
                ).push(0u8));
            }
            i += 1;
        }
        append_qname(&mut out, host);
        let qt: u16 = match ty {
            RecordType::A => 1,
            RecordType::AAAA => 28,
        };
        push_u16_be(&mut out, qt);
        out.push(0x00);
        out.push(0x01);
        proof {
            crate::wire::lemma_int_be_bytes_len(id as int, 2);
            assert(out@.subrange(0, 2) =~= int_be_bytes(id as int, 2));
            reveal_with_fuel(vstd::arithmetic::power::pow, 3);
            assert(vstd::arithmetic::power::pow(256, 2) == 65536);
            crate::wire::lemma_be_round_trip(id as int, 2);
            crate::wire::lemma_be_val_congruent(out@, int_be_bytes(id as int, 2), 0, 2);
            assert(out@ =~= spec_query_bytes(host@, ty, id));
        }
        out
    }
}

/// The index just past the name at `i`: a run of labels closed by a zero
/// byte, or cut short by a compression pointer.
pub open spec fn sp_skip_name(data: Seq<u8>, i: int) -> Option<int>
    decreases data.len() - i,
{
    if i < 0 || i >= data.len() {
        None
    } else if data[i] == 0 {
        Some(i + 1)
    } else if data[i] >= 0xC0 {
        if i + 2 <= data.len() {
            Some(i + 2)
        } else {
            None
        }
    } else if data[i] <= 63 {
        if i + 1 + data[i] <= data.len() {
            sp_skip_name(data, i + 1 + data[i])
        } else {
            None
        }
    } else {
        None
    }
}

/// The index just past `n` question entries starting at `i`.
pub open spec fn sp_skip_questions(data: Seq<u8>, i: int, n: nat) -> Option<int>
    decreases n,
{
    if n == 0 {
        Some(i)
    } else {
        match sp_skip_name(data, i) {
            None => None,
            Some(j) => if j + 4 <= data.len() {
                sp_skip_questions(data, j + 4, (n - 1) as nat)
            } else {
                None
            },
        }
    }
}

/// The addresses carried by `n` answer records starting at `i`: each A or
/// AAAA record contributes its address in record order, all other types are
/// passed over.
pub open spec fn sp_parse_answers(data: Seq<u8>, i: int, n: nat) -> Option<Seq<IpAddress>>
    decreases n,
{
    if n == 0 {
        Some(Seq::<IpAddress>::empty())
    } else {
        match sp_skip_name(data, i) {
            None => None,
            Some(j) => if j + 10 <= data.len() {
                let ty = be_val(data, j, j + 2);
                let rdlen = be_val(data, j + 8, j + 10);
                let rd = j + 10;
                if rd + rdlen <= data.len() {
                    match sp_parse_answers(data, rd + rdlen, (n - 1) as nat) {
                        None => None,
                        Some(rest) => if ty == 1 && rdlen == 4 {
                            Some(seq![IpAddress::V4(be_val(data, rd, rd + 4) as u32)] + rest)
                        } else if ty == 28 && rdlen == 16 {
                            Some(seq![IpAddress::V6(be_val(data, rd, rd + 16) as u128)] + rest)
                        } else {
                            Some(rest)
                        },
                    }
                } else {
                    None
                }
            } else {
                None
            },
        }
    }
}

/// What a response means: a non-NoError rcode is that failure; otherwise
/// the questions are passed over and the answers' addresses collected.
pub open spec fn sp_parse_response(data: Seq<u8>) -> Result<Seq<IpAddress>, DnsError> {
    if data.len() < 12 {
        Err(DnsError::BadResponse)
    } else if data[3] & 0x0f != 0 {
        Err(DnsError::Rcode(data[3] & 0x0f))
    } else {
        let qd = be_val(data, 4, 6);
        let an = be_val(data, 6, 8);
        match sp_skip_questions(data, 12, qd as nat) {
            None => Err(DnsError::BadResponse),
            Some(i) => match sp_parse_answers(data, i, an as nat) {
                None => Err(DnsError::BadResponse),
                Some(ips) => Ok(ips),
            },
        }
    }
}

/// Walks past the name at `i`.
fn skip_name(data: &[u8], i: usize) -> (r: Option<usize>)
    requires
        i <= data@.len(),
    ensures
        match r {
            Some(j) => sp_skip_name(data@, i as int) == Some(j as int) && i < j <= data@.len(),
            None => sp_skip_name(data@, i as int) is None,
        },
    decreases data@.len() - i,
{
    let dlen = data.len();
    if i >= dlen {
        None
    } else {
        let b = data[i];
        if b == 0 {
            Some(i + 1)
        } else if b >= 0xC0 {
            if dlen - i >= 2 {
                Some(i + 2)
            } else {
                None
            }
        } else if b <= 63 {
            if dlen - i >= 1 + (b as usize) {
                skip_name(data, i + 1 + (b as usize))
            } else {
                None
            }
        } else {
            None
        }
    }
}

/// Walks past `n` question entries starting at `i`.
fn skip_questions(data: &[u8], i: usize, n: u16) -> (r: Option<usize>)
    requires
        i <= data@.len(),
    ensures
        match r {
            Some(j) => sp_skip_questions(data@, i as int, n as nat) == Some(j as int) && i <= j
                <= data@.len(),
            None => sp_skip_questions(data@, i as int, n as nat) is None,
        },
    decreases n,
{
    if n == 0 {
        Some(i)
    } else {
        match skip_name(data, i) {
            None => None,
            Some(j) => {
                let dlen = data.len();
                if dlen - j >= 4 {
                    skip_questions(data, j + 4, n - 1)
                } else {
                    None
                }
            },
        }
    }
}

/// Collects the addresses of `n` answer records starting at `i`.
fn parse_answers(data: &[u8], i: usize, n: u16) -> (r: Option<Vec<IpAddress>>)
    requires
        i <= data@.len(),
    ensures
        match r {
            Some(v) => sp_parse_answers(data@, i as int, n as nat) == Some(v@),
            None => sp_parse_answers(data@, i as int, n as nat) is None,
        },
    decreases n,
{
    if n == 0 {
        let r: Vec<IpAddress> = Vec::new();
        proof {
            assert(r@ =~= Seq::<IpAddress>::empty());
        }
        Some(r)
    } else {
        match skip_name(data, i) {
            None => None,
            Some(j) => {
                let dlen = data.len();
                if dlen - j < 10 {
                    return None;
                }
                proof {
                    lemma_be_val_bound(data@, j as int, j as int + 2);
                    lemma_be_val_bound(data@, j as int + 8, j as int + 10);
                    reveal_with_fuel(vstd::arithmetic::power::pow, 3);
                }
                let ty = read_u16_be(data, j);
                let rdlen = read_u16_be(data, j + 8) as usize;
                let rd = j + 10;
                if dlen - rd < rdlen {
                    return None;
                }
                match parse_answers(data, rd + rdlen, n - 1) {
                    None => None,
                    Some(rest) => {
                        if ty == 1 && rdlen == 4 {
                            proof {
                                lemma_be_val_bound(data@, rd as int, rd as int + 4);
                                reveal_with_fuel(vstd::arithmetic::power::pow, 5);
                            }
                            let ip = IpAddress::V4(read_u32_be(data, rd));
                            let mut out: Vec<IpAddress> = Vec::new();
                            out.push(ip);
                            let mut tail = rest;
                            out.append(&mut tail);
                            proof {
                                assert(out@ =~= seq![
                                    IpAddress::V4(
                                        be_val(data@, rd as int, rd as int + 4) as u32,
                                    ),
                                ] + sp_parse_answers(
                                    data@,
                                    rd as int + rdlen as int,
                                    (n - 1) as nat,
                                )->Some_0);
                            }
                            Some(out)
                        } else if ty == 28 && rdlen == 16 {
                            proof {
                                lemma_be_val_bound(data@, rd as int, rd as int + 16);
                                reveal_with_fuel(vstd::arithmetic::power::pow, 17);
                            }
                            let ip = IpAddress::V6(read_u128_be(data, rd));
                            let mut out: Vec<IpAddress> = Vec::new();
                            out.push(ip);
                            let mut tail = rest;
                            out.append(&mut tail);
                            proof {
                                assert(out@ =~= seq![
                                    IpAddress::V6(
                                        be_val(data@, rd as int, rd as int + 16) as u128,
                                    ),
                                ] + sp_parse_answers(
                                    data@,
                                    rd as int + rdlen as int,
                                    (n - 1) as nat,
                                )->Some_0);
                            }
                            Some(out)
                        } else {
                            Some(rest)
                        }
                    },
                }
            },
        }
    }
}

/// Parses one response datagram into the addresses it answers with.
pub fn parse_response(data: &[u8]) -> (r: Result<Vec<IpAddress>, DnsError>)
    ensures
        match r {
            Ok(v) => sp_parse_response(data@) == Ok::<Seq<IpAddress>, DnsError>(v@),
            Err(e) => sp_parse_response(data@) == Err::<Seq<IpAddress>, DnsError>(e),
        },
{
    let dlen = data.len();
    if dlen < 12 {
        return Err(DnsError::BadResponse);
    }
    let rcode = data[3] & 0x0f;
    if rcode != 0 {
        return Err(DnsError::Rcode(rcode));
    }
    proof {
        lemma_be_val_bound(data@, 4, 6);
        lemma_be_val_bound(data@, 6, 8);
        reveal_with_fuel(vstd::arithmetic::power::pow, 3);
    }
    let qd = read_u16_be(data, 4);
    let an = read_u16_be(data, 6);
    match skip_questions(data, 12, qd) {
        None => Err(DnsError::BadResponse),
        Some(i) => match parse_answers(data, i, an) {
            None => Err(DnsError::BadResponse),
            Some(ips) => Ok(ips),
        },
    }
}

/// The queries one lookup issues, in order, by the dual-stack policy: v4
/// only when IPv6 is off, both families side by side when IPv6 is on but not
/// preferred, v6 only when it is preferred.
pub open spec fn spec_query_plan(config: GeneralSettings) -> Seq<RecordType> {
    if !config.use_ipv6 {
        seq![RecordType::A]
    } else if !config.prefer_ipv6 {
        seq![RecordType::A, RecordType::AAAA]
    } else {
        seq![RecordType::AAAA]
    }
}

/// Plans the queries of one lookup under the configured policy.
pub fn plan_queries(config: &GeneralSettings) -> (r: Vec<RecordType>)
    ensures
        r@ == spec_query_plan(*config),
{
    let mut v: Vec<RecordType> = Vec::new();
    if !config.use_ipv6 {
        v.push(RecordType::A);
    } else if !config.prefer_ipv6 {
        v.push(RecordType::A);
        v.push(RecordType::AAAA);
    } else {
        v.push(RecordType::AAAA);
    }
    proof {
        assert(v@ =~= spec_query_plan(*config));
    }
    v
}

/// The merged outcome of the per-query results: the first failure in query
/// order, or all answers concatenated in that order.
pub open spec fn sp_merge(rs: Seq<Result<Vec<IpAddress>, DnsError>>) -> Result<
    Seq<IpAddress>,
    DnsError,
>
    decreases rs.len(),
{
    if rs.len() == 0 {
        Ok(Seq::<IpAddress>::empty())
    } else {
        match rs[0] {
            Err(e) => Err(e),
            Ok(v) => match sp_merge(rs.drop_first()) {
                Err(e) => Err(e),
                Ok(rest) => Ok(v@ + rest),
            },
        }
    }
}

/// Merges the per-query results of one lookup.
pub fn merge_lookup_results(results: Vec<Result<Vec<IpAddress>, DnsError>>) -> (r: Result<
    Vec<IpAddress>,
    DnsError,
>)
    ensures
        match r {
            Ok(v) => sp_merge(results@) == Ok::<Seq<IpAddress>, DnsError>(v@),
            Err(e) => sp_merge(results@) == Err::<Seq<IpAddress>, DnsError>(e),
        },
    decreases results@.len(),
{
    let mut out: Vec<IpAddress> = Vec::new();
    let mut rest = results;
    merge_into(&mut out, &mut rest)
}

/// Appends each successful result to `acc` until a failure or the end.
fn merge_into(acc: &mut Vec<IpAddress>, rest: &mut Vec<Result<Vec<IpAddress>, DnsError>>) -> (r:
    Result<Vec<IpAddress>, DnsError>)
    ensures
        match r {
            Ok(v) => sp_merge(old(rest)@) matches Ok(s) && v@ == old(acc)@ + s,
            Err(e) => sp_merge(old(rest)@) == Err::<Seq<IpAddress>, DnsError>(e),
        },
    decreases old(rest)@.len(),
{
    if rest.len() == 0 {
        let r = acc.clone();
        proof {
            assert(r@ =~= old(acc)@ + Seq::<IpAddress>::empty());
        }
        return Ok(r);
    }
    let first = rest.remove(0);
    proof {
        assert(rest@ =~= old(rest)@.drop_first());
    }
    match first {
        Err(e) => Err(e),
        Ok(v) => {
            let ghost before = acc@;
            let mut tail = v;
            let ghost vv = tail@;
            acc.append(&mut tail);
            let inner = merge_into(acc, rest);
            proof {
                if sp_merge(old(rest)@.drop_first()) is Ok {
                    assert(before + (vv
                        + sp_merge(old(rest)@.drop_first())->Ok_0) =~= (before + vv) + sp_merge(
                        old(rest)@.drop_first(),
                    )->Ok_0);
                }
            }
            inner
        },
    }
}

/// The address a lookup dials: the first answer, with the session's port.
pub fn pick_first_address(ips: &Vec<IpAddress>, port: u16) -> (r: Option<SocketAddress>)
    ensures
        ips@.len() == 0 ==> r is None,
        ips@.len() > 0 ==> r == Some(SocketAddress { ip: ips@[0], port }),
{
    if ips.len() == 0 {
        None
    } else {
        Some(SocketAddress { ip: ips[0], port })
    }
}

/// Appends the wire form of a host name, label by label.
#[verifier::loop_isolation(false)]
fn append_qname(out: &mut Vec<u8>, host: &str)
    requires
        host_labels_ok(host@),
    ensures
        final(out)@ == old(out)@ + qname_bytes(host@),
    decreases host@.len(),
{
    let len = host.unicode_len();
    let dot = crate::parse::find_char_at(host, '.', 0);
    if dot == len {
        let bytes = host.as_bytes_vec();
        out.push(bytes.len() as u8);
        let mut tail = bytes;
        out.append(&mut tail);
        out.push(0);
        proof {
            assert(out@ =~= old(out)@ + qname_bytes(host@));
        }
    } else {
        let label = host.substring_char(0, dot);
        let bytes = label.as_bytes_vec();
        proof {
            assert(label@ == host@.take(dot as int));
        }
        out.push(bytes.len() as u8);
        let mut tail = bytes;
        out.append(&mut tail);
        let rest = host.substring_char(dot + 1, len);
        proof {
            assert(rest@ == host@.skip(dot as int + 1));
        }
        append_qname(out, rest);
        proof {
            assert(out@ =~= old(out)@ + qname_bytes(host@));
        }
    }
}

} // verus!
