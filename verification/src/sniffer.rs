//! TLS ClientHello sniffer: recovers the SNI host name from the first bytes
//! of a TLS connection, while retaining every byte it consumed so that the
//! stream can be replayed unchanged to the upstream side.
use vstd::prelude::*;
use vstd::slice::slice_subrange;

verus! {

/// The big-endian value of the bytes `s[from..to]`.
pub open spec fn be_bytes_val(s: Seq<u8>, from: int, to: int) -> int
    decreases to - from,
{
    if from >= to {
        0
    } else {
        be_bytes_val(s, from, to - 1) * 256 + s[to - 1]
    }
}

/// The payload that a length field at `data[from..to]` announces: the
/// `be_bytes_val` following bytes. Nothing when the field or the payload runs
/// past the data, or when the field is wider than eight bytes — such a field
/// is malformed in any record this sniffer accepts.
pub open spec fn sp_slice_at_range(data: Seq<u8>, from: int, to: int) -> Option<Seq<u8>> {
    let l = be_bytes_val(data, from, to);
    if 0 <= from <= to <= data.len() && to - from <= 8 && to + l <= data.len() {
        Some(data.subrange(to, to + l))
    } else {
        None
    }
}

/// What remains of `data` after the length field at `data[from..to]` and the
/// payload it announces.
pub open spec fn sp_truncate_before(data: Seq<u8>, from: int, to: int) -> Option<Seq<u8>> {
    let l = be_bytes_val(data, from, to);
    if 0 <= from <= to <= data.len() && to - from <= 8 && to + l <= data.len() {
        Some(data.skip(to + l))
    } else {
        None
    }
}

/// A big-endian value of `k` bytes is below `256^k`.
proof fn lemma_be_bytes_val_bound(s: Seq<u8>, from: int, to: int)
    requires
        from <= to <= s.len(),
    ensures
        0 <= be_bytes_val(s, from, to) < vstd::arithmetic::power::pow(256, (to - from) as nat),
    decreases to - from,
{
    vstd::arithmetic::power::lemma_pow_positive(256, (to - from) as nat);
    if from < to {
        lemma_be_bytes_val_bound(s, from, to - 1);
        vstd::arithmetic::power::lemma_pow_adds(256, (to - from - 1) as nat, 1);
        vstd::arithmetic::power::lemma_pow1(256);
    }
}

/// Reads the big-endian length field `data[from..to]` of at most eight
/// bytes.
fn be_len_field(data: &[u8], from: usize, to: usize) -> (r: u64)
    requires
        from <= to <= data@.len(),
        to - from <= 8,
    ensures
        r as int == be_bytes_val(data@, from as int, to as int),
{
    let mut acc: u64 = 0;
    let mut i = from;
    while i < to
        invariant
            from <= i <= to <= data@.len(),
            to - from <= 8,
            acc as int == be_bytes_val(data@, from as int, i as int),
        decreases to - i,
    {
        proof {
            lemma_be_bytes_val_bound(data@, from as int, i as int);
            reveal_with_fuel(vstd::arithmetic::power::pow, 8);
            assert(vstd::arithmetic::power::pow(256, 7) == 0x100_0000_0000_0000);
            vstd::arithmetic::power::lemma_pow_increases(256, (i - from) as nat, 7);
        }
        acc = acc * 256 + (data[i] as u64);
        i += 1;
    }
    acc
}

/// The bytes that the length field at `data[from..to]` announces.
pub fn slice_at_range<'a>(data: &'a [u8], from: usize, to: usize) -> (r: Result<&'a [u8], String>)
    ensures
        match r {
            Ok(sl) => sp_slice_at_range(data@, from as int, to as int) == Some(sl@),
            Err(_) => sp_slice_at_range(data@, from as int, to as int) is None,
        },
{
    if !(from <= to && to <= data.len() && to - from <= 8) {
        return Err(String::from_str("failed to get data length field from range"));
    }
    let l = be_len_field(data, from, to);
    if l > (data.len() - to) as u64 {
        return Err(String::from_str("failed to slice data"));
    }
    let sl = slice_subrange(data, to, to + (l as usize));
    Ok(sl)
}

/// What remains of `data` after the length field at `data[from..to]` and its
/// announced payload.
pub fn truncate_before<'a>(data: &'a [u8], from: usize, to: usize) -> (r: Result<
    &'a [u8],
    String,
>)
    ensures
        match r {
            Ok(sl) => sp_truncate_before(data@, from as int, to as int) == Some(sl@) && sl@.len()
                + to <= data@.len(),
            Err(_) => sp_truncate_before(data@, from as int, to as int) is None,
        },
{
    let sl = slice_at_range(data, from, to)?;
    proof {
        let l = be_bytes_val(data@, from as int, to as int);
        lemma_be_bytes_val_bound(data@, from as int, to as int);
        assert(sl@ == data@.subrange(to as int, to + l));
        assert(sl@.len() == l);
    }
    let dlen = data.len();
    let skip_to = to + sl.len();
    Ok(slice_subrange(data, skip_to, dlen))
}

/// What a sniff of a byte prefix concludes, at the specification level.
pub enum SniffSpec {
    /// The prefix is too short to decide; more bytes are needed.
    NeedMore,
    /// The prefix is not a TLS handshake record.
    NotTls,
    /// A complete ClientHello without a server-name extension.
    NoSni,
    /// A length field contradicts the data around it.
    Malformed,
    /// The server name carried by the first server-name extension.
    Sni(Seq<u8>),
}

/// What a sniff of the buffered bytes concluded.
pub enum SniffOutcome {
    NeedMoreData,
    NotTls,
    NoSni,
    Malformed,
    Found(String),
}

/// Scans the extension block for the first server-name extension and yields
/// the first host name it carries.
pub open spec fn sp_find_sni(exts: Seq<u8>) -> SniffSpec
    decreases exts.len(),
    via sp_find_sni_decreases
{
    if exts.len() <= 4 {
        SniffSpec::NoSni
    } else {
        let ext_type = be_bytes_val(exts, 0, 2);
        match sp_slice_at_range(exts, 2, 4) {
            None => SniffSpec::Malformed,
            Some(ext) => if ext_type == 0 {
                match sp_slice_at_range(ext, 3, 5) {
                    None => SniffSpec::Malformed,
                    Some(name) => SniffSpec::Sni(name),
                }
            } else {
                match sp_truncate_before(exts, 2, 4) {
                    None => SniffSpec::Malformed,
                    Some(rest) => sp_find_sni(rest),
                }
            },
        }
    }
}

#[via_fn]
proof fn sp_find_sni_decreases(exts: Seq<u8>) {
    if exts.len() > 4 {
        lemma_be_bytes_val_bound(exts, 2, 4);
    }
}

/// What sniffing the byte prefix `data` of a connection concludes: the
/// record and ClientHello layout is checked field by field, and the first
/// server-name extension decides.
pub open spec fn spec_sniff(data: Seq<u8>) -> SniffSpec {
    if data.len() < 5 {
        SniffSpec::NeedMore
    } else if data[0] != 0x16 {
        SniffSpec::NotTls
    } else if data[1] != 0x03 {
        SniffSpec::NotTls
    } else {
        let rl = be_bytes_val(data, 3, 5);
        if data.len() < 5 + rl || data.len() <= 5 {
            SniffSpec::NeedMore
        } else {
            let hello = data.skip(5);
            if hello[0] != 0x01 {
                SniffSpec::NotTls
            } else {
                match sp_truncate_before(hello, 38, 39) {
                    None => SniffSpec::Malformed,
                    Some(a) => match sp_truncate_before(a, 0, 2) {
                        None => SniffSpec::Malformed,
                        Some(b) => match sp_truncate_before(b, 0, 1) {
                            None => SniffSpec::Malformed,
                            Some(c) => match sp_slice_at_range(c, 0, 2) {
                                None => SniffSpec::Malformed,
                                Some(exts) => sp_find_sni(exts),
                            },
                        },
                    },
                }
            }
        }
    }
}

/// Whether an exec outcome reports exactly the spec-level conclusion `s`;
/// a found name is the lossy UTF-8 decoding of the carried bytes.
pub open spec fn outcome_matches(r: SniffOutcome, s: SniffSpec) -> bool {
    match r {
        SniffOutcome::NeedMoreData => s == SniffSpec::NeedMore,
        SniffOutcome::NotTls => s == SniffSpec::NotTls,
        SniffOutcome::NoSni => s == SniffSpec::NoSni,
        SniffOutcome::Malformed => s == SniffSpec::Malformed,
        SniffOutcome::Found(name) => s matches SniffSpec::Sni(bytes) && name@ == utf8_lossy_of(
            bytes,
        ),
    }
}

/// The characters that lossy UTF-8 decoding yields for the given bytes.
pub uninterp spec fn utf8_lossy_of(bytes: Seq<u8>) -> Seq<char>;

/// Relies on String::from_utf8_lossy of std: the decoding depends on the
/// bytes alone, and ASCII bytes decode to themselves.
#[verifier::external_body]
pub(crate) fn utf8_lossy(bytes: &[u8]) -> (r: String)
    ensures
        r@ == utf8_lossy_of(bytes@),
        (forall|j: int| 0 <= j < bytes@.len() ==> bytes@[j] < 0x80) ==> r@ == Seq::new(
            bytes@.len(),
            |j: int| bytes@[j] as char,
        ),
{
    String::from_utf8_lossy(bytes).into_owned()
}

/// Scans the extension block for the first server-name extension.
fn find_sni(exts: &[u8]) -> (r: SniffOutcome)
    ensures
        outcome_matches(r, sp_find_sni(exts@)),
    decreases exts@.len(),
{
    if exts.len() <= 4 {
        SniffOutcome::NoSni
    } else {
        let ext_type = be_len_field(exts, 0, 2);
        match slice_at_range(exts, 2, 4) {
            Err(_) => SniffOutcome::Malformed,
            Ok(ext) => {
                if ext_type == 0 {
                    match slice_at_range(ext, 3, 5) {
                        Err(_) => SniffOutcome::Malformed,
                        Ok(name) => SniffOutcome::Found(utf8_lossy(name)),
                    }
                } else {
                    match truncate_before(exts, 2, 4) {
                        Err(_) => SniffOutcome::Malformed,
                        Ok(rest) => find_sni(rest),
                    }
                }
            },
        }
    }
}

/// The sniffer: accumulates the bytes read off the client connection and
/// keeps all of them for replay, so that the handshake continues unchanged.
pub struct Sniffer {
    /// Every byte consumed from the client so far and not yet replayed.
    pub buf: Vec<u8>,
}

impl Sniffer {
    /// A sniffer with an empty replay buffer.
    pub fn new() -> (r: Sniffer)
        ensures
            r.buf@ == Seq::<u8>::empty(),
    {
        Sniffer { buf: Vec::new() }
    }

    /// Buffers the bytes just read from the client; only the bytes actually
    /// read may be handed in.
    pub fn push_bytes(&mut self, chunk: &[u8])
        ensures
            final(self).buf@ == old(self).buf@ + chunk@,
    {
        self.buf.extend_from_slice(chunk);
    }

    /// Examines the buffered prefix of the connection.
    pub fn sniff(&self) -> (r: SniffOutcome)
        ensures
            outcome_matches(r, spec_sniff(self.buf@)),
    {
        let data: &[u8] = self.buf.as_slice();
        let dlen = data.len();
        if dlen < 5 {
            return SniffOutcome::NeedMoreData;
        }
        if data[0] != 0x16 {
            return SniffOutcome::NotTls;
        }
        if data[1] != 0x03 {
            return SniffOutcome::NotTls;
        }
        let rl = be_len_field(data, 3, 5);
        proof {
            lemma_be_bytes_val_bound(data@, 3, 5);
            reveal_with_fuel(vstd::arithmetic::power::pow, 3);
            assert(vstd::arithmetic::power::pow(256, 2) == 65536);
        }
        if (dlen as u64) < 5 + rl || dlen <= 5 {
            return SniffOutcome::NeedMoreData;
        }
        let hello = slice_subrange(data, 5, dlen);
        proof {
            assert(hello@ =~= data@.skip(5));
        }
        if hello[0] != 0x01 {
            return SniffOutcome::NotTls;
        }
        let a = match truncate_before(hello, 38, 39) {
            Ok(x) => x,
            Err(_) => {
                return SniffOutcome::Malformed;
            },
        };
        let b = match truncate_before(a, 0, 2) {
            Ok(x) => x,
            Err(_) => {
                return SniffOutcome::Malformed;
            },
        };
        let c = match truncate_before(b, 0, 1) {
            Ok(x) => x,
            Err(_) => {
                return SniffOutcome::Malformed;
            },
        };
        let exts = match slice_at_range(c, 0, 2) {
            Ok(x) => x,
            Err(_) => {
                return SniffOutcome::Malformed;
            },
        };
        find_sni(exts)
    }

    /// Hands out up to `max` buffered bytes for replay, removing them from
    /// the buffer: the head of every later read comes from here first.
    pub fn drain_replay(&mut self, max: usize) -> (r: Vec<u8>)
        ensures
            r@ == old(self).buf@.take(vstd::math::min(max as int, old(self).buf@.len() as int)),
            final(self).buf@ == old(self).buf@.skip(
                vstd::math::min(max as int, old(self).buf@.len() as int),
            ),
    {
        let n = if max < self.buf.len() {
            max
        } else {
            self.buf.len()
        };
        let mut head: Vec<u8> = Vec::new();
        let mut i: usize = 0;
        while i < n
            invariant
                i <= n <= self.buf@.len(),
                self == old(self),
                head@ == self.buf@.take(i as int),
            decreases n - i,
        {
            head.push(self.buf[i]);
            proof {
                assert(head@ =~= self.buf@.take(i + 1));
            }
            i += 1;
        }
        let tail = self.buf.split_off(n);
        self.buf = tail;
        proof {
            assert(head@ =~= old(self).buf@.take(n as int));
            assert(self.buf@ =~= old(self).buf@.skip(n as int));
        }
        head
    }
}

/// Sniffer transparency: the bytes handed out for replay, followed by what
/// still waits in the buffer, are exactly the bytes that were consumed — a
/// downstream reader observes the original sequence.
pub proof fn lemma_sniffer_transparency(buffered: Seq<u8>, n: int)
    requires
        0 <= n <= buffered.len(),
    ensures
        buffered.take(n) + buffered.skip(n) == buffered,
{
    assert(buffered.take(n) + buffered.skip(n) =~= buffered);
}

} // verus!
