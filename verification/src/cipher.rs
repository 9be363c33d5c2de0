//! Shadowsocks AEAD primitives: key derivation from a password, per-salt
//! subkeys, the little-endian nonce counter, and the AEAD seal and open
//! operations of the two supported ciphers.
use md5::Digest;
use vstd::pervasive::VecAdditionalExecFns;
use vstd::prelude::*;
use vstd::string::StringSliceAdditionalSpecFns;

verus! {

/// The MD5 digest of the given bytes.
pub uninterp spec fn md5_of(data: Seq<u8>) -> Seq<u8>;

/// Relies on md5's `Md5` hasher: the digest depends on the data alone and
/// has sixteen bytes.
#[verifier::external_body]
fn md5_digest(data: &[u8]) -> (r: Vec<u8>)
    ensures
        r@ == md5_of(data@),
        r@.len() == 16,
{
    let mut hasher = md5::Md5::new();
    hasher.update(data);
    hasher.finalize().to_vec()
}

/// The HKDF-SHA1 output of the given key material, salt, info and length.
pub uninterp spec fn hkdf_sha1_of(ikm: Seq<u8>, salt: Seq<u8>, info: Seq<u8>, len: nat) -> Seq<u8>;

/// Relies on hkdf's `Hkdf` with sha1's `Sha1`: the RFC 5869
/// extract-then-expand output depends on the arguments alone and has the
/// requested length; expansion refuses only lengths past 255 hash blocks of
/// twenty bytes.
#[verifier::external_body]
pub fn hkdf(ikm: &[u8], salt: &[u8], info: &[u8], len: usize) -> (r: Option<Vec<u8>>)
    ensures
        r is Some <==> len <= 5100,
        r matches Some(v) ==> v@ == hkdf_sha1_of(ikm@, salt@, info@, len as nat) && v@.len()
            == len,
{
    let (_, h) = hkdf::Hkdf::<sha1::Sha1>::extract(Some(salt), ikm);
    let mut okm = vec![0u8; len];
    match h.expand(info, &mut okm) {
        Ok(()) => Some(okm),
        Err(_) => None,
    }
}

/// The AES-GCM ciphertext-with-tag for the given key, nonce and plaintext;
/// the key length selects AES-128 or AES-256.
pub uninterp spec fn seal_of(key: Seq<u8>, nonce: Seq<u8>, plain: Seq<u8>) -> Seq<u8>;

/// What opening the given bytes with the given key and nonce yields: the
/// plaintext, or nothing when the bytes were not sealed under that key and
/// nonce.
pub uninterp spec fn open_of(key: Seq<u8>, nonce: Seq<u8>, data: Seq<u8>) -> Option<Seq<u8>>;

/// Relies on ring's `LessSafeKey::seal_in_place_append_tag` with AES-128-GCM
/// for a 16-byte key and AES-256-GCM for a 32-byte key: the ciphertext
/// depends on key, nonce and plaintext alone, carries a sixteen-byte tag,
/// and ring's open operation recovers exactly the plaintext from it.
#[verifier::external_body]
pub fn aead_seal(key: &[u8], nonce: &[u8], data: Vec<u8>) -> (r: Option<Vec<u8>>)
    requires
        key@.len() == 16 || key@.len() == 32,
        nonce@.len() == 12,
        data@.len() <= 0x10000,
    ensures
        r is Some,
        r matches Some(c) ==> c@ == seal_of(key@, nonce@, data@) && c@.len() == data@.len() + 16
            && open_of(key@, nonce@, c@) == Some(data@),
{
    let alg = if key.len() == 16 { &ring::aead::AES_128_GCM } else { &ring::aead::AES_256_GCM };
    let k = ring::aead::LessSafeKey::new(ring::aead::UnboundKey::new(alg, key).ok()?);
    let n = ring::aead::Nonce::try_assume_unique_for_key(nonce).ok()?;
    let mut buf = data;
    k.seal_in_place_append_tag(n, ring::aead::Aad::empty(), &mut buf).ok()?;
    Some(buf)
}

/// Relies on ring's `LessSafeKey::open_in_place` with AES-128-GCM for a
/// 16-byte key and AES-256-GCM for a 32-byte key: opening authenticates the
/// tag and succeeds exactly on bytes sealed under the same key and nonce,
/// returning that plaintext.
#[verifier::external_body]
pub fn aead_open(key: &[u8], nonce: &[u8], data: Vec<u8>) -> (r: Option<Vec<u8>>)
    requires
        key@.len() == 16 || key@.len() == 32,
        nonce@.len() == 12,
    ensures
        r is Some <==> open_of(key@, nonce@, data@) is Some,
        r matches Some(p) ==> open_of(key@, nonce@, data@) == Some(p@) && data@ == seal_of(
            key@,
            nonce@,
            p@,
        ) && p@.len() + 16 == data@.len(),
{
    let alg = if key.len() == 16 { &ring::aead::AES_128_GCM } else { &ring::aead::AES_256_GCM };
    let k = ring::aead::LessSafeKey::new(ring::aead::UnboundKey::new(alg, key).ok()?);
    let n = ring::aead::Nonce::try_assume_unique_for_key(nonce).ok()?;
    let mut buf = data;
    let keep = k.open_in_place(n, ring::aead::Aad::empty(), &mut buf).ok()?.len();
    buf.truncate(keep);
    Some(buf)
}

/// Relies on rand::fill: a fresh buffer of exactly `len` bytes drawn from
/// the thread-local generator; nothing is assumed of the values.
#[verifier::external_body]
pub fn random_bytes(len: usize) -> (r: Vec<u8>)
    ensures
        r@.len() == len,
{
    let mut v = vec![0u8; len];
    rand::fill(&mut v[..]);
    v
}

/// The chain of digests of the classic `EVP_BytesToKey` construction:
/// `d_0 = MD5(password)`, `d_i = MD5(d_{i-1} ‖ password)`.
pub open spec fn evp_digest(pw: Seq<u8>, i: nat) -> Seq<u8>
    decreases i,
{
    if i == 0 {
        md5_of(pw)
    } else {
        md5_of(evp_digest(pw, (i - 1) as nat) + pw)
    }
}

/// The concatenation of the first `k` digests of the chain.
pub open spec fn evp_concat(pw: Seq<u8>, k: nat) -> Seq<u8>
    decreases k,
{
    if k == 0 {
        Seq::<u8>::empty()
    } else {
        evp_concat(pw, (k - 1) as nat) + evp_digest(pw, (k - 1) as nat)
    }
}

/// The master key derived from a password: digests concatenated until the
/// requested length is covered, then truncated to it.
pub open spec fn evp_key(pw: Seq<u8>, len: nat) -> Seq<u8> {
    evp_concat(pw, ((len + 15) / 16) as nat).take(len as int)
}

/// Derives the master key from a password with the iterative MD5
/// construction.
pub fn password_to_cipher_key(password: &str, cipher_len: usize) -> (r: Vec<u8>)
    requires
        1 <= cipher_len <= 64,
    ensures
        r@ == evp_key(password.spec_bytes(), cipher_len as nat),
        r@.len() == cipher_len,
{
    let pass_bytes = password.as_bytes();
    let mut last_digest = md5_digest(pass_bytes);
    let mut key = last_digest.clone();
    let ghost pw = password.spec_bytes();
    let mut rounds: usize = 1;
    proof {
        assert(key@ =~= last_digest@);
        assert(evp_digest(pw, 0) == md5_of(pw));
        assert(evp_concat(pw, 1) == evp_concat(pw, 0) + evp_digest(pw, 0));
        assert(key@ =~= evp_concat(pw, 1));
    }
    while key.len() < cipher_len
        invariant
            1 <= rounds <= 4,
            pw == password.spec_bytes(),
            pass_bytes@ == pw,
            key@.len() == 16 * rounds,
            1 <= cipher_len <= 64,
            rounds == 1 || 16 * (rounds - 1) < cipher_len,
            key@ == evp_concat(pw, rounds as nat),
            last_digest@ == evp_digest(pw, (rounds - 1) as nat),
        decreases cipher_len - key@.len() + 16,
    {
        let ghost prev_digest = last_digest@;
        let ghost prev_key = key@;
        let ghost prev_rounds = rounds as nat;
        let mut joined = last_digest.clone();
        proof {
            assert(joined@ =~= prev_digest);
        }
        let mut pass_copy: Vec<u8> = Vec::new();
        pass_copy.extend_from_slice(pass_bytes);
        proof {
            assert(pass_copy@ =~= pw);
        }
        joined.append(&mut pass_copy);
        proof {
            assert(joined@ =~= prev_digest + pw);
        }
        last_digest = md5_digest(joined.as_slice());
        proof {
            assert(last_digest@ == evp_digest(pw, prev_rounds));
        }
        let mut fresh = last_digest.clone();
        proof {
            assert(fresh@ =~= last_digest@);
        }
        key.append(&mut fresh);
        rounds = rounds + 1;
        proof {
            assert(key@ =~= prev_key + evp_digest(pw, prev_rounds));
            assert(key@ =~= evp_concat(pw, rounds as nat));
        }
    }
    key.truncate(cipher_len);
    proof {
        assert(((cipher_len + 15) / 16) as int == rounds as int);
        assert(key@ =~= evp_key(pw, cipher_len as nat));
    }
    key
}

/// The AEAD methods this proxy knows; only the 128- and 256-bit GCM ciphers
/// are served.
#[allow(non_camel_case_types)]
#[derive(Clone, Copy, PartialEq, Eq, Structural, Hash, Debug)]
pub enum Method {
    AES_128_GCM,
    AES_256_GCM,
    AES_192_GCM,
}

impl Method {
    /// The display name of the method.
    pub fn to_display_string(&self) -> (r: String)
        ensures
            match self {
                Method::AES_128_GCM => r@ == "AES_128_GCM"@,
                Method::AES_256_GCM => r@ == "AES_256_GCM"@,
                Method::AES_192_GCM => r@ == "AES_192_GCM"@,
            },
    {
        match self {
            Method::AES_128_GCM => String::from_str("AES_128_GCM"),
            Method::AES_256_GCM => String::from_str("AES_256_GCM"),
            Method::AES_192_GCM => String::from_str("AES_192_GCM"),
        }
    }

    /// The key length of the cipher; the salt has the same length.
    pub open spec fn spec_key_len(&self) -> int {
        match self {
            Method::AES_128_GCM => 16,
            Method::AES_256_GCM => 32,
            Method::AES_192_GCM => 24,
        }
    }

    /// Whether this proxy serves the method.
    pub open spec fn supported(&self) -> bool {
        self is AES_128_GCM || self is AES_256_GCM
    }
}

/// The frame parameters of one AEAD cipher.
#[derive(Clone, Copy, PartialEq, Eq, Structural, Debug)]
pub struct CipherInfo {
    pub salt_len: usize,
    pub key_len: usize,
    pub nonce_len: usize,
    pub tag_len: usize,
}

impl CipherInfo {
    /// Bundles the four frame parameters.
    pub fn new(key_len: usize, salt_len: usize, nonce_len: usize, tag_len: usize) -> (r:
        CipherInfo)
        ensures
            r == (CipherInfo { salt_len, key_len, nonce_len, tag_len }),
    {
        CipherInfo { salt_len, key_len, nonce_len, tag_len }
    }
}

/// The method registered under a configuration name: `aes-128-gcm` or
/// `aes-256-gcm`.
pub fn method_for_name(name: &str) -> (r: Option<Method>)
    ensures
        r == (if name@ == "aes-128-gcm"@ {
            Some(Method::AES_128_GCM)
        } else if name@ == "aes-256-gcm"@ {
            Some(Method::AES_256_GCM)
        } else {
            None::<Method>
        }),
{
    let n = String::from_str(name);
    if n == String::from_str("aes-128-gcm") {
        Some(Method::AES_128_GCM)
    } else if n == String::from_str("aes-256-gcm") {
        Some(Method::AES_256_GCM)
    } else {
        None
    }
}

/// The little-endian successor of a byte counter: the first byte below 255
/// steps, every 255 before it wraps to zero.
pub open spec fn le_inc(s: Seq<u8>) -> Seq<u8>
    decreases s.len(),
{
    if s.len() == 0 {
        s
    } else if s[0] == 255 {
        seq![0u8] + le_inc(s.drop_first())
    } else {
        seq![(s[0] + 1) as u8] + s.drop_first()
    }
}

/// The value of a little-endian byte counter.
pub open spec fn le_val(s: Seq<u8>) -> int
    decreases s.len(),
{
    if s.len() == 0 {
        0
    } else {
        s[0] + 256 * le_val(s.drop_first())
    }
}

/// A counter value lies below `256^len`.
pub proof fn lemma_le_val_bound(s: Seq<u8>)
    ensures
        0 <= le_val(s) < vstd::arithmetic::power::pow(256, s.len()),
    decreases s.len(),
{
    vstd::arithmetic::power::lemma_pow_positive(256, s.len());
    if s.len() > 0 {
        lemma_le_val_bound(s.drop_first());
        vstd::arithmetic::power::lemma_pow1(256);
        vstd::arithmetic::power::lemma_pow_adds(256, 1, (s.len() - 1) as nat);
        assert(vstd::arithmetic::power::pow(256, s.len()) == 256 * vstd::arithmetic::power::pow(
            256,
            (s.len() - 1) as nat,
        ));
    }
}

/// Stepping a counter that has not reached its maximum raises its value by
/// exactly one: the nonces of one direction strictly increase until a wrap.
pub proof fn lemma_nonce_strictly_increases(s: Seq<u8>)
    requires
        le_val(s) < vstd::arithmetic::power::pow(256, s.len()) - 1,
    ensures
        le_val(le_inc(s)) == le_val(s) + 1,
    decreases s.len(),
{
    lemma_le_val_bound(s);
    if s.len() > 0 {
        let rest = s.drop_first();
        vstd::arithmetic::power::lemma_pow1(256);
        vstd::arithmetic::power::lemma_pow_adds(256, 1, (s.len() - 1) as nat);
        assert(vstd::arithmetic::power::pow(256, s.len()) == 256 * vstd::arithmetic::power::pow(
            256,
            (s.len() - 1) as nat,
        ));
        if s[0] == 255 {
            lemma_le_val_bound(rest);
            lemma_nonce_strictly_increases(rest);
            assert(le_inc(s) == seq![0u8] + le_inc(rest));
            assert((seq![0u8] + le_inc(rest)).drop_first() =~= le_inc(rest));
            assert(le_val(le_inc(s)) == 0 + 256 * le_val(le_inc(rest)));
        } else {
            assert(le_inc(s) == seq![(s[0] + 1) as u8] + rest);
            assert((seq![(s[0] + 1) as u8] + rest).drop_first() =~= rest);
        }
    } else {
        vstd::arithmetic::power::lemma_pow0(256);
    }
}

/// Stepping the all-ones counter wraps it to zero.
pub proof fn lemma_nonce_wraps(s: Seq<u8>)
    requires
        le_val(s) == vstd::arithmetic::power::pow(256, s.len()) - 1,
    ensures
        le_val(le_inc(s)) == 0,
    decreases s.len(),
{
    if s.len() > 0 {
        let rest = s.drop_first();
        lemma_le_val_bound(rest);
        vstd::arithmetic::power::lemma_pow1(256);
        vstd::arithmetic::power::lemma_pow_adds(256, 1, (s.len() - 1) as nat);
        assert(vstd::arithmetic::power::pow(256, s.len()) == 256 * vstd::arithmetic::power::pow(
            256,
            (s.len() - 1) as nat,
        ));
        assert(s[0] == 255);
        assert(le_val(rest) == vstd::arithmetic::power::pow(256, (s.len() - 1) as nat) - 1);
        lemma_nonce_wraps(rest);
        assert(le_inc(s) == seq![0u8] + le_inc(rest));
        assert((seq![0u8] + le_inc(rest)).drop_first() =~= le_inc(rest));
    } else {
        vstd::arithmetic::power::lemma_pow0(256);
    }
}

/// The pre-increment nonce counter of one AEAD direction: little-endian,
/// initialized to all ones so that the first use yields the all-zero nonce.
pub struct NonceSequenceGenerator {
    pub v: Vec<u8>,
}

impl NonceSequenceGenerator {
    /// A counter of `len` bytes, all 255.
    pub fn new(len: usize) -> (r: NonceSequenceGenerator)
        ensures
            r.v@ == Seq::new(len as nat, |i: int| 0xffu8),
    {
        let v = vec![0xffu8; len];
        proof {
            assert(v@ =~= Seq::new(len as nat, |i: int| 0xffu8));
        }
        NonceSequenceGenerator { v }
    }

    /// Steps the counter and hands out its new bytes, which serve as the
    /// next nonce.
    pub fn increase(&mut self) -> (r: Vec<u8>)
        ensures
            final(self).v@ == le_inc(old(self).v@),
            r@ == final(self).v@,
            r@.len() == old(self).v@.len(),
    {
        let n = self.v.len();
        let mut i: usize = 0;
        while i < n && self.v[i] == 255
            invariant
                i <= n == self.v@.len(),
                self == old(self),
                forall|j: int| 0 <= j < i ==> self.v@[j] == 255,
            decreases n - i,
        {
            i += 1;
        }
        let stop = i;
        let mut j: usize = 0;
        while j < stop
            invariant
                j <= stop <= n == self.v@.len(),
                self.v@.len() == old(self).v@.len(),
                forall|k: int| 0 <= k < j ==> self.v@[k] == 0,
                forall|k: int| j <= k < n ==> self.v@[k] == old(self).v@[k],
            decreases stop - j,
        {
            self.v.set(j, 0);
            j += 1;
        }
        if stop < n {
            let x = self.v[stop];
            proof {
                assert(x == old(self).v@[stop as int]);
                assert(x != 255);
            }
            self.v.set(stop, x + 1);
        }
        proof {
            lemma_le_inc_shape(old(self).v@, stop as int);
            assert(self.v@ =~= le_inc(old(self).v@));
        }
        let r = self.v.clone();
        proof {
            assert(r@ =~= self.v@);
        }
        r
    }
}

/// The shape of a stepped counter whose first `i` bytes were 255 and whose
/// byte `i`, if any, was not: zeros, the stepped byte, the untouched tail.
proof fn lemma_le_inc_shape(s: Seq<u8>, i: int)
    requires
        0 <= i <= s.len(),
        forall|j: int| 0 <= j < i ==> s[j] == 255,
        i < s.len() ==> s[i] != 255,
    ensures
        le_inc(s).len() == s.len(),
        forall|j: int| 0 <= j < i ==> le_inc(s)[j] == 0,
        i < s.len() ==> le_inc(s)[i] == s[i] + 1,
        forall|j: int| i < j < s.len() ==> le_inc(s)[j] == s[j],
    decreases i + 1,
{
    if s.len() == 0 {
    } else if i == 0 {
        assert(le_inc(s) == seq![(s[0] + 1) as u8] + s.drop_first());
        assert forall|j: int| i < j < s.len() implies le_inc(s)[j] == s[j] by {
            assert(le_inc(s)[j] == s.drop_first()[j - 1]);
            assert(s.drop_first()[j - 1] == s[j]);
        }
    } else {
        lemma_le_inc_shape(s.drop_first(), i - 1);
        assert(le_inc(s) == seq![0u8] + le_inc(s.drop_first()));
        assert forall|j: int| i < j < s.len() implies le_inc(s)[j] == s[j] by {
            assert(le_inc(s)[j] == le_inc(s.drop_first())[j - 1]);
            assert(le_inc(s.drop_first())[j - 1] == s.drop_first()[j - 1]);
            assert(s.drop_first()[j - 1] == s[j]);
        }
        assert forall|j: int| 0 <= j < i implies le_inc(s)[j] == 0 by {
            if j > 0 {
                assert(le_inc(s)[j] == le_inc(s.drop_first())[j - 1]);
            }
        }
    }
}

/// The HKDF info string under which Shadowsocks derives its subkeys.
pub open spec fn subkey_info() -> Seq<u8> {
    vstd::utf8::encode_utf8("ss-subkey"@)
}

/// The all-ones twelve-byte counter that every direction starts from.
pub open spec fn initial_nonce() -> Seq<u8> {
    Seq::new(12, |i: int| 0xffu8)
}

/// The sealing half of one direction: a derived subkey and its own nonce
/// counter, shared between length and payload frames.
pub struct AeadEncryptor {
    pub key: Vec<u8>,
    pub nonce: NonceSequenceGenerator,
}

impl AeadEncryptor {
    /// A usable encryptor: a key of one of the two served sizes and a
    /// twelve-byte counter.
    pub open spec fn wf(&self) -> bool {
        (self.key@.len() == 16 || self.key@.len() == 32) && self.nonce.v@.len() == 12
    }

    /// An encryptor over a subkey, its counter at the start position.
    pub fn new(valid_key_from_hkdf: &[u8]) -> (r: AeadEncryptor)
        requires
            valid_key_from_hkdf@.len() == 16 || valid_key_from_hkdf@.len() == 32,
        ensures
            r.key@ == valid_key_from_hkdf@,
            r.nonce.v@ == initial_nonce(),
            r.wf(),
    {
        let mut key: Vec<u8> = Vec::new();
        key.extend_from_slice(valid_key_from_hkdf);
        proof {
            assert(key@ =~= valid_key_from_hkdf@);
        }
        AeadEncryptor { key, nonce: NonceSequenceGenerator::new(12) }
    }

    /// Seals one frame under the next nonce: the counter steps, and the
    /// result carries the ciphertext with its tag.
    pub fn encrypt(&mut self, data: Vec<u8>) -> (r: Vec<u8>)
        requires
            old(self).wf(),
            data@.len() <= 0x10000,
        ensures
            final(self).wf(),
            final(self).key@ == old(self).key@,
            final(self).nonce.v@ == le_inc(old(self).nonce.v@),
            r@ == seal_of(old(self).key@, le_inc(old(self).nonce.v@), data@),
            r@.len() == data@.len() + 16,
            open_of(old(self).key@, le_inc(old(self).nonce.v@), r@) == Some(data@),
    {
        let n = self.nonce.increase();
        match aead_seal(self.key.as_slice(), n.as_slice(), data) {
            Some(c) => c,
            None => unreached(),
        }
    }
}

/// The opening half of one direction: a derived subkey and its own nonce
/// counter, stepping in lockstep with the peer's sealing counter.
pub struct AeadDecryptor {
    pub key: Vec<u8>,
    pub nonce: NonceSequenceGenerator,
}

impl AeadDecryptor {
    /// A usable decryptor: a key of one of the two served sizes and a
    /// twelve-byte counter.
    pub open spec fn wf(&self) -> bool {
        (self.key@.len() == 16 || self.key@.len() == 32) && self.nonce.v@.len() == 12
    }

    /// A decryptor over a subkey, its counter at the start position.
    pub fn new(valid_key_from_hkdf: &[u8]) -> (r: AeadDecryptor)
        requires
            valid_key_from_hkdf@.len() == 16 || valid_key_from_hkdf@.len() == 32,
        ensures
            r.key@ == valid_key_from_hkdf@,
            r.nonce.v@ == initial_nonce(),
            r.wf(),
    {
        let mut key: Vec<u8> = Vec::new();
        key.extend_from_slice(valid_key_from_hkdf);
        proof {
            assert(key@ =~= valid_key_from_hkdf@);
        }
        AeadDecryptor { key, nonce: NonceSequenceGenerator::new(12) }
    }

    /// Opens one frame under the next nonce: the counter steps whether or
    /// not the tag verifies; a failure means the bytes were not sealed under
    /// this key and nonce.
    pub fn decrypt(&mut self, data: Vec<u8>) -> (r: Option<Vec<u8>>)
        requires
            old(self).wf(),
        ensures
            final(self).wf(),
            final(self).key@ == old(self).key@,
            final(self).nonce.v@ == le_inc(old(self).nonce.v@),
            r is Some <==> open_of(old(self).key@, le_inc(old(self).nonce.v@), data@) is Some,
            r matches Some(p) ==> open_of(old(self).key@, le_inc(old(self).nonce.v@), data@)
                == Some(p@) && data@ == seal_of(old(self).key@, le_inc(old(self).nonce.v@), p@)
                && p@.len() + 16 == data@.len(),
    {
        let n = self.nonce.increase();
        aead_open(self.key.as_slice(), n.as_slice(), data)
    }
}

/// One of the served AEAD ciphers, ready to derive per-salt directions.
pub struct AEADCipher {
    pub method: Method,
}

impl AEADCipher {
    /// A cipher for a served method.
    pub fn new(method: Method) -> (r: AEADCipher)
        requires
            method.supported(),
        ensures
            r.method == method,
    {
        AEADCipher { method }
    }

    /// The key length of the cipher; the salt is as long.
    pub fn key_len(&self) -> (r: usize)
        ensures
            r as int == self.method.spec_key_len(),
    {
        match self.method {
            Method::AES_128_GCM => 16,
            Method::AES_256_GCM => 32,
            Method::AES_192_GCM => 24,
        }
    }

    /// The tag length of the cipher.
    pub fn tag_len(&self) -> (r: usize)
        ensures
            r == 16,
    {
        16
    }

    /// The subkey that a salt derives for this cipher and master key.
    pub open spec fn spec_subkey(&self, psk: Seq<u8>, salt: Seq<u8>) -> Seq<u8> {
        hkdf_sha1_of(psk, salt, subkey_info(), self.method.spec_key_len() as nat)
    }

    /// The sealing direction for a salt: its subkey comes from HKDF-SHA1
    /// over the master key.
    pub fn encryptor(&self, psk: &[u8], salt: &[u8]) -> (r: AeadEncryptor)
        requires
            self.method.supported(),
        ensures
            r.key@ == self.spec_subkey(psk@, salt@),
            r.nonce.v@ == initial_nonce(),
            r.wf(),
    {
        let info = "ss-subkey";
        let key = match hkdf(psk, salt, info.as_bytes(), self.key_len()) {
            Some(k) => k,
            None => unreached(),
        };
        AeadEncryptor::new(key.as_slice())
    }

    /// The opening direction for a salt, under the same subkey derivation.
    pub fn decryptor(&self, psk: &[u8], salt: &[u8]) -> (r: AeadDecryptor)
        requires
            self.method.supported(),
        ensures
            r.key@ == self.spec_subkey(psk@, salt@),
            r.nonce.v@ == initial_nonce(),
            r.wf(),
    {
        let info = "ss-subkey";
        let key = match hkdf(psk, salt, info.as_bytes(), self.key_len()) {
            Some(k) => k,
            None => unreached(),
        };
        AeadDecryptor::new(key.as_slice())
    }
}

} // verus!
