//! Shadowsocks AEAD framing: the salted, chunked TCP stream in both
//! directions, and the one-shot UDP datagram form.
use crate::cipher::{initial_nonce, le_inc, open_of, seal_of, random_bytes, AeadDecryptor,
    AeadEncryptor, AEADCipher, Method, method_for_name, password_to_cipher_key, evp_key};
use crate::wire::{be_val, int_be_bytes, lemma_be_val_bound, push_u16_be, read_u16_be};
use vstd::prelude::*;
use vstd::string::StringSliceAdditionalSpecFns;

verus! {

/// Failures of the AEAD stream.
#[derive(Clone, Copy, PartialEq, Eq, Structural, Debug)]
pub enum SsError {
    /// A frame whose tag did not verify.
    Crypto,
    /// The peer closed mid-frame.
    UnexpectedEof,
}

/// The error that any cryptographic failure of the stream maps to.
pub fn map_crypto_error() -> (r: SsError)
    ensures
        r == SsError::Crypto,
{
    SsError::Crypto
}

/// Where the reading direction stands.
#[derive(Clone, Copy, PartialEq, Eq, Structural, Debug)]
pub enum ReadState {
    /// Waiting for the peer's salt.
    WaitingSalt,
    /// Waiting for an encrypted length frame.
    WaitingLength,
    /// Waiting for an encrypted payload of the announced size.
    WaitingPayload(usize),
}

/// What one step of the reading direction yielded.
pub enum ReadProgress {
    /// The buffered bytes do not cover the current frame yet.
    NeedMoreData,
    /// A state was crossed without producing plaintext.
    Progressed,
    /// One payload frame, decrypted.
    Decrypted(Vec<u8>),
}

/// The two encrypted frames of one chunk: the two-byte big-endian length,
/// then the payload, each sealed under the next nonce of the direction's
/// counter.
pub open spec fn chunk_frames(key: Seq<u8>, ctr: Seq<u8>, plain: Seq<u8>) -> Seq<u8> {
    seal_of(key, le_inc(ctr), int_be_bytes(plain.len() as int, 2)) + seal_of(
        key,
        le_inc(le_inc(ctr)),
        plain,
    )
}

/// A Shadowsocks AEAD stream: the master key, the cipher, the two direction
/// states, and the not-yet-decrypted inbound bytes.
pub struct ShadowsocksStream {
    pub psk: Vec<u8>,
    pub cipher: AEADCipher,
    pub encryptor: Option<AeadEncryptor>,
    pub decryptor: Option<AeadDecryptor>,
    pub read_buf: Vec<u8>,
    pub read_state: ReadState,
}

impl ShadowsocksStream {
    /// A usable stream: a supported method, a master key of its size, sound
    /// direction states, and a decryptor as soon as the salt has been read.
    pub open spec fn wf(&self) -> bool {
        &&& self.cipher.method.supported()
        &&& self.psk@.len() == self.cipher.method.spec_key_len()
        &&& (self.encryptor matches Some(e) ==> e.wf())
        &&& (self.decryptor matches Some(d) ==> d.wf())
        &&& (!(self.read_state is WaitingSalt) ==> self.decryptor is Some)
        &&& (self.read_state matches ReadState::WaitingPayload(n) ==> n <= 0xffff)
    }

    /// A fresh stream over a method name and password; the master key is
    /// derived from the password at once.
    pub fn new(method: &str, password: &str) -> (r: Result<ShadowsocksStream, SsError>)
        ensures
            r matches Ok(s) ==> {
                &&& s.wf()
                &&& s.psk@ == evp_key(password.spec_bytes(), s.cipher.method.spec_key_len() as nat)
                &&& s.encryptor is None
                &&& s.decryptor is None
                &&& s.read_buf@ == Seq::<u8>::empty()
                &&& s.read_state is WaitingSalt
                &&& (method@ == "aes-128-gcm"@ ==> s.cipher.method is AES_128_GCM)
                &&& (method@ == "aes-256-gcm"@ ==> s.cipher.method is AES_256_GCM)
            },
            r is Ok <==> (method@ == "aes-128-gcm"@ || method@ == "aes-256-gcm"@),
    {
        proof {
            reveal_strlit("aes-128-gcm");
            reveal_strlit("aes-256-gcm");
            assert("aes-128-gcm"@ != "aes-256-gcm"@) by {
                assert("aes-128-gcm"@[4] == '1' && "aes-256-gcm"@[4] == '2');
            }
        }
        let m = match method_for_name(method) {
            Some(m) => m,
            None => {
                return Err(SsError::Crypto);
            },
        };
        let cipher = AEADCipher::new(m);
        let psk = password_to_cipher_key(password, cipher.key_len());
        Ok(
            ShadowsocksStream {
                psk,
                cipher,
                encryptor: None,
                decryptor: None,
                read_buf: Vec::new(),
                read_state: ReadState::WaitingSalt,
            },
        )
    }

    /// Buffers bytes read from the peer, exactly as they arrived.
    pub fn feed(&mut self, bytes: &[u8])
        requires
            old(self).wf(),
        ensures
            final(self).wf(),
            *final(self) == (ShadowsocksStream {
                read_buf: final(self).read_buf,
                ..*old(self)
            }),
            final(self).read_buf@ == old(self).read_buf@ + bytes@,
    {
        self.read_buf.extend_from_slice(bytes);
    }

    /// Whether a clean close from the peer is in order: only between frames
    /// with nothing buffered; anything else ended mid-frame.
    pub fn eof_check(&self) -> (r: Result<(), SsError>)
        ensures
            r is Ok <==> self.read_buf@.len() == 0,
            r matches Err(e) ==> e == SsError::UnexpectedEof,
    {
        if self.read_buf.len() == 0 {
            Ok(())
        } else {
            Err(SsError::UnexpectedEof)
        }
    }

    /// Encrypts one chunk of at most `MAX_PAYLOAD_LEN` bytes for the peer. The first
    /// chunk draws a random salt, derives the sealing subkey from it and
    /// carries the salt in front; every chunk then seals the length and the
    /// payload under the two next nonces.
    pub fn encrypt_chunk(&mut self, plain: &[u8]) -> (r: Vec<u8>)
        requires
            old(self).wf(),
            0 < plain@.len() <= crate::MAX_PAYLOAD_LEN,
        ensures
            final(self).wf(),
            final(self).psk == old(self).psk,
            final(self).cipher == old(self).cipher,
            final(self).decryptor == old(self).decryptor,
            final(self).read_buf == old(self).read_buf,
            final(self).read_state == old(self).read_state,
            final(self).encryptor is Some,
            match old(self).encryptor {
                Some(enc) => {
                    let key = enc.key@;
                    &&& final(self).encryptor matches Some(e2) && e2.key@ == key && e2.nonce.v@
                        == le_inc(le_inc(enc.nonce.v@))
                    &&& r@ == chunk_frames(key, enc.nonce.v@, plain@)
                    &&& open_of(key, le_inc(enc.nonce.v@), r@.take(18)) == Some(
                        int_be_bytes(plain@.len() as int, 2),
                    )
                    &&& open_of(key, le_inc(le_inc(enc.nonce.v@)), r@.skip(18)) == Some(plain@)
                },
                None => {
                    let salt_len = old(self).cipher.method.spec_key_len();
                    let salt = r@.take(salt_len);
                    let key = old(self).cipher.spec_subkey(old(self).psk@, salt);
                    &&& r@.len() == salt_len + 18 + plain@.len() + 16
                    &&& final(self).encryptor matches Some(e2) && e2.key@ == key && e2.nonce.v@
                        == le_inc(le_inc(initial_nonce()))
                    &&& r@ == salt + chunk_frames(key, initial_nonce(), plain@)
                    &&& open_of(key, le_inc(initial_nonce()), r@.subrange(salt_len, salt_len + 18))
                        == Some(int_be_bytes(plain@.len() as int, 2))
                    &&& open_of(key, le_inc(le_inc(initial_nonce())), r@.skip(salt_len + 18))
                        == Some(plain@)
                },
            },
    {
        let mut out: Vec<u8> = Vec::new();
        let ghost had_encryptor = self.encryptor is Some;
        if self.encryptor.is_none() {
            let salt = random_bytes(self.cipher.key_len());
            let enc = self.cipher.encryptor(self.psk.as_slice(), salt.as_slice());
            self.encryptor = Some(enc);
            out.append(&mut salt.clone());
            proof {
                assert(out@ =~= salt@);
            }
        }
        let ghost salt_part = out@;
        let enc = match &mut self.encryptor {
            Some(e) => e,
            None => unreached(),
        };
        let mut len_bytes: Vec<u8> = Vec::new();
        push_u16_be(&mut len_bytes, plain.len() as u16);
        proof {
            crate::wire::lemma_int_be_bytes_len(plain@.len() as int, 2);
            assert(len_bytes@ =~= int_be_bytes(plain@.len() as int, 2));
        }
        let mut len_frame = enc.encrypt(len_bytes);
        let mut plain_vec: Vec<u8> = Vec::new();
        plain_vec.extend_from_slice(plain);
        proof {
            assert(plain_vec@ =~= plain@);
        }
        let mut payload_frame = enc.encrypt(plain_vec);
        let ghost lf = len_frame@;
        let ghost pf = payload_frame@;
        out.append(&mut len_frame);
        out.append(&mut payload_frame);
        proof {
            assert(out@ =~= salt_part + lf + pf);
            assert(out@.take(salt_part.len() as int) =~= salt_part);
            assert(out@.subrange(salt_part.len() as int, salt_part.len() as int + 18) =~= lf);
            assert(out@.skip(salt_part.len() as int + 18) =~= pf);
        }
        out
    }

    /// Makes one transition of the reading direction on the buffered bytes:
    /// consumes the salt, or decrypts one length or payload frame under the
    /// next nonce, or reports that more bytes are needed.
    pub fn read_step(&mut self) -> (r: Result<ReadProgress, SsError>)
        requires
            old(self).wf(),
        ensures
            final(self).wf(),
            final(self).psk == old(self).psk,
            final(self).cipher == old(self).cipher,
            final(self).encryptor == old(self).encryptor,
            match old(self).read_state {
                ReadState::WaitingSalt => {
                    let salt_len = old(self).cipher.method.spec_key_len();
                    if old(self).read_buf@.len() < salt_len {
                        r matches Ok(p) && p is NeedMoreData && *final(self) == *old(self)
                    } else {
                        let salt = old(self).read_buf@.take(salt_len);
                        &&& r matches Ok(p) && p is Progressed
                        &&& final(self).read_buf@ == old(self).read_buf@.skip(salt_len)
                        &&& final(self).read_state is WaitingLength
                        &&& final(self).decryptor matches Some(d) && d.key@ == old(self).cipher.spec_subkey(old(self).psk@, salt) && d.nonce.v@ == initial_nonce()
                    }
                },
                ReadState::WaitingLength => {
                    let d = old(self).decryptor->Some_0;
                    if old(self).read_buf@.len() < 18 {
                        r matches Ok(p) && p is NeedMoreData && *final(self) == *old(self)
                    } else {
                        let frame = old(self).read_buf@.take(18);
                        &&& final(self).read_buf@ == old(self).read_buf@.skip(18)
                        &&& final(self).decryptor matches Some(d2) && d2.key@ == d.key@
                            && d2.nonce.v@ == le_inc(d.nonce.v@)
                        &&& match open_of(d.key@, le_inc(d.nonce.v@), frame) {
                            Some(p) => r matches Ok(pr) && pr is Progressed && final(self).read_state == ReadState::WaitingPayload(be_val(p, 0, 2) as usize),
                            None => r matches Err(e) && e == SsError::Crypto && final(self).read_state == old(self).read_state,
                        }
                    }
                },
                ReadState::WaitingPayload(n) => {
                    let d = old(self).decryptor->Some_0;
                    if old(self).read_buf@.len() < n + 16 {
                        r matches Ok(p) && p is NeedMoreData && *final(self) == *old(self)
                    } else {
                        let frame = old(self).read_buf@.take(n + 16);
                        &&& final(self).read_buf@ == old(self).read_buf@.skip(n + 16)
                        &&& final(self).decryptor matches Some(d2) && d2.key@ == d.key@
                            && d2.nonce.v@ == le_inc(d.nonce.v@)
                        &&& match open_of(d.key@, le_inc(d.nonce.v@), frame) {
                            Some(p) => r matches Ok(pr) && pr matches ReadProgress::Decrypted(v)
                                && v@ == p && final(self).read_state is WaitingLength,
                            None => r matches Err(e) && e == SsError::Crypto && final(self).read_state == old(self).read_state,
                        }
                    }
                },
            },
    {
        match self.read_state {
            ReadState::WaitingSalt => {
                let salt_len = self.cipher.key_len();
                if self.read_buf.len() < salt_len {
                    return Ok(ReadProgress::NeedMoreData);
                }
                let salt = take_front(&mut self.read_buf, salt_len);
                let d = self.cipher.decryptor(self.psk.as_slice(), salt.as_slice());
                self.decryptor = Some(d);
                self.read_state = ReadState::WaitingLength;
                Ok(ReadProgress::Progressed)
            },
            ReadState::WaitingLength => {
                if self.read_buf.len() < 18 {
                    return Ok(ReadProgress::NeedMoreData);
                }
                let frame = take_front(&mut self.read_buf, 18);
                let dec = match &mut self.decryptor {
                    Some(d) => d,
                    None => unreached(),
                };
                match dec.decrypt(frame) {
                    Some(p) => {
                        proof {
                            lemma_be_val_bound(p@, 0, 2);
                            reveal_with_fuel(vstd::arithmetic::power::pow, 3);
                        }
                        let n = read_u16_be(p.as_slice(), 0) as usize;
                        self.read_state = ReadState::WaitingPayload(n);
                        Ok(ReadProgress::Progressed)
                    },
                    None => Err(SsError::Crypto),
                }
            },
            ReadState::WaitingPayload(n) => {
                if self.read_buf.len() < n + 16 {
                    return Ok(ReadProgress::NeedMoreData);
                }
                let frame = take_front(&mut self.read_buf, n + 16);
                let dec = match &mut self.decryptor {
                    Some(d) => d,
                    None => unreached(),
                };
                match dec.decrypt(frame) {
                    Some(p) => {
                        self.read_state = ReadState::WaitingLength;
                        Ok(ReadProgress::Decrypted(p))
                    },
                    None => Err(SsError::Crypto),
                }
            },
        }
    }
}

/// One-shot Shadowsocks UDP codec: each datagram carries a fresh salt, and
/// its payload is sealed under the salt's subkey and the first nonce of a
/// fresh counter — the all-zero nonce.
pub struct ShadowsocksDatagram {
    pub psk: Vec<u8>,
    pub cipher: AEADCipher,
}

impl ShadowsocksDatagram {
    /// A usable codec: a supported method and a master key of its size.
    pub open spec fn wf(&self) -> bool {
        self.cipher.method.supported() && self.psk@.len() == self.cipher.method.spec_key_len()
    }

    /// A codec over a method name and password.
    pub fn new(method: &str, password: &str) -> (r: Result<ShadowsocksDatagram, SsError>)
        ensures
            r matches Ok(d) ==> {
                &&& d.wf()
                &&& d.psk@ == evp_key(password.spec_bytes(), d.cipher.method.spec_key_len() as nat)
                &&& (method@ == "aes-128-gcm"@ ==> d.cipher.method is AES_128_GCM)
                &&& (method@ == "aes-256-gcm"@ ==> d.cipher.method is AES_256_GCM)
            },
            r is Ok <==> (method@ == "aes-128-gcm"@ || method@ == "aes-256-gcm"@),
    {
        proof {
            reveal_strlit("aes-128-gcm");
            reveal_strlit("aes-256-gcm");
            assert("aes-128-gcm"@ != "aes-256-gcm"@) by {
                assert("aes-128-gcm"@[4] == '1' && "aes-256-gcm"@[4] == '2');
            }
        }
        let m = match method_for_name(method) {
            Some(m) => m,
            None => {
                return Err(SsError::Crypto);
            },
        };
        let cipher = AEADCipher::new(m);
        let psk = password_to_cipher_key(password, cipher.key_len());
        Ok(ShadowsocksDatagram { psk, cipher })
    }

    /// Encrypts one datagram: a fresh random salt, then the payload sealed
    /// under the salt's subkey and the all-zero nonce.
    pub fn encrypt(&self, buf: Vec<u8>) -> (r: Vec<u8>)
        requires
            self.wf(),
            buf@.len() <= 0x10000,
        ensures
            ({
                let salt_len = self.cipher.method.spec_key_len();
                let salt = r@.take(salt_len);
                let key = self.cipher.spec_subkey(self.psk@, salt);
                &&& r@.len() == salt_len + buf@.len() + 16
                &&& r@ == salt + seal_of(key, le_inc(initial_nonce()), buf@)
                &&& open_of(key, le_inc(initial_nonce()), r@.skip(salt_len)) == Some(buf@)
            }),
    {
        let salt = random_bytes(self.cipher.key_len());
        let mut enc = self.cipher.encryptor(self.psk.as_slice(), salt.as_slice());
        let sealed = enc.encrypt(buf);
        let mut out = salt;
        let ghost salt_view = out@;
        let ghost sealed_view = sealed@;
        let mut tail = sealed;
        out.append(&mut tail);
        proof {
            assert(out@.take(salt_view.len() as int) =~= salt_view);
            assert(out@.skip(salt_view.len() as int) =~= sealed_view);
        }
        out
    }

    /// Decrypts one datagram: the leading salt derives the subkey, and the
    /// rest must open under the all-zero nonce.
    pub fn decrypt(&self, buf: Vec<u8>) -> (r: Result<Vec<u8>, SsError>)
        requires
            self.wf(),
            buf@.len() >= self.cipher.method.spec_key_len(),
        ensures
            ({
                let salt_len = self.cipher.method.spec_key_len();
                let salt = buf@.take(salt_len);
                let key = self.cipher.spec_subkey(self.psk@, salt);
                let body = buf@.skip(salt_len);
                &&& (r is Ok <==> open_of(key, le_inc(initial_nonce()), body) is Some)
                &&& (r matches Ok(p) ==> open_of(key, le_inc(initial_nonce()), body) == Some(p@))
                &&& (r matches Err(e) ==> e == SsError::Crypto)
            }),
    {
        let mut data = buf;
        let salt = take_front(&mut data, self.cipher.key_len());
        let mut dec = self.cipher.decryptor(self.psk.as_slice(), salt.as_slice());
        match dec.decrypt(data) {
            Some(p) => Ok(p),
            None => Err(SsError::Crypto),
        }
    }
}

/// Removes and returns the first `n` bytes of a buffer.
fn take_front(buf: &mut Vec<u8>, n: usize) -> (r: Vec<u8>)
    requires
        n <= old(buf)@.len(),
    ensures
        r@ == old(buf)@.take(n as int),
        final(buf)@ == old(buf)@.skip(n as int),
{
    let mut head: Vec<u8> = Vec::new();
    let mut i: usize = 0;
    while i < n
        invariant
            i <= n <= buf@.len(),
            buf == old(buf),
            head@ == buf@.take(i as int),
        decreases n - i,
    {
        head.push(buf[i]);
        proof {
            assert(head@ =~= buf@.take(i + 1));
        }
        i += 1;
    }
    let tail = buf.split_off(n);
    *buf = tail;
    proof {
        assert(head@ =~= old(buf)@.take(n as int));
        assert(buf@ =~= old(buf)@.skip(n as int));
    }
    head
}

} // verus!
