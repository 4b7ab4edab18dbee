//! The secret-field helper: frames a content string with two marker bytes
//! and its length, seals the frame with an authenticated cipher under a
//! fresh nonce, and renders `nonce + ciphertext` in base58. The framing and
//! unframing are verified; the cipher and the base58 codec are relied on.

use vstd::prelude::*;
use vstd::string::StringExecFns;
use vstd::string::StringSliceAdditionalSpecFns;
use vstd::utf8::encode_utf8;

use base58::{FromBase58, ToBase58};
use chacha20poly1305::aead::Aead;
use chacha20poly1305::KeyInit;

verus! {

/// Why a ciphertext was rejected.
#[derive(Debug)]
pub enum EncDecError {
    InvalidFormat,
}

impl EncDecError {
    /// The error's text.
    pub fn message(&self) -> (r: &'static str)
        ensures
            r@ == "InvalidFormat"@,
    {
        "InvalidFormat"
    }
}

/// The plaintext the cipher opens a sealed box to: a pure function of key,
/// nonce and ciphertext, computed by the cipher's decryption.
pub uninterp spec fn aead_open(key: Seq<u8>, nonce: Seq<u8>, ct: Seq<u8>) -> Option<Seq<u8>>;

/// The base58 text of a byte string: a pure function of the bytes.
pub uninterp spec fn b58_of(bytes: Seq<u8>) -> Seq<char>;

/// The bytes a leading-`1`-free base58 text decodes to, if it is well
/// formed: a pure function of the text's bytes.
pub uninterp spec fn b58_digits_decode_of(bs: Seq<u8>) -> Option<Seq<u8>>;

/// A run of zero bytes.
pub open spec fn spec_zero_bytes(n: int) -> Seq<u8> {
    Seq::new(n as nat, |i: int| 0u8)
}

/// The decoding rule for a full base58 text: each leading `1` stands for one
/// zero byte, and the remaining digits decode to the value's bytes.
pub open spec fn spec_b58_decode_bytes(bs: Seq<u8>) -> Option<Seq<u8>> {
    let z = crate::text::spec_leading_byte(bs, 49);
    match b58_digits_decode_of(bs.skip(z)) {
        Some(d) => Some(spec_zero_bytes(z) + d),
        None => None,
    }
}

/// Relies on uuid::Uuid::new_v4: twelve fresh random bytes for a nonce.
#[verifier::external_body]
fn generate_nonce() -> (r: Vec<u8>)
    ensures
        r@.len() == 12,
{
    let id = uuid::Uuid::new_v4();
    let mut nonce = Vec::new();
    nonce.extend_from_slice(&id.as_bytes()[..12]);
    nonce
}

/// Relies on ChaCha20Poly1305::encrypt: sealing appends the 16-byte tag,
/// and opening the result under the same key and nonce gives the message
/// back.
#[verifier::external_body]
fn aead_encrypt(key: &[u8], nonce: &[u8], msg: &Vec<u8>) -> (r: Option<Vec<u8>>)
    requires
        key@.len() == 32,
        nonce@.len() == 12,
    ensures
        match r {
            Some(ct) => aead_open(key@, nonce@, ct@) == Some(msg@) && ct@.len() == msg@.len()
                + 16,
            None => true,
        },
{
    let cipher = chacha20poly1305::ChaCha20Poly1305::new_from_slice(key).ok()?;
    let n = chacha20poly1305::Nonce::try_from(nonce).ok()?;
    cipher.encrypt(&n, msg.as_slice()).ok()
}

/// Relies on ChaCha20Poly1305::decrypt: opens a sealed box, rejecting a
/// forged or mangled one.
#[verifier::external_body]
fn aead_decrypt(key: &[u8], nonce: &[u8], ct: &[u8]) -> (r: Option<Vec<u8>>)
    requires
        key@.len() == 32,
        nonce@.len() == 12,
    ensures
        match r {
            Some(m) => aead_open(key@, nonce@, ct@) == Some(m@),
            None => aead_open(key@, nonce@, ct@) is None,
        },
{
    let cipher = chacha20poly1305::ChaCha20Poly1305::new_from_slice(key).ok()?;
    let n = chacha20poly1305::Nonce::try_from(nonce).ok()?;
    cipher.decrypt(&n, ct).ok()
}

/// Relies on base58::ToBase58: the text is a function of the bytes alone,
/// ASCII, and — within the codec's stated 128-byte limit — decodes back to
/// them: one leading `1` per leading zero byte, then digits whose first
/// character is never `1`.
#[verifier::external_body]
fn to_base58_text(bytes: &Vec<u8>) -> (r: String)
    requires
        bytes@.len() <= 128,
    ensures
        r@ == b58_of(bytes@),
        spec_b58_decode_bytes(encode_utf8(r@)) == Some(bytes@),
{
    bytes.as_slice().to_base58()
}

/// Relies on base58::FromBase58 (str::from_utf8 converting the argument):
/// decoding a text without leading `1` is a function of its bytes and always
/// returns, the leading-zero reattachment being the caller's.
#[verifier::external_body]
fn from_base58_digits(bytes: &Vec<u8>) -> (r: Option<Vec<u8>>)
    requires
        bytes@.len() == 0 || bytes@[0] != 49,
    ensures
        match r {
            Some(b) => b58_digits_decode_of(bytes@) == Some(b@),
            None => b58_digits_decode_of(bytes@) is None,
        },
{
    core::str::from_utf8(bytes.as_slice()).ok()?.from_base58().ok()
}

/// Decodes a base58 text: the leading `1` run is counted here, the digits
/// are decoded by the codec, and the zero bytes are put back in front.
fn from_base58_text(s: &str) -> (r: Option<Vec<u8>>)
    ensures
        match r {
            Some(b) => spec_b58_decode_bytes(s.spec_bytes()) == Some(b@),
            None => spec_b58_decode_bytes(s.spec_bytes()) is None,
        },
{
    let bs = s.as_bytes();
    let mut z: usize = 0;
    while z < bs.len() && bs[z] == 49
        invariant
            z <= bs@.len(),
            bs@ == s.spec_bytes(),
            forall|j: int| 0 <= j < z ==> bs@[j] == 49,
        decreases bs@.len() - z,
    {
        z += 1;
    }
    proof {
        crate::text::lemma_leading_byte_at(bs@, 49, z as int);
    }
    let mut rest: Vec<u8> = Vec::new();
    let mut i: usize = z;
    while i < bs.len()
        invariant
            z <= i <= bs@.len(),
            bs@ == s.spec_bytes(),
            rest@ == bs@.subrange(z as int, i as int),
        decreases bs@.len() - i,
    {
        rest.push(bs[i]);
        proof {
            assert(rest@ =~= bs@.subrange(z as int, i + 1));
        }
        i += 1;
    }
    proof {
        assert(rest@ =~= bs@.skip(z as int));
    }
    let digits = match from_base58_digits(&rest) {
        Some(d) => d,
        None => {
            return None;
        },
    };
    let mut out: Vec<u8> = Vec::new();
    let mut k: usize = 0;
    while k < z
        invariant
            k <= z,
            out@ == spec_zero_bytes(k as int),
        decreases z - k,
    {
        out.push(0);
        proof {
            assert(out@ =~= spec_zero_bytes(k + 1));
        }
        k += 1;
    }
    let ghost dv = digits@;
    let mut moved = digits;
    out.append(&mut moved);
    proof {
        assert(out@ =~= spec_zero_bytes(z as int) + dv);
    }
    Some(out)
}

/// The big-endian eight-byte rendering of a length.
pub open spec fn spec_be64(n: int) -> Seq<u8> {
    seq![
        ((n / 0x100000000000000) % 256) as u8,
        ((n / 0x1000000000000) % 256) as u8,
        ((n / 0x10000000000) % 256) as u8,
        ((n / 0x100000000) % 256) as u8,
        ((n / 0x1000000) % 256) as u8,
        ((n / 0x10000) % 256) as u8,
        ((n / 0x100) % 256) as u8,
        (n % 256) as u8,
    ]
}

/// Renders a length big-endian.
fn be64(n: u64) -> (r: Vec<u8>)
    ensures
        r@ == spec_be64(n as int),
{
    let mut r: Vec<u8> = Vec::new();
    r.push(((n / 0x100000000000000) % 256) as u8);
    r.push(((n / 0x1000000000000) % 256) as u8);
    r.push(((n / 0x10000000000) % 256) as u8);
    r.push(((n / 0x100000000) % 256) as u8);
    r.push(((n / 0x1000000) % 256) as u8);
    r.push(((n / 0x10000) % 256) as u8);
    r.push(((n / 0x100) % 256) as u8);
    r.push((n % 256) as u8);
    proof {
        assert(r@ =~= spec_be64(n as int));
    }
    r
}

/// The framed plaintext: the two marker bytes, the content length big-endian,
/// then the content bytes.
pub open spec fn spec_frame(s1: u8, s2: u8, content: Seq<u8>) -> Seq<u8> {
    seq![s1, s2] + spec_be64(content.len() as int) + content
}

/// Frames a content string for sealing.
#[verifier::rlimit(50)]
pub fn frame(s1: u8, s2: u8, content: &str) -> (r: Vec<u8>)
    ensures
        r@ == spec_frame(s1, s2, content.spec_bytes()),
{
    let mut r: Vec<u8> = Vec::new();
    r.push(s1);
    r.push(s2);
    let n = content.as_bytes().len();
    let mut len_bytes = be64(n as u64);
    r.append(&mut len_bytes);
    crate::lb::push_str_bytes(&mut r, content);
    proof {
        assert(seq![s1, s2] =~= Seq::<u8>::empty().push(s1).push(s2));
        assert(r@ =~= spec_frame(s1, s2, content.spec_bytes()));
    }
    r
}

/// The unframing rule: a plaintext shorter than its header, or whose length
/// field does not match the payload, is rejected.
pub open spec fn spec_unframe(bytes: Seq<u8>) -> Option<(u8, u8, Seq<u8>)> {
    if bytes.len() >= 10 && spec_be64(bytes.len() - 10) == bytes.subrange(2, 10) {
        Some((bytes[0], bytes[1], bytes.subrange(10, bytes.len() as int)))
    } else {
        None
    }
}

/// Takes a framed plaintext apart.
pub fn unframe(bytes: &Vec<u8>) -> (r: Option<(u8, u8, Vec<u8>)>)
    ensures
        match r {
            Some((s1, s2, payload)) => spec_unframe(bytes@) == Some((s1, s2, payload@)),
            None => spec_unframe(bytes@) is None,
        },
{
    if bytes.len() < 10 {
        return None;
    }
    let len_field = be64((bytes.len() - 10) as u64);
    let mut i: usize = 0;
    while i < 8
        invariant
            i <= 8,
            bytes@.len() >= 10,
            len_field@ == spec_be64(bytes@.len() - 10),
            forall|j: int| 0 <= j < i ==> len_field@[j] == bytes@[2 + j],
        decreases 8 - i,
    {
        if bytes[2 + i] != len_field[i] {
            proof {
                assert(spec_be64(bytes@.len() - 10)[i as int] != bytes@.subrange(2, 10)[i as int]);
            }
            return None;
        }
        i += 1;
    }
    let mut payload: Vec<u8> = Vec::new();
    let mut j: usize = 10;
    while j < bytes.len()
        invariant
            10 <= j <= bytes@.len(),
            payload@ == bytes@.subrange(10, j as int),
        decreases bytes@.len() - j,
    {
        payload.push(bytes[j]);
        proof {
            assert(payload@ =~= bytes@.subrange(10, j + 1));
        }
        j += 1;
    }
    proof {
        assert(spec_be64(bytes@.len() - 10) =~= bytes@.subrange(2, 10));
    }
    Some((bytes[0], bytes[1], payload))
}

/// Framing then unframing hands the content back unchanged.
pub proof fn lemma_frame_round_trip(s1: u8, s2: u8, content: Seq<u8>)
    ensures
        spec_unframe(spec_frame(s1, s2, content)) == Some((s1, s2, content)),
{
    let f = spec_frame(s1, s2, content);
    assert(f.len() == 10 + content.len());
    assert(f.subrange(2, 10) =~= spec_be64(content.len() as int));
    assert(f.subrange(10, f.len() as int) =~= content);
}

/// A secret field in the clear: the marker bytes, the content and its
/// length, and the nonce the sealed form was (or will be) sealed under.
pub struct EncDec {
    pub nonce: Vec<u8>,
    pub s1: u8,
    pub s2: u8,
    pub content_len: usize,
    pub content: String,
}

impl EncDec {
    /// A fresh value around a content string, under a fresh nonce.
    pub fn new(content: &str) -> (r: EncDec)
        ensures
            r.nonce@.len() == 12,
            r.s1 == 0 && r.s2 == 0,
            r.content@ == content@,
            r.content_len == content.spec_bytes().len(),
    {
        let nonce = generate_nonce();
        let content_len = content.as_bytes().len();
        EncDec { nonce, s1: 0, s2: 0, content_len, content: content.to_owned() }
    }

    /// Seals the framed content under the key and this value's nonce and
    /// renders `nonce + ciphertext` in base58. Opening the ciphertext part
    /// under the same key and nonce gives the framed content back, and the
    /// text decodes back to `nonce + ciphertext`. The content is bounded so
    /// that the sealed box stays within the base58 codec's 128-byte limit.
    pub fn encrypt(&self, key: &[u8]) -> (r: Option<String>)
        requires
            key@.len() == 32,
            self.nonce@.len() == 12,
            encode_utf8(self.content@).len() <= 90,
        ensures
            match r {
                Some(s) => exists|ct: Seq<u8>|
                    s@ == b58_of(self.nonce@ + ct) && spec_b58_decode_bytes(encode_utf8(s@))
                        == Some(self.nonce@ + ct) && #[trigger] aead_open(key@, self.nonce@, ct)
                        == Some(spec_frame(self.s1, self.s2, encode_utf8(self.content@))) && ct.len()
                        == 26 + encode_utf8(self.content@).len(),
                None => true,
            },
    {
        let data = frame(self.s1, self.s2, self.content.as_str());
        let ct = match aead_encrypt(key, self.nonce.as_slice(), &data) {
            Some(ct) => ct,
            None => {
                return None;
            },
        };
        let mut boxed: Vec<u8> = Vec::new();
        let mut nonce_copy: Vec<u8> = Vec::new();
        let mut k: usize = 0;
        while k < self.nonce.len()
            invariant
                k <= self.nonce@.len(),
                nonce_copy@ == self.nonce@.subrange(0, k as int),
            decreases self.nonce@.len() - k,
        {
            nonce_copy.push(self.nonce[k]);
            proof {
                assert(nonce_copy@ =~= self.nonce@.subrange(0, k + 1));
            }
            k += 1;
        }
        proof {
            assert(nonce_copy@ =~= self.nonce@);
        }
        let ghost ctv = ct@;
        boxed.append(&mut nonce_copy);
        let mut ct_moved = ct;
        boxed.append(&mut ct_moved);
        proof {
            assert(boxed@ =~= self.nonce@ + ctv);
            assert(boxed@.len() <= 128);
        }
        Some(to_base58_text(&boxed))
    }

    /// Opens a base58 `nonce + ciphertext` box under the key: rejected
    /// exactly when the text is no base58 encoding, too short for a nonce,
    /// forged, framed inconsistently, or not sealed around text; otherwise
    /// the content and markers are returned as they were sealed.
    pub fn decrypt(key: &[u8], ciphertext: &str) -> (r: Result<EncDec, EncDecError>)
        requires
            key@.len() == 32,
        ensures
            match r {
                Ok(d) => exists|raw: Seq<u8>, pt: Seq<u8>|
                    #![all_triggers]
                    spec_b58_decode_bytes(ciphertext.spec_bytes()) == Some(raw) && raw.len() >= 12
                        && d.nonce@ == raw.subrange(0, 12) && aead_open(
                        key@,
                        raw.subrange(0, 12),
                        raw.subrange(12, raw.len() as int),
                    ) == Some(pt) && spec_unframe(pt) == Some(
                        (d.s1, d.s2, encode_utf8(d.content@)),
                    ) && d.content_len == encode_utf8(d.content@).len(),
                Err(_) => true,
            },
            r is Err ==> (match spec_b58_decode_bytes(ciphertext.spec_bytes()) {
                None => true,
                Some(raw) => raw.len() < 12 || (match aead_open(
                    key@,
                    raw.subrange(0, 12),
                    raw.subrange(12, raw.len() as int),
                ) {
                    None => true,
                    Some(pt) => match spec_unframe(pt) {
                        None => true,
                        Some(t) => forall|sc: Seq<char>| encode_utf8(sc) != t.2,
                    },
                }),
            }),
    {
        let raw = match from_base58_text(ciphertext) {
            Some(b) => b,
            None => {
                return Err(EncDecError::InvalidFormat);
            },
        };
        if raw.len() < 12 {
            return Err(EncDecError::InvalidFormat);
        }
        let mut nonce: Vec<u8> = Vec::new();
        let mut i: usize = 0;
        while i < 12
            invariant
                i <= 12,
                raw@.len() >= 12,
                nonce@ == raw@.subrange(0, i as int),
            decreases 12 - i,
        {
            nonce.push(raw[i]);
            proof {
                assert(nonce@ =~= raw@.subrange(0, i + 1));
            }
            i += 1;
        }
        let mut ct: Vec<u8> = Vec::new();
        let mut j: usize = 12;
        while j < raw.len()
            invariant
                12 <= j <= raw@.len(),
                ct@ == raw@.subrange(12, j as int),
            decreases raw@.len() - j,
        {
            ct.push(raw[j]);
            proof {
                assert(ct@ =~= raw@.subrange(12, j + 1));
            }
            j += 1;
        }
        let pt = match aead_decrypt(key, nonce.as_slice(), ct.as_slice()) {
            Some(p) => p,
            None => {
                return Err(EncDecError::InvalidFormat);
            },
        };
        let (s1, s2, payload) = match unframe(&pt) {
            Some(t) => t,
            None => {
                return Err(EncDecError::InvalidFormat);
            },
        };
        let content_len = payload.len();
        let content = match crate::text::string_from_bytes(payload) {
            Some(s) => s,
            None => {
                return Err(EncDecError::InvalidFormat);
            },
        };
        Ok(EncDec { nonce, s1, s2, content_len, content })
    }
}


/// Sealing then opening round-trips. Under the facts a successful `encrypt`
/// establishes for a sealed text, `decrypt`'s rejection condition is false —
/// the box cannot be refused — and any successful open of that text returns
/// the markers and the content exactly as sealed.
pub proof fn lemma_seal_open_round_trip(
    key: Seq<u8>,
    nonce: Seq<u8>,
    ct: Seq<u8>,
    s1: u8,
    s2: u8,
    content: Seq<char>,
    sealed_bytes: Seq<u8>,
    raw: Seq<u8>,
    pt: Seq<u8>,
    d_s1: u8,
    d_s2: u8,
    d_content: Seq<char>,
)
    requires
        nonce.len() == 12,
        spec_b58_decode_bytes(sealed_bytes) == Some(nonce + ct),
        aead_open(key, nonce, ct) == Some(spec_frame(s1, s2, encode_utf8(content))),
        spec_b58_decode_bytes(sealed_bytes) == Some(raw),
        raw.len() >= 12,
        aead_open(key, raw.subrange(0, 12), raw.subrange(12, raw.len() as int)) == Some(pt),
        spec_unframe(pt) == Some((d_s1, d_s2, encode_utf8(d_content))),
    ensures
        d_s1 == s1 && d_s2 == s2 && d_content == content,
        !(match spec_b58_decode_bytes(sealed_bytes) {
            None => true,
            Some(rw) => rw.len() < 12 || (match aead_open(
                key,
                rw.subrange(0, 12),
                rw.subrange(12, rw.len() as int),
            ) {
                None => true,
                Some(p) => match spec_unframe(p) {
                    None => true,
                    Some(t) => forall|sc: Seq<char>| encode_utf8(sc) != t.2,
                },
            }),
        }),
{
    broadcast use vstd::utf8::encode_utf8_decode_utf8;

    assert(raw == nonce + ct);
    assert(raw.subrange(0, 12) =~= nonce);
    assert(raw.subrange(12, raw.len() as int) =~= ct);
    assert(pt == spec_frame(s1, s2, encode_utf8(content)));
    lemma_frame_round_trip(s1, s2, encode_utf8(content));
    assert(encode_utf8(d_content) == encode_utf8(content));
    assert(vstd::utf8::decode_utf8(encode_utf8(d_content)) == d_content);
    assert(vstd::utf8::decode_utf8(encode_utf8(content)) == content);
    let t = spec_unframe(pt)->Some_0;
    assert(t.2 == encode_utf8(content));
}

} // verus!
