use vstd::prelude::*;

use chacha20poly1305::aead::{Aead, KeyInit};
use base64::Engine as _;
use rand::RngCore;
use subtle::ConstantTimeEq;
use vstd::utf8::{decode_utf8, encode_utf8, valid_utf8};

verus! {

broadcast use vstd::slice::group_slice_axioms;

// Argon2id cost settings, after RFC 9106 and the OWASP password storage cheat sheet.
pub const ARGON2_MEMORY_KIB: u32 = 65536;
pub const ARGON2_ITERATIONS: u32 = 6;
pub const ARGON2_PARALLELISM: u32 = 1;
pub const MIN_ARGON2_MEMORY_KIB: u32 = 32768;
pub const MIN_ARGON2_ITERATIONS: u32 = 3;
pub const MIN_ARGON2_PARALLELISM: u32 = 1;
pub const MAX_ARGON2_MEMORY_KIB: u32 = 262144;
pub const MAX_ARGON2_ITERATIONS: u32 = 10;
pub const MAX_ARGON2_PARALLELISM: u32 = 4;

/// The plaintext sealed under the master key to check a master password.
pub const MASTER_VERIFIER: &'static str = "termii-master-verifier-v1";

/// A secret sealed with XChaCha20-Poly1305: the nonce and the ciphertext, each in base64.
#[derive(Debug)]
pub struct EncryptedSecret {
    pub nonce_b64: String,
    pub ciphertext_b64: String,
}

impl Clone for EncryptedSecret {
    fn clone(&self) -> (res: Self)
        ensures
            res == *self,
    {
        EncryptedSecret { nonce_b64: self.nonce_b64.clone(), ciphertext_b64: self.ciphertext_b64.clone() }
    }
}

/// What is stored to check a master password and to derive the key from it.
#[derive(Debug)]
pub struct MasterPasswordConfig {
    pub salt_b64: String,
    pub verifier: EncryptedSecret,
    pub argon2_memory_kib: u32,
    pub argon2_iterations: u32,
    pub argon2_parallelism: u32,
}

impl Clone for MasterPasswordConfig {
    fn clone(&self) -> (res: Self)
        ensures
            res == *self,
    {
        MasterPasswordConfig {
            salt_b64: self.salt_b64.clone(),
            verifier: self.verifier.clone(),
            argon2_memory_kib: self.argon2_memory_kib,
            argon2_iterations: self.argon2_iterations,
            argon2_parallelism: self.argon2_parallelism,
        }
    }
}

/// The memory cost that a stored config without one gets.
pub fn default_argon2_memory_kib() -> (r: u32)
    ensures
        r == ARGON2_MEMORY_KIB,
{
    ARGON2_MEMORY_KIB
}

/// The iteration count that a stored config without one gets.
pub fn default_argon2_iterations() -> (r: u32)
    ensures
        r == ARGON2_ITERATIONS,
{
    ARGON2_ITERATIONS
}

/// The parallelism that a stored config without one gets.
pub fn default_argon2_parallelism() -> (r: u32)
    ensures
        r == ARGON2_PARALLELISM,
{
    ARGON2_PARALLELISM
}

/// Why a master password or a sealed secret was refused.
#[derive(Debug, Clone, Copy, PartialEq, Eq, Structural)]
pub enum CryptoError {
    MemoryTooSmall,
    MemoryTooLarge,
    IterationsTooFew,
    IterationsTooMany,
    ParallelismTooFew,
    ParallelismTooMany,
    PasswordTooShort,
    PasswordWithoutUppercase,
    PasswordWithoutSymbol,
    KeyDerivationFailed,
    InvalidSaltEncoding,
    InvalidNonceEncoding,
    InvalidNonceLength,
    InvalidCiphertextEncoding,
    EncryptionFailed,
    DecryptionFailed,
    IncorrectMasterPassword,
    InvalidUtf8,
}

/// The text shown to the user for a crypto error.
pub open spec fn crypto_error_text(e: CryptoError) -> Seq<char> {
    match e {
        CryptoError::MemoryTooSmall => "Argon2 memory must be at least 32768 KiB."@,
        CryptoError::MemoryTooLarge => "Argon2 memory must be at most 262144 KiB."@,
        CryptoError::IterationsTooFew => "Argon2 iterations must be at least 3."@,
        CryptoError::IterationsTooMany => "Argon2 iterations must be at most 10."@,
        CryptoError::ParallelismTooFew => "Argon2 parallelism must be at least 1."@,
        CryptoError::ParallelismTooMany => "Argon2 parallelism must be at most 4."@,
        CryptoError::PasswordTooShort => "Master password must be at least 8 characters."@,
        CryptoError::PasswordWithoutUppercase => "Master password must include at least 1 uppercase letter."@,
        CryptoError::PasswordWithoutSymbol => "Master password must include at least 1 symbol."@,
        CryptoError::KeyDerivationFailed => "failed to derive encryption key"@,
        CryptoError::InvalidSaltEncoding => "invalid master-password salt encoding"@,
        CryptoError::InvalidNonceEncoding => "invalid encrypted nonce encoding"@,
        CryptoError::InvalidNonceLength => "invalid encrypted nonce length"@,
        CryptoError::InvalidCiphertextEncoding => "invalid encrypted ciphertext encoding"@,
        CryptoError::EncryptionFailed => "encryption failed"@,
        CryptoError::DecryptionFailed => "decryption failed"@,
        CryptoError::IncorrectMasterPassword => "Incorrect master password."@,
        CryptoError::InvalidUtf8 => "decrypted bytes are not valid UTF-8"@,
    }
}

impl CryptoError {
    /// The text shown to the user for this error.
    pub fn message(&self) -> (m: String)
        ensures
            m@ == crypto_error_text(*self),
    {
        let s = match self {
            CryptoError::MemoryTooSmall => "Argon2 memory must be at least 32768 KiB.",
            CryptoError::MemoryTooLarge => "Argon2 memory must be at most 262144 KiB.",
            CryptoError::IterationsTooFew => "Argon2 iterations must be at least 3.",
            CryptoError::IterationsTooMany => "Argon2 iterations must be at most 10.",
            CryptoError::ParallelismTooFew => "Argon2 parallelism must be at least 1.",
            CryptoError::ParallelismTooMany => "Argon2 parallelism must be at most 4.",
            CryptoError::PasswordTooShort => "Master password must be at least 8 characters.",
            CryptoError::PasswordWithoutUppercase => "Master password must include at least 1 uppercase letter.",
            CryptoError::PasswordWithoutSymbol => "Master password must include at least 1 symbol.",
            CryptoError::KeyDerivationFailed => "failed to derive encryption key",
            CryptoError::InvalidSaltEncoding => "invalid master-password salt encoding",
            CryptoError::InvalidNonceEncoding => "invalid encrypted nonce encoding",
            CryptoError::InvalidNonceLength => "invalid encrypted nonce length",
            CryptoError::InvalidCiphertextEncoding => "invalid encrypted ciphertext encoding",
            CryptoError::EncryptionFailed => "encryption failed",
            CryptoError::DecryptionFailed => "decryption failed",
            CryptoError::IncorrectMasterPassword => "Incorrect master password.",
            CryptoError::InvalidUtf8 => "decrypted bytes are not valid UTF-8",
        };
        String::from_str(s)
    }
}

/// What `validate_argon2_params` answers.
pub open spec fn argon2_params_verdict(memory_kib: u32, iterations: u32, parallelism: u32) -> Result<(), CryptoError> {
    if memory_kib < MIN_ARGON2_MEMORY_KIB {
        Err(CryptoError::MemoryTooSmall)
    } else if memory_kib > MAX_ARGON2_MEMORY_KIB {
        Err(CryptoError::MemoryTooLarge)
    } else if iterations < MIN_ARGON2_ITERATIONS {
        Err(CryptoError::IterationsTooFew)
    } else if iterations > MAX_ARGON2_ITERATIONS {
        Err(CryptoError::IterationsTooMany)
    } else if parallelism < MIN_ARGON2_PARALLELISM {
        Err(CryptoError::ParallelismTooFew)
    } else if parallelism > MAX_ARGON2_PARALLELISM {
        Err(CryptoError::ParallelismTooMany)
    } else {
        Ok(())
    }
}

/// Refuses Argon2 costs outside the accepted ranges, checking memory, then iterations, then
/// parallelism, each against its lower bound first.
pub fn validate_argon2_params(memory_kib: u32, iterations: u32, parallelism: u32) -> (r: Result<(), CryptoError>)
    ensures
        r == argon2_params_verdict(memory_kib, iterations, parallelism),
{
    if memory_kib < MIN_ARGON2_MEMORY_KIB {
        return Err(CryptoError::MemoryTooSmall);
    }
    if memory_kib > MAX_ARGON2_MEMORY_KIB {
        return Err(CryptoError::MemoryTooLarge);
    }
    if iterations < MIN_ARGON2_ITERATIONS {
        return Err(CryptoError::IterationsTooFew);
    }
    if iterations > MAX_ARGON2_ITERATIONS {
        return Err(CryptoError::IterationsTooMany);
    }
    if parallelism < MIN_ARGON2_PARALLELISM {
        return Err(CryptoError::ParallelismTooFew);
    }
    if parallelism > MAX_ARGON2_PARALLELISM {
        return Err(CryptoError::ParallelismTooMany);
    }
    Ok(())
}

/// `char::is_ascii_uppercase`.
pub open spec fn is_ascii_uppercase(c: char) -> bool {
    'A' <= c && c <= 'Z'
}

/// `char::is_ascii_punctuation`: the printable ASCII characters that are neither letters,
/// digits nor space.
pub open spec fn is_ascii_punctuation(c: char) -> bool {
    ('!' <= c && c <= '/') || (':' <= c && c <= '@') || ('[' <= c && c <= '`') || ('{' <= c && c <= '~')
}

/// `char::is_ascii_whitespace`.
pub open spec fn is_ascii_whitespace(c: char) -> bool {
    c == ' ' || c == '\t' || c == '\n' || c == '\x0C' || c == '\r'
}

/// What `validate_master_password_policy` answers.
pub open spec fn password_policy_verdict(p: Seq<char>) -> Result<(), CryptoError> {
    if p.len() < 8 {
        Err(CryptoError::PasswordTooShort)
    } else if !(exists|i: int| 0 <= i < p.len() && is_ascii_uppercase(#[trigger] p[i])) {
        Err(CryptoError::PasswordWithoutUppercase)
    } else if !(exists|i: int| 0 <= i < p.len() && is_ascii_punctuation(#[trigger] p[i]) && !is_ascii_whitespace(p[i])) {
        Err(CryptoError::PasswordWithoutSymbol)
    } else {
        Ok(())
    }
}

/// A master password needs at least 8 characters, an ASCII upper-case letter and an ASCII
/// symbol.
pub fn validate_master_password_policy(password: &str) -> (r: Result<(), CryptoError>)
    ensures
        r == password_policy_verdict(password@),
{
    let p = crate::text::chars_of(password);
    if p.len() < 8 {
        return Err(CryptoError::PasswordTooShort);
    }
    let mut upper = false;
    let mut symbol = false;
    let mut i: usize = 0;
    while i < p.len()
        invariant
            i <= p.len(),
            p@ == password@,
            upper == exists|k: int| 0 <= k < i && is_ascii_uppercase(#[trigger] p@[k]),
            symbol == exists|k: int| 0 <= k < i && is_ascii_punctuation(#[trigger] p@[k]) && !is_ascii_whitespace(p@[k]),
        decreases p.len() - i,
    {
        let c = p[i];
        if 'A' <= c && c <= 'Z' {
            upper = true;
        }
        let punct = ('!' <= c && c <= '/') || (':' <= c && c <= '@') || ('[' <= c && c <= '`') || ('{' <= c && c <= '~');
        let white = c == ' ' || c == '\t' || c == '\n' || c == '\x0C' || c == '\r';
        if punct && !white {
            symbol = true;
        }
        proof {
            assert(is_ascii_uppercase(p@[i as int]) == ('A' <= c && c <= 'Z'));
        }
        i += 1;
    }
    if !upper {
        return Err(CryptoError::PasswordWithoutUppercase);
    }
    if !symbol {
        return Err(CryptoError::PasswordWithoutSymbol);
    }
    Ok(())
}

/// The base64 digit for the six-bit value `v`: `A`-`Z`, `a`-`z`, `0`-`9`, `+`, `/`.
pub open spec fn b64_digit(v: int) -> char {
    if v < 26 {
        (65 + v) as char
    } else if v < 52 {
        (97 + v - 26) as char
    } else if v < 62 {
        (48 + v - 52) as char
    } else if v == 62 {
        '+'
    } else {
        '/'
    }
}

/// The standard base64 spelling (with padding) of `bytes`, as `base64`'s `STANDARD` engine
/// encodes it: each three bytes become four digits of six bits each, high bits first; a last
/// group of one or two bytes is filled with zero bits and padded with `=` to four characters.
pub open spec fn b64_encoded(bytes: Seq<u8>) -> Seq<char>
    decreases bytes.len(),
{
    if bytes.len() == 0 {
        Seq::empty()
    } else {
        let b0 = bytes[0] as int;
        let b1 = if bytes.len() > 1 { bytes[1] as int } else { 0 };
        let b2 = if bytes.len() > 2 { bytes[2] as int } else { 0 };
        let d0 = b64_digit(b0 / 4);
        let d1 = b64_digit((b0 % 4) * 16 + b1 / 16);
        let d2 = b64_digit((b1 % 16) * 4 + b2 / 64);
        let d3 = b64_digit(b2 % 64);
        if bytes.len() == 1 {
            seq![d0, d1, '=', '=']
        } else if bytes.len() == 2 {
            seq![d0, d1, d2, '=']
        } else {
            seq![d0, d1, d2, d3] + b64_encoded(bytes.skip(3))
        }
    }
}

/// The bytes that `base64`'s `STANDARD` engine decodes from `text`, or `None` if it refuses it.
pub uninterp spec fn b64_decoded(text: Seq<char>) -> Option<Seq<u8>>;

/// The ciphertext (with tag) that XChaCha20-Poly1305 makes of `plaintext` under `key` and
/// `nonce`, or `None` if it refuses.
pub uninterp spec fn xchacha_sealed(key: Seq<u8>, nonce: Seq<u8>, plaintext: Seq<u8>) -> Option<Seq<u8>>;

/// The plaintext that XChaCha20-Poly1305 recovers from `ciphertext` under `key` and `nonce`,
/// or `None` if authentication fails.
pub uninterp spec fn xchacha_opened(key: Seq<u8>, nonce: Seq<u8>, ciphertext: Seq<u8>) -> Option<Seq<u8>>;

/// The 32-byte Argon2id (version 0x13) key for `password` and `salt` with the given costs, or
/// `None` if `argon2` refuses the parameters or inputs.
pub uninterp spec fn argon2id_key(password: Seq<u8>, salt: Seq<u8>, memory_kib: u32, iterations: u32, parallelism: u32) -> Option<Seq<u8>>;

/// `base64::engine::general_purpose::STANDARD.encode`. Decoding what it encodes gives the
/// bytes back.
#[verifier::external_body]
fn b64_encode(bytes: &[u8]) -> (r: String)
    ensures
        r@ == b64_encoded(bytes@),
        b64_decoded(r@) == Some(bytes@),
{
    base64::engine::general_purpose::STANDARD.encode(bytes)
}

/// `base64::engine::general_purpose::STANDARD.decode`, `None` on a decoding error.
#[verifier::external_body]
fn b64_decode(text: &str) -> (r: Option<Vec<u8>>)
    ensures
        match r {
            Some(v) => b64_decoded(text@) == Some(v@),
            None => b64_decoded(text@) is None,
        },
{
    base64::engine::general_purpose::STANDARD.decode(text).ok()
}

/// `n` bytes from the operating system's random source (`rand::rngs::OsRng::fill_bytes`,
/// which panics if that source fails). Nothing is promised of the values.
#[verifier::external_body]
fn random_bytes(n: usize) -> (r: Vec<u8>)
    ensures
        r@.len() == n,
{
    let mut v = vec![0u8; n];
    rand::rngs::OsRng.fill_bytes(&mut v);
    v
}

/// Whether XChaCha20-Poly1305 seals a message of `len` bytes: fewer than 2^32 - 1 blocks of
/// 64 bytes.
pub open spec fn sealable_len(len: nat) -> bool {
    len / 64 < 0xFFFF_FFFF
}

/// `XChaCha20Poly1305::encrypt` under `key` and the 24-byte `nonce`. What it seals,
/// `XChaCha20Poly1305::decrypt` opens again under the same key and nonce. It refuses a message
/// of 2^32 - 1 or more 64-byte blocks and otherwise appends the 16-byte tag to the enciphered
/// bytes. (A slice is at most `isize::MAX` bytes long, so the message and tag always fit.)
#[verifier::external_body]
fn xchacha_seal(key: &[u8; 32], nonce: &[u8], plaintext: &[u8]) -> (r: Option<Vec<u8>>)
    requires
        nonce@.len() == 24,
    ensures
        match r {
            Some(c) => xchacha_sealed(key@, nonce@, plaintext@) == Some(c@) && xchacha_opened(key@, nonce@, c@) == Some(plaintext@),
            None => xchacha_sealed(key@, nonce@, plaintext@) is None,
        },
        r is Some <==> sealable_len(plaintext@.len()),
        r matches Some(c) ==> c@.len() == plaintext@.len() + 16,
{
    let cipher = chacha20poly1305::XChaCha20Poly1305::new(chacha20poly1305::Key::from_slice(key));
    cipher.encrypt(chacha20poly1305::XNonce::from_slice(nonce), plaintext).ok()
}

/// `XChaCha20Poly1305::decrypt` under `key` and the 24-byte `nonce`, `None` when the
/// ciphertext does not authenticate.
#[verifier::external_body]
fn xchacha_open(key: &[u8; 32], nonce: &[u8], ciphertext: &[u8]) -> (r: Option<Vec<u8>>)
    requires
        nonce@.len() == 24,
    ensures
        match r {
            Some(p) => xchacha_opened(key@, nonce@, ciphertext@) == Some(p@),
            None => xchacha_opened(key@, nonce@, ciphertext@) is None,
        },
{
    let cipher = chacha20poly1305::XChaCha20Poly1305::new(chacha20poly1305::Key::from_slice(key));
    cipher.decrypt(chacha20poly1305::XNonce::from_slice(nonce), ciphertext).ok()
}

/// Whether `argon2` accepts these inputs: `Params::new` wants at least 8 KiB and 8 KiB per
/// lane of memory, at least one iteration and 1 to 2^24 - 1 lanes; `hash_password_into` wants
/// a password of at most 2^32 - 1 bytes and a salt of 8 to 2^32 - 1 bytes.
pub open spec fn argon2_accepts(password_len: nat, salt_len: nat, memory_kib: u32, iterations: u32, parallelism: u32) -> bool {
    &&& memory_kib >= 8
    &&& memory_kib >= parallelism * 8
    &&& iterations >= 1
    &&& 1 <= parallelism <= 0xFF_FFFF
    &&& password_len <= 0xFFFF_FFFF
    &&& 8 <= salt_len <= 0xFFFF_FFFF
}

/// `argon2::Argon2::hash_password_into` with Argon2id, version 0x13 and a 32-byte output,
/// after `argon2::Params::new` with these costs; `None` when either refuses, which they do
/// exactly outside `argon2_accepts`.
/// (`Params::new` computes `parallelism * 8`, which must not overflow.)
#[verifier::external_body]
fn argon2id_derive(password: &str, salt: &[u8], memory_kib: u32, iterations: u32, parallelism: u32) -> (r: Option<[u8; 32]>)
    requires
        parallelism <= 0x1FFF_FFFF,
    ensures
        match r {
            Some(k) => argon2id_key(encode_utf8(password@), salt@, memory_kib, iterations, parallelism) == Some(k@),
            None => argon2id_key(encode_utf8(password@), salt@, memory_kib, iterations, parallelism) is None,
        },
        r is Some <==> argon2_accepts(encode_utf8(password@).len(), salt@.len(), memory_kib, iterations, parallelism),
{
    let params = argon2::Params::new(memory_kib, iterations, parallelism, Some(32)).ok()?;
    let argon2 = argon2::Argon2::new(argon2::Algorithm::Argon2id, argon2::Version::V0x13, params);
    let mut key = [0u8; 32];
    argon2.hash_password_into(password.as_bytes(), salt, &mut key).ok()?;
    Some(key)
}

/// `subtle`'s `ConstantTimeEq::ct_eq` on byte slices: whether they are equal.
#[verifier::external_body]
fn bytes_equal_ct(a: &[u8], b: &[u8]) -> (r: bool)
    ensures
        r == (a@ == b@),
{
    a.ct_eq(b).unwrap_u8() == 1
}

/// `String::from_utf8`: the text the bytes spell, when they are valid UTF-8.
#[verifier::external_body]
fn utf8_string(bytes: Vec<u8>) -> (r: Option<String>)
    ensures
        r is Some <==> valid_utf8(bytes@),
        r matches Some(s) ==> s@ == decode_utf8(bytes@),
{
    String::from_utf8(bytes).ok()
}

/// What `decrypt_secret_bytes` gives.
pub open spec fn decrypt_bytes_outcome(key: Seq<u8>, e: EncryptedSecret) -> Result<Seq<u8>, CryptoError> {
    match b64_decoded(e.nonce_b64@) {
        None => Err(CryptoError::InvalidNonceEncoding),
        Some(nonce) => if nonce.len() != 24 {
            Err(CryptoError::InvalidNonceLength)
        } else {
            match b64_decoded(e.ciphertext_b64@) {
                None => Err(CryptoError::InvalidCiphertextEncoding),
                Some(c) => match xchacha_opened(key, nonce, c) {
                    None => Err(CryptoError::DecryptionFailed),
                    Some(p) => Ok(p),
                },
            }
        },
    }
}

/// What `decrypt_secret` gives.
pub open spec fn decrypt_outcome(key: Seq<u8>, e: EncryptedSecret) -> Result<Seq<char>, CryptoError> {
    match decrypt_bytes_outcome(key, e) {
        Err(x) => Err(x),
        Ok(p) => if valid_utf8(p) {
            Ok(decode_utf8(p))
        } else {
            Err(CryptoError::InvalidUtf8)
        },
    }
}

/// `e` seals `plaintext` under `key` with some 24-byte nonce: both in base64, the ciphertext
/// 16 bytes longer than the plaintext.
pub open spec fn sealed_as(key: Seq<u8>, plaintext: Seq<u8>, e: EncryptedSecret) -> bool {
    exists|nonce: Seq<u8>|
        nonce.len() == 24 && e.nonce_b64@ == b64_encoded(nonce) && b64_decoded(e.nonce_b64@) == Some(nonce)
            && match #[trigger] xchacha_sealed(key, nonce, plaintext) {
            Some(c) => e.ciphertext_b64@ == b64_encoded(c) && b64_decoded(e.ciphertext_b64@) == Some(c)
                && c.len() == plaintext.len() + 16,
            None => false,
        }
}

/// Seals `plaintext` under `key` with a fresh random nonce. Decrypting the result with the
/// same key gives `plaintext` back. Only a message too long for the cipher is refused.
pub fn encrypt_secret_bytes(key: &[u8; 32], plaintext: &[u8]) -> (r: Result<EncryptedSecret, CryptoError>)
    ensures
        r is Ok <==> sealable_len(plaintext@.len()),
        r matches Ok(e) ==> sealed_as(key@, plaintext@, e) && decrypt_bytes_outcome(key@, e) == Ok::<Seq<u8>, CryptoError>(plaintext@),
        r matches Err(x) ==> x == CryptoError::EncryptionFailed,
{
    let nonce = random_bytes(24);
    match xchacha_seal(key, nonce.as_slice(), plaintext) {
        None => Err(CryptoError::EncryptionFailed),
        Some(ciphertext) => {
            let e = EncryptedSecret {
                nonce_b64: b64_encode(nonce.as_slice()),
                ciphertext_b64: b64_encode(ciphertext.as_slice()),
            };
            assert(decrypt_bytes_outcome(key@, e) == Ok::<Seq<u8>, CryptoError>(plaintext@));
            Ok(e)
        },
    }
}

/// Opens a sealed secret under `key`.
pub fn decrypt_secret_bytes(key: &[u8; 32], encrypted: &EncryptedSecret) -> (r: Result<Vec<u8>, CryptoError>)
    ensures
        match decrypt_bytes_outcome(key@, *encrypted) {
            Ok(p) => r matches Ok(v) && v@ == p,
            Err(x) => r matches Err(y) && y == x,
        },
{
    let nonce = match b64_decode(encrypted.nonce_b64.as_str()) {
        Some(n) => n,
        None => return Err(CryptoError::InvalidNonceEncoding),
    };
    if nonce.len() != 24 {
        return Err(CryptoError::InvalidNonceLength);
    }
    let ciphertext = match b64_decode(encrypted.ciphertext_b64.as_str()) {
        Some(c) => c,
        None => return Err(CryptoError::InvalidCiphertextEncoding),
    };
    match xchacha_open(key, nonce.as_slice(), ciphertext.as_slice()) {
        Some(p) => Ok(p),
        None => Err(CryptoError::DecryptionFailed),
    }
}

/// Seals the text `plaintext` under `key`. Decrypting the result with the same key gives the
/// same text back. Only a text too long for the cipher is refused.
pub fn encrypt_secret(key: &[u8; 32], plaintext: &str) -> (r: Result<EncryptedSecret, CryptoError>)
    ensures
        r is Ok <==> sealable_len(encode_utf8(plaintext@).len()),
        r matches Ok(e) ==> sealed_as(key@, encode_utf8(plaintext@), e) && decrypt_outcome(key@, e) == Ok::<Seq<char>, CryptoError>(plaintext@),
        r matches Err(x) ==> x == CryptoError::EncryptionFailed,
{
    let r = encrypt_secret_bytes(key, plaintext.as_bytes());
    proof {
        vstd::utf8::encode_utf8_valid_utf8(plaintext@);
        vstd::utf8::encode_utf8_decode_utf8(plaintext@);
    }
    r
}

/// Opens a sealed text under `key`.
pub fn decrypt_secret(key: &[u8; 32], encrypted: &EncryptedSecret) -> (r: Result<String, CryptoError>)
    ensures
        match decrypt_outcome(key@, *encrypted) {
            Ok(t) => r matches Ok(s) && s@ == t,
            Err(x) => r matches Err(y) && y == x,
        },
{
    let bytes = decrypt_secret_bytes(key, encrypted)?;
    match utf8_string(bytes) {
        Some(s) => Ok(s),
        None => Err(CryptoError::InvalidUtf8),
    }
}

/// What `unlock_master_password` gives for a stored config and a password: the key derived
/// from the password, the stored salt and costs, when the stored verifier opens under it to
/// the verifier text.
pub open spec fn unlock_outcome(config: MasterPasswordConfig, password: Seq<char>) -> Result<Seq<u8>, CryptoError> {
    match b64_decoded(config.salt_b64@) {
        None => Err(CryptoError::InvalidSaltEncoding),
        Some(salt) => match argon2_params_verdict(
            config.argon2_memory_kib,
            config.argon2_iterations,
            config.argon2_parallelism,
        ) {
            Err(x) => Err(x),
            Ok(_) => match argon2id_key(
                encode_utf8(password),
                salt,
                config.argon2_memory_kib,
                config.argon2_iterations,
                config.argon2_parallelism,
            ) {
                None => Err(CryptoError::KeyDerivationFailed),
                Some(key) => match decrypt_bytes_outcome(key, config.verifier) {
                    Err(x) => Err(x),
                    Ok(clear) => if clear == encode_utf8(MASTER_VERIFIER@) {
                        Ok(key)
                    } else {
                        Err(CryptoError::IncorrectMasterPassword)
                    },
                },
            },
        },
    }
}

/// Checks `password` against a stored master-password config and returns its key.
pub fn unlock_master_password(config: &MasterPasswordConfig, password: &str) -> (r: Result<[u8; 32], CryptoError>)
    ensures
        match unlock_outcome(*config, password@) {
            Ok(k) => r matches Ok(key) && key@ == k,
            Err(x) => r matches Err(y) && y == x,
        },
{
    let salt = match b64_decode(config.salt_b64.as_str()) {
        Some(s) => s,
        None => return Err(CryptoError::InvalidSaltEncoding),
    };
    validate_argon2_params(config.argon2_memory_kib, config.argon2_iterations, config.argon2_parallelism)?;
    let key = match argon2id_derive(
        password,
        salt.as_slice(),
        config.argon2_memory_kib,
        config.argon2_iterations,
        config.argon2_parallelism,
    ) {
        Some(k) => k,
        None => return Err(CryptoError::KeyDerivationFailed),
    };
    let clear = decrypt_secret_bytes(&key, &config.verifier)?;
    if !bytes_equal_ct(clear.as_slice(), MASTER_VERIFIER.as_bytes()) {
        return Err(CryptoError::IncorrectMasterPassword);
    }
    Ok(key)
}

/// A text takes at most four bytes per character in UTF-8.
proof fn lemma_encode_utf8_len(s: Seq<char>)
    ensures
        encode_utf8(s).len() <= 4 * s.len(),
    decreases s.len(),
{
    if s.len() > 0 {
        lemma_encode_utf8_len(s.drop_first());
    }
}

/// A config and key that `create_master_password` makes for `password`: the default costs,
/// a 16-byte salt in base64, the key Argon2id derives from them, and the verifier text sealed
/// under that key.
pub open spec fn created_for(password: Seq<char>, config: MasterPasswordConfig, key: Seq<u8>) -> bool {
    &&& config.argon2_memory_kib == ARGON2_MEMORY_KIB
    &&& config.argon2_iterations == ARGON2_ITERATIONS
    &&& config.argon2_parallelism == ARGON2_PARALLELISM
    &&& exists|salt: Seq<u8>|
        salt.len() == 16 && config.salt_b64@ == b64_encoded(salt) && b64_decoded(config.salt_b64@) == Some(salt)
            && #[trigger] argon2id_key(
            encode_utf8(password),
            salt,
            ARGON2_MEMORY_KIB,
            ARGON2_ITERATIONS,
            ARGON2_PARALLELISM,
        ) == Some(key)
    &&& sealed_as(key, encode_utf8(MASTER_VERIFIER@), config.verifier)
}

/// Sets up a master password: checks the policy, derives a key from a fresh random salt, and
/// seals the verifier text under it. Unlocking the result with the same password gives the
/// same key.
pub fn create_master_password(password: &str) -> (r: Result<(MasterPasswordConfig, [u8; 32]), CryptoError>)
    ensures
        match password_policy_verdict(password@) {
            Err(x) => r == Err::<(MasterPasswordConfig, [u8; 32]), CryptoError>(x),
            Ok(_) => {
                &&& r is Ok <==> encode_utf8(password@).len() <= 0xFFFF_FFFF
                &&& r matches Ok(ck) ==> created_for(password@, ck.0, ck.1@)
                    && unlock_outcome(ck.0, password@) == Ok::<Seq<u8>, CryptoError>(ck.1@)
                &&& r matches Err(x) ==> x == CryptoError::KeyDerivationFailed
            },
        },
{
    validate_master_password_policy(password)?;
    let salt = random_bytes(16);
    let key = match argon2id_derive(
        password,
        salt.as_slice(),
        ARGON2_MEMORY_KIB,
        ARGON2_ITERATIONS,
        ARGON2_PARALLELISM,
    ) {
        Some(k) => k,
        None => return Err(CryptoError::KeyDerivationFailed),
    };
    proof {
        reveal_strlit("termii-master-verifier-v1");
        lemma_encode_utf8_len(MASTER_VERIFIER@);
    }
    let verifier = encrypt_secret_bytes(&key, MASTER_VERIFIER.as_bytes())?;
    let config = MasterPasswordConfig {
        salt_b64: b64_encode(salt.as_slice()),
        verifier,
        argon2_memory_kib: ARGON2_MEMORY_KIB,
        argon2_iterations: ARGON2_ITERATIONS,
        argon2_parallelism: ARGON2_PARALLELISM,
    };
    assert(argon2_params_verdict(ARGON2_MEMORY_KIB, ARGON2_ITERATIONS, ARGON2_PARALLELISM) is Ok);
    assert(unlock_outcome(config, password@) == Ok::<Seq<u8>, CryptoError>(key@));
    Ok((config, key))
}

} // verus!
