//! Encryption of stored passwords.
//!
//! A password is encrypted with AES-256 in CBC mode with PKCS#7 padding; the
//! key is the SHA-256 digest of a fixed salt followed by the master password,
//! the IV the first 16 bytes of the SHA-256 digest of `iv` followed by the key.
//! The ciphertext is stored in standard Base64.
use aes::cipher::block_padding::Pkcs7;
use aes::cipher::{BlockDecryptMut, BlockEncryptMut, KeyIvInit};
use base64::Engine;
use sha2::Digest;
use vstd::prelude::*;
use vstd::utf8::{decode_utf8, encode_utf8, valid_utf8};

use crate::text::{chars_of, starts_with, string_from_chars, string_from_utf8, utf8_error_text};
use crate::ssh::opt_view;

verus! {

// ---------------------------------------------------------------------------
// Outside primitives
// ---------------------------------------------------------------------------

/// The SHA-256 digest of `data` (sha2 crate).
pub uninterp spec fn sha256_digest(data: Seq<u8>) -> Seq<u8>;

/// AES-256-CBC encryption with PKCS#7 padding (aes and cbc crates).
pub uninterp spec fn aes256_cbc_pkcs7_encrypt(key: Seq<u8>, iv: Seq<u8>, plain: Seq<u8>) -> Seq<
    u8,
>;

/// AES-256-CBC decryption with PKCS#7 unpadding; `None` when the input is not
/// a whole number of blocks or the padding is malformed (aes and cbc crates).
pub uninterp spec fn aes256_cbc_pkcs7_decrypt(key: Seq<u8>, iv: Seq<u8>, cipher: Seq<u8>) -> Option<
    Seq<u8>,
>;

/// The character of a 6-bit value in the standard Base64 alphabet
/// (`A`-`Z`, `a`-`z`, `0`-`9`, `+`, `/`).
pub open spec fn base64_digit(v: int) -> char {
    if v < 26 {
        (('A' as int) + v) as char
    } else if v < 52 {
        (('a' as int) + (v - 26)) as char
    } else if v < 62 {
        (('0' as int) + (v - 52)) as char
    } else if v == 62 {
        '+'
    } else {
        '/'
    }
}

/// Standard Base64 with padding (RFC 4648): each group of three bytes
/// becomes four characters; a last group of one or two bytes becomes two or
/// three characters followed by `=` up to four.
pub open spec fn base64_standard_encode(d: Seq<u8>) -> Seq<char>
    decreases d.len(),
{
    if d.len() == 0 {
        Seq::empty()
    } else if d.len() == 1 {
        seq![base64_digit(d[0] as int / 4), base64_digit((d[0] as int % 4) * 16), '=', '=']
    } else if d.len() == 2 {
        seq![
            base64_digit(d[0] as int / 4),
            base64_digit((d[0] as int % 4) * 16 + d[1] as int / 16),
            base64_digit((d[1] as int % 16) * 4),
            '=',
        ]
    } else {
        seq![
            base64_digit(d[0] as int / 4),
            base64_digit((d[0] as int % 4) * 16 + d[1] as int / 16),
            base64_digit((d[1] as int % 16) * 4 + d[2] as int / 64),
            base64_digit(d[2] as int % 64),
        ] + base64_standard_encode(d.skip(3))
    }
}

/// Standard Base64 decoding with canonical padding: the bytes whose encoding
/// the text is; `None` when it is the encoding of none.
pub open spec fn base64_standard_decode(text: Seq<char>) -> Option<Seq<u8>> {
    if exists|b: Seq<u8>| base64_standard_encode(b) == text {
        Some(choose|b: Seq<u8>| base64_standard_encode(b) == text)
    } else {
        None
    }
}

/// `sha2::Sha256::digest`: the 32-byte digest of `data`, named
/// `sha256_digest`.
#[verifier::external_body]
fn sha256(data: &[u8]) -> (r: Vec<u8>)
    ensures
        r@ == sha256_digest(data@),
        r@.len() == 32,
{
    sha2::Sha256::digest(data).to_vec()
}

/// `cbc::Encryptor::<aes::Aes256>::encrypt_padded_vec_mut::<Pkcs7>`: the
/// ciphertext, named `aes256_cbc_pkcs7_encrypt`; PKCS#7 padding fills the
/// last block and adds a whole block when the input already ends on one.  The key must be 32 bytes and
/// the IV 16 bytes (the crate panics otherwise).
#[verifier::external_body]
fn aes256_cbc_encrypt(key: &[u8], iv: &[u8], plain: &[u8]) -> (r: Vec<u8>)
    requires
        key@.len() == 32,
        iv@.len() == 16,
        plain@.len() <= usize::MAX / 4,
    ensures
        r@ == aes256_cbc_pkcs7_encrypt(key@, iv@, plain@),
        r@.len() == (plain@.len() / 16 + 1) * 16,
{
    cbc::Encryptor::<aes::Aes256>::new(key.into(), iv.into()).encrypt_padded_vec_mut::<Pkcs7>(
        plain,
    )
}

/// `cbc::Decryptor::<aes::Aes256>::decrypt_padded_vec_mut::<Pkcs7>`: the
/// plaintext named `aes256_cbc_pkcs7_decrypt`, or the crate's error message.
/// The contract also states the crate's round trip: decrypting what
/// `encrypt_padded_vec_mut` produced with the same key and IV gives the
/// plaintext back.  What the error message says is left unstated.
#[verifier::external_body]
fn aes256_cbc_decrypt(key: &[u8], iv: &[u8], cipher: &[u8]) -> (r: Result<Vec<u8>, String>)
    requires
        key@.len() == 32,
        iv@.len() == 16,
    ensures
        r is Ok <==> aes256_cbc_pkcs7_decrypt(key@, iv@, cipher@) is Some,
        r matches Ok(v) ==> aes256_cbc_pkcs7_decrypt(key@, iv@, cipher@) == Some(v@),
        forall|p: Seq<u8>|
            #[trigger] aes256_cbc_pkcs7_encrypt(key@, iv@, p) == cipher@ ==> r is Ok && r->Ok_0@ == p,
{
    cbc::Decryptor::<aes::Aes256>::new(key.into(), iv.into()).decrypt_padded_vec_mut::<Pkcs7>(
        cipher,
    ).map_err(|e| e.to_string())
}

/// `base64::engine::general_purpose::STANDARD.encode`: the padded standard
/// Base64 text of the bytes, `base64_standard_encode`.
#[verifier::external_body]
fn base64_encode(data: &[u8]) -> (r: String)
    requires
        data@.len() <= usize::MAX / 4,
    ensures
        r@ == base64_standard_encode(data@),
{
    base64::engine::general_purpose::STANDARD.encode(data)
}

/// `base64::engine::general_purpose::STANDARD.decode`: the engine insists on
/// canonical padding and no trailing bits, so it accepts exactly the texts
/// that `encode` produces and gives back the bytes they encode; otherwise the
/// crate's error message, whose words are left unstated.
#[verifier::external_body]
fn base64_decode(text: &str) -> (r: Result<Vec<u8>, String>)
    ensures
        r is Ok <==> exists|b: Seq<u8>| #[trigger] base64_standard_encode(b) == text@,
        r matches Ok(v) ==> base64_standard_encode(v@) == text@,
        forall|b: Seq<u8>| #[trigger] base64_standard_encode(b) == text@ ==> r is Ok && r->Ok_0@ == b,
{
    base64::engine::general_purpose::STANDARD.decode(text).map_err(|e| e.to_string())
}

// ---------------------------------------------------------------------------
// Key derivation
// ---------------------------------------------------------------------------

/// The salt `myterm-app-v1-salt`.
pub open spec fn salt() -> Seq<u8> {
    seq![109u8, 121, 116, 101, 114, 109, 45, 97, 112, 112, 45, 118, 49, 45, 115, 97, 108, 116]
}

/// The AES key: `SHA-256(salt ++ master)`.
pub open spec fn derived_key(master: Seq<char>) -> Seq<u8> {
    sha256_digest(salt() + encode_utf8(master))
}

/// The IV: the first 16 bytes of `SHA-256("iv" ++ key)`.
pub open spec fn derived_iv(master: Seq<char>) -> Seq<u8> {
    sha256_digest(seq![105u8, 118u8] + derived_key(master)).take(16)
}

/// The AES key and IV derived from the master password.
pub fn derive_key(master_password: &str) -> (r: (Vec<u8>, Vec<u8>))
    ensures
        r.0@ == derived_key(master_password@),
        r.1@ == derived_iv(master_password@),
        r.0@.len() == 32,
        r.1@.len() == 16,
{
    let salt_bytes: [u8; 18] = [109, 121, 116, 101, 114, 109, 45, 97, 112, 112, 45, 118, 49, 45, 115, 97, 108, 116];
    let mut input: Vec<u8> = Vec::new();
    let mut i: usize = 0;
    while i < 18
        invariant
            i <= 18,
            salt_bytes@ == salt(),
            input@ == salt().take(i as int),
        decreases 18 - i,
    {
        input.push(salt_bytes[i]);
        i = i + 1;
        assert(input@ =~= salt().take(i as int));
    }
    assert(salt().take(18) =~= salt());
    let pw = master_password.as_bytes();
    let mut j: usize = 0;
    while j < pw.len()
        invariant
            j <= pw@.len(),
            input@ == salt() + pw@.take(j as int),
        decreases pw@.len() - j,
    {
        input.push(pw[j]);
        j = j + 1;
        assert(input@ =~= salt() + pw@.take(j as int));
    }
    assert(pw@.take(pw@.len() as int) =~= pw@);
    let key = sha256(input.as_slice());
    let mut iv_input: Vec<u8> = Vec::new();
    iv_input.push(105u8);
    iv_input.push(118u8);
    let mut k: usize = 0;
    while k < key.len()
        invariant
            k <= key@.len(),
            iv_input@ == seq![105u8, 118u8] + key@.take(k as int),
        decreases key@.len() - k,
    {
        iv_input.push(key[k]);
        k = k + 1;
        assert(iv_input@ =~= seq![105u8, 118u8] + key@.take(k as int));
    }
    assert(key@.take(key@.len() as int) =~= key@);
    let iv_hash = sha256(iv_input.as_slice());
    let mut iv: Vec<u8> = Vec::new();
    let mut m: usize = 0;
    while m < 16
        invariant
            m <= 16,
            iv_hash@.len() == 32,
            iv@ == iv_hash@.take(m as int),
        decreases 16 - m,
    {
        iv.push(iv_hash[m]);
        m = m + 1;
        assert(iv@ =~= iv_hash@.take(m as int));
    }
    (key, iv)
}

// ---------------------------------------------------------------------------
// Passwords
// ---------------------------------------------------------------------------

/// The stored form of `plain` under `master`.
pub open spec fn encrypted_text(plain: Seq<char>, master: Seq<char>) -> Seq<char> {
    base64_standard_encode(
        aes256_cbc_pkcs7_encrypt(derived_key(master), derived_iv(master), encode_utf8(plain)),
    )
}

/// The password that a stored text holds under `master`, when it decodes,
/// decrypts and is UTF-8.
pub open spec fn decrypted_text(stored: Seq<char>, master: Seq<char>) -> Option<Seq<char>> {
    match base64_standard_decode(stored) {
        Some(cipher) => match aes256_cbc_pkcs7_decrypt(
            derived_key(master),
            derived_iv(master),
            cipher,
        ) {
            Some(plain) => if valid_utf8(plain) {
                Some(decode_utf8(plain))
            } else {
                None
            },
            None => None,
        },
        None => None,
    }
}

/// Encrypts a password for storage.
pub fn encrypt_password(plaintext: &str, master_password: &str) -> (r: String)
    requires
        encode_utf8(plaintext@).len() <= usize::MAX / 8,
    ensures
        r@ == encrypted_text(plaintext@, master_password@),
{
    let (key, iv) = derive_key(master_password);
    let plain = plaintext.as_bytes();
    let encrypted = aes256_cbc_encrypt(key.as_slice(), iv.as_slice(), plain);
    base64_encode(encrypted.as_slice())
}

/// Decrypts a stored password.
///
/// Decrypting the text that `encrypt_password` produced for a password under
/// the same master password gives that password back.
pub fn decrypt_password(encrypted: &str, master_password: &str) -> (r: Result<String, String>)
    ensures
        r is Ok <==> decrypted_text(encrypted@, master_password@) is Some,
        r matches Ok(p) ==> decrypted_text(encrypted@, master_password@) == Some(p@),
        forall|p: Seq<char>| #[trigger]
            encrypted_text(p, master_password@) == encrypted@ ==> (r matches Ok(q) && q@ == p),
        base64_standard_decode(encrypted@) is None ==> r is Err && starts_with(
            r->Err_0@,
            "Base64 decode failed: "@,
        ),
        (base64_standard_decode(encrypted@) matches Some(c) && aes256_cbc_pkcs7_decrypt(
            derived_key(master_password@),
            derived_iv(master_password@),
            c,
        ) is None) ==> r is Err && starts_with(r->Err_0@, "Decrypt failed: "@),
        base64_standard_decode(encrypted@) matches Some(c) ==> (aes256_cbc_pkcs7_decrypt(
            derived_key(master_password@),
            derived_iv(master_password@),
            c,
        ) matches Some(b) ==> (!valid_utf8(b) ==> r is Err && r->Err_0@ == "UTF-8 decode failed: "@
            + utf8_error_text(b))),
{
    broadcast use vstd::utf8::encode_utf8_valid_utf8, vstd::utf8::encode_utf8_decode_utf8;

    let (key, iv) = derive_key(master_password);
    let cipher = match base64_decode(encrypted) {
        Ok(c) => c,
        Err(e) => {
            return Err(prefixed("Base64 decode failed: ", &e));
        },
    };
    let plain = match aes256_cbc_decrypt(key.as_slice(), iv.as_slice(), cipher.as_slice()) {
        Ok(p) => p,
        Err(e) => {
            return Err(prefixed("Decrypt failed: ", &e));
        },
    };
    match string_from_utf8(plain) {
        Ok(s) => Ok(s),
        Err(e) => Err(prefixed("UTF-8 decode failed: ", &e)),
    }
}

/// `prefix` followed by `message`.
fn prefixed(prefix: &str, message: &String) -> (r: String)
    ensures
        r@ == prefix@ + message@,
        starts_with(r@, prefix@),
{
    let mut v = chars_of(prefix);
    let m = chars_of(message.as_str());
    v.extend_from_slice(m.as_slice());
    assert((prefix@ + message@).take(prefix@.len() as int) =~= prefix@);
    string_from_chars(v.as_slice())
}

/// `myterm-` followed by the host name, or by `myterm-default` without one.
pub open spec fn master_of(hostname: Option<Seq<char>>) -> Seq<char> {
    "myterm-"@ + match hostname {
        Some(h) => h,
        None => "myterm-default"@,
    }
}

/// The master password of this machine: `myterm-` followed by its host name,
/// or by `myterm-default` when the host name cannot be read.
pub fn master_password_for(hostname: Option<String>) -> (r: String)
    ensures
        r@ == master_of(opt_view(hostname)),
{
    match hostname {
        Some(h) => prefixed("myterm-", &h),
        None => {
            let d = chars_of("myterm-default");
            prefixed("myterm-", &string_from_chars(d.as_slice()))
        },
    }
}

/// `hostname::get()`, as text: the machine's host name, or none when it
/// cannot be read. Nothing is stated of the name, which is the machine's.
#[verifier::external_body]
fn machine_hostname() -> Option<String> {
    hostname::get().ok().map(|h| h.to_string_lossy().to_string())
}

/// The master password of the machine this runs on.
pub fn get_master_password() -> (r: String)
    ensures
        exists|h: Option<Seq<char>>| r@ == #[trigger] master_of(h),
{
    let h = machine_hostname();
    let ghost hv = opt_view(h);
    let r = master_password_for(h);
    assert(r@ == master_of(hv));
    r
}

} // verus!
