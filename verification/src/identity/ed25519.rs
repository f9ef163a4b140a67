//! The `did:key` codec and Ed25519 signatures: one place for the wire formats.

use vstd::prelude::*;

use crate::error::DackError;
use crate::error::Result;
use crate::identity::Did;
use crate::identity::Signature;
use crate::text;

verus! {

/// A decoding that gives these bytes.
pub open spec fn gives(r: std::result::Result<Seq<u8>, Seq<char>>, bytes: Seq<u8>) -> bool {
    r matches Ok(b) && b == bytes
}

/// A decoding that fails with this message.
pub open spec fn fails(r: std::result::Result<Seq<u8>, Seq<char>>, message: Seq<char>) -> bool {
    r matches Err(m) && m == message
}

/// The base58 text of some bytes.
pub uninterp spec fn base58_text(bytes: Seq<u8>) -> Seq<char>;

/// The bytes of a base58 text, or why it has none.
pub uninterp spec fn base58_bytes(s: Seq<char>) -> std::result::Result<Seq<u8>, Seq<char>>;

/// The unpadded base64url text of some bytes.
pub uninterp spec fn base64url_text(bytes: Seq<u8>) -> Seq<char>;

/// The bytes of an unpadded text in the URL-safe base64 alphabet.
pub uninterp spec fn base64url_bytes(s: Seq<char>) -> Option<Seq<u8>>;

/// The bytes of a padded text in the URL-safe base64 alphabet.
pub uninterp spec fn base64url_padded_bytes(s: Seq<char>) -> Option<Seq<u8>>;

/// The bytes of an unpadded text in the standard base64 alphabet.
pub uninterp spec fn base64_bytes(s: Seq<char>) -> Option<Seq<u8>>;

/// The bytes of a padded text in the standard base64 alphabet.
pub uninterp spec fn base64_padded_bytes(s: Seq<char>) -> Option<Seq<u8>>;

/// Whether a decoding that may fail gave what `want` says.
pub open spec fn decoded_as(r: Option<Vec<u8>>, want: Option<Seq<u8>>) -> bool {
    match r {
        Some(b) => want == Some(b@),
        None => want is None,
    }
}

/// Why 32 bytes are no Ed25519 public key, if they are none.
pub uninterp spec fn point_error(public: Seq<u8>) -> Option<Seq<char>>;

/// Whether a signature over a message is one of the key's owner.
pub uninterp spec fn accepts(public: Seq<u8>, message: Seq<u8>, signature: Seq<u8>) -> bool;

/// The public key of a secret key.
pub uninterp spec fn public_of(secret: Seq<u8>) -> Seq<u8>;

/// The signature of a secret key over a message.
pub uninterp spec fn signed(secret: Seq<u8>, message: Seq<u8>) -> Seq<u8>;

/// `bs58::encode(..).into_string()`. Decoding the text gives the bytes back. Base58 is a positional
/// notation, so the text of 34 bytes starts as their two highest bytes say: under the `ed25519-pub`
/// prefix with `6Mk`.
#[verifier::external_body]
fn base58_encode(bytes: &[u8]) -> (r: String)
    ensures
        r@ == base58_text(bytes@),
        gives(base58_bytes(r@), bytes@),
        bytes@.len() == 34 && bytes@[0] == 0xed && bytes@[1] == 0x01 ==> r@.len() > 3 && r@[0] == '6' && r@[1]
            == 'M' && r@[2] == 'k',
{
    bs58::encode(bytes).into_string()
}

/// `bs58::decode(..).into_vec()`, an error by its message. Bytes have one text: a text that decodes is
/// the one that they encode to.
#[verifier::external_body]
fn base58_decode(s: &str) -> (r: std::result::Result<Vec<u8>, String>)
    ensures
        (match r {
            Ok(b) => gives(base58_bytes(s@), b@) && base58_text(b@) == s@,
            Err(e) => fails(base58_bytes(s@), e@),
        }),
{
    bs58::decode(s).into_vec().map_err(|e| e.to_string())
}

/// The characters of the URL-safe base64 alphabet.
pub open spec fn base64url_char(c: char) -> bool {
    'A' <= c <= 'Z' || 'a' <= c <= 'z' || '0' <= c <= '9' || c == '-' || c == '_'
}

/// `URL_SAFE_NO_PAD.encode`. The text holds only the alphabet's characters, and decoding it with
/// the same engine gives the bytes back.
#[verifier::external_body]
fn base64url_encode(bytes: &[u8]) -> (r: String)
    ensures
        r@ == base64url_text(bytes@),
        forall|i: int| 0 <= i < r@.len() ==> base64url_char(#[trigger] r@[i]),
        base64url_bytes(r@) == Some(bytes@),
{
    base64::Engine::encode(&base64::engine::general_purpose::URL_SAFE_NO_PAD, bytes)
}

/// Two decodings of one text that agree where both succeed.
pub open spec fn agree(r: Option<Vec<u8>>, other: Option<Seq<u8>>) -> bool {
    r matches Some(b) ==> other is None || other == Some(b@)
}

/// `URL_SAFE_NO_PAD.decode`. Where one of the other three engines decodes the same text, it gives the
/// same bytes: the alphabets share the value of every character that both have, and padding holds no
/// bytes.
#[verifier::external_body]
fn base64url_decode(s: &str) -> (r: Option<Vec<u8>>)
    ensures
        decoded_as(r, base64url_bytes(s@)),
        agree(r, base64url_padded_bytes(s@)),
        agree(r, base64_bytes(s@)),
        agree(r, base64_padded_bytes(s@)),
{
    base64::Engine::decode(&base64::engine::general_purpose::URL_SAFE_NO_PAD, s).ok()
}

/// `URL_SAFE.decode`. Where one of the two engines of the standard alphabet decodes the same text, it
/// gives the same bytes.
#[verifier::external_body]
fn base64url_padded_decode(s: &str) -> (r: Option<Vec<u8>>)
    ensures
        decoded_as(r, base64url_padded_bytes(s@)),
        agree(r, base64_bytes(s@)),
        agree(r, base64_padded_bytes(s@)),
{
    base64::Engine::decode(&base64::engine::general_purpose::URL_SAFE, s).ok()
}

/// `STANDARD_NO_PAD.decode`. Where the padded engine of the same alphabet decodes the same text, it
/// gives the same bytes.
#[verifier::external_body]
fn base64_decode(s: &str) -> (r: Option<Vec<u8>>)
    ensures
        decoded_as(r, base64_bytes(s@)),
        agree(r, base64_padded_bytes(s@)),
{
    base64::Engine::decode(&base64::engine::general_purpose::STANDARD_NO_PAD, s).ok()
}

/// `STANDARD.decode`.
#[verifier::external_body]
fn base64_padded_decode(s: &str) -> (r: Option<Vec<u8>>)
    ensures
        decoded_as(r, base64_padded_bytes(s@)),
{
    base64::Engine::decode(&base64::engine::general_purpose::STANDARD, s).ok()
}

/// An Ed25519 public key of `ed25519_dalek`.
#[verifier::external_type_specification]
#[verifier::external_body]
pub struct ExVerifyingKey(ed25519_dalek::VerifyingKey);

/// The 32 bytes of a public key.
pub uninterp spec fn key_bytes(k: ed25519_dalek::VerifyingKey) -> Seq<u8>;

/// `VerifyingKey::from_bytes`, an error by its message.
#[verifier::external_body]
fn verifying_key(public: &[u8; 32]) -> (r: std::result::Result<ed25519_dalek::VerifyingKey, String>)
    ensures
        (match r {
            Ok(k) => key_bytes(k) == public@ && point_error(public@) is None,
            Err(e) => point_error(public@) == Some(e@),
        }),
{
    ed25519_dalek::VerifyingKey::from_bytes(public).map_err(|e| e.to_string())
}

/// `VerifyingKey::verify`: whether it accepts the signature over the message.
#[verifier::external_body]
fn verify_bytes(key: &ed25519_dalek::VerifyingKey, message: &[u8], signature: &[u8; 64]) -> (r: bool)
    ensures
        r == accepts(key_bytes(*key), message@, signature@),
{
    let signature = ed25519_dalek::Signature::from_bytes(signature);
    ed25519_dalek::Verifier::verify(key, message, &signature).is_ok()
}

/// `SigningKey::verifying_key`: the public key of a secret key, always a valid point.
#[verifier::external_body]
fn public_key(secret: &[u8; 32]) -> (r: [u8; 32])
    ensures
        r@ == public_of(secret@),
        point_error(r@) is None,
{
    ed25519_dalek::SigningKey::from_bytes(secret).verifying_key().to_bytes()
}

/// `SigningKey::sign`. The public key of the same secret accepts the signature.
#[verifier::external_body]
fn sign_bytes(secret: &[u8; 32], message: &[u8]) -> (r: [u8; 64])
    ensures
        r@ == signed(secret@, message@),
        accepts(public_of(secret@), message@, r@),
{
    ed25519_dalek::Signer::sign(&ed25519_dalek::SigningKey::from_bytes(secret), message).to_bytes()
}

/// The `ed25519-pub` multicodec prefix and a public key.
pub open spec fn multicodec(public: Seq<u8>) -> Seq<u8> {
    seq![0xedu8, 0x01u8] + public
}

/// The `did:key` of a public key.
pub open spec fn did_of(public: Seq<u8>) -> Seq<char> {
    "did:key:z"@ + base58_text(multicodec(public))
}

/// The canonical `did:key` of an Ed25519 public key: base58btc of the multicodec prefix and the key.
pub fn ed25519_pub_to_did(pubkey: [u8; 32]) -> (r: Did)
    ensures
        r.0@ == did_of(pubkey@),
        gives(did_key(r.0@), pubkey@),
        "did:key:z6Mk"@.is_prefix_of(r.0@),
{
    let mut bytes: Vec<u8> = Vec::new();
    bytes.push(0xed);
    bytes.push(0x01);
    let mut i: usize = 0;
    while i < 32
        invariant
            i <= 32,
            bytes@ == multicodec(pubkey@.take(i as int)),
        decreases 32 - i,
    {
        bytes.push(pubkey[i]);
        i += 1;
        assert(bytes@ == multicodec(pubkey@.take(i as int)));
    }
    assert(pubkey@.take(32) == pubkey@);
    let b58 = base58_encode(&bytes);
    let mut did = "did:key:z".to_owned();
    did.append(&b58);
    proof {
        reveal_strlit("did:key:z");
        reveal_strlit("did:key:");
        assert("did:key:"@ == did@.subrange(0, 8));
        assert(did@.skip(8)[0] == 'z');
        assert(did@.skip(8).skip(1) == b58@);
        assert(bytes@.subrange(2, 34) == pubkey@);
        reveal_strlit("did:key:z6Mk");
        assert(did@.subrange(0, 12) == "did:key:z6Mk"@);
    }
    Did(did)
}

/// The first bytes, at most two, as they stand in a message.
pub open spec fn prefix_text(bytes: Seq<u8>) -> Seq<char> {
    if bytes.len() == 0 {
        "[]"@
    } else if bytes.len() == 1 {
        "["@ + text::hex(bytes[0]) + "]"@
    } else {
        "["@ + text::hex(bytes[0]) + ", "@ + text::hex(bytes[1]) + "]"@
    }
}

/// The public key in a `did:key`, or why it holds none.
pub open spec fn did_key(did: Seq<char>) -> std::result::Result<Seq<u8>, Seq<char>> {
    if !"did:key:"@.is_prefix_of(did) {
        Err("not a did:key: `"@ + did + "`"@)
    } else {
        let body = did.skip(8);
        if body.len() == 0 || body[0] != 'z' {
            Err("did:key not base58btc (`z…`): `"@ + did + "`"@)
        } else {
            match base58_bytes(body.skip(1)) {
                Err(e) => Err("did:key base58 decode: "@ + e),
                Ok(bytes) => if bytes.len() != 34 || bytes[0] != 0xed || bytes[1] != 0x01 {
                    Err(
                        "did:key not an ed25519-pub multicodec (len "@ + text::decimal(bytes.len() as int)
                            + ", prefix "@ + prefix_text(bytes) + ")"@,
                    )
                } else {
                    Ok(bytes.subrange(2, 34))
                },
            }
        }
    }
}

/// Whether an outcome is the named one: the same bytes, or an identity error of that message.
pub open spec fn outcome<const N: usize>(r: Result<[u8; N]>, want: std::result::Result<Seq<u8>, Seq<char>>) -> bool {
    match (r, want) {
        (Ok(b), Ok(w)) => b@ == w,
        (Err(DackError::Identity(m)), Err(w)) => m@ == w,
        _ => false,
    }
}

fn quoted(head: &str, s: &str) -> (r: DackError)
    ensures
        r matches DackError::Identity(m) && m@ == head@ + s@ + "`"@,
{
    let mut m = head.to_owned();
    m.append(s);
    m.append("`");
    DackError::Identity(m)
}

fn prefix_of(bytes: &[u8]) -> (r: String)
    ensures
        r@ == prefix_text(bytes@),
{
    if bytes.len() == 0 {
        "[]".to_owned()
    } else if bytes.len() == 1 {
        let mut r = "[".to_owned();
        r.append(&text::hex_text(bytes[0]));
        r.append("]");
        r
    } else {
        let mut r = "[".to_owned();
        r.append(&text::hex_text(bytes[0]));
        r.append(", ");
        r.append(&text::hex_text(bytes[1]));
        r.append("]");
        r
    }
}

/// The Ed25519 public key in a `did:key`: the inverse of [`ed25519_pub_to_did`]. A text gives a key only
/// where it is the text of that key.
pub fn did_key_to_ed25519(did: &str) -> (r: Result<[u8; 32]>)
    ensures
        outcome(r, did_key(did@)),
        r matches Ok(k) ==> did_of(k@) == did@,
{
    proof {
        reveal_strlit("did:key:");
        reveal_strlit("did:key:z");
        reveal_strlit("z");
    }
    let body = match text::strip_prefix(did, "did:key:") {
        Some(b) => b,
        None => {
            return Err(quoted("not a did:key: `", did));
        },
    };
    let b58 = match text::strip_prefix(&body, "z") {
        Some(b) => {
            assert(body@.subrange(0, 1)[0] == body@[0]);
            b
        },
        None => {
            assert(body@.len() > 0 && body@[0] == 'z' ==> body@.subrange(0, 1) == "z"@);
            return Err(quoted("did:key not base58btc (`z…`): `", did));
        },
    };
    let bytes = match base58_decode(&b58) {
        Ok(b) => b,
        Err(e) => {
            let mut m = "did:key base58 decode: ".to_owned();
            m.append(&e);
            return Err(DackError::Identity(m));
        },
    };
    if bytes.len() != 34 || bytes[0] != 0xed || bytes[1] != 0x01 {
        let mut m = "did:key not an ed25519-pub multicodec (len ".to_owned();
        m.append(&text::nat_text(bytes.len() as u128));
        m.append(", prefix ");
        m.append(&prefix_of(&bytes));
        m.append(")");
        return Err(DackError::Identity(m));
    }
    let mut key = [0u8; 32];
    let mut i: usize = 0;
    while i < 32
        invariant
            i <= 32,
            bytes@.len() == 34,
            forall|j: int| 0 <= j < i ==> key@[j] == bytes@[j + 2],
        decreases 32 - i,
    {
        key[i] = bytes[i + 2];
        i += 1;
    }
    assert(key@ == bytes@.subrange(2, 34));
    assert(multicodec(key@) == bytes@);
    assert(did@ == "did:key:"@ + body@);
    assert(body@ == "z"@ + b58@);
    assert(did_of(key@) == did@);
    Ok(key)
}

/// The stored form of a signature: the ASCII bytes of its unpadded base64url text.
pub fn encode_signature(sig: [u8; 64]) -> (r: Vec<u8>)
    ensures
        r@ == vstd::utf8::encode_utf8(base64url_text(sig@)),
        gives(decoded_signature(r@), sig@),
{
    let s = base64url_encode(&sig);
    let r = s.as_str().as_bytes_vec();
    proof {
        vstd::utf8::encode_utf8_decode_utf8(s@);
        vstd::utf8::encode_utf8_valid_utf8(s@);
        lemma_alphabet_is_trimmed(s@);
    }
    r
}

proof fn lemma_alphabet_is_trimmed(s: Seq<char>)
    requires
        forall|i: int| 0 <= i < s.len() ==> base64url_char(#[trigger] s[i]),
    ensures
        text::trimmed(s) == s,
{
    if s.len() > 0 {
        assert(base64url_char(s[0]));
        assert(base64url_char(s[s.len() - 1]));
    }
}

/// Bytes that are sixty-four.
pub open spec fn of_signature_length(bytes: Option<Seq<u8>>) -> bool {
    bytes matches Some(b) && b.len() == 64
}

/// Sixty-four bytes that one of the four base64 forms gives, tried in order.
pub open spec fn any_base64(s: Seq<char>) -> Option<Seq<u8>> {
    if of_signature_length(base64url_bytes(s)) {
        base64url_bytes(s)
    } else if of_signature_length(base64url_padded_bytes(s)) {
        base64url_padded_bytes(s)
    } else if of_signature_length(base64_bytes(s)) {
        base64_bytes(s)
    } else if of_signature_length(base64_padded_bytes(s)) {
        base64_padded_bytes(s)
    } else {
        None
    }
}

/// Whether one of the four base64 forms reads a text as these bytes.
pub open spec fn some_form(s: Seq<char>, bytes: Seq<u8>) -> bool {
    ||| base64url_bytes(s) == Some(bytes)
    ||| base64url_padded_bytes(s) == Some(bytes)
    ||| base64_bytes(s) == Some(bytes)
    ||| base64_padded_bytes(s) == Some(bytes)
}

/// Whether a stored signature is sixty-four bytes in one of the four base64 forms.
pub open spec fn stored_as(raw: Seq<u8>, bytes: Seq<u8>) -> bool {
    vstd::utf8::valid_utf8(raw) && bytes.len() == 64 && some_form(
        text::trimmed(vstd::utf8::decode_utf8(raw)),
        bytes,
    )
}

/// The 64 bytes of a stored signature, or why it has none.
pub open spec fn decoded_signature(raw: Seq<u8>) -> std::result::Result<Seq<u8>, Seq<char>> {
    if !vstd::utf8::valid_utf8(raw) {
        Err("signature not UTF-8 base64"@)
    } else {
        let s = text::trimmed(vstd::utf8::decode_utf8(raw));
        match any_base64(s) {
            Some(b) => Ok(b),
            None => Err(
                "signature did not base64-decode to 64 bytes (`"@ + text::fitting(s, 12) + "…`)"@,
            ),
        }
    }
}

fn sixty_four(bytes: Option<Vec<u8>>) -> (r: Option<[u8; 64]>)
    ensures
        (match (r, bytes) {
            (Some(b), Some(v)) => b@ == v@,
            (Some(_), None) => false,
            (None, Some(v)) => v@.len() != 64,
            (None, None) => true,
        }),
{
    let bytes = match bytes {
        Some(b) => b,
        None => {
            return None;
        },
    };
    if bytes.len() != 64 {
        return None;
    }
    let mut sig = [0u8; 64];
    let mut i: usize = 0;
    while i < 64
        invariant
            i <= 64,
            bytes@.len() == 64,
            forall|j: int| 0 <= j < i ==> sig@[j] == bytes@[j],
        decreases 64 - i,
    {
        sig[i] = bytes[i];
        i += 1;
    }
    assert(sig@ == bytes@);
    Some(sig)
}

/// The 64 bytes of a stored signature, in whichever base64 form it was written: the form never
/// changes what is read.
pub fn decode_signature_64(raw: &[u8]) -> (r: Result<[u8; 64]>)
    ensures
        outcome(r, decoded_signature(raw@)),
        forall|bytes: Seq<u8>| #[trigger] stored_as(raw@, bytes) ==> gives(decoded_signature(raw@), bytes),
{
    let s = match text::utf8_text(raw) {
        Some(s) => {
            proof {
                vstd::utf8::encode_utf8_decode_utf8(s@);
                vstd::utf8::encode_utf8_valid_utf8(s@);
            }
            text::trim(s)
        },
        None => {
            return Err(DackError::Identity("signature not UTF-8 base64".to_owned()));
        },
    };
    if let Some(b) = sixty_four(base64url_decode(&s)) {
        return Ok(b);
    }
    if let Some(b) = sixty_four(base64url_padded_decode(&s)) {
        return Ok(b);
    }
    if let Some(b) = sixty_four(base64_decode(&s)) {
        return Ok(b);
    }
    if let Some(b) = sixty_four(base64_padded_decode(&s)) {
        return Ok(b);
    }
    let mut m = "signature did not base64-decode to 64 bytes (`".to_owned();
    let (head, _cut) = text::cut_bytes(&s, 12);
    m.append(&head);
    m.append("…`)");
    Err(DackError::Identity(m))
}

/// What verifying a stored signature over a message against a `did:key` gives: a verdict, or why
/// the identifier or the signature cannot be read.
pub open spec fn verdict(did: Seq<char>, message: Seq<u8>, sig: Seq<u8>) -> std::result::Result<bool, Seq<char>> {
    match did_key(did) {
        Err(e) => Err(e),
        Ok(public) => match point_error(public) {
            Some(e) => Err("did pubkey not a valid ed25519 point: "@ + e),
            None => match decoded_signature(sig) {
                Err(e) => Err(e),
                Ok(s) => Ok(accepts(public, message, s)),
            },
        },
    }
}

/// Verifies an Ed25519 signature over `payload` against the key in a `did:key`. A well-formed but
/// wrong signature is `Ok(false)`; an error means that the identifier or the signature cannot be
/// read. The answer goes by the signature's bytes, not by the base64 form they are stored in.
pub fn verify_ed25519_did(did: &Did, payload: &[u8], sig: &Signature) -> (r: Result<bool>)
    ensures
        (match (r, verdict(did.0@, payload@, sig.0@)) {
            (Ok(b), Ok(w)) => b == w,
            (Err(DackError::Identity(m)), Err(w)) => m@ == w,
            _ => false,
        }),
        forall|bytes: Seq<u8>| #[trigger]
            stored_as(sig.0@, bytes) ==> (did_key(did.0@) matches Ok(key) ==> point_error(key) is None ==> (
            r matches Ok(b) && b == accepts(key, payload@, bytes))),
{
    let public = match did_key_to_ed25519(&did.0) {
        Ok(k) => k,
        Err(e) => {
            return Err(e);
        },
    };
    let key = match verifying_key(&public) {
        Ok(k) => k,
        Err(e) => {
            let mut m = "did pubkey not a valid ed25519 point: ".to_owned();
            m.append(&e);
            return Err(DackError::Identity(m));
        },
    };
    let bytes = match decode_signature_64(&sig.0) {
        Ok(b) => b,
        Err(e) => {
            return Err(e);
        },
    };
    Ok(verify_bytes(&key, payload, &bytes))
}

/// The `did:key` of a secret key.
pub fn did_of_secret(secret: &[u8; 32]) -> (r: Did)
    ensures
        r.0@ == did_of(public_of(secret@)),
        gives(did_key(r.0@), public_of(secret@)),
        point_error(public_of(secret@)) is None,
{
    ed25519_pub_to_did(public_key(secret))
}

/// Signs `payload`. The signature verifies against the `did:key` of the same secret.
pub fn sign_with(secret: &[u8; 32], payload: &[u8]) -> (r: Signature)
    ensures
        r.0@ == vstd::utf8::encode_utf8(base64url_text(signed(secret@, payload@))),
        gives(decoded_signature(r.0@), signed(secret@, payload@)),
        accepts(public_of(secret@), payload@, signed(secret@, payload@)),
{
    Signature(encode_signature(sign_bytes(secret, payload)))
}

/// What reads as the identifier of a key: `did:key:z` and the base58 of the key behind its two-byte
/// mark, of thirty-two bytes; everything else is refused, by what is wrong with it first.
pub proof fn an_identifier_holds_its_key(did: Seq<char>, body: Seq<char>, bytes: Seq<u8>, public: Seq<u8>)
    ensures
        !"did:key:"@.is_prefix_of(did) ==> fails(did_key(did), "not a did:key: `"@ + did + "`"@),
        gives(base58_bytes(body), bytes) && bytes == seq![0xedu8, 0x01u8] + public && public.len() == 32 ==> gives(
            did_key("did:key:z"@ + body),
            public,
        ),
        gives(base58_bytes(body), bytes) && (bytes.len() != 34 || bytes[0] != 0xed || bytes[1] != 0x01) ==> did_key(
            "did:key:z"@ + body,
        ) is Err,
        base58_bytes(body) is Err ==> did_key("did:key:z"@ + body) is Err,
        body.len() == 0 || body[0] != 'z' ==> did_key("did:key:"@ + body) is Err,
        did_of(public) == "did:key:z"@ + base58_text(seq![0xedu8, 0x01u8] + public),
{
    reveal_strlit("did:key:");
    reveal_strlit("did:key:z");
    let a = "did:key:"@;
    let u = "did:key:z"@ + body;
    assert(u.subrange(0, 8) == a);
    assert(u.skip(8)[0] == 'z');
    assert(u.skip(8).skip(1) == body);
    if bytes == seq![0xedu8, 0x01u8] + public && public.len() == 32 {
        assert(bytes.len() == 34);
        assert(bytes.subrange(2, 34) == public);
    }
    let v = a + body;
    assert(v.subrange(0, 8) == a);
    assert(v.skip(8) == body);
}

/// A stored signature is the sixty-four bytes that its text gives in one of the four forms, the one for
/// addresses before the others; what gives no such bytes is refused.
pub proof fn a_signature_is_read_in_its_form(s: Seq<char>, b: Seq<u8>)
    ensures
        base64url_bytes(s) == Some(b) && b.len() == 64 ==> any_base64(s) == Some(b),
        base64_padded_bytes(s) == Some(b) && b.len() == 64 && !of_signature_length(base64url_bytes(s))
            && !of_signature_length(base64url_padded_bytes(s)) && !of_signature_length(base64_bytes(s))
            ==> any_base64(s) == Some(b),
        any_base64(s) matches Some(x) ==> x.len() == 64 && some_form(s, x),
        any_base64(s) is None ==> (some_form(s, b) ==> b.len() != 64),
{
}

/// A signature is judged in turn: the identifier must hold a key, the key must be a point, the signature
/// must be readable, and then the key says whether it is its own over the message.
pub proof fn a_signature_is_judged_in_turn(
    did: Seq<char>,
    message: Seq<u8>,
    sig: Seq<u8>,
    public: Seq<u8>,
    s: Seq<u8>,
)
    ensures
        did_key(did) is Err ==> verdict(did, message, sig) is Err,
        gives(did_key(did), public) && point_error(public) is Some ==> verdict(did, message, sig) is Err,
        gives(did_key(did), public) && decoded_signature(sig) is Err ==> verdict(did, message, sig) is Err,
        gives(did_key(did), public) && point_error(public) is None && gives(decoded_signature(sig), s) ==> verdict(
            did,
            message,
            sig,
        ) == std::result::Result::<bool, Seq<char>>::Ok(accepts(public, message, s)),
{
}

/// The start of a key that is not one is shown by its first two bytes.
pub proof fn a_wrong_mark_is_shown(a: u8, b: u8, rest: Seq<u8>)
    ensures
        prefix_text(Seq::empty()) == "[]"@,
        prefix_text(seq![a]) == "["@ + text::hex(a) + "]"@,
        prefix_text(seq![a, b] + rest) == "["@ + text::hex(a) + ", "@ + text::hex(b) + "]"@,
{
}

/// A stored signature is readable exactly where it is text and that, without the blanks around it, gives
/// sixty-four bytes in one of the four forms.
pub proof fn a_stored_signature_is_readable(raw: Seq<u8>, bytes: Seq<u8>)
    ensures
        !vstd::utf8::valid_utf8(raw) ==> fails(decoded_signature(raw), "signature not UTF-8 base64"@),
        gives(decoded_signature(raw), bytes) ==> vstd::utf8::valid_utf8(raw) && bytes.len() == 64 && some_form(
            text::trimmed(vstd::utf8::decode_utf8(raw)),
            bytes,
        ),
        vstd::utf8::valid_utf8(raw) && some_form(text::trimmed(vstd::utf8::decode_utf8(raw)), bytes) && bytes.len()
            == 64 ==> decoded_signature(raw) is Ok,
{
}

} // verus!
