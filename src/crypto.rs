//! SHA-256 hashing, hex text, and secp256k1 keys and recoverable signatures.

use vstd::prelude::*;
use vstd::string::*;
use sha2::{Digest, Sha256};
use secp256k1::{Message, PublicKey, Secp256k1, SecretKey};
use secp256k1::ecdsa::{RecoverableSignature, RecoveryId};
use crate::error::ConsensusError;

verus! {

#[verifier::external_type_specification]
#[verifier::external_body]
pub struct ExSecretKey(SecretKey);

#[verifier::external_type_specification]
#[verifier::external_body]
pub struct ExPublicKey(PublicKey);

/// The SHA-256 digest of a byte sequence.
pub uninterp spec fn sha256_of(data: Seq<u8>) -> Seq<u8>;

/// Relies on sha2::Sha256::digest: the 32-byte SHA-256 digest of `data`.
#[verifier::external_body]
pub fn sha256(data: &[u8]) -> (r: Vec<u8>)
    ensures
        r@ == sha256_of(data@),
        r@.len() == 32,
{
    Sha256::digest(data).to_vec()
}

/// The lower-case hex digit of a value below 16.
pub open spec fn hex_digit(n: nat) -> char {
    if n < 10 {
        ((n + 48) as u8) as char
    } else {
        ((n + 87) as u8) as char
    }
}

/// Lower-case hex text of bytes, two digits per byte, high nibble first.
pub open spec fn hex_of(b: Seq<u8>) -> Seq<char>
    decreases b.len(),
{
    if b.len() == 0 {
        Seq::empty()
    } else {
        hex_of(b.drop_last()) + seq![hex_digit(b.last() as nat / 16), hex_digit(b.last() as nat % 16)]
    }
}

/// The value of one hex digit, in either case.
pub open spec fn hex_value(c: u8) -> Option<u8> {
    if 48 <= c <= 57 {
        Some((c - 48) as u8)
    } else if 97 <= c <= 102 {
        Some((c - 87) as u8)
    } else if 65 <= c <= 70 {
        Some((c - 55) as u8)
    } else {
        None
    }
}

/// The bytes that hex text encodes: `None` for an odd length or a character
/// that is not a hex digit.
pub open spec fn hex_decoded(s: Seq<u8>) -> Option<Seq<u8>>
    decreases s.len(),
{
    if s.len() % 2 != 0 {
        None
    } else if s.len() == 0 {
        Some(Seq::empty())
    } else {
        match (hex_decoded(s.subrange(0, s.len() - 2)), hex_value(s[s.len() - 2]), hex_value(s[s.len() - 1])) {
            (Some(prev), Some(hi), Some(lo)) => Some(prev.push((hi * 16 + lo) as u8)),
            _ => None,
        }
    }
}

/// Relies on hex::encode: two lower-case hex digits for each byte.
#[verifier::external_body]
pub fn hex_encode(data: &[u8]) -> (r: String)
    ensures
        r@ == hex_of(data@),
{
    hex::encode(data)
}

/// Relies on hex::decode: the bytes of even-length hex text in either case,
/// and an error for odd length or a non-hex character.
#[verifier::external_body]
pub fn hex_decode(text: &[u8]) -> (r: Option<Vec<u8>>)
    ensures
        match r {
            Some(v) => hex_decoded(text@) == Some(v@),
            None => hex_decoded(text@) is None,
        },
{
    hex::decode(text).ok()
}

/// The compressed public key of 32 secret key bytes, or `None` when they
/// are not a valid secret key.
pub uninterp spec fn public_key_of_secret(secret: Seq<u8>) -> Option<Seq<u8>>;

/// Relies on secp256k1::SecretKey::secret_bytes: the 32 bytes of a valid
/// secret key.
#[verifier::external_body]
fn secret_key_bytes(sk: &SecretKey) -> (r: Vec<u8>)
    ensures
        r@.len() == 32,
        public_key_of_secret(r@) is Some,
{
    sk.secret_bytes().to_vec()
}

/// Relies on secp256k1::PublicKey::from_secret_key (after
/// SecretKey::from_slice) and PublicKey::serialize: the compressed public
/// key of secret bytes, which parses back to itself.
#[verifier::external_body]
fn derive_public_key(secret: &[u8]) -> (r: Option<Vec<u8>>)
    ensures
        match r {
            Some(v) => public_key_of_secret(secret@) == Some(v@) && v@.len() == 33
                && public_key_normal_of(v@) == Some(v@),
            None => public_key_of_secret(secret@) is None,
        },
        secret@.len() != 32 ==> r is None,
{
    SecretKey::from_slice(secret).ok().map(|sk| PublicKey::from_secret_key(&Secp256k1::new(), &sk).serialize().to_vec())
}

/// Relies on secp256k1::Secp256k1::generate_keypair with the thread-local
/// random generator: a fresh random key pair.
#[verifier::external_body]
fn generate_keypair() -> (r: (SecretKey, PublicKey)) {
    Secp256k1::new().generate_keypair(&mut rand::thread_rng())
}

/// Relies on secp256k1::Secp256k1::sign_ecdsa_recoverable (RFC 6979 nonce)
/// and RecoverableSignature::serialize_compact: a recovery id of 0 to 3 and
/// 64 signature bytes, from which secp256k1's recovery gives back the
/// signer's public key.
#[verifier::external_body]
fn sign_with_secret(secret: &[u8], digest: &[u8]) -> (r: Option<(u8, Vec<u8>)>)
    requires
        digest@.len() == 32,
    ensures
        r is Some <==> public_key_of_secret(secret@) is Some,
        r matches Some(p) ==> p.0 <= 3 && p.1@.len() == 64
            && ecdsa_recovered_of(digest@, p.1@, p.0) == public_key_of_secret(secret@),
{
    let sk = SecretKey::from_slice(secret).ok()?;
    let msg = Message::from_digest_slice(digest).ok()?;
    let (id, bytes) = Secp256k1::new().sign_ecdsa_recoverable(&msg, &sk).serialize_compact();
    Some((id.to_i32() as u8, bytes.to_vec()))
}

/// The compressed form of a public key given in any encoding secp256k1
/// parses, or `None` when it is not a public key.
pub uninterp spec fn public_key_normal_of(bytes: Seq<u8>) -> Option<Seq<u8>>;

/// Relies on secp256k1::PublicKey::from_slice and PublicKey::serialize: the
/// parsed key in its 33-byte compressed form; empty input is refused.
#[verifier::external_body]
fn normalize_public_key(data: &[u8]) -> (r: Option<Vec<u8>>)
    ensures
        match r {
            Some(v) => public_key_normal_of(data@) == Some(v@),
            None => public_key_normal_of(data@) is None,
        },
        data@.len() == 0 ==> r is None,
{
    PublicKey::from_slice(data).ok().map(|k| k.serialize().to_vec())
}

/// The compressed public key that made a 64-byte compact signature with a
/// recovery id over a 32-byte digest, or `None` when none did.
pub uninterp spec fn ecdsa_recovered_of(digest: Seq<u8>, sig: Seq<u8>, recid: u8) -> Option<Seq<u8>>;

/// Relies on secp256k1::Secp256k1::recover_ecdsa: the key recovered from a
/// compact signature (read by RecoverableSignature::from_compact with
/// RecoveryId::from_i32) over a digest, in its compressed form.
#[verifier::external_body]
fn recover_key_bytes(digest: &[u8], sig: &[u8], recid: u8) -> (r: Option<Vec<u8>>)
    requires
        digest@.len() == 32,
        recid <= 3,
    ensures
        match r {
            Some(v) => ecdsa_recovered_of(digest@, sig@, recid) == Some(v@),
            None => ecdsa_recovered_of(digest@, sig@, recid) is None,
        },
{
    let msg = Message::from_digest_slice(digest).ok()?;
    let id = RecoveryId::from_i32(recid as i32).ok()?;
    let s = RecoverableSignature::from_compact(sig, id).ok()?;
    Secp256k1::new().recover_ecdsa(&msg, &s).ok().map(|k| k.serialize().to_vec())
}

/// The outcome of checking a signature over a message against a public
/// key, both given as hex: `None` for a malformed key or signature, else
/// whether the key recovered from the signature is the given key.
pub open spec fn verify_outcome(message: Seq<u8>, sig_hex: Seq<char>, recid: u8, key_hex: Seq<char>) -> Option<bool> {
    match hex_decoded(utf8_bytes(key_hex)) {
        None => None,
        Some(kb) => match public_key_normal_of(kb) {
            None => None,
            Some(k) => match hex_decoded(utf8_bytes(sig_hex)) {
                None => None,
                Some(sb) => if recid > 3 || sb.len() != 64 {
                    None
                } else {
                    match ecdsa_recovered_of(sha256_of(message), sb, recid) {
                        None => None,
                        Some(rk) => Some(rk == k),
                    }
                },
            },
        },
    }
}

/// The outcome of checking a signature in compact text form over a message:
/// `None` when the text or key is empty or the text unreadable.
pub open spec fn text_signature_outcome(message: Seq<u8>, sig_text: Seq<char>, key_hex: Seq<char>) -> Option<bool> {
    if sig_text.len() == 0 || key_hex.len() == 0 {
        None
    } else {
        match hex_decoded(utf8_bytes(sig_text)) {
            Some(b) => if b.len() == 65 {
                verify_outcome(message, hex_of(b.subrange(0, 64)), b[64], key_hex)
            } else {
                None
            },
            None => None,
        }
    }
}

/// Name of the signature scheme carried with each signature.
pub open spec fn algorithm_name() -> Seq<char> {
    "ECDSA-secp256k1"@
}

/// A recoverable signature: 64 bytes as hex, a recovery id and the scheme's
/// name.
#[derive(Debug, Clone)]
pub struct Signature {
    /// Signature bytes as hex text.
    pub signature: String,
    /// Recovery id, 0 to 3.
    pub recovery_id: u8,
    /// Name of the signature scheme.
    pub algorithm: String,
}

/// The UTF-8 bytes of text.
pub open spec fn utf8_bytes(s: Seq<char>) -> Seq<u8> {
    vstd::utf8::encode_utf8(s)
}

impl Signature {
    /// Whether `text` is not the compact text form of any signature.
    pub open spec fn text_unreadable(text: Seq<char>) -> bool {
        match hex_decoded(utf8_bytes(text)) {
            Some(b) => b.len() != 65,
            None => true,
        }
    }

    /// The compact text form: the signature's hex followed by two hex digits
    /// of the recovery id.
    pub fn to_text(&self) -> (r: String)
        ensures
            r@ == self.signature@ + hex_of(seq![self.recovery_id]),
    {
        let mut id: Vec<u8> = Vec::new();
        id.push(self.recovery_id);
        let mut r = self.signature.clone();
        r.append(hex_encode(id.as_slice()).as_str());
        r
    }

    /// Reads the compact text form: hex of 64 signature bytes and a recovery
    /// id. `None` when the text is not hex of 65 bytes.
    pub fn from_text(text: &str) -> (r: Option<Signature>)
        ensures
            match hex_decoded(utf8_bytes(text@)) {
                Some(b) => if b.len() == 65 {
                    r matches Some(sig) && sig.signature@ == hex_of(b.subrange(0, 64))
                        && sig.recovery_id == b[64] && sig.algorithm@ == algorithm_name()
                } else {
                    r is None
                },
                None => r is None,
            },
    {
        match hex_decode(text.as_bytes()) {
            Some(b) => {
                if b.len() != 65 {
                    return None;
                }
                let mut sig_bytes: Vec<u8> = Vec::new();
                let mut i: usize = 0;
                while i < 64
                    invariant
                        b@.len() == 65,
                        i <= 64,
                        sig_bytes@ == b@.subrange(0, i as int),
                    decreases 64 - i,
                {
                    sig_bytes.push(b[i]);
                    i = i + 1;
                    assert(sig_bytes@ =~= b@.subrange(0, i as int));
                }
                proof {
                    reveal_strlit("ECDSA-secp256k1");
                }
                Some(Signature {
                    signature: hex_encode(sig_bytes.as_slice()),
                    recovery_id: b[64],
                    algorithm: String::from_str("ECDSA-secp256k1"),
                })
            },
            None => None,
        }
    }
}

/// A secp256k1 key pair that identifies a validator.
pub struct KeyPair {
    secret: Vec<u8>,
    public_key_bytes: Vec<u8>,
}

impl KeyPair {
    /// A fresh random key pair.
    pub fn generate() -> (r: Result<KeyPair, ConsensusError>)
        ensures
            r matches Ok(k) && k.wf(),
    {
        let (secret_key, _public_key) = generate_keypair();
        let bytes = secret_key_bytes(&secret_key);
        KeyPair::from_secret_bytes(bytes.as_slice())
    }

    /// The key pair of 32 secret key bytes; an internal error when the bytes
    /// are not a valid secret key.
    pub fn from_secret_bytes(bytes: &[u8]) -> (r: Result<KeyPair, ConsensusError>)
        ensures
            public_key_of_secret(bytes@) is None ==> (r matches Err(ConsensusError::Internal { .. })),
            public_key_of_secret(bytes@) is Some ==> (r matches Ok(k) && k.wf()),
            bytes@.len() != 32 ==> r is Err,
    {
        match derive_public_key(bytes) {
            Some(public_key_bytes) => {
                let mut secret: Vec<u8> = Vec::new();
                secret.extend_from_slice(bytes);
                assert(secret@ =~= bytes@);
                Ok(KeyPair { secret, public_key_bytes })
            },
            None => Err(ConsensusError::internal("Invalid secret key")),
        }
    }

    /// A well-formed key pair's public key text has 66 characters.
    pub proof fn lemma_key_text(&self)
        requires
            self.wf(),
        ensures
            self.public_key_text().len() == 66,
    {
        lemma_hex_len(self.public_key_bytes@);
    }

    /// The secret key bytes.
    pub closed spec fn secret_spec(&self) -> Seq<u8> {
        self.secret@
    }

    /// The compressed public key as hex.
    pub closed spec fn public_key_text(&self) -> Seq<char> {
        hex_of(self.public_key_bytes@)
    }

    /// The key pair's invariant: the stored compressed key is the public key
    /// of the stored secret, has 33 bytes and parses back to itself.
    pub closed spec fn wf(&self) -> bool {
        &&& public_key_of_secret(self.secret@) == Some(self.public_key_bytes@)
        &&& self.secret@.len() == 32
        &&& self.public_key_bytes@.len() == 33
        &&& public_key_normal_of(self.public_key_bytes@) == Some(self.public_key_bytes@)
    }

    /// The compressed public key as hex: 66 characters.
    pub fn public_key_hex(&self) -> (r: String)
        ensures
            r@ == self.public_key_text(),
            self.wf() ==> r@.len() == 66,
    {
        let r = hex_encode(self.public_key_bytes.as_slice());
        proof {
            lemma_hex_len(self.public_key_bytes@);
        }
        r
    }

    /// The secret key as hex: 64 characters.
    pub fn secret_key_hex(&self) -> (r: String)
        ensures
            r@ == hex_of(self.secret_spec()),
            self.wf() ==> r@.len() == 64,
    {
        let r = hex_encode(self.secret.as_slice());
        proof {
            lemma_hex_len(self.secret@);
        }
        r
    }

    /// Signs the SHA-256 digest of `message`.
    pub fn sign(&self, message: &[u8]) -> (r: Result<Signature, ConsensusError>)
        ensures
            r matches Ok(sig) ==> sig.signature@.len() == 128 && sig.recovery_id <= 3
                && sig.algorithm@ == algorithm_name()
                && exists|b: Seq<u8>| b.len() == 64 && #[trigger] hex_of(b) == sig.signature@,
            self.wf() ==> (r matches Ok(sig)
                && verify_outcome(message@, sig.signature@, sig.recovery_id, self.public_key_text()) == Some(true)),
    {
        let digest = sha256(message);
        let (recovery_id, bytes) = match sign_with_secret(self.secret.as_slice(), digest.as_slice()) {
            Some(p) => p,
            None => {
                return Err(ConsensusError::internal("Invalid secret key"));
            },
        };
        let text = hex_encode(bytes.as_slice());
        proof {
            lemma_hex_len(bytes@);
            reveal_strlit("ECDSA-secp256k1");
            lemma_hex_round_trip(bytes@);
            lemma_hex_round_trip(self.public_key_bytes@);
        }
        Ok(Signature { signature: text, recovery_id, algorithm: String::from_str("ECDSA-secp256k1") })
    }

    /// Checks that `signature` over `message` was made by the key whose
    /// compressed form `public_key_hex` holds. Malformed keys or signatures are
    /// errors; a well-formed signature by another key gives `Ok(false)`.
    pub fn verify(message: &[u8], signature: &Signature, public_key_hex: &str) -> (r: Result<bool, ConsensusError>)
        ensures
            match verify_outcome(message@, signature.signature@, signature.recovery_id, public_key_hex@) {
                Some(b) => r == Ok::<bool, ConsensusError>(b),
                None => r is Err,
            },
    {
        let pk_bytes = match hex_decode(public_key_hex.as_bytes()) {
            Some(b) => b,
            None => {
                return Err(ConsensusError::internal("Invalid public key hex"));
            },
        };
        let key = match normalize_public_key(pk_bytes.as_slice()) {
            Some(k) => k,
            None => {
                return Err(ConsensusError::internal("Invalid public key"));
            },
        };
        let sig_bytes = match hex_decode(signature.signature.as_str().as_bytes()) {
            Some(b) => b,
            None => {
                return Err(ConsensusError::internal("Invalid signature hex"));
            },
        };
        if signature.recovery_id > 3 {
            return Err(ConsensusError::internal("Invalid recovery ID"));
        }
        if sig_bytes.len() != 64 {
            return Err(ConsensusError::internal("Invalid signature"));
        }
        let digest = sha256(message);
        match recover_key_bytes(digest.as_slice(), sig_bytes.as_slice(), signature.recovery_id) {
            Some(recovered) => Ok(bytes_equal(recovered.as_slice(), key.as_slice())),
            None => Err(ConsensusError::signature_verification_failed("Recovery failed")),
        }
    }
}

/// Whether two byte sequences are equal.
pub fn bytes_equal(a: &[u8], b: &[u8]) -> (r: bool)
    ensures
        r == (a@ == b@),
{
    if a.len() != b.len() {
        return false;
    }
    let mut i: usize = 0;
    while i < a.len()
        invariant
            a@.len() == b@.len(),
            i <= a@.len(),
            a@.subrange(0, i as int) == b@.subrange(0, i as int),
        decreases a@.len() - i,
    {
        if a[i] != b[i] {
            assert(a@[i as int] != b@[i as int]);
            return false;
        }
        assert(a@.subrange(0, i as int + 1) =~= a@.subrange(0, i as int).push(a@[i as int]));
        assert(b@.subrange(0, i as int + 1) =~= b@.subrange(0, i as int).push(b@[i as int]));
        i = i + 1;
    }
    assert(a@ =~= a@.subrange(0, a@.len() as int));
    assert(b@ =~= b@.subrange(0, b@.len() as int));
    true
}

/// Hex text has two characters per byte.
pub proof fn lemma_hex_len(b: Seq<u8>)
    ensures
        hex_of(b).len() == 2 * b.len(),
    decreases b.len(),
{
    if b.len() > 0 {
        lemma_hex_len(b.drop_last());
    }
}

/// A commitment to biometric data that does not reveal it: the hex of its
/// SHA-256 digest.
pub fn hash_biometric_data(data: &[u8]) -> (r: String)
    ensures
        r@ == hex_of(sha256_of(data@)),
{
    let d = sha256(data);
    hex_encode(d.as_slice())
}

/// The sum of scores.
pub open spec fn score_sum(scores: Seq<u8>) -> nat
    decreases scores.len(),
{
    if scores.len() == 0 { 0 } else { score_sum(scores.drop_last()) + scores.last() as nat }
}

/// The sum of squared distances of scores from `avg`.
pub open spec fn squared_spread(scores: Seq<u8>, avg: int) -> nat
    decreases scores.len(),
{
    if scores.len() == 0 {
        0
    } else {
        squared_spread(scores.drop_last(), avg) + ((scores.last() as int - avg) * (scores.last() as int - avg)) as nat
    }
}

/// The consensus strength of scores: their average, rounded down, less a
/// fifth of their standard deviation (both rounded down), at most 20, and at
/// most 100 in all; 0 for no scores.
pub open spec fn consensus_strength_of(scores: Seq<u8>) -> nat {
    if scores.len() == 0 {
        0
    } else {
        let avg = score_sum(scores) / scores.len();
        let sd = crate::staking::isqrt(squared_spread(scores, avg as int) / scores.len());
        let penalty = if sd / 5 > 20 { 20 } else { sd / 5 };
        let r: nat = if avg >= penalty { (avg - penalty) as nat } else { 0 };
        if r > 100 { 100 } else { r }
    }
}

/// Scores and biometric commitments of validators for an epoch, signed.
#[derive(Debug)]
pub struct EmotionalProof {
    /// Validator ids.
    pub validators: Vec<String>,
    /// Emotional score of each validator.
    pub emotional_scores: Vec<(String, u8)>,
    /// Hash of each validator's biometric data.
    pub biometric_hashes: Vec<(String, String)>,
    /// Window the readings cover, in milliseconds.
    pub temporal_window: u64,
    /// Creation time, in milliseconds since the Unix epoch.
    pub timestamp: u64,
    /// Consensus strength of the scores.
    pub consensus_strength: u8,
    /// Hex digest of the proof's contents.
    pub merkle_root: String,
    /// Signature over the proof's contents.
    pub signature: Signature,
}

/// The bytes of a list of texts, each followed by a zero byte.
pub open spec fn texts_bytes(v: Seq<String>) -> Seq<u8>
    decreases v.len(),
{
    if v.len() == 0 { Seq::empty() } else { texts_bytes(v.drop_last()) + utf8_bytes(v.last()@) + seq![0u8] }
}

/// The bytes of scores: each id followed by a zero byte and the score.
pub open spec fn scores_bytes(v: Seq<(String, u8)>) -> Seq<u8>
    decreases v.len(),
{
    if v.len() == 0 {
        Seq::empty()
    } else {
        scores_bytes(v.drop_last()) + utf8_bytes(v.last().0@) + seq![0u8] + seq![v.last().1]
    }
}

/// The bytes of id and hash pairs, each text followed by a zero byte.
pub open spec fn pairs_bytes(v: Seq<(String, String)>) -> Seq<u8>
    decreases v.len(),
{
    if v.len() == 0 {
        Seq::empty()
    } else {
        pairs_bytes(v.drop_last()) + utf8_bytes(v.last().0@) + seq![0u8] + utf8_bytes(v.last().1@) + seq![0u8]
    }
}

/// The bytes an emotional proof's signature and root cover.
pub open spec fn proof_content(validators: Seq<String>, scores: Seq<(String, u8)>, hashes: Seq<(String, String)>,
    temporal_window: u64, timestamp: u64) -> Seq<u8> {
    texts_bytes(validators) + scores_bytes(scores) + pairs_bytes(hashes) + crate::utils::le_bytes(temporal_window)
        + crate::utils::le_bytes(timestamp)
}

/// How long a proof stays fresh, in milliseconds.
pub const PROOF_FRESHNESS_MS: u64 = 300_000;

fn push_text(out: &mut Vec<u8>, s: &String)
    ensures
        final(out)@ == old(out)@ + utf8_bytes(s@) + seq![0u8],
{
    out.extend_from_slice(s.as_str().as_bytes());
    out.push(0u8);
}

impl EmotionalProof {
    /// The consensus strength of the scores.
    pub fn calculate_consensus_strength(scores: &Vec<(String, u8)>) -> (r: u8)
        ensures
            r as nat == consensus_strength_of(Seq::new(scores@.len(), |i: int| scores@[i].1)),
    {
        let ghost v = Seq::new(scores@.len(), |i: int| scores@[i].1);
        let n = scores.len();
        if n == 0 {
            return 0;
        }
        let mut sum: u128 = 0;
        let mut i: usize = 0;
        while i < n
            invariant
                n == scores@.len(),
                v == Seq::new(scores@.len(), |i: int| scores@[i].1),
                i <= n,
                sum as nat == score_sum(v.subrange(0, i as int)),
                sum <= 255 * i,
            decreases n - i,
        {
            proof {
                assert(v.subrange(0, i as int + 1).drop_last() =~= v.subrange(0, i as int));
            }
            sum = sum + scores[i].1 as u128;
            i = i + 1;
        }
        assert(v.subrange(0, n as int) =~= v);
        let avg = sum / (n as u128);
        proof {
            assert(sum / (n as u128) <= 255) by (nonlinear_arith)
                requires sum <= 255 * n, n >= 1;
        }
        let mut spread: u128 = 0;
        let mut j: usize = 0;
        while j < n
            invariant
                n == scores@.len(),
                v == Seq::new(scores@.len(), |i: int| scores@[i].1),
                j <= n,
                avg <= 255,
                spread as nat == squared_spread(v.subrange(0, j as int), avg as int),
                spread <= 65025 * j,
            decreases n - j,
        {
            proof {
                assert(v.subrange(0, j as int + 1).drop_last() =~= v.subrange(0, j as int));
            }
            let s = scores[j].1 as u128;
            let d: u128 = if s >= avg { s - avg } else { avg - s };
            proof {
                assert(d * d <= 65025) by (nonlinear_arith)
                    requires d <= 255;
                assert((s as int - avg as int) * (s as int - avg as int) == d * d) by (nonlinear_arith)
                    requires d == (if s >= avg { s - avg } else { avg - s });
            }
            spread = spread + d * d;
            j = j + 1;
        }
        assert(v.subrange(0, n as int) =~= v);
        let variance = spread / (n as u128);
        proof {
            assert(spread / (n as u128) <= 65025) by (nonlinear_arith)
                requires spread <= 65025 * n, n >= 1;
        }
        let sd = crate::utils::integer_sqrt(variance as u64);
        proof {
            crate::staking::lemma_isqrt_unique(variance as nat, sd as nat);
        }
        let penalty = if sd / 5 > 20 { 20 } else { sd / 5 };
        let avg64 = avg as u64;
        let r: u64 = if avg64 >= penalty { avg64 - penalty } else { 0 };
        if r > 100 { 100 } else { r as u8 }
    }

    fn content_bytes(validators: &Vec<String>, scores: &Vec<(String, u8)>, hashes: &Vec<(String, String)>,
        temporal_window: u64, timestamp: u64) -> (r: Vec<u8>)
        ensures
            r@ == proof_content(validators@, scores@, hashes@, temporal_window, timestamp),
    {
        let mut m: Vec<u8> = Vec::new();
        let mut i: usize = 0;
        while i < validators.len()
            invariant
                i <= validators@.len(),
                m@ == texts_bytes(validators@.subrange(0, i as int)),
            decreases validators@.len() - i,
        {
            assert(validators@.subrange(0, i as int + 1).drop_last() =~= validators@.subrange(0, i as int));
            push_text(&mut m, &validators[i]);
            i = i + 1;
        }
        assert(validators@.subrange(0, validators@.len() as int) =~= validators@);
        let ghost a = m@;
        let mut j: usize = 0;
        while j < scores.len()
            invariant
                j <= scores@.len(),
                m@ == a + scores_bytes(scores@.subrange(0, j as int)),
            decreases scores@.len() - j,
        {
            assert(scores@.subrange(0, j as int + 1).drop_last() =~= scores@.subrange(0, j as int));
            push_text(&mut m, &scores[j].0);
            m.push(scores[j].1);
            assert(m@ =~= a + scores_bytes(scores@.subrange(0, j as int + 1)));
            j = j + 1;
        }
        assert(scores@.subrange(0, scores@.len() as int) =~= scores@);
        let ghost b = m@;
        let mut k: usize = 0;
        while k < hashes.len()
            invariant
                k <= hashes@.len(),
                m@ == b + pairs_bytes(hashes@.subrange(0, k as int)),
            decreases hashes@.len() - k,
        {
            assert(hashes@.subrange(0, k as int + 1).drop_last() =~= hashes@.subrange(0, k as int));
            push_text(&mut m, &hashes[k].0);
            push_text(&mut m, &hashes[k].1);
            assert(m@ =~= b + pairs_bytes(hashes@.subrange(0, k as int + 1)));
            k = k + 1;
        }
        assert(hashes@.subrange(0, hashes@.len() as int) =~= hashes@);
        crate::utils::push_le_bytes(&mut m, temporal_window);
        crate::utils::push_le_bytes(&mut m, timestamp);
        assert(m@ =~= proof_content(validators@, scores@, hashes@, temporal_window, timestamp));
        m
    }

    /// A proof created at `timestamp`, signed by `key_pair`: its consensus
    /// strength is computed from the scores and its root is the hex digest of
    /// its contents.
    pub fn new_at(validators: Vec<String>, emotional_scores: Vec<(String, u8)>, biometric_hashes: Vec<(String, String)>,
        temporal_window: u64, key_pair: &KeyPair, timestamp: u64) -> (r: Result<EmotionalProof, ConsensusError>)
        ensures
            r matches Ok(p) ==> p.timestamp == timestamp && p.temporal_window == temporal_window
                && p.consensus_strength as nat == consensus_strength_of(Seq::new(emotional_scores@.len(), |i: int| emotional_scores@[i].1))
                && p.validators@ == validators@ && p.emotional_scores@ == emotional_scores@
                && p.biometric_hashes@ == biometric_hashes@
                && p.merkle_root@ == hex_of(sha256_of(proof_content(validators@, emotional_scores@, biometric_hashes@,
                    temporal_window, timestamp))),
            key_pair.wf() ==> (r matches Ok(p) && verify_outcome(proof_content(validators@, emotional_scores@,
                biometric_hashes@, temporal_window, timestamp), p.signature.signature@, p.signature.recovery_id,
                key_pair.public_key_text()) == Some(true)),
    {
        let consensus_strength = EmotionalProof::calculate_consensus_strength(&emotional_scores);
        let m = EmotionalProof::content_bytes(&validators, &emotional_scores, &biometric_hashes, temporal_window, timestamp);
        let digest = sha256(m.as_slice());
        let merkle_root = hex_encode(digest.as_slice());
        let signature = match key_pair.sign(m.as_slice()) {
            Ok(s) => s,
            Err(e) => {
                return Err(e);
            },
        };
        Ok(EmotionalProof {
            validators,
            emotional_scores,
            biometric_hashes,
            temporal_window,
            timestamp,
            consensus_strength,
            merkle_root,
            signature,
        })
    }

    /// A proof created now; see `new_at`.
    pub fn new(validators: Vec<String>, emotional_scores: Vec<(String, u8)>, biometric_hashes: Vec<(String, String)>,
        temporal_window: u64, key_pair: &KeyPair) -> (r: Result<EmotionalProof, ConsensusError>)
        ensures
            key_pair.wf() ==> r is Ok,
    {
        EmotionalProof::new_at(validators, emotional_scores, biometric_hashes, temporal_window, key_pair,
            crate::utils::now_millis())
    }

    /// Verifies the proof at `now` against the signer's public key: the
    /// signature is valid, the root matches the contents, the proof is at most
    /// five minutes old, and its consensus strength is within one of the
    /// scores'. A malformed key or signature is an error.
    pub fn verify_at(&self, public_key_hex: &str, now: u64) -> (r: Result<bool, ConsensusError>)
        ensures
            match verify_outcome(proof_content(self.validators@, self.emotional_scores@, self.biometric_hashes@,
                self.temporal_window, self.timestamp), self.signature.signature@, self.signature.recovery_id, public_key_hex@) {
                None => r is Err,
                Some(false) => r == Ok::<bool, ConsensusError>(false),
                Some(true) => r == Ok::<bool, ConsensusError>(
                    self.merkle_root@ == hex_of(sha256_of(proof_content(self.validators@, self.emotional_scores@,
                        self.biometric_hashes@, self.temporal_window, self.timestamp)))
                    && now as int - self.timestamp as int <= PROOF_FRESHNESS_MS
                    && (self.consensus_strength as int - consensus_strength_of(Seq::new(self.emotional_scores@.len(),
                        |i: int| self.emotional_scores@[i].1)) as int) <= 1
                    && (consensus_strength_of(Seq::new(self.emotional_scores@.len(),
                        |i: int| self.emotional_scores@[i].1)) as int - self.consensus_strength as int) <= 1),
            },
    {
        let m = EmotionalProof::content_bytes(&self.validators, &self.emotional_scores, &self.biometric_hashes,
            self.temporal_window, self.timestamp);
        let valid = match KeyPair::verify(m.as_slice(), &self.signature, public_key_hex) {
            Ok(b) => b,
            Err(e) => {
                return Err(e);
            },
        };
        if !valid {
            return Ok(false);
        }
        let digest = sha256(m.as_slice());
        let root = hex_encode(digest.as_slice());
        if !(root == self.merkle_root) {
            return Ok(false);
        }
        if now > self.timestamp && now - self.timestamp > PROOF_FRESHNESS_MS {
            return Ok(false);
        }
        let expected = EmotionalProof::calculate_consensus_strength(&self.emotional_scores);
        let diff: i16 = expected as i16 - self.consensus_strength as i16;
        if diff > 1 || diff < -1 {
            return Ok(false);
        }
        Ok(true)
    }

    /// Verifies the proof now; see `verify_at`.
    pub fn verify(&self, public_key_hex: &str) -> (r: Result<bool, ConsensusError>) {
        self.verify_at(public_key_hex, crate::utils::now_millis())
    }
}

} // verus!

verus! {

/// The bytes of hex text: the character codes of its digits.
pub open spec fn hex_bytes(b: Seq<u8>) -> Seq<u8>
    decreases b.len(),
{
    if b.len() == 0 {
        Seq::empty()
    } else {
        hex_bytes(b.drop_last()) + seq![hex_digit(b.last() as nat / 16) as u8, hex_digit(b.last() as nat % 16) as u8]
    }
}

proof fn lemma_digit_value(n: nat)
    requires
        n < 16,
    ensures
        hex_value(hex_digit(n) as u8) == Some(n as u8),
        '\0' <= hex_digit(n) <= '\u{7f}',
{
}

proof fn lemma_hex_bytes_decode(b: Seq<u8>)
    ensures
        hex_decoded(hex_bytes(b)) == Some(b),
        hex_bytes(b).len() == 2 * b.len(),
    decreases b.len(),
{
    if b.len() > 0 {
        let d = b.drop_last();
        lemma_hex_bytes_decode(d);
        let x = b.last();
        lemma_digit_value(x as nat / 16);
        lemma_digit_value(x as nat % 16);
        let s = hex_bytes(b);
        assert(s.subrange(0, s.len() - 2) =~= hex_bytes(d));
        assert(((x as nat / 16) * 16 + x as nat % 16) as u8 == x);
        assert(d.push(x) =~= b);
    }
}

proof fn lemma_hex_text_bytes(b: Seq<u8>)
    ensures
        utf8_bytes(hex_of(b)) == hex_bytes(b),
        vstd::utf8::is_ascii_chars(hex_of(b)),
    decreases b.len(),
{
    if b.len() > 0 {
        lemma_hex_text_bytes(b.drop_last());
        let x = b.last();
        lemma_digit_value(x as nat / 16);
        lemma_digit_value(x as nat % 16);
        let h = hex_of(b);
        assert(vstd::utf8::is_ascii_chars(h)) by {
            assert forall|i: int| 0 <= i < h.len() implies '\0' <= #[trigger] h[i] <= '\u{7f}' by {
                if i < hex_of(b.drop_last()).len() {
                    assert(h[i] == hex_of(b.drop_last())[i]);
                }
            }
        }
        vstd::utf8::is_ascii_chars_encode_utf8(h);
        lemma_hex_len(b);
        lemma_hex_len(b.drop_last());
        assert(utf8_bytes(h) =~= hex_bytes(b)) by {
            let hp = hex_of(b.drop_last());
            vstd::utf8::is_ascii_chars_encode_utf8(hp);
            assert forall|i: int| 0 <= i < h.len() implies utf8_bytes(h)[i] == hex_bytes(b)[i] by {
                if i < hp.len() {
                    assert(h[i] == hp[i]);
                    assert(utf8_bytes(hp)[i] == hp[i] as u8);
                }
            }
        }
    }
}

/// A signature whose hex verifies also verifies in its compact text form.
pub proof fn lemma_text_outcome(message: Seq<u8>, b: Seq<u8>, recid: u8, key: Seq<char>)
    requires
        b.len() == 64,
        key.len() > 0,
        verify_outcome(message, hex_of(b), recid, key) == Some(true),
    ensures
        text_signature_outcome(message, hex_of(b) + hex_of(seq![recid]), key) == Some(true),
{
    let full = b.push(recid);
    assert(full.drop_last() =~= b);
    assert(seq![recid].drop_last() =~= Seq::<u8>::empty());
    assert(hex_of(Seq::<u8>::empty()) == Seq::<char>::empty());
    assert(seq![recid].last() == recid);
    assert(hex_of(seq![recid]) =~= seq![hex_digit(recid as nat / 16), hex_digit(recid as nat % 16)]);
    assert(hex_of(full) == hex_of(b) + seq![hex_digit(recid as nat / 16), hex_digit(recid as nat % 16)]);
    assert(hex_of(full) =~= hex_of(b) + hex_of(seq![recid]));
    lemma_hex_round_trip(full);
    lemma_hex_len(full);
    assert(full.subrange(0, 64) =~= b);
}

/// Decoding the hex text of bytes gives the bytes back.
pub proof fn lemma_hex_round_trip(b: Seq<u8>)
    ensures
        hex_decoded(utf8_bytes(hex_of(b))) == Some(b),
{
    lemma_hex_text_bytes(b);
    lemma_hex_bytes_decode(b);
}

} // verus!
