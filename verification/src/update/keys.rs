//! The keyring of Ed25519 keys that sign update payloads, identified by
//! key id.

use vstd::prelude::*;

use base64::Engine as _;
use ed25519_dalek::Verifier as _;

use crate::text::{
    lemma_seq_lt_asymmetric, lemma_seq_lt_total, lemma_seq_lt_transitive, seq_lt, str_eq, str_lt,
};

verus! {

// ---------------------------------------------------------------------------
// Outside computations
// ---------------------------------------------------------------------------

/// What the `base64` crate's standard engine decodes `text` to: the bytes,
/// or the text of its `DecodeError`.
pub uninterp spec fn base64_standard(text: Seq<char>) -> Result<Seq<u8>, Seq<char>>;

/// `base64::engine::general_purpose::STANDARD.decode`, the error turned into
/// its text.
#[verifier::external_body]
pub(crate) fn base64_decode(text: &str) -> (r: Result<Vec<u8>, String>)
    ensures
        match r {
            Ok(bytes) => base64_standard(text@) == Ok::<Seq<u8>, Seq<char>>(bytes@),
            Err(e) => base64_standard(text@) == Err::<Seq<u8>, Seq<char>>(e@),
        },
{
    match base64::engine::general_purpose::STANDARD.decode(text) {
        Ok(bytes) => Ok(bytes),
        Err(error) => Err(error.to_string()),
    }
}

/// What ed25519-dalek's `VerifyingKey::from_bytes` makes of 32 bytes: `None`
/// when they are accepted as a public key, else the text of its error.
pub uninterp spec fn ed25519_key_rejection(bytes: Seq<u8>) -> Option<Seq<char>>;

/// `VerifyingKey::from_bytes` on 32 bytes: `None` when it accepts them,
/// else its error's text.
#[verifier::external_body]
fn check_verifying_key(bytes: &[u8]) -> (r: Option<String>)
    requires
        bytes@.len() == 32,
    ensures
        match r {
            None => ed25519_key_rejection(bytes@) is None,
            Some(e) => ed25519_key_rejection(bytes@) == Some(e@),
        },
{
    let array: [u8; 32] = bytes.try_into().unwrap();
    match ed25519_dalek::VerifyingKey::from_bytes(&array) {
        Ok(_) => None,
        Err(error) => Some(error.to_string()),
    }
}

/// Whether the Ed25519 signature `signature` of `message` checks under the
/// public key `key` (ed25519-dalek's `Verifier::verify`).
pub uninterp spec fn ed25519_accepts(key: Seq<u8>, message: Seq<u8>, signature: Seq<u8>) -> bool;

/// ed25519-dalek's `VerifyingKey::verify` of a 64-byte signature, under a
/// key that `VerifyingKey::from_bytes` accepts.
#[verifier::external_body]
fn ed25519_verify(key: &[u8], message: &[u8], signature: &[u8]) -> (r: bool)
    requires
        key@.len() == 32,
        ed25519_key_rejection(key@) is None,
        signature@.len() == 64,
    ensures
        r == ed25519_accepts(key@, message@, signature@),
{
    let key_bytes: [u8; 32] = key.try_into().unwrap();
    let signature_bytes: [u8; 64] = signature.try_into().unwrap();
    match ed25519_dalek::VerifyingKey::from_bytes(&key_bytes) {
        Ok(key) => key.verify(message, &ed25519_dalek::Signature::from_bytes(&signature_bytes)).is_ok(),
        Err(_) => false,
    }
}

/// Text of the error `ed25519::Signature::from_slice` gives for a slice that
/// is not 64 bytes long.
pub open spec fn signature_error_text() -> Seq<char> {
    "signature error"@
}

/// `ed25519::Signature::from_slice`: it accepts exactly the 64-byte slices
/// (and its `to_bytes` gives them back); otherwise its error reads
/// `signature error`.
#[verifier::external_body]
fn signature_from_slice(bytes: &[u8]) -> (r: Result<Vec<u8>, String>)
    ensures
        match r {
            Ok(v) => bytes@.len() == 64 && v@ == bytes@,
            Err(e) => bytes@.len() != 64 && e@ == signature_error_text(),
        },
{
    match ed25519_dalek::Signature::from_slice(bytes) {
        Ok(signature) => Ok(signature.to_bytes().to_vec()),
        Err(error) => Err(error.to_string()),
    }
}

/// The lowercase hexadecimal SHA-256 digest of `bytes` (sha2's `Sha256`,
/// printed with `{:x}`).
pub uninterp spec fn sha256_lower_hex(bytes: Seq<u8>) -> Seq<char>;

/// `Sha256::digest`, printed in lowercase hexadecimal.
#[verifier::external_body]
pub(crate) fn sha256_hex(bytes: &[u8]) -> (r: String)
    ensures
        r@ == sha256_lower_hex(bytes@),
{
    let digest = <sha2::Sha256 as sha2::Digest>::digest(bytes);
    format!("{digest:x}")
}

/// The string-to-string object that serde_json reads from `json`, or the
/// text of its error.
pub uninterp spec fn json_string_object(json: Seq<char>) -> Result<Map<Seq<char>, Seq<char>>, Seq<char>>;

/// The entries as a map from id to text.
pub open spec fn pairs_map(pairs: Seq<(String, String)>) -> Map<Seq<char>, Seq<char>>
    decreases pairs.len(),
{
    if pairs.len() == 0 {
        Map::empty()
    } else {
        pairs_map(pairs.drop_last()).insert(pairs.last().0@, pairs.last().1@)
    }
}

/// No id occurs twice.
pub open spec fn distinct_ids<T>(s: Seq<(String, T)>) -> bool {
    forall|i: int, j: int| 0 <= i < j < s.len() ==> (#[trigger] s[i]).0@ != (#[trigger] s[j]).0@
}

/// `serde_json::from_str` into a `HashMap<String, String>`, its entries
/// handed out in the map's own (unspecified) order.
#[verifier::external_body]
fn parse_string_object(json: &str) -> (r: Result<Vec<(String, String)>, String>)
    ensures
        match r {
            Ok(pairs) => distinct_ids(pairs@) && json_string_object(json@) == Ok::<
                Map<Seq<char>, Seq<char>>,
                Seq<char>,
            >(pairs_map(pairs@)),
            Err(e) => json_string_object(json@) == Err::<Map<Seq<char>, Seq<char>>, Seq<char>>(
                e@,
            ),
        },
{
    match serde_json::from_str::<std::collections::HashMap<String, String>>(json) {
        Ok(map) => Ok(map.into_iter().collect()),
        Err(error) => Err(error.to_string()),
    }
}

// ---------------------------------------------------------------------------
// The keyring
// ---------------------------------------------------------------------------

/// 32 bytes that ed25519-dalek accepts as a public key.
pub open spec fn key_accepted(bytes: Seq<u8>) -> bool {
    bytes.len() == 32 && ed25519_key_rejection(bytes) is None
}

/// A keyring entry's text decodes to an accepted key.
pub open spec fn key_text_ok(text: Seq<char>) -> bool {
    match base64_standard(text) {
        Ok(bytes) => key_accepted(bytes),
        Err(_) => false,
    }
}

/// The key a keyring entry's text decodes to.
pub open spec fn key_text_bytes(text: Seq<char>) -> Seq<u8> {
    match base64_standard(text) {
        Ok(bytes) => bytes,
        Err(_) => Seq::empty(),
    }
}

/// The error for entry `id` whose text is not an accepted key.
pub open spec fn key_error(id: Seq<char>, text: Seq<char>) -> Seq<char> {
    match base64_standard(text) {
        Err(e) => "invalid key "@ + id + ": "@ + e,
        Ok(bytes) => if bytes.len() != 32 {
            "invalid key length for "@ + id
        } else {
            match ed25519_key_rejection(bytes) {
                Some(e) => "invalid key "@ + id + ": "@ + e,
                None => Seq::empty(),
            }
        },
    }
}

/// Whether production update keys are embedded in this build; none are,
/// so the integrated updater stays disabled.
pub const UPDATE_KEYS_CONFIGURED: bool = false;

/// The embedded keyring, in its JSON form: no key.
pub const UPDATE_KEYRING_JSON: &'static str = "{}";

/// Whether production update keys are embedded in this build.
pub fn configured() -> (r: bool)
    ensures
        r == UPDATE_KEYS_CONFIGURED,
{
    UPDATE_KEYS_CONFIGURED
}

/// Signing keys by id.
pub struct KeyRing {
    keys: Vec<(String, Vec<u8>)>,
}

pub open spec fn entries_map(s: Seq<(String, Vec<u8>)>) -> Map<Seq<char>, Seq<u8>>
    decreases s.len(),
{
    if s.len() == 0 {
        Map::empty()
    } else {
        entries_map(s.drop_last()).insert(s.last().0@, s.last().1@)
    }
}

proof fn lemma_entries_map(s: Seq<(String, Vec<u8>)>)
    requires
        distinct_ids(s),
    ensures
        forall|k: int| 0 <= k < s.len() ==> #[trigger] entries_map(s).contains_key(s[k].0@)
            && entries_map(s)[s[k].0@] == s[k].1@,
        forall|id: Seq<char>|
            #[trigger] entries_map(s).contains_key(id) ==> exists|k: int|
                0 <= k < s.len() && s[k].0@ == id,
    decreases s.len(),
{
    if s.len() > 0 {
        let p = s.drop_last();
        assert forall|i: int, j: int| 0 <= i < j < p.len() implies (#[trigger] p[i]).0@ != (
        #[trigger] p[j]).0@ by {
            assert(p[i] == s[i] && p[j] == s[j]);
        }
        lemma_entries_map(p);
        assert forall|k: int| 0 <= k < s.len() implies #[trigger] entries_map(s).contains_key(
            s[k].0@,
        ) && entries_map(s)[s[k].0@] == s[k].1@ by {
            if k < s.len() - 1 {
                assert(p[k] == s[k]);
                assert(entries_map(p).contains_key(p[k].0@));
                assert(s[k].0@ != s[s.len() - 1].0@);
            } else {
                assert(s[k] == s.last());
            }
        }
        assert forall|id: Seq<char>| #[trigger] entries_map(s).contains_key(id) implies exists|
            k: int,
        | 0 <= k < s.len() && s[k].0@ == id by {
            if id != s.last().0@ {
                assert(entries_map(p).contains_key(id));
                let k = choose|k: int| 0 <= k < p.len() && p[k].0@ == id;
                assert(s[k] == p[k]);
            } else {
                assert(s[s.len() - 1].0@ == id);
            }
        }
    }
}

impl Default for KeyRing {
    /// The empty keyring.
    fn default() -> (r: Self)
        ensures
            r@ == Map::<Seq<char>, Seq<u8>>::empty(),
    {
        let ring = KeyRing { keys: Vec::new() };
        assert(ring@ =~= Map::<Seq<char>, Seq<u8>>::empty());
        ring
    }
}

impl View for KeyRing {
    type V = Map<Seq<char>, Seq<u8>>;

    closed spec fn view(&self) -> Map<Seq<char>, Seq<u8>> {
        entries_map(self.keys@)
    }
}

impl KeyRing {
    /// Ids are distinct and every key is accepted by ed25519-dalek.
    #[verifier::type_invariant]
    closed spec fn well_formed(&self) -> bool {
        &&& distinct_ids(self.keys@)
        &&& forall|k: int| 0 <= k < self.keys@.len() ==> key_accepted((#[trigger] self.keys@[k]).1@)
    }

    /// The keyring embedded in this build.
    pub fn embedded() -> (r: Result<Self, String>)
        ensures
            match json_string_object(UPDATE_KEYRING_JSON@) {
                Err(e) => r matches Err(m) && m@ == e,
                Ok(m) => if forall|id: Seq<char>| #[trigger] m.contains_key(id) ==> key_text_ok(m[id]) {
                    r matches Ok(ring) && ring@ == Map::new(
                        |id: Seq<char>| m.contains_key(id),
                        |id: Seq<char>| key_text_bytes(m[id]),
                    )
                } else {
                    r matches Err(_)
                },
            },
    {
        Self::from_json(UPDATE_KEYRING_JSON)
    }

    /// Reads a keyring from its JSON form: an object from key id to the
    /// base64 of a 32-byte Ed25519 public key. A malformed object is an
    /// error with the parser's message; otherwise every entry must decode to
    /// a key ed25519-dalek accepts, and the first entry met that does not
    /// (in the parser's order) gives the error.
    pub fn from_json(json: &str) -> (r: Result<Self, String>)
        ensures
            match json_string_object(json@) {
                Err(e) => r matches Err(m) && m@ == e,
                Ok(m) => if forall|id: Seq<char>| #[trigger] m.contains_key(id) ==> key_text_ok(m[id]) {
                    r matches Ok(ring) && ring@ == Map::new(
                        |id: Seq<char>| m.contains_key(id),
                        |id: Seq<char>| key_text_bytes(m[id]),
                    )
                } else {
                    r matches Err(msg) && exists|id: Seq<char>|
                        #[trigger] m.contains_key(id) && !key_text_ok(m[id]) && msg@ == key_error(
                            id,
                            m[id],
                        )
                },
            },
    {
        let pairs = match parse_string_object(json) {
            Ok(pairs) => pairs,
            Err(e) => return Err(e),
        };
        let ghost m = pairs_map(pairs@);
        let mut keys: Vec<(String, Vec<u8>)> = Vec::new();
        let mut i: usize = 0;
        while i < pairs.len()
            invariant
                i <= pairs@.len(),
                distinct_ids(pairs@),
                m == pairs_map(pairs@),
                json_string_object(json@) == Ok::<Map<Seq<char>, Seq<char>>, Seq<char>>(m),
                keys@.len() == i,
                forall|k: int| 0 <= k < i ==> (#[trigger] keys@[k]).0@ == pairs@[k].0@ && keys@[k].1@
                    == key_text_bytes(pairs@[k].1@) && key_accepted(keys@[k].1@),
                forall|k: int| 0 <= k < i ==> key_text_ok((#[trigger] pairs@[k]).1@),
            decreases pairs@.len() - i,
        {
            let id = &pairs[i].0;
            let value = &pairs[i].1;
            proof {
                lemma_pairs_map(pairs@);
            }
            assert(m.contains_key(pairs@[i as int].0@));
            assert(m[pairs@[i as int].0@] == value@);
            let bytes = match decode_entry(id, value) {
                Ok(bytes) => bytes,
                Err(message) => {
                    proof {
                        lemma_bad_entry(m, pairs@[i as int].0@, message@);
                        assert(json_string_object(json@) is Ok);
                        assert(json_string_object(json@)->Ok_0 == m);
                        assert(!(forall|id: Seq<char>| #[trigger] m.contains_key(id) ==> key_text_ok(m[id])));
                        assert(exists|id: Seq<char>| #[trigger] m.contains_key(id) && !key_text_ok(m[id]) && message@ == key_error(id, m[id]));
                    }
                    return Err(message);
                },
            };
            let entry = (crate::text::copy_string(id), bytes);
            keys.push(entry);
            i = i + 1;
        }
        proof {
            lemma_pairs_map(pairs@);
            assert forall|a: int, b: int| 0 <= a < b < keys@.len() implies (#[trigger] keys@[a]).0@
                != (#[trigger] keys@[b]).0@ by {
                assert(pairs@[a].0@ != pairs@[b].0@);
            }
        }
        let ring = KeyRing { keys };
        proof {
            lemma_entries_map(ring.keys@);
            assert(ring@ =~= Map::new(
                |id: Seq<char>| m.contains_key(id),
                |id: Seq<char>| key_text_bytes(m[id]),
            )) by {
                assert forall|id: Seq<char>| #[trigger] ring@.contains_key(id) implies m.contains_key(id) by {
                    let k = choose|k: int| 0 <= k < ring.keys@.len() && ring.keys@[k].0@ == id;
                    assert(pairs@[k].0@ == id);
                }
                assert forall|id: Seq<char>| #[trigger] m.contains_key(id) implies ring@.contains_key(id)
                    && ring@[id] == key_text_bytes(m[id]) by {
                    let k = choose|k: int| 0 <= k < pairs@.len() && pairs@[k].0@ == id;
                    assert(ring.keys@[k].0@ == id);
                }
            }
            assert forall|id: Seq<char>| #[trigger] m.contains_key(id) implies key_text_ok(m[id]) by {
                let k = choose|k: int| 0 <= k < pairs@.len() && pairs@[k].0@ == id;
                assert(key_text_ok(pairs@[k].1@));
            }
        }
        Ok(ring)
    }

    /// Whether the ring holds no key.
    pub fn is_empty(&self) -> (r: bool)
        ensures
            r == (self@.dom().len() == 0),
    {
        proof {
            use_type_invariant(self);
            lemma_entries_map(self.keys@);
            lemma_entries_map_len(self.keys@);
        }
        self.keys.len() == 0
    }

    /// Checks `signature` (base64) on `payload` with the key `key_id`.
    /// Errors, in the order they are checked: an unknown id, a signature
    /// that is not base64, one that is not 64 bytes long, and a signature
    /// the key rejects.
    pub fn verify(&self, key_id: &str, payload: &[u8], signature: &str) -> (r: Result<(), String>)
        ensures
            match (r, verify_outcome(self@, key_id@, payload@, signature@)) {
                (Ok(()), Ok(())) => true,
                (Err(m), Err(e)) => m@ == e,
                _ => false,
            },
    {
        proof {
            use_type_invariant(self);
            lemma_entries_map(self.keys@);
        }
        let found = self.position(key_id);
        if found.is_none() {
            assert(found is None);
            let mut message = String::from_str("unknown updater key: ");
            message.append(key_id);
            proof {
                if self@.contains_key(key_id@) {
                    let k = choose|k: int| 0 <= k < self.keys@.len() && self.keys@[k].0@ == key_id@;
                    assert(self.keys@[k].0@ != key_id@);
                }
            }
            return Err(message);
        }
        let i = found.unwrap();
        proof {
            assert(self@.contains_key(self.keys@[i as int].0@));
        }
        let bytes = match base64_decode(signature) {
            Ok(bytes) => bytes,
            Err(error) => {
                let mut message = String::from_str("invalid signature encoding: ");
                message.append(error.as_str());
                return Err(message);
            },
        };
        let signature_bytes = match signature_from_slice(bytes.as_slice()) {
            Ok(s) => s,
            Err(error) => {
                let mut message = String::from_str("invalid signature length: ");
                message.append(error.as_str());
                return Err(message);
            },
        };
        let key = &self.keys[i].1;
        assert(key_accepted(key@));
        if ed25519_verify(key.as_slice(), payload, signature_bytes.as_slice()) {
            Ok(())
        } else {
            Err(String::from_str("update signature rejected"))
        }
    }

    /// Each key id with the lowercase hexadecimal SHA-256 of its public key,
    /// ordered by id.
    pub fn fingerprints(&self) -> (r: Vec<(String, String)>)
        ensures
            sorted_by_id(r@),
            forall|k: int| 0 <= k < r@.len() ==> #[trigger] self@.contains_key(r@[k].0@) && r@[k].1@
                == sha256_lower_hex(self@[r@[k].0@]),
            forall|id: Seq<char>| #[trigger] self@.contains_key(id) ==> exists|k: int| 0 <= k < r@.len() && r@[k].0@ == id,
    {
        proof {
            use_type_invariant(self);
            lemma_entries_map(self.keys@);
        }
        let ghost keys = self.keys@;
        let mut out: Vec<(String, String)> = Vec::new();
        let ghost mut src: Seq<int> = Seq::empty();
        let mut i: usize = 0;
        while i < self.keys.len()
            invariant
                i <= keys.len(),
                keys == self.keys@,
                distinct_ids(keys),
                out@.len() == src.len(),
                forall|k: int| 0 <= k < src.len() ==> 0 <= #[trigger] src[k] < i && fingerprint_of(out@[k], keys[src[k]]),
                forall|j: int| 0 <= j < i ==> #[trigger] src.contains(j),
                sorted_by_id(out@),
            decreases keys.len() - i,
        {
            let id = &self.keys[i].0;
            let fingerprint = sha256_hex(self.keys[i].1.as_slice());
            let mut j: usize = 0;
            while j < out.len() && str_lt(out[j].0.as_str(), id.as_str())
                invariant
                    j <= out@.len(),
                    forall|k: int| 0 <= k < j ==> seq_lt((#[trigger] out@[k]).0@, id@),
                decreases out@.len() - j,
            {
                j = j + 1;
            }
            proof {
                lemma_insertion_point(out@, src, keys, i as int, j as int);
            }
            let ghost before = out@;
            let entry = (crate::text::copy_string(id), fingerprint);
            assert(fingerprint_of(entry, keys[i as int]));
            out.insert(j, entry);
            proof {
                lemma_insert_sorted(before, out@, j as int, id@);
                let old_src = src;
                src = src.insert(j as int, i as int);
                assert forall|k: int| 0 <= k < src.len() implies 0 <= #[trigger] src[k] < i + 1 && fingerprint_of(out@[k], keys[src[k]]) by {
                    if k < j {
                        assert(src[k] == old_src[k] && out@[k] == before[k]);
                    } else if k > j {
                        assert(src[k] == old_src[k - 1] && out@[k] == before[k - 1]);
                    }
                }
                assert forall|jj: int| 0 <= jj < i + 1 implies #[trigger] src.contains(jj) by {
                    if jj < i {
                        assert(old_src.contains(jj));
                        let k = choose|k: int| 0 <= k < old_src.len() && old_src[k] == jj;
                        if k < j {
                            assert(src[k] == jj);
                        } else {
                            assert(src[k + 1] == jj);
                        }
                    } else {
                        assert(src[j as int] == jj);
                    }
                }
            }
            i = i + 1;
        }
        proof {
            assert forall|k: int| 0 <= k < out@.len() implies #[trigger] self@.contains_key(out@[k].0@) && out@[k].1@
                == sha256_lower_hex(self@[out@[k].0@]) by {
                assert(fingerprint_of(out@[k], keys[src[k]]));
                assert(self@.contains_key(keys[src[k]].0@));
            }
            assert forall|id: Seq<char>| #[trigger] self@.contains_key(id) implies exists|k: int| 0 <= k < out@.len() && out@[k].0@ == id by {
                let jj = choose|jj: int| 0 <= jj < keys.len() && keys[jj].0@ == id;
                assert(src.contains(jj));
                let k = choose|k: int| 0 <= k < src.len() && src[k] == jj;
                assert(fingerprint_of(out@[k], keys[src[k]]));
            }
        }
        out
    }

    /// The index of the entry holding `key_id`.
    fn position(&self, key_id: &str) -> (r: Option<usize>)
        ensures
            match r {
                Some(i) => i < self.keys@.len() && self.keys@[i as int].0@ == key_id@,
                None => forall|k: int| 0 <= k < self.keys@.len() ==> (#[trigger] self.keys@[k]).0@ != key_id@,
            },
    {
        let mut i: usize = 0;
        while i < self.keys.len()
            invariant
                i <= self.keys@.len(),
                forall|k: int| 0 <= k < i ==> (#[trigger] self.keys@[k]).0@ != key_id@,
            decreases self.keys@.len() - i,
        {
            if str_eq(self.keys[i].0.as_str(), key_id) {
                return Some(i);
            }
            i = i + 1;
        }
        None
    }
}

/// Decodes one keyring entry (see [`key_error`]).
fn decode_entry(id: &String, value: &String) -> (r: Result<Vec<u8>, String>)
    ensures
        match r {
            Ok(bytes) => key_text_ok(value@) && bytes@ == key_text_bytes(value@),
            Err(message) => !key_text_ok(value@) && message@ == key_error(id@, value@),
        },
{
    let bytes = match base64_decode(value.as_str()) {
        Ok(bytes) => bytes,
        Err(error) => {
            let mut message = String::from_str("invalid key ");
            message.append(id.as_str());
            message.append(": ");
            message.append(error.as_str());
            return Err(message);
        },
    };
    if bytes.len() != 32 {
        let mut message = String::from_str("invalid key length for ");
        message.append(id.as_str());
        return Err(message);
    }
    match check_verifying_key(bytes.as_slice()) {
        Some(error) => {
            let mut message = String::from_str("invalid key ");
            message.append(id.as_str());
            message.append(": ");
            message.append(error.as_str());
            Err(message)
        },
        None => Ok(bytes),
    }
}

/// Entries strictly ordered by id.
pub open spec fn sorted_by_id(s: Seq<(String, String)>) -> bool {
    forall|a: int, b: int| 0 <= a < b < s.len() ==> seq_lt((#[trigger] s[a]).0@, (#[trigger] s[b]).0@)
}

/// `entry` is the fingerprint line of `key`.
pub open spec fn fingerprint_of(entry: (String, String), key: (String, Vec<u8>)) -> bool {
    entry.0@ == key.0@ && entry.1@ == sha256_lower_hex(key.1@)
}

proof fn lemma_insertion_point(
    out: Seq<(String, String)>,
    src: Seq<int>,
    keys: Seq<(String, Vec<u8>)>,
    i: int,
    j: int,
)
    requires
        0 <= i < keys.len(),
        0 <= j <= out.len(),
        distinct_ids(keys),
        out.len() == src.len(),
        forall|k: int| 0 <= k < src.len() ==> 0 <= #[trigger] src[k] < i && fingerprint_of(out[k], keys[src[k]]),
        sorted_by_id(out),
        forall|k: int| 0 <= k < j ==> seq_lt((#[trigger] out[k]).0@, keys[i].0@),
        j < out.len() ==> !seq_lt(out[j].0@, keys[i].0@),
    ensures
        forall|k: int| j <= k < out.len() ==> seq_lt(keys[i].0@, (#[trigger] out[k]).0@),
{
    assert forall|k: int| j <= k < out.len() implies seq_lt(keys[i].0@, (#[trigger] out[k]).0@) by {
        assert(fingerprint_of(out[j], keys[src[j]]));
        assert(keys[src[j]].0@ != keys[i].0@);
        lemma_seq_lt_total(keys[i].0@, out[j].0@);
        if k > j {
            assert(seq_lt(out[j].0@, out[k].0@));
            lemma_seq_lt_transitive(keys[i].0@, out[j].0@, out[k].0@);
        }
    }
}

proof fn lemma_insert_sorted(
    before: Seq<(String, String)>,
    after: Seq<(String, String)>,
    j: int,
    id: Seq<char>,
)
    requires
        0 <= j <= before.len(),
        after.len() == before.len() + 1,
        after[j].0@ == id,
        forall|k: int| 0 <= k < j ==> after[k] == before[k],
        forall|k: int| j < k < after.len() ==> after[k] == before[k - 1],
        sorted_by_id(before),
        forall|k: int| 0 <= k < j ==> seq_lt((#[trigger] before[k]).0@, id),
        forall|k: int| j <= k < before.len() ==> seq_lt(id, (#[trigger] before[k]).0@),
    ensures
        sorted_by_id(after),
{
    assert forall|a: int, b: int| 0 <= a < b < after.len() implies seq_lt(
        (#[trigger] after[a]).0@,
        (#[trigger] after[b]).0@,
    ) by {
        if a < j && b == j {
            assert(after[a] == before[a]);
        } else if a < j && b > j {
            assert(after[a] == before[a] && after[b] == before[b - 1]);
            lemma_seq_lt_transitive(before[a].0@, id, before[b - 1].0@);
        } else if a == j {
            assert(after[b] == before[b - 1]);
        } else if a > j {
            assert(after[a] == before[a - 1] && after[b] == before[b - 1]);
        } else {
            assert(after[a] == before[a] && after[b] == before[b]);
        }
    }
}

proof fn lemma_bad_entry(m: Map<Seq<char>, Seq<char>>, kid: Seq<char>, msg: Seq<char>)
    requires
        m.contains_key(kid),
        !key_text_ok(m[kid]),
        msg == key_error(kid, m[kid]),
    ensures
        !(forall|id: Seq<char>| #[trigger] m.contains_key(id) ==> key_text_ok(m[id])),
        exists|id: Seq<char>|
            #[trigger] m.contains_key(id) && !key_text_ok(m[id]) && msg == key_error(id, m[id]),
{
}

proof fn lemma_pairs_map(s: Seq<(String, String)>)
    requires
        distinct_ids(s),
    ensures
        forall|k: int| 0 <= k < s.len() ==> #[trigger] pairs_map(s).contains_key(s[k].0@)
            && pairs_map(s)[s[k].0@] == s[k].1@,
        forall|id: Seq<char>|
            #[trigger] pairs_map(s).contains_key(id) ==> exists|k: int|
                0 <= k < s.len() && s[k].0@ == id,
    decreases s.len(),
{
    if s.len() > 0 {
        let p = s.drop_last();
        assert forall|i: int, j: int| 0 <= i < j < p.len() implies (#[trigger] p[i]).0@ != (
        #[trigger] p[j]).0@ by {
            assert(p[i] == s[i] && p[j] == s[j]);
        }
        lemma_pairs_map(p);
        assert forall|k: int| 0 <= k < s.len() implies #[trigger] pairs_map(s).contains_key(
            s[k].0@,
        ) && pairs_map(s)[s[k].0@] == s[k].1@ by {
            if k < s.len() - 1 {
                assert(p[k] == s[k]);
                assert(pairs_map(p).contains_key(p[k].0@));
                assert(s[k].0@ != s[s.len() - 1].0@);
            } else {
                assert(s[k] == s.last());
            }
        }
        assert forall|id: Seq<char>| #[trigger] pairs_map(s).contains_key(id) implies exists|
            k: int,
        | 0 <= k < s.len() && s[k].0@ == id by {
            if id != s.last().0@ {
                assert(pairs_map(p).contains_key(id));
                let k = choose|k: int| 0 <= k < p.len() && p[k].0@ == id;
                assert(s[k] == p[k]);
            } else {
                assert(s[s.len() - 1].0@ == id);
            }
        }
    }
}

proof fn lemma_entries_map_len(s: Seq<(String, Vec<u8>)>)
    requires
        distinct_ids(s),
    ensures
        entries_map(s).dom().len() == s.len(),
        entries_map(s).dom().finite(),
    decreases s.len(),
{
    if s.len() > 0 {
        let p = s.drop_last();
        assert forall|i: int, j: int| 0 <= i < j < p.len() implies (#[trigger] p[i]).0@ != (
        #[trigger] p[j]).0@ by {
            assert(p[i] == s[i] && p[j] == s[j]);
        }
        lemma_entries_map_len(p);
        lemma_entries_map(p);
        if entries_map(p).contains_key(s.last().0@) {
            let k = choose|k: int| 0 <= k < p.len() && p[k].0@ == s.last().0@;
            assert(s[k].0@ != s[s.len() - 1].0@);
        }
    }
}

/// What checking a signature gives (see [`KeyRing::verify`]).
pub open spec fn verify_outcome(
    ring: Map<Seq<char>, Seq<u8>>,
    key_id: Seq<char>,
    payload: Seq<u8>,
    signature: Seq<char>,
) -> Result<(), Seq<char>> {
    if !ring.contains_key(key_id) {
        Err("unknown updater key: "@ + key_id)
    } else {
        match base64_standard(signature) {
            Err(e) => Err("invalid signature encoding: "@ + e),
            Ok(bytes) => if bytes.len() != 64 {
                Err("invalid signature length: "@ + signature_error_text())
            } else if ed25519_accepts(ring[key_id], payload, bytes) {
                Ok(())
            } else {
                Err("update signature rejected"@)
            },
        }
    }
}

} // verus!
