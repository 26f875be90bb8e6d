//! Key lifecycle and authenticated encryption of payloads, configuration and
//! strings.
//!
//! The manager owns one optional master key and a set of per-device keys,
//! every key holding exactly 32 bytes of material. Ciphertext envelopes are
//! self-describing: what decryption returns is pinned down by
//! `decrypt_payload_spec` / `decrypt_config_spec` / `decrypt_string_spec`,
//! pure functions of the manager's keys and the envelope, and encryption
//! promises that decrypting its result yields the plaintext back.

use vstd::prelude::*;
use vstd::utf8::{decode_utf8, encode_utf8, valid_utf8};
use crate::clock::now_rfc3339;
use crate::codec::{
    decode_config, decode_key, decode_payload, encode_config, encode_key, encode_payload,
    config_bytes, config_fits, key_bytes, key_fits, parse_config, parse_key, parse_payload,
    payload_bytes, payload_fits,
};
use crate::crypto::{
    aead_open, aead_seal, aead_unseal, b64_decode, b64_encode, b64_of, b64_parse, random_bytes,
    sha256, sha256_of, string_from_utf8,
};
use crate::error::Error;
use crate::models::{ClipboardPayload, ConfigView, EncryptedData, EncryptionKey, KeyView,
    PayloadView, SyncConfig};

verus! {

broadcast use vstd::utf8::encode_utf8_valid_utf8, vstd::utf8::encode_utf8_decode_utf8;

/// The number of hashing rounds the key derivation performs.
pub const KDF_ROUNDS: u32 = 10000;

/// One re-hashing round: the digest of the previous digest with the password
/// mixed back in.
pub open spec fn kdf_round(prev: Seq<u8>, pw: Seq<u8>) -> Seq<u8> {
    sha256_of(prev + pw)
}

/// `n` re-hashing rounds applied to a seed digest.
pub open spec fn kdf_iter(seed: Seq<u8>, pw: Seq<u8>, n: nat) -> Seq<u8>
    decreases n,
{
    if n == 0 {
        seed
    } else {
        kdf_round(kdf_iter(seed, pw, (n - 1) as nat), pw)
    }
}

/// The derived 256-bit master key material: the salted digest of the
/// password, re-hashed `KDF_ROUNDS` times with the password mixed in.
pub open spec fn derive_spec(password: Seq<char>, salt: Seq<char>) -> Seq<u8> {
    kdf_iter(
        sha256_of(encode_utf8(password) + encode_utf8(salt)),
        encode_utf8(password),
        KDF_ROUNDS as nat,
    )
}

/// The key id under which a device's key is filed.
pub open spec fn device_key_id(device_id: Seq<char>) -> Seq<char> {
    "device_"@ + device_id
}

/// Whether a key id names a device key.
pub open spec fn is_device_key_id(key_id: Seq<char>) -> bool {
    key_id.len() >= 7 && key_id.subrange(0, 7) == "device_"@
}

/// The first key in `entries` filed under `id`, if any.
pub open spec fn lookup_key(entries: Seq<(String, EncryptionKey)>, id: Seq<char>) -> Option<
    KeyView,
>
    decreases entries.len(),
{
    if entries.len() == 0 {
        None
    } else if entries[0].0@ == id {
        Some(entries[0].1@)
    } else {
        lookup_key(entries.skip(1), id)
    }
}

/// Owns all key material: one optional master key and one key per device.
/// Key material never leaves the manager except through `export_key`.
pub struct EncryptionManager {
    master_key: Option<EncryptionKey>,
    device_keys: Vec<(String, EncryptionKey)>,
}

impl EncryptionManager {
    /// Well-formedness: every key holds exactly 32 bytes, the master key is
    /// filed as `master`, each device entry is filed under its device id,
    /// and device ids are unique.
    pub closed spec fn wf(&self) -> bool {
        &&& match self.master_key {
            Some(k) => k.key_data@.len() == 32 && k.key_id@ == "master"@,
            None => true,
        }
        &&& forall|i: int|
            0 <= i < self.device_keys@.len() ==> (#[trigger] self.device_keys@[i]).1.key_data@.len()
                == 32
        &&& forall|i: int|
            0 <= i < self.device_keys@.len() ==> (#[trigger] self.device_keys@[i]).1.key_id@
                == device_key_id(self.device_keys@[i].0@)
        &&& forall|i: int, j: int|
            0 <= i < j < self.device_keys@.len() ==> (#[trigger] self.device_keys@[i]).0@ != (
            #[trigger] self.device_keys@[j]).0@
    }

    /// The device-key entries, as filed.
    pub closed spec fn spec_devices(&self) -> Seq<(String, EncryptionKey)> {
        self.device_keys@
    }

    /// The master key's view, if one is installed.
    pub closed spec fn spec_master(&self) -> Option<KeyView> {
        match self.master_key {
            Some(k) => Some(k@),
            None => None,
        }
    }

    /// The device key filed under `device_id`, if any.
    pub closed spec fn spec_device_key(&self, device_id: Seq<char>) -> Option<KeyView> {
        lookup_key(self.device_keys@, device_id)
    }

    /// The key a self-describing envelope's `key_id` selects: the master key
    /// for `master`, a device key for `device_{id}`, nothing otherwise.
    pub closed spec fn key_for(&self, key_id: Seq<char>) -> Option<KeyView> {
        if key_id == "master"@ {
            self.spec_master()
        } else if is_device_key_id(key_id) {
            self.spec_device_key(key_id.skip(7))
        } else {
            None
        }
    }

    /// A manager with no key material.
    pub fn new() -> (r: EncryptionManager)
        ensures
            r.wf(),
            r.spec_master() is None,
            r.spec_devices().len() == 0,
    {
        EncryptionManager { master_key: None, device_keys: Vec::new() }
    }

    /// Drops the master key and every device key.
    pub fn clear_keys(&mut self)
        ensures
            final(self).wf(),
            final(self).spec_master() is None,
            final(self).spec_devices().len() == 0,
    {
        self.master_key = None;
        self.device_keys.clear();
    }

    /// Derives the 256-bit master key material from a password and salt by
    /// salted hashing followed by `KDF_ROUNDS` re-hashing rounds.
    pub fn derive_key_from_password(&self, password: &str, salt: &str) -> (r: Vec<u8>)
        ensures
            r@ == derive_spec(password@, salt@),
            r@.len() == 32,
    {
        let pw_bytes = password.as_bytes_vec();
        let salt_bytes = salt.as_bytes_vec();
        let mut seed_input: Vec<u8> = Vec::new();
        seed_input.extend_from_slice(pw_bytes.as_slice());
        seed_input.extend_from_slice(salt_bytes.as_slice());
        assert(seed_input@ =~= encode_utf8(password@) + encode_utf8(salt@));
        let mut cur = sha256(seed_input.as_slice());
        let ghost seed = cur@;
        let mut round: u32 = 0;
        while round < KDF_ROUNDS
            invariant
                round <= KDF_ROUNDS,
                pw_bytes@ == encode_utf8(password@),
                cur@ == kdf_iter(seed, pw_bytes@, round as nat),
                cur@.len() == 32,
                derive_spec(password@, salt@) == kdf_iter(seed, pw_bytes@, KDF_ROUNDS as nat),
            decreases KDF_ROUNDS - round,
        {
            let mut input: Vec<u8> = Vec::new();
            input.extend_from_slice(cur.as_slice());
            input.extend_from_slice(pw_bytes.as_slice());
            assert(input@ =~= cur@ + pw_bytes@);
            cur = sha256(input.as_slice());
            round = round + 1;
        }
        cur
    }

    /// Installs the master key derived from `password` and `salt`. Device
    /// keys are untouched. Master keys derived from the same password and
    /// salt hold the same material.
    pub fn initialize_master_key(&mut self, password: &str, salt: &str) -> (r: Result<(), Error>)
        requires
            old(self).wf(),
        ensures
            r is Ok,
            final(self).wf(),
            match final(self).spec_master() {
                Some(k) => k.key_data == derive_spec(password@, salt@) && k.key_id == "master"@,
                None => false,
            },
            final(self).spec_devices() == old(self).spec_devices(),
    {
        let key_data = self.derive_key_from_password(password, salt);
        let key = EncryptionKey {
            key_id: String::from_str("master"),
            key_data,
            created_at: now_rfc3339(),
            algorithm: String::from_str("AES-256-GCM"),
        };
        self.master_key = Some(key);
        Ok(())
    }

    /// Looks a key up by its id, as a self-describing envelope does.
    pub fn get_key_by_id(&self, key_id: &str) -> (r: Option<&EncryptionKey>)
        ensures
            match r {
                Some(k) => self.key_for(key_id@) == Some(k@) && (self.wf()
                    ==> k.key_data@.len() == 32 && k.key_id@ == key_id@),
                None => self.key_for(key_id@) is None,
            },
    {
        if crate::models::str_eq(key_id, "master") {
            match &self.master_key {
                Some(k) => Some(k),
                None => None,
            }
        } else {
            let n = key_id.unicode_len();
            if n >= 7 {
                let head = key_id.substring_char(0, 7);
                if crate::models::str_eq(head, "device_") {
                    let device_id = key_id.substring_char(7, n);
                    assert(device_id@ =~= key_id@.skip(7));
                    let found = self.find_device_key(device_id);
                    proof {
                        if let Some(k) = found {
                            if self.wf() {
                                assert(device_key_id(device_id@) =~= key_id@);
                            }
                        }
                    }
                    found
                } else {
                    assert(!is_device_key_id(key_id@));
                    None
                }
            } else {
                assert(!is_device_key_id(key_id@));
                None
            }
        }
    }

    /// The installed master key, or the error encryption reports without one.
    pub fn get_encryption_key(&self) -> (r: Result<&EncryptionKey, Error>)
        ensures
            match r {
                Ok(k) => self.spec_master() == Some(k@),
                Err(e) => self.spec_master() is None && e is EncryptionFailed,
            },
    {
        match &self.master_key {
            Some(k) => Ok(k),
            None => Err(
                Error::EncryptionFailed(String::from_str("No encryption key available")),
            ),
        }
    }

    /// Scans the device-key entries for `device_id`.
    fn find_device_key(&self, device_id: &str) -> (r: Option<&EncryptionKey>)
        ensures
            match r {
                Some(k) => self.spec_device_key(device_id@) == Some(k@) && exists|i: int|
                    0 <= i < self.spec_devices().len() && (#[trigger] self.spec_devices()[i]).1@
                        == k@ && self.spec_devices()[i].0@ == device_id@,
                None => self.spec_device_key(device_id@) is None,
            },
    {
        let mut i: usize = 0;
        assert(self.device_keys@.skip(0) =~= self.device_keys@);
        while i < self.device_keys.len()
            invariant
                i <= self.device_keys@.len(),
                lookup_key(self.device_keys@, device_id@) == lookup_key(
                    self.device_keys@.skip(i as int),
                    device_id@,
                ),
            decreases self.device_keys@.len() - i,
        {
            let entry = &self.device_keys[i];
            assert(self.device_keys@.skip(i as int)[0] == self.device_keys@[i as int]);
            if crate::models::str_eq(entry.0.as_str(), device_id) {
                assert(0 <= i < self.spec_devices().len() && self.spec_devices()[i as int].1@
                    == entry.1@ && self.spec_devices()[i as int].0@ == device_id@);
                return Some(&entry.1);
            }
            proof {
                assert(self.device_keys@.skip(i as int).skip(1) =~= self.device_keys@.skip(
                    i as int + 1,
                ));
            }
            i = i + 1;
        }
        None
    }

    /// Generates a fresh random 256-bit key for a device and files it under
    /// that device's id, replacing any previous key for the same device.
    /// Other devices' keys and the master key are untouched.
    pub fn generate_device_key(&mut self, device_id: &str) -> (r: Result<EncryptionKey, Error>)
        requires
            old(self).wf(),
        ensures
            final(self).wf(),
            final(self).spec_master() == old(self).spec_master(),
            match r {
                Ok(k) => {
                    &&& k.key_data@.len() == 32
                    &&& k.key_id@ == device_key_id(device_id@)
                    &&& final(self).spec_device_key(device_id@) == Some(k@)
                    &&& forall|id: Seq<char>|
                        id != device_id@ ==> #[trigger] final(self).spec_device_key(id) == old(self).spec_device_key(id)
                },
                Err(_) => false,
            },
    {
        let key_data = random_bytes(32);
        let prefix = String::from_str("device_");
        let key_id = prefix.concat(device_id);
        let key = EncryptionKey {
            key_id,
            key_data,
            created_at: now_rfc3339(),
            algorithm: String::from_str("AES-256-GCM"),
        };
        let copy = key.duplicate();
        self.set_device_key(device_id, key);
        Ok(copy)
    }

    /// Replaces a device's key with fresh material; ciphertexts sealed under
    /// the old key stop decrypting through this manager.
    pub fn rotate_device_key(&mut self, device_id: &str) -> (r: Result<EncryptionKey, Error>)
        requires
            old(self).wf(),
        ensures
            final(self).wf(),
            final(self).spec_master() == old(self).spec_master(),
            match r {
                Ok(k) => {
                    &&& k.key_data@.len() == 32
                    &&& k.key_id@ == device_key_id(device_id@)
                    &&& final(self).spec_device_key(device_id@) == Some(k@)
                    &&& forall|id: Seq<char>|
                        id != device_id@ ==> #[trigger] final(self).spec_device_key(id) == old(self).spec_device_key(id)
                },
                Err(_) => false,
            },
    {
        self.generate_device_key(device_id)
    }

    /// The position of `device_id` among the device-key entries, if filed.
    fn find_device_index(&self, device_id: &str) -> (r: Option<usize>)
        ensures
            match r {
                Some(i) => {
                    &&& i < self.spec_devices().len()
                    &&& self.spec_devices()[i as int].0@ == device_id@
                    &&& forall|j: int|
                        0 <= j < i ==> (#[trigger] self.spec_devices()[j]).0@ != device_id@
                },
                None => forall|j: int|
                    0 <= j < self.spec_devices().len() ==> (#[trigger] self.spec_devices()[j]).0@
                        != device_id@,
            },
    {
        let mut i: usize = 0;
        while i < self.device_keys.len()
            invariant
                i <= self.device_keys@.len(),
                forall|j: int| 0 <= j < i ==> (#[trigger] self.device_keys@[j]).0@ != device_id@,
            decreases self.device_keys@.len() - i,
        {
            if crate::models::str_eq(self.device_keys[i].0.as_str(), device_id) {
                return Some(i);
            }
            i = i + 1;
        }
        None
    }

    /// Files `key` under `device_id`, replacing an existing entry in place.
    fn set_device_key(&mut self, device_id: &str, key: EncryptionKey)
        requires
            old(self).wf(),
            key.key_data@.len() == 32,
            key.key_id@ == device_key_id(device_id@),
        ensures
            final(self).wf(),
            final(self).spec_master() == old(self).spec_master(),
            final(self).spec_device_key(device_id@) == Some(key@),
            forall|id: Seq<char>|
                id != device_id@ ==> #[trigger] final(self).spec_device_key(id) == old(self).spec_device_key(id),
    {
        let ghost entries0 = self.device_keys@;
        let id_string = String::from_str(device_id);
        let ghost idv = id_string@;
        let ghost kv = key@;
        match self.find_device_index(device_id) {
            Some(i) => {
                proof {
                    assert(forall|j: int|
                        0 <= j < i ==> (#[trigger] entries0[j]).0@ != device_id@);
                    assert(entries0[i as int].0@ == device_id@);
                }
                self.device_keys.remove(i);
                self.device_keys.insert(i, (id_string, key));
                proof {
                    let e = self.device_keys@[i as int];
                    assert(self.device_keys@ =~= entries0.update(i as int, e));
                    assert(e.0@ == device_id@);
                    assert(e.1@ == kv);
                    assert(e.1.key_data@.len() == 32);
                    assert(e.1.key_id@ == device_key_id(e.0@));
                    lemma_lookup_update(entries0, i as int, e);
                    let entries1 = self.device_keys@;
                    assert(forall|j: int|
                        0 <= j < entries1.len() ==> (#[trigger] entries1[j]).0@ == entries0[j].0@);
                    assert forall|j: int|
                        0 <= j < entries1.len() implies (#[trigger] entries1[j]).1.key_data@.len()
                        == 32 && entries1[j].1.key_id@ == device_key_id(entries1[j].0@) by {
                        if j != i {
                            assert(entries1[j] == entries0[j]);
                        }
                    }
                }
            },
            None => {
                proof {
                    assert(self.spec_devices() == entries0);
                    assert forall|j: int|
                        0 <= j < entries0.len() implies (#[trigger] entries0[j]).0@
                        != device_id@ by {
                        assert(self.spec_devices()[j] == entries0[j]);
                    }
                }
                self.device_keys.push((id_string, key));
                proof {
                    let e = self.device_keys@[entries0.len() as int];
                    assert(self.device_keys@ =~= entries0.push(e));
                    assert(e.0@ == device_id@);
                    assert(e.1@ == kv);
                    assert(e.1.key_data@.len() == 32);
                    assert(e.1.key_id@ == device_key_id(e.0@));
                    lemma_lookup_push(entries0, e);
                    let entries1 = self.device_keys@;
                    assert forall|j: int|
                        0 <= j < entries1.len() implies (#[trigger] entries1[j]).1.key_data@.len()
                        == 32 && entries1[j].1.key_id@ == device_key_id(entries1[j].0@) by {
                        if j < entries0.len() {
                            assert(entries1[j] == entries0[j]);
                        }
                    }
                }
            },
        }
    }
}

/// Updating the entry at `i` to one filed under the same id changes lookup
/// only for that id, provided no earlier entry shadows it.
pub proof fn lemma_lookup_update(entries: Seq<(String, EncryptionKey)>, i: int, e: (
    String,
    EncryptionKey,
))
    requires
        0 <= i < entries.len(),
        forall|j: int| 0 <= j < i ==> (#[trigger] entries[j]).0@ != e.0@,
        entries[i].0@ == e.0@,
    ensures
        lookup_key(entries.update(i, e), e.0@) == Some(e.1@),
        forall|id: Seq<char>|
            id != e.0@ ==> #[trigger] lookup_key(entries.update(i, e), id) == lookup_key(
                entries,
                id,
            ),
    decreases i,
{
    if i == 0 {
        assert(entries.update(0, e)[0] == e);
        assert forall|id: Seq<char>| id != e.0@ implies #[trigger] lookup_key(
            entries.update(0, e),
            id,
        ) == lookup_key(entries, id) by {
            assert(entries.update(0, e).skip(1) =~= entries.skip(1));
            assert(lookup_key(entries.update(0, e), id) == lookup_key(
                entries.update(0, e).skip(1),
                id,
            ));
            assert(lookup_key(entries, id) == lookup_key(entries.skip(1), id));
        }
    } else {
        let tail = entries.skip(1);
        assert(entries.update(i, e).skip(1) =~= tail.update(i - 1, e));
        assert(entries.update(i, e)[0] == entries[0]);
        assert(forall|j: int| 0 <= j < i - 1 ==> (#[trigger] tail[j]).0@ != e.0@);
        lemma_lookup_update(tail, i - 1, e);
        assert(entries[0].0@ != e.0@);
        assert(lookup_key(entries.update(i, e), e.0@) == lookup_key(tail.update(i - 1, e), e.0@));
        assert forall|id: Seq<char>| id != e.0@ implies #[trigger] lookup_key(
            entries.update(i, e),
            id,
        ) == lookup_key(entries, id) by {
            if entries[0].0@ == id {
                assert(lookup_key(entries.update(i, e), id) == Some(entries[0].1@));
                assert(lookup_key(entries, id) == Some(entries[0].1@));
            } else {
                assert(lookup_key(entries.update(i, e), id) == lookup_key(
                    tail.update(i - 1, e),
                    id,
                ));
                assert(lookup_key(entries, id) == lookup_key(tail, id));
            }
        }
    }
}

/// Appending an entry filed under a new id adds exactly that entry to the
/// lookup.
pub proof fn lemma_lookup_push(entries: Seq<(String, EncryptionKey)>, e: (String, EncryptionKey))
    requires
        forall|j: int| 0 <= j < entries.len() ==> (#[trigger] entries[j]).0@ != e.0@,
    ensures
        lookup_key(entries.push(e), e.0@) == Some(e.1@),
        forall|id: Seq<char>|
            id != e.0@ ==> #[trigger] lookup_key(entries.push(e), id) == lookup_key(entries, id),
    decreases entries.len(),
{
    if entries.len() == 0 {
        assert(entries.push(e)[0] == e);
        assert forall|id: Seq<char>| id != e.0@ implies #[trigger] lookup_key(
            entries.push(e),
            id,
        ) == lookup_key(entries, id) by {
            assert(entries.push(e).skip(1) =~= entries);
            assert(lookup_key(entries.push(e), id) == lookup_key(entries.push(e).skip(1), id));
        }
    } else {
        let tail = entries.skip(1);
        assert(entries.push(e)[0] == entries[0]);
        assert(entries.push(e).skip(1) =~= tail.push(e));
        assert(entries[0].0@ != e.0@);
        lemma_lookup_push(tail, e);
        assert(lookup_key(entries.push(e), e.0@) == lookup_key(tail.push(e), e.0@));
        assert forall|id: Seq<char>| id != e.0@ implies #[trigger] lookup_key(
            entries.push(e),
            id,
        ) == lookup_key(entries, id) by {
            if entries[0].0@ == id {
                assert(lookup_key(entries.push(e), id) == Some(entries[0].1@));
                assert(lookup_key(entries, id) == Some(entries[0].1@));
            } else {
                assert(lookup_key(entries.push(e), id) == lookup_key(tail.push(e), id));
                assert(lookup_key(entries, id) == lookup_key(tail, id));
            }
        }
    }
}


// ==================== what decryption returns ====================

/// The export of a key: the parsed key record behind the base64 transport
/// encoding, if both layers parse.
pub open spec fn parsed_export(s: Seq<char>) -> Option<KeyView> {
    match b64_parse(s) {
        None => None,
        Some(b) => parse_key(b),
    }
}

/// What decrypting a payload envelope under `m`'s keys returns: the payload
/// framed inside the ciphertext, or nothing if the key is unknown, the
/// transport encoding or nonce is malformed, authentication fails, or the
/// plaintext does not parse.
pub open spec fn decrypt_payload_spec(m: &EncryptionManager, ed: crate::models::EncryptedView)
    -> Option<PayloadView> {
    match m.key_for(ed.key_id) {
        None => None,
        Some(k) => match b64_parse(ed.nonce) {
            None => None,
            Some(n) => if n.len() != 12 {
                None
            } else {
                match b64_parse(ed.data) {
                    None => None,
                    Some(ct) => match aead_open(k.key_data, n, ct) {
                        None => None,
                        Some(pt) => parse_payload(pt),
                    },
                }
            },
        },
    }
}

/// What decrypting a configuration envelope under `m`'s keys returns.
pub open spec fn decrypt_config_spec(m: &EncryptionManager, ed: crate::models::EncryptedView)
    -> Option<ConfigView> {
    match m.key_for(ed.key_id) {
        None => None,
        Some(k) => match b64_parse(ed.nonce) {
            None => None,
            Some(n) => if n.len() != 12 {
                None
            } else {
                match b64_parse(ed.data) {
                    None => None,
                    Some(ct) => match aead_open(k.key_data, n, ct) {
                        None => None,
                        Some(pt) => parse_config(pt),
                    },
                }
            },
        },
    }
}

/// What decrypting an opaque string blob under `m`'s master key returns: the
/// blob is base64 over a 12-byte nonce followed by the ciphertext. A blob
/// shorter than the nonce is rejected before any cipher work.
pub open spec fn decrypt_string_spec(m: &EncryptionManager, enc: Seq<char>) -> Option<Seq<char>> {
    match m.spec_master() {
        None => None,
        Some(k) => match b64_parse(enc) {
            None => None,
            Some(d) => if d.len() < 12 {
                None
            } else {
                match aead_open(k.key_data, d.take(12), d.skip(12)) {
                    None => None,
                    Some(pt) => if valid_utf8(pt) {
                        Some(decode_utf8(pt))
                    } else {
                        None
                    },
                }
            },
        },
    }
}

impl EncryptionManager {
    /// Seals a clipboard payload under the master key with a fresh random
    /// nonce. Decrypting the returned envelope under this manager yields the
    /// payload back. Fails without a master key, on an unframeable payload,
    /// or if the cipher refuses.
    pub fn encrypt_clipboard_data(&self, data: &ClipboardPayload) -> (r: Result<
        EncryptedData,
        Error,
    >)
        requires
            self.wf(),
        ensures
            match r {
                Ok(ed) => self.spec_master() is Some && payload_fits(data@)
                    && decrypt_payload_spec(self, ed@) == Some(data@),
                Err(e) => e is EncryptionFailed,
            },
            self.spec_master() is Some && payload_fits(data@) ==> r is Ok,
            self.spec_master() is None ==> r is Err,
            !payload_fits(data@) ==> r is Err,
    {
        let key = match self.get_encryption_key() {
            Ok(k) => k,
            Err(e) => {
                return Err(e);
            },
        };
        let plaintext = match encode_payload(data) {
            Some(v) => v,
            None => {
                return Err(
                    Error::EncryptionFailed(String::from_str("Failed to serialize data")),
                );
            },
        };
        let nonce = random_bytes(12);
        let ciphertext = match aead_seal(
            key.key_data.as_slice(),
            nonce.as_slice(),
            plaintext.as_slice(),
        ) {
            Some(ct) => ct,
            None => {
                proof {
                    // a payload that fits frames below the cipher's size
                    // limit, so this refusal cannot be reached
                    crate::codec::lemma_payload_bytes_len(data@);
                }
                return Err(Error::EncryptionFailed(String::from_str("Encryption failed")));
            },
        };
        let ed = EncryptedData {
            data: b64_encode(ciphertext.as_slice()),
            nonce: b64_encode(nonce.as_slice()),
            key_id: key.key_id.clone(),
            algorithm: key.algorithm.clone(),
        };
        proof {
            crate::codec::lemma_parse_payload(data@);
            assert(self.key_for(ed@.key_id) == Some(key@));
            assert(decrypt_payload_spec(self, ed@) == Some(data@));
        }
        Ok(ed)
    }

    /// Opens a self-describing payload envelope; returns exactly what
    /// `decrypt_payload_spec` says the envelope holds under this manager's
    /// keys, and a decryption error otherwise.
    pub fn decrypt_clipboard_data(&self, encrypted: &EncryptedData) -> (r: Result<
        ClipboardPayload,
        Error,
    >)
        requires
            self.wf(),
        ensures
            match r {
                Ok(p) => decrypt_payload_spec(self, encrypted@) == Some(p@),
                Err(e) => decrypt_payload_spec(self, encrypted@) is None && e is DecryptionFailed,
            },
    {
        let key = match self.get_key_by_id(encrypted.key_id.as_str()) {
            Some(k) => k,
            None => {
                return Err(Error::DecryptionFailed(String::from_str("Key not found")));
            },
        };
        let nonce = match b64_decode(encrypted.nonce.as_str()) {
            Some(v) => v,
            None => {
                return Err(Error::DecryptionFailed(String::from_str("Failed to decode nonce")));
            },
        };
        if nonce.len() != 12 {
            return Err(Error::DecryptionFailed(String::from_str("Invalid nonce length")));
        }
        let ciphertext = match b64_decode(encrypted.data.as_str()) {
            Some(v) => v,
            None => {
                return Err(
                    Error::DecryptionFailed(String::from_str("Failed to decode ciphertext")),
                );
            },
        };
        let plaintext = match aead_unseal(
            key.key_data.as_slice(),
            nonce.as_slice(),
            ciphertext.as_slice(),
        ) {
            Some(pt) => pt,
            None => {
                return Err(Error::DecryptionFailed(String::from_str("Decryption failed")));
            },
        };
        match decode_payload(plaintext.as_slice()) {
            Some(p) => Ok(p),
            None => Err(
                Error::DecryptionFailed(String::from_str("Failed to deserialize data")),
            ),
        }
    }

    /// Seals the sync configuration under the master key, mirroring
    /// `encrypt_clipboard_data`.
    pub fn encrypt_config(&self, config: &SyncConfig) -> (r: Result<EncryptedData, Error>)
        requires
            self.wf(),
        ensures
            match r {
                Ok(ed) => self.spec_master() is Some && config_fits(config@)
                    && decrypt_config_spec(self, ed@) == Some(config@),
                Err(e) => e is EncryptionFailed,
            },
            self.spec_master() is Some && config_fits(config@) && config_bytes(config@).len()
                <= 0x10_0000_0000 ==> r is Ok,
            self.spec_master() is None ==> r is Err,
            !config_fits(config@) ==> r is Err,
    {
        let key = match self.get_encryption_key() {
            Ok(k) => k,
            Err(e) => {
                return Err(e);
            },
        };
        let plaintext = match encode_config(config) {
            Some(v) => v,
            None => {
                return Err(
                    Error::EncryptionFailed(String::from_str("Failed to serialize config")),
                );
            },
        };
        let nonce = random_bytes(12);
        let ciphertext = match aead_seal(
            key.key_data.as_slice(),
            nonce.as_slice(),
            plaintext.as_slice(),
        ) {
            Some(ct) => ct,
            None => {
                return Err(
                    Error::EncryptionFailed(String::from_str("Config encryption failed")),
                );
            },
        };
        let ed = EncryptedData {
            data: b64_encode(ciphertext.as_slice()),
            nonce: b64_encode(nonce.as_slice()),
            key_id: key.key_id.clone(),
            algorithm: key.algorithm.clone(),
        };
        proof {
            crate::codec::lemma_parse_config(config@);
            assert(self.key_for(ed@.key_id) == Some(key@));
            assert(decrypt_config_spec(self, ed@) == Some(config@));
        }
        Ok(ed)
    }

    /// Opens a configuration envelope; the exact mirror of `encrypt_config`.
    pub fn decrypt_config(&self, encrypted: &EncryptedData) -> (r: Result<SyncConfig, Error>)
        requires
            self.wf(),
        ensures
            match r {
                Ok(c) => decrypt_config_spec(self, encrypted@) == Some(c@),
                Err(e) => decrypt_config_spec(self, encrypted@) is None && e is DecryptionFailed,
            },
    {
        let key = match self.get_key_by_id(encrypted.key_id.as_str()) {
            Some(k) => k,
            None => {
                return Err(Error::DecryptionFailed(String::from_str("Key not found")));
            },
        };
        let nonce = match b64_decode(encrypted.nonce.as_str()) {
            Some(v) => v,
            None => {
                return Err(
                    Error::DecryptionFailed(String::from_str("Failed to decode config nonce")),
                );
            },
        };
        if nonce.len() != 12 {
            return Err(Error::DecryptionFailed(String::from_str("Invalid nonce length")));
        }
        let ciphertext = match b64_decode(encrypted.data.as_str()) {
            Some(v) => v,
            None => {
                return Err(
                    Error::DecryptionFailed(
                        String::from_str("Failed to decode config ciphertext"),
                    ),
                );
            },
        };
        let plaintext = match aead_unseal(
            key.key_data.as_slice(),
            nonce.as_slice(),
            ciphertext.as_slice(),
        ) {
            Some(pt) => pt,
            None => {
                return Err(Error::DecryptionFailed(String::from_str("Config decryption failed")));
            },
        };
        match decode_config(plaintext.as_slice()) {
            Some(c) => Ok(c),
            None => Err(
                Error::DecryptionFailed(String::from_str("Failed to deserialize config")),
            ),
        }
    }

    /// Seals a sensitive string under the master key; the random nonce is
    /// prepended to the ciphertext and the whole blob is base64-encoded.
    pub fn encrypt_string(&self, plaintext: &str) -> (r: Result<String, Error>)
        requires
            self.wf(),
        ensures
            match r {
                Ok(s) => self.spec_master() is Some && decrypt_string_spec(self, s@) == Some(
                    plaintext@,
                ),
                Err(e) => e is EncryptionFailed,
            },
            self.spec_master() is Some && encode_utf8(plaintext@).len() <= 0x10_0000_0000 ==> r
                is Ok,
            self.spec_master() is None ==> r is Err,
    {
        let key = match self.get_encryption_key() {
            Ok(k) => k,
            Err(e) => {
                return Err(e);
            },
        };
        let pt_bytes = plaintext.as_bytes_vec();
        let nonce = random_bytes(12);
        let ciphertext = match aead_seal(
            key.key_data.as_slice(),
            nonce.as_slice(),
            pt_bytes.as_slice(),
        ) {
            Some(ct) => ct,
            None => {
                return Err(
                    Error::EncryptionFailed(String::from_str("String encryption failed")),
                );
            },
        };
        let mut blob: Vec<u8> = Vec::new();
        blob.extend_from_slice(nonce.as_slice());
        blob.extend_from_slice(ciphertext.as_slice());
        let encoded = b64_encode(blob.as_slice());
        proof {
            assert(blob@.take(12) =~= nonce@);
            assert(blob@.skip(12) =~= ciphertext@);
            assert(decrypt_string_spec(self, encoded@) == Some(plaintext@));
        }
        Ok(encoded)
    }

    /// Opens a sealed string blob. A blob whose decoded form is shorter than
    /// the 12-byte nonce is rejected before the cipher is consulted.
    pub fn decrypt_string(&self, encrypted: &str) -> (r: Result<String, Error>)
        requires
            self.wf(),
        ensures
            match r {
                Ok(s) => decrypt_string_spec(self, encrypted@) == Some(s@),
                Err(e) => decrypt_string_spec(self, encrypted@) is None && (
                if self.spec_master() is None {
                    e is EncryptionFailed
                } else {
                    e is DecryptionFailed
                }),
            },
            match b64_parse(encrypted@) {
                Some(d) => d.len() < 12 ==> r is Err,
                None => r is Err,
            },
    {
        let key = match self.get_encryption_key() {
            Ok(k) => k,
            Err(e) => {
                return Err(e);
            },
        };
        let data = match b64_decode(encrypted) {
            Some(v) => v,
            None => {
                return Err(
                    Error::DecryptionFailed(String::from_str("Failed to decode encrypted string")),
                );
            },
        };
        if data.len() < 12 {
            return Err(
                Error::DecryptionFailed(String::from_str("Invalid encrypted data length")),
            );
        }
        let (nonce_part, ct_part) = data.as_slice().split_at(12);
        proof {
            assert(nonce_part@ =~= data@.take(12));
            assert(ct_part@ =~= data@.skip(12));
        }
        let plaintext = match aead_unseal(key.key_data.as_slice(), nonce_part, ct_part) {
            Some(pt) => pt,
            None => {
                return Err(Error::DecryptionFailed(String::from_str("String decryption failed")));
            },
        };
        match string_from_utf8(plaintext) {
            Some(s) => Ok(s),
            None => Err(
                Error::DecryptionFailed(
                    String::from_str("Invalid UTF-8 in decrypted string"),
                ),
            ),
        }
    }

    /// The base64-rendered SHA-256 fingerprint of `data`.
    pub fn generate_hash(&self, data: &[u8]) -> (r: String)
        ensures
            r@ == b64_of(sha256_of(data@)),
    {
        let digest = sha256(data);
        b64_encode(digest.as_slice())
    }

    /// Whether `data`'s fingerprint matches `expected_hash`.
    pub fn verify_integrity(&self, data: &[u8], expected_hash: &str) -> (r: bool)
        ensures
            r == (b64_of(sha256_of(data@)) == expected_hash@),
    {
        let actual = self.generate_hash(data);
        crate::models::str_eq(actual.as_str(), expected_hash)
    }

    /// Serializes the key filed under `key_id` for backup: the framed key
    /// record, base64-encoded. `import_key` restores exactly this key.
    pub fn export_key(&self, key_id: &str) -> (r: Result<String, Error>)
        ensures
            match r {
                Ok(s) => match self.key_for(key_id@) {
                    Some(k) => key_fits(k) && parsed_export(s@) == Some(k),
                    None => false,
                },
                Err(e) => e is Unknown && match self.key_for(key_id@) {
                    Some(k) => !key_fits(k),
                    None => true,
                },
            },
    {
        let key = match self.get_key_by_id(key_id) {
            Some(k) => k,
            None => {
                return Err(Error::Unknown(String::from_str("Key not found")));
            },
        };
        let bytes = match encode_key(key) {
            Some(v) => v,
            None => {
                return Err(Error::Unknown(String::from_str("Failed to export key")));
            },
        };
        let encoded = b64_encode(bytes.as_slice());
        proof {
            crate::codec::lemma_parse_key(key@);
        }
        Ok(encoded)
    }

    /// Restores a key from its exported form, filing it as master or device
    /// key according to its own id; an export with any other id is accepted
    /// and ignored, and one whose material is not 32 bytes is rejected.
    pub fn import_key(&mut self, exported_key: &str) -> (r: Result<(), Error>)
        requires
            old(self).wf(),
        ensures
            final(self).wf(),
            match parsed_export(exported_key@) {
                None => r is Err && final(self).spec_master() == old(self).spec_master() && final(self).spec_devices() == old(self).spec_devices(),
                Some(k) => if k.key_data.len() != 32 {
                    r is Err && final(self).spec_master() == old(self).spec_master() && final(self).spec_devices() == old(self).spec_devices()
                } else if k.key_id == "master"@ {
                    r is Ok && final(self).spec_master() == Some(k) && final(self).spec_devices()
                        == old(self).spec_devices()
                } else if is_device_key_id(k.key_id) {
                    r is Ok && final(self).spec_master() == old(self).spec_master() && final(self).spec_device_key(k.key_id.skip(7)) == Some(k) && forall|id: Seq<char>|
                        id != k.key_id.skip(7) ==> #[trigger] final(self).spec_device_key(id)
                            == old(self).spec_device_key(id)
                } else {
                    r is Ok && final(self).spec_master() == old(self).spec_master() && final(self).spec_devices() == old(self).spec_devices()
                },
            },
            r matches Err(e) ==> e is Unknown,
    {
        let decoded = match b64_decode(exported_key) {
            Some(v) => v,
            None => {
                return Err(Error::Unknown(String::from_str("Failed to decode exported key")));
            },
        };
        let key = match decode_key(decoded.as_slice()) {
            Some(k) => k,
            None => {
                return Err(Error::Unknown(String::from_str("Failed to parse exported key")));
            },
        };
        if key.key_data.len() != 32 {
            return Err(Error::Unknown(String::from_str("Invalid key material length")));
        }
        if crate::models::str_eq(key.key_id.as_str(), "master") {
            self.master_key = Some(key);
            Ok(())
        } else {
            let n = key.key_id.unicode_len();
            if n >= 7 {
                let head = key.key_id.substring_char(0, 7);
                if crate::models::str_eq(head, "device_") {
                    let device_id = key.key_id.substring_char(7, n).to_owned();
                    proof {
                        assert(device_key_id(device_id@) =~= key.key_id@);
                    }
                    self.set_device_key(device_id.as_str(), key);
                    Ok(())
                } else {
                    assert(!is_device_key_id(key.key_id@));
                    Ok(())
                }
            } else {
                assert(!is_device_key_id(key.key_id@));
                Ok(())
            }
        }
    }
}

/// The encrypt-then-decrypt law: sealing any payload and opening the result
/// under the same manager returns the payload unchanged; the only other
/// possible outcome is that sealing itself refused.
pub fn clipboard_roundtrip(m: &EncryptionManager, data: &ClipboardPayload) -> (r: Result<
    ClipboardPayload,
    Error,
>)
    requires
        m.wf(),
    ensures
        match r {
            Ok(p) => p@ == data@,
            Err(e) => e is EncryptionFailed,
        },
        m.spec_master() is Some && payload_fits(data@) ==> r is Ok,
{
    match m.encrypt_clipboard_data(data) {
        Ok(ed) => m.decrypt_clipboard_data(&ed),
        Err(e) => Err(e),
    }
}

/// The encrypt-then-decrypt law for configurations.
pub fn config_roundtrip(m: &EncryptionManager, config: &SyncConfig) -> (r: Result<
    SyncConfig,
    Error,
>)
    requires
        m.wf(),
    ensures
        match r {
            Ok(c) => c@ == config@,
            Err(e) => e is EncryptionFailed,
        },
        m.spec_master() is Some && config_fits(config@) && config_bytes(config@).len()
            <= 0x10_0000_0000 ==> r is Ok,
{
    match m.encrypt_config(config) {
        Ok(ed) => m.decrypt_config(&ed),
        Err(e) => Err(e),
    }
}

/// The encrypt-then-decrypt law for sealed strings.
pub fn string_roundtrip(m: &EncryptionManager, plaintext: &str) -> (r: Result<String, Error>)
    requires
        m.wf(),
    ensures
        match r {
            Ok(s) => s@ == plaintext@,
            Err(e) => e is EncryptionFailed,
        },
        m.spec_master() is Some && encode_utf8(plaintext@).len() <= 0x10_0000_0000 ==> r is Ok,
{
    match m.encrypt_string(plaintext) {
        Ok(blob) => match m.decrypt_string(blob.as_str()) {
            Ok(s) => Ok(s),
            Err(e) => Err(e),
        },
        Err(e) => Err(e),
    }
}

} // verus!
