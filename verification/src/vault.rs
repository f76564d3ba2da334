//! The vault: a namespaced, encrypted key-value store for platform secrets,
//! wrapping the verified storage engine with the platform clock and the
//! vault's error taxonomy.

use vstd::prelude::*;

use crate::crypto;
use crate::crypto::spec_is_encryption_of;
use crate::crypto::spec_is_salted_hash_of;
use crate::runtime::now_ms;
use crate::text::spec_sorted_strings;
use crate::vault_store::spec_ns_of_owned;
use crate::vault_store::StorageEngine;
use crate::vault_store::StorageError;

verus! {

use vstd::string::StringExecFns;
use vstd::utf8::encode_utf8;

/// Errors the vault surfaces to platform code.
#[derive(Debug, Clone)]
pub enum VaultError {
    /// Encryption failed.
    EncryptionFailed,
    /// Decryption failed.
    DecryptionFailed,
    /// Key not found.
    KeyNotFound,
    /// Key expired.
    KeyExpired,
    /// Storage error.
    StorageError { msg: String },
    /// Invalid configuration.
    InvalidConfig { msg: String },
    /// Biometric authentication required.
    BiometricRequired,
    /// Serialization error.
    SerializationError { msg: String },
}

/// Map a storage-engine error to the vault's taxonomy.
pub fn vault_error_from_storage(e: StorageError) -> (r: VaultError)
    ensures
        e is KeyNotFound ==> r is KeyNotFound,
        e is KeyExpired ==> r is KeyExpired,
        e is BiometricRequired ==> r is BiometricRequired,
        e is NotExportable ==> r is StorageError,
        e is DatabaseError ==> r is StorageError,
        e is SerializationError ==> r is SerializationError,
{
    match e {
        StorageError::KeyNotFound(_) => VaultError::KeyNotFound,
        StorageError::KeyExpired(_) => VaultError::KeyExpired,
        StorageError::BiometricRequired => VaultError::BiometricRequired,
        StorageError::NotExportable => VaultError::StorageError {
            msg: "Entry is not exportable".to_owned(),
        },
        StorageError::DatabaseError(msg) => VaultError::StorageError { msg },
        StorageError::SerializationError(msg) => VaultError::SerializationError { msg },
    }
}

/// Configuration for the vault.
pub struct VaultConfig {
    /// Application id; the master key input is derived from it.
    pub app_id: String,
    /// Explicit backing-store path, if any.
    pub db_path: Option<String>,
    /// Declared encryption algorithm (informational).
    pub encryption_algo: String,
    /// Whether the platform offers biometric prompts.
    pub biometric_available: bool,
}

/// Options for storing a value.
pub struct StoreOptions {
    /// Relative expiry such as `"30m"`, `"24h"`, `"7d"` or `"2w"`.
    pub expiry: Option<String>,
    /// Whether reads must present biometric authentication.
    pub biometric_required: bool,
    /// Whether the entry may be exported.
    pub exportable: bool,
    /// The namespace to store under; `None` means the default.
    pub namespace: Option<String>,
}

/// A vault entry returned to the caller.  Timestamps are milliseconds.
pub struct VaultEntry {
    /// The entry's key.
    pub key: String,
    /// The decrypted value.
    pub value: String,
    /// The namespace, if not the default.
    pub namespace: Option<String>,
    /// Absolute expiry timestamp, if any.
    pub expires_at: Option<i64>,
    /// Whether reads demand biometric authentication.
    pub biometric_required: bool,
    /// Whether the entry may be exported.
    pub exportable: bool,
    /// When the entry was first created.
    pub created_at: i64,
    /// When the entry was last written.
    pub updated_at: i64,
}

/// Vault statistics.
#[derive(Debug, Clone, Copy, PartialEq, Eq, Structural)]
pub struct VaultStats {
    /// Entries in the store, expired ones included.
    pub total_entries: u64,
    /// Distinct namespaces.
    pub total_namespaces: u64,
    /// Entries whose expiry has passed.
    pub expired_entries: u64,
    /// Approximate stored bytes.
    pub storage_bytes: u64,
}

/// Generate a new random encryption key (base64 encoded).
pub fn generate_encryption_key() -> (r: String)
    ensures
        exists|k: Seq<u8>| k.len() == 32 && r@ == #[trigger] crypto::spec_b64_of(k),
{
    crypto::generate_key()
}

/// Hash a value (one-way, with a fresh salt).
pub fn hash_value(input: String) -> (r: String)
    ensures
        spec_is_salted_hash_of(r@, input@),
{
    crypto::hash_with_salt(input.as_str())
}

/// Verify a value against a hash.
pub fn verify_hash(input: String, hash: String) -> (r: bool)
    ensures
        r == spec_is_salted_hash_of(hash@, input@),
{
    crypto::verify_salted_hash(input.as_str(), hash.as_str())
}

/// The vault interface exposed to platform code.  The backing table lives
/// in memory here; a durable layer may mirror it.
pub struct RajeevVault {
    engine: StorageEngine,
    biometric_available: bool,
}

impl RajeevVault {
    /// The rows of the vault's table.
    pub closed spec fn view(&self) -> Seq<crate::vault_store::StoredEntry> {
        self.engine@
    }

    /// The map from (key, namespace) to its row.
    pub open spec fn spec_entries(&self) -> Map<
        (Seq<char>, Seq<char>),
        crate::vault_store::StoredEntry,
    > {
        crate::vault_store::spec_vault_map(self@)
    }

    /// The master key every value is encrypted under.
    pub closed spec fn spec_master(&self) -> Seq<char> {
        self.engine.spec_master()
    }

    /// Well-formed: the underlying table is.
    pub open spec fn wf(&self) -> bool {
        crate::vault_store::spec_vault_unique(self@)
    }

    /// Create a vault whose master key input is derived from the app id.
    /// In production the derivation input comes from the platform keystore.
    pub fn new(config: VaultConfig) -> (r: Result<RajeevVault, VaultError>)
        ensures
            r matches Ok(v) ==> v.wf() && v@ =~= Seq::<
                crate::vault_store::StoredEntry,
            >::empty() && v.spec_master() == "rajeev-vault-"@ + config.app_id@ + "-master"@,
    {
        let prefix: String = String::from_str("rajeev-vault-");
        let with_app: String = prefix.concat(config.app_id.as_str());
        let master_key: String = with_app.concat("-master");
        let engine = StorageEngine::new(master_key.as_str());
        Ok(RajeevVault { engine, biometric_available: config.biometric_available })
    }

    /// Store a key-value pair.  The value is encrypted under the vault's
    /// master key; an overwrite keeps the original creation time.
    pub fn store(&mut self, key: String, value: String, options: StoreOptions) -> (r: Result<
        (),
        VaultError,
    >)
        requires
            old(self).wf(),
        ensures
            final(self).wf(),
            final(self).spec_master() == old(self).spec_master(),
            r is Err ==> final(self)@ == old(self)@,
            options.expiry is None && encode_utf8(value@).len() <= 0x10_0000_0000 ==> r is Ok,
            options.expiry matches Some(x) && crate::vault_store::spec_expiry_duration_ms(x@)
                is None && encode_utf8(value@).len() <= 0x10_0000_0000 ==> (r matches Err(e) && e
                is SerializationError),
            r is Ok ==> {
                let id = (key@, crate::vault_store::spec_ns_of_owned(options.namespace));
                let e = final(self).spec_entries()[id];
                &&& final(self).spec_entries() =~= old(self).spec_entries().insert(id, e)
                &&& spec_is_encryption_of(e.encrypted_value@, old(self).spec_master(), value@)
                &&& e.created_at == (if old(self).spec_entries().contains_key(id) {
                    old(self).spec_entries()[id].created_at
                } else {
                    e.updated_at
                })
                &&& e.biometric_required == options.biometric_required
                &&& e.exportable == options.exportable
                &&& e.expires_at == (match options.expiry {
                    None => None::<i64>,
                    Some(x) => Some(
                        (e.updated_at + crate::vault_store::spec_expiry_duration_ms(
                            x@,
                        ).unwrap()) as i64,
                    ),
                })
            },
    {
        let now: i64 = now_ms();
        let ns: Option<&str> = match options.namespace {
            Some(ref s) => Some(s.as_str()),
            None => None,
        };
        let expiry: Option<&str> = match options.expiry {
            Some(ref s) => Some(s.as_str()),
            None => None,
        };
        match self.engine.store_at(
            key.as_str(),
            value.as_str(),
            ns,
            expiry,
            options.biometric_required,
            options.exportable,
            now,
        ) {
            Ok(_) => Ok(()),
            Err(e) => Err(vault_error_from_storage(e)),
        }
    }

    /// Retrieve a value by key: the plaintext whose encryption is stored,
    /// or `None` when absent; an expired entry is purged and reported; an
    /// entry stored with the biometric flag is refused until the caller
    /// retries with `biometric_authenticated` set.
    pub fn retrieve(
        &mut self,
        key: String,
        namespace: Option<String>,
        biometric_authenticated: bool,
    ) -> (r: Result<Option<String>, VaultError>)
        requires
            old(self).wf(),
        ensures
            final(self).wf(),
            final(self).spec_master() == old(self).spec_master(),
            ({
                let id = (key@, crate::vault_store::spec_ns_of_owned(namespace));
                let entries = old(self).spec_entries();
                &&& (!entries.contains_key(id) ==> (r matches Ok(v) && v is None)
                    && final(self)@ == old(self)@)
                &&& (entries.contains_key(id) && entries[id].expires_at is None
                    ==> final(self)@ == old(self)@ && (if entries[id].biometric_required
                    && !biometric_authenticated {
                    r matches Err(e) && e is BiometricRequired
                } else {
                    forall|p: Seq<char>|
                        #[trigger] spec_is_encryption_of(
                            entries[id].encrypted_value@,
                            old(self).spec_master(),
                            p,
                        ) ==> (r matches Ok(v) && v matches Some(sv) && sv@ == p)
                }))
            }),
    {
        let now: i64 = now_ms();
        let ns: Option<&str> = match namespace {
            Some(ref s) => Some(s.as_str()),
            None => None,
        };
        match self.engine.retrieve_at(key.as_str(), ns, biometric_authenticated, now) {
            Ok(v) => Ok(v),
            Err(e) => Err(vault_error_from_storage(e)),
        }
    }

    /// Delete a key: says whether a row was removed.
    pub fn delete(&mut self, key: String, namespace: Option<String>) -> (r: Result<
        bool,
        VaultError,
    >)
        requires
            old(self).wf(),
        ensures
            final(self).wf(),
            final(self).spec_master() == old(self).spec_master(),
            ({
                let id = (key@, crate::vault_store::spec_ns_of_owned(namespace));
                &&& r == Result::<bool, VaultError>::Ok(
                    old(self).spec_entries().contains_key(id),
                )
                &&& final(self).spec_entries() =~= old(self).spec_entries().remove(id)
            }),
    {
        let ns: Option<&str> = match namespace {
            Some(ref s) => Some(s.as_str()),
            None => None,
        };
        match self.engine.delete(key.as_str(), ns) {
            Ok(b) => Ok(b),
            Err(e) => Err(vault_error_from_storage(e)),
        }
    }

    /// Whether a key is present and has not expired.
    pub fn has_key(&self, key: String, namespace: Option<String>) -> (r: Result<bool, VaultError>)
        requires
            self.wf(),
        ensures
            ({
                let id = (key@, crate::vault_store::spec_ns_of_owned(namespace));
                !self.spec_entries().contains_key(id) ==> r == Result::<bool, VaultError>::Ok(
                    false,
                )
            }),
            ({
                let id = (key@, crate::vault_store::spec_ns_of_owned(namespace));
                self.spec_entries().contains_key(id) && self.spec_entries()[id].expires_at is None
                    ==> r == Result::<bool, VaultError>::Ok(true)
            }),
    {
        let now: i64 = now_ms();
        let ns: Option<&str> = match namespace {
            Some(ref s) => Some(s.as_str()),
            None => None,
        };
        match self.engine.exists_at(key.as_str(), ns, now) {
            Ok(b) => Ok(b),
            Err(e) => Err(vault_error_from_storage(e)),
        }
    }

    /// All live keys in a namespace, in ascending code-point order.
    pub fn list_keys(&self, namespace: Option<String>) -> (r: Result<Vec<String>, VaultError>)
        requires
            self.wf(),
        ensures
            r matches Ok(keys) ==> {
                let ns = crate::vault_store::spec_ns_of_owned(namespace);
                &&& spec_sorted_strings(keys@)
                &&& (forall|x: int, y: int|
                    0 <= x < y < keys@.len() ==> (#[trigger] keys@[x]@) != (#[trigger] keys@[y]@))
                &&& (forall|i: int|
                    0 <= i < keys@.len() ==> self.spec_entries().contains_key(
                        ((#[trigger] keys@[i]@), ns),
                    ))
                &&& (forall|j: int|
                    0 <= j < self@.len() && (#[trigger] self@[j].namespace@) == ns && self@[
                        j
                    ].expires_at is None ==> exists|i: int|
                        0 <= i < keys@.len() && (#[trigger] keys@[i]@) == self@[j].key@)
            },
    {
        let now: i64 = now_ms();
        let ns: Option<&str> = match namespace {
            Some(ref s) => Some(s.as_str()),
            None => None,
        };
        match self.engine.list_keys_at(ns, now) {
            Ok(keys) => Ok(keys),
            Err(e) => Err(vault_error_from_storage(e)),
        }
    }

    /// All namespaces present in the vault, in ascending code-point order.
    pub fn list_namespaces(&self) -> (r: Result<Vec<String>, VaultError>)
        requires
            self.wf(),
        ensures
            r matches Ok(nss) ==> crate::vault_store::spec_ns_listing_ok(nss@, self@),
    {
        match self.engine.list_namespaces() {
            Ok(nss) => Ok(nss),
            Err(e) => Err(vault_error_from_storage(e)),
        }
    }

    /// Remove every entry in a namespace.
    pub fn wipe_namespace(&mut self, namespace: String) -> (r: Result<(), VaultError>)
        requires
            old(self).wf(),
        ensures
            final(self).wf(),
            final(self).spec_master() == old(self).spec_master(),
            final(self)@ =~= old(self)@.filter(
                |e: crate::vault_store::StoredEntry| e.namespace@ != namespace@,
            ),
            r is Ok,
    {
        match self.engine.wipe_namespace(namespace.as_str()) {
            Ok(_) => Ok(()),
            Err(e) => Err(vault_error_from_storage(e)),
        }
    }

    /// Remove everything.
    pub fn wipe_all(&mut self) -> (r: Result<(), VaultError>)
        requires
            old(self).wf(),
        ensures
            final(self).wf(),
            final(self).spec_master() == old(self).spec_master(),
            final(self)@ =~= Seq::<crate::vault_store::StoredEntry>::empty(),
            r is Ok,
    {
        match self.engine.wipe_all() {
            Ok(_) => Ok(()),
            Err(e) => Err(vault_error_from_storage(e)),
        }
    }

    /// Storage statistics: counts and approximate byte size.
    pub fn get_stats(&self) -> (r: Result<VaultStats, VaultError>)
        requires
            self.wf(),
        ensures
            r matches Ok(st) ==> {
                &&& st.total_entries == self@.len()
                &&& st.total_namespaces == crate::vault_store::spec_ns_set(self@).len()
                &&& st.storage_bytes == (if crate::vault_store::spec_sum_bytes(self@)
                    <= u64::MAX {
                    crate::vault_store::spec_sum_bytes(self@)
                } else {
                    u64::MAX as int
                })
                &&& exists|t: i64|
                    st.expired_entries == #[trigger] crate::vault_store::spec_count_expired(
                        self@,
                        t,
                    )
            },
            r is Ok,
    {
        let now: i64 = now_ms();
        match self.engine.get_stats_at(now) {
            Ok(st) => Ok(
                VaultStats {
                    total_entries: st.total_entries,
                    total_namespaces: st.total_namespaces,
                    expired_entries: st.expired_entries,
                    storage_bytes: st.storage_bytes,
                },
            ),
            Err(e) => Err(vault_error_from_storage(e)),
        }
    }

    /// Delete every entry whose expiry has passed: whatever the clock read,
    /// the surviving rows are an expiry sweep of the old rows at some
    /// reading.
    pub fn cleanup_expired(&mut self) -> (r: Result<(), VaultError>)
        requires
            old(self).wf(),
        ensures
            final(self).wf(),
            final(self).spec_master() == old(self).spec_master(),
            exists|t: i64|
                final(self)@ =~= #[trigger] crate::vault_store::spec_swept(old(self)@, t),
            r is Ok,
    {
        let now: i64 = now_ms();
        match self.engine.cleanup_expired_at(now) {
            Ok(_) => Ok(()),
            Err(e) => Err(vault_error_from_storage(e)),
        }
    }

    /// Export an entry's raw encrypted blob, policy allowing.
    pub fn export_entry(&self, key: String, namespace: Option<String>) -> (r: Result<
        Option<String>,
        VaultError,
    >)
        requires
            self.wf(),
        ensures
            ({
                let id = (key@, crate::vault_store::spec_ns_of_owned(namespace));
                let entries = self.spec_entries();
                if !entries.contains_key(id) {
                    r matches Ok(v) && v is None
                } else if !entries[id].exportable {
                    r matches Err(e) && e is StorageError
                } else {
                    r matches Ok(v) && v matches Some(blob) && blob@ == entries[
                        id
                    ].encrypted_value@
                }
            }),
    {
        let ns: Option<&str> = match namespace {
            Some(ref s) => Some(s.as_str()),
            None => None,
        };
        match self.engine.export_entry(key.as_str(), ns) {
            Ok(v) => Ok(v),
            Err(e) => Err(vault_error_from_storage(e)),
        }
    }

    /// Import a previously exported blob as-is, without re-encrypting: it
    /// decrypts later only if it came from a vault with the same master key.
    pub fn import_entry(&mut self, key: String, encrypted_data: String, options: StoreOptions) -> (r:
        Result<(), VaultError>)
        requires
            old(self).wf(),
        ensures
            final(self).wf(),
            final(self).spec_master() == old(self).spec_master(),
            r is Err ==> final(self)@ == old(self)@,
            options.expiry is None ==> r is Ok,
            options.expiry matches Some(x) && crate::vault_store::spec_expiry_duration_ms(x@)
                is None ==> (r matches Err(e) && e is SerializationError),
            r is Ok ==> {
                let id = (key@, crate::vault_store::spec_ns_of_owned(options.namespace));
                let e = final(self).spec_entries()[id];
                &&& final(self).spec_entries() =~= old(self).spec_entries().insert(id, e)
                &&& e.encrypted_value@ == encrypted_data@
                &&& e.created_at == e.updated_at
                &&& e.biometric_required == options.biometric_required
                &&& e.exportable == options.exportable
                &&& e.expires_at == (match options.expiry {
                    None => None::<i64>,
                    Some(x) => Some(
                        (e.updated_at + crate::vault_store::spec_expiry_duration_ms(
                            x@,
                        ).unwrap()) as i64,
                    ),
                })
            },
    {
        let now: i64 = now_ms();
        let ns: Option<&str> = match options.namespace {
            Some(ref s) => Some(s.as_str()),
            None => None,
        };
        let expiry: Option<&str> = match options.expiry {
            Some(ref s) => Some(s.as_str()),
            None => None,
        };
        match self.engine.import_entry_at(
            key.as_str(),
            encrypted_data.as_str(),
            ns,
            expiry,
            options.biometric_required,
            options.exportable,
            now,
        ) {
            Ok(_) => Ok(()),
            Err(e) => Err(vault_error_from_storage(e)),
        }
    }
}

} // verus!
