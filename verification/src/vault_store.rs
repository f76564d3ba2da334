//! The vault's storage engine: a namespaced, encrypted key-value table with
//! per-entry expiry, a biometric read gate and exportability control.  The
//! table is modelled as a map from (key, namespace) to its row, and every
//! operation's contract is stated over that map.

use vstd::prelude::*;

use crate::crypto;
use crate::crypto::spec_is_encryption_of;
use crate::text::spec_sorted_strings;
use crate::text::str_eq;

verus! {

use vstd::string::StrSliceExecFns;
use vstd::utf8::encode_utf8;

/// Represents a stored entry in the vault.  Timestamps are milliseconds
/// since the Unix epoch.
#[derive(Debug, Clone)]
pub struct StoredEntry {
    /// The entry's key.
    pub key: String,
    /// The encrypted value, framed and base64-encoded.
    pub encrypted_value: String,
    /// The namespace the key lives in.
    pub namespace: String,
    /// When the entry expires, if ever.
    pub expires_at: Option<i64>,
    /// Whether reads must present biometric authentication.
    pub biometric_required: bool,
    /// Whether the encrypted value may be exported.
    pub exportable: bool,
    /// When the entry was first created; kept across overwrites.
    pub created_at: i64,
    /// When the entry was last written.
    pub updated_at: i64,
}

impl StoredEntry {
    /// An exact copy of this row.
    pub fn duplicate(&self) -> (r: StoredEntry)
        ensures
            r == *self,
    {
        StoredEntry {
            key: self.key.clone(),
            encrypted_value: self.encrypted_value.clone(),
            namespace: self.namespace.clone(),
            expires_at: self.expires_at,
            biometric_required: self.biometric_required,
            exportable: self.exportable,
            created_at: self.created_at,
            updated_at: self.updated_at,
        }
    }
}

/// Storage statistics.
#[derive(Debug, Clone, Copy, PartialEq, Eq, Structural)]
pub struct StorageStats {
    /// Rows in the table, expired ones included.
    pub total_entries: u64,
    /// Distinct namespaces among the rows.
    pub total_namespaces: u64,
    /// Rows whose expiry has passed.
    pub expired_entries: u64,
    /// Total bytes of stored encrypted values.
    pub storage_bytes: u64,
}

/// Errors of the vault storage engine.
#[derive(Debug, Clone)]
pub enum StorageError {
    /// Backing-store failure, or a decryption failure surfacing through it.
    DatabaseError(String),
    /// The addressed key is absent.
    KeyNotFound(String),
    /// The addressed key had expired; it has been purged.
    KeyExpired(String),
    /// The entry demands biometric authentication for reads.
    BiometricRequired,
    /// The entry's policy forbids export.
    NotExportable,
    /// A malformed expiry string.
    SerializationError(String),
}

/// The identity of a row: its key and namespace.
pub open spec fn spec_row_id(e: StoredEntry) -> (Seq<char>, Seq<char>) {
    (e.key@, e.namespace@)
}

/// The map a row list stands for: each (key, namespace) pair maps to its
/// row (on duplicates, the later row wins).
pub open spec fn spec_vault_map(s: Seq<StoredEntry>) -> Map<(Seq<char>, Seq<char>), StoredEntry>
    decreases s.len(),
{
    if s.len() == 0 {
        Map::empty()
    } else {
        spec_vault_map(s.drop_last()).insert(spec_row_id(s.last()), s.last())
    }
}

/// Whether the rows carry pairwise distinct (key, namespace) pairs.
pub open spec fn spec_vault_unique(s: Seq<StoredEntry>) -> bool {
    forall|i: int, j: int|
        0 <= i < j < s.len() ==> #[trigger] spec_row_id(s[i]) != #[trigger] spec_row_id(s[j])
}

/// Whether a row counts as expired for a read at time `now`.
pub open spec fn spec_read_expired(e: StoredEntry, now: i64) -> bool {
    e.expires_at matches Some(t) && now > t
}

/// Whether a row counts as live for `exists` and key listing at time `now`.
pub open spec fn spec_live(e: StoredEntry, now: i64) -> bool {
    match e.expires_at {
        None => true,
        Some(t) => t > now,
    }
}

/// The namespace a request addresses: the explicit one, or `"default"`.
pub open spec fn spec_ns_of(ns: Option<&str>) -> Seq<char> {
    match ns {
        Some(s) => s@,
        None => "default"@,
    }
}

/// The namespace an owned optional string addresses.
pub open spec fn spec_ns_of_owned(ns: Option<String>) -> Seq<char> {
    match ns {
        Some(s) => s@,
        None => "default"@,
    }
}

/// Each row of a duplicate-free list is present in the map it stands for.
proof fn lemma_vault_map_index(s: Seq<StoredEntry>, i: int)
    requires
        spec_vault_unique(s),
        0 <= i < s.len(),
    ensures
        spec_vault_map(s).contains_key(spec_row_id(s[i])),
        spec_vault_map(s)[spec_row_id(s[i])] == s[i],
    decreases s.len(),
{
    if i < s.len() - 1 {
        assert(spec_vault_unique(s.drop_last()));
        lemma_vault_map_index(s.drop_last(), i);
    }
}

/// An id carried by no row is absent from the map.
proof fn lemma_vault_map_absent(s: Seq<StoredEntry>, id: (Seq<char>, Seq<char>))
    requires
        forall|i: int| 0 <= i < s.len() ==> #[trigger] spec_row_id(s[i]) != id,
    ensures
        !spec_vault_map(s).contains_key(id),
    decreases s.len(),
{
    if s.len() > 0 {
        lemma_vault_map_absent(s.drop_last(), id);
    }
}

/// Replacing the row at `i` (same id) turns the map's binding over.
proof fn lemma_vault_map_update(s: Seq<StoredEntry>, i: int, e: StoredEntry)
    requires
        spec_vault_unique(s),
        0 <= i < s.len(),
        spec_row_id(e) == spec_row_id(s[i]),
    ensures
        spec_vault_map(s.update(i, e)) =~= spec_vault_map(s).insert(spec_row_id(e), e),
        spec_vault_unique(s.update(i, e)),
    decreases s.len(),
{
    let t = s.update(i, e);
    if i == s.len() - 1 {
        assert(t.drop_last() =~= s.drop_last());
        assert(t.last() == e);
    } else {
        assert(spec_vault_unique(s.drop_last()));
        lemma_vault_map_update(s.drop_last(), i, e);
        assert(t.drop_last() =~= s.drop_last().update(i, e));
        assert(t.last() == s.last());
        assert(spec_row_id(s.last()) != spec_row_id(e));
    }
}

/// Appending a row with a fresh id inserts its binding.
proof fn lemma_vault_map_push(s: Seq<StoredEntry>, e: StoredEntry)
    requires
        spec_vault_unique(s),
        forall|i: int| 0 <= i < s.len() ==> #[trigger] spec_row_id(s[i]) != spec_row_id(e),
    ensures
        spec_vault_map(s.push(e)) =~= spec_vault_map(s).insert(spec_row_id(e), e),
        spec_vault_unique(s.push(e)),
{
    assert(s.push(e).drop_last() =~= s);
    assert(s.push(e).last() == e);
}

/// Removing the row at `i` removes its binding.
proof fn lemma_vault_map_remove(s: Seq<StoredEntry>, i: int)
    requires
        spec_vault_unique(s),
        0 <= i < s.len(),
    ensures
        spec_vault_map(s.remove(i)) =~= spec_vault_map(s).remove(spec_row_id(s[i])),
        spec_vault_unique(s.remove(i)),
    decreases s.len(),
{
    let t = s.remove(i);
    lemma_vault_map_index(s, i);
    if i == s.len() - 1 {
        assert(t =~= s.drop_last());
        lemma_vault_map_absent(s.drop_last(), spec_row_id(s[i]));
    } else {
        assert(spec_vault_unique(s.drop_last()));
        lemma_vault_map_remove(s.drop_last(), i);
        assert(t.drop_last() =~= s.drop_last().remove(i));
        assert(t.last() == s.last());
        assert(spec_row_id(s.last()) != spec_row_id(s[i]));
    }
}

/// Filtering a duplicate-free row list keeps it duplicate-free.
proof fn lemma_vault_filter_unique(s: Seq<StoredEntry>, pred: spec_fn(StoredEntry) -> bool)
    requires
        spec_vault_unique(s),
    ensures
        spec_vault_unique(s.filter(pred)),
    decreases s.len(),
{
    reveal(Seq::filter);
    if s.len() > 0 {
        let dl = s.drop_last();
        assert(spec_vault_unique(dl));
        lemma_vault_filter_unique(dl, pred);
        if pred(s.last()) {
            let f = dl.filter(pred).push(s.last());
            assert(s.filter(pred) == f);
            assert forall|i: int| 0 <= i < dl.filter(pred).len() implies #[trigger] spec_row_id(
                dl.filter(pred)[i],
            ) != spec_row_id(s.last()) by {
                dl.lemma_filter_contains_rev(pred, dl.filter(pred)[i]);
                let j: int = choose|j: int|
                    0 <= j < dl.len() && dl[j] == dl.filter(pred)[i];
                assert(s[j] == dl[j]);
                assert(spec_row_id(s[j]) != spec_row_id(s[s.len() - 1]));
            }
            assert forall|a: int, b: int| 0 <= a < b < f.len() implies #[trigger] spec_row_id(
                f[a],
            ) != #[trigger] spec_row_id(f[b]) by {
                if b < f.len() - 1 {
                    assert(f[a] == dl.filter(pred)[a]);
                    assert(f[b] == dl.filter(pred)[b]);
                } else {
                    assert(f[a] == dl.filter(pred)[a]);
                    assert(f[b] == s.last());
                }
            }
        }
    }
}

/// The namespaces of a row list, in order.
pub open spec fn spec_ns_views(rows: Seq<StoredEntry>) -> Seq<Seq<char>> {
    rows.map_values(|e: StoredEntry| e.namespace@)
}

/// Every collected namespace string is the namespace of one of the first
/// `i` rows.
pub open spec fn spec_ns_collected_sound(c: Seq<String>, rows: Seq<StoredEntry>, i: int) -> bool {
    forall|x: int|
        0 <= x < c.len() ==> spec_ns_views(rows.take(i)).contains(#[trigger] c[x]@)
}

/// Every one of the first `i` rows has its namespace among the collected
/// strings.
pub open spec fn spec_ns_collected_complete(
    c: Seq<String>,
    rows: Seq<StoredEntry>,
    i: int,
) -> bool {
    forall|j: int|
        0 <= j < i ==> crate::text::spec_views(c).contains(#[trigger] rows[j].namespace@)
}

/// The contract of a namespace listing: sorted, and it holds exactly the
/// namespaces the rows use.
pub open spec fn spec_ns_listing_ok(nss: Seq<String>, rows: Seq<StoredEntry>) -> bool {
    &&& spec_sorted_strings(nss)
    &&& spec_ns_collected_sound(nss, rows, rows.len() as int)
    &&& spec_ns_collected_complete(nss, rows, rows.len() as int)
}

/// One step of namespace collection keeps the collection sound and
/// complete, whether the row's namespace was already present (at `y`) or
/// was appended.
proof fn lemma_ns_collect_step(
    rows: Seq<StoredEntry>,
    oldc: Seq<String>,
    newc: Seq<String>,
    i: int,
    dup_found: bool,
    y: int,
)
    requires
        0 <= i < rows.len(),
        spec_ns_collected_sound(oldc, rows, i),
        spec_ns_collected_complete(oldc, rows, i),
        dup_found ==> newc == oldc && 0 <= y < oldc.len() && oldc[y]@ == rows[i].namespace@,
        !dup_found ==> newc.len() == oldc.len() + 1 && (forall|x: int|
            0 <= x < oldc.len() ==> newc[x] == oldc[x]) && newc[newc.len() - 1]@
            == rows[i].namespace@,
    ensures
        spec_ns_collected_sound(newc, rows, i + 1),
        spec_ns_collected_complete(newc, rows, i + 1),
{
    assert forall|x: int| 0 <= x < newc.len() implies spec_ns_views(rows.take(i + 1)).contains(
        #[trigger] newc[x]@,
    ) by {
        if x < oldc.len() {
            assert(spec_ns_views(rows.take(i)).contains(oldc[x]@));
            let k: int = choose|k: int|
                0 <= k < spec_ns_views(rows.take(i)).len() && spec_ns_views(rows.take(i))[k]
                    == oldc[x]@;
            assert(spec_ns_views(rows.take(i + 1))[k] == oldc[x]@);
            assert(newc[x]@ == oldc[x]@);
        } else {
            assert(newc[x]@ == rows[i].namespace@);
            assert(spec_ns_views(rows.take(i + 1))[i] == rows[i].namespace@);
        }
    }
    assert forall|j: int| 0 <= j < i + 1 implies crate::text::spec_views(newc).contains(
        #[trigger] rows[j].namespace@,
    ) by {
        if j == i {
            if dup_found {
                assert(crate::text::spec_views(newc)[y] == rows[j].namespace@);
            } else {
                assert(crate::text::spec_views(newc)[newc.len() - 1] == rows[j].namespace@);
            }
        } else {
            assert(crate::text::spec_views(oldc).contains(rows[j].namespace@));
            let k: int = choose|k: int|
                0 <= k < crate::text::spec_views(oldc).len() && crate::text::spec_views(oldc)[k]
                    == rows[j].namespace@;
            assert(crate::text::spec_views(newc)[k] == rows[j].namespace@);
        }
    }
}

/// Whether an expiry request can be honoured at time `now`: absent, or a
/// parseable duration whose absolute timestamp fits the clock's range.
pub open spec fn spec_expiry_ok(expiry: Option<&str>, now: i64) -> bool {
    match expiry {
        None => true,
        Some(x) => match spec_expiry_duration_ms(x@) {
            Some(d) => i64::MIN <= d <= i64::MAX && i64::MIN <= now + d <= i64::MAX,
            None => false,
        },
    }
}

/// SQLite-backed engines keep this table durable; here it is the verified
/// in-memory model the whole vault is proved against.
pub struct StorageEngine {
    rows: Vec<StoredEntry>,
    master_key: String,
}

impl StorageEngine {
    /// The rows of the table, in insertion order.
    pub closed spec fn view(&self) -> Seq<StoredEntry> {
        self.rows@
    }

    /// The master key all values are encrypted under.
    pub closed spec fn spec_master(&self) -> Seq<char> {
        self.master_key@
    }

    /// The map from (key, namespace) to row.
    pub open spec fn spec_entries(&self) -> Map<(Seq<char>, Seq<char>), StoredEntry> {
        spec_vault_map(self@)
    }

    /// Well-formed: no two rows share a (key, namespace) pair.
    pub open spec fn wf(&self) -> bool {
        spec_vault_unique(self@)
    }

    /// Create an empty storage engine for the given master key.
    pub fn new(master_key: &str) -> (r: StorageEngine)
        ensures
            r.wf(),
            r@ =~= Seq::<StoredEntry>::empty(),
            r.spec_master() == master_key@,
    {
        StorageEngine { rows: Vec::new(), master_key: master_key.to_owned() }
    }

    /// The position of an id in the row list, if any.
    fn find_row(&self, key: &str, ns: &str) -> (r: Option<usize>)
        ensures
            r matches Some(i) ==> i < self@.len() && spec_row_id(self@[i as int]) == (key@, ns@),
            r is None ==> forall|i: int|
                0 <= i < self@.len() ==> #[trigger] spec_row_id(self@[i]) != (key@, ns@),
    {
        let n: usize = self.rows.len();
        let mut i: usize = 0;
        while i < n
            invariant
                n == self.rows@.len(),
                0 <= i <= n,
                forall|j: int| 0 <= j < i ==> #[trigger] spec_row_id(self.rows@[j]) != (key@, ns@),
            decreases n - i,
        {
            if str_eq(self.rows[i].key.as_str(), key) && str_eq(
                self.rows[i].namespace.as_str(),
                ns,
            ) {
                return Some(i);
            }
            i = i + 1;
        }
        None
    }

    /// Store a key-value pair with encryption, at time `now`.
    ///
    /// The value is encrypted under the engine's master key with a fresh
    /// salt and nonce; the row is inserted or overwritten, and an overwrite
    /// keeps the original creation time.  A malformed expiry string is
    /// rejected; a failed encryption surfaces as a database error.
    pub fn store_at(
        &mut self,
        key: &str,
        value: &str,
        namespace: Option<&str>,
        expiry: Option<&str>,
        biometric_required: bool,
        exportable: bool,
        now: i64,
    ) -> (r: Result<(), StorageError>)
        requires
            old(self).wf(),
        ensures
            final(self).wf(),
            final(self).spec_master() == old(self).spec_master(),
            r is Err ==> final(self)@ == old(self)@,
            r matches Err(e) ==> (e is DatabaseError || e is SerializationError),
            expiry matches Some(x) && spec_expiry_duration_ms(x@) is None ==> r is Err,
            expiry matches Some(x) && spec_expiry_duration_ms(x@) is None && encode_utf8(
                value@,
            ).len() <= 0x10_0000_0000 ==> (r matches Err(e) && e is SerializationError),
            spec_expiry_ok(expiry, now) && encode_utf8(value@).len() <= 0x10_0000_0000 ==> r
                is Ok,
            r is Ok ==> {
                let id = (key@, spec_ns_of(namespace));
                let e = final(self).spec_entries()[id];
                &&& final(self).spec_entries() =~= old(self).spec_entries().insert(id, e)
                &&& e.key@ == key@
                &&& e.namespace@ == spec_ns_of(namespace)
                &&& spec_is_encryption_of(e.encrypted_value@, old(self).spec_master(), value@)
                &&& e.created_at == (if old(self).spec_entries().contains_key(id) {
                    old(self).spec_entries()[id].created_at
                } else {
                    now
                })
                &&& e.updated_at == now
                &&& e.biometric_required == biometric_required
                &&& e.exportable == exportable
                &&& e.expires_at == (match expiry {
                    None => None::<i64>,
                    Some(x) => Some((now + spec_expiry_duration_ms(x@).unwrap()) as i64),
                })
            },
    {
        let ns: &str = match namespace {
            Some(s) => s,
            None => "default",
        };
        let encrypted: String = match crypto::encrypt_to_base64(value, self.master_key.as_str()) {
            Ok(s) => s,
            Err(_) => {
                return Err(StorageError::DatabaseError("encryption failed".to_owned()));
            },
        };
        let expires_at: Option<i64> = match expiry {
            None => None,
            Some(x) => Some(parse_expiry_at(x, now)?),
        };
        let existing: Option<usize> = self.find_row(key, ns);
        let created_at: i64 = match existing {
            Some(i) => self.rows[i].created_at,
            None => now,
        };
        let entry = StoredEntry {
            key: key.to_owned(),
            encrypted_value: encrypted,
            namespace: ns.to_owned(),
            expires_at,
            biometric_required,
            exportable,
            created_at,
            updated_at: now,
        };
        match existing {
            Some(i) => {
                proof {
                    lemma_vault_map_index(self.rows@, i as int);
                    lemma_vault_map_update(self.rows@, i as int, entry);
                }
                self.rows.set(i, entry);
            },
            None => {
                proof {
                    lemma_vault_map_absent(self.rows@, spec_row_id(entry));
                    lemma_vault_map_push(self.rows@, entry);
                }
                self.rows.push(entry);
            },
        }
        Ok(())
    }

    /// Retrieve and decrypt a value by key, at time `now`.
    ///
    /// An absent key reads as `None`; an expired entry is purged and
    /// reported; a biometric-gated entry demands authentication; otherwise
    /// whatever plaintext the stored blob encrypts under the master key
    /// comes back.
    pub fn retrieve_at(&mut self, key: &str, namespace: Option<&str>, biometric_authenticated: bool, now: i64) -> (r:
        Result<Option<String>, StorageError>)
        requires
            old(self).wf(),
        ensures
            final(self).wf(),
            final(self).spec_master() == old(self).spec_master(),
            ({
                let id = (key@, spec_ns_of(namespace));
                let entries = old(self).spec_entries();
                if !entries.contains_key(id) {
                    r == Result::<Option<String>, StorageError>::Ok(None::<String>)
                        && final(self)@ == old(self)@
                } else if spec_read_expired(entries[id], now) {
                    (r matches Err(e) && e is KeyExpired) && final(self).spec_entries()
                        =~= entries.remove(id)
                } else if entries[id].biometric_required && !biometric_authenticated {
                    (r matches Err(e) && e is BiometricRequired) && final(self)@ == old(self)@
                } else {
                    final(self)@ == old(self)@ && (forall|p: Seq<char>|
                        #[trigger] spec_is_encryption_of(
                            entries[id].encrypted_value@,
                            old(self).spec_master(),
                            p,
                        ) ==> (r matches Ok(v) && v matches Some(sv) && sv@ == p))
                }
            }),
    {
        let ns: &str = match namespace {
            Some(s) => s,
            None => "default",
        };
        let found: Option<usize> = self.find_row(key, ns);
        match found {
            None => {
                proof {
                    lemma_vault_map_absent(self.rows@, (key@, ns@));
                }
                Ok(None)
            },
            Some(i) => {
                proof {
                    lemma_vault_map_index(self.rows@, i as int);
                }
                let expired: bool = match self.rows[i].expires_at {
                    Some(t) => now > t,
                    None => false,
                };
                if expired {
                    proof {
                        lemma_vault_map_remove(self.rows@, i as int);
                    }
                    self.rows.remove(i);
                    return Err(StorageError::KeyExpired(key.to_owned()));
                }
                if self.rows[i].biometric_required && !biometric_authenticated {
                    return Err(StorageError::BiometricRequired);
                }
                let decrypted: Result<String, crypto::CryptoError> = crypto::decrypt_from_base64(
                    self.rows[i].encrypted_value.as_str(),
                    self.master_key.as_str(),
                );
                match decrypted {
                    Ok(v) => {
                        proof {
                            assert forall|p: Seq<char>|
                                #[trigger] spec_is_encryption_of(
                                    old(self).spec_entries()[(key@, ns@)].encrypted_value@,
                                    old(self).spec_master(),
                                    p,
                                ) implies v@ == p by {}
                        }
                        Ok(Some(v))
                    },
                    Err(_) => Err(
                        StorageError::DatabaseError("decryption failed".to_owned()),
                    ),
                }
            },
        }
    }

    /// Delete a key: says whether a row was removed.
    pub fn delete(&mut self, key: &str, namespace: Option<&str>) -> (r: Result<
        bool,
        StorageError,
    >)
        requires
            old(self).wf(),
        ensures
            final(self).wf(),
            final(self).spec_master() == old(self).spec_master(),
            ({
                let id = (key@, spec_ns_of(namespace));
                &&& r == Result::<bool, StorageError>::Ok(
                    old(self).spec_entries().contains_key(id),
                )
                &&& final(self).spec_entries() =~= old(self).spec_entries().remove(id)
            }),
    {
        let ns: &str = match namespace {
            Some(s) => s,
            None => "default",
        };
        match self.find_row(key, ns) {
            Some(i) => {
                proof {
                    lemma_vault_map_index(self.rows@, i as int);
                    lemma_vault_map_remove(self.rows@, i as int);
                }
                self.rows.remove(i);
                Ok(true)
            },
            None => {
                proof {
                    lemma_vault_map_absent(self.rows@, (key@, ns@));
                    assert(spec_vault_map(self.rows@).remove((key@, ns@)) =~= spec_vault_map(
                        self.rows@,
                    ));
                }
                Ok(false)
            },
        }
    }

    /// Whether a key exists and has not expired, at time `now`.
    pub fn exists_at(&self, key: &str, namespace: Option<&str>, now: i64) -> (r: Result<
        bool,
        StorageError,
    >)
        requires
            self.wf(),
        ensures
            ({
                let id = (key@, spec_ns_of(namespace));
                r == Result::<bool, StorageError>::Ok(
                    self.spec_entries().contains_key(id) && spec_live(self.spec_entries()[id], now),
                )
            }),
    {
        let ns: &str = match namespace {
            Some(s) => s,
            None => "default",
        };
        match self.find_row(key, ns) {
            Some(i) => {
                proof {
                    lemma_vault_map_index(self.rows@, i as int);
                }
                let live: bool = match self.rows[i].expires_at {
                    Some(t) => t > now,
                    None => true,
                };
                Ok(live)
            },
            None => {
                proof {
                    lemma_vault_map_absent(self.rows@, (key@, ns@));
                }
                Ok(false)
            },
        }
    }

    /// All live keys in a namespace at time `now`, in ascending code-point
    /// order.
    pub fn list_keys_at(&self, namespace: Option<&str>, now: i64) -> (r: Result<
        Vec<String>,
        StorageError,
    >)
        requires
            self.wf(),
        ensures
            r matches Ok(keys) ==> {
                &&& spec_sorted_strings(keys@)
                &&& (forall|x: int, y: int|
                    0 <= x < y < keys@.len() ==> (#[trigger] keys@[x]@) != (#[trigger] keys@[y]@))
                &&& forall|i: int|
                    0 <= i < keys@.len() ==> self.spec_entries().contains_key(
                        (#[trigger] keys@[i]@, spec_ns_of(namespace)),
                    ) && spec_live(self.spec_entries()[(keys@[i]@, spec_ns_of(namespace))], now)
                &&& forall|j: int|
                    0 <= j < self@.len() && (#[trigger] self@[j].namespace@) == spec_ns_of(
                        namespace,
                    ) && spec_live(self@[j], now) ==> exists|i: int|
                        0 <= i < keys@.len() && (#[trigger] keys@[i]@) == self@[j].key@
            },
            r is Ok,
    {
        let ns: &str = match namespace {
            Some(s) => s,
            None => "default",
        };
        let n: usize = self.rows.len();
        let mut collected: Vec<String> = Vec::new();
        let mut i: usize = 0;
        while i < n
            invariant
                self.wf(),
                n == self@.len(),
                0 <= i <= n,
                ns@ == spec_ns_of(namespace),
                forall|x: int|
                    0 <= x < collected@.len() ==> exists|j: int|
                        0 <= j < i && (#[trigger] collected@[x]@) == self@[j].key@
                            && self@[j].namespace@ == ns@ && spec_live(self@[j], now),
                forall|j: int|
                    0 <= j < i && (#[trigger] self@[j].namespace@) == ns@ && spec_live(
                        self@[j],
                        now,
                    ) ==> exists|x: int|
                        0 <= x < collected@.len() && (#[trigger] collected@[x]@) == self@[j].key@,
                forall|x: int, y: int|
                    0 <= x < y < collected@.len() ==> (#[trigger] collected@[x]@) != (
                    #[trigger] collected@[y]@),
            decreases n - i,
        {
            let row_ns_matches: bool = str_eq(self.rows[i].namespace.as_str(), ns);
            let live: bool = match self.rows[i].expires_at {
                Some(t) => t > now,
                None => true,
            };
            let ghost oldc = collected@;
            if row_ns_matches && live {
                collected.push(self.rows[i].key.clone());
            }
            proof {
                assert forall|j: int|
                    0 <= j < i + 1 && (#[trigger] self@[j].namespace@) == ns@ && spec_live(
                        self@[j],
                        now,
                    ) implies exists|x: int|
                    0 <= x < collected@.len() && (#[trigger] collected@[x]@) == self@[j].key@ by {
                    if j == i {
                        assert(collected@[collected@.len() - 1]@ == self@[j].key@);
                    } else {
                        let x: int = choose|x: int|
                            0 <= x < oldc.len() && (#[trigger] oldc[x]@) == self@[j].key@;
                        assert(collected@[x]@ == self@[j].key@);
                    }
                }
                assert forall|x: int, y: int|
                    0 <= x < y < collected@.len() implies (#[trigger] collected@[x]@) != (
                #[trigger] collected@[y]@) by {
                    if y == oldc.len() && collected@.len() > oldc.len() {
                        if collected@[x]@ == collected@[y]@ {
                            let j: int = choose|j: int|
                                0 <= j < i && (#[trigger] oldc[x]@) == self@[j].key@
                                    && self@[j].namespace@ == ns@ && spec_live(self@[j], now);
                            assert(spec_row_id(self@[j]) == spec_row_id(self@[i as int]));
                        }
                    }
                }
            }
            i = i + 1;
        }
        let keys: Vec<String> = crate::text::sort_strings(&collected);
        proof {
            crate::text::lemma_same_views(keys@, collected@);
            crate::text::lemma_distinct_views(keys@, collected@);
            assert forall|x: int| 0 <= x < keys@.len() implies self.spec_entries().contains_key(
                ((#[trigger] keys@[x]@), spec_ns_of(namespace)),
            ) && spec_live(self.spec_entries()[(keys@[x]@, spec_ns_of(namespace))], now) by {
                assert(crate::text::spec_views(collected@).contains(keys@[x]@));
                let y: int = choose|y: int|
                    0 <= y < crate::text::spec_views(collected@).len() && crate::text::spec_views(
                        collected@,
                    )[y] == keys@[x]@;
                assert(collected@[y]@ == keys@[x]@);
                let j: int = choose|j: int|
                    0 <= j < n && (#[trigger] collected@[y]@) == self@[j].key@
                        && self@[j].namespace@ == ns@ && spec_live(self@[j], now);
                lemma_vault_map_index(self@, j);
            }
            assert forall|j: int|
                0 <= j < self@.len() && (#[trigger] self@[j].namespace@) == spec_ns_of(namespace)
                    && spec_live(self@[j], now) implies exists|i2: int|
                0 <= i2 < keys@.len() && (#[trigger] keys@[i2]@) == self@[j].key@ by {
                let x: int = choose|x: int|
                    0 <= x < collected@.len() && (#[trigger] collected@[x]@) == self@[j].key@;
                assert(crate::text::spec_views(keys@).contains(collected@[x]@));
                let i2: int = choose|i2: int|
                    0 <= i2 < crate::text::spec_views(keys@).len() && crate::text::spec_views(
                        keys@,
                    )[i2] == collected@[x]@;
                assert(keys@[i2]@ == self@[j].key@);
            }
        }
        Ok(keys)
    }

    /// All namespaces present in the table, in ascending code-point order.
    pub fn list_namespaces(&self) -> (r: Result<Vec<String>, StorageError>)
        requires
            self.wf(),
        ensures
            r matches Ok(nss) ==> spec_ns_listing_ok(nss@, self@),
            r is Ok,
    {
        let n: usize = self.rows.len();
        let mut collected: Vec<String> = Vec::new();
        let mut i: usize = 0;
        while i < n
            invariant
                n == self@.len(),
                0 <= i <= n,
                spec_ns_collected_sound(collected@, self@, i as int),
                spec_ns_collected_complete(collected@, self@, i as int),
            decreases n - i,
        {
            let mut found: Option<usize> = None;
            let mut x: usize = 0;
            let m: usize = collected.len();
            while x < m && found.is_none()
                invariant
                    m == collected@.len(),
                    0 <= x <= m,
                    i < n,
                    n == self@.len(),
                    found matches Some(y) ==> y < m && collected@[y as int]@ == self@[
                        i as int
                    ].namespace@,
                decreases m - x, (if found is None { 1int } else { 0int }),
            {
                if str_eq(collected[x].as_str(), self.rows[i].namespace.as_str()) {
                    found = Some(x);
                } else {
                    x = x + 1;
                }
            }
            let ghost oldc = collected@;
            let ghost dup_found: bool = found is Some;
            let ghost yg: int = if found is Some { found.unwrap() as int } else { 0int };
            if found.is_none() {
                collected.push(self.rows[i].namespace.clone());
            }
            proof {
                lemma_ns_collect_step(self@, oldc, collected@, i as int, dup_found, yg);
            }
            i = i + 1;
        }
        let nss: Vec<String> = crate::text::sort_strings(&collected);
        proof {
            crate::text::lemma_same_views(nss@, collected@);
            assert(collected@.len() == crate::text::spec_views(collected@).len());
            assert(spec_ns_collected_sound(nss@, self@, self@.len() as int)) by {
                assert forall|x: int| 0 <= x < nss@.len() implies spec_ns_views(
                    self@.take(self@.len() as int),
                ).contains(#[trigger] nss@[x]@) by {
                    assert(crate::text::spec_views(collected@).contains(nss@[x]@));
                    let y: int = choose|y: int|
                        0 <= y < crate::text::spec_views(collected@).len()
                            && crate::text::spec_views(collected@)[y] == nss@[x]@;
                    assert(collected@[y]@ == nss@[x]@);
                    assert(spec_ns_views(self@.take(n as int)).contains(collected@[y]@));
                }
            }
            assert(spec_ns_collected_complete(nss@, self@, self@.len() as int)) by {
                assert forall|j: int| 0 <= j < self@.len() implies crate::text::spec_views(
                    nss@,
                ).contains(#[trigger] self@[j].namespace@) by {
                    assert(crate::text::spec_views(collected@).contains(self@[j].namespace@));
                    let y: int = choose|y: int|
                        0 <= y < crate::text::spec_views(collected@).len()
                            && crate::text::spec_views(collected@)[y] == self@[j].namespace@;
                    assert(crate::text::spec_views(nss@).contains(collected@[y]@));
                }
            }
            assert(self@.take(self@.len() as int) =~= self@);
        }
                Ok(nss)
    }

    /// Remove every entry in a namespace.
    pub fn wipe_namespace(&mut self, namespace: &str) -> (r: Result<(), StorageError>)
        requires
            old(self).wf(),
        ensures
            final(self).wf(),
            final(self).spec_master() == old(self).spec_master(),
            final(self)@ =~= old(self)@.filter(|e: StoredEntry| e.namespace@ != namespace@),
            r is Ok,
    {
        let n: usize = self.rows.len();
        let mut kept: Vec<StoredEntry> = Vec::new();
        let mut i: usize = 0;
        while i < n
            invariant
                n == old(self)@.len(),
                self@ == old(self)@,
                self.wf(),
                0 <= i <= n,
                kept@ =~= old(self)@.take(i as int).filter(
                    |e: StoredEntry| e.namespace@ != namespace@,
                ),
            decreases n - i,
        {
            proof {
                assert(old(self)@.take(i + 1).drop_last() =~= old(self)@.take(i as int));
                assert(old(self)@.take(i + 1).last() == old(self)@[i as int]);
            }
            let keep: bool = !str_eq(self.rows[i].namespace.as_str(), namespace);
            proof {
                reveal(Seq::filter);
            }
            if keep {
                let e: StoredEntry = self.rows[i].duplicate();
                kept.push(e);
            }
            i = i + 1;
        }
        proof {
            assert(old(self)@.take(n as int) =~= old(self)@);
            lemma_vault_filter_unique(old(self)@, |e: StoredEntry| e.namespace@ != namespace@);
        }
        self.rows = kept;
        Ok(())
    }

    /// Remove everything.  The durable layer additionally compacts its
    /// backing file when it mirrors this wipe.
    pub fn wipe_all(&mut self) -> (r: Result<(), StorageError>)
        requires
            old(self).wf(),
        ensures
            final(self).wf(),
            final(self).spec_master() == old(self).spec_master(),
            final(self)@ =~= Seq::<StoredEntry>::empty(),
            r is Ok,
    {
        self.rows.clear();
        Ok(())
    }
}

/// How many of the rows have an expiry at or before `now`.
pub open spec fn spec_count_expired(s: Seq<StoredEntry>, now: i64) -> int
    decreases s.len(),
{
    if s.len() == 0 {
        0
    } else {
        spec_count_expired(s.drop_last(), now) + (if s.last().expires_at matches Some(t) && t
            <= now {
            1int
        } else {
            0int
        })
    }
}

/// The byte length of a string as the platform reports it.
pub open spec fn spec_byte_len(v: Seq<char>) -> int {
    (encode_utf8(v).len() as usize) as int
}

/// The total byte length of the stored encrypted values.
pub open spec fn spec_sum_bytes(s: Seq<StoredEntry>) -> int
    decreases s.len(),
{
    if s.len() == 0 {
        0
    } else {
        spec_sum_bytes(s.drop_last()) + spec_byte_len(s.last().encrypted_value@)
    }
}

/// The set of namespaces the rows use.
pub open spec fn spec_ns_set(s: Seq<StoredEntry>) -> Set<Seq<char>>
    decreases s.len(),
{
    if s.len() == 0 {
        Set::empty()
    } else {
        spec_ns_set(s.drop_last()).insert(s.last().namespace@)
    }
}

/// Membership in the namespace set is having a row with that namespace.
proof fn lemma_ns_set_contains(s: Seq<StoredEntry>, ns: Seq<char>)
    ensures
        spec_ns_set(s).contains(ns) <==> exists|i: int|
            0 <= i < s.len() && (#[trigger] s[i].namespace@) == ns,
    decreases s.len(),
{
    if s.len() > 0 {
        lemma_ns_set_contains(s.drop_last(), ns);
        if spec_ns_set(s).contains(ns) {
            if s.last().namespace@ == ns {
                assert(s[s.len() - 1].namespace@ == ns);
            } else {
                let i: int = choose|i: int|
                    0 <= i < s.drop_last().len() && (#[trigger] s.drop_last()[i].namespace@) == ns;
                assert(s[i].namespace@ == ns);
            }
        }
        if exists|i: int| 0 <= i < s.len() && (#[trigger] s[i].namespace@) == ns {
            let i: int = choose|i: int| 0 <= i < s.len() && (#[trigger] s[i].namespace@) == ns;
            if i < s.len() - 1 {
                assert(s.drop_last()[i].namespace@ == ns);
            }
        }
    }
}

/// The namespace set is always finite.
proof fn lemma_ns_set_finite(s: Seq<StoredEntry>)
    ensures
        spec_ns_set(s).finite(),
    decreases s.len(),
{
    if s.len() > 0 {
        lemma_ns_set_finite(s.drop_last());
    }
}

impl StorageEngine {
    /// Storage statistics at time `now`: row count, distinct namespaces,
    /// expired rows, and the bytes held in encrypted values (saturated).
    pub fn get_stats_at(&self, now: i64) -> (r: Result<StorageStats, StorageError>)
        requires
            self.wf(),
        ensures
            r matches Ok(st) ==> {
                &&& st.total_entries == self@.len()
                &&& st.total_namespaces == spec_ns_set(self@).len()
                &&& st.expired_entries == spec_count_expired(self@, now)
                &&& st.storage_bytes == (if spec_sum_bytes(self@) <= u64::MAX {
                    spec_sum_bytes(self@)
                } else {
                    u64::MAX as int
                })
            },
            r is Ok,
    {
        let n: usize = self.rows.len();
        let mut expired: u64 = 0;
        let mut bytes: u128 = 0;
        let mut i: usize = 0;
        while i < n
            invariant
                self.wf(),
                n == self@.len(),
                0 <= i <= n,
                expired == spec_count_expired(self@.take(i as int), now),
                expired <= i,
                bytes == spec_sum_bytes(self@.take(i as int)),
                bytes <= i * 0xFFFF_FFFF_FFFF_FFFFu128,
            decreases n - i,
        {
            proof {
                assert(self@.take(i + 1).drop_last() =~= self@.take(i as int));
                assert(self@.take(i + 1).last() == self@[i as int]);
                assert((i as int + 1) * 0xFFFF_FFFF_FFFF_FFFF == i as int * 0xFFFF_FFFF_FFFF_FFFF
                    + 0xFFFF_FFFF_FFFF_FFFF) by (nonlinear_arith);
            }
            let is_expired: bool = match self.rows[i].expires_at {
                Some(t) => t <= now,
                None => false,
            };
            if is_expired {
                expired = expired + 1;
            }
            let len_i: usize = self.rows[i].encrypted_value.as_str().len();
            proof {
                assert(len_i == spec_byte_len(self@[i as int].encrypted_value@));
                assert(spec_sum_bytes(self@.take(i + 1)) == spec_sum_bytes(self@.take(i as int))
                    + spec_byte_len(self@[i as int].encrypted_value@));
            }
            bytes = bytes + (len_i as u128);
            i = i + 1;
        }
        let mut namespaces: u64 = 0;
        let mut j: usize = 0;
        proof {
            lemma_ns_set_finite(self@.take(0));
        }
        while j < n
            invariant
                self.wf(),
                n == self@.len(),
                0 <= j <= n,
                spec_ns_set(self@.take(j as int)).finite(),
                namespaces == spec_ns_set(self@.take(j as int)).len(),
                namespaces <= j,
            decreases n - j,
        {
            proof {
                assert(self@.take(j + 1).drop_last() =~= self@.take(j as int));
                assert(self@.take(j + 1).last() == self@[j as int]);
            }
            let mut seen: bool = false;
            let mut x: usize = 0;
            while x < j
                invariant
                    n == self@.len(),
                    0 <= x <= j < n,
                    seen ==> exists|y: int|
                        0 <= y < j && (#[trigger] self@[y].namespace@) == self@[j as int].namespace@,
                    !seen ==> forall|y: int|
                        0 <= y < x ==> (#[trigger] self@[y].namespace@) != self@[j as int].namespace@,
                decreases j - x,
            {
                if str_eq(self.rows[x].namespace.as_str(), self.rows[j].namespace.as_str()) {
                    seen = true;
                    x = j;
                } else {
                    x = x + 1;
                }
            }
            proof {
                lemma_ns_set_contains(self@.take(j as int), self@[j as int].namespace@);
                lemma_ns_set_finite(self@.take(j + 1));
                vstd::set::axiom_set_insert_len(
                    spec_ns_set(self@.take(j as int)),
                    self@[j as int].namespace@,
                );
                if seen {
                    let y: int = choose|y: int|
                        0 <= y < j && (#[trigger] self@[y].namespace@)
                            == self@[j as int].namespace@;
                    assert(self@.take(j as int)[y].namespace@ == self@[j as int].namespace@);
                    assert(spec_ns_set(self@.take(j as int)).contains(self@[j as int].namespace@));
                } else {
                    assert forall|y: int| 0 <= y < j implies (#[trigger] self@.take(
                        j as int,
                    )[y].namespace@) != self@[j as int].namespace@ by {}
                    assert(!spec_ns_set(self@.take(j as int)).contains(
                        self@[j as int].namespace@,
                    ));
                }
            }
            if !seen {
                namespaces = namespaces + 1;
            }
            j = j + 1;
        }
        proof {
            assert(self@.take(n as int) =~= self@);
        }
        let storage_bytes: u64 = if bytes > u64::MAX as u128 {
            u64::MAX
        } else {
            bytes as u64
        };
        Ok(
            StorageStats {
                total_entries: n as u64,
                total_namespaces: namespaces,
                expired_entries: expired,
                storage_bytes,
            },
        )
    }

    /// Delete every entry whose expiry has passed, at time `now`; says how
    /// many rows went.
    pub fn cleanup_expired_at(&mut self, now: i64) -> (r: Result<u64, StorageError>)
        requires
            old(self).wf(),
        ensures
            final(self).wf(),
            final(self).spec_master() == old(self).spec_master(),
            final(self)@ =~= spec_swept(old(self)@, now),
            r == Result::<u64, StorageError>::Ok(
                (old(self)@.len() - final(self)@.len()) as u64,
            ),
    {
        let n: usize = self.rows.len();
        let mut kept: Vec<StoredEntry> = Vec::new();
        let mut i: usize = 0;
        while i < n
            invariant
                n == old(self)@.len(),
                self@ == old(self)@,
                self.wf(),
                0 <= i <= n,
                kept@ =~= spec_swept(old(self)@.take(i as int), now),
                kept@.len() <= i,
            decreases n - i,
        {
            proof {
                assert(old(self)@.take(i + 1).drop_last() =~= old(self)@.take(i as int));
                assert(old(self)@.take(i + 1).last() == old(self)@[i as int]);
            }
            let keep: bool = match self.rows[i].expires_at {
                Some(t) => t > now,
                None => true,
            };
            proof {
                assert(keep == spec_live_or_unexpired(old(self)@[i as int], now));
            }
            if keep {
                let e: StoredEntry = self.rows[i].duplicate();
                kept.push(e);
            }
            i = i + 1;
        }
        proof {
            assert(old(self)@.take(n as int) =~= old(self)@);
            lemma_swept_unique(old(self)@, now);
            lemma_swept_from(old(self)@, now);
        }
        let removed: usize = n - kept.len();
        self.rows = kept;
        Ok(removed as u64)
    }

    /// Export an entry's raw encrypted blob, policy allowing: an absent key
    /// exports as `None`, a non-exportable entry is refused.
    pub fn export_entry(&self, key: &str, namespace: Option<&str>) -> (r: Result<
        Option<String>,
        StorageError,
    >)
        requires
            self.wf(),
        ensures
            ({
                let id = (key@, spec_ns_of(namespace));
                let entries = self.spec_entries();
                if !entries.contains_key(id) {
                    r matches Ok(v) && v is None
                } else if !entries[id].exportable {
                    r matches Err(e) && e is NotExportable
                } else {
                    r matches Ok(v) && v matches Some(blob) && blob@ == entries[
                        id
                    ].encrypted_value@
                }
            }),
    {
        let ns: &str = match namespace {
            Some(s) => s,
            None => "default",
        };
        match self.find_row(key, ns) {
            None => {
                proof {
                    lemma_vault_map_absent(self.rows@, (key@, ns@));
                }
                Ok(None)
            },
            Some(i) => {
                proof {
                    lemma_vault_map_index(self.rows@, i as int);
                }
                if !self.rows[i].exportable {
                    return Err(StorageError::NotExportable);
                }
                Ok(Some(self.rows[i].encrypted_value.clone()))
            },
        }
    }

    /// Import a previously exported blob as-is, without re-encrypting, at
    /// time `now`.  Unlike `store_at`, an import stamps a fresh creation
    /// time even when it overwrites.
    pub fn import_entry_at(
        &mut self,
        key: &str,
        encrypted_data: &str,
        namespace: Option<&str>,
        expiry: Option<&str>,
        biometric_required: bool,
        exportable: bool,
        now: i64,
    ) -> (r: Result<(), StorageError>)
        requires
            old(self).wf(),
        ensures
            final(self).wf(),
            final(self).spec_master() == old(self).spec_master(),
            r is Err ==> final(self)@ == old(self)@,
            r matches Err(e) ==> e is SerializationError,
            r is Ok <==> spec_expiry_ok(expiry, now),
            r is Ok ==> {
                let id = (key@, spec_ns_of(namespace));
                let e = final(self).spec_entries()[id];
                &&& final(self).spec_entries() =~= old(self).spec_entries().insert(id, e)
                &&& e.key@ == key@
                &&& e.namespace@ == spec_ns_of(namespace)
                &&& e.encrypted_value@ == encrypted_data@
                &&& e.created_at == now
                &&& e.updated_at == now
                &&& e.biometric_required == biometric_required
                &&& e.exportable == exportable
                &&& e.expires_at == (match expiry {
                    None => None::<i64>,
                    Some(x) => Some((now + spec_expiry_duration_ms(x@).unwrap()) as i64),
                })
            },
    {
        let ns: &str = match namespace {
            Some(s) => s,
            None => "default",
        };
        let expires_at: Option<i64> = match expiry {
            None => None,
            Some(x) => Some(parse_expiry_at(x, now)?),
        };
        let entry = StoredEntry {
            key: key.to_owned(),
            encrypted_value: encrypted_data.to_owned(),
            namespace: ns.to_owned(),
            expires_at,
            biometric_required,
            exportable,
            created_at: now,
            updated_at: now,
        };
        match self.find_row(key, ns) {
            Some(i) => {
                proof {
                    lemma_vault_map_update(self.rows@, i as int, entry);
                }
                self.rows.set(i, entry);
            },
            None => {
                proof {
                    lemma_vault_map_absent(self.rows@, spec_row_id(entry));
                    lemma_vault_map_push(self.rows@, entry);
                }
                self.rows.push(entry);
            },
        }
        Ok(())
    }
}

/// Whether a row survives an expiry sweep at time `now`.
pub open spec fn spec_live_or_unexpired(e: StoredEntry, now: i64) -> bool {
    match e.expires_at {
        None => true,
        Some(t) => t > now,
    }
}

/// The rows an expiry sweep at time `now` leaves behind, in order.
pub open spec fn spec_swept(rows: Seq<StoredEntry>, now: i64) -> Seq<StoredEntry>
    decreases rows.len(),
{
    if rows.len() == 0 {
        Seq::empty()
    } else if spec_live_or_unexpired(rows.last(), now) {
        spec_swept(rows.drop_last(), now).push(rows.last())
    } else {
        spec_swept(rows.drop_last(), now)
    }
}

/// A sweep keeps only rows of the input, never more of them.
proof fn lemma_swept_from(rows: Seq<StoredEntry>, now: i64)
    ensures
        spec_swept(rows, now).len() <= rows.len(),
        forall|k: int|
            0 <= k < spec_swept(rows, now).len() ==> rows.contains(
                #[trigger] spec_swept(rows, now)[k],
            ),
    decreases rows.len(),
{
    if rows.len() > 0 {
        lemma_swept_from(rows.drop_last(), now);
        assert forall|k: int|
            0 <= k < spec_swept(rows, now).len() implies rows.contains(
            #[trigger] spec_swept(rows, now)[k],
        ) by {
            let sw = spec_swept(rows, now);
            if k < spec_swept(rows.drop_last(), now).len() {
                assert(sw[k] == spec_swept(rows.drop_last(), now)[k]);
                let j: int = choose|j: int|
                    0 <= j < rows.drop_last().len() && rows.drop_last()[j] == sw[k];
                assert(rows[j] == sw[k]);
            } else {
                assert(sw[k] == rows.last());
                assert(rows[rows.len() - 1] == sw[k]);
            }
        }
    }
}

/// A sweep of a duplicate-free row list stays duplicate-free.
proof fn lemma_swept_unique(rows: Seq<StoredEntry>, now: i64)
    requires
        spec_vault_unique(rows),
    ensures
        spec_vault_unique(spec_swept(rows, now)),
    decreases rows.len(),
{
    if rows.len() > 0 {
        let dl = rows.drop_last();
        assert(spec_vault_unique(dl));
        lemma_swept_unique(dl, now);
        lemma_swept_from(dl, now);
        if spec_live_or_unexpired(rows.last(), now) {
            let f = spec_swept(dl, now).push(rows.last());
            assert forall|i: int|
                0 <= i < spec_swept(dl, now).len() implies #[trigger] spec_row_id(
                spec_swept(dl, now)[i],
            ) != spec_row_id(rows.last()) by {
                let j: int = choose|j: int|
                    0 <= j < dl.len() && dl[j] == spec_swept(dl, now)[i];
                assert(rows[j] == dl[j]);
                assert(spec_row_id(rows[j]) != spec_row_id(rows[rows.len() - 1]));
            }
            assert forall|a: int, b: int| 0 <= a < b < f.len() implies #[trigger] spec_row_id(
                f[a],
            ) != #[trigger] spec_row_id(f[b]) by {
                if b < f.len() - 1 {
                    assert(f[a] == spec_swept(dl, now)[a]);
                    assert(f[b] == spec_swept(dl, now)[b]);
                } else {
                    assert(f[a] == spec_swept(dl, now)[a]);
                    assert(f[b] == rows.last());
                }
            }
        }
    }
}

/// How many milliseconds one unit letter stands for.
pub open spec fn spec_unit_ms(c: char) -> Option<int> {
    if c == 'm' {
        Some(60000int)
    } else if c == 'h' {
        Some(3600000int)
    } else if c == 'd' {
        Some(86400000int)
    } else if c == 'w' {
        Some(604800000int)
    } else {
        None
    }
}

/// ASCII whitespace, as trimmed from expiry strings.
pub open spec fn spec_is_space(c: char) -> bool {
    c == ' ' || c == '\t' || c == '\n' || c == '\r'
}

/// The sequence with leading whitespace removed.
pub open spec fn spec_trim_front(s: Seq<char>) -> Seq<char>
    decreases s.len(),
{
    if s.len() > 0 && spec_is_space(s[0]) {
        spec_trim_front(s.drop_first())
    } else {
        s
    }
}

/// The sequence with trailing whitespace removed.
pub open spec fn spec_trim_back(s: Seq<char>) -> Seq<char>
    decreases s.len(),
{
    if s.len() > 0 && spec_is_space(s.last()) {
        spec_trim_back(s.drop_last())
    } else {
        s
    }
}

/// The sequence with whitespace removed at both ends.
pub open spec fn spec_trim(s: Seq<char>) -> Seq<char> {
    spec_trim_back(spec_trim_front(s))
}

/// An ASCII decimal digit.
pub open spec fn spec_is_digit(c: char) -> bool {
    '0' <= c && c <= '9'
}

/// The value of a digit string, most significant digit first.
pub open spec fn spec_digits_value(s: Seq<char>) -> int
    decreases s.len(),
{
    if s.len() == 0 {
        0
    } else {
        spec_digits_value(s.drop_last()) * 10 + (s.last() as u32 - 48)
    }
}

/// Whether every character is a digit.
pub open spec fn spec_all_digits(s: Seq<char>) -> bool {
    forall|i: int| 0 <= i < s.len() ==> spec_is_digit(#[trigger] s[i])
}

/// The signed integer a string parses to, with the usual optional sign,
/// rejecting anything else or anything outside the `i64` range.
pub open spec fn spec_int_value(s: Seq<char>) -> Option<int> {
    let (neg, digits): (bool, Seq<char>) = if s.len() > 0 && (s[0] == '-' || s[0] == '+') {
        (s[0] == '-', s.drop_first())
    } else {
        (false, s)
    };
    if digits.len() == 0 || !spec_all_digits(digits) {
        None
    } else {
        let v = if neg {
            -spec_digits_value(digits)
        } else {
            spec_digits_value(digits)
        };
        if i64::MIN <= v <= i64::MAX {
            Some(v)
        } else {
            None
        }
    }
}

/// The duration in milliseconds an expiry string denotes: a trimmed
/// `"<N><U>"` with `U` one of m/h/d/w, or nothing.
pub open spec fn spec_expiry_duration_ms(s: Seq<char>) -> Option<int> {
    let t = spec_trim(s);
    if t.len() == 0 {
        None
    } else {
        match spec_unit_ms(t.last()) {
            None => None,
            Some(mult) => match spec_int_value(t.drop_last()) {
                None => None,
                Some(n) => Some(n * mult),
            },
        }
    }
}

/// Leading whitespace corresponds to skipping a prefix.
proof fn lemma_trim_front_skip(s: Seq<char>, k: int)
    requires
        0 <= k <= s.len(),
        forall|i: int| 0 <= i < k ==> spec_is_space(#[trigger] s[i]),
        k == s.len() || !spec_is_space(s[k]),
    ensures
        spec_trim_front(s) == s.skip(k),
    decreases k,
{
    if k == 0 {
        assert(s.skip(0) =~= s);
    } else {
        lemma_trim_front_skip(s.drop_first(), k - 1);
        assert(s.drop_first().skip(k - 1) =~= s.skip(k));
    }
}

/// Trailing whitespace corresponds to taking a prefix.
proof fn lemma_trim_back_take(s: Seq<char>, k: int)
    requires
        0 <= k <= s.len(),
        forall|i: int| k <= i < s.len() ==> spec_is_space(#[trigger] s[i]),
        k == 0 || !spec_is_space(s[k - 1]),
    ensures
        spec_trim_back(s) == s.take(k),
    decreases s.len(),
{
    if s.len() == k {
        assert(s.take(k) =~= s);
    } else {
        lemma_trim_back_take(s.drop_last(), k);
        assert(s.drop_last().take(k) =~= s.take(k));
    }
}

/// A digit string's value never goes negative.
proof fn lemma_digits_value_nonneg(s: Seq<char>)
    requires
        spec_all_digits(s),
    ensures
        spec_digits_value(s) >= 0,
    decreases s.len(),
{
    if s.len() > 0 {
        assert(spec_is_digit(s[s.len() - 1]));
        assert(spec_all_digits(s.drop_last()));
        lemma_digits_value_nonneg(s.drop_last());
    }
}

/// A digit string is worth at least any of its prefixes.
proof fn lemma_digits_value_prefix(s: Seq<char>, k: int)
    requires
        spec_all_digits(s),
        0 <= k <= s.len(),
    ensures
        spec_digits_value(s.take(k)) <= spec_digits_value(s),
    decreases s.len(),
{
    if k < s.len() {
        assert(spec_all_digits(s.drop_last()));
        lemma_digits_value_prefix(s.drop_last(), k);
        assert(s.drop_last().take(k) =~= s.take(k));
        lemma_digits_value_nonneg(s.drop_last());
        assert(spec_is_digit(s[s.len() - 1]));
    } else {
        assert(s.take(k) =~= s);
    }
}

/// When the digits of an expiry string are empty, hold a non-digit, or
/// overflow the integer range, the string parses to nothing.
proof fn lemma_int_value_none(digits_all: Seq<char>, digits: Seq<char>, neg: bool)
    requires
        (digits_all.len() > 0 && (digits_all[0] == '-' || digits_all[0] == '+')) ==> digits
            == digits_all.drop_first() && neg == (digits_all[0] == '-'),
        !(digits_all.len() > 0 && (digits_all[0] == '-' || digits_all[0] == '+')) ==> digits
            == digits_all && !neg,
        digits.len() == 0 || !spec_all_digits(digits) || spec_digits_value(digits)
            > 0x8000_0000_0000_0000 || (!neg && spec_digits_value(digits) > i64::MAX),
    ensures
        spec_int_value(digits_all) is None,
{
}

/// Whether a character is ASCII whitespace, executably.
fn is_space_char(c: char) -> (r: bool)
    ensures
        r == spec_is_space(c),
{
    c == ' ' || c == '\t' || c == '\n' || c == '\r'
}

/// Parse an expiry string against the time `now`: the absolute expiry
/// timestamp, or a serialization error for any malformed string or any
/// result that leaves the `i64` range.
pub fn parse_expiry_at(expiry: &str, now: i64) -> (r: Result<i64, StorageError>)
    ensures
        r matches Ok(t) ==> spec_expiry_duration_ms(expiry@) matches Some(d) && i64::MIN <= d
            <= i64::MAX && t == now + d,
        r matches Err(e) ==> e is SerializationError,
        spec_expiry_duration_ms(expiry@) matches Some(d) && i64::MIN <= now + d <= i64::MAX
            && i64::MIN <= d <= i64::MAX ==> r is Ok,
{
    let n: usize = expiry.unicode_len();
    let mut lo: usize = 0;
    while lo < n && is_space_char(expiry.get_char(lo))
        invariant
            n == expiry@.len(),
            0 <= lo <= n,
            forall|i: int| 0 <= i < lo ==> spec_is_space(#[trigger] expiry@[i]),
        decreases n - lo,
    {
        lo = lo + 1;
    }
    let mut hi: usize = n;
    while hi > lo && is_space_char(expiry.get_char(hi - 1))
        invariant
            n == expiry@.len(),
            lo <= hi <= n,
            forall|i: int| hi <= i < n ==> spec_is_space(#[trigger] expiry@[i]),
        decreases hi,
    {
        hi = hi - 1;
    }
    let ghost t: Seq<char> = spec_trim(expiry@);
    proof {
        lemma_trim_front_skip(expiry@, lo as int);
        lemma_trim_back_take(expiry@.skip(lo as int), hi - lo);
        assert(expiry@.skip(lo as int).take(hi - lo) =~= expiry@.subrange(lo as int, hi as int));
        assert(t == expiry@.subrange(lo as int, hi as int));
    }
    if hi == lo {
        return Err(StorageError::SerializationError("empty expiry string".to_owned()));
    }
    let unit: char = expiry.get_char(hi - 1);
    proof {
        assert(t.last() == expiry@[hi - 1]);
    }
    let mult: i64 = if unit == 'm' {
        60000
    } else if unit == 'h' {
        3600000
    } else if unit == 'd' {
        86400000
    } else if unit == 'w' {
        604800000
    } else {
        return Err(StorageError::SerializationError("unknown time unit".to_owned()));
    };
    let ghost digits_all: Seq<char> = t.drop_last();
    proof {
        assert(digits_all =~= expiry@.subrange(lo as int, hi - 1));
    }
    let mut ds: usize = lo;
    let mut neg: bool = false;
    if lo < hi - 1 {
        let c0: char = expiry.get_char(lo);
        if c0 == '-' {
            neg = true;
            ds = lo + 1;
        } else if c0 == '+' {
            ds = lo + 1;
        }
        proof {
            assert(digits_all[0] == expiry@[lo as int]);
        }
    }
    let ghost digits: Seq<char> = expiry@.subrange(ds as int, hi - 1);
    proof {
        if ds > lo {
            assert(digits =~= digits_all.drop_first());
        } else {
            assert(digits =~= digits_all);
        }
        assert(spec_unit_ms(t.last()) == Some(mult as int));
        if digits_all.len() > 0 && (digits_all[0] == '-' || digits_all[0] == '+') {
            assert(ds == lo + 1);
            assert(neg == (digits_all[0] == '-'));
        } else {
            assert(ds == lo);
        }
    }
    if ds == hi - 1 {
        proof {
            assert(digits.len() == 0);
            lemma_int_value_none(digits_all, digits, neg);
            assert(spec_expiry_duration_ms(expiry@) is None);
        }
        return Err(StorageError::SerializationError("invalid expiry number".to_owned()));
    }
    let mut acc: i128 = 0;
    let mut i: usize = ds;
    while i < hi - 1
        invariant
            n == expiry@.len(),
            lo <= ds <= i <= hi - 1,
            hi <= n,
            t == spec_trim(expiry@),
            t == expiry@.subrange(lo as int, hi as int),
            digits_all == t.drop_last(),
            digits_all == expiry@.subrange(lo as int, hi - 1),
            digits == expiry@.subrange(ds as int, hi - 1),
            digits.len() > 0,
            spec_unit_ms(t.last()) == Some(mult as int),
            digits_all.len() > 0 && (digits_all[0] == '-' || digits_all[0] == '+') ==> ds == lo
                + 1 && neg == (digits_all[0] == '-') && digits == digits_all.drop_first(),
            !(digits_all.len() > 0 && (digits_all[0] == '-' || digits_all[0] == '+')) ==> ds == lo
                && !neg && digits == digits_all,
            acc == spec_digits_value(expiry@.subrange(ds as int, i as int)),
            0 <= acc <= 0x8000_0000_0000_0000i128,
            spec_all_digits(expiry@.subrange(ds as int, i as int)),
        decreases hi - 1 - i,
    {
        let c: char = expiry.get_char(i);
        let cv: u32 = c as u32;
        if cv < 48 || cv > 57 {
            proof {
                assert(digits[i - ds] == expiry@[i as int]);
                assert(!spec_is_digit(digits[i - ds]));
                assert(!spec_all_digits(digits));
                lemma_int_value_none(digits_all, digits, neg);
                assert(spec_expiry_duration_ms(expiry@) is None);
            }
            return Err(StorageError::SerializationError("invalid expiry number".to_owned()));
        }
        proof {
            assert(expiry@.subrange(ds as int, i + 1).drop_last() =~= expiry@.subrange(
                ds as int,
                i as int,
            ));
            assert(expiry@.subrange(ds as int, i + 1).last() == expiry@[i as int]);
            assert forall|x: int| 0 <= x < i + 1 - ds implies spec_is_digit(
                #[trigger] expiry@.subrange(ds as int, i + 1)[x],
            ) by {
                if x < i - ds {
                    assert(expiry@.subrange(ds as int, i + 1)[x] == expiry@.subrange(
                        ds as int,
                        i as int,
                    )[x]);
                }
            }
        }
        acc = acc * 10 + ((cv - 48) as i128);
        i = i + 1;
        if acc > 0x8000_0000_0000_0000i128 {
            proof {
                if spec_all_digits(digits) {
                    lemma_digits_value_prefix(digits, i - ds);
                    assert(digits.take(i - ds) =~= expiry@.subrange(ds as int, i as int));
                    assert(spec_digits_value(digits) > 0x8000_0000_0000_0000);
                }
                lemma_int_value_none(digits_all, digits, neg);
                assert(spec_expiry_duration_ms(expiry@) is None);
            }
            return Err(StorageError::SerializationError("expiry number out of range".to_owned()));
        }
    }
    proof {
        assert(expiry@.subrange(ds as int, i as int) =~= digits);
    }
    if !neg && acc > i64::MAX as i128 {
        proof {
            lemma_int_value_none(digits_all, digits, neg);
            assert(spec_expiry_duration_ms(expiry@) is None);
        }
        return Err(StorageError::SerializationError("expiry number out of range".to_owned()));
    }
    let num: i64 = if neg {
        proof {
            assert(-acc >= i64::MIN as i128);
        }
        (-acc) as i64
    } else {
        acc as i64
    };
    proof {
        assert(spec_int_value(digits_all) == Some(num as int)) by {
            if digits_all.len() > 0 && (digits_all[0] == '-' || digits_all[0] == '+') {
                assert(digits_all[0] == expiry@[lo as int]);
                assert(ds == lo + 1);
                assert(digits_all.drop_first() =~= digits);
            } else {
                assert(digits_all =~= digits);
            }
        };
        assert(spec_expiry_duration_ms(expiry@) == Some(num as int * mult as int));
    }
    let dur: i64 = match num.checked_mul(mult) {
        Some(d) => d,
        None => {
            return Err(StorageError::SerializationError("expiry out of range".to_owned()));
        },
    };
    match now.checked_add(dur) {
        Some(at) => Ok(at),
        None => Err(StorageError::SerializationError("expiry out of range".to_owned())),
    }
}

} // verus!
