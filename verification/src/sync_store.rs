//! The sync engine's local store: a document table and an append-only
//! operation log, stamped by a hybrid logical clock, from which replicas
//! converge by last-write-wins merging.

use vstd::prelude::*;

use crate::crdt::OpType;
use crate::hlc::HLC;
use crate::runtime::new_uuid;
use crate::runtime::now_ms;
use crate::text::str_eq;

verus! {

/// Errors of the sync store.
#[derive(Debug, Clone)]
pub enum SyncStorageError {
    /// Backing-store failure.
    Database(String),
    /// The addressed document is absent or deleted.
    NotFound(String),
    /// A document body that could not be read as JSON.
    Serialization(String),
}

/// What serde_json makes of overwriting one string field in a JSON object:
/// the object re-serialised with the field set (keys sorted), a non-object
/// unchanged, or nothing when the document does not parse.  A function of
/// the three texts alone.
pub uninterp spec fn spec_json_with_field(
    doc: Seq<char>,
    field: Seq<char>,
    value: Seq<char>,
) -> Option<Seq<char>>;

/// Relies on serde_json's `from_str`, `Value::as_object_mut`, `Map::insert`
/// and `to_string`: parses the document, overwrites the field with the
/// string value when the document is an object, and re-serialises with
/// sorted keys; a document that does not parse yields nothing.
#[verifier::external_body]
fn json_set_string_field(doc: &str, field: &str, value: &str) -> (r: Option<String>)
    ensures
        r matches Some(s) ==> spec_json_with_field(doc@, field@, value@) == Some(s@),
        r is None ==> spec_json_with_field(doc@, field@, value@) is None,
{
    let mut data: serde_json::Value = match serde_json::from_str(doc) {
        Ok(v) => v,
        Err(_) => {
            return None;
        },
    };
    if let Some(obj) = data.as_object_mut() {
        obj.insert(field.to_string(), serde_json::Value::String(value.to_string()));
    }
    match serde_json::to_string(&data) {
        Ok(s) => Some(s),
        Err(_) => None,
    }
}

/// A stored document.  Timestamps are milliseconds since the epoch.
#[derive(Debug, Clone)]
pub struct DocumentRow {
    /// Document id.
    pub id: String,
    /// Collection name.
    pub collection: String,
    /// The document body, as JSON.
    pub data_json: String,
    /// The clock of the last write.
    pub hlc: HLC,
    /// Whether the document is soft-deleted (a tombstone).
    pub deleted: bool,
    /// How many writes the document has seen.
    pub version: u64,
    /// When the document was created.
    pub created_at: i64,
    /// When the document was last written.
    pub updated_at: i64,
}

impl DocumentRow {
    /// An exact copy of this row.
    pub fn duplicate(&self) -> (r: DocumentRow)
        ensures
            r == *self,
    {
        DocumentRow {
            id: self.id.clone(),
            collection: self.collection.clone(),
            data_json: self.data_json.clone(),
            hlc: self.hlc.duplicate(),
            deleted: self.deleted,
            version: self.version,
            created_at: self.created_at,
            updated_at: self.updated_at,
        }
    }
}

/// One entry of the operation log.
#[derive(Debug, Clone)]
pub struct OpLogEntry {
    /// Unique operation id.
    pub id: String,
    /// Collection name.
    pub collection: String,
    /// The document the operation touched.
    pub document_id: String,
    /// What the operation did.
    pub op_type: OpType,
    /// The field an update touched.
    pub field: Option<String>,
    /// The new value, JSON-encoded.
    pub value: Option<String>,
    /// The clock of the operation.
    pub hlc: HLC,
    /// Whether the operation has been synced to the server.
    pub synced: bool,
    /// When the operation was recorded.
    pub created_at: i64,
}

impl OpLogEntry {
    /// An exact copy of this entry.
    pub fn duplicate(&self) -> (r: OpLogEntry)
        ensures
            r == *self,
    {
        OpLogEntry {
            id: self.id.clone(),
            collection: self.collection.clone(),
            document_id: self.document_id.clone(),
            op_type: self.op_type,
            field: crate::crdt::opt_string_duplicate(&self.field),
            value: crate::crdt::opt_string_duplicate(&self.value),
            hlc: self.hlc.duplicate(),
            synced: self.synced,
            created_at: self.created_at,
        }
    }
}

/// Sync statistics.
#[derive(Debug, Clone, Copy, PartialEq, Eq, Structural)]
pub struct SyncStats {
    /// Documents that are not tombstones.
    pub total_documents: u64,
    /// Entries in the operation log.
    pub total_operations: u64,
    /// Log entries not yet synced.
    pub unsynced_operations: u64,
    /// Distinct collections, tombstones included.
    pub collections: u64,
}

/// Whether a document row answers for (collection, id) and is readable.
pub open spec fn spec_doc_visible(d: DocumentRow, collection: Seq<char>, id: Seq<char>) -> bool {
    d.collection@ == collection && d.id@ == id && !d.deleted
}

/// The position a read of (collection, id) answers from: the latest
/// visible row, if any.
pub open spec fn spec_find_doc(
    docs: Seq<DocumentRow>,
    collection: Seq<char>,
    id: Seq<char>,
) -> Option<int>
    decreases docs.len(),
{
    if docs.len() == 0 {
        None
    } else if spec_doc_visible(docs.last(), collection, id) {
        Some(docs.len() - 1)
    } else {
        spec_find_doc(docs.drop_last(), collection, id)
    }
}

/// The found position is in range and visible, and something is found
/// exactly when a visible row exists.
pub proof fn lemma_find_doc_facts(docs: Seq<DocumentRow>, collection: Seq<char>, id: Seq<char>)
    ensures
        spec_find_doc(docs, collection, id) matches Some(i) ==> 0 <= i < docs.len()
            && spec_doc_visible(docs[i], collection, id),
        (spec_find_doc(docs, collection, id) is Some) <==> exists|j: int|
            0 <= j < docs.len() && spec_doc_visible(#[trigger] docs[j], collection, id),
    decreases docs.len(),
{
    if docs.len() > 0 {
        lemma_find_doc_facts(docs.drop_last(), collection, id);
        if spec_doc_visible(docs.last(), collection, id) {
            assert(spec_doc_visible(docs[docs.len() - 1], collection, id));
        } else {
            if spec_find_doc(docs.drop_last(), collection, id) is Some {
                let i: int = spec_find_doc(docs.drop_last(), collection, id).unwrap();
                assert(docs[i] == docs.drop_last()[i]);
            }
            if exists|j: int|
                0 <= j < docs.len() && spec_doc_visible(#[trigger] docs[j], collection, id) {
                let j: int = choose|j: int|
                    0 <= j < docs.len() && spec_doc_visible(#[trigger] docs[j], collection, id);
                assert(j < docs.len() - 1);
                assert(spec_doc_visible(docs.drop_last()[j], collection, id));
            }
        }
    }
}

/// Whether an id stands among the listed ones.
pub open spec fn spec_id_listed(ids: Seq<String>, id: Seq<char>) -> bool {
    exists|k: int| 0 <= k < ids.len() && (#[trigger] ids[k]@) == id
}

/// What one log entry becomes when the listed ids are marked synced.
pub open spec fn spec_marked(e: OpLogEntry, ids: Seq<String>) -> OpLogEntry {
    if spec_id_listed(ids, e.id@) {
        OpLogEntry { synced: true, ..e }
    } else {
        e
    }
}

/// How many log entries a marking transitions: listed and not yet synced.
pub open spec fn spec_transition_count(ops: Seq<OpLogEntry>, ids: Seq<String>) -> int
    decreases ops.len(),
{
    if ops.len() == 0 {
        0
    } else {
        spec_transition_count(ops.drop_last(), ids) + (if spec_id_listed(ids, ops.last().id@)
            && !ops.last().synced {
            1int
        } else {
            0int
        })
    }
}

/// The live documents of one collection, in table order.
pub open spec fn spec_collection_live(
    docs: Seq<DocumentRow>,
    collection: Seq<char>,
) -> Seq<DocumentRow>
    decreases docs.len(),
{
    if docs.len() == 0 {
        Seq::empty()
    } else if !docs.last().deleted && docs.last().collection@ == collection {
        spec_collection_live(docs.drop_last(), collection).push(docs.last())
    } else {
        spec_collection_live(docs.drop_last(), collection)
    }
}

/// Whether rows run from the most recently written down.
pub open spec fn spec_newest_first(rows: Seq<DocumentRow>) -> bool {
    forall|x: int, y: int|
        0 <= x < y < rows.len() ==> (#[trigger] rows[x]).updated_at >= (#[trigger] rows[y]).updated_at
}

/// The unsynced log entries, oldest position first.
pub open spec fn spec_unsynced(ops: Seq<OpLogEntry>) -> Seq<OpLogEntry>
    decreases ops.len(),
{
    if ops.len() == 0 {
        Seq::empty()
    } else if !ops.last().synced {
        spec_unsynced(ops.drop_last()).push(ops.last())
    } else {
        spec_unsynced(ops.drop_last())
    }
}

/// Whether log entries run from the earliest recording up.
pub open spec fn spec_oldest_first(rows: Seq<OpLogEntry>) -> bool {
    forall|x: int, y: int|
        0 <= x < y < rows.len() ==> (#[trigger] rows[x]).created_at <= (#[trigger] rows[y]).created_at
}

/// How many documents are not tombstones.
pub open spec fn spec_live_doc_count(docs: Seq<DocumentRow>) -> int
    decreases docs.len(),
{
    if docs.len() == 0 {
        0
    } else {
        spec_live_doc_count(docs.drop_last()) + (if docs.last().deleted {
            0int
        } else {
            1int
        })
    }
}

/// How many log entries are not yet synced.
pub open spec fn spec_unsynced_count(ops: Seq<OpLogEntry>) -> int
    decreases ops.len(),
{
    if ops.len() == 0 {
        0
    } else {
        spec_unsynced_count(ops.drop_last()) + (if ops.last().synced {
            0int
        } else {
            1int
        })
    }
}

/// The set of collections the documents use, tombstones included.
pub open spec fn spec_collection_set(docs: Seq<DocumentRow>) -> Set<Seq<char>>
    decreases docs.len(),
{
    if docs.len() == 0 {
        Set::empty()
    } else {
        spec_collection_set(docs.drop_last()).insert(docs.last().collection@)
    }
}

/// Membership in the collection set is having a row with that collection.
proof fn lemma_collection_set_contains(docs: Seq<DocumentRow>, c: Seq<char>)
    ensures
        spec_collection_set(docs).contains(c) <==> exists|i: int|
            0 <= i < docs.len() && (#[trigger] docs[i].collection@) == c,
    decreases docs.len(),
{
    if docs.len() > 0 {
        lemma_collection_set_contains(docs.drop_last(), c);
        if spec_collection_set(docs).contains(c) {
            if docs.last().collection@ == c {
                assert(docs[docs.len() - 1].collection@ == c);
            } else {
                let i: int = choose|i: int|
                    0 <= i < docs.drop_last().len() && (#[trigger] docs.drop_last()[
                        i
                    ].collection@) == c;
                assert(docs[i].collection@ == c);
            }
        }
        if exists|i: int| 0 <= i < docs.len() && (#[trigger] docs[i].collection@) == c {
            let i: int = choose|i: int|
                0 <= i < docs.len() && (#[trigger] docs[i].collection@) == c;
            if i < docs.len() - 1 {
                assert(docs.drop_last()[i].collection@ == c);
            }
        }
    }
}

/// The collection set is always finite.
proof fn lemma_collection_set_finite(docs: Seq<DocumentRow>)
    ensures
        spec_collection_set(docs).finite(),
    decreases docs.len(),
{
    if docs.len() > 0 {
        lemma_collection_set_finite(docs.drop_last());
    }
}

/// SQLite tables keep these durable in deployment; here they are the
/// verified in-memory model the sync logic is proved against.
pub struct SyncStorage {
    docs: Vec<DocumentRow>,
    ops: Vec<OpLogEntry>,
    node_id: String,
    clock: HLC,
}

impl SyncStorage {
    /// The document rows, in insertion order.
    pub closed spec fn spec_docs(&self) -> Seq<DocumentRow> {
        self.docs@
    }

    /// The operation log, oldest first.
    pub closed spec fn spec_ops(&self) -> Seq<OpLogEntry> {
        self.ops@
    }

    /// This node's id.
    pub closed spec fn spec_node(&self) -> Seq<char> {
        self.node_id@
    }

    /// The store's clock, which stamps every write.
    pub closed spec fn spec_clock(&self) -> HLC {
        self.clock
    }

    /// The clock has room to advance.
    pub closed spec fn spec_clock_ok(&self) -> bool {
        self.clock.counter < u32::MAX
    }

    /// Whether the clock moved strictly forward, which holds everywhere
    /// short of the clock's absolute top value.
    pub open spec fn spec_clock_advanced(old_clock: HLC, new_clock: HLC) -> bool {
        crate::hlc::spec_hlc_lt(old_clock, new_clock) || (old_clock.counter == u32::MAX - 1
            && old_clock.timestamp_ms == i64::MAX)
    }

    /// Create an empty store for this node.  The path names the durable
    /// tables a deployment would mirror this store into.
    pub fn new(db_path: &str, node_id: &str) -> (r: Result<SyncStorage, SyncStorageError>)
        ensures
            r matches Ok(s) ==> s.spec_docs() =~= Seq::<DocumentRow>::empty() && s.spec_ops()
                =~= Seq::<OpLogEntry>::empty() && s.spec_node() == node_id@ && s.spec_clock_ok(),
    {
        let clock: HLC = HLC::new(node_id);
        let clock: HLC = if clock.counter < u32::MAX {
            clock
        } else {
            HLC::new_at(node_id, 0)
        };
        Ok(
            SyncStorage {
                docs: Vec::new(),
                ops: Vec::new(),
                node_id: node_id.to_owned(),
                clock,
            },
        )
    }

    /// Advance the clock; when the counter would overflow the clock restarts
    /// the counter at a later wall reading.
    fn next_hlc(&mut self) -> (r: HLC)
        requires
            old(self).spec_clock_ok(),
        ensures
            final(self).spec_clock_ok(),
            final(self).spec_docs() == old(self).spec_docs(),
            final(self).spec_ops() == old(self).spec_ops(),
            final(self).spec_node() == old(self).spec_node(),
            r == final(self).spec_clock(),
            SyncStorage::spec_clock_advanced(old(self).spec_clock(), final(self).spec_clock()),
    {
        let now: i64 = now_ms();
        if self.clock.counter < u32::MAX - 1 {
            self.clock.next_at(now)
        } else {
            let ts: i64 = self.clock.timestamp_ms;
            let bumped: i64 = if ts < i64::MAX {
                ts + 1
            } else {
                ts
            };
            self.clock = HLC::new_at(self.node_id.as_str(), bumped);
            self.clock.duplicate()
        }
    }

    /// The position of the latest visible row for (collection, id), if any.
    fn find_doc(&self, collection: &str, document_id: &str) -> (r: Option<usize>)
        ensures
            r matches Some(i) ==> spec_find_doc(self.spec_docs(), collection@, document_id@)
                == Some(i as int) && i < self.spec_docs().len() && spec_doc_visible(
                self.spec_docs()[i as int],
                collection@,
                document_id@,
            ),
            r is None ==> spec_find_doc(self.spec_docs(), collection@, document_id@) is None,
    {
        let n: usize = self.docs.len();
        let mut i: usize = n;
        proof {
            assert(self.spec_docs().take(n as int) =~= self.spec_docs());
        }
        while i > 0
            invariant
                n == self.spec_docs().len(),
                0 <= i <= n,
                spec_find_doc(self.spec_docs(), collection@, document_id@) == spec_find_doc(
                    self.spec_docs().take(i as int),
                    collection@,
                    document_id@,
                ),
            decreases i,
        {
            proof {
                assert(self.spec_docs().take(i as int).drop_last() =~= self.spec_docs().take(
                    i - 1,
                ));
                assert(self.spec_docs().take(i as int).last() == self.spec_docs()[i - 1]);
            }
            if !self.docs[i - 1].deleted && str_eq(self.docs[i - 1].collection.as_str(), collection)
                && str_eq(self.docs[i - 1].id.as_str(), document_id) {
                return Some(i - 1);
            }
            i = i - 1;
        }
        proof {
            assert(self.spec_docs().take(0).len() == 0);
        }
        None
    }

    /// Insert a new document: it gets a fresh id, version 1, and the
    /// clock's next stamp, and an `Insert` entry referencing the full body
    /// joins the log under the same stamp.
    pub fn insert(&mut self, collection: &str, data_json: &str) -> (r: Result<
        String,
        SyncStorageError,
    >)
        requires
            old(self).spec_clock_ok(),
        ensures
            r matches Ok(id) ==> {
                let d = final(self).spec_docs().last();
                let op = final(self).spec_ops().last();
                &&& final(self).spec_docs() =~= old(self).spec_docs().push(d)
                &&& final(self).spec_ops() =~= old(self).spec_ops().push(op)
                &&& d.id@ == id@
                &&& d.collection@ == collection@
                &&& d.data_json@ == data_json@
                &&& !d.deleted
                &&& d.version == 1
                &&& d.hlc == final(self).spec_clock()
                &&& op.op_type is Insert
                &&& op.document_id@ == id@
                &&& op.collection@ == collection@
                &&& (op.value matches Some(v) && v@ == data_json@)
                &&& op.field is None
                &&& !op.synced
                &&& op.hlc == d.hlc
            },
            r is Ok,
            final(self).spec_node() == old(self).spec_node(),
            final(self).spec_clock_ok(),
            SyncStorage::spec_clock_advanced(old(self).spec_clock(), final(self).spec_clock()),
    {
        let id: String = new_uuid();
        let now: i64 = now_ms();
        let hlc: HLC = self.next_hlc();
        let row = DocumentRow {
            id: id.clone(),
            collection: collection.to_owned(),
            data_json: data_json.to_owned(),
            hlc: hlc.duplicate(),
            deleted: false,
            version: 1,
            created_at: now,
            updated_at: now,
        };
        self.docs.push(row);
        let op_id: String = new_uuid();
        let op = OpLogEntry {
            id: op_id,
            collection: collection.to_owned(),
            document_id: id.clone(),
            op_type: OpType::Insert,
            field: None,
            value: Some(data_json.to_owned()),
            hlc,
            synced: false,
            created_at: now,
        };
        self.ops.push(op);
        Ok(id)
    }

    /// Update one field of a document: the latest visible row's JSON object
    /// gets the field overwritten with the string value, its version
    /// advances, the clock stamps the write, and an `Update` entry joins
    /// the log.  An absent or deleted document is refused, as is a body
    /// that does not parse.
    pub fn update(&mut self, collection: &str, document_id: &str, field: &str, value: &str) -> (r:
        Result<(), SyncStorageError>)
        requires
            old(self).spec_clock_ok(),
        ensures
            ({
                let found = spec_find_doc(old(self).spec_docs(), collection@, document_id@);
                &&& (found is None ==> (r matches Err(e) && e is NotFound)
                    && final(self).spec_docs() == old(self).spec_docs()
                    && final(self).spec_ops() == old(self).spec_ops())
                &&& ((found matches Some(i) && spec_json_with_field(
                    old(self).spec_docs()[i].data_json@,
                    field@,
                    value@,
                ) is None) ==> (r matches Err(e) && e is Serialization)
                    && final(self).spec_docs() == old(self).spec_docs()
                    && final(self).spec_ops() == old(self).spec_ops())
                &&& ((found matches Some(i) && spec_json_with_field(
                    old(self).spec_docs()[i].data_json@,
                    field@,
                    value@,
                ) is Some) ==> r is Ok)
                &&& (r is Ok ==> (found matches Some(i) && {
                    let d = final(self).spec_docs()[i];
                    let op = final(self).spec_ops().last();
                    &&& spec_json_with_field(
                        old(self).spec_docs()[i].data_json@,
                        field@,
                        value@,
                    ) == Some(d.data_json@)
                    &&& final(self).spec_docs() =~= old(self).spec_docs().update(i, d)
                    &&& d.id@ == old(self).spec_docs()[i].id@
                    &&& d.collection@ == old(self).spec_docs()[i].collection@
                    &&& !d.deleted
                    &&& d.created_at == old(self).spec_docs()[i].created_at
                    &&& d.version == (if old(self).spec_docs()[i].version < u64::MAX {
                        old(self).spec_docs()[i].version + 1
                    } else {
                        u64::MAX as int
                    })
                    &&& d.hlc == final(self).spec_clock()
                    &&& final(self).spec_ops() =~= old(self).spec_ops().push(op)
                    &&& op.op_type is Update
                    &&& op.collection@ == collection@
                    &&& op.document_id@ == document_id@
                    &&& (op.field matches Some(f) && f@ == field@)
                    &&& (op.value matches Some(v) && v@ == value@)
                    &&& !op.synced
                    &&& op.hlc == d.hlc
                }))
            }),
            final(self).spec_node() == old(self).spec_node(),
            final(self).spec_clock_ok(),
    {
        let i: usize = match self.find_doc(collection, document_id) {
            Some(i) => i,
            None => {
                return Err(SyncStorageError::NotFound(document_id.to_owned()));
            },
        };
        let updated_json: String = match json_set_string_field(
            self.docs[i].data_json.as_str(),
            field,
            value,
        ) {
            Some(s) => s,
            None => {
                return Err(
                    SyncStorageError::Serialization("document is not valid JSON".to_owned()),
                );
            },
        };
        let now: i64 = now_ms();
        let hlc: HLC = self.next_hlc();
        let row = &self.docs[i];
        let new_version: u64 = if row.version < u64::MAX {
            row.version + 1
        } else {
            row.version
        };
        let updated = DocumentRow {
            id: row.id.clone(),
            collection: row.collection.clone(),
            data_json: updated_json,
            hlc: hlc.duplicate(),
            deleted: row.deleted,
            version: new_version,
            created_at: row.created_at,
            updated_at: now,
        };
        self.docs.set(i, updated);
        let op_id: String = new_uuid();
        let op = OpLogEntry {
            id: op_id,
            collection: collection.to_owned(),
            document_id: document_id.to_owned(),
            op_type: OpType::Update,
            field: Some(field.to_owned()),
            value: Some(value.to_owned()),
            hlc,
            synced: false,
            created_at: now,
        };
        self.ops.push(op);
        Ok(())
    }

    /// Soft-delete a document: the latest visible row gets its tombstone
    /// flag set under a fresh clock stamp, keeping its body, and a `Delete`
    /// entry joins the log; says whether a document transitioned.
    pub fn delete(&mut self, collection: &str, document_id: &str) -> (r: Result<
        bool,
        SyncStorageError,
    >)
        requires
            old(self).spec_clock_ok(),
        ensures
            r matches Ok(b) ==> (b == (spec_find_doc(
                old(self).spec_docs(),
                collection@,
                document_id@,
            ) is Some)),
            r matches Ok(false) ==> final(self).spec_docs() == old(self).spec_docs()
                && final(self).spec_ops() == old(self).spec_ops(),
            r matches Ok(true) ==> (spec_find_doc(
                old(self).spec_docs(),
                collection@,
                document_id@,
            ) matches Some(i) && ({
                let d = final(self).spec_docs()[i];
                let op = final(self).spec_ops().last();
                &&& final(self).spec_docs() =~= old(self).spec_docs().update(i, d)
                &&& d.deleted
                &&& d.id@ == old(self).spec_docs()[i].id@
                &&& d.collection@ == old(self).spec_docs()[i].collection@
                &&& d.data_json@ == old(self).spec_docs()[i].data_json@
                &&& d.version == old(self).spec_docs()[i].version
                &&& d.created_at == old(self).spec_docs()[i].created_at
                &&& d.hlc == final(self).spec_clock()
                &&& final(self).spec_ops() =~= old(self).spec_ops().push(op)
                &&& op.op_type is Delete
                &&& op.collection@ == collection@
                &&& op.document_id@ == document_id@
                &&& op.field is None
                &&& op.value is None
                &&& !op.synced
                &&& op.hlc == d.hlc
            })),
            r is Ok,
            final(self).spec_node() == old(self).spec_node(),
            final(self).spec_clock_ok(),
    {
        let i: usize = match self.find_doc(collection, document_id) {
            Some(i) => i,
            None => {
                return Ok(false);
            },
        };
        let now: i64 = now_ms();
        let hlc: HLC = self.next_hlc();
        let row = &self.docs[i];
        let updated = DocumentRow {
            id: row.id.clone(),
            collection: row.collection.clone(),
            data_json: row.data_json.clone(),
            hlc: hlc.duplicate(),
            deleted: true,
            version: row.version,
            created_at: row.created_at,
            updated_at: now,
        };
        self.docs.set(i, updated);
        let op_id: String = new_uuid();
        let op = OpLogEntry {
            id: op_id,
            collection: collection.to_owned(),
            document_id: document_id.to_owned(),
            op_type: OpType::Delete,
            field: None,
            value: None,
            hlc,
            synced: false,
            created_at: now,
        };
        self.ops.push(op);
        Ok(true)
    }

    /// Get a document's JSON body: the latest visible row's, or `None`
    /// when every row for the pair is absent or deleted.
    pub fn get(&self, collection: &str, document_id: &str) -> (r: Result<
        Option<String>,
        SyncStorageError,
    >)
        ensures
            spec_find_doc(self.spec_docs(), collection@, document_id@) matches Some(i) ==> (
            r matches Ok(v) && v matches Some(s) && s@ == self.spec_docs()[i].data_json@),
            spec_find_doc(self.spec_docs(), collection@, document_id@) is None ==> r == Result::<
                Option<String>,
                SyncStorageError,
            >::Ok(None::<String>),
            r is Ok,
    {
        match self.find_doc(collection, document_id) {
            Some(i) => Ok(Some(self.docs[i].data_json.clone())),
            None => Ok(None),
        }
    }

    /// The JSON bodies of a collection's live documents, most recently
    /// written first, truncated to `limit` entries: for some ordering of
    /// exactly those documents, newest first, the result lists its bodies.
    pub fn query(&self, collection: &str, limit: u32) -> (r: Result<Vec<String>, SyncStorageError>)
        ensures
            r matches Ok(list) ==> exists|arranged: Seq<DocumentRow>|
                {
                    &&& arranged.to_multiset() == #[trigger] spec_collection_live(
                        self.spec_docs(),
                        collection@,
                    ).to_multiset()
                    &&& spec_newest_first(arranged)
                    &&& list@.len() == (if limit as int <= arranged.len() {
                        limit as int
                    } else {
                        arranged.len() as int
                    })
                    &&& (forall|x: int|
                        0 <= x < list@.len() ==> (#[trigger] list@[x]@) == arranged[x].data_json@)
                },
            r is Ok,
    {
        broadcast use vstd::seq_lib::group_to_multiset_ensures;

        let n: usize = self.docs.len();
        let mut picked: Vec<DocumentRow> = Vec::new();
        let mut i: usize = 0;
        proof {
            assert(spec_collection_live(self.spec_docs().take(0), collection@) =~= Seq::<
                DocumentRow,
            >::empty());
            assert(picked@ =~= Seq::<DocumentRow>::empty());
        }
        while i < n
            invariant
                n == self.spec_docs().len(),
                0 <= i <= n,
                spec_newest_first(picked@),
                picked@.to_multiset() == spec_collection_live(
                    self.spec_docs().take(i as int),
                    collection@,
                ).to_multiset(),
            decreases n - i,
        {
            broadcast use vstd::seq_lib::group_to_multiset_ensures;

            proof {
                assert(self.spec_docs().take(i + 1).drop_last() =~= self.spec_docs().take(
                    i as int,
                ));
                assert(self.spec_docs().take(i + 1).last() == self.spec_docs()[i as int]);
            }
            if !self.docs[i].deleted && str_eq(self.docs[i].collection.as_str(), collection) {
                let row: DocumentRow = self.docs[i].duplicate();
                let m: usize = picked.len();
                let mut p: usize = 0;
                while p < m && !(row.updated_at > picked[p].updated_at)
                    invariant
                        m == picked@.len(),
                        0 <= p <= m,
                        forall|x: int|
                            0 <= x < p ==> (#[trigger] picked@[x]).updated_at >= row.updated_at,
                    decreases m - p,
                {
                    p = p + 1;
                }
                let ghost oldp = picked@;
                picked.insert(p, row);
                proof {
                    oldp.insert_ensures(p as int, row);
                    vstd::seq_lib::to_multiset_insert(oldp, p as int, row);
                    assert forall|x: int, y: int|
                        0 <= x < y < picked@.len() implies (#[trigger] picked@[x]).updated_at >= (
                    #[trigger] picked@[y]).updated_at by {
                        if y == p {
                            assert(picked@[x] == oldp[x]);
                        } else if x == p {
                            assert(picked@[y] == oldp[y - 1]);
                            if p < m {
                                assert(oldp[y - 1].updated_at <= oldp[p as int].updated_at
                                    || oldp[p as int].updated_at >= row.updated_at);
                                assert(row.updated_at > oldp[p as int].updated_at);
                            }
                        } else {
                            let x0: int = if x < p {
                                x
                            } else {
                                x - 1
                            };
                            let y0: int = if y < p {
                                y
                            } else {
                                y - 1
                            };
                            assert(picked@[x] == oldp[x0]);
                            assert(picked@[y] == oldp[y0]);
                        }
                    }
                }
            }
            i = i + 1;
        }
        proof {
            assert(self.spec_docs().take(n as int) =~= self.spec_docs());
        }
        let mut out: Vec<String> = Vec::new();
        let mut j: usize = 0;
        while j < picked.len() && j < (limit as usize)
            invariant
                0 <= j <= picked@.len(),
                out@.len() == j,
                j <= limit,
                forall|x: int| 0 <= x < j ==> (#[trigger] out@[x]@) == picked@[x].data_json@,
            decreases picked@.len() - j,
        {
            out.push(picked[j].data_json.clone());
            j = j + 1;
        }
        Ok(out)
    }

    /// The oldest unsynced operations, ascending by recording time, up to
    /// `limit` entries: for some ordering of exactly the unsynced entries,
    /// oldest first, the result is its prefix.
    pub fn get_unsynced_ops(&self, limit: u32) -> (r: Result<Vec<OpLogEntry>, SyncStorageError>)
        ensures
            r matches Ok(list) ==> exists|arranged: Seq<OpLogEntry>|
                {
                    &&& arranged.to_multiset() == #[trigger] spec_unsynced(
                        self.spec_ops(),
                    ).to_multiset()
                    &&& spec_oldest_first(arranged)
                    &&& list@.len() == (if limit as int <= arranged.len() {
                        limit as int
                    } else {
                        arranged.len() as int
                    })
                    &&& (forall|x: int| 0 <= x < list@.len() ==> (#[trigger] list@[x]) == arranged[x])
                },
            r is Ok,
    {
        broadcast use vstd::seq_lib::group_to_multiset_ensures;

        let n: usize = self.ops.len();
        let mut picked: Vec<OpLogEntry> = Vec::new();
        let mut i: usize = 0;
        proof {
            assert(spec_unsynced(self.spec_ops().take(0)) =~= Seq::<OpLogEntry>::empty());
            assert(picked@ =~= Seq::<OpLogEntry>::empty());
        }
        while i < n
            invariant
                n == self.spec_ops().len(),
                0 <= i <= n,
                spec_oldest_first(picked@),
                picked@.to_multiset() == spec_unsynced(self.spec_ops().take(i as int)).to_multiset(),
            decreases n - i,
        {
            broadcast use vstd::seq_lib::group_to_multiset_ensures;

            proof {
                assert(self.spec_ops().take(i + 1).drop_last() =~= self.spec_ops().take(i as int));
                assert(self.spec_ops().take(i + 1).last() == self.spec_ops()[i as int]);
            }
            if !self.ops[i].synced {
                let row: OpLogEntry = self.ops[i].duplicate();
                let m: usize = picked.len();
                let mut p: usize = 0;
                while p < m && !(row.created_at < picked[p].created_at)
                    invariant
                        m == picked@.len(),
                        0 <= p <= m,
                        forall|x: int|
                            0 <= x < p ==> (#[trigger] picked@[x]).created_at <= row.created_at,
                    decreases m - p,
                {
                    p = p + 1;
                }
                let ghost oldp = picked@;
                picked.insert(p, row);
                proof {
                    oldp.insert_ensures(p as int, row);
                    vstd::seq_lib::to_multiset_insert(oldp, p as int, row);
                    assert forall|x: int, y: int|
                        0 <= x < y < picked@.len() implies (#[trigger] picked@[x]).created_at <= (
                    #[trigger] picked@[y]).created_at by {
                        if y == p {
                            assert(picked@[x] == oldp[x]);
                        } else if x == p {
                            assert(picked@[y] == oldp[y - 1]);
                            if p < m {
                                assert(row.created_at < oldp[p as int].created_at);
                            }
                        } else {
                            let x0: int = if x < p {
                                x
                            } else {
                                x - 1
                            };
                            let y0: int = if y < p {
                                y
                            } else {
                                y - 1
                            };
                            assert(picked@[x] == oldp[x0]);
                            assert(picked@[y] == oldp[y0]);
                        }
                    }
                }
            }
            i = i + 1;
        }
        proof {
            assert(self.spec_ops().take(n as int) =~= self.spec_ops());
        }
        let mut out: Vec<OpLogEntry> = Vec::new();
        let mut j: usize = 0;
        while j < picked.len() && j < (limit as usize)
            invariant
                0 <= j <= picked@.len(),
                out@.len() == j,
                j <= limit,
                forall|x: int| 0 <= x < j ==> (#[trigger] out@[x]) == picked@[x],
            decreases picked@.len() - j,
        {
            let e: OpLogEntry = picked[j].duplicate();
            out.push(e);
            j = j + 1;
        }
        Ok(out)
    }

    /// Mark operations as synced: afterwards an entry is synced exactly
    /// when it was before or its id is among the given ones; says how many
    /// entries transitioned.
    pub fn mark_synced(&mut self, op_ids: &Vec<String>) -> (r: Result<u64, SyncStorageError>)
        ensures
            final(self).spec_ops().len() == old(self).spec_ops().len(),
            final(self).spec_docs() == old(self).spec_docs(),
            forall|i: int|
                0 <= i < final(self).spec_ops().len() ==> (#[trigger] final(self).spec_ops()[i])
                    == spec_marked(old(self).spec_ops()[i], op_ids@),
            r == Result::<u64, SyncStorageError>::Ok(
                spec_transition_count(old(self).spec_ops(), op_ids@) as u64,
            ),
    {
        let mut count: u64 = 0;
        let n: usize = self.ops.len();
        let mut i: usize = 0;
        proof {
            assert(spec_transition_count(old(self).spec_ops().take(0), op_ids@) == 0);
        }
        while i < n
            invariant
                n == self.spec_ops().len(),
                n == old(self).spec_ops().len(),
                0 <= i <= n,
                self.spec_docs() == old(self).spec_docs(),
                count == spec_transition_count(old(self).spec_ops().take(i as int), op_ids@),
                count <= i,
                forall|x: int|
                    0 <= x < i ==> (#[trigger] self.spec_ops()[x]) == spec_marked(
                        old(self).spec_ops()[x],
                        op_ids@,
                    ),
                forall|x: int| i <= x < n ==> (#[trigger] self.spec_ops()[x]) == old(self).spec_ops()[x],
            decreases n - i,
        {
            proof {
                assert(old(self).spec_ops().take(i + 1).drop_last() =~= old(self).spec_ops().take(
                    i as int,
                ));
                assert(old(self).spec_ops().take(i + 1).last() == old(self).spec_ops()[i as int]);
            }
            let mut hit: bool = false;
            let m: usize = op_ids.len();
            let mut k: usize = 0;
            while k < m
                invariant
                    0 <= k <= m,
                    m == op_ids@.len(),
                    i < n,
                    n == self.spec_ops().len(),
                    hit ==> spec_id_listed(op_ids@, self.spec_ops()[i as int].id@),
                    !hit ==> forall|q: int|
                        0 <= q < k ==> (#[trigger] op_ids@[q]@) != self.spec_ops()[i as int].id@,
                decreases m - k,
            {
                if str_eq(op_ids[k].as_str(), self.ops[i].id.as_str()) {
                    hit = true;
                    k = m;
                } else {
                    k = k + 1;
                }
            }
            proof {
                assert(hit == spec_id_listed(op_ids@, self.spec_ops()[i as int].id@));
            }
            if hit && !self.ops[i].synced {
                let row = &self.ops[i];
                let updated = OpLogEntry {
                    id: row.id.clone(),
                    collection: row.collection.clone(),
                    document_id: row.document_id.clone(),
                    op_type: row.op_type,
                    field: crate::crdt::opt_string_duplicate(&row.field),
                    value: crate::crdt::opt_string_duplicate(&row.value),
                    hlc: row.hlc.duplicate(),
                    synced: true,
                    created_at: row.created_at,
                };
                self.ops.set(i, updated);
                count = count + 1;
            }
            i = i + 1;
        }
        proof {
            assert(old(self).spec_ops().take(n as int) =~= old(self).spec_ops());
        }
        Ok(count)
    }

    /// Sync statistics: live documents, log entries, unsynced entries, and
    /// distinct collections.
    pub fn get_stats(&self) -> (r: Result<SyncStats, SyncStorageError>)
        ensures
            r matches Ok(st) ==> {
                &&& st.total_documents == spec_live_doc_count(self.spec_docs())
                &&& st.total_operations == self.spec_ops().len()
                &&& st.unsynced_operations == spec_unsynced_count(self.spec_ops())
                &&& st.collections == spec_collection_set(self.spec_docs()).len()
            },
            r is Ok,
    {
        let mut live: u64 = 0;
        let n: usize = self.docs.len();
        let mut i: usize = 0;
        while i < n
            invariant
                n == self.spec_docs().len(),
                0 <= i <= n,
                live == spec_live_doc_count(self.spec_docs().take(i as int)),
                live <= i,
            decreases n - i,
        {
            proof {
                assert(self.spec_docs().take(i + 1).drop_last() =~= self.spec_docs().take(
                    i as int,
                ));
                assert(self.spec_docs().take(i + 1).last() == self.spec_docs()[i as int]);
            }
            if !self.docs[i].deleted {
                live = live + 1;
            }
            i = i + 1;
        }
        let mut unsynced: u64 = 0;
        let m: usize = self.ops.len();
        let mut j: usize = 0;
        while j < m
            invariant
                m == self.spec_ops().len(),
                0 <= j <= m,
                unsynced == spec_unsynced_count(self.spec_ops().take(j as int)),
                unsynced <= j,
            decreases m - j,
        {
            proof {
                assert(self.spec_ops().take(j + 1).drop_last() =~= self.spec_ops().take(j as int));
                assert(self.spec_ops().take(j + 1).last() == self.spec_ops()[j as int]);
            }
            if !self.ops[j].synced {
                unsynced = unsynced + 1;
            }
            j = j + 1;
        }
        let mut collections: u64 = 0;
        let mut a: usize = 0;
        proof {
            lemma_collection_set_finite(self.spec_docs().take(0));
        }
        while a < n
            invariant
                n == self.spec_docs().len(),
                0 <= a <= n,
                spec_collection_set(self.spec_docs().take(a as int)).finite(),
                collections == spec_collection_set(self.spec_docs().take(a as int)).len(),
                collections <= a,
            decreases n - a,
        {
            proof {
                assert(self.spec_docs().take(a + 1).drop_last() =~= self.spec_docs().take(
                    a as int,
                ));
                assert(self.spec_docs().take(a + 1).last() == self.spec_docs()[a as int]);
            }
            let mut seen: bool = false;
            let mut b: usize = 0;
            while b < a
                invariant
                    0 <= b <= a < n,
                    n == self.spec_docs().len(),
                    seen ==> exists|y: int|
                        0 <= y < a && (#[trigger] self.spec_docs()[y].collection@)
                            == self.spec_docs()[a as int].collection@,
                    !seen ==> forall|y: int|
                        0 <= y < b ==> (#[trigger] self.spec_docs()[y].collection@)
                            != self.spec_docs()[a as int].collection@,
                decreases a - b,
            {
                if str_eq(
                    self.docs[b].collection.as_str(),
                    self.docs[a].collection.as_str(),
                ) {
                    seen = true;
                    b = a;
                } else {
                    b = b + 1;
                }
            }
            proof {
                vstd::set::axiom_set_insert_len(
                    spec_collection_set(self.spec_docs().take(a as int)),
                    self.spec_docs()[a as int].collection@,
                );
                lemma_collection_set_contains(
                    self.spec_docs().take(a as int),
                    self.spec_docs()[a as int].collection@,
                );
                lemma_collection_set_finite(self.spec_docs().take(a + 1));
                if seen {
                    let y: int = choose|y: int|
                        0 <= y < a && (#[trigger] self.spec_docs()[y].collection@)
                            == self.spec_docs()[a as int].collection@;
                    assert(self.spec_docs().take(a as int)[y].collection@
                        == self.spec_docs()[a as int].collection@);
                } else {
                    assert forall|y: int| 0 <= y < a implies (#[trigger] self.spec_docs().take(
                        a as int,
                    )[y].collection@) != self.spec_docs()[a as int].collection@ by {}
                }
            }
            if !seen {
                collections = collections + 1;
            }
            a = a + 1;
        }
        proof {
            assert(self.spec_docs().take(n as int) =~= self.spec_docs());
            assert(self.spec_ops().take(m as int) =~= self.spec_ops());
        }
        Ok(
            SyncStats {
                total_documents: live,
                total_operations: m as u64,
                unsynced_operations: unsynced,
                collections,
            },
        )
    }

    /// Delete synced operations recorded before the cutoff, at time `now`;
    /// says how many entries went.
    pub fn purge_old_ops_at(&mut self, hours: u32, now: i64) -> (r: Result<u64, SyncStorageError>)
        ensures
            final(self).spec_docs() == old(self).spec_docs(),
            final(self).spec_ops() =~= old(self).spec_ops().filter(
                |e: OpLogEntry|
                    !(e.synced && e.created_at < crate::queue::spec_cutoff(now, hours as int)),
            ),
            r == Result::<u64, SyncStorageError>::Ok(
                (old(self).spec_ops().len() - final(self).spec_ops().len()) as u64,
            ),
    {
        let span: i64 = (hours as i64) * 3600000;
        let cutoff: i64 = match now.checked_sub(span) {
            Some(c) => c,
            None => i64::MIN,
        };
        proof {
            assert(cutoff == crate::queue::spec_cutoff(now, hours as int));
        }
        let n: usize = self.ops.len();
        let mut kept: Vec<OpLogEntry> = Vec::new();
        let mut i: usize = 0;
        while i < n
            invariant
                n == old(self).spec_ops().len(),
                self.spec_ops() == old(self).spec_ops(),
                self.spec_docs() == old(self).spec_docs(),
                0 <= i <= n,
                cutoff == crate::queue::spec_cutoff(now, hours as int),
                kept@ =~= old(self).spec_ops().take(i as int).filter(
                    |e: OpLogEntry|
                        !(e.synced && e.created_at < crate::queue::spec_cutoff(
                            now,
                            hours as int,
                        )),
                ),
                kept@.len() <= i,
            decreases n - i,
        {
            proof {
                reveal(Seq::filter);
                assert(old(self).spec_ops().take(i + 1).drop_last() =~= old(self).spec_ops().take(
                    i as int,
                ));
                assert(old(self).spec_ops().take(i + 1).last() == old(self).spec_ops()[i as int]);
            }
            let keep: bool = !(self.ops[i].synced && self.ops[i].created_at < cutoff);
            if keep {
                let e: OpLogEntry = self.ops[i].duplicate();
                kept.push(e);
            }
            i = i + 1;
        }
        proof {
            assert(old(self).spec_ops().take(n as int) =~= old(self).spec_ops());
            old(self).spec_ops().lemma_filter_len(
                |e: OpLogEntry|
                    !(e.synced && e.created_at < crate::queue::spec_cutoff(now, hours as int)),
            );
        }
        let removed: usize = n - kept.len();
        self.ops = kept;
        Ok(removed as u64)
    }

    /// Delete synced operations older than the window, against the platform
    /// clock.
    pub fn purge_old_ops(&mut self, hours: u32) -> (r: Result<u64, SyncStorageError>)
        ensures
            final(self).spec_docs() == old(self).spec_docs(),
            r is Ok,
    {
        let now: i64 = now_ms();
        self.purge_old_ops_at(hours, now)
    }
}

} // verus!
