//! Conflict resolution for the sync engine: last-write-wins merging of
//! operations and field-level last-write-wins merging of documents, both
//! decided by the hybrid logical clock order.

use vstd::prelude::*;

use crate::hlc::spec_hlc_lt;
use crate::hlc::HLC;
use crate::hlc::hlc_lt;
use crate::text::str_eq;

verus! {

/// An operation in the operation log.
#[derive(Debug, Clone)]
pub struct Operation {
    /// Unique operation id.
    pub id: String,
    /// Collection name.
    pub collection: String,
    /// Document id being modified.
    pub document_id: String,
    /// Operation type.
    pub op_type: OpType,
    /// Field being modified (for updates).
    pub field: Option<String>,
    /// New value as JSON.
    pub value: Option<String>,
    /// Clock timestamp for ordering.
    pub hlc: HLC,
    /// Whether this operation has been synced to the server.
    pub synced: bool,
}

/// Type of operation.
#[derive(Debug, Clone, Copy, PartialEq, Eq, Structural)]
pub enum OpType {
    Insert,
    Update,
    Delete,
}

/// Merge result when applying remote operations.
#[derive(Debug, Clone)]
pub enum MergeResult {
    /// Local wins: no change needed.
    LocalWins,
    /// Remote wins: apply the remote value.
    RemoteWins { value: Option<String> },
    /// Conflict: both values kept, the user must resolve.
    Conflict { local_value: Option<String>, remote_value: Option<String> },
}

/// An exact copy of an optional string.
pub fn opt_string_duplicate(v: &Option<String>) -> (r: Option<String>)
    ensures
        r == *v,
{
    match v {
        Some(s) => Some(s.clone()),
        None => None,
    }
}

/// Last-write-wins merge of two conflicting operations: the op with the
/// greater clock wins; two ops with equal clocks come from the same node,
/// and the local one is kept.
pub fn lww_merge(local: &Operation, remote: &Operation) -> (r: MergeResult)
    ensures
        spec_hlc_lt(remote.hlc, local.hlc) ==> r is LocalWins,
        spec_hlc_lt(local.hlc, remote.hlc) ==> (r matches MergeResult::RemoteWins { value }
            && value == remote.value),
        !spec_hlc_lt(remote.hlc, local.hlc) && !spec_hlc_lt(local.hlc, remote.hlc) ==> r
            is LocalWins,
{
    proof {
        crate::hlc::lemma_hlc_lt_asymmetric(local.hlc, remote.hlc);
    }
    if hlc_lt(&remote.hlc, &local.hlc) {
        MergeResult::LocalWins
    } else if hlc_lt(&local.hlc, &remote.hlc) {
        MergeResult::RemoteWins { value: opt_string_duplicate(&remote.value) }
    } else {
        MergeResult::LocalWins
    }
}

/// One field of a document, with the clock of its last write.
#[derive(Debug, Clone)]
pub struct FieldEntry {
    /// Field name.
    pub name: String,
    /// Field value.
    pub value: String,
    /// Clock of the write that set this value.
    pub hlc: HLC,
}

/// The map a list of field entries stands for: each name maps to the value
/// and clock of its entry (on duplicate names, the later entry wins).
pub open spec fn spec_fields_map(s: Seq<FieldEntry>) -> Map<Seq<char>, (Seq<char>, HLC)>
    decreases s.len(),
{
    if s.len() == 0 {
        Map::empty()
    } else {
        spec_fields_map(s.drop_last()).insert(s.last().name@, (s.last().value@, s.last().hlc))
    }
}

/// Whether the entries carry pairwise distinct field names.
pub open spec fn spec_fields_unique(s: Seq<FieldEntry>) -> bool {
    forall|i: int, j: int|
        0 <= i < j < s.len() ==> #[trigger] s[i].name@ != #[trigger] s[j].name@
}

/// Each entry of a duplicate-free list is present in the map it stands for.
proof fn lemma_fields_map_index(s: Seq<FieldEntry>, i: int)
    requires
        spec_fields_unique(s),
        0 <= i < s.len(),
    ensures
        spec_fields_map(s).contains_key(s[i].name@),
        spec_fields_map(s)[s[i].name@] == (s[i].value@, s[i].hlc),
    decreases s.len(),
{
    if i < s.len() - 1 {
        assert(spec_fields_unique(s.drop_last()));
        lemma_fields_map_index(s.drop_last(), i);
    }
}

/// A name carried by no entry is absent from the map.
proof fn lemma_fields_map_absent(s: Seq<FieldEntry>, k: Seq<char>)
    requires
        forall|i: int| 0 <= i < s.len() ==> #[trigger] s[i].name@ != k,
    ensures
        !spec_fields_map(s).contains_key(k),
    decreases s.len(),
{
    if s.len() > 0 {
        lemma_fields_map_absent(s.drop_last(), k);
    }
}

/// Replacing the entry at `i` (name kept) turns the map's binding over.
proof fn lemma_fields_map_update(s: Seq<FieldEntry>, i: int, e: FieldEntry)
    requires
        spec_fields_unique(s),
        0 <= i < s.len(),
        e.name@ == s[i].name@,
    ensures
        spec_fields_map(s.update(i, e)) =~= spec_fields_map(s).insert(e.name@, (e.value@, e.hlc)),
        spec_fields_unique(s.update(i, e)),
    decreases s.len(),
{
    let t = s.update(i, e);
    if i == s.len() - 1 {
        assert(t.drop_last() =~= s.drop_last());
        assert(t.last() == e);
    } else {
        assert(spec_fields_unique(s.drop_last()));
        lemma_fields_map_update(s.drop_last(), i, e);
        assert(t.drop_last() =~= s.drop_last().update(i, e));
        assert(t.last() == s.last());
        assert(s.last().name@ != e.name@);
    }
}

/// Appending an entry with a fresh name inserts its binding.
proof fn lemma_fields_map_push(s: Seq<FieldEntry>, e: FieldEntry)
    requires
        spec_fields_unique(s),
        forall|i: int| 0 <= i < s.len() ==> #[trigger] s[i].name@ != e.name@,
    ensures
        spec_fields_map(s.push(e)) =~= spec_fields_map(s).insert(e.name@, (e.value@, e.hlc)),
        spec_fields_unique(s.push(e)),
{
    assert(s.push(e).drop_last() =~= s);
    assert(s.push(e).last() == e);
}

/// Field-wise last-write-wins merge of two field maps: a remote binding
/// replaces the local one exactly when it is absent locally or carries a
/// strictly greater clock.
pub open spec fn spec_merge_fields(
    l: Map<Seq<char>, (Seq<char>, HLC)>,
    r: Map<Seq<char>, (Seq<char>, HLC)>,
) -> Map<Seq<char>, (Seq<char>, HLC)> {
    Map::new(
        |k: Seq<char>| l.contains_key(k) || r.contains_key(k),
        |k: Seq<char>|
            if r.contains_key(k) && (!l.contains_key(k) || spec_hlc_lt(l[k].1, r[k].1)) {
                r[k]
            } else {
                l[k]
            },
    )
}

/// The clock a document carries after adopting a remote snapshot.
pub open spec fn spec_merge_last_modified(l: HLC, r: HLC) -> HLC {
    if spec_hlc_lt(l, r) {
        r
    } else {
        l
    }
}

/// The tombstone flag a document carries after adopting a remote snapshot.
pub open spec fn spec_merge_deleted(l_lm: HLC, l_del: bool, r_lm: HLC, r_del: bool) -> bool {
    if spec_hlc_lt(l_lm, r_lm) {
        r_del
    } else {
        l_del
    }
}

/// A document with field-level conflict tracking.
#[derive(Debug, Clone)]
pub struct CrdtDocument {
    /// Document id.
    pub id: String,
    /// Collection name.
    pub collection: String,
    /// Field values with the clocks of their last writes.
    pub fields: Vec<FieldEntry>,
    /// Whether the document is deleted (tombstone).
    pub deleted: bool,
    /// When last modified.
    pub last_modified: HLC,
}

impl CrdtDocument {
    /// The map this document's fields stand for.
    pub open spec fn spec_fields(&self) -> Map<Seq<char>, (Seq<char>, HLC)> {
        spec_fields_map(self.fields@)
    }

    /// Well-formed: no two entries share a field name.
    pub open spec fn wf(&self) -> bool {
        spec_fields_unique(self.fields@)
    }

    /// Create an empty document stamped with a fresh clock for this node.
    pub fn new(id: &str, collection: &str, node_id: &str) -> (r: CrdtDocument)
        ensures
            r.wf(),
            r.id@ == id@,
            r.collection@ == collection@,
            r.spec_fields() =~= Map::<Seq<char>, (Seq<char>, HLC)>::empty(),
            !r.deleted,
            r.last_modified.node_id@ == node_id@,
            r.last_modified.counter == 0,
    {
        CrdtDocument {
            id: id.to_owned(),
            collection: collection.to_owned(),
            fields: Vec::new(),
            deleted: false,
            last_modified: HLC::new(node_id),
        }
    }

    /// The position of a field name in the entry list, if any.
    fn find_field(&self, field: &str) -> (r: Option<usize>)
        ensures
            r matches Some(i) ==> i < self.fields@.len() && self.fields@[i as int].name@
                == field@,
            r is None ==> forall|i: int|
                0 <= i < self.fields@.len() ==> #[trigger] self.fields@[i].name@ != field@,
    {
        let n: usize = self.fields.len();
        let mut i: usize = 0;
        while i < n
            invariant
                n == self.fields@.len(),
                0 <= i <= n,
                forall|j: int| 0 <= j < i ==> #[trigger] self.fields@[j].name@ != field@,
            decreases n - i,
        {
            if str_eq(self.fields[i].name.as_str(), field) {
                return Some(i);
            }
            i = i + 1;
        }
        None
    }

    /// Set a field value: the binding for the name is overwritten or added,
    /// and the document's clock advances to the write's clock.
    pub fn set_field(&mut self, field: &str, value: &str, hlc: HLC)
        requires
            old(self).wf(),
        ensures
            final(self).wf(),
            final(self).spec_fields() =~= old(self).spec_fields().insert(
                field@,
                (value@, hlc),
            ),
            final(self).last_modified == hlc,
            final(self).id == old(self).id,
            final(self).collection == old(self).collection,
            final(self).deleted == old(self).deleted,
    {
        let entry = FieldEntry { name: field.to_owned(), value: value.to_owned(), hlc: hlc.duplicate() };
        match self.find_field(field) {
            Some(i) => {
                proof {
                    lemma_fields_map_update(self.fields@, i as int, entry);
                }
                self.fields.set(i, entry);
            },
            None => {
                proof {
                    lemma_fields_map_push(self.fields@, entry);
                }
                self.fields.push(entry);
            },
        }
        self.last_modified = hlc;
    }

    /// Get a field value.
    pub fn get_field(&self, field: &str) -> (r: Option<&str>)
        requires
            self.wf(),
        ensures
            r matches Some(v) ==> self.spec_fields().contains_key(field@) && v@
                == self.spec_fields()[field@].0,
            r is None ==> !self.spec_fields().contains_key(field@),
    {
        match self.find_field(field) {
            Some(i) => {
                proof {
                    lemma_fields_map_index(self.fields@, i as int);
                }
                Some(self.fields[i].value.as_str())
            },
            None => {
                proof {
                    lemma_fields_map_absent(self.fields@, field@);
                }
                None
            },
        }
    }

    /// Merge with a remote version of the same document: field-level
    /// last-write-wins on every field, then the tombstone flag and the
    /// last-modified clock of whichever side was modified later.
    pub fn merge(&mut self, remote: &CrdtDocument)
        requires
            old(self).wf(),
            remote.wf(),
        ensures
            final(self).wf(),
            final(self).spec_fields() =~= spec_merge_fields(
                old(self).spec_fields(),
                remote.spec_fields(),
            ),
            final(self).last_modified == spec_merge_last_modified(
                old(self).last_modified,
                remote.last_modified,
            ),
            final(self).deleted == spec_merge_deleted(
                old(self).last_modified,
                old(self).deleted,
                remote.last_modified,
                remote.deleted,
            ),
            final(self).id == old(self).id,
            final(self).collection == old(self).collection,
    {
        let ghost l0 = self.spec_fields();
        let n: usize = remote.fields.len();
        let mut i: usize = 0;
        while i < n
            invariant
                self.wf(),
                remote.wf(),
                n == remote.fields@.len(),
                0 <= i <= n,
                self.spec_fields() =~= spec_merge_fields(
                    l0,
                    spec_fields_map(remote.fields@.take(i as int)),
                ),
                self.last_modified == old(self).last_modified,
                self.deleted == old(self).deleted,
                self.id == old(self).id,
                self.collection == old(self).collection,
            decreases n - i,
        {
            let rf = &remote.fields[i];
            let ghost prev = self.spec_fields();
            let ghost rm_prev = spec_fields_map(remote.fields@.take(i as int));
            proof {
                assert(remote.fields@.take(i + 1).drop_last() =~= remote.fields@.take(i as int));
                assert(remote.fields@.take(i + 1).last() == remote.fields@[i as int]);
                assert(forall|j: int|
                    0 <= j < i ==> #[trigger] remote.fields@[j].name@ != rf.name@);
                lemma_fields_map_absent(remote.fields@.take(i as int), rf.name@);
            }
            let entry = FieldEntry {
                name: rf.name.clone(),
                value: rf.value.clone(),
                hlc: rf.hlc.duplicate(),
            };
            match self.find_field(rf.name.as_str()) {
                Some(j) => {
                    proof {
                        lemma_fields_map_index(self.fields@, j as int);
                    }
                    if hlc_lt(&self.fields[j].hlc, &rf.hlc) {
                        proof {
                            lemma_fields_map_update(self.fields@, j as int, entry);
                        }
                        self.fields.set(j, entry);
                    }
                },
                None => {
                    proof {
                        lemma_fields_map_absent(self.fields@, rf.name@);
                        lemma_fields_map_push(self.fields@, entry);
                    }
                    self.fields.push(entry);
                },
            }
            proof {
                assert(self.spec_fields() =~= spec_merge_fields(
                    l0,
                    spec_fields_map(remote.fields@.take(i + 1)),
                ));
            }
            i = i + 1;
        }
        proof {
            assert(remote.fields@.take(n as int) =~= remote.fields@);
        }
        if hlc_lt(&self.last_modified, &remote.last_modified) {
            self.last_modified = remote.last_modified.duplicate();
            self.deleted = remote.deleted;
        }
    }
}

/// Merging the same remote snapshot twice changes nothing more than merging
/// it once: document merge is idempotent, field-wise and on the tombstone.
pub proof fn lemma_document_merge_idempotent(
    l: Map<Seq<char>, (Seq<char>, HLC)>,
    l_lm: HLC,
    l_del: bool,
    r: Map<Seq<char>, (Seq<char>, HLC)>,
    r_lm: HLC,
    r_del: bool,
)
    ensures
        spec_merge_fields(spec_merge_fields(l, r), r) =~= spec_merge_fields(l, r),
        spec_merge_last_modified(spec_merge_last_modified(l_lm, r_lm), r_lm)
            == spec_merge_last_modified(l_lm, r_lm),
        spec_merge_deleted(
            spec_merge_last_modified(l_lm, r_lm),
            spec_merge_deleted(l_lm, l_del, r_lm, r_del),
            r_lm,
            r_del,
        ) == spec_merge_deleted(l_lm, l_del, r_lm, r_del),
{
    let m1 = spec_merge_fields(l, r);
    assert forall|k: Seq<char>| m1.contains_key(k) implies spec_merge_fields(m1, r)[k] == m1[k]
    by {
        if r.contains_key(k) {
            crate::hlc::lemma_hlc_lt_asymmetric(m1[k].1, r[k].1);
        }
    }
    crate::hlc::lemma_hlc_lt_asymmetric(spec_merge_last_modified(l_lm, r_lm), r_lm);
}

} // verus!
