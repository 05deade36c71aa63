//! The catalog model: file records, per-dataset tables, column metadata and
//! published registrations, with the state machine that the import worker,
//! the publication registry and the startup reconciler drive.
//!
//! The process around the library mirrors every transition onto the SQL
//! catalog; the contracts here say what each transition does and which
//! invariants every reachable catalog state keeps.

use vstd::prelude::*;
use vstd::string::StringExecFns;
use crate::ident::{is_reserved_word, is_safe_identifier};
use crate::models::PublishResponse;
use crate::publication::{all_slug_chars, spec_validate_slug, SLUG_MAX_LENGTH};
use crate::strutil::str_eq_string;

verus! {

/// The error message the reconciler writes into crashed imports.
pub const PROCESSING_RECONCILIATION_ERROR: &'static str = "Server restarted during processing";

/// Lifecycle state of an uploaded file.
#[derive(Clone, Copy, Debug, PartialEq, Eq, Structural)]
pub enum FileStatus {
    Uploaded,
    Processing,
    Ready,
    Failed,
}

/// How far along the lifecycle a status is; both terminal states rank
/// equally.
pub open spec fn status_rank(s: FileStatus) -> int {
    match s {
        FileStatus::Uploaded => 0,
        FileStatus::Processing => 1,
        FileStatus::Ready => 2,
        FileStatus::Failed => 2,
    }
}

/// The edges of the status machine: uploaded moves to processing, and
/// processing moves to one of the terminal states.
pub open spec fn status_step_allowed(pre: FileStatus, post: FileStatus) -> bool {
    ||| (pre is Uploaded && post is Processing)
    ||| (pre is Processing && post is Ready)
    ||| (pre is Processing && post is Failed)
}

/// Status only moves forward: every allowed step strictly increases the
/// rank, reaching ready passes through processing, and the only step out
/// of uploaded is into processing.
pub proof fn lemma_status_monotonic(pre: FileStatus, post: FileStatus)
    requires
        status_step_allowed(pre, post),
    ensures
        status_rank(post) > status_rank(pre),
        post is Ready ==> pre is Processing,
        pre is Uploaded ==> post is Processing,
{
}

/// One file record of the catalog.
pub struct FileRecord {
    pub id: String,
    pub name: String,
    pub file_type: String,
    pub size: u64,
    pub uploaded_at: String,
    pub status: FileStatus,
    pub crs: Option<String>,
    pub path: String,
    pub table_name: Option<String>,
    pub error: Option<String>,
    pub is_public: bool,
}

/// A per-dataset table materialized by the import worker, with the names
/// of all its columns.
pub struct DatasetTable {
    pub name: String,
    pub columns: Vec<String>,
}

/// One dataset-column metadata row: the original name preserved for tags,
/// the normalized name used as the SQL identifier.
pub struct ColumnMeta {
    pub source_id: String,
    pub normalized_name: String,
    pub original_name: String,
    pub ordinal: i64,
    pub logical_type: String,
}

/// One published registration: a file id bound to a globally unique slug.
pub struct Registration {
    pub file_id: String,
    pub slug: String,
}

/// The whole catalog state.
pub struct Catalog {
    pub files: Vec<FileRecord>,
    pub tables: Vec<DatasetTable>,
    pub columns: Vec<ColumnMeta>,
    pub published: Vec<Registration>,
    pub initialized: bool,
}

/// Whether a column-name list holds `name`.
pub open spec fn col_list_has(cols: Seq<String>, name: Seq<char>) -> bool {
    exists|j: int| 0 <= j < cols.len() && #[trigger] cols[j]@ == name
}

/// Whether a table's column list holds `name`.
pub open spec fn table_has_column(t: DatasetTable, name: Seq<char>) -> bool {
    col_list_has(t.columns@, name)
}

/// Whether `tables[ti]` is the per-dataset table of record `f`: the name
/// the record points at, holding both reserved columns.
pub open spec fn table_matches(tables: Seq<DatasetTable>, ti: int, f: FileRecord) -> bool {
    &&& 0 <= ti < tables.len()
    &&& f.table_name matches Some(n) && tables[ti].name@ == n@
    &&& table_has_column(tables[ti], "fid"@)
    &&& table_has_column(tables[ti], "geom"@)
}

/// The metadata rows for `id` describe exactly the property columns of
/// table `t`: every row names a column of `t`, and every column of `t`
/// other than `fid` and `geom` is named by a row.
pub open spec fn rows_match_table(columns: Seq<ColumnMeta>, id: Seq<char>, t: DatasetTable) -> bool {
    &&& forall|ci: int|
        0 <= ci < columns.len() && #[trigger] columns[ci].source_id@ == id ==> table_has_column(
            t,
            columns[ci].normalized_name@,
        )
    &&& forall|j: int|
        0 <= j < t.columns.len() && #[trigger] t.columns[j]@ != "fid"@ && t.columns[j]@ != "geom"@
            ==> exists|ci: int|
            0 <= ci < columns.len() && #[trigger] columns[ci].source_id@ == id
                && columns[ci].normalized_name@ == t.columns[j]@
}

/// File ids are unique.
pub open spec fn wf_file_ids(files: Seq<FileRecord>) -> bool {
    forall|i: int, j: int|
        0 <= i < j < files.len() ==> #[trigger] files[i].id@ != #[trigger] files[j].id@
}

/// A failed record carries an error message.
pub open spec fn wf_failed_have_errors(files: Seq<FileRecord>) -> bool {
    forall|i: int|
        0 <= i < files.len() && #[trigger] files[i].status is Failed ==> files[i].error is Some
}

/// Every ready record points at an existing per-dataset table that holds
/// the reserved `fid` and `geom` columns.
pub open spec fn wf_ready_have_tables(files: Seq<FileRecord>, tables: Seq<DatasetTable>) -> bool {
    forall|i: int|
        0 <= i < files.len() && #[trigger] files[i].status is Ready ==> files[i].table_name is Some
            && exists|ti: int| table_matches(tables, ti, files[i])
}

/// For every ready record, the metadata rows under its id describe exactly
/// its table's property columns.
pub open spec fn wf_metadata_complete(
    files: Seq<FileRecord>,
    tables: Seq<DatasetTable>,
    columns: Seq<ColumnMeta>,
) -> bool {
    forall|i: int|
        0 <= i < files.len() && #[trigger] files[i].status is Ready ==> exists|ti: int|
            table_matches(tables, ti, files[i]) && rows_match_table(
                columns,
                files[i].id@,
                tables[ti],
            )
}

/// Metadata rows are keyed by (source id, normalized name).
pub open spec fn wf_column_keys(columns: Seq<ColumnMeta>) -> bool {
    forall|i: int, j: int|
        0 <= i < j < columns.len() ==> !(#[trigger] columns[i].source_id@ == #[trigger] columns[j].source_id@
            && columns[i].normalized_name@ == columns[j].normalized_name@)
}

/// Every stored normalized name is a safe identifier, is not reserved, and
/// never names the reserved `fid` and `geom` columns.
pub open spec fn wf_column_names(columns: Seq<ColumnMeta>) -> bool {
    forall|i: int|
        0 <= i < columns.len() ==> is_safe_identifier(#[trigger] columns[i].normalized_name@)
            && !is_reserved_word(columns[i].normalized_name@) && columns[i].normalized_name@
            != "fid"@ && columns[i].normalized_name@ != "geom"@
}

/// Whether some ready record owns this id.
pub open spec fn row_owner_ready(files: Seq<FileRecord>, id: Seq<char>) -> bool {
    exists|k: int|
        0 <= k < files.len() && #[trigger] files[k].id@ == id && files[k].status is Ready
}

/// Every metadata row belongs to a ready record: rows are written only at
/// the commit point of an import.
pub open spec fn wf_rows_owned(files: Seq<FileRecord>, columns: Seq<ColumnMeta>) -> bool {
    forall|ci: int|
        0 <= ci < columns.len() ==> row_owner_ready(files, #[trigger] columns[ci].source_id@)
}

/// A valid slug as stored: nonempty, bounded, slug characters only.
pub open spec fn wf_slug(s: Seq<char>) -> bool {
    0 < s.len() <= SLUG_MAX_LENGTH && all_slug_chars(s)
}

/// Registrations: one per file, slugs globally unique and well formed.
pub open spec fn wf_registrations(published: Seq<Registration>) -> bool {
    &&& forall|i: int, j: int|
        0 <= i < j < published.len() ==> #[trigger] published[i].file_id@ != #[trigger] published[j].file_id@
            && published[i].slug@ != published[j].slug@
    &&& forall|i: int| 0 <= i < published.len() ==> wf_slug(#[trigger] published[i].slug@)
}

/// Whether some record has this id and is flagged public.
pub open spec fn has_public_file(files: Seq<FileRecord>, id: Seq<char>) -> bool {
    exists|k: int| 0 <= k < files.len() && #[trigger] files[k].id@ == id && files[k].is_public
}

/// Whether some registration names this file id.
pub open spec fn is_registered(published: Seq<Registration>, id: Seq<char>) -> bool {
    exists|i: int| 0 <= i < published.len() && #[trigger] published[i].file_id@ == id
}

/// Publication invariant: every registration points at an existing record
/// flagged public, and every public record is registered.
pub open spec fn wf_publication(files: Seq<FileRecord>, published: Seq<Registration>) -> bool {
    &&& forall|i: int|
        0 <= i < published.len() ==> has_public_file(files, #[trigger] published[i].file_id@)
    &&& forall|k: int|
        0 <= k < files.len() && #[trigger] files[k].is_public ==> is_registered(
            published,
            files[k].id@,
        )
}

impl Catalog {
    /// The catalog's invariant, maintained by every transition.
    pub open spec fn wf(self) -> bool {
        &&& wf_file_ids(self.files@)
        &&& wf_failed_have_errors(self.files@)
        &&& wf_ready_have_tables(self.files@, self.tables@)
        &&& wf_metadata_complete(self.files@, self.tables@, self.columns@)
        &&& wf_column_keys(self.columns@)
        &&& wf_column_names(self.columns@)
        &&& wf_rows_owned(self.files@, self.columns@)
        &&& wf_registrations(self.published@)
        &&& wf_publication(self.files@, self.published@)
    }

    /// The empty catalog, as a fresh deployment starts.
    pub fn new() -> (r: Catalog)
        ensures
            r.wf(),
            r.files@.len() == 0,
            r.tables@.len() == 0,
            r.columns@.len() == 0,
            r.published@.len() == 0,
            !r.initialized,
    {
        Catalog {
            files: Vec::new(),
            tables: Vec::new(),
            columns: Vec::new(),
            published: Vec::new(),
            initialized: false,
        }
    }

    /// Whether a record with this id exists.
    pub open spec fn spec_has_file(self, id: Seq<char>) -> bool {
        exists|k: int| 0 <= k < self.files@.len() && #[trigger] self.files@[k].id@ == id
    }

    /// The position of the record with this id.
    pub fn find_file_index(&self, id: &str) -> (r: Option<usize>)
        ensures
            match r {
                Some(k) => k < self.files@.len() && self.files@[k as int].id@ == id@,
                None => !self.spec_has_file(id@),
            },
    {
        let n: usize = self.files.len();
        let mut k: usize = 0;
        while k < n
            invariant
                n == self.files@.len(),
                k <= n,
                forall|j: int| 0 <= j < k ==> #[trigger] self.files@[j].id@ != id@,
            decreases n - k,
        {
            if str_eq_string(id, &self.files[k].id) {
                return Some(k);
            }
            k = k + 1;
        }
        None
    }

    /// Whether the one-time initialization flag is set.
    pub fn is_initialized(&self) -> (r: bool)
        ensures
            r == self.initialized,
    {
        self.initialized
    }

    /// Sets the one-time initialization flag.
    pub fn set_initialized(&mut self)
        ensures
            final(self).initialized,
            final(self).files == old(self).files,
            final(self).tables == old(self).tables,
            final(self).columns == old(self).columns,
            final(self).published == old(self).published,
            old(self).wf() ==> final(self).wf(),
    {
        self.initialized = true;
    }

    /// Inserts a fresh record as the ingestion coordinator does: either
    /// `uploaded` awaiting import, or `failed` with a validation error.
    /// A fresh record is never public and owns no table yet.
    pub fn insert_record(&mut self, rec: FileRecord)
        requires
            old(self).wf(),
            !old(self).spec_has_file(rec.id@),
            rec.status is Uploaded || rec.status is Failed,
            rec.status is Failed ==> rec.error is Some,
            rec.table_name is None,
            !rec.is_public,
        ensures
            final(self).wf(),
            final(self).files@ == old(self).files@.push(rec),
            final(self).tables == old(self).tables,
            final(self).columns == old(self).columns,
            final(self).published == old(self).published,
            final(self).initialized == old(self).initialized,
    {
        let ghost pre = *self;
        self.files.push(rec);
        proof {
            let files = self.files@;
            let prev = pre.files@;
            assert forall|i: int, j: int| 0 <= i < j < files.len() implies #[trigger] files[i].id@
                != #[trigger] files[j].id@ by {
                if j < prev.len() {
                    assert(files[i] == prev[i] && files[j] == prev[j]);
                } else {
                    assert(files[j] == rec);
                    assert(files[i] == prev[i]);
                    assert(prev[i].id@ != rec.id@);
                }
            }
            assert forall|i: int| 0 <= i < files.len() && #[trigger] files[i].status is Ready
                implies files[i].table_name is Some && exists|ti: int|
                table_matches(self.tables@, ti, files[i]) by {
                assert(files[i] == prev[i]);
                assert(prev[i].status is Ready);
            }
            assert forall|i: int| 0 <= i < files.len() && #[trigger] files[i].status is Ready
                implies exists|ti: int|
                table_matches(self.tables@, ti, files[i]) && rows_match_table(
                    self.columns@,
                    files[i].id@,
                    self.tables@[ti],
                ) by {
                assert(files[i] == prev[i]);
                assert(prev[i].status is Ready);
            }
            assert(wf_publication(files, self.published@)) by {
                assert forall|i: int| 0 <= i < self.published@.len() implies has_public_file(
                    files,
                    #[trigger] self.published@[i].file_id@,
                ) by {
                    assert(has_public_file(prev, self.published@[i].file_id@));
                    let k = choose|k: int|
                        0 <= k < prev.len() && #[trigger] prev[k].id@
                            == self.published@[i].file_id@ && prev[k].is_public;
                    assert(files[k] == prev[k]);
                    assert(files[k].id@ == self.published@[i].file_id@ && files[k].is_public);
                }
                assert forall|k: int| 0 <= k < files.len() && #[trigger] files[k].is_public
                    implies is_registered(self.published@, files[k].id@) by {
                    assert(k < prev.len() && files[k] == prev[k]);
                    assert(is_registered(self.published@, prev[k].id@));
                }
            }
            assert(wf_file_ids(files));
            assert(wf_failed_have_errors(files));
            assert(wf_ready_have_tables(files, self.tables@));
            assert(wf_metadata_complete(files, self.tables@, self.columns@));
            assert(wf_rows_owned(files, self.columns@)) by {
                assert forall|ci: int| 0 <= ci < self.columns@.len() implies row_owner_ready(
                    files,
                    #[trigger] self.columns@[ci].source_id@,
                ) by {
                    assert(row_owner_ready(prev, self.columns@[ci].source_id@));
                    let kk = choose|kk: int|
                        0 <= kk < prev.len() && #[trigger] prev[kk].id@
                            == self.columns@[ci].source_id@ && prev[kk].status is Ready;
                    assert(files[kk] == prev[kk]);
                }
            }
        }
    }

    /// Moves an uploaded record into `processing`, as the import worker
    /// does when it takes the file.
    pub fn begin_processing(&mut self, k: usize)
        requires
            old(self).wf(),
            k < old(self).files@.len(),
            old(self).files@[k as int].status is Uploaded,
        ensures
            final(self).wf(),
            final(self).files@.len() == old(self).files@.len(),
            final(self).files@[k as int].status is Processing,
            status_step_allowed(old(self).files@[k as int].status, final(self).files@[k as int].status),
            record_fields_equal(old(self).files@[k as int], final(self).files@[k as int]),
            forall|j: int|
                0 <= j < old(self).files@.len() && j != k ==> final(self).files@[j] == old(
                    self,
                ).files@[j],
            final(self).tables == old(self).tables,
            final(self).columns == old(self).columns,
            final(self).published == old(self).published,
            final(self).initialized == old(self).initialized,
    {
        let ghost pre = *self;
        let rec = &mut self.files[k];
        rec.status = FileStatus::Processing;
        proof {
            lemma_single_update_preserves_wf(pre, *self, k as int);
        }
    }

    /// Moves a processing record into `failed` with the import error, as
    /// the worker does when the import aborts.
    pub fn mark_failed(&mut self, k: usize, error: String)
        requires
            old(self).wf(),
            k < old(self).files@.len(),
            old(self).files@[k as int].status is Processing,
        ensures
            final(self).wf(),
            final(self).files@.len() == old(self).files@.len(),
            final(self).files@[k as int].status is Failed,
            final(self).files@[k as int].error matches Some(e) && e@ == error@,
            status_step_allowed(old(self).files@[k as int].status, final(self).files@[k as int].status),
            record_fields_equal(old(self).files@[k as int], final(self).files@[k as int]),
            forall|j: int|
                0 <= j < old(self).files@.len() && j != k ==> final(self).files@[j] == old(
                    self,
                ).files@[j],
            final(self).tables == old(self).tables,
            final(self).columns == old(self).columns,
            final(self).published == old(self).published,
            final(self).initialized == old(self).initialized,
    {
        let ghost pre = *self;
        let rec = &mut self.files[k];
        rec.status = FileStatus::Failed;
        rec.error = Some(error);
        proof {
            lemma_single_update_preserves_wf(pre, *self, k as int);
        }
    }

    /// After a restart, fails every record still in `processing` with the
    /// fixed reconciliation message. No record remains `processing`, and
    /// nothing else changes; running it again is harmless.
    pub fn reconcile_processing_files(&mut self) -> (n: usize)
        requires
            old(self).wf(),
        ensures
            final(self).wf(),
            reconciled(old(self).files@, final(self).files@),
            n as int == count_processing(old(self).files@, old(self).files@.len() as int),
            forall|i: int|
                0 <= i < final(self).files@.len()
                    ==> !((#[trigger] final(self).files@[i]).status is Processing),
            final(self).tables == old(self).tables,
            final(self).columns == old(self).columns,
            final(self).published == old(self).published,
            final(self).initialized == old(self).initialized,
    {
        let ghost orig = *self;
        let total: usize = self.files.len();
        let mut n: usize = 0;
        let mut k: usize = 0;
        while k < total
            invariant
                orig.wf(),
                total == self.files@.len() == orig.files@.len(),
                k <= total,
                n <= k,
                n as int == count_processing(orig.files@, k as int),
                forall|j: int|
                    0 <= j < k ==> reconciled_record(orig.files@[j], #[trigger] self.files@[j]),
                forall|j: int| k <= j < total ==> self.files@[j] == orig.files@[j],
                self.tables == orig.tables,
                self.columns == orig.columns,
                self.published == orig.published,
                self.initialized == orig.initialized,
            decreases total - k,
        {
            let ghost pre = *self;
            let is_processing = match self.files[k].status {
                FileStatus::Processing => true,
                _ => false,
            };
            if is_processing {
                let rec = &mut self.files[k];
                rec.status = FileStatus::Failed;
                rec.error = Some(PROCESSING_RECONCILIATION_ERROR.to_owned());
                n = n + 1;
            }
            k = k + 1;
            proof {
                assert(count_processing(orig.files@, k as int) == count_processing(
                    orig.files@,
                    k as int - 1,
                ) + (if orig.files@[k as int - 1].status is Processing {
                    1int
                } else {
                    0int
                }));
            }
        }
        proof {
            lemma_reconciled_preserves_wf(orig, *self);
        }
        n
    }
}

/// Every lifecycle-neutral field of a record is unchanged: the identity,
/// the upload metadata, the table pointer and the visibility flag.
pub open spec fn record_fields_equal(a: FileRecord, b: FileRecord) -> bool {
    &&& a.id == b.id
    &&& a.name == b.name
    &&& a.file_type == b.file_type
    &&& a.size == b.size
    &&& a.uploaded_at == b.uploaded_at
    &&& a.crs == b.crs
    &&& a.path == b.path
    &&& a.is_public == b.is_public
}

/// How one record looks after reconciliation.
pub open spec fn reconciled_record(pre: FileRecord, post: FileRecord) -> bool {
    if pre.status is Processing {
        &&& post.status is Failed
        &&& post.error matches Some(e) && e@ == PROCESSING_RECONCILIATION_ERROR@
        &&& post.table_name == pre.table_name
        &&& record_fields_equal(pre, post)
    } else {
        post == pre
    }
}

/// The reconciliation relation over whole file lists.
pub open spec fn reconciled(pre: Seq<FileRecord>, post: Seq<FileRecord>) -> bool {
    &&& pre.len() == post.len()
    &&& forall|i: int| 0 <= i < pre.len() ==> reconciled_record(pre[i], #[trigger] post[i])
}

/// How many records of the first `k` are in `processing`.
pub open spec fn count_processing(files: Seq<FileRecord>, k: int) -> int
    decreases k,
{
    if k <= 0 {
        0
    } else {
        count_processing(files, k - 1) + (if files[k - 1].status is Processing {
            1int
        } else {
            0int
        })
    }
}

/// Reconciling a catalog with nothing in `processing` changes nothing:
/// the sweep is idempotent.
pub proof fn lemma_reconcile_idempotent(
    pre: Seq<FileRecord>,
    mid: Seq<FileRecord>,
    post: Seq<FileRecord>,
)
    requires
        reconciled(pre, mid),
        reconciled(mid, post),
    ensures
        post =~= mid,
{
    assert forall|i: int| 0 <= i < mid.len() implies post[i] == mid[i] by {
        assert(reconciled_record(pre[i], mid[i]));
        assert(reconciled_record(mid[i], post[i]));
    }
}

/// A status-or-error change to one record, leaving its identity, table
/// pointer and visibility alone, preserves the catalog invariant as long
/// as the new status respects the failed-records rule and is not `ready`
/// without its table.
proof fn lemma_single_update_preserves_wf(pre: Catalog, post: Catalog, k: int)
    requires
        pre.wf(),
        0 <= k < pre.files@.len(),
        post.files@.len() == pre.files@.len(),
        forall|j: int| 0 <= j < pre.files@.len() && j != k ==> post.files@[j] == pre.files@[j],
        record_fields_equal(pre.files@[k], post.files@[k]),
        post.files@[k].table_name == pre.files@[k].table_name,
        post.files@[k].status is Failed ==> post.files@[k].error is Some,
        post.files@[k].status is Ready <==> pre.files@[k].status is Ready,
        post.tables == pre.tables,
        post.columns == pre.columns,
        post.published == pre.published,
    ensures
        post.wf(),
{
    let files = post.files@;
    let prev = pre.files@;
    assert(wf_rows_owned(files, post.columns@)) by {
        assert forall|ci: int| 0 <= ci < post.columns@.len() implies row_owner_ready(
            files,
            #[trigger] post.columns@[ci].source_id@,
        ) by {
            assert(row_owner_ready(prev, post.columns@[ci].source_id@));
            let kk = choose|kk: int|
                0 <= kk < prev.len() && #[trigger] prev[kk].id@ == post.columns@[ci].source_id@
                    && prev[kk].status is Ready;
            if kk == k {
                assert(files[k].id@ == prev[k].id@ && files[k].status is Ready);
            } else {
                assert(files[kk] == prev[kk]);
            }
        }
    }
    assert forall|i: int, j: int| 0 <= i < j < files.len() implies #[trigger] files[i].id@
        != #[trigger] files[j].id@ by {
        assert(files[i].id@ == prev[i].id@ && files[j].id@ == prev[j].id@);
    }
    assert forall|i: int| 0 <= i < files.len() && #[trigger] files[i].status is Failed implies
        files[i].error is Some by {
        if i != k {
            assert(files[i] == prev[i]);
        }
    }
    assert forall|i: int| 0 <= i < files.len() && #[trigger] files[i].status is Ready implies
        files[i].table_name is Some && exists|ti: int| table_matches(post.tables@, ti, files[i]) by {
        if i == k {
            assert(prev[k].status is Ready);
            let ti = choose|ti: int| table_matches(pre.tables@, ti, prev[k]);
            assert(table_matches(post.tables@, ti, files[k]));
        } else {
            assert(files[i] == prev[i]);
            let ti = choose|ti: int| table_matches(pre.tables@, ti, prev[i]);
            assert(table_matches(post.tables@, ti, files[i]));
        }
    }
    assert forall|i: int| 0 <= i < files.len() && #[trigger] files[i].status is Ready implies
        exists|ti: int|
        table_matches(post.tables@, ti, files[i]) && rows_match_table(
            post.columns@,
            files[i].id@,
            post.tables@[ti],
        ) by {
        if i == k {
            assert(prev[k].status is Ready);
            let ti = choose|ti: int|
                table_matches(pre.tables@, ti, prev[k]) && rows_match_table(
                    pre.columns@,
                    prev[k].id@,
                    pre.tables@[ti],
                );
            assert(table_matches(post.tables@, ti, files[k]));
            assert(rows_match_table(post.columns@, files[k].id@, post.tables@[ti]));
        } else {
            assert(files[i] == prev[i]);
            let ti = choose|ti: int|
                table_matches(pre.tables@, ti, prev[i]) && rows_match_table(
                    pre.columns@,
                    prev[i].id@,
                    pre.tables@[ti],
                );
            assert(table_matches(post.tables@, ti, files[i]));
            assert(rows_match_table(post.columns@, files[i].id@, post.tables@[ti]));
        }
    }
    assert(wf_publication(files, post.published@)) by {
        assert forall|i: int| 0 <= i < post.published@.len() implies has_public_file(
            files,
            #[trigger] post.published@[i].file_id@,
        ) by {
            assert(has_public_file(prev, post.published@[i].file_id@));
            let kk = choose|kk: int|
                0 <= kk < prev.len() && #[trigger] prev[kk].id@ == post.published@[i].file_id@
                    && prev[kk].is_public;
            assert(files[kk].id@ == prev[kk].id@ && files[kk].is_public == prev[kk].is_public);
        }
        assert forall|kk: int| 0 <= kk < files.len() && #[trigger] files[kk].is_public implies
            is_registered(post.published@, files[kk].id@) by {
            assert(prev[kk].is_public && prev[kk].id@ == files[kk].id@);
            assert(is_registered(post.published@, prev[kk].id@));
        }
    }
    assert(wf_file_ids(files));
    assert(wf_failed_have_errors(files));
    assert(wf_ready_have_tables(files, post.tables@));
    assert(wf_metadata_complete(files, post.tables@, post.columns@));
}

/// The pointwise reconciliation relation preserves the catalog invariant.
proof fn lemma_reconciled_preserves_wf(pre: Catalog, post: Catalog)
    requires
        pre.wf(),
        reconciled(pre.files@, post.files@),
        post.tables == pre.tables,
        post.columns == pre.columns,
        post.published == pre.published,
    ensures
        post.wf(),
{
    let files = post.files@;
    let prev = pre.files@;
    assert(wf_rows_owned(files, post.columns@)) by {
        assert forall|ci: int| 0 <= ci < post.columns@.len() implies row_owner_ready(
            files,
            #[trigger] post.columns@[ci].source_id@,
        ) by {
            assert(row_owner_ready(prev, post.columns@[ci].source_id@));
            let kk = choose|kk: int|
                0 <= kk < prev.len() && #[trigger] prev[kk].id@ == post.columns@[ci].source_id@
                    && prev[kk].status is Ready;
            assert(reconciled_record(prev[kk], files[kk]));
        }
    }
    assert forall|i: int, j: int| 0 <= i < j < files.len() implies #[trigger] files[i].id@
        != #[trigger] files[j].id@ by {
        assert(reconciled_record(prev[i], files[i]));
        assert(reconciled_record(prev[j], files[j]));
        assert(files[i].id@ == prev[i].id@ && files[j].id@ == prev[j].id@);
    }
    assert forall|i: int| 0 <= i < files.len() && #[trigger] files[i].status is Failed implies
        files[i].error is Some by {
        assert(reconciled_record(prev[i], files[i]));
    }
    assert forall|i: int| 0 <= i < files.len() && #[trigger] files[i].status is Ready implies
        files[i].table_name is Some && exists|ti: int| table_matches(post.tables@, ti, files[i]) by {
        assert(reconciled_record(prev[i], files[i]));
        assert(files[i] == prev[i]);
        let ti = choose|ti: int| table_matches(pre.tables@, ti, prev[i]);
        assert(table_matches(post.tables@, ti, files[i]));
    }
    assert forall|i: int| 0 <= i < files.len() && #[trigger] files[i].status is Ready implies
        exists|ti: int|
        table_matches(post.tables@, ti, files[i]) && rows_match_table(
            post.columns@,
            files[i].id@,
            post.tables@[ti],
        ) by {
        assert(reconciled_record(prev[i], files[i]));
        assert(files[i] == prev[i]);
        let ti = choose|ti: int|
            table_matches(pre.tables@, ti, prev[i]) && rows_match_table(
                pre.columns@,
                prev[i].id@,
                pre.tables@[ti],
            );
        assert(table_matches(post.tables@, ti, files[i]));
        assert(rows_match_table(post.columns@, files[i].id@, post.tables@[ti]));
    }
    assert(wf_publication(files, post.published@)) by {
        assert forall|i: int| 0 <= i < post.published@.len() implies has_public_file(
            files,
            #[trigger] post.published@[i].file_id@,
        ) by {
            assert(has_public_file(prev, post.published@[i].file_id@));
            let kk = choose|kk: int|
                0 <= kk < prev.len() && #[trigger] prev[kk].id@ == post.published@[i].file_id@
                    && prev[kk].is_public;
            assert(reconciled_record(prev[kk], files[kk]));
            assert(files[kk].id@ == prev[kk].id@ && files[kk].is_public == prev[kk].is_public);
        }
        assert forall|kk: int| 0 <= kk < files.len() && #[trigger] files[kk].is_public implies
            is_registered(post.published@, files[kk].id@) by {
            assert(reconciled_record(prev[kk], files[kk]));
            assert(prev[kk].is_public && prev[kk].id@ == files[kk].id@);
            assert(is_registered(post.published@, prev[kk].id@));
        }
    }
    assert(wf_file_ids(files));
    assert(wf_failed_have_errors(files));
    assert(wf_ready_have_tables(files, post.tables@));
    assert(wf_metadata_complete(files, post.tables@, post.columns@));
}

/// Whether the record with this id exists and is ready.
pub open spec fn file_ready(c: Catalog, id: Seq<char>) -> bool {
    exists|k: int|
        0 <= k < c.files@.len() && #[trigger] c.files@[k].id@ == id && c.files@[k].status is Ready
}

/// Whether some registration holds this slug.
pub open spec fn slug_taken(published: Seq<Registration>, slug: Seq<char>) -> bool {
    exists|i: int| 0 <= i < published.len() && #[trigger] published[i].slug@ == slug
}

/// When a publish call is owed success: the file is ready, not yet
/// registered, and the slug is free.
pub open spec fn publish_allowed(c: Catalog, id: Seq<char>, slug: Seq<char>) -> bool {
    &&& file_ready(c, id)
    &&& !is_registered(c.published@, id)
    &&& !slug_taken(c.published@, slug)
}

/// `b` is `a` with only the visibility flag set to `flag`.
pub open spec fn same_but_public(a: FileRecord, b: FileRecord, flag: bool) -> bool {
    &&& b.id == a.id
    &&& b.name == a.name
    &&& b.file_type == a.file_type
    &&& b.size == a.size
    &&& b.uploaded_at == a.uploaded_at
    &&& b.crs == a.crs
    &&& b.path == a.path
    &&& b.status == a.status
    &&& b.table_name == a.table_name
    &&& b.error == a.error
    &&& b.is_public == flag
}

/// The successful publish outcome: one registration appended, the file
/// flagged public, nothing else touched.
pub open spec fn publish_ok(pre: Catalog, post: Catalog, id: Seq<char>, slug: Seq<char>) -> bool {
    &&& post.published@.len() == pre.published@.len() + 1
    &&& post.published@.subrange(0, pre.published@.len() as int) == pre.published@
    &&& post.published@[pre.published@.len() as int].file_id@ == id
    &&& post.published@[pre.published@.len() as int].slug@ == slug
    &&& post.files@.len() == pre.files@.len()
    &&& forall|j: int|
        0 <= j < pre.files@.len() ==> if pre.files@[j].id@ == id {
            same_but_public(pre.files@[j], #[trigger] post.files@[j], true)
        } else {
            post.files@[j] == pre.files@[j]
        }
    &&& post.tables == pre.tables
    &&& post.columns == pre.columns
    &&& post.initialized == pre.initialized
}

/// When an unpublish call is owed success: the file is registered and
/// flagged public.
pub open spec fn unpublish_allowed(c: Catalog, id: Seq<char>) -> bool {
    &&& is_registered(c.published@, id)
    &&& has_public_file(c.files@, id)
}

/// The successful unpublish outcome: the file's registration removed and
/// its visibility flag cleared, nothing else touched.
pub open spec fn unpublish_ok(pre: Catalog, post: Catalog, id: Seq<char>) -> bool {
    &&& exists|ri: int|
        0 <= ri < pre.published@.len() && #[trigger] pre.published@[ri].file_id@ == id
            && post.published@ == pre.published@.remove(ri)
    &&& post.files@.len() == pre.files@.len()
    &&& forall|j: int|
        0 <= j < pre.files@.len() ==> if pre.files@[j].id@ == id {
            same_but_public(pre.files@[j], #[trigger] post.files@[j], false)
        } else {
            post.files@[j] == pre.files@[j]
        }
    &&& post.tables == pre.tables
    &&& post.columns == pre.columns
    &&& post.initialized == pre.initialized
}

/// What can stop a publish call.
#[derive(Debug)]
pub enum PublishError {
    /// No record with the requested id.
    FileNotFound,
    /// The record exists but is not ready.
    NotReady,
    /// The slug failed validation; the message says how.
    InvalidSlug(String),
    /// The file is already published; the payload is its current slug.
    AlreadyPublished(String),
    /// The slug belongs to another file.
    SlugTaken,
}

/// The message each publish error carries.
pub open spec fn spec_publish_error_message(e: PublishError) -> Seq<char> {
    match e {
        PublishError::FileNotFound => "File not found"@,
        PublishError::NotReady => "File is not ready for publishing"@,
        PublishError::InvalidSlug(m) => m@,
        PublishError::AlreadyPublished(existing) => "File already published with slug '"@
            + existing@ + "'. Unpublish first to change slug."@,
        PublishError::SlugTaken => "Slug already in use"@,
    }
}

impl PublishError {
    /// The human-readable message for this error; the already-published
    /// report names the existing slug.
    pub fn message(&self) -> (r: String)
        ensures
            r@ == spec_publish_error_message(*self),
    {
        match self {
            PublishError::FileNotFound => "File not found".to_owned(),
            PublishError::NotReady => "File is not ready for publishing".to_owned(),
            PublishError::InvalidSlug(m) => m.clone(),
            PublishError::AlreadyPublished(existing) => "File already published with slug '"
                .to_owned().concat(existing.as_str()).concat(
                "'. Unpublish first to change slug.",
            ),
            PublishError::SlugTaken => "Slug already in use".to_owned(),
        }
    }
}

impl Catalog {
    /// The position of the registration for this file id.
    fn find_registration_by_file(&self, id: &str) -> (r: Option<usize>)
        ensures
            match r {
                Some(ri) => ri < self.published@.len() && self.published@[ri as int].file_id@
                    == id@,
                None => !is_registered(self.published@, id@),
            },
    {
        let n: usize = self.published.len();
        let mut i: usize = 0;
        while i < n
            invariant
                n == self.published@.len(),
                i <= n,
                forall|j: int| 0 <= j < i ==> #[trigger] self.published@[j].file_id@ != id@,
            decreases n - i,
        {
            if str_eq_string(id, &self.published[i].file_id) {
                return Some(i);
            }
            i = i + 1;
        }
        None
    }

    /// The position of the registration holding this slug.
    fn find_registration_by_slug(&self, slug: &str) -> (r: Option<usize>)
        ensures
            match r {
                Some(ri) => ri < self.published@.len() && self.published@[ri as int].slug@
                    == slug@,
                None => !slug_taken(self.published@, slug@),
            },
    {
        let n: usize = self.published.len();
        let mut i: usize = 0;
        while i < n
            invariant
                n == self.published@.len(),
                i <= n,
                forall|j: int| 0 <= j < i ==> #[trigger] self.published@[j].slug@ != slug@,
            decreases n - i,
        {
            if str_eq_string(slug, &self.published[i].slug) {
                return Some(i);
            }
            i = i + 1;
        }
        None
    }
}

impl Catalog {
    /// Publishes a ready file under the requested slug (or its id when no
    /// slug is requested): re-checks readiness, validates the slug,
    /// classifies collisions with existing registrations, and on success
    /// registers the slug and flags the file public.
    #[verifier::rlimit(80)]
    pub fn publish(&mut self, id: &str, requested_slug: Option<&String>) -> (r: Result<
        PublishResponse,
        PublishError,
    >)
        requires
            old(self).wf(),
        ensures
            final(self).wf(),
            ({
                let pre = *old(self);
                let slug_src = match requested_slug {
                    Some(s) => s@,
                    None => id@,
                };
                match r {
                    Ok(resp) => {
                        &&& spec_validate_slug(slug_src) matches Ok(t) && resp.slug@ == t
                            && publish_allowed(pre, id@, t) && publish_ok(
                            pre,
                            *final(self),
                            id@,
                            t,
                        ) && resp.url@ == "/tiles/"@ + t + "/{z}/{x}/{y}"@ && resp.is_public
                    },
                    Err(e) => {
                        &&& *final(self) == pre
                        &&& match e {
                            PublishError::FileNotFound => !pre.spec_has_file(id@),
                            PublishError::NotReady => pre.spec_has_file(id@) && !file_ready(
                                pre,
                                id@,
                            ),
                            PublishError::InvalidSlug(m) => file_ready(pre, id@) && (
                            spec_validate_slug(slug_src) matches Err(em) && m@ == em),
                            PublishError::AlreadyPublished(ex) => file_ready(pre, id@)
                                && spec_validate_slug(slug_src) is Ok && exists|ri: int|
                                0 <= ri < pre.published@.len()
                                    && #[trigger] pre.published@[ri].file_id@ == id@ && ex@
                                    == pre.published@[ri].slug@,
                            PublishError::SlugTaken => file_ready(pre, id@) && (
                            spec_validate_slug(slug_src) matches Ok(t)
                                && !is_registered(pre.published@, id@) && slug_taken(
                                pre.published@,
                                t,
                            )),
                        }
                    },
                }
            }),
    {
        let ghost pre = *self;
        let k = match self.find_file_index(id) {
            Some(k) => k,
            None => {
                return Err(PublishError::FileNotFound);
            },
        };
        let is_ready = match self.files[k].status {
            FileStatus::Ready => true,
            _ => false,
        };
        if !is_ready {
            proof {
                assert forall|k2: int|
                    0 <= k2 < pre.files@.len() && #[trigger] pre.files@[k2].id@ == id@ implies !(
                    pre.files@[k2].status is Ready) by {
                    if k2 != k as int {
                        assert(pre.files@[k as int].id@ == pre.files@[k2].id@);
                        assert(false);
                    }
                }
            }
            return Err(PublishError::NotReady);
        }
        let slug = match requested_slug {
            Some(s) => {
                match crate::publication::validate_slug(s.as_str()) {
                    Ok(t) => t,
                    Err(m) => {
                        return Err(PublishError::InvalidSlug(m));
                    },
                }
            },
            None => {
                match crate::publication::validate_slug(id) {
                    Ok(t) => t,
                    Err(m) => {
                        return Err(PublishError::InvalidSlug(m));
                    },
                }
            },
        };
        match self.find_registration_by_file(id) {
            Some(ri) => {
                let existing = self.published[ri].slug.clone();
                return Err(PublishError::AlreadyPublished(existing));
            },
            None => {},
        }
        match self.find_registration_by_slug(slug.as_str()) {
            Some(_) => {
                return Err(PublishError::SlugTaken);
            },
            None => {},
        }
        let url = crate::publication::publish_url(slug.as_str());
        let reg_slug = slug.clone();
        let reg = Registration { file_id: id.to_owned(), slug: reg_slug };
        self.published.push(reg);
        let rec = &mut self.files[k];
        rec.is_public = true;
        proof {
            lemma_publish_preserves_wf(pre, *self, k as int, id@, slug@);
            assert(publish_ok(pre, *self, id@, slug@)) by {
                assert forall|j: int| 0 <= j < pre.files@.len() implies (if pre.files@[j].id@
                    == id@ {
                    same_but_public(pre.files@[j], #[trigger] self.files@[j], true)
                } else {
                    self.files@[j] == pre.files@[j]
                }) by {
                    if j != k as int && pre.files@[j].id@ == id@ {
                        assert(pre.files@[k as int].id@ == pre.files@[j].id@);
                        assert(false);
                    }
                }
                assert(self.published@.subrange(0, pre.published@.len() as int)
                    =~= pre.published@);
            }
        }
        Ok(PublishResponse { url, slug, is_public: true })
    }

    /// Revokes a file's registration: removes its slug and clears the
    /// visibility flag; fails when the file is not published.
    #[verifier::rlimit(80)]
    pub fn unpublish(&mut self, id: &str) -> (r: Result<(), ()>)
        requires
            old(self).wf(),
        ensures
            final(self).wf(),
            match r {
                Ok(()) => unpublish_allowed(*old(self), id@) && unpublish_ok(
                    *old(self),
                    *final(self),
                    id@,
                ),
                Err(()) => *final(self) == *old(self) && !unpublish_allowed(*old(self), id@),
            },
    {
        let ghost pre = *self;
        let ri = match self.find_registration_by_file(id) {
            Some(ri) => ri,
            None => {
                return Err(());
            },
        };
        let k = match self.find_file_index(id) {
            Some(k) => k,
            None => {
                proof {
                    assert(has_public_file(pre.files@, pre.published@[ri as int].file_id@));
                    let kk = choose|kk: int|
                        0 <= kk < pre.files@.len() && #[trigger] pre.files@[kk].id@
                            == pre.published@[ri as int].file_id@ && pre.files@[kk].is_public;
                    assert(pre.spec_has_file(id@));
                    assert(false);
                }
                return Err(());
            },
        };
        if !self.files[k].is_public {
            proof {
                assert(has_public_file(pre.files@, pre.published@[ri as int].file_id@));
                let kk = choose|kk: int|
                    0 <= kk < pre.files@.len() && #[trigger] pre.files@[kk].id@ == id@
                        && pre.files@[kk].is_public;
                if kk != k as int {
                    assert(pre.files@[k as int].id@ == pre.files@[kk].id@);
                    assert(false);
                }
                assert(false);
            }
            return Err(());
        }
        self.published.remove(ri);
        let rec = &mut self.files[k];
        rec.is_public = false;
        proof {
            lemma_unpublish_preserves_wf(pre, *self, k as int, ri as int, id@);
            assert(unpublish_ok(pre, *self, id@)) by {
                assert(pre.published@[ri as int].file_id@ == id@ && self.published@
                    == pre.published@.remove(ri as int));
                assert forall|j: int| 0 <= j < pre.files@.len() implies (if pre.files@[j].id@
                    == id@ {
                    same_but_public(pre.files@[j], #[trigger] self.files@[j], false)
                } else {
                    self.files@[j] == pre.files@[j]
                }) by {
                    if j != k as int && pre.files@[j].id@ == id@ {
                        assert(pre.files@[k as int].id@ == pre.files@[j].id@);
                        assert(false);
                    }
                }
            }
        }
        Ok(())
    }
}

/// Publishing preserves the catalog invariant: the new registration is
/// unique on both keys, carries a valid slug, and points at the record
/// that the same step flags public.
#[verifier::rlimit(100)]
proof fn lemma_publish_preserves_wf(pre: Catalog, post: Catalog, k: int, id: Seq<char>, slug: Seq<char>)
    requires
        pre.wf(),
        0 <= k < pre.files@.len(),
        pre.files@[k].id@ == id,
        pre.files@[k].status is Ready,
        !is_registered(pre.published@, id),
        !slug_taken(pre.published@, slug),
        wf_slug(slug),
        post.files@.len() == pre.files@.len(),
        forall|j: int| 0 <= j < pre.files@.len() && j != k ==> post.files@[j] == pre.files@[j],
        same_but_public(pre.files@[k], post.files@[k], true),
        post.published@.len() == pre.published@.len() + 1,
        forall|i: int|
            0 <= i < pre.published@.len() ==> #[trigger] post.published@[i] == pre.published@[i],
        post.published@[pre.published@.len() as int].file_id@ == id,
        post.published@[pre.published@.len() as int].slug@ == slug,
        post.tables == pre.tables,
        post.columns == pre.columns,
    ensures
        post.wf(),
{
    let files = post.files@;
    let prev = pre.files@;
    let pubs = post.published@;
    let prevpubs = pre.published@;
    let newi = prevpubs.len() as int;
    assert(wf_rows_owned(files, post.columns@)) by {
        assert forall|ci: int| 0 <= ci < post.columns@.len() implies row_owner_ready(
            files,
            #[trigger] post.columns@[ci].source_id@,
        ) by {
            assert(row_owner_ready(prev, post.columns@[ci].source_id@));
            let kk = choose|kk: int|
                0 <= kk < prev.len() && #[trigger] prev[kk].id@ == post.columns@[ci].source_id@
                    && prev[kk].status is Ready;
            if kk == k {
                assert(same_but_public(prev[k], files[k], true));
                assert(files[k].id@ == prev[k].id@ && files[k].status is Ready);
            } else {
                assert(files[kk] == prev[kk]);
            }
        }
    }
    assert(wf_file_ids(files)) by {
        assert forall|i: int, j: int| 0 <= i < j < files.len() implies #[trigger] files[i].id@
            != #[trigger] files[j].id@ by {
            assert(files[i].id@ == prev[i].id@ && files[j].id@ == prev[j].id@);
        }
    }
    assert(wf_failed_have_errors(files)) by {
        assert forall|i: int| 0 <= i < files.len() && #[trigger] files[i].status is Failed implies
            files[i].error is Some by {
            assert(files[i].status == prev[i].status && files[i].error == prev[i].error);
        }
    }
    assert(wf_ready_have_tables(files, post.tables@)) by {
        assert forall|i: int| 0 <= i < files.len() && #[trigger] files[i].status is Ready implies
            files[i].table_name is Some && exists|ti: int| table_matches(post.tables@, ti, files[i])
            by {
            assert(files[i].status == prev[i].status && files[i].table_name == prev[i].table_name
                && files[i].id@ == prev[i].id@);
            let ti = choose|ti: int| table_matches(pre.tables@, ti, prev[i]);
            assert(table_matches(post.tables@, ti, files[i]));
        }
    }
    assert(wf_metadata_complete(files, post.tables@, post.columns@)) by {
        assert forall|i: int| 0 <= i < files.len() && #[trigger] files[i].status is Ready implies
            exists|ti: int|
            table_matches(post.tables@, ti, files[i]) && rows_match_table(
                post.columns@,
                files[i].id@,
                post.tables@[ti],
            ) by {
            assert(files[i].status == prev[i].status && files[i].table_name == prev[i].table_name
                && files[i].id@ == prev[i].id@);
            let ti = choose|ti: int|
                table_matches(pre.tables@, ti, prev[i]) && rows_match_table(
                    pre.columns@,
                    prev[i].id@,
                    pre.tables@[ti],
                );
            assert(table_matches(post.tables@, ti, files[i]));
            assert(rows_match_table(post.columns@, files[i].id@, post.tables@[ti]));
        }
    }
    assert(wf_registrations(pubs)) by {
        assert forall|i: int, j: int| 0 <= i < j < pubs.len() implies #[trigger] pubs[i].file_id@
            != #[trigger] pubs[j].file_id@ && pubs[i].slug@ != pubs[j].slug@ by {
            if j < newi {
                assert(pubs[i] == prevpubs[i] && pubs[j] == prevpubs[j]);
            } else {
                assert(pubs[i] == prevpubs[i]);
                if pubs[i].file_id@ == id {
                    assert(is_registered(prevpubs, id));
                    assert(false);
                }
                if pubs[i].slug@ == slug {
                    assert(slug_taken(prevpubs, slug));
                    assert(false);
                }
            }
        }
        assert forall|i: int| 0 <= i < pubs.len() implies wf_slug(#[trigger] pubs[i].slug@) by {
            if i < newi {
                assert(pubs[i] == prevpubs[i]);
            }
        }
    }
    assert(wf_publication(files, pubs)) by {
        assert forall|i: int| 0 <= i < pubs.len() implies has_public_file(
            files,
            #[trigger] pubs[i].file_id@,
        ) by {
            if i < newi {
                assert(pubs[i] == prevpubs[i]);
                assert(has_public_file(prev, prevpubs[i].file_id@));
                let kk = choose|kk: int|
                    0 <= kk < prev.len() && #[trigger] prev[kk].id@ == prevpubs[i].file_id@
                        && prev[kk].is_public;
                if kk == k {
                    assert(files[k].id@ == prev[k].id@ && files[k].is_public);
                } else {
                    assert(files[kk] == prev[kk]);
                    assert(files[kk].id@ == prevpubs[i].file_id@ && files[kk].is_public);
                }
            } else {
                assert(files[k].id@ == id && files[k].is_public);
            }
        }
        assert forall|kk: int| 0 <= kk < files.len() && #[trigger] files[kk].is_public implies
            is_registered(pubs, files[kk].id@) by {
            if kk == k {
                assert(pubs[newi].file_id@ == files[k].id@);
            } else {
                assert(files[kk] == prev[kk]);
                assert(is_registered(prevpubs, prev[kk].id@));
                let i = choose|i: int|
                    0 <= i < prevpubs.len() && #[trigger] prevpubs[i].file_id@ == prev[kk].id@;
                assert(pubs[i] == prevpubs[i]);
                assert(pubs[i].file_id@ == files[kk].id@);
            }
        }
    }
    assert(wf_column_keys(post.columns@));
    assert(wf_column_names(post.columns@));
}

/// Two distinct registrations differ on both keys.
proof fn lemma_registrations_distinct(published: Seq<Registration>, a: int, b: int)
    requires
        wf_registrations(published),
        0 <= a < b < published.len(),
    ensures
        published[a].file_id@ != published[b].file_id@,
        published[a].slug@ != published[b].slug@,
{
    assert(published[a].file_id@ != published[b].file_id@ && published[a].slug@
        != published[b].slug@);
}

/// Unpublishing preserves the catalog invariant: the removed registration
/// was the file's only one, and every remaining registration still points
/// at a public record.
#[verifier::rlimit(100)]
proof fn lemma_unpublish_preserves_wf(pre: Catalog, post: Catalog, k: int, ri: int, id: Seq<char>)
    requires
        pre.wf(),
        0 <= k < pre.files@.len(),
        pre.files@[k].id@ == id,
        0 <= ri < pre.published@.len(),
        pre.published@[ri].file_id@ == id,
        post.files@.len() == pre.files@.len(),
        forall|j: int| 0 <= j < pre.files@.len() && j != k ==> post.files@[j] == pre.files@[j],
        same_but_public(pre.files@[k], post.files@[k], false),
        post.published@ == pre.published@.remove(ri),
        post.tables == pre.tables,
        post.columns == pre.columns,
    ensures
        post.wf(),
{
    let files = post.files@;
    let prev = pre.files@;
    let pubs = post.published@;
    let prevpubs = pre.published@;
    prevpubs.remove_ensures(ri);
    assert(wf_rows_owned(files, post.columns@)) by {
        assert forall|ci: int| 0 <= ci < post.columns@.len() implies row_owner_ready(
            files,
            #[trigger] post.columns@[ci].source_id@,
        ) by {
            assert(row_owner_ready(prev, post.columns@[ci].source_id@));
            let kk = choose|kk: int|
                0 <= kk < prev.len() && #[trigger] prev[kk].id@ == post.columns@[ci].source_id@
                    && prev[kk].status is Ready;
            if kk == k {
                assert(same_but_public(prev[k], files[k], false));
                assert(files[k].id@ == prev[k].id@ && files[k].status is Ready);
            } else {
                assert(files[kk] == prev[kk]);
            }
        }
    }
    assert(pubs.len() == prevpubs.len() - 1);
    assert forall|x: int| 0 <= x < pubs.len() implies #[trigger] pubs[x] == prevpubs[(
    if x < ri {
        x
    } else {
        x + 1
    })] by {
        assert(pubs[x] == prevpubs.remove(ri)[x]);
    }
    assert(wf_file_ids(files)) by {
        assert forall|i: int, j: int| 0 <= i < j < files.len() implies #[trigger] files[i].id@
            != #[trigger] files[j].id@ by {
            assert(files[i].id@ == prev[i].id@ && files[j].id@ == prev[j].id@);
        }
    }
    assert(wf_failed_have_errors(files)) by {
        assert forall|i: int| 0 <= i < files.len() && #[trigger] files[i].status is Failed implies
            files[i].error is Some by {
            assert(files[i].status == prev[i].status && files[i].error == prev[i].error);
        }
    }
    assert(wf_ready_have_tables(files, post.tables@)) by {
        assert forall|i: int| 0 <= i < files.len() && #[trigger] files[i].status is Ready implies
            files[i].table_name is Some && exists|ti: int| table_matches(post.tables@, ti, files[i])
            by {
            assert(files[i].status == prev[i].status && files[i].table_name == prev[i].table_name
                && files[i].id@ == prev[i].id@);
            let ti = choose|ti: int| table_matches(pre.tables@, ti, prev[i]);
            assert(table_matches(post.tables@, ti, files[i]));
        }
    }
    assert(wf_metadata_complete(files, post.tables@, post.columns@)) by {
        assert forall|i: int| 0 <= i < files.len() && #[trigger] files[i].status is Ready implies
            exists|ti: int|
            table_matches(post.tables@, ti, files[i]) && rows_match_table(
                post.columns@,
                files[i].id@,
                post.tables@[ti],
            ) by {
            assert(files[i].status == prev[i].status && files[i].table_name == prev[i].table_name
                && files[i].id@ == prev[i].id@);
            let ti = choose|ti: int|
                table_matches(pre.tables@, ti, prev[i]) && rows_match_table(
                    pre.columns@,
                    prev[i].id@,
                    pre.tables@[ti],
                );
            assert(table_matches(post.tables@, ti, files[i]));
            assert(rows_match_table(post.columns@, files[i].id@, post.tables@[ti]));
        }
    }
    assert(wf_registrations(prevpubs));
    assert(wf_registrations(pubs)) by {
        assert forall|i: int, j: int| 0 <= i < j < pubs.len() implies #[trigger] pubs[i].file_id@
            != #[trigger] pubs[j].file_id@ && pubs[i].slug@ != pubs[j].slug@ by {
            assert(wf_registrations(prevpubs));
            let oi = if i < ri { i } else { i + 1 };
            let oj = if j < ri { j } else { j + 1 };
            assert(pubs[i] == prevpubs.remove(ri)[i]);
            assert(pubs[j] == prevpubs.remove(ri)[j]);
            assert(pubs[i] == prevpubs[oi] && pubs[j] == prevpubs[oj]);
            assert(0 <= oi < oj < prevpubs.len());
            lemma_registrations_distinct(prevpubs, oi, oj);
        }
        assert forall|i: int| 0 <= i < pubs.len() implies wf_slug(#[trigger] pubs[i].slug@) by {
            let oi = if i < ri { i } else { i + 1 };
            assert(pubs[i] == prevpubs.remove(ri)[i]);
            assert(pubs[i] == prevpubs[oi]);
        }
    }
    assert(wf_publication(files, pubs)) by {
        assert forall|i: int| 0 <= i < pubs.len() implies has_public_file(
            files,
            #[trigger] pubs[i].file_id@,
        ) by {
            let oi = if i < ri { i } else { i + 1 };
            assert(pubs[i] == prevpubs.remove(ri)[i]);
            assert(pubs[i] == prevpubs[oi]);
            assert(has_public_file(prev, prevpubs[oi].file_id@));
            let kk = choose|kk: int|
                0 <= kk < prev.len() && #[trigger] prev[kk].id@ == prevpubs[oi].file_id@
                    && prev[kk].is_public;
            if kk == k {
                // the removed registration was the only one for this file
                assert(prevpubs[oi].file_id@ == id);
                assert(oi != ri);
                assert(!(prevpubs[ri].file_id@ != prevpubs[oi].file_id@));
                if oi < ri {
                    assert(prevpubs[oi].file_id@ != prevpubs[ri].file_id@);
                } else {
                    assert(prevpubs[ri].file_id@ != prevpubs[oi].file_id@);
                }
                assert(false);
            } else {
                assert(files[kk] == prev[kk]);
                assert(files[kk].id@ == pubs[i].file_id@ && files[kk].is_public);
            }
        }
        assert forall|kk: int| 0 <= kk < files.len() && #[trigger] files[kk].is_public implies
            is_registered(pubs, files[kk].id@) by {
            assert(kk != k);
            assert(files[kk] == prev[kk]);
            assert(is_registered(prevpubs, prev[kk].id@));
            let i = choose|i: int|
                0 <= i < prevpubs.len() && #[trigger] prevpubs[i].file_id@ == prev[kk].id@;
            if i == ri {
                // that registration belonged to the unpublished file
                assert(prev[kk].id@ == id);
                assert(prev[kk].id@ == prev[k].id@);
                if kk != k {
                    assert(false);
                }
            } else if i < ri {
                assert(pubs[i] == prevpubs.remove(ri)[i]);
                assert(pubs[i].file_id@ == files[kk].id@);
            } else {
                assert(pubs[i - 1] == prevpubs.remove(ri)[i - 1]);
                assert(pubs[i - 1].file_id@ == files[kk].id@);
            }
        }
    }
    assert(wf_column_keys(post.columns@));
    assert(wf_column_names(post.columns@));
}

/// Publish, unpublish, publish again with the same slug: the first publish
/// makes the file public; unpublish is then owed success and clears the
/// flag; after it the same slug is free again and a second publish with it
/// is owed success.
pub proof fn lemma_publish_roundtrip(
    c0: Catalog,
    c1: Catalog,
    c2: Catalog,
    id: Seq<char>,
    slug: Seq<char>,
)
    requires
        c0.wf(),
        c1.wf(),
        publish_allowed(c0, id, slug),
        publish_ok(c0, c1, id, slug),
        unpublish_ok(c1, c2, id),
    ensures
        has_public_file(c1.files@, id),
        unpublish_allowed(c1, id),
        !has_public_file(c2.files@, id),
        publish_allowed(c2, id, slug),
{
    let n0 = c0.published@.len() as int;
    // c1: the file is public and registered under the new slug.
    let kf = choose|k: int|
        0 <= k < c0.files@.len() && #[trigger] c0.files@[k].id@ == id && c0.files@[k].status
            is Ready;
    assert(same_but_public(c0.files@[kf], c1.files@[kf], true));
    assert(has_public_file(c1.files@, id)) by {
        assert(c1.files@[kf].id@ == id && c1.files@[kf].is_public);
    }
    assert(is_registered(c1.published@, id)) by {
        assert(c1.published@[n0].file_id@ == id);
    }
    // c2: the flag is cleared and the registration removed.
    let ri = choose|ri: int|
        0 <= ri < c1.published@.len() && #[trigger] c1.published@[ri].file_id@ == id
            && c2.published@ == c1.published@.remove(ri);
    assert(!has_public_file(c2.files@, id)) by {
        if has_public_file(c2.files@, id) {
            let kk = choose|kk: int|
                0 <= kk < c2.files@.len() && #[trigger] c2.files@[kk].id@ == id
                    && c2.files@[kk].is_public;
            if c1.files@[kk].id@ == id {
                assert(same_but_public(c1.files@[kk], c2.files@[kk], false));
                assert(!c2.files@[kk].is_public);
            } else {
                assert(c2.files@[kk] == c1.files@[kk]);
            }
            assert(false);
        }
    }
    // the removed registration is the pushed one: ids are unique in c1.
    c1.published@.remove_ensures(ri);
    assert(ri == n0) by {
        if ri != n0 {
            assert(c1.published@[ri] == c0.published@[ri]);
            assert(is_registered(c0.published@, id));
            assert(false);
        }
    }
    assert(c2.published@ =~= c0.published@) by {
        assert(c2.published@.len() == c0.published@.len());
        assert forall|i: int| 0 <= i < c0.published@.len() implies c2.published@[i]
            == c0.published@[i] by {
            assert(c2.published@[i] == c1.published@[i]);
            assert(c1.published@.subrange(0, n0)[i] == c1.published@[i]);
        }
    }
    assert(file_ready(c2, id)) by {
        assert(c1.files@[kf].id@ == id);
        assert(same_but_public(c1.files@[kf], c2.files@[kf], false));
        assert(c2.files@[kf].id@ == id && c2.files@[kf].status is Ready);
    }
    assert(!is_registered(c2.published@, id));
    assert(!slug_taken(c2.published@, slug));
}


/// Table presence: in a well-formed catalog, a ready record names an
/// existing per-dataset table that holds the reserved `fid` and `geom`
/// columns.
pub proof fn lemma_ready_has_table(c: Catalog, k: int)
    requires
        c.wf(),
        0 <= k < c.files@.len(),
        c.files@[k].status is Ready,
    ensures
        c.files@[k].table_name is Some,
        exists|ti: int| table_matches(c.tables@, ti, c.files@[k]),
{
}

/// Metadata completeness: in a well-formed catalog, the metadata rows of a
/// ready record describe exactly the property columns of its table — every
/// row names a table column, and every column beside `fid` and `geom` has
/// a row.
pub proof fn lemma_metadata_complete(c: Catalog, k: int)
    requires
        c.wf(),
        0 <= k < c.files@.len(),
        c.files@[k].status is Ready,
    ensures
        exists|ti: int|
            table_matches(c.tables@, ti, c.files@[k]) && rows_match_table(
                c.columns@,
                c.files@[k].id@,
                c.tables@[ti],
            ),
{
}

/// Identifier safety: in a well-formed catalog, every stored normalized
/// name is a safe identifier, outside the reserved words, and never one of
/// the reserved column names; and no two rows share a (source, name) key.
pub proof fn lemma_stored_names_safe(c: Catalog, ci: int)
    requires
        c.wf(),
        0 <= ci < c.columns@.len(),
    ensures
        is_safe_identifier(c.columns@[ci].normalized_name@),
        !is_reserved_word(c.columns@[ci].normalized_name@),
        c.columns@[ci].normalized_name@ != "fid"@,
        c.columns@[ci].normalized_name@ != "geom"@,
{
    assert(is_safe_identifier(c.columns@[ci].normalized_name@) && !is_reserved_word(
        c.columns@[ci].normalized_name@,
    ) && c.columns@[ci].normalized_name@ != "fid"@ && c.columns@[ci].normalized_name@
        != "geom"@);
}

/// Publication invariant: in a well-formed catalog, every registration
/// points at a public record, and every public record has exactly one
/// registration (one exists, and no two registrations share a file id).
pub proof fn lemma_publication_invariant(c: Catalog)
    requires
        c.wf(),
    ensures
        forall|i: int|
            0 <= i < c.published@.len() ==> has_public_file(
                c.files@,
                #[trigger] c.published@[i].file_id@,
            ),
        forall|k: int|
            0 <= k < c.files@.len() && (#[trigger] c.files@[k]).is_public ==> is_registered(
                c.published@,
                c.files@[k].id@,
            ),
        forall|i: int, j: int|
            0 <= i < j < c.published@.len() ==> #[trigger] c.published@[i].file_id@
                != #[trigger] c.published@[j].file_id@,
{
    assert forall|k: int|
        0 <= k < c.files@.len() && (#[trigger] c.files@[k]).is_public implies is_registered(
        c.published@,
        c.files@[k].id@,
    ) by {
        assert(c.files@[k].is_public);
    }
}

} // verus!

verus! {



/// The shape of an import plan's outcome that `complete_import` installs:
/// all metadata rows belong to the file, their names are safe, unique,
/// distinct from the reserved columns, and they describe exactly the
/// property columns of the new table.
pub open spec fn import_rows_valid(rows: Seq<ColumnMeta>, id: Seq<char>, cols: Seq<String>) -> bool {
    &&& forall|ri: int| 0 <= ri < rows.len() ==> #[trigger] rows[ri].source_id@ == id
    &&& forall|ri: int|
        0 <= ri < rows.len() ==> is_safe_identifier(#[trigger] rows[ri].normalized_name@)
            && !is_reserved_word(rows[ri].normalized_name@) && rows[ri].normalized_name@ != "fid"@
            && rows[ri].normalized_name@ != "geom"@
    &&& forall|a: int, b: int|
        0 <= a < b < rows.len() ==> #[trigger] rows[a].normalized_name@
            != #[trigger] rows[b].normalized_name@
    &&& forall|ri: int|
        0 <= ri < rows.len() ==> col_list_has(cols, #[trigger] rows[ri].normalized_name@)
    &&& forall|j: int|
        0 <= j < cols.len() && #[trigger] cols[j]@ != "fid"@ && cols[j]@ != "geom"@ ==> exists|
            ri: int,
        |
            0 <= ri < rows.len() && #[trigger] rows[ri].normalized_name@ == cols[j]@
}

impl Catalog {
    /// Finishes an import: materializes the per-dataset table, records the
    /// table name and the column metadata, and moves the record from
    /// `processing` to `ready` — the commit point of the import worker.
    pub fn complete_import(
        &mut self,
        k: usize,
        table_name: String,
        table: DatasetTable,
        rows: Vec<ColumnMeta>,
    )
        requires
            old(self).wf(),
            k < old(self).files@.len(),
            old(self).files@[k as int].status is Processing,
            table_name@ == table.name@,
            table_has_column(table, "fid"@),
            table_has_column(table, "geom"@),
            import_rows_valid(rows@, old(self).files@[k as int].id@, table.columns@),
        ensures
            final(self).wf(),
            final(self).files@.len() == old(self).files@.len(),
            final(self).files@[k as int].status is Ready,
            final(self).files@[k as int].table_name matches Some(n) && n@ == table.name@,
            status_step_allowed(
                old(self).files@[k as int].status,
                final(self).files@[k as int].status,
            ),
            record_fields_equal(old(self).files@[k as int], final(self).files@[k as int]),
            forall|j: int|
                0 <= j < old(self).files@.len() && j != k ==> final(self).files@[j] == old(
                    self,
                ).files@[j],
            final(self).tables@ == old(self).tables@.push(table),
            final(self).columns@ == old(self).columns@ + rows@,
            final(self).published == old(self).published,
            final(self).initialized == old(self).initialized,
    {
        let ghost pre = *self;
        let ghost gtable = table;
        let ghost allrows = rows@;
        self.tables.push(table);
        let mut rows_left = rows;
        let ghost mut taken: int = 0;
        while rows_left.len() > 0
            invariant
                0 <= taken <= allrows.len(),
                taken + rows_left@.len() == allrows.len(),
                self.columns@ == pre.columns@ + allrows.subrange(0, taken),
                rows_left@ == allrows.subrange(taken, allrows.len() as int),
                self.files == pre.files,
                self.tables@ == pre.tables@.push(gtable),
                self.published == pre.published,
                self.initialized == pre.initialized,
            decreases rows_left@.len(),
        {
            let row = rows_left.remove(0);
            proof {
                assert(row == allrows[taken]);
            }
            self.columns.push(row);
            proof {
                taken = taken + 1;
                assert(self.columns@ =~= pre.columns@ + allrows.subrange(0, taken));
                assert(rows_left@ =~= allrows.subrange(taken, allrows.len() as int));
            }
        }
        proof {
            assert(allrows.subrange(0, taken) =~= allrows);
        }
        let rec = &mut self.files[k];
        rec.status = FileStatus::Ready;
        rec.table_name = Some(table_name);
        proof {
            lemma_complete_import_preserves_wf(pre, *self, k as int, gtable, allrows);
            assert(self.columns@ == pre.columns@ + allrows);
        }
    }
}

/// Completing an import preserves the catalog invariant: the new table and
/// metadata rows serve the newly ready record, and everything already in
/// the catalog is untouched.
#[verifier::rlimit(100)]
proof fn lemma_complete_import_preserves_wf(
    pre: Catalog,
    post: Catalog,
    k: int,
    table: DatasetTable,
    rows: Seq<ColumnMeta>,
)
    requires
        pre.wf(),
        0 <= k < pre.files@.len(),
        pre.files@[k].status is Processing,
        table_has_column(table, "fid"@),
        table_has_column(table, "geom"@),
        import_rows_valid(rows, pre.files@[k].id@, table.columns@),
        post.files@.len() == pre.files@.len(),
        forall|j: int| 0 <= j < pre.files@.len() && j != k ==> post.files@[j] == pre.files@[j],
        record_fields_equal(pre.files@[k], post.files@[k]),
        post.files@[k].status is Ready,
        post.files@[k].error == pre.files@[k].error,
        post.files@[k].table_name matches Some(n) && n@ == table.name@,
        post.tables@ == pre.tables@.push(table),
        post.columns@ == pre.columns@ + rows,
        post.published == pre.published,
    ensures
        post.wf(),
{
    let files = post.files@;
    let prev = pre.files@;
    let id = prev[k].id@;
    let nt = pre.tables@.len() as int;
    let nc = pre.columns@.len() as int;
    // metadata for this id cannot already exist: its rows would belong to a
    // ready record with the same id, but the id is unique and record k is
    // still processing
    assert forall|ci: int| 0 <= ci < nc implies #[trigger] pre.columns@[ci].source_id@ != id by {
        if pre.columns@[ci].source_id@ == id {
            assert(row_owner_ready(prev, pre.columns@[ci].source_id@));
            let kk = choose|kk: int|
                0 <= kk < prev.len() && #[trigger] prev[kk].id@ == pre.columns@[ci].source_id@
                    && prev[kk].status is Ready;
            if kk != k {
                if kk < k {
                    assert(prev[kk].id@ != prev[k].id@);
                } else {
                    assert(prev[k].id@ != prev[kk].id@);
                }
            }
            assert(false);
        }
    }
    assert(wf_rows_owned(files, post.columns@)) by {
        assert forall|ci: int| 0 <= ci < post.columns@.len() implies row_owner_ready(
            files,
            #[trigger] post.columns@[ci].source_id@,
        ) by {
            if ci < nc {
                assert(post.columns@[ci] == pre.columns@[ci]);
                assert(row_owner_ready(prev, pre.columns@[ci].source_id@));
                let kk = choose|kk: int|
                    0 <= kk < prev.len() && #[trigger] prev[kk].id@
                        == pre.columns@[ci].source_id@ && prev[kk].status is Ready;
                assert(kk != k);
                assert(files[kk] == prev[kk]);
            } else {
                assert(post.columns@[ci] == rows[ci - nc]);
                assert(rows[ci - nc].source_id@ == id);
                assert(files[k].id@ == id && files[k].status is Ready);
            }
        }
    }
    assert(forall|x: int| 0 <= x < nt ==> #[trigger] post.tables@[x] == pre.tables@[x]);
    assert(post.tables@[nt] == table);
    assert(forall|x: int| 0 <= x < nc ==> #[trigger] post.columns@[x] == pre.columns@[x]);
    assert(forall|x: int| 0 <= x < rows.len() ==> #[trigger] post.columns@[nc + x] == rows[x]);
    assert(wf_file_ids(files)) by {
        assert forall|i: int, j: int| 0 <= i < j < files.len() implies #[trigger] files[i].id@
            != #[trigger] files[j].id@ by {
            assert(files[i].id@ == prev[i].id@ && files[j].id@ == prev[j].id@);
        }
    }
    assert(wf_failed_have_errors(files)) by {
        assert forall|i: int| 0 <= i < files.len() && #[trigger] files[i].status is Failed implies
            files[i].error is Some by {
            if i != k {
                assert(files[i] == prev[i]);
            }
        }
    }
    assert(wf_ready_have_tables(files, post.tables@)) by {
        assert forall|i: int| 0 <= i < files.len() && #[trigger] files[i].status is Ready implies
            files[i].table_name is Some && exists|ti: int| table_matches(post.tables@, ti, files[i])
            by {
            if i == k {
                assert(table_matches(post.tables@, nt, files[k]));
            } else {
                assert(files[i] == prev[i]);
                let ti = choose|ti: int| table_matches(pre.tables@, ti, prev[i]);
                assert(post.tables@[ti] == pre.tables@[ti]);
                assert(table_matches(post.tables@, ti, files[i]));
            }
        }
    }
    assert(wf_metadata_complete(files, post.tables@, post.columns@)) by {
        assert forall|i: int| 0 <= i < files.len() && #[trigger] files[i].status is Ready implies
            exists|ti: int|
            table_matches(post.tables@, ti, files[i]) && rows_match_table(
                post.columns@,
                files[i].id@,
                post.tables@[ti],
            ) by {
            if i == k {
                assert(table_matches(post.tables@, nt, files[k]));
                assert(rows_match_table(post.columns@, id, table)) by {
                    assert forall|ci: int|
                        0 <= ci < post.columns@.len() && #[trigger] post.columns@[ci].source_id@
                            == id implies table_has_column(
                        table,
                        post.columns@[ci].normalized_name@,
                    ) by {
                        assert(import_rows_valid(rows, id, table.columns@));
                        if ci < nc {
                            assert(post.columns@[ci] == pre.columns@[ci]);
                            assert(false);
                        } else {
                            assert(post.columns@[ci] == rows[ci - nc]);
                        }
                    }
                    assert forall|j: int|
                        0 <= j < table.columns.len() && #[trigger] table.columns[j]@ != "fid"@
                            && table.columns[j]@ != "geom"@ implies exists|ci: int|
                        0 <= ci < post.columns@.len() && #[trigger] post.columns@[ci].source_id@
                            == id && post.columns@[ci].normalized_name@ == table.columns[j]@ by {
                        let ri = choose|ri: int|
                            0 <= ri < rows.len() && #[trigger] rows[ri].normalized_name@
                                == table.columns[j]@;
                        assert(post.columns@[nc + ri] == rows[ri]);
                        assert(post.columns@[nc + ri].source_id@ == id
                            && post.columns@[nc + ri].normalized_name@ == table.columns[j]@);
                    }
                }
                assert(post.tables@[nt] == table);
            } else {
                assert(files[i] == prev[i]);
                let ti = choose|ti: int|
                    table_matches(pre.tables@, ti, prev[i]) && rows_match_table(
                        pre.columns@,
                        prev[i].id@,
                        pre.tables@[ti],
                    );
                assert(post.tables@[ti] == pre.tables@[ti]);
                assert(table_matches(post.tables@, ti, files[i]));
                assert(rows_match_table(post.columns@, files[i].id@, post.tables@[ti])) by {
                    let t = pre.tables@[ti];
                    let oid = prev[i].id@;
                    assert(oid != id) by {
                        if i < k {
                            assert(prev[i].id@ != prev[k].id@);
                        } else {
                            assert(prev[k].id@ != prev[i].id@);
                        }
                    }
                    assert forall|ci: int|
                        0 <= ci < post.columns@.len() && #[trigger] post.columns@[ci].source_id@
                            == oid implies table_has_column(
                        t,
                        post.columns@[ci].normalized_name@,
                    ) by {
                        if ci < nc {
                            assert(post.columns@[ci] == pre.columns@[ci]);
                            assert(rows_match_table(pre.columns@, oid, t));
                        } else {
                            assert(post.columns@[ci] == rows[ci - nc]);
                            assert(rows[ci - nc].source_id@ == id);
                            assert(false);
                        }
                    }
                    assert forall|j: int|
                        0 <= j < t.columns.len() && #[trigger] t.columns[j]@ != "fid"@
                            && t.columns[j]@ != "geom"@ implies exists|ci: int|
                        0 <= ci < post.columns@.len() && #[trigger] post.columns@[ci].source_id@
                            == oid && post.columns@[ci].normalized_name@ == t.columns[j]@ by {
                        assert(rows_match_table(pre.columns@, oid, t));
                        let ci = choose|ci: int|
                            0 <= ci < pre.columns@.len() && #[trigger] pre.columns@[ci].source_id@
                                == oid && pre.columns@[ci].normalized_name@ == t.columns[j]@;
                        assert(post.columns@[ci] == pre.columns@[ci]);
                    }
                }
            }
        }
    }
    assert(wf_column_keys(post.columns@)) by {
        assert forall|i: int, j: int| 0 <= i < j < post.columns@.len() implies !(
        #[trigger] post.columns@[i].source_id@ == #[trigger] post.columns@[j].source_id@
            && post.columns@[i].normalized_name@ == post.columns@[j].normalized_name@) by {
            if j < nc {
                assert(post.columns@[i] == pre.columns@[i] && post.columns@[j]
                    == pre.columns@[j]);
                assert(wf_column_keys(pre.columns@));
            } else if i < nc {
                assert(post.columns@[i] == pre.columns@[i]);
                assert(post.columns@[j] == rows[j - nc]);
                assert(pre.columns@[i].source_id@ != id);
                assert(rows[j - nc].source_id@ == id);
            } else {
                assert(post.columns@[i] == rows[i - nc] && post.columns@[j] == rows[j - nc]);
                assert(rows[i - nc].normalized_name@ != rows[j - nc].normalized_name@);
            }
        }
    }
    assert(wf_column_names(post.columns@)) by {
        assert forall|i: int| 0 <= i < post.columns@.len() implies is_safe_identifier(
            #[trigger] post.columns@[i].normalized_name@,
        ) && !is_reserved_word(post.columns@[i].normalized_name@)
            && post.columns@[i].normalized_name@ != "fid"@ && post.columns@[i].normalized_name@
            != "geom"@ by {
            if i < nc {
                assert(post.columns@[i] == pre.columns@[i]);
                assert(wf_column_names(pre.columns@));
            } else {
                assert(post.columns@[i] == rows[i - nc]);
            }
        }
    }
    assert(wf_registrations(post.published@));
    assert(wf_publication(files, post.published@)) by {
        assert forall|i: int| 0 <= i < post.published@.len() implies has_public_file(
            files,
            #[trigger] post.published@[i].file_id@,
        ) by {
            assert(wf_publication(prev, pre.published@));
            assert(has_public_file(prev, post.published@[i].file_id@));
            let kk = choose|kk: int|
                0 <= kk < prev.len() && #[trigger] prev[kk].id@ == post.published@[i].file_id@
                    && prev[kk].is_public;
            if kk == k {
                assert(files[k].id@ == prev[k].id@ && files[k].is_public == prev[k].is_public);
            } else {
                assert(files[kk] == prev[kk]);
            }
            assert(files[kk].id@ == post.published@[i].file_id@ && files[kk].is_public);
        }
        assert forall|kk: int| 0 <= kk < files.len() && #[trigger] files[kk].is_public implies
            is_registered(post.published@, files[kk].id@) by {
            assert(wf_publication(prev, pre.published@));
            if kk == k {
                assert(prev[k].is_public && prev[k].id@ == files[k].id@);
            } else {
                assert(files[kk] == prev[kk]);
            }
            assert(prev[kk].is_public && prev[kk].id@ == files[kk].id@);
            assert(is_registered(pre.published@, prev[kk].id@));
        }
    }
}

} // verus!

verus! {
/// Why a tile or preview request cannot be served.
#[derive(Debug)]
pub enum TileGateError {
    /// No record with the requested id.
    FileNotFound,
    /// The record exists but is not ready.
    NotReady,
}

/// Why a public tile request cannot be served: a missing slug and an
/// unpublished file read the same from outside.
#[derive(Debug)]
pub enum PublicTileError {
    /// No registration holds the slug, or the registered file is hidden.
    PublicTileNotFound,
    /// The registered file is not ready.
    NotReady,
}

impl Catalog {
    /// Resolves the tile source of a file: its declared CRS (defaulting to
    /// WGS84) and its table name, owed exactly when the file is ready.
    pub fn resolve_tile_source(&self, id: &str) -> (r: Result<(String, String), TileGateError>)
        requires
            self.wf(),
        ensures
            match r {
                Ok(src) => exists|k: int|
                    0 <= k < self.files@.len() && (#[trigger] self.files@[k]).id@ == id@
                        && self.files@[k].status is Ready && (self.files@[k].table_name matches Some(
                        t,
                    ) && src.1@ == t@) && src.0@ == (match self.files@[k].crs {
                        Some(c) => c@,
                        None => "EPSG:4326"@,
                    }),
                Err(e) => match e {
                    TileGateError::FileNotFound => !self.spec_has_file(id@),
                    TileGateError::NotReady => self.spec_has_file(id@) && !file_ready(*self, id@),
                },
            },
    {
        let k = match self.find_file_index(id) {
            Some(k) => k,
            None => {
                return Err(TileGateError::FileNotFound);
            },
        };
        let is_ready = match self.files[k].status {
            FileStatus::Ready => true,
            _ => false,
        };
        if !is_ready {
            proof {
                assert forall|k2: int|
                    0 <= k2 < self.files@.len() && #[trigger] self.files@[k2].id@ == id@ implies !(
                self.files@[k2].status is Ready) by {
                    if k2 != k as int {
                        assert(self.files@[k as int].id@ == self.files@[k2].id@);
                        assert(false);
                    }
                }
            }
            return Err(TileGateError::NotReady);
        }
        let table = match &self.files[k].table_name {
            Some(t) => t.clone(),
            None => {
                proof {
                    assert(false);
                }
                return Err(TileGateError::NotReady);
            },
        };
        let crs = match &self.files[k].crs {
            Some(c) => c.clone(),
            None => "EPSG:4326".to_owned(),
        };
        Ok((crs, table))
    }

    /// Resolves a public tile request: the slug must be registered, the
    /// registered file must still be flagged public, and it must be ready;
    /// a missing slug and a hidden file are indistinguishable.
    pub fn resolve_public_tile(&self, slug: &str) -> (r: Result<(String, String), PublicTileError>)
        requires
            self.wf(),
        ensures
            match r {
                Ok(src) => exists|i: int, k: int|
                    0 <= i < self.published@.len() && 0 <= k < self.files@.len() && (
                    #[trigger] self.published@[i]).slug@ == slug@ && (#[trigger] self.files@[k]).id@
                        == self.published@[i].file_id@ && self.files@[k].is_public
                        && self.files@[k].status is Ready && (self.files@[k].table_name matches Some(
                        t,
                    ) && src.1@ == t@) && src.0@ == (match self.files@[k].crs {
                        Some(c) => c@,
                        None => "EPSG:4326"@,
                    }),
                Err(e) => match e {
                    PublicTileError::PublicTileNotFound => !slug_taken(self.published@, slug@),
                    PublicTileError::NotReady => exists|i: int, k: int|
                        0 <= i < self.published@.len() && 0 <= k < self.files@.len() && (
                        #[trigger] self.published@[i]).slug@ == slug@ && (
                        #[trigger] self.files@[k]).id@ == self.published@[i].file_id@ && !(
                        self.files@[k].status is Ready),
                },
            },
    {
        let ri = match self.find_registration_by_slug(slug) {
            Some(ri) => ri,
            None => {
                return Err(PublicTileError::PublicTileNotFound);
            },
        };
        let file_id = self.published[ri].file_id.clone();
        let k = match self.find_file_index(file_id.as_str()) {
            Some(k) => k,
            None => {
                proof {
                    assert(has_public_file(self.files@, self.published@[ri as int].file_id@));
                    let kk = choose|kk: int|
                        0 <= kk < self.files@.len() && #[trigger] self.files@[kk].id@
                            == self.published@[ri as int].file_id@ && self.files@[kk].is_public;
                    assert(self.spec_has_file(file_id@));
                    assert(false);
                }
                return Err(PublicTileError::PublicTileNotFound);
            },
        };
        proof {
            assert(has_public_file(self.files@, self.published@[ri as int].file_id@));
            let kk = choose|kk: int|
                0 <= kk < self.files@.len() && #[trigger] self.files@[kk].id@
                    == self.published@[ri as int].file_id@ && self.files@[kk].is_public;
            if kk != k as int {
                assert(self.files@[k as int].id@ == self.files@[kk].id@);
                assert(false);
            }
        }
        let is_ready = match self.files[k].status {
            FileStatus::Ready => true,
            _ => false,
        };
        if !is_ready {
            return Err(PublicTileError::NotReady);
        }
        let table = match &self.files[k].table_name {
            Some(t) => t.clone(),
            None => {
                proof {
                    assert(false);
                }
                return Err(PublicTileError::NotReady);
            },
        };
        let crs = match &self.files[k].crs {
            Some(c) => c.clone(),
            None => "EPSG:4326".to_owned(),
        };
        Ok((crs, table))
    }
}

} // verus!
