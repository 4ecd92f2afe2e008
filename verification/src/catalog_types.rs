//! The records of the catalog and what each of them says.
use vstd::prelude::*;
use vstd::string::*;

use crate::dup::{all_wf, dup_opt, dup_opt_string, dup_u64s, dup_vec, opt_view, views, Dup};
use crate::namemap::NameMap;
use crate::text::{clone_strings, opt_text, texts};

verus! {

/// Persisted table-level constraints.
pub enum TableConstraint {
    PrimaryKey { columns: Vec<String> },
    Unique { name: String, columns: Vec<String> },
    Check { name: String, expr: String },
    ForeignKey {
        name: String,
        columns: Vec<String>,
        ref_table: String,
        ref_columns: Vec<String>,
        on_delete: Option<String>,
        on_update: Option<String>,
    },
}

/// What a [`TableConstraint`] says.
pub enum ConstraintView {
    PrimaryKey { columns: Seq<Seq<char>> },
    Unique { name: Seq<char>, columns: Seq<Seq<char>> },
    Check { name: Seq<char>, expr: Seq<char> },
    ForeignKey {
        name: Seq<char>,
        columns: Seq<Seq<char>>,
        ref_table: Seq<char>,
        ref_columns: Seq<Seq<char>>,
        on_delete: Option<Seq<char>>,
        on_update: Option<Seq<char>>,
    },
}

impl View for TableConstraint {
    type V = ConstraintView;

    open spec fn view(&self) -> ConstraintView {
        match self {
            TableConstraint::PrimaryKey { columns } => ConstraintView::PrimaryKey {
                columns: texts(columns@),
            },
            TableConstraint::Unique { name, columns } => ConstraintView::Unique {
                name: name@,
                columns: texts(columns@),
            },
            TableConstraint::Check { name, expr } => ConstraintView::Check {
                name: name@,
                expr: expr@,
            },
            TableConstraint::ForeignKey {
                name,
                columns,
                ref_table,
                ref_columns,
                on_delete,
                on_update,
            } => ConstraintView::ForeignKey {
                name: name@,
                columns: texts(columns@),
                ref_table: ref_table@,
                ref_columns: texts(ref_columns@),
                on_delete: opt_text(*on_delete),
                on_update: opt_text(*on_update),
            },
        }
    }
}

impl Dup for TableConstraint {
    open spec fn wf(&self) -> bool {
        true
    }

    fn dup(&self) -> (r: Self) {
        match self {
            TableConstraint::PrimaryKey { columns } => TableConstraint::PrimaryKey {
                columns: clone_strings(columns),
            },
            TableConstraint::Unique { name, columns } => TableConstraint::Unique {
                name: name.clone(),
                columns: clone_strings(columns),
            },
            TableConstraint::Check { name, expr } => TableConstraint::Check {
                name: name.clone(),
                expr: expr.clone(),
            },
            TableConstraint::ForeignKey {
                name,
                columns,
                ref_table,
                ref_columns,
                on_delete,
                on_update,
            } => TableConstraint::ForeignKey {
                name: name.clone(),
                columns: clone_strings(columns),
                ref_table: ref_table.clone(),
                ref_columns: clone_strings(ref_columns),
                on_delete: dup_opt_string(on_delete),
                on_update: dup_opt_string(on_update),
            },
        }
    }
}

/// A single column definition within a table schema.
pub struct ColumnDef {
    /// Column name.
    pub name: String,
    /// SQL type stored as a string (e.g. `"INT"`, `"VARCHAR"`).
    pub data_type: String,
    /// Whether the column accepts NULL values.
    pub nullable: bool,
}

/// What a [`ColumnDef`] says.
pub struct ColumnView {
    pub name: Seq<char>,
    pub data_type: Seq<char>,
    pub nullable: bool,
}

impl View for ColumnDef {
    type V = ColumnView;

    open spec fn view(&self) -> ColumnView {
        ColumnView {
            name: self.name@,
            data_type: self.data_type@,
            nullable: self.nullable,
        }
    }
}

impl Dup for ColumnDef {
    open spec fn wf(&self) -> bool {
        true
    }

    fn dup(&self) -> (r: Self) {
        ColumnDef {
            name: self.name.clone(),
            data_type: self.data_type.clone(),
            nullable: self.nullable,
        }
    }
}

/// Per-column statistics collected by `ANALYZE`.
pub struct ColumnStatistics {
    pub null_count: u64,
    pub distinct_count: Option<u64>,
    pub min_value: Option<String>,
    pub max_value: Option<String>,
}

/// What a [`ColumnStatistics`] says.
pub struct ColumnStatsView {
    pub null_count: u64,
    pub distinct_count: Option<u64>,
    pub min_value: Option<Seq<char>>,
    pub max_value: Option<Seq<char>>,
}

impl View for ColumnStatistics {
    type V = ColumnStatsView;

    open spec fn view(&self) -> ColumnStatsView {
        ColumnStatsView {
            null_count: self.null_count,
            distinct_count: self.distinct_count,
            min_value: opt_text(self.min_value),
            max_value: opt_text(self.max_value),
        }
    }
}

impl Dup for ColumnStatistics {
    open spec fn wf(&self) -> bool {
        true
    }

    fn dup(&self) -> (r: Self) {
        ColumnStatistics {
            null_count: self.null_count,
            distinct_count: self.distinct_count,
            min_value: dup_opt_string(&self.min_value),
            max_value: dup_opt_string(&self.max_value),
        }
    }
}

/// Aggregate statistics for a table, collected by `ANALYZE`.
pub struct TableStatistics {
    pub row_count: u64,
    pub columns: NameMap<ColumnStatistics>,
}

/// What a [`TableStatistics`] says.
pub struct TableStatsView {
    pub row_count: u64,
    pub columns: Map<Seq<char>, ColumnStatsView>,
}

impl View for TableStatistics {
    type V = TableStatsView;

    open spec fn view(&self) -> TableStatsView {
        TableStatsView {
            row_count: self.row_count,
            columns: self.columns.deep(),
        }
    }
}

impl Dup for TableStatistics {
    open spec fn wf(&self) -> bool {
        &&& self.columns.deep_wf()
    }

    fn dup(&self) -> (r: Self) {
        TableStatistics {
            row_count: self.row_count,
            columns: self.columns.dup_map(),
        }
    }
}

/// Lightweight per-file statistics captured from Parquet footers.
pub struct FileStats {
    pub path: String,
    pub row_count: Option<u64>,
    pub min_values: NameMap<String>,
    pub max_values: NameMap<String>,
    pub size_bytes: u64,
    pub created_at: Option<i64>,
}

/// What a [`FileStats`] says.
pub struct FileStatsView {
    pub path: Seq<char>,
    pub row_count: Option<u64>,
    pub min_values: Map<Seq<char>, Seq<char>>,
    pub max_values: Map<Seq<char>, Seq<char>>,
    pub size_bytes: u64,
    pub created_at: Option<i64>,
}

impl View for FileStats {
    type V = FileStatsView;

    open spec fn view(&self) -> FileStatsView {
        FileStatsView {
            path: self.path@,
            row_count: self.row_count,
            min_values: self.min_values.deep(),
            max_values: self.max_values.deep(),
            size_bytes: self.size_bytes,
            created_at: self.created_at,
        }
    }
}

impl Dup for FileStats {
    open spec fn wf(&self) -> bool {
        &&& self.min_values.deep_wf()
        &&& self.max_values.deep_wf()
    }

    fn dup(&self) -> (r: Self) {
        FileStats {
            path: self.path.clone(),
            row_count: self.row_count,
            min_values: self.min_values.dup_map(),
            max_values: self.max_values.dup_map(),
            size_bytes: self.size_bytes,
            created_at: self.created_at,
        }
    }
}

/// A single deletion-vector entry tracking deleted row indices in a file.
pub struct DeletionEntry {
    pub file_path: String,
    pub deleted_row_indices: Vec<u64>,
    pub timestamp_ms: i64,
}

/// What a [`DeletionEntry`] says.
pub struct DeletionView {
    pub file_path: Seq<char>,
    pub deleted_row_indices: Seq<u64>,
    pub timestamp_ms: i64,
}

impl View for DeletionEntry {
    type V = DeletionView;

    open spec fn view(&self) -> DeletionView {
        DeletionView {
            file_path: self.file_path@,
            deleted_row_indices: self.deleted_row_indices@,
            timestamp_ms: self.timestamp_ms,
        }
    }
}

impl Dup for DeletionEntry {
    open spec fn wf(&self) -> bool {
        true
    }

    fn dup(&self) -> (r: Self) {
        DeletionEntry {
            file_path: self.file_path.clone(),
            deleted_row_indices: dup_u64s(&self.deleted_row_indices),
            timestamp_ms: self.timestamp_ms,
        }
    }
}

/// Metadata for a single table, persisted in the catalog.
pub struct TableMeta {
    /// Table name.
    pub name: String,
    /// Ordered list of columns that make up the table schema.
    pub columns: Vec<ColumnDef>,
    /// Storage location: local directory, `s3://...`, or `memory://...` table listing URL.
    pub path: String,
    /// Hive-style partition columns (empty when unpartitioned).
    pub partition_columns: Vec<String>,
    /// Optional statistics from the last `ANALYZE` run.
    pub statistics: Option<TableStatistics>,
    /// Optional retention policy in seconds.
    pub retention_seconds: Option<u64>,
    /// Table-level constraints (`PRIMARY KEY`, `UNIQUE`, `CHECK`, `FOREIGN KEY`).
    pub constraints: Vec<TableConstraint>,
    /// Optional per-file stats for predicate-aware pruning and diagnostics.
    pub file_stats: Vec<FileStats>,
    /// Deletion vectors for incremental UPDATE/DELETE.
    pub deletion_vectors: Vec<DeletionEntry>,
}

/// What a [`TableMeta`] says.
pub struct TableView {
    pub name: Seq<char>,
    pub columns: Seq<ColumnView>,
    pub path: Seq<char>,
    pub partition_columns: Seq<Seq<char>>,
    pub statistics: Option<TableStatsView>,
    pub retention_seconds: Option<u64>,
    pub constraints: Seq<ConstraintView>,
    pub file_stats: Seq<FileStatsView>,
    pub deletion_vectors: Seq<DeletionView>,
}

impl View for TableMeta {
    type V = TableView;

    open spec fn view(&self) -> TableView {
        TableView {
            name: self.name@,
            columns: views(self.columns@),
            path: self.path@,
            partition_columns: texts(self.partition_columns@),
            statistics: opt_view(self.statistics),
            retention_seconds: self.retention_seconds,
            constraints: views(self.constraints@),
            file_stats: views(self.file_stats@),
            deletion_vectors: views(self.deletion_vectors@),
        }
    }
}

impl Dup for TableMeta {
    open spec fn wf(&self) -> bool {
        &&& (self.statistics matches Some(s) ==> s.wf())
        &&& all_wf(self.file_stats@)
    }

    fn dup(&self) -> (r: Self) {
        TableMeta {
            name: self.name.clone(),
            columns: dup_vec(&self.columns),
            path: self.path.clone(),
            partition_columns: clone_strings(&self.partition_columns),
            statistics: dup_opt(&self.statistics),
            retention_seconds: self.retention_seconds,
            constraints: dup_vec(&self.constraints),
            file_stats: dup_vec(&self.file_stats),
            deletion_vectors: dup_vec(&self.deletion_vectors),
        }
    }
}

/// A single column reference within an index, with its sort direction.
pub struct IndexColumn {
    /// Column name.
    pub name: String,
    /// `true` for ASC, `false` for DESC.
    pub ascending: bool,
}

/// What a [`IndexColumn`] says.
pub struct IndexColumnView {
    pub name: Seq<char>,
    pub ascending: bool,
}

impl View for IndexColumn {
    type V = IndexColumnView;

    open spec fn view(&self) -> IndexColumnView {
        IndexColumnView {
            name: self.name@,
            ascending: self.ascending,
        }
    }
}

impl Dup for IndexColumn {
    open spec fn wf(&self) -> bool {
        true
    }

    fn dup(&self) -> (r: Self) {
        IndexColumn {
            name: self.name.clone(),
            ascending: self.ascending,
        }
    }
}

/// Metadata for a sort index: the physical sort order of a table's Parquet files.
pub struct IndexDef {
    /// Index name (unique across the catalog).
    pub name: String,
    /// Name of the table this index belongs to.
    pub table_name: String,
    /// Columns that define the sort order.
    pub columns: Vec<IndexColumn>,
    /// Whether this index is advisory-only and does not reflect the physical order.
    pub logical_only: bool,
    /// Whether this index is the table's primary physical ordering.
    pub primary: bool,
}

/// What a [`IndexDef`] says.
pub struct IndexView {
    pub name: Seq<char>,
    pub table_name: Seq<char>,
    pub columns: Seq<IndexColumnView>,
    pub logical_only: bool,
    pub primary: bool,
}

impl View for IndexDef {
    type V = IndexView;

    open spec fn view(&self) -> IndexView {
        IndexView {
            name: self.name@,
            table_name: self.table_name@,
            columns: views(self.columns@),
            logical_only: self.logical_only,
            primary: self.primary,
        }
    }
}

impl Dup for IndexDef {
    open spec fn wf(&self) -> bool {
        true
    }

    fn dup(&self) -> (r: Self) {
        IndexDef {
            name: self.name.clone(),
            table_name: self.table_name.clone(),
            columns: dup_vec(&self.columns),
            logical_only: self.logical_only,
            primary: self.primary,
        }
    }
}

/// Metadata for a view, persisted in the catalog.
pub struct ViewDef {
    /// View name (unique across the catalog).
    pub name: String,
    /// The SQL query that defines this view.
    pub sql: String,
    /// Whether this is a materialized view.
    pub materialized: bool,
    /// Backing table name for materialized views.
    pub backing_table: Option<String>,
}

/// What a [`ViewDef`] says.
pub struct ViewView {
    pub name: Seq<char>,
    pub sql: Seq<char>,
    pub materialized: bool,
    pub backing_table: Option<Seq<char>>,
}

impl View for ViewDef {
    type V = ViewView;

    open spec fn view(&self) -> ViewView {
        ViewView {
            name: self.name@,
            sql: self.sql@,
            materialized: self.materialized,
            backing_table: opt_text(self.backing_table),
        }
    }
}

impl Dup for ViewDef {
    open spec fn wf(&self) -> bool {
        true
    }

    fn dup(&self) -> (r: Self) {
        ViewDef {
            name: self.name.clone(),
            sql: self.sql.clone(),
            materialized: self.materialized,
            backing_table: dup_opt_string(&self.backing_table),
        }
    }
}

/// Metadata for a sequence object.
pub struct SequenceDef {
    pub name: String,
    pub current_value: i64,
    pub increment: i64,
    pub min_value: Option<i64>,
    pub max_value: Option<i64>,
}

/// What a [`SequenceDef`] says.
pub struct SequenceView {
    pub name: Seq<char>,
    pub current_value: i64,
    pub increment: i64,
    pub min_value: Option<i64>,
    pub max_value: Option<i64>,
}

impl View for SequenceDef {
    type V = SequenceView;

    open spec fn view(&self) -> SequenceView {
        SequenceView {
            name: self.name@,
            current_value: self.current_value,
            increment: self.increment,
            min_value: self.min_value,
            max_value: self.max_value,
        }
    }
}

impl Dup for SequenceDef {
    open spec fn wf(&self) -> bool {
        true
    }

    fn dup(&self) -> (r: Self) {
        SequenceDef {
            name: self.name.clone(),
            current_value: self.current_value,
            increment: self.increment,
            min_value: self.min_value,
            max_value: self.max_value,
        }
    }
}

/// Metadata for a lightweight SQL function macro.
pub struct UdfDef {
    pub name: String,
    pub args: Vec<String>,
    pub return_type: String,
    pub body: String,
}

/// What a [`UdfDef`] says.
pub struct UdfView {
    pub name: Seq<char>,
    pub args: Seq<Seq<char>>,
    pub return_type: Seq<char>,
    pub body: Seq<char>,
}

impl View for UdfDef {
    type V = UdfView;

    open spec fn view(&self) -> UdfView {
        UdfView {
            name: self.name@,
            args: texts(self.args@),
            return_type: self.return_type@,
            body: self.body@,
        }
    }
}

impl Dup for UdfDef {
    open spec fn wf(&self) -> bool {
        true
    }

    fn dup(&self) -> (r: Self) {
        UdfDef {
            name: self.name.clone(),
            args: clone_strings(&self.args),
            return_type: self.return_type.clone(),
            body: self.body.clone(),
        }
    }
}

/// A structured privilege entry (e.g. `SELECT ON orders`).
pub struct Privilege {
    /// Privilege kind: `SELECT`, `INSERT`, `UPDATE`, `DELETE`, `ALL`, or a custom string.
    pub kind: String,
    /// Optional table scope. `None` means the privilege applies to all tables.
    pub table: Option<String>,
}

/// What a [`Privilege`] says.
pub struct PrivilegeView {
    pub kind: Seq<char>,
    pub table: Option<Seq<char>>,
}

impl View for Privilege {
    type V = PrivilegeView;

    open spec fn view(&self) -> PrivilegeView {
        PrivilegeView {
            kind: self.kind@,
            table: opt_text(self.table),
        }
    }
}

impl Dup for Privilege {
    open spec fn wf(&self) -> bool {
        true
    }

    fn dup(&self) -> (r: Self) {
        Privilege {
            kind: self.kind.clone(),
            table: dup_opt_string(&self.table),
        }
    }
}

/// Persisted user account.
pub struct UserDef {
    pub name: String,
    pub password: String,
}

/// What a [`UserDef`] says.
pub struct UserView {
    pub name: Seq<char>,
    pub password: Seq<char>,
}

impl View for UserDef {
    type V = UserView;

    open spec fn view(&self) -> UserView {
        UserView {
            name: self.name@,
            password: self.password@,
        }
    }
}

impl Dup for UserDef {
    open spec fn wf(&self) -> bool {
        true
    }

    fn dup(&self) -> (r: Self) {
        UserDef {
            name: self.name.clone(),
            password: self.password.clone(),
        }
    }
}

/// Persisted role definition with its privileges.
pub struct RoleDef {
    pub name: String,
    pub privileges: Vec<Privilege>,
}

/// What a [`RoleDef`] says.
pub struct RoleView {
    pub name: Seq<char>,
    pub privileges: Seq<PrivilegeView>,
}

impl View for RoleDef {
    type V = RoleView;

    open spec fn view(&self) -> RoleView {
        RoleView {
            name: self.name@,
            privileges: views(self.privileges@),
        }
    }
}

impl Dup for RoleDef {
    open spec fn wf(&self) -> bool {
        true
    }

    fn dup(&self) -> (r: Self) {
        RoleDef {
            name: self.name.clone(),
            privileges: dup_vec(&self.privileges),
        }
    }
}

/// Persisted trigger definition.
pub struct TriggerDef {
    pub name: String,
    pub table: String,
    pub event: String,
    pub timing: String,
    pub body: String,
}

/// What a [`TriggerDef`] says.
pub struct TriggerView {
    pub name: Seq<char>,
    pub table: Seq<char>,
    pub event: Seq<char>,
    pub timing: Seq<char>,
    pub body: Seq<char>,
}

impl View for TriggerDef {
    type V = TriggerView;

    open spec fn view(&self) -> TriggerView {
        TriggerView {
            name: self.name@,
            table: self.table@,
            event: self.event@,
            timing: self.timing@,
            body: self.body@,
        }
    }
}

impl Dup for TriggerDef {
    open spec fn wf(&self) -> bool {
        true
    }

    fn dup(&self) -> (r: Self) {
        TriggerDef {
            name: self.name.clone(),
            table: self.table.clone(),
            event: self.event.clone(),
            timing: self.timing.clone(),
            body: self.body.clone(),
        }
    }
}

/// A single migration record for schema versioning.
pub struct MigrationRecord {
    pub version: u64,
    pub description: String,
    pub sql: String,
    pub applied_at_ms: i64,
}

/// What a [`MigrationRecord`] says.
pub struct MigrationView {
    pub version: u64,
    pub description: Seq<char>,
    pub sql: Seq<char>,
    pub applied_at_ms: i64,
}

impl View for MigrationRecord {
    type V = MigrationView;

    open spec fn view(&self) -> MigrationView {
        MigrationView {
            version: self.version,
            description: self.description@,
            sql: self.sql@,
            applied_at_ms: self.applied_at_ms,
        }
    }
}

impl Dup for MigrationRecord {
    open spec fn wf(&self) -> bool {
        true
    }

    fn dup(&self) -> (r: Self) {
        MigrationRecord {
            version: self.version,
            description: self.description.clone(),
            sql: self.sql.clone(),
            applied_at_ms: self.applied_at_ms,
        }
    }
}

} // verus!
