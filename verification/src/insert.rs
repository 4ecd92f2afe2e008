//! `INSERT` without a conflict clause, and `COPY`.
use vstd::prelude::*;
use vstd::string::*;

use crate::catalog::{lookup, Catalog, CatalogState};
use crate::catalog_types::{ColumnDef, ColumnView, TableView};
use crate::cells::{search_text, searched_text, CellView, Row};
use crate::dup::{views, Dup};
use crate::fulltext::{quote_columns, quoted_columns};
use crate::numbers::{decimal, print_usize};
use crate::meaning::{self, Frame, Phrase, Value, World};
use crate::outcome::answered;
use crate::statement::{
    parsed_conflict_action, parsed_insert, read_conflict_action, read_insert, InsertHead,
    InsertHeadView,
};
use crate::text::{
    clone_strings, concat2, concat3, contains_text, eq_ignore_ascii_case, from_chars, join, joined,
    opt_text, same, same_ignore_case, split_whitespace, texts, to_chars, trim_end_matches,
    trim_end_matches_text, trim_matches, trim_matches_text, words,
};

verus! {

// ---------------------------------------------------------------------------
// INSERT
// ---------------------------------------------------------------------------

/// The names of the columns of a table.
pub open spec fn column_names(cs: Seq<ColumnView>) -> Seq<Seq<char>> {
    Seq::new(cs.len(), |i: int| cs[i].name)
}

/// The names of the columns of a table.
pub fn list_column_names(cs: &Vec<ColumnDef>) -> (r: Vec<String>)
    ensures
        texts(r@) == column_names(views(cs@)),
{
    let mut out: Vec<String> = Vec::new();
    let mut i: usize = 0;
    while i < cs.len()
        invariant
            i <= cs@.len(),
            out@.len() == i,
            forall|j: int| 0 <= j < i ==> (#[trigger] out@[j])@ == cs@[j]@.name,
        decreases cs@.len() - i,
    {
        out.push(cs[i].name.clone());
        i += 1;
    }
    assert(texts(out@) =~= column_names(views(cs@)));
    out
}

/// The columns that an `INSERT` writes: those that it lists, or all of the table.
pub open spec fn target_columns(listed: Seq<Seq<char>>, cs: Seq<ColumnView>) -> Seq<Seq<char>> {
    if listed.len() == 0 {
        column_names(cs)
    } else {
        listed
    }
}

/// The columns that an `INSERT` writes: those that it lists, or all of the table.
pub fn choose_columns(listed: &Vec<String>, cs: &Vec<ColumnDef>) -> (r: Vec<String>)
    ensures
        texts(r@) == target_columns(texts(listed@), views(cs@)),
{
    assert(texts(listed@).len() == listed@.len());
    if listed.len() == 0 {
        list_column_names(cs)
    } else {
        clone_strings(listed)
    }
}

/// What `INSERT` is to do.
pub struct InsertPlan {
    pub table: String,
    /// The columns that are written.
    pub targets: Vec<String>,
    /// Whether the statement lists its columns.
    pub listed: bool,
    /// The query whose rows are written.
    pub source: String,
    /// Whether the rows are written at once; else they go to the table's buffer.
    pub immediate: bool,
    /// The query that selects what is returned.
    pub returning_sql: Option<String>,
}

/// Whether a plan is the one of an `INSERT` into a table.
pub open spec fn inserts(
    p: InsertPlan,
    meta: TableView,
    h: InsertHeadView,
    source: Seq<char>,
    clause: Option<Seq<char>>,
    replaying: bool,
) -> bool {
    &&& p.table@ == h.table
    &&& texts(p.targets@) == target_columns(h.columns, meta.columns)
    &&& p.listed == (h.columns.len() > 0)
    &&& p.source@ == source
    &&& p.immediate == (replaying || clause is Some || meta.constraints.len() > 0)
    &&& opt_text(p.returning_sql) == match clause {
        Some(c) => Some("SELECT "@ + c + " FROM \""@ + h.table + "\""@),
        None => None,
    }
}

/// The `INSERT` of a text, and whether it has a conflict clause.
pub fn parse_insert(sql: &str) -> (r: Option<(InsertHead, bool)>)
    ensures
        match r {
            None => parsed_insert(sql@) is None,
            Some(p) => parsed_insert(sql@) == Some(p.0@) && p.1 == (parsed_conflict_action(
                sql@,
            ) is Some),
        },
{
    match read_insert(sql) {
        None => None,
        Some(h) => Some((h, read_conflict_action(sql).is_some())),
    }
}

impl Catalog {
    /// What `INSERT` is to do, given the clause behind `RETURNING`. Rows are written at once where
    /// something is returned, where the table has constraints, and while the log is replayed.
    pub fn plan_insert(&self, h: &InsertHead, returning: &Option<String>, replaying: bool) -> (r:
        Result<InsertPlan, String>)
        requires
            self.wf(),
        ensures
            match lookup(self@.tables, h@.table) {
                None => r matches Err(e) && e@ == "Table '"@ + h@.table + "' does not exist"@,
                Some(meta) => match h@.source {
                    None => r matches Err(e) && e@ == "INSERT requires a source query"@,
                    Some(s) => r matches Ok(p) && inserts(
                        p,
                        meta,
                        h@,
                        s,
                        opt_text(*returning),
                        replaying,
                    ),
                },
            },
    {
        let meta = match self.tables.lookup(&h.table) {
            None => {
                return Err(concat3("Table '", &h.table, "' does not exist"));
            },
            Some(m) => m,
        };
        let source = match &h.source {
            None => {
                return Err("INSERT requires a source query".to_owned());
            },
            Some(s) => s.clone(),
        };
        assert(texts(h.columns@).len() == h.columns@.len());
        assert(views(meta.constraints@).len() == meta.constraints@.len());
        let returning_sql: Option<String> = match returning {
            Some(c) => {
                let head = concat3("SELECT ", c, " FROM \"");
                Some(concat3(&head, &h.table, "\""))
            },
            None => None,
        };
        Ok(
            InsertPlan {
                table: h.table.clone(),
                targets: choose_columns(&h.columns, &meta.columns),
                listed: h.columns.len() > 0,
                source,
                immediate: replaying || returning.is_some() || meta.constraints.len() > 0,
                returning_sql,
            },
        )
    }
}

/// The statement that writes the rows of a temporary table.
pub open spec fn write_rows_sql(t: Seq<char>, columns: Option<Seq<Seq<char>>>, tmp: Seq<char>) -> Seq<
    char,
> {
    "INSERT INTO \""@ + t + "\""@ + match columns {
        Some(cols) => if cols.len() == 0 {
            ""@
        } else {
            " ("@ + joined(quoted_columns(cols), ", "@) + ")"@
        },
        None => ""@,
    } + " SELECT * FROM \""@ + tmp + "\""@
}

/// The statement that writes the rows of a temporary table into the given columns, or into all of
/// the table.
pub fn write_rows(table: &str, columns: &Option<Vec<String>>, tmp: &str) -> (r: String)
    ensures
        r@ == write_rows_sql(
            table@,
            match columns {
                Some(c) => Some(texts(c@)),
                None => None,
            },
            tmp@,
        ),
{
    let head = concat3("INSERT INTO \"", table, "\"");
    let with_columns = match columns {
        Some(cols) => {
            assert(texts(cols@).len() == cols@.len());
            if cols.len() == 0 {
                concat2(&head, "")
            } else {
                let list = join(&quote_columns(cols), ", ");
                concat2(&head, &concat3(" (", &list, ")"))
            }
        },
        None => concat2(&head, ""),
    };
    let tail = concat3(" SELECT * FROM \"", tmp, "\"");
    let out = concat2(&with_columns, &tail);
    assert(out@ =~= with_columns@ + " SELECT * FROM \""@ + tmp@ + "\""@);
    out
}

/// The statement that writes rows at once.
pub fn write_rows_at_once(table: &str, targets: &Vec<String>, tmp: &str) -> (r: String)
    ensures
        r@ == "INSERT INTO \""@ + table@ + "\" ("@ + joined(
            quoted_columns(texts(targets@)),
            ", "@,
        ) + ") SELECT * FROM \""@ + tmp@ + "\""@,
{
    let head = concat3("INSERT INTO \"", table, "\" (");
    let list = concat3(&head, &join(&quote_columns(targets), ", "), ") SELECT * FROM \"");
    concat3(&list, tmp, "\"")
}

/// The number of the first new row, given how many rows the table has with them.
pub fn first_new_row(total: usize, inserted: usize) -> (r: usize)
    ensures
        r == if total >= inserted {
            total - inserted
        } else {
            0
        },
{
    if total >= inserted {
        total - inserted
    } else {
        0
    }
}

/// The answer to an `INSERT` that went to the buffer.
pub fn insert_message(rows: usize, table: &str, flushed: bool) -> (r: String)
    ensures
        r@ == if flushed {
            decimal(rows as nat) + " row(s) inserted into '"@ + table@ + "' (buffer flushed)."@
        } else {
            decimal(rows as nat) + " row(s) buffered for '"@ + table@ + "'."@
        },
{
    let n = print_usize(rows);
    if flushed {
        let head = concat2(&n, " row(s) inserted into '");
        concat3(&head, table, "' (buffer flushed).")
    } else {
        let head = concat2(&n, " row(s) buffered for '");
        concat3(&head, table, "'.")
    }
}

// ---------------------------------------------------------------------------
// Documents of the full-text index
// ---------------------------------------------------------------------------

/// The first position of a name among the first `n`.
pub open spec fn first_position(names: Seq<Seq<char>>, name: Seq<char>, n: nat) -> Option<int>
    decreases n,
{
    if n == 0 || n > names.len() {
        None
    } else {
        match first_position(names, name, (n - 1) as nat) {
            Some(i) => Some(i),
            None => if names[n - 1] == name {
                Some(n - 1)
            } else {
                None
            },
        }
    }
}

/// The text that a column adds to the document of a row.
pub open spec fn indexed_text(row: Seq<CellView>, targets: Seq<Seq<char>>, col: Seq<char>) -> Seq<
    char,
> {
    match first_position(targets, col, targets.len()) {
        Some(i) => search_text(row[i]),
        None => Seq::empty(),
    }
}

/// The texts that the indexed columns add to the document of a row.
pub open spec fn indexed_texts(
    row: Seq<CellView>,
    targets: Seq<Seq<char>>,
    cols: Seq<Seq<char>>,
) -> Seq<Seq<char>> {
    Seq::new(cols.len(), |i: int| indexed_text(row, targets, cols[i]))
}

proof fn lemma_first_position(names: Seq<Seq<char>>, name: Seq<char>, i: nat, n: nat)
    requires
        i <= n <= names.len(),
        first_position(names, name, i) is Some,
    ensures
        first_position(names, name, n) == first_position(names, name, i),
    decreases n - i,
{
    if i < n {
        lemma_first_position(names, name, i, (n - 1) as nat);
    }
}

/// The first position of a name in a list.
pub fn find_position(names: &Vec<String>, name: &str) -> (r: Option<usize>)
    ensures
        match r {
            Some(i) => i < names@.len() && first_position(texts(names@), name@, texts(names@).len())
                == Some(i as int),
            None => first_position(texts(names@), name@, texts(names@).len()) is None,
        },
{
    let ghost nv = texts(names@);
    let mut i: usize = 0;
    while i < names.len()
        invariant
            i <= names@.len(),
            nv == texts(names@),
            nv.len() == names@.len(),
            first_position(nv, name@, i as nat) is None,
        decreases names@.len() - i,
    {
        assert(nv[i as int] == names@[i as int]@);
        if same(&names[i], name) {
            proof {
                assert(first_position(nv, name@, (i + 1) as nat) == Some(i as int));
                lemma_first_position(nv, name@, (i + 1) as nat, nv.len());
            }
            return Some(i);
        }
        i += 1;
    }
    None
}

/// The document of a new row for a full-text index on some columns, where the row's values stand in
/// the order of the columns that are written.
pub fn document_text(row: &Row, targets: &Vec<String>, cols: &Vec<String>) -> (r: String)
    requires
        row@.len() >= targets@.len(),
    ensures
        r@ == joined(indexed_texts(row@, texts(targets@), texts(cols@)), " "@),
{
    let ghost tv = texts(targets@);
    let ghost cv = texts(cols@);
    let mut parts: Vec<String> = Vec::new();
    let mut i: usize = 0;
    assert(row@.len() == row.cells@.len());
    while i < cols.len()
        invariant
            i <= cols@.len(),
            parts@.len() == i,
            tv == texts(targets@),
            row@.len() == row.cells@.len(),
            row@.len() >= targets@.len(),
            forall|j: int|
                0 <= j < i ==> (#[trigger] parts@[j])@ == indexed_text(row@, tv, cols@[j]@),
        decreases cols@.len() - i,
    {
        let piece = match find_position(targets, &cols[i]) {
            Some(k) => searched_text(&row.cells[k]),
            None => String::new(),
        };
        parts.push(piece);
        i += 1;
    }
    assert(texts(parts@) =~= indexed_texts(row@, tv, cv));
    join(&parts, " ")
}

// ---------------------------------------------------------------------------
// COPY
// ---------------------------------------------------------------------------

/// The format of a file.
#[derive(Clone, Copy, PartialEq, Eq, Structural)]
pub enum FileFormat {
    Parquet,
    Json,
    Csv,
}

/// The path without separators at its end, and without a dot that stands there for the directory
/// itself.
pub open spec fn trimmed_path(p: Seq<char>) -> Seq<char>
    decreases p.len(),
{
    if p.len() > 0 && p.last() == '/' {
        trimmed_path(p.drop_last())
    } else if p.len() >= 2 && p.last() == '.' && p[p.len() - 2] == '/' {
        trimmed_path(p.drop_last())
    } else {
        p
    }
}

/// The position behind the last `c`.
pub open spec fn behind_last(s: Seq<char>, c: char, n: nat) -> int
    decreases n,
{
    if n == 0 || n > s.len() {
        0
    } else if s[n - 1] == c {
        n as int
    } else {
        behind_last(s, c, (n - 1) as nat)
    }
}

/// The name of a file without its directories.
pub open spec fn file_name(p: Seq<char>) -> Seq<char> {
    let t = trimmed_path(p);
    t.subrange(behind_last(t, '/', t.len()), t.len() as int)
}

/// What stands behind the last dot in the name of a file; nothing where there is no dot but one at
/// its beginning.
pub open spec fn extension(p: Seq<char>) -> Option<Seq<char>> {
    let name = file_name(p);
    let k = behind_last(name, '.', name.len());
    if name == seq!['.', '.'] || k <= 1 {
        None
    } else {
        Some(name.subrange(k, name.len() as int))
    }
}

/// The format of a file, told by its extension.
pub open spec fn format_of(p: Seq<char>) -> FileFormat {
    match extension(p) {
        Some(e) => if same_ignore_case(e, "parquet"@) {
            FileFormat::Parquet
        } else if same_ignore_case(e, "json"@) || same_ignore_case(e, "ndjson"@) {
            FileFormat::Json
        } else {
            FileFormat::Csv
        },
        None => FileFormat::Csv,
    }
}

fn find_behind_last(v: &Vec<char>, c: char) -> (r: usize)
    ensures
        r == behind_last(v@, c, v@.len()),
        r <= v@.len(),
{
    let mut n: usize = v.len();
    while n > 0
        invariant
            n <= v@.len(),
            behind_last(v@, c, v@.len()) == behind_last(v@, c, n as nat),
        decreases n,
    {
        if v[n - 1] == c {
            return n;
        }
        n -= 1;
    }
    0
}

/// What stands behind the last dot in the name of a file.
pub fn file_extension(path: &str) -> (r: Option<String>)
    ensures
        opt_text(r) == extension(path@),
{
    let mut v = to_chars(path);
    let ghost goal = trimmed_path(path@);
    let mut go: bool = true;
    while go
        invariant
            goal == trimmed_path(v@),
            !go ==> trimmed_path(v@) == v@,
        decreases v@.len(), (if go { 1int } else { 0int }),
    {
        let n: usize = v.len();
        if n > 0 && v[n - 1] == '/' || n >= 2 && v[n - 1] == '.' && v[n - 2] == '/' {
            let ghost before = v@;
            v.pop();
            assert(v@ =~= before.drop_last());
        } else {
            go = false;
        }
    }
    let from: usize = find_behind_last(&v, '/');
    let name = from_chars(&v, from, v.len());
    let w = to_chars(&name);
    let k: usize = find_behind_last(&w, '.');
    let dots: bool = w.len() == 2 && w[0] == '.' && w[1] == '.';
    assert(dots == (w@ == seq!['.', '.'])) by {
        if dots {
            assert(w@ =~= seq!['.', '.']);
        }
    }
    if dots || k <= 1 {
        None
    } else {
        Some(from_chars(&w, k, w.len()))
    }
}

/// The format of a file, told by its extension.
pub fn file_format(path: &str) -> (r: FileFormat)
    ensures
        r == format_of(path@),
{
    match file_extension(path) {
        Some(e) => if eq_ignore_ascii_case(&e, "parquet") {
            FileFormat::Parquet
        } else if eq_ignore_ascii_case(&e, "json") || eq_ignore_ascii_case(&e, "ndjson") {
            FileFormat::Json
        } else {
            FileFormat::Csv
        },
        None => FileFormat::Csv,
    }
}

/// The name of a format.
pub open spec fn format_name(f: FileFormat) -> Seq<char> {
    match f {
        FileFormat::Parquet => "parquet"@,
        FileFormat::Json => "json"@,
        FileFormat::Csv => "csv"@,
    }
}

/// The position of the first of the first `n` words that is the given one, in any case.
pub open spec fn word_position(w: Seq<Seq<char>>, word: Seq<char>, n: nat) -> Option<int>
    decreases n,
{
    if n == 0 || n > w.len() {
        None
    } else {
        match word_position(w, word, (n - 1) as nat) {
            Some(i) => Some(i),
            None => if same_ignore_case(w[n - 1], word) {
                Some(n - 1)
            } else {
                None
            },
        }
    }
}

proof fn lemma_word_position(w: Seq<Seq<char>>, word: Seq<char>, i: nat, n: nat)
    requires
        i <= n <= w.len(),
        word_position(w, word, i) is Some,
    ensures
        word_position(w, word, n) == word_position(w, word, i),
    decreases n - i,
{
    if i < n {
        lemma_word_position(w, word, i, (n - 1) as nat);
    }
}

fn find_word(w: &Vec<String>, word: &str) -> (r: Option<usize>)
    ensures
        match r {
            Some(i) => i < w@.len() && word_position(texts(w@), word@, texts(w@).len()) == Some(
                i as int,
            ),
            None => word_position(texts(w@), word@, texts(w@).len()) is None,
        },
{
    let ghost wv = texts(w@);
    let mut i: usize = 0;
    while i < w.len()
        invariant
            i <= w@.len(),
            wv == texts(w@),
            wv.len() == w@.len(),
            word_position(wv, word@, i as nat) is None,
        decreases w@.len() - i,
    {
        assert(wv[i as int] == w@[i as int]@);
        if eq_ignore_ascii_case(&w[i], word) {
            proof {
                assert(word_position(wv, word@, (i + 1) as nat) == Some(i as int));
                lemma_word_position(wv, word@, (i + 1) as nat, wv.len());
            }
            return Some(i);
        }
        i += 1;
    }
    None
}

/// The path in a statement, without the semicolon and the quotes.
pub open spec fn bare_path(w: Seq<char>) -> Seq<char> {
    trim_matches_text(trim_matches_text(trim_end_matches_text(w, ';'), '\''), '"')
}

/// The path behind a word of a statement, or the complaint that a part is missing.
pub open spec fn copy_path(
    w: Seq<Seq<char>>,
    word: Seq<char>,
    no_word: Seq<char>,
    no_path: Seq<char>,
) -> Result<Seq<char>, Seq<char>> {
    match word_position(w, word, w.len()) {
        None => Err(no_word),
        Some(i) => if i + 1 < w.len() {
            Ok(bare_path(w[i + 1]))
        } else {
            Err(no_path)
        },
    }
}

fn read_copy_path(w: &Vec<String>, word: &str, no_word: &str, no_path: &str) -> (r: Result<
    String,
    String,
>)
    ensures
        answered(r) == copy_path(texts(w@), word@, no_word@, no_path@),
{
    assert(texts(w@).len() == w@.len());
    match find_word(w, word) {
        None => Err(no_word.to_owned()),
        Some(i) => {
            if i < w.len() - 1 {
                assert(texts(w@)[i + 1] == w@[i + 1]@);
                Ok(
                    trim_matches(
                        &trim_matches(&trim_end_matches(&w[i + 1], ';'), '\''),
                        '"',
                    ),
                )
            } else {
                Err(no_path.to_owned())
            }
        },
    }
}

/// What `COPY` reads or writes.
pub struct CopyPlan {
    pub table: String,
    pub path: String,
    pub format: FileFormat,
}

/// The table of a `COPY`, or the complaint that it is missing or not there.
pub open spec fn copy_table(c: CatalogState, w: Seq<Seq<char>>, missing: Seq<char>) -> Result<
    Seq<char>,
    Seq<char>,
> {
    if w.len() < 2 {
        Err(missing)
    } else if !c.tables.dom().contains(trim_matches_text(w[1], '"')) {
        Err("Table '"@ + trim_matches_text(w[1], '"') + "' does not exist"@)
    } else {
        Ok(trim_matches_text(w[1], '"'))
    }
}

/// Whether a plan copies between a table and a file, in the format of the file's extension.
pub open spec fn copies(p: CopyPlan, table: Seq<char>, path: Seq<char>) -> bool {
    &&& p.table@ == table
    &&& p.path@ == path
    &&& p.format == format_of(path)
}

impl Catalog {
    fn read_copy_table(&self, w: &Vec<String>, missing: &str) -> (r: Result<String, String>)
        requires
            self.wf(),
        ensures
            answered(r) == copy_table(self@, texts(w@), missing@),
    {
        assert(texts(w@).len() == w@.len());
        if w.len() < 2 {
            return Err(missing.to_owned());
        }
        assert(texts(w@)[1] == w@[1]@);
        let table = trim_matches(&w[1], '"');
        if !self.tables.contains_key(&table) {
            return Err(concat3("Table '", &table, "' does not exist"));
        }
        Ok(table)
    }

    /// The table of `COPY ... FROM`. It is told before the statement goes to the write-ahead log.
    pub fn copy_from_table(&self, sql: &str) -> (r: Result<String, String>)
        requires
            self.wf(),
        ensures
            answered(r) == copy_table(self@, words(sql@), "COPY FROM: missing table name"@),
    {
        let w = split_whitespace(sql);
        self.read_copy_table(&w, "COPY FROM: missing table name")
    }

    /// What `COPY ... TO` writes.
    pub fn plan_copy_to(&self, sql: &str) -> (r: Result<CopyPlan, String>)
        requires
            self.wf(),
        ensures
            match copy_table(self@, words(sql@), "COPY TO: missing table name"@) {
                Err(m) => r matches Err(e) && e@ == m,
                Ok(t) => match copy_path(
                    words(sql@),
                    "TO"@,
                    "COPY TO: missing TO keyword"@,
                    "COPY TO: missing file path"@,
                ) {
                    Err(m) => r matches Err(e) && e@ == m,
                    Ok(path) => r matches Ok(p) && copies(p, t, path),
                },
            },
    {
        let w = split_whitespace(sql);
        let table = match self.read_copy_table(&w, "COPY TO: missing table name") {
            Err(e) => {
                return Err(e);
            },
            Ok(t) => t,
        };
        match read_copy_path(
            &w,
            "TO",
            "COPY TO: missing TO keyword",
            "COPY TO: missing file path",
        ) {
            Err(e) => Err(e),
            Ok(path) => {
                let format = file_format(&path);
                Ok(CopyPlan { table, path, format })
            },
        }
    }
}

/// What `COPY ... FROM` reads into a table.
pub fn plan_copy_from(table: String, sql: &str) -> (r: Result<CopyPlan, String>)
    ensures
        match copy_path(
            words(sql@),
            "FROM"@,
            "COPY FROM: missing FROM keyword"@,
            "COPY FROM: missing file path"@,
        ) {
            Err(m) => r matches Err(e) && e@ == m,
            Ok(path) => r matches Ok(p) && copies(p, table@, path),
        },
{
    let w = split_whitespace(sql);
    match read_copy_path(
        &w,
        "FROM",
        "COPY FROM: missing FROM keyword",
        "COPY FROM: missing file path",
    ) {
        Err(e) => Err(e),
        Ok(path) => {
            let format = file_format(&path);
            Ok(CopyPlan { table, path, format })
        },
    }
}

/// What a column of the table is filled from: the column of the file of its name, or nothing.
pub open spec fn copied_column(fields: Seq<Seq<char>>, col: Seq<char>) -> Seq<char> {
    if fields.contains(col) {
        "\""@ + col + "\""@
    } else {
        "NULL AS \""@ + col + "\""@
    }
}

/// What each column of the table is filled from.
pub open spec fn copied_columns(fields: Seq<Seq<char>>, cols: Seq<Seq<char>>) -> Seq<Seq<char>> {
    Seq::new(cols.len(), |i: int| copied_column(fields, cols[i]))
}

/// How many of the first `n` names are not in a list.
pub open spec fn count_missing(names: Seq<Seq<char>>, list: Seq<Seq<char>>, n: nat) -> nat
    decreases n,
{
    if n == 0 || n > names.len() {
        0
    } else {
        count_missing(names, list, (n - 1) as nat) + if list.contains(names[n - 1]) {
            0nat
        } else {
            1nat
        }
    }
}

/// How many different names among the first `n` are not in a list.
pub open spec fn count_distinct_missing(names: Seq<Seq<char>>, list: Seq<Seq<char>>, n: nat) -> nat
    decreases n,
{
    if n == 0 || n > names.len() {
        0
    } else {
        count_distinct_missing(names, list, (n - 1) as nat) + if list.contains(names[n - 1])
            || names.subrange(0, n - 1).contains(names[n - 1]) {
            0nat
        } else {
            1nat
        }
    }
}

/// The statement that copies the rows of a file, and how many columns the two sides do not share.
pub struct CopyRows {
    pub sql: String,
    /// How many columns of the table the file does not have.
    pub missing: usize,
    /// How many columns of the file the table does not have.
    pub extra: usize,
}

fn contains_before(names: &Vec<String>, i: usize) -> (r: bool)
    requires
        i < names@.len(),
    ensures
        r == texts(names@).subrange(0, i as int).contains(texts(names@)[i as int]),
{
    let ghost nv = texts(names@);
    let mut j: usize = 0;
    while j < i
        invariant
            j <= i < names@.len(),
            nv == texts(names@),
            forall|k: int| 0 <= k < j ==> #[trigger] nv[k] != nv[i as int],
        decreases i - j,
    {
        assert(nv[j as int] == names@[j as int]@);
        assert(nv[i as int] == names@[i as int]@);
        if same(&names[j], &names[i]) {
            assert(nv.subrange(0, i as int)[j as int] == nv[i as int]);
            return true;
        }
        j += 1;
    }
    proof {
        if nv.subrange(0, i as int).contains(nv[i as int]) {
            let k = choose|k: int|
                0 <= k < i && #[trigger] nv.subrange(0, i as int)[k] == nv[i as int];
            assert(nv[k] == nv[i as int]);
        }
    }
    false
}

/// The statement that copies the rows of a file with the given columns into a table.
pub fn copy_rows(table: &str, cs: &Vec<ColumnDef>, fields: &Vec<String>) -> (r: CopyRows)
    ensures
        ({
            let cols = column_names(views(cs@));
            &&& r.sql@ == "INSERT INTO \""@ + table@ + "\" ("@ + joined(
                quoted_columns(cols),
                ", "@,
            ) + ") SELECT "@ + joined(copied_columns(texts(fields@), cols), ", "@)
                + " FROM __potato_copy_tmp"@
            &&& r.sql@ == copy_statement(table@, cols, texts(fields@)).text
            &&& r.missing == count_missing(cols, texts(fields@), cols.len())
            &&& r.extra == count_distinct_missing(texts(fields@), cols, texts(fields@).len())
        }),
{
    proof {
        lemma_copy_text(table@, column_names(views(cs@)), texts(fields@));
    }
    let cols = list_column_names(cs);
    let ghost cv = texts(cols@);
    let ghost fv = texts(fields@);
    let mut parts: Vec<String> = Vec::new();
    let mut missing: usize = 0;
    let mut i: usize = 0;
    while i < cols.len()
        invariant
            i <= cols@.len(),
            parts@.len() == i,
            cv == texts(cols@),
            fv == texts(fields@),
            cv.len() == cols@.len(),
            missing <= i,
            missing == count_missing(cv, fv, i as nat),
            forall|j: int| 0 <= j < i ==> (#[trigger] parts@[j])@ == copied_column(fv, cv[j]),
        decreases cols@.len() - i,
    {
        assert(cv[i as int] == cols@[i as int]@);
        if contains_text(fields, &cols[i]) {
            parts.push(concat3("\"", &cols[i], "\""));
        } else {
            missing += 1;
            parts.push(concat3("NULL AS \"", &cols[i], "\""));
        }
        i += 1;
    }
    assert(texts(parts@) =~= copied_columns(fv, cv));
    let mut extra: usize = 0;
    let mut k: usize = 0;
    while k < fields.len()
        invariant
            k <= fields@.len(),
            cv == texts(cols@),
            fv == texts(fields@),
            fv.len() == fields@.len(),
            extra <= k,
            extra == count_distinct_missing(fv, cv, k as nat),
        decreases fields@.len() - k,
    {
        assert(fv[k as int] == fields@[k as int]@);
        if !contains_text(&cols, &fields[k]) && !contains_before(fields, k) {
            extra += 1;
        }
        k += 1;
    }
    let head = concat3("INSERT INTO \"", table, "\" (");
    let list = concat3(&head, &join(&quote_columns(&cols), ", "), ") SELECT ");
    let sql = concat3(&list, &join(&parts, ", "), " FROM __potato_copy_tmp");
    CopyRows { sql, missing, extra }
}

fn write_format(f: FileFormat) -> (r: String)
    ensures
        r@ == format_name(f),
{
    match f {
        FileFormat::Parquet => "parquet".to_owned(),
        FileFormat::Json => "json".to_owned(),
        FileFormat::Csv => "csv".to_owned(),
    }
}

/// The answer to `COPY ... FROM`.
pub fn copy_from_message(rows: usize, p: &CopyPlan, missing: usize, extra: usize) -> (r: String)
    ensures
        r@ == decimal(rows as nat) + " row(s) copied into '"@ + p.table@ + "' from '"@ + p.path@
            + "' ("@ + format_name(p.format) + "); missing target columns filled with NULL: "@
            + decimal(missing as nat) + ", source-only columns ignored: "@ + decimal(extra as nat)
            + "."@,
{
    let n = concat2(&print_usize(rows), " row(s) copied into '");
    let table = concat3(&n, &p.table, "' from '");
    let path = concat3(&table, &p.path, "' (");
    let format = concat3(
        &path,
        &write_format(p.format),
        "); missing target columns filled with NULL: ",
    );
    let with_missing = concat3(&format, &print_usize(missing), ", source-only columns ignored: ");
    concat3(&with_missing, &print_usize(extra), ".")
}

/// The answer to `COPY ... TO`.
pub fn copy_to_message(rows: usize, p: &CopyPlan) -> (r: String)
    ensures
        r@ == decimal(rows as nat) + " row(s) copied from '"@ + p.table@ + "' to '"@ + p.path@
            + "'."@,
{
    let n = concat2(&print_usize(rows), " row(s) copied from '");
    let table = concat3(&n, &p.table, "' to '");
    concat3(&table, &p.path, "'.")
}

// ---------------------------------------------------------------------------
// Laws
// ---------------------------------------------------------------------------

/// A file that has every column of the table fills every column, and nothing is missing.
pub proof fn law_full_file_misses_nothing(cols: Seq<Seq<char>>, fields: Seq<Seq<char>>, n: nat)
    requires
        n <= cols.len(),
        forall|i: int| 0 <= i < cols.len() ==> fields.contains(#[trigger] cols[i]),
    ensures
        count_missing(cols, fields, n) == 0,
        forall|i: int|
            0 <= i < cols.len() ==> #[trigger] copied_columns(fields, cols)[i] == "\""@ + cols[i]
                + "\""@,
    decreases n,
{
    if n > 0 {
        law_full_file_misses_nothing(cols, fields, (n - 1) as nat);
    }
}

/// What a column of the table is filled from in a copy, with its meaning.
pub open spec fn copied_phrase(fields: Seq<Seq<char>>, col: Seq<char>) -> Phrase {
    if fields.contains(col) {
        meaning::column(col)
    } else {
        meaning::named(meaning::null(), col)
    }
}

/// A column that the file has is filled with the value of the file, and every other one with null.
pub proof fn law_copy_fills_by_name(
    fields: Seq<Seq<char>>,
    col: Seq<char>,
    w: World,
    name: Seq<char>,
    row: Map<Seq<char>, Value>,
)
    ensures
        ({
            let p = copied_phrase(fields, col);
            let s = seq![Frame { name, row }];
            &&& copied_column(fields, col) == p.text
            &&& fields.contains(col) ==> (p.value)(w, s) == meaning::cell_of(row, col)
            &&& !fields.contains(col) ==> (p.value)(w, s) == Value::Null
        }),
{
    meaning::lemma_single_column(name, row, col);
    reveal_strlit("\"");
    if !fields.contains(col) {
        reveal_strlit("NULL AS \"");
        reveal_strlit("NULL");
        reveal_strlit(" AS ");
        assert(copied_column(fields, col) =~= copied_phrase(fields, col).text);
    }
}

/// An `INSERT` without a list writes all columns of the table in their order; one with a list writes
/// those that it lists.
pub proof fn law_insert_writes_what_it_lists(listed: Seq<Seq<char>>, cs: Seq<ColumnView>)
    ensures
        listed.len() > 0 ==> target_columns(listed, cs) == listed,
        listed.len() == 0 ==> target_columns(listed, cs).len() == cs.len(),
        listed.len() == 0 ==> forall|i: int|
            0 <= i < cs.len() ==> target_columns(listed, cs)[i] == (#[trigger] cs[i]).name,
{
}

/// Different formats have different names.
pub proof fn law_format_names_differ(a: FileFormat, b: FileFormat)
    ensures
        format_name(a) == format_name(b) <==> a == b,
{
    reveal_strlit("parquet");
    reveal_strlit("json");
    reveal_strlit("csv");
    assert("parquet"@.len() == 7 && "json"@.len() == 4 && "csv"@.len() == 3);
}

/// The statement that copies the rows of a file, with its meaning.
pub open spec fn copy_statement(
    table: Seq<char>,
    cols: Seq<Seq<char>>,
    fields: Seq<Seq<char>>,
) -> meaning::Insert {
    meaning::insert_select(
        meaning::quoted_name(table),
        cols,
        Seq::new(cols.len(), |i: int| copied_phrase(fields, cols[i])),
        meaning::table("__potato_copy_tmp"@),
    )
}

proof fn lemma_copy_text(table: Seq<char>, cols: Seq<Seq<char>>, fields: Seq<Seq<char>>)
    ensures
        copy_statement(table, cols, fields).text == "INSERT INTO \""@ + table + "\" ("@ + joined(
            quoted_columns(cols),
            ", "@,
        ) + ") SELECT "@ + joined(copied_columns(fields, cols), ", "@)
            + " FROM __potato_copy_tmp"@,
{
    let ps = Seq::new(cols.len(), |i: int| copied_phrase(fields, cols[i]));
    let names = Seq::new(cols.len(), |i: int| meaning::column(cols[i]));
    let w = World {
        tables: Map::empty(),
        other: |t: Seq<char>, s: Seq<Frame>| Value::Null,
        cast: |v: Value, t: Seq<char>| v,
    };
    assert forall|i: int| 0 <= i < cols.len() implies #[trigger] meaning::phrase_texts(ps)[i]
        == copied_columns(fields, cols)[i] by {
        law_copy_fills_by_name(fields, cols[i], w, Seq::empty(), Map::empty());
    }
    assert(meaning::phrase_texts(ps) =~= copied_columns(fields, cols));
    assert(meaning::phrase_texts(names) =~= quoted_columns(cols));
    let a = joined(quoted_columns(cols), ", "@);
    let b = joined(copied_columns(fields, cols), ", "@);
    reveal_strlit("INSERT INTO \"");
    reveal_strlit("INSERT INTO ");
    reveal_strlit("\"");
    reveal_strlit("\" (");
    reveal_strlit(" (");
    reveal_strlit(") SELECT ");
    reveal_strlit(") ");
    reveal_strlit("SELECT ");
    reveal_strlit(" FROM __potato_copy_tmp");
    reveal_strlit(" FROM ");
    reveal_strlit("__potato_copy_tmp");
    assert(copy_statement(table, cols, fields).text =~= "INSERT INTO \""@ + table + "\" ("@ + a
        + ") SELECT "@ + b + " FROM __potato_copy_tmp"@);
}

/// A copy puts every row of the file into the table once. A column that the file has keeps its value, and
/// every other column is null.
pub proof fn law_copy_takes_every_row(
    table: Seq<char>,
    cols: Seq<Seq<char>>,
    fields: Seq<Seq<char>>,
    w: World,
    i: int,
    k: int,
)
    requires
        cols.no_duplicates(),
    ensures
        ({
            let file = meaning::rows_of(w, "__potato_copy_tmp"@);
            let rows = (copy_statement(table, cols, fields).rows)(w);
            &&& rows.len() == file.len()
            &&& 0 <= i < file.len() && 0 <= k < cols.len() ==> meaning::cell_of(rows[i], cols[k])
                == if fields.contains(cols[k]) {
                meaning::cell_of(file[i], cols[k])
            } else {
                Value::Null
            }
        }),
{
    let name = "__potato_copy_tmp"@;
    let file = meaning::rows_of(w, name);
    let ps = Seq::new(cols.len(), |j: int| copied_phrase(fields, cols[j]));
    if 0 <= i < file.len() && 0 <= k < cols.len() {
        let s = seq![Frame { name, row: file[i] }];
        meaning::lemma_filled(cols, ps, w, s, cols.len(), k);
        law_copy_fills_by_name(fields, cols[k], w, name, file[i]);
    }
}

/// How many columns of the table the file lacks is counted one by one.
pub proof fn law_missing_columns_are_counted(names: Seq<Seq<char>>, list: Seq<Seq<char>>, n: nat)
    requires
        n <= names.len(),
    ensures
        count_missing(names, list, n) == names.take(n as int).filter(
            |c: Seq<char>| !list.contains(c),
        ).len(),
        names.no_duplicates() ==> count_distinct_missing(names, list, n) == count_missing(
            names,
            list,
            n,
        ),
    decreases n,
{
    reveal(Seq::filter);
    if n > 0 {
        law_missing_columns_are_counted(names, list, (n - 1) as nat);
        assert(names.take(n as int).drop_last() =~= names.take(n - 1));
        assert(names.take(n as int).last() == names[n - 1]);
        if names.no_duplicates() {
            let before = names.subrange(0, n - 1);
            if before.contains(names[n - 1]) {
                let j = choose|j: int| 0 <= j < before.len() && before[j] == names[n - 1];
                assert(names[j] == names[n - 1]);
            }
        }
    }
}

/// The format of a file goes by what stands behind the last dot of its name, in whatever directory it
/// lies.
pub proof fn law_format_goes_by_extension(dir: Seq<char>, base: Seq<char>, ext: Seq<char>)
    requires
        base.len() > 0,
        ext.len() > 0,
        !base.contains('/'),
        !ext.contains('/'),
        !ext.contains('.'),
    ensures
        extension(dir + seq!['/'] + base + seq!['.'] + ext) == Some(ext),
        same_ignore_case(ext, "parquet"@) ==> format_of(dir + seq!['/'] + base + seq!['.'] + ext)
            == FileFormat::Parquet,
{
    let p = dir + seq!['/'] + base + seq!['.'] + ext;
    let name = base + seq!['.'] + ext;
    assert(p.last() == ext.last());
    assert(ext.contains(ext.last()));
    assert(trimmed_path(p) == p);
    lemma_behind_last(p, '/', p.len(), dir.len() as int + 1);
    assert(p.subrange(dir.len() as int + 1, p.len() as int) =~= name);
    lemma_behind_last(name, '.', name.len(), base.len() as int + 1);
    assert(name.subrange(base.len() as int + 1, name.len() as int) =~= ext);
    assert(name != seq!['.', '.']) by {
        assert(name.last() == ext.last());
    }
}

proof fn lemma_behind_last(s: Seq<char>, c: char, n: nat, at: int)
    requires
        0 < at <= n <= s.len(),
        s[at - 1] == c,
        forall|j: int| at <= j < n ==> #[trigger] s[j] != c,
    ensures
        behind_last(s, c, n) == at,
    decreases n,
{
    if n > at {
        assert(s[n - 1] != c);
        lemma_behind_last(s, c, (n - 1) as nat, at);
    }
}

/// Rows are only kept back in a buffer where nothing is to be checked, nothing is to be returned, and the
/// log is not being read back.
pub proof fn law_buffered_rows_need_no_check(
    p: InsertPlan,
    meta: TableView,
    h: InsertHeadView,
    source: Seq<char>,
    clause: Option<Seq<char>>,
    replaying: bool,
)
    requires
        inserts(p, meta, h, source, clause, replaying),
    ensures
        !p.immediate <==> meta.constraints.len() == 0 && clause is None && !replaying,
        p.returning_sql is Some <==> clause is Some,
        clause matches Some(c) ==> opt_text(p.returning_sql) == Some(
            meaning::select(c, meaning::table(meaning::quoted_name(h.table))).text,
        ),
        h.columns.len() == 0 ==> !p.listed && texts(p.targets@) == column_names(meta.columns),
        h.columns.len() > 0 ==> p.listed && texts(p.targets@) == h.columns,
        p.source@ == source,
{
    if let Some(c) = clause {
        reveal_strlit(" FROM \"");
        reveal_strlit(" FROM ");
        reveal_strlit("\"");
        assert("SELECT "@ + c + " FROM \""@ + h.table + "\""@ =~= meaning::select(
            c,
            meaning::table(meaning::quoted_name(h.table)),
        ).text);
    }
}

/// Rows of a temporary table are written with their columns named, or into all columns.
pub proof fn law_written_rows(table: Seq<char>, cols: Seq<Seq<char>>, tmp: Seq<char>)
    ensures
        cols.len() > 0 ==> write_rows_sql(table, Some(cols), tmp) == "INSERT INTO "@
            + meaning::quoted_name(table) + " ("@ + joined(quoted_columns(cols), ", "@) + ") "@
            + meaning::select("*"@, meaning::table(meaning::quoted_name(tmp))).text,
        write_rows_sql(table, None, tmp) == "INSERT INTO "@ + meaning::quoted_name(table) + " "@
            + meaning::select("*"@, meaning::table(meaning::quoted_name(tmp))).text,
        write_rows_sql(table, Some(Seq::empty()), tmp) == write_rows_sql(table, None, tmp),
{
    reveal_strlit("INSERT INTO \"");
    reveal_strlit("INSERT INTO ");
    reveal_strlit("\"");
    reveal_strlit(" (");
    reveal_strlit(")");
    reveal_strlit(") ");
    reveal_strlit(" ");
    reveal_strlit("");
    reveal_strlit(" SELECT * FROM \"");
    reveal_strlit("SELECT ");
    reveal_strlit("*");
    reveal_strlit(" FROM ");
    let list = joined(quoted_columns(cols), ", "@);
    assert("INSERT INTO \""@ + table + "\""@ + (" ("@ + list + ")"@) + " SELECT * FROM \""@ + tmp
        + "\""@ =~= "INSERT INTO "@ + meaning::quoted_name(table) + " ("@ + list + ") "@
        + meaning::select("*"@, meaning::table(meaning::quoted_name(tmp))).text);
    assert("INSERT INTO \""@ + table + "\""@ + ""@ + " SELECT * FROM \""@ + tmp + "\""@
        =~= "INSERT INTO "@ + meaning::quoted_name(table) + " "@ + meaning::select(
        "*"@,
        meaning::table(meaning::quoted_name(tmp)),
    ).text);
}

/// The text that a column adds to the document of a row is the one of its cell; a column that is not
/// written adds none.
pub proof fn law_indexed_texts(
    row: Seq<CellView>,
    targets: Seq<Seq<char>>,
    cols: Seq<Seq<char>>,
    c: int,
    k: int,
)
    requires
        0 <= c < cols.len(),
        targets.no_duplicates(),
    ensures
        indexed_texts(row, targets, cols).len() == cols.len(),
        0 <= k < targets.len() && targets[k] == cols[c] ==> indexed_texts(row, targets, cols)[c]
            == search_text(row[k]),
        !targets.contains(cols[c]) ==> indexed_texts(row, targets, cols)[c].len() == 0,
{
    lemma_first_is_it(targets, cols[c], targets.len());
    if let Some(i) = first_position(targets, cols[c], targets.len()) {
        assert(targets[i] == cols[c]);
        if 0 <= k < targets.len() && targets[k] == cols[c] {
            assert(i == k);
        }
    }
}

proof fn lemma_first_is_it(names: Seq<Seq<char>>, name: Seq<char>, n: nat)
    requires
        n <= names.len(),
    ensures
        match first_position(names, name, n) {
            Some(i) => 0 <= i < n && names[i] == name,
            None => forall|j: int| 0 <= j < n ==> #[trigger] names[j] != name,
        },
    decreases n,
{
    if n > 0 {
        lemma_first_is_it(names, name, (n - 1) as nat);
    }
}

} // verus!
