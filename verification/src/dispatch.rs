//! The way of a statement through the engine: which command it is, what is written before and
//! behind it, and which statements change data.
use vstd::prelude::*;
use vstd::string::*;

use crate::text::{
    after_word, contains, contains_seq, cuttable, eq_ignore_ascii_case, has_prefix, opt_text, same,
    same_ignore_case, split_whitespace, starts_with, tail_at, texts, trim, trim_matches,
    trim_matches_text, trim_text, upper_text, utf8, words,
};

verus! {

// ---------------------------------------------------------------------------
// Commands
// ---------------------------------------------------------------------------

/// A command that is told by the beginning of a statement.
#[derive(Clone, Copy, PartialEq, Eq, Structural)]
pub enum CommandKind {
    Flush,
    SelectCdc,
    SelectSystemStatus,
    PgCatalog,
    CreateFunction,
    DropFunction,
    CreateUser,
    CreateRole,
    Grant,
    Revoke,
    Listen,
    Notify,
    CreateProcedure,
    CallProcedure,
    DoBlock,
    CreateFulltextIndex,
    CreateTrigger,
    DropTrigger,
    Savepoint,
    RollbackTo,
    ReleaseSavepoint,
    CreateMigration,
    Migrate,
    AddReplica,
    RemoveReplica,
    Truncate,
    RefreshMaterializedView,
    Checkpoint,
    /// Anything else: a statement that the SQL parser reads.
    Statement,
}

/// Whether the statement, in upper case, asks for the tables of the PostgreSQL catalog.
pub open spec fn mentions_pg_catalog(u: Seq<char>) -> bool {
    ||| contains_seq(u, "PG_CATALOG."@)
    ||| contains_seq(u, "PG_TYPE"@)
    ||| contains_seq(u, "PG_CLASS"@)
    ||| contains_seq(u, "PG_NAMESPACE"@)
    ||| contains_seq(u, "PG_ATTRIBUTE"@)
}

/// The command of a statement that runs for every user, where `u` is the statement in upper case
/// without white space around it and without semicolons at its end.
pub open spec fn open_command(u: Seq<char>) -> Option<CommandKind> {
    if u == "FLUSH"@ || has_prefix(u, "FLUSH "@) {
        Some(CommandKind::Flush)
    } else if has_prefix(u, "SELECT "@) && contains_seq(u, "FROM POTATODB_CDC"@) {
        Some(CommandKind::SelectCdc)
    } else if has_prefix(u, "SELECT "@) && contains_seq(u, "FROM POTATODB_SYSTEM_STATUS"@) {
        Some(CommandKind::SelectSystemStatus)
    } else if mentions_pg_catalog(u) {
        Some(CommandKind::PgCatalog)
    } else if has_prefix(u, "CREATE FUNCTION "@) {
        Some(CommandKind::CreateFunction)
    } else if has_prefix(u, "DROP FUNCTION "@) {
        Some(CommandKind::DropFunction)
    } else if has_prefix(u, "CREATE USER "@) {
        Some(CommandKind::CreateUser)
    } else if has_prefix(u, "CREATE ROLE "@) {
        Some(CommandKind::CreateRole)
    } else if has_prefix(u, "GRANT "@) {
        Some(CommandKind::Grant)
    } else if has_prefix(u, "REVOKE "@) {
        Some(CommandKind::Revoke)
    } else if has_prefix(u, "LISTEN "@) {
        Some(CommandKind::Listen)
    } else if has_prefix(u, "NOTIFY "@) {
        Some(CommandKind::Notify)
    } else if has_prefix(u, "CREATE PROCEDURE "@) {
        Some(CommandKind::CreateProcedure)
    } else if has_prefix(u, "CALL "@) {
        Some(CommandKind::CallProcedure)
    } else if has_prefix(u, "DO $$"@) {
        Some(CommandKind::DoBlock)
    } else if has_prefix(u, "CREATE FULLTEXT INDEX "@) {
        Some(CommandKind::CreateFulltextIndex)
    } else if has_prefix(u, "CREATE TRIGGER "@) {
        Some(CommandKind::CreateTrigger)
    } else if has_prefix(u, "DROP TRIGGER "@) {
        Some(CommandKind::DropTrigger)
    } else if has_prefix(u, "SAVEPOINT "@) {
        Some(CommandKind::Savepoint)
    } else if has_prefix(u, "ROLLBACK TO "@) {
        Some(CommandKind::RollbackTo)
    } else if has_prefix(u, "RELEASE "@) {
        Some(CommandKind::ReleaseSavepoint)
    } else if has_prefix(u, "CREATE MIGRATION "@) {
        Some(CommandKind::CreateMigration)
    } else if u == "MIGRATE"@ || has_prefix(u, "MIGRATE "@) {
        Some(CommandKind::Migrate)
    } else if has_prefix(u, "ADD REPLICA "@) {
        Some(CommandKind::AddReplica)
    } else if has_prefix(u, "REMOVE REPLICA "@) {
        Some(CommandKind::RemoveReplica)
    } else {
        None
    }
}

/// The command of a statement that runs only where the user has the privilege.
pub open spec fn guarded_command(u: Seq<char>) -> CommandKind {
    if has_prefix(u, "TRUNCATE "@) {
        CommandKind::Truncate
    } else if has_prefix(u, "REFRESH MATERIALIZED VIEW "@) {
        CommandKind::RefreshMaterializedView
    } else if u == "CHECKPOINT"@ || u == "CHECKPOINT;"@ {
        CommandKind::Checkpoint
    } else {
        CommandKind::Statement
    }
}

/// The command of a statement.
pub open spec fn command_kind(u: Seq<char>) -> CommandKind {
    match open_command(u) {
        Some(k) => k,
        None => guarded_command(u),
    }
}

/// Whether the privileges of the user are looked at before the command runs.
pub open spec fn is_guarded(k: CommandKind) -> bool {
    matches!(k, CommandKind::Truncate | CommandKind::RefreshMaterializedView | CommandKind::Checkpoint
        | CommandKind::Statement)
}

fn mentions_catalog(upper: &str) -> (r: bool)
    ensures
        r == mentions_pg_catalog(upper@),
{
    contains(upper, "PG_CATALOG.") || contains(upper, "PG_TYPE") || contains(upper, "PG_CLASS")
        || contains(upper, "PG_NAMESPACE") || contains(upper, "PG_ATTRIBUTE")
}

fn read_open_command(u: &str) -> (r: Option<CommandKind>)
    ensures
        r == open_command(u@),
{
    if same(u, "FLUSH") || starts_with(u, "FLUSH ") {
        return Some(CommandKind::Flush);
    }
    if starts_with(u, "SELECT ") && contains(u, "FROM POTATODB_CDC") {
        return Some(CommandKind::SelectCdc);
    }
    if starts_with(u, "SELECT ") && contains(u, "FROM POTATODB_SYSTEM_STATUS") {
        return Some(CommandKind::SelectSystemStatus);
    }
    if mentions_catalog(u) {
        return Some(CommandKind::PgCatalog);
    }
    if starts_with(u, "CREATE FUNCTION ") {
        return Some(CommandKind::CreateFunction);
    }
    if starts_with(u, "DROP FUNCTION ") {
        return Some(CommandKind::DropFunction);
    }
    if starts_with(u, "CREATE USER ") {
        return Some(CommandKind::CreateUser);
    }
    if starts_with(u, "CREATE ROLE ") {
        return Some(CommandKind::CreateRole);
    }
    if starts_with(u, "GRANT ") {
        return Some(CommandKind::Grant);
    }
    if starts_with(u, "REVOKE ") {
        return Some(CommandKind::Revoke);
    }
    if starts_with(u, "LISTEN ") {
        return Some(CommandKind::Listen);
    }
    if starts_with(u, "NOTIFY ") {
        return Some(CommandKind::Notify);
    }
    if starts_with(u, "CREATE PROCEDURE ") {
        return Some(CommandKind::CreateProcedure);
    }
    if starts_with(u, "CALL ") {
        return Some(CommandKind::CallProcedure);
    }
    if starts_with(u, "DO $$") {
        return Some(CommandKind::DoBlock);
    }
    if starts_with(u, "CREATE FULLTEXT INDEX ") {
        return Some(CommandKind::CreateFulltextIndex);
    }
    if starts_with(u, "CREATE TRIGGER ") {
        return Some(CommandKind::CreateTrigger);
    }
    if starts_with(u, "DROP TRIGGER ") {
        return Some(CommandKind::DropTrigger);
    }
    if starts_with(u, "SAVEPOINT ") {
        return Some(CommandKind::Savepoint);
    }
    if starts_with(u, "ROLLBACK TO ") {
        return Some(CommandKind::RollbackTo);
    }
    if starts_with(u, "RELEASE ") {
        return Some(CommandKind::ReleaseSavepoint);
    }
    if starts_with(u, "CREATE MIGRATION ") {
        return Some(CommandKind::CreateMigration);
    }
    if same(u, "MIGRATE") || starts_with(u, "MIGRATE ") {
        return Some(CommandKind::Migrate);
    }
    if starts_with(u, "ADD REPLICA ") {
        return Some(CommandKind::AddReplica);
    }
    if starts_with(u, "REMOVE REPLICA ") {
        return Some(CommandKind::RemoveReplica);
    }
    None
}

/// The command of a statement, given in upper case without white space around it and without
/// semicolons at its end.
pub fn classify(upper: &str) -> (r: CommandKind)
    ensures
        r == command_kind(upper@),
{
    if let Some(k) = read_open_command(upper) {
        return k;
    }
    if starts_with(upper, "TRUNCATE ") {
        return CommandKind::Truncate;
    }
    if starts_with(upper, "REFRESH MATERIALIZED VIEW ") {
        return CommandKind::RefreshMaterializedView;
    }
    if same(upper, "CHECKPOINT") || same(upper, "CHECKPOINT;") {
        return CommandKind::Checkpoint;
    }
    CommandKind::Statement
}

/// Whether the privileges of the user are looked at before the command runs.
pub fn guarded(k: CommandKind) -> (r: bool)
    ensures
        r == is_guarded(k),
{
    match k {
        CommandKind::Truncate => true,
        CommandKind::RefreshMaterializedView => true,
        CommandKind::Checkpoint => true,
        CommandKind::Statement => true,
        _ => false,
    }
}

// ---------------------------------------------------------------------------
// Around a command
// ---------------------------------------------------------------------------

/// Whether buffered rows are written out before the statement runs. An `INSERT` goes to the buffer
/// itself, and a few commands read no table.
pub open spec fn writes_buffers_first(u: Seq<char>) -> bool {
    &&& command_kind(u) != CommandKind::Flush
    &&& !has_prefix(u, "INSERT "@)
    &&& !has_prefix(u, "SHOW "@)
    &&& !has_prefix(u, "PREPARE "@)
    &&& !has_prefix(u, "LISTEN "@)
    &&& !has_prefix(u, "NOTIFY "@)
    &&& !has_prefix(u, "CREATE USER "@)
    &&& !has_prefix(u, "CREATE ROLE "@)
    &&& !has_prefix(u, "GRANT "@)
    &&& !has_prefix(u, "REVOKE "@)
}

/// Whether buffered rows are written out before the statement runs.
pub fn flush_first(upper: &str) -> (r: bool)
    ensures
        r == writes_buffers_first(upper@),
{
    if starts_with(upper, "INSERT ") || starts_with(upper, "SHOW ") || starts_with(
        upper,
        "PREPARE ",
    ) || starts_with(upper, "LISTEN ") || starts_with(upper, "NOTIFY ") || starts_with(
        upper,
        "CREATE USER ",
    ) || starts_with(upper, "CREATE ROLE ") || starts_with(upper, "GRANT ") || starts_with(
        upper,
        "REVOKE ",
    ) {
        return false;
    }
    match classify(upper) {
        CommandKind::Flush => false,
        _ => true,
    }
}

/// Whether the command, where it succeeds, ends a transaction of its own in the write-ahead log,
/// with a checkpoint.
pub open spec fn ends_in_checkpoint(k: CommandKind) -> bool {
    matches!(k, CommandKind::CreateFunction | CommandKind::DropFunction | CommandKind::CreateMigration
        | CommandKind::Migrate | CommandKind::Truncate | CommandKind::RefreshMaterializedView)
}

/// Whether the command, where it succeeds, ends a transaction of its own in the write-ahead log,
/// with a checkpoint.
pub fn checkpoint_after(k: CommandKind) -> (r: bool)
    ensures
        r == ends_in_checkpoint(k),
{
    match k {
        CommandKind::CreateFunction => true,
        CommandKind::DropFunction => true,
        CommandKind::CreateMigration => true,
        CommandKind::Migrate => true,
        CommandKind::Truncate => true,
        CommandKind::RefreshMaterializedView => true,
        _ => false,
    }
}

/// Whether a changed catalog is written out behind the command, whether or not it succeeded.
pub open spec fn writes_catalog(k: CommandKind) -> bool {
    matches!(k, CommandKind::Flush | CommandKind::CreateFunction | CommandKind::DropFunction
        | CommandKind::CreateUser | CommandKind::CreateRole | CommandKind::Grant | CommandKind::Revoke
        | CommandKind::CreateFulltextIndex | CommandKind::CreateTrigger | CommandKind::DropTrigger
        | CommandKind::CreateMigration | CommandKind::Migrate | CommandKind::Truncate
        | CommandKind::RefreshMaterializedView | CommandKind::Checkpoint | CommandKind::Statement)
}

/// Whether a changed catalog is written out behind the command, whether or not it succeeded.
pub fn catalog_after(k: CommandKind) -> (r: bool)
    ensures
        r == writes_catalog(k),
{
    match k {
        CommandKind::SelectCdc => false,
        CommandKind::SelectSystemStatus => false,
        CommandKind::PgCatalog => false,
        CommandKind::Listen => false,
        CommandKind::Notify => false,
        CommandKind::CreateProcedure => false,
        CommandKind::CallProcedure => false,
        CommandKind::DoBlock => false,
        CommandKind::Savepoint => false,
        CommandKind::RollbackTo => false,
        CommandKind::ReleaseSavepoint => false,
        CommandKind::AddReplica => false,
        CommandKind::RemoveReplica => false,
        _ => true,
    }
}

// ---------------------------------------------------------------------------
// The operand of a command
// ---------------------------------------------------------------------------

/// The word behind a command word, or the one behind that where it is `TABLE`.
pub open spec fn table_operand(w: Seq<Seq<char>>, missing: Seq<char>, missing_table: Seq<char>) -> Result<
    Seq<char>,
    Seq<char>,
> {
    if w.len() < 2 {
        Err(missing)
    } else if !same_ignore_case(w[1], "TABLE"@) {
        Ok(trim_matches_text(w[1], '"'))
    } else if w.len() < 3 {
        Err(missing_table)
    } else {
        Ok(trim_matches_text(w[2], '"'))
    }
}

/// The table of `FLUSH`: none for all tables.
pub open spec fn flush_operand(t: Seq<char>) -> Result<Option<Seq<char>>, Seq<char>> {
    if words(t).len() == 1 {
        Ok(None)
    } else {
        match table_operand(
            words(t),
            "FLUSH requires an optional table name"@,
            "FLUSH TABLE requires a table name"@,
        ) {
            Ok(n) => Ok(Some(n)),
            Err(e) => Err(e),
        }
    }
}

/// The table of `TRUNCATE`.
pub open spec fn truncate_operand(t: Seq<char>) -> Result<Seq<char>, Seq<char>> {
    table_operand(
        words(t),
        "TRUNCATE requires a table name"@,
        "TRUNCATE requires a table name"@,
    )
}

/// The view of `REFRESH MATERIALIZED VIEW`.
pub open spec fn refresh_operand(t: Seq<char>) -> Result<Seq<char>, Seq<char>> {
    if words(t).len() < 4 {
        Err("REFRESH MATERIALIZED VIEW requires a view name"@)
    } else {
        Ok(trim_matches_text(words(t)[3], '"'))
    }
}

/// A name without white space and quotes around it.
pub open spec fn bare_name(s: Seq<char>) -> Seq<char> {
    trim_matches_text(trim_text(s), '"')
}

/// The text without `p` at its beginning.
pub open spec fn without_prefix(s: Seq<char>, p: Seq<char>) -> Seq<char> {
    if has_prefix(s, p) {
        s.subrange(p.len() as int, s.len() as int)
    } else {
        s
    }
}

/// The savepoint that a statement names; `None` where the statement cannot be cut behind the
/// command word.
pub open spec fn savepoint_operand(k: CommandKind, t: Seq<char>, u: Seq<char>) -> Option<Seq<char>> {
    if k == CommandKind::Savepoint {
        if cuttable(t, utf8("SAVEPOINT "@).len() as int) {
            Some(bare_name(tail_at(t, utf8("SAVEPOINT "@).len() as int)))
        } else {
            None
        }
    } else if k == CommandKind::RollbackTo {
        if cuttable(t, utf8("ROLLBACK TO "@).len() as int) {
            Some(
                bare_name(
                    without_prefix(
                        trim_text(tail_at(t, utf8("ROLLBACK TO "@).len() as int)),
                        "SAVEPOINT "@,
                    ),
                ),
            )
        } else {
            None
        }
    } else if has_prefix(u, "RELEASE SAVEPOINT "@) {
        if cuttable(t, utf8("RELEASE SAVEPOINT "@).len() as int) {
            Some(bare_name(tail_at(t, utf8("RELEASE SAVEPOINT "@).len() as int)))
        } else {
            None
        }
    } else if cuttable(t, utf8("RELEASE "@).len() as int) {
        Some(bare_name(tail_at(t, utf8("RELEASE "@).len() as int)))
    } else {
        None
    }
}

fn read_table_operand(w: &Vec<String>, missing: &str, missing_table: &str) -> (r: Result<
    String,
    String,
>)
    ensures
        crate::outcome::answered(r) == table_operand(texts(w@), missing@, missing_table@),
{
    assert(texts(w@).len() == w@.len());
    if w.len() < 2 {
        return Err(missing.to_owned());
    }
    assert(texts(w@)[1] == w@[1]@);
    if !eq_ignore_ascii_case(&w[1], "TABLE") {
        return Ok(trim_matches(&w[1], '"'));
    }
    if w.len() < 3 {
        return Err(missing_table.to_owned());
    }
    assert(texts(w@)[2] == w@[2]@);
    Ok(trim_matches(&w[2], '"'))
}

/// The table of `FLUSH`, or nothing where all tables are meant.
pub fn parse_flush(trimmed: &str) -> (r: Result<Option<String>, String>)
    ensures
        match r {
            Ok(n) => flush_operand(trimmed@) == Ok::<Option<Seq<char>>, Seq<char>>(opt_text(n)),
            Err(e) => flush_operand(trimmed@) == Err::<Option<Seq<char>>, Seq<char>>(e@),
        },
{
    let w = split_whitespace(trimmed);
    assert(texts(w@).len() == w@.len());
    if w.len() == 1 {
        return Ok(None);
    }
    match read_table_operand(
        &w,
        "FLUSH requires an optional table name",
        "FLUSH TABLE requires a table name",
    ) {
        Ok(n) => Ok(Some(n)),
        Err(e) => Err(e),
    }
}

/// The table of `TRUNCATE`.
pub fn parse_truncate(trimmed: &str) -> (r: Result<String, String>)
    ensures
        crate::outcome::answered(r) == truncate_operand(trimmed@),
{
    let w = split_whitespace(trimmed);
    read_table_operand(&w, "TRUNCATE requires a table name", "TRUNCATE requires a table name")
}

/// The view of `REFRESH MATERIALIZED VIEW`.
pub fn parse_refresh(trimmed: &str) -> (r: Result<String, String>)
    ensures
        crate::outcome::answered(r) == refresh_operand(trimmed@),
{
    let w = split_whitespace(trimmed);
    assert(texts(w@).len() == w@.len());
    if w.len() < 4 {
        return Err("REFRESH MATERIALIZED VIEW requires a view name".to_owned());
    }
    assert(texts(w@)[3] == w@[3]@);
    Ok(trim_matches(&w[3], '"'))
}

fn strip_prefix(s: &str, p: &str) -> (r: String)
    ensures
        r@ == without_prefix(s@, p@),
{
    if starts_with(s, p) {
        let v = crate::text::to_chars(s);
        let q = crate::text::to_chars(p);
        crate::text::from_chars(&v, q.len(), v.len())
    } else {
        s.to_owned()
    }
}

fn read_name(s: &str) -> (r: String)
    ensures
        r@ == bare_name(s@),
{
    trim_matches(&trim(s), '"')
}

/// The savepoint that `SAVEPOINT`, `ROLLBACK TO` or `RELEASE` names, where `upper` is the statement
/// in upper case; `None` where the statement cannot be cut behind the command word.
pub fn parse_savepoint(k: CommandKind, trimmed: &str, upper: &str) -> (r: Option<String>)
    ensures
        opt_text(r) == savepoint_operand(k, trimmed@, upper@),
{
    let word = match k {
        CommandKind::Savepoint => "SAVEPOINT ",
        CommandKind::RollbackTo => "ROLLBACK TO ",
        _ => if starts_with(upper, "RELEASE SAVEPOINT ") {
            "RELEASE SAVEPOINT "
        } else {
            "RELEASE "
        },
    };
    match after_word(trimmed, word) {
        None => None,
        Some(rest) => match k {
            CommandKind::RollbackTo => Some(read_name(&strip_prefix(&trim(&rest), "SAVEPOINT "))),
            _ => Some(read_name(&rest)),
        },
    }
}

// ---------------------------------------------------------------------------
// Statements that the SQL parser does not read
// ---------------------------------------------------------------------------

/// What becomes of a statement that the SQL parser does not read.
pub enum Unparsed {
    /// `VACUUM`, of this table, with `ANALYZE` behind it or not.
    Vacuum { table: String, analyze: bool },
    /// `ANALYZE` of this table.
    Analyze { table: String },
    /// Anything else goes to the query engine as it stands.
    Query,
}

/// What an [`Unparsed`] says.
pub enum UnparsedView {
    Vacuum { table: Seq<char>, analyze: bool },
    Analyze { table: Seq<char> },
    Query,
}

impl View for Unparsed {
    type V = UnparsedView;

    open spec fn view(&self) -> UnparsedView {
        match self {
            Unparsed::Vacuum { table, analyze } => UnparsedView::Vacuum {
                table: table@,
                analyze: *analyze,
            },
            Unparsed::Analyze { table } => UnparsedView::Analyze { table: table@ },
            Unparsed::Query => UnparsedView::Query,
        }
    }
}

/// What becomes of a statement that the SQL parser does not read.
pub open spec fn unparsed(t: Seq<char>, u: Seq<char>) -> Result<UnparsedView, Seq<char>> {
    let w = words(t);
    if has_prefix(u, "VACUUM "@) || u == "VACUUM"@ {
        if w.len() < 2 {
            Err("VACUUM requires a table name"@)
        } else {
            let analyze = w.len() >= 3 && upper_text(w[1]) == "ANALYZE"@;
            let table = trim_matches_text(
                if analyze {
                    w[2]
                } else {
                    w[1]
                },
                '"',
            );
            if table.len() == 0 {
                Err("VACUUM requires a table name"@)
            } else {
                Ok(UnparsedView::Vacuum { table, analyze })
            }
        }
    } else if has_prefix(u, "ANALYZE "@) || u == "ANALYZE"@ {
        if w.len() < 2 {
            Err("ANALYZE requires a table name"@)
        } else {
            Ok(UnparsedView::Analyze { table: w[1] })
        }
    } else {
        Ok(UnparsedView::Query)
    }
}

/// What becomes of a statement that the SQL parser does not read, where `upper` is the statement in
/// upper case.
pub fn parse_unparsed(trimmed: &str, upper: &str) -> (r: Result<Unparsed, String>)
    ensures
        match r {
            Ok(c) => unparsed(trimmed@, upper@) == Ok::<UnparsedView, Seq<char>>(c@),
            Err(e) => unparsed(trimmed@, upper@) == Err::<UnparsedView, Seq<char>>(e@),
        },
{
    let w = split_whitespace(trimmed);
    let ghost ws = texts(w@);
    assert(ws.len() == w@.len());
    assert(forall|i: int| 0 <= i < w@.len() ==> ws[i] == #[trigger] w@[i]@);
    if starts_with(upper, "VACUUM ") || same(upper, "VACUUM") {
        if w.len() < 2 {
            return Err("VACUUM requires a table name".to_owned());
        }
        let analyze: bool = w.len() >= 3 && same(&w[1].to_uppercase(), "ANALYZE");
        let table = if analyze {
            trim_matches(&w[2], '"')
        } else {
            trim_matches(&w[1], '"')
        };
        if table.as_str().is_empty() {
            return Err("VACUUM requires a table name".to_owned());
        }
        return Ok(Unparsed::Vacuum { table, analyze });
    }
    if starts_with(upper, "ANALYZE ") || same(upper, "ANALYZE") {
        if w.len() < 2 {
            return Err("ANALYZE requires a table name".to_owned());
        }
        return Ok(Unparsed::Analyze { table: w[1].clone() });
    }
    Ok(Unparsed::Query)
}

// ---------------------------------------------------------------------------
// Laws
// ---------------------------------------------------------------------------

/// A command that needs no privilege is never one of those that do.
pub proof fn law_open_commands_are_not_guarded(u: Seq<char>)
    ensures
        is_guarded(command_kind(u)) <==> open_command(u) is None,
{
}

/// A command that ends with a checkpoint also writes the catalog out.
pub proof fn law_checkpoint_writes_catalog(k: CommandKind)
    ensures
        ends_in_checkpoint(k) ==> writes_catalog(k),
{
}

/// A query or a change of rows sees what was inserted before it: buffered rows are written first.
pub proof fn law_readers_see_buffered_rows(u: Seq<char>)
    requires
        has_prefix(u, "SELECT "@) || has_prefix(u, "UPDATE "@) || has_prefix(u, "DELETE "@),
    ensures
        writes_buffers_first(u),
{
    reveal_strlit("SELECT ");
    reveal_strlit("UPDATE ");
    reveal_strlit("DELETE ");
    reveal_strlit("FLUSH");
    reveal_strlit("FLUSH ");
    reveal_strlit("INSERT ");
    reveal_strlit("SHOW ");
    reveal_strlit("PREPARE ");
    reveal_strlit("LISTEN ");
    reveal_strlit("NOTIFY ");
    reveal_strlit("CREATE USER ");
    reveal_strlit("CREATE ROLE ");
    reveal_strlit("GRANT ");
    reveal_strlit("REVOKE ");
    assert((u[0] == 'S' && u[1] == 'E') || u[0] == 'U' || u[0] == 'D') by {
        if has_prefix(u, "SELECT "@) {
            assert("SELECT "@[0] == 'S' && "SELECT "@[1] == 'E');
        } else if has_prefix(u, "UPDATE "@) {
            assert("UPDATE "@[0] == 'U');
        } else {
            assert("DELETE "@[0] == 'D');
        }
    }
    assert("FLUSH"@[0] == 'F' && "FLUSH "@[0] == 'F');
    assert("INSERT "@[0] == 'I' && "SHOW "@[0] == 'S' && "SHOW "@[1] == 'H');
    assert("PREPARE "@[0] == 'P' && "LISTEN "@[0] == 'L' && "NOTIFY "@[0] == 'N');
    assert("CREATE USER "@[0] == 'C' && "CREATE ROLE "@[0] == 'C' && "GRANT "@[0] == 'G'
        && "REVOKE "@[0] == 'R');
}

/// A table is named behind the word of the command, with or without `TABLE`.
pub proof fn law_table_operands(
    w: Seq<Seq<char>>,
    missing: Seq<char>,
    missing_table: Seq<char>,
)
    ensures
        w.len() < 2 ==> table_operand(w, missing, missing_table) == Err::<Seq<char>, Seq<char>>(
            missing,
        ),
        w.len() == 2 && same_ignore_case(w[1], "TABLE"@) ==> table_operand(
            w,
            missing,
            missing_table,
        ) == Err::<Seq<char>, Seq<char>>(missing_table),
        w.len() >= 2 && !same_ignore_case(w[1], "TABLE"@) ==> table_operand(
            w,
            missing,
            missing_table,
        ) == Ok::<Seq<char>, Seq<char>>(trim_matches_text(w[1], '"')),
        w.len() >= 3 && same_ignore_case(w[1], "TABLE"@) ==> table_operand(
            w,
            missing,
            missing_table,
        ) == Ok::<Seq<char>, Seq<char>>(trim_matches_text(w[2], '"')),
{
}

/// Exactly the commands that are not open need the rights of the user, and what ends in a checkpoint writes
/// the catalog.
pub proof fn law_guarded_commands(u: Seq<char>)
    ensures
        open_command(u) is None ==> is_guarded(command_kind(u)),
        open_command(u) matches Some(k) ==> !is_guarded(k) && command_kind(u) == k,
        ends_in_checkpoint(command_kind(u)) ==> writes_catalog(command_kind(u)),
{
}

proof fn lemma_prefix_chars(u: Seq<char>, p: Seq<char>)
    ensures
        has_prefix(u, p) ==> p.len() <= u.len() && forall|i: int|
            0 <= i < p.len() ==> u[i] == #[trigger] p[i],
{
    if has_prefix(u, p) {
        assert forall|i: int| 0 <= i < p.len() implies u[i] == #[trigger] p[i] by {
            assert(u.subrange(0, p.len() as int)[i] == u[i]);
        }
    }
}

/// A command is told by the words that it begins with. What speaks of a table of the PostgreSQL catalog is
/// answered from there instead.
#[verifier::rlimit(60)]
pub proof fn law_commands_go_by_their_words(u: Seq<char>)
    requires
        !mentions_pg_catalog(u),
    ensures
        has_prefix(u, "CREATE FUNCTION "@) ==> command_kind(u) == CommandKind::CreateFunction,
        has_prefix(u, "DROP FUNCTION "@) ==> command_kind(u) == CommandKind::DropFunction,
        has_prefix(u, "CREATE USER "@) ==> command_kind(u) == CommandKind::CreateUser,
        has_prefix(u, "CREATE ROLE "@) ==> command_kind(u) == CommandKind::CreateRole,
        has_prefix(u, "GRANT "@) ==> command_kind(u) == CommandKind::Grant,
        has_prefix(u, "REVOKE "@) ==> command_kind(u) == CommandKind::Revoke,
        has_prefix(u, "LISTEN "@) ==> command_kind(u) == CommandKind::Listen,
        has_prefix(u, "NOTIFY "@) ==> command_kind(u) == CommandKind::Notify,
        has_prefix(u, "CREATE PROCEDURE "@) ==> command_kind(u) == CommandKind::CreateProcedure,
        has_prefix(u, "CALL "@) ==> command_kind(u) == CommandKind::CallProcedure,
        has_prefix(u, "DO $$"@) ==> command_kind(u) == CommandKind::DoBlock,
        has_prefix(u, "CREATE FULLTEXT INDEX "@) ==> command_kind(u) == CommandKind::CreateFulltextIndex,
        has_prefix(u, "CREATE TRIGGER "@) ==> command_kind(u) == CommandKind::CreateTrigger,
        has_prefix(u, "DROP TRIGGER "@) ==> command_kind(u) == CommandKind::DropTrigger,
        has_prefix(u, "SAVEPOINT "@) ==> command_kind(u) == CommandKind::Savepoint,
        has_prefix(u, "ROLLBACK TO "@) ==> command_kind(u) == CommandKind::RollbackTo,
        has_prefix(u, "RELEASE "@) ==> command_kind(u) == CommandKind::ReleaseSavepoint,
        has_prefix(u, "CREATE MIGRATION "@) ==> command_kind(u) == CommandKind::CreateMigration,
        has_prefix(u, "MIGRATE "@) ==> command_kind(u) == CommandKind::Migrate,
        has_prefix(u, "ADD REPLICA "@) ==> command_kind(u) == CommandKind::AddReplica,
        has_prefix(u, "REMOVE REPLICA "@) ==> command_kind(u) == CommandKind::RemoveReplica,
        has_prefix(u, "TRUNCATE "@) ==> command_kind(u) == CommandKind::Truncate,
        has_prefix(u, "REFRESH MATERIALIZED VIEW "@) ==> command_kind(u) == CommandKind::RefreshMaterializedView,
        u == "FLUSH"@ || has_prefix(u, "FLUSH "@) ==> command_kind(u) == CommandKind::Flush,
        u == "MIGRATE"@ ==> command_kind(u) == CommandKind::Migrate,
        u == "CHECKPOINT"@ || u == "CHECKPOINT;"@ ==> command_kind(u) == CommandKind::Checkpoint,
{
    reveal_strlit("CREATE FUNCTION ");
    reveal_strlit("DROP FUNCTION ");
    reveal_strlit("CREATE USER ");
    reveal_strlit("CREATE ROLE ");
    reveal_strlit("GRANT ");
    reveal_strlit("REVOKE ");
    reveal_strlit("LISTEN ");
    reveal_strlit("NOTIFY ");
    reveal_strlit("CREATE PROCEDURE ");
    reveal_strlit("CALL ");
    reveal_strlit("DO $$");
    reveal_strlit("CREATE FULLTEXT INDEX ");
    reveal_strlit("CREATE TRIGGER ");
    reveal_strlit("DROP TRIGGER ");
    reveal_strlit("SAVEPOINT ");
    reveal_strlit("ROLLBACK TO ");
    reveal_strlit("RELEASE ");
    reveal_strlit("CREATE MIGRATION ");
    reveal_strlit("MIGRATE ");
    reveal_strlit("ADD REPLICA ");
    reveal_strlit("REMOVE REPLICA ");
    reveal_strlit("TRUNCATE ");
    reveal_strlit("REFRESH MATERIALIZED VIEW ");
    reveal_strlit("FLUSH");
    reveal_strlit("FLUSH ");
    reveal_strlit("SELECT ");
    reveal_strlit("MIGRATE");
    reveal_strlit("CHECKPOINT");
    reveal_strlit("CHECKPOINT;");
    lemma_prefix_chars(u, "CREATE FUNCTION "@);
    lemma_prefix_chars(u, "DROP FUNCTION "@);
    lemma_prefix_chars(u, "CREATE USER "@);
    lemma_prefix_chars(u, "CREATE ROLE "@);
    lemma_prefix_chars(u, "GRANT "@);
    lemma_prefix_chars(u, "REVOKE "@);
    lemma_prefix_chars(u, "LISTEN "@);
    lemma_prefix_chars(u, "NOTIFY "@);
    lemma_prefix_chars(u, "CREATE PROCEDURE "@);
    lemma_prefix_chars(u, "CALL "@);
    lemma_prefix_chars(u, "DO $$"@);
    lemma_prefix_chars(u, "CREATE FULLTEXT INDEX "@);
    lemma_prefix_chars(u, "CREATE TRIGGER "@);
    lemma_prefix_chars(u, "DROP TRIGGER "@);
    lemma_prefix_chars(u, "SAVEPOINT "@);
    lemma_prefix_chars(u, "ROLLBACK TO "@);
    lemma_prefix_chars(u, "RELEASE "@);
    lemma_prefix_chars(u, "CREATE MIGRATION "@);
    lemma_prefix_chars(u, "MIGRATE "@);
    lemma_prefix_chars(u, "ADD REPLICA "@);
    lemma_prefix_chars(u, "REMOVE REPLICA "@);
    lemma_prefix_chars(u, "TRUNCATE "@);
    lemma_prefix_chars(u, "REFRESH MATERIALIZED VIEW "@);
    lemma_prefix_chars(u, "FLUSH "@);
    lemma_prefix_chars(u, "SELECT "@);
    assert("CREATE FUNCTION "@[0] == 'C' && "CREATE FUNCTION "@[1] == 'R' && "CREATE FUNCTION "@[2] == 'E' && "CREATE FUNCTION "@[5] == 'E' && "CREATE FUNCTION "@[7] == 'F' && "CREATE FUNCTION "@[9] == 'N');
    assert("DROP FUNCTION "@[0] == 'D' && "DROP FUNCTION "@[1] == 'R' && "DROP FUNCTION "@[2] == 'O' && "DROP FUNCTION "@[5] == 'F' && "DROP FUNCTION "@[7] == 'N' && "DROP FUNCTION "@[9] == 'T');
    assert("CREATE USER "@[0] == 'C' && "CREATE USER "@[1] == 'R' && "CREATE USER "@[2] == 'E' && "CREATE USER "@[5] == 'E' && "CREATE USER "@[7] == 'U' && "CREATE USER "@[9] == 'E');
    assert("CREATE ROLE "@[0] == 'C' && "CREATE ROLE "@[1] == 'R' && "CREATE ROLE "@[2] == 'E' && "CREATE ROLE "@[5] == 'E' && "CREATE ROLE "@[7] == 'R' && "CREATE ROLE "@[9] == 'L');
    assert("GRANT "@[0] == 'G' && "GRANT "@[1] == 'R' && "GRANT "@[2] == 'A' && "GRANT "@[5] == ' ');
    assert("REVOKE "@[0] == 'R' && "REVOKE "@[1] == 'E' && "REVOKE "@[2] == 'V' && "REVOKE "@[5] == 'E');
    assert("LISTEN "@[0] == 'L' && "LISTEN "@[1] == 'I' && "LISTEN "@[2] == 'S' && "LISTEN "@[5] == 'N');
    assert("NOTIFY "@[0] == 'N' && "NOTIFY "@[1] == 'O' && "NOTIFY "@[2] == 'T' && "NOTIFY "@[5] == 'Y');
    assert("CREATE PROCEDURE "@[0] == 'C' && "CREATE PROCEDURE "@[1] == 'R' && "CREATE PROCEDURE "@[2] == 'E' && "CREATE PROCEDURE "@[5] == 'E' && "CREATE PROCEDURE "@[7] == 'P' && "CREATE PROCEDURE "@[9] == 'O');
    assert("CALL "@[0] == 'C' && "CALL "@[1] == 'A' && "CALL "@[2] == 'L');
    assert("DO $$"@[0] == 'D' && "DO $$"@[1] == 'O' && "DO $$"@[2] == ' ');
    assert("CREATE FULLTEXT INDEX "@[0] == 'C' && "CREATE FULLTEXT INDEX "@[1] == 'R' && "CREATE FULLTEXT INDEX "@[2] == 'E' && "CREATE FULLTEXT INDEX "@[5] == 'E' && "CREATE FULLTEXT INDEX "@[7] == 'F' && "CREATE FULLTEXT INDEX "@[9] == 'L');
    assert("CREATE TRIGGER "@[0] == 'C' && "CREATE TRIGGER "@[1] == 'R' && "CREATE TRIGGER "@[2] == 'E' && "CREATE TRIGGER "@[5] == 'E' && "CREATE TRIGGER "@[7] == 'T' && "CREATE TRIGGER "@[9] == 'I');
    assert("DROP TRIGGER "@[0] == 'D' && "DROP TRIGGER "@[1] == 'R' && "DROP TRIGGER "@[2] == 'O' && "DROP TRIGGER "@[5] == 'T' && "DROP TRIGGER "@[7] == 'I' && "DROP TRIGGER "@[9] == 'G');
    assert("SAVEPOINT "@[0] == 'S' && "SAVEPOINT "@[1] == 'A' && "SAVEPOINT "@[2] == 'V' && "SAVEPOINT "@[5] == 'O' && "SAVEPOINT "@[7] == 'N' && "SAVEPOINT "@[9] == ' ');
    assert("ROLLBACK TO "@[0] == 'R' && "ROLLBACK TO "@[1] == 'O' && "ROLLBACK TO "@[2] == 'L' && "ROLLBACK TO "@[5] == 'A' && "ROLLBACK TO "@[7] == 'K' && "ROLLBACK TO "@[9] == 'T');
    assert("RELEASE "@[0] == 'R' && "RELEASE "@[1] == 'E' && "RELEASE "@[2] == 'L' && "RELEASE "@[5] == 'S' && "RELEASE "@[7] == ' ');
    assert("CREATE MIGRATION "@[0] == 'C' && "CREATE MIGRATION "@[1] == 'R' && "CREATE MIGRATION "@[2] == 'E' && "CREATE MIGRATION "@[5] == 'E' && "CREATE MIGRATION "@[7] == 'M' && "CREATE MIGRATION "@[9] == 'G');
    assert("MIGRATE "@[0] == 'M' && "MIGRATE "@[1] == 'I' && "MIGRATE "@[2] == 'G' && "MIGRATE "@[5] == 'T' && "MIGRATE "@[7] == ' ');
    assert("ADD REPLICA "@[0] == 'A' && "ADD REPLICA "@[1] == 'D' && "ADD REPLICA "@[2] == 'D' && "ADD REPLICA "@[5] == 'E' && "ADD REPLICA "@[7] == 'L' && "ADD REPLICA "@[9] == 'C');
    assert("REMOVE REPLICA "@[0] == 'R' && "REMOVE REPLICA "@[1] == 'E' && "REMOVE REPLICA "@[2] == 'M' && "REMOVE REPLICA "@[5] == 'E' && "REMOVE REPLICA "@[7] == 'R' && "REMOVE REPLICA "@[9] == 'P');
    assert("TRUNCATE "@[0] == 'T' && "TRUNCATE "@[1] == 'R' && "TRUNCATE "@[2] == 'U' && "TRUNCATE "@[5] == 'A' && "TRUNCATE "@[7] == 'E');
    assert("REFRESH MATERIALIZED VIEW "@[0] == 'R' && "REFRESH MATERIALIZED VIEW "@[1] == 'E' && "REFRESH MATERIALIZED VIEW "@[2] == 'F' && "REFRESH MATERIALIZED VIEW "@[5] == 'S' && "REFRESH MATERIALIZED VIEW "@[7] == ' ' && "REFRESH MATERIALIZED VIEW "@[9] == 'A');
    assert("FLUSH"@[0] == 'F' && "FLUSH"@[1] == 'L' && "FLUSH"@[2] == 'U');
    assert("FLUSH "@[0] == 'F' && "FLUSH "@[1] == 'L' && "FLUSH "@[2] == 'U' && "FLUSH "@[5] == ' ');
    assert("SELECT "@[0] == 'S' && "SELECT "@[1] == 'E' && "SELECT "@[2] == 'L' && "SELECT "@[5] == 'T');
    assert("MIGRATE"@[0] == 'M' && "MIGRATE"@[1] == 'I' && "MIGRATE"@[2] == 'G' && "MIGRATE"@[5] == 'T');
    assert("CHECKPOINT"@[0] == 'C' && "CHECKPOINT"@[1] == 'H' && "CHECKPOINT"@[2] == 'E' && "CHECKPOINT"@[5] == 'P' && "CHECKPOINT"@[7] == 'I' && "CHECKPOINT"@[9] == 'T');
    assert("CHECKPOINT;"@[0] == 'C' && "CHECKPOINT;"@[1] == 'H' && "CHECKPOINT;"@[2] == 'E' && "CHECKPOINT;"@[5] == 'P' && "CHECKPOINT;"@[7] == 'I' && "CHECKPOINT;"@[9] == 'T');
}

/// A query of one of the tables of the PostgreSQL catalog is answered from there.
pub proof fn law_catalog_queries_are_answered(u: Seq<char>)
    requires
        contains_seq(u, "PG_CATALOG."@) || contains_seq(u, "PG_TYPE"@) || contains_seq(
            u,
            "PG_CLASS"@,
        ) || contains_seq(u, "PG_NAMESPACE"@) || contains_seq(u, "PG_ATTRIBUTE"@),
        has_prefix(u, "SELECT "@),
        !contains_seq(u, "FROM POTATODB_CDC"@),
        !contains_seq(u, "FROM POTATODB_SYSTEM_STATUS"@),
    ensures
        command_kind(u) == CommandKind::PgCatalog,
{
    reveal_strlit("FLUSH");
    reveal_strlit("FLUSH ");
    reveal_strlit("SELECT ");
    lemma_prefix_chars(u, "FLUSH "@);
    lemma_prefix_chars(u, "SELECT "@);
    assert("FLUSH"@[0] == 'F' && "FLUSH "@[0] == 'F' && "SELECT "@[0] == 'S');
}

/// The two tables of the engine itself are read as such.
pub proof fn law_own_tables_are_read(u: Seq<char>)
    requires
        has_prefix(u, "SELECT "@),
    ensures
        contains_seq(u, "FROM POTATODB_CDC"@) ==> command_kind(u) == CommandKind::SelectCdc,
        contains_seq(u, "FROM POTATODB_SYSTEM_STATUS"@) && !contains_seq(u, "FROM POTATODB_CDC"@)
            ==> command_kind(u) == CommandKind::SelectSystemStatus,
{
    reveal_strlit("FLUSH");
    reveal_strlit("FLUSH ");
    reveal_strlit("SELECT ");
    lemma_prefix_chars(u, "FLUSH "@);
    lemma_prefix_chars(u, "SELECT "@);
    assert("FLUSH"@[0] == 'F' && "FLUSH "@[0] == 'F' && "SELECT "@[0] == 'S');
}

/// `VACUUM` is of the table behind it, and with `ANALYZE` of the one behind that word. `ANALYZE` is of the
/// table behind it. Anything else is a query.
pub proof fn law_maintenance_operands(t: Seq<char>, u: Seq<char>)
    ensures
        has_prefix(u, "VACUUM "@) && words(t).len() == 2 && trim_matches_text(words(t)[1], '"').len()
            > 0 ==> unparsed(t, u) == Ok::<UnparsedView, Seq<char>>(
            UnparsedView::Vacuum { table: trim_matches_text(words(t)[1], '"'), analyze: false },
        ),
        has_prefix(u, "VACUUM "@) && words(t).len() >= 3 && upper_text(words(t)[1]) == "ANALYZE"@
            && trim_matches_text(words(t)[2], '"').len() > 0 ==> unparsed(t, u) == Ok::<
            UnparsedView,
            Seq<char>,
        >(UnparsedView::Vacuum { table: trim_matches_text(words(t)[2], '"'), analyze: true }),
        has_prefix(u, "ANALYZE "@) && !has_prefix(u, "VACUUM "@) && u != "VACUUM"@ && words(t).len()
            >= 2 ==> unparsed(t, u) == Ok::<UnparsedView, Seq<char>>(
            UnparsedView::Analyze { table: words(t)[1] },
        ),
        !has_prefix(u, "VACUUM "@) && u != "VACUUM"@ && !has_prefix(u, "ANALYZE "@) && u
            != "ANALYZE"@ ==> unparsed(t, u) == Ok::<UnparsedView, Seq<char>>(UnparsedView::Query),
        has_prefix(u, "VACUUM "@) && words(t).len() < 2 ==> unparsed(t, u) is Err,
{
}

} // verus!
