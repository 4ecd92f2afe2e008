//! The trees of statements, as the SQL parser reads them.
//!
//! The crate `sqlparser` parses a text and hands its tree over as JSON, in which a variant that
//! holds something is an object with one member, and one that holds nothing is its name. Everything
//! that is read of a statement is read from that tree; a part of it that is wanted as SQL again is
//! printed by the same crate.
use serde::Deserialize;
use sqlparser::ast::{AlterTableOperation, DataType, Expr, ObjectName, Statement, TableFactor};
use sqlparser::dialect::PostgreSqlDialect;
use sqlparser::parser::Parser;
use vstd::prelude::*;
use vstd::string::*;

use crate::json::{
    find_member, json_of, json_text, json_view, lemma_list_view, member_of, parse_json, push_json,
    Json, JsonView,
};
use crate::outcome::answered;
use crate::printable::{can_print, is_nothing, printable_text, stands_for_nothing};
use crate::text::{opt_text, same, texts};

verus! {

// ---------------------------------------------------------------------------
// The parser
// ---------------------------------------------------------------------------

/// The trees of the statements of a text, as a JSON list, or the parser's complaint.
pub uninterp spec fn parsed_script(sql: Seq<char>) -> Result<Seq<char>, Seq<char>>;

/// `Parser::parse_sql` of the crate `sqlparser`, with its PostgreSQL dialect, and
/// `serde_json::to_string` of what it reads: the trees of the statements as JSON, or the complaint.
/// What it reads depends on the text alone.
#[verifier::external_body]
fn parse_script(sql: &str) -> (r: Result<String, String>)
    ensures
        answered(r) == parsed_script(sql@),
{
    match Parser::parse_sql(&PostgreSqlDialect {}, sql) {
        Err(e) => Err(e.to_string()),
        Ok(v) => serde_json::to_string(&v).map_err(|e| e.to_string()),
    }
}

/// The SQL text of the statement whose tree is given; nothing where it is no such tree.
pub uninterp spec fn printed_statement(json: Seq<char>) -> Option<Seq<char>>;

/// `Deserialize` and `Display` of `Statement` of the crate `sqlparser`: the statement whose tree is
/// given, as SQL.
/// What `Display` would panic on is not handed over.
#[verifier::external_body]
fn print_statement(json: &str) -> (r: Option<String>)
    requires
        printable_text(json@),
    ensures
        opt_text(r) == printed_statement(json@),
{
    let mut reader = serde_json::Deserializer::from_str(json);
    reader.disable_recursion_limit();
    Statement::deserialize(&mut reader).ok().map(|s| s.to_string())
}

/// The SQL text of the expression whose tree is given; nothing where it is no such tree.
pub uninterp spec fn printed_expr(json: Seq<char>) -> Option<Seq<char>>;

/// `Deserialize` and `Display` of `Expr` of the crate `sqlparser`: the expression whose tree is
/// given, as SQL.
/// What `Display` would panic on is not handed over.
#[verifier::external_body]
fn print_expr(json: &str) -> (r: Option<String>)
    requires
        printable_text(json@),
    ensures
        opt_text(r) == printed_expr(json@),
{
    let mut reader = serde_json::Deserializer::from_str(json);
    reader.disable_recursion_limit();
    Expr::deserialize(&mut reader).ok().map(|e| e.to_string())
}

/// The SQL text of the name whose tree is given; nothing where it is no such tree.
pub uninterp spec fn printed_name(json: Seq<char>) -> Option<Seq<char>>;

/// `Deserialize` and `Display` of `ObjectName` of the crate `sqlparser`: the name whose tree is
/// given, as SQL.
/// What `Display` would panic on is not handed over.
#[verifier::external_body]
fn print_name(json: &str) -> (r: Option<String>)
    requires
        printable_text(json@),
    ensures
        opt_text(r) == printed_name(json@),
{
    serde_json::from_str::<ObjectName>(json).ok().map(|n| n.to_string())
}

/// The SQL text of the data type whose tree is given; nothing where it is no such tree.
pub uninterp spec fn printed_data_type(json: Seq<char>) -> Option<Seq<char>>;

/// `Deserialize` and `Display` of `DataType` of the crate `sqlparser`: the data type whose tree is
/// given, as SQL.
/// What `Display` would panic on is not handed over.
#[verifier::external_body]
fn print_data_type(json: &str) -> (r: Option<String>)
    requires
        printable_text(json@),
    ensures
        opt_text(r) == printed_data_type(json@),
{
    let mut reader = serde_json::Deserializer::from_str(json);
    reader.disable_recursion_limit();
    DataType::deserialize(&mut reader).ok().map(|t| t.to_string())
}

/// The SQL text of the relation whose tree is given; nothing where it is no such tree.
pub uninterp spec fn printed_relation(json: Seq<char>) -> Option<Seq<char>>;

/// `Deserialize` and `Display` of `TableFactor` of the crate `sqlparser`: the relation whose tree is
/// given, as SQL.
/// What `Display` would panic on is not handed over.
#[verifier::external_body]
fn print_relation(json: &str) -> (r: Option<String>)
    requires
        printable_text(json@),
    ensures
        opt_text(r) == printed_relation(json@),
{
    let mut reader = serde_json::Deserializer::from_str(json);
    reader.disable_recursion_limit();
    TableFactor::deserialize(&mut reader).ok().map(|t| t.to_string())
}

/// The SQL text of the operation of an `ALTER TABLE` whose tree is given; nothing where it is no
/// such tree.
pub uninterp spec fn printed_operation(json: Seq<char>) -> Option<Seq<char>>;

/// `Deserialize` and `Display` of `AlterTableOperation` of the crate `sqlparser`: the operation
/// whose tree is given, as SQL.
/// What `Display` would panic on is not handed over.
#[verifier::external_body]
fn print_operation(json: &str) -> (r: Option<String>)
    requires
        printable_text(json@),
    ensures
        opt_text(r) == printed_operation(json@),
{
    let mut reader = serde_json::Deserializer::from_str(json);
    reader.disable_recursion_limit();
    AlterTableOperation::deserialize(&mut reader).ok().map(|o| o.to_string())
}

/// The text that a JSON text in its quotes stands for; nothing where it is no such text.
pub uninterp spec fn decoded_text(json: Seq<char>) -> Option<Seq<char>>;

/// `serde_json::from_str` for a `String`: the text that a JSON text in its quotes stands for.
#[verifier::external_body]
fn decode_text(json: &str) -> (r: Option<String>)
    ensures
        opt_text(r) == decoded_text(json@),
{
    serde_json::from_str::<String>(json).ok()
}

// ---------------------------------------------------------------------------
// Statements
// ---------------------------------------------------------------------------

/// The trees in a JSON list; none in anything else.
pub open spec fn trees_in(json: Seq<char>) -> Seq<JsonView> {
    match json_of(json) {
        Some(JsonView::List(xs)) => xs,
        _ => Seq::empty(),
    }
}

/// The trees of the statements of a text, or the parser's complaint.
pub open spec fn script(sql: Seq<char>) -> Result<Seq<JsonView>, Seq<char>> {
    match parsed_script(sql) {
        Err(e) => Err(e),
        Ok(json) => Ok(trees_in(json)),
    }
}

/// The tree of the first statement of a text; nothing where there is none, or the text cannot be
/// parsed.
pub open spec fn first_tree(sql: Seq<char>) -> Option<JsonView> {
    match script(sql) {
        Ok(xs) => if xs.len() > 0 {
            Some(xs[0])
        } else {
            None
        },
        Err(_) => None,
    }
}

/// What is known of a list of trees, by place.
pub open spec fn lists(v: Seq<Json>, xs: Seq<JsonView>) -> bool {
    &&& v.len() == xs.len()
    &&& forall|i: int| 0 <= i < v.len() ==> #[trigger] xs[i] == json_view(v[i])
}

/// The trees of the statements of a text, or the parser's complaint.
pub(crate) fn read_script(sql: &str) -> (r: Result<Vec<Json>, String>)
    ensures
        match r {
            Ok(v) => script(sql@) is Ok && lists(v@, script(sql@)->Ok_0),
            Err(e) => script(sql@) == Err::<Seq<JsonView>, Seq<char>>(e@),
        },
{
    match parse_script(sql) {
        Err(e) => Err(e),
        Ok(json) => match parse_json(&json) {
            Some(Json::List(v)) => {
                proof {
                    lemma_list_view(v@, v@.len());
                }
                Ok(v)
            },
            _ => Ok(Vec::new()),
        },
    }
}

/// The tree of the first statement of a text; nothing where there is none, or the text cannot be
/// parsed.
pub(crate) fn read_first(sql: &str) -> (r: Option<Json>)
    ensures
        match r {
            Some(j) => first_tree(sql@) == Some(j@),
            None => first_tree(sql@) is None,
        },
{
    match read_script(sql) {
        Err(_) => None,
        Ok(v) => {
            let mut v = v;
            if v.len() == 0 {
                return None;
            }
            assert(script(sql@)->Ok_0[0] == json_view(v@[0]));
            Some(v.remove(0))
        },
    }
}

// ---------------------------------------------------------------------------
// Parts of a tree
// ---------------------------------------------------------------------------

/// How a part of a tree is turned into a text.
#[derive(Clone, Copy, PartialEq, Eq, Structural)]
pub enum Printer {
    Statement,
    /// A query, which is printed as a statement of its own.
    Query,
    Expr,
    Name,
    DataType,
    Relation,
    Operation,
    /// A JSON text.
    Text,
    /// An identifier with its quotes, which is printed as a name of one part.
    Ident,
    /// An identifier without its quotes.
    Bare,
    /// The expression of a column of an index.
    IndexColumn,
    /// The first relation of a table with its joins.
    Table,
    /// The name of an alias, without its quotes.
    Alias,
}

/// An identifier without its quotes.
pub open spec fn bare_ident(j: JsonView) -> Option<Seq<char>> {
    match member_of(j, "value"@) {
        Some(v) => decoded_text(json_text(v)),
        None => None,
    }
}

/// The SQL text of a statement, given the text of its tree; nothing where that cannot be printed.
pub open spec fn statement_text(json: Seq<char>) -> Option<Seq<char>> {
    if printable_text(json) {
        printed_statement(json)
    } else {
        None
    }
}

/// The SQL text of an expression, given the text of its tree; nothing where that cannot be printed.
pub open spec fn expr_text(json: Seq<char>) -> Option<Seq<char>> {
    if printable_text(json) {
        printed_expr(json)
    } else {
        None
    }
}

/// The SQL text of a name, given the text of its tree; nothing where that cannot be printed.
pub open spec fn name_text(json: Seq<char>) -> Option<Seq<char>> {
    if printable_text(json) {
        printed_name(json)
    } else {
        None
    }
}

/// The SQL text of a data type, given the text of its tree; nothing where that cannot be printed.
pub open spec fn data_type_text(json: Seq<char>) -> Option<Seq<char>> {
    if printable_text(json) {
        printed_data_type(json)
    } else {
        None
    }
}

/// The SQL text of a relation, given the text of its tree; nothing where that cannot be printed.
pub open spec fn relation_text(json: Seq<char>) -> Option<Seq<char>> {
    if printable_text(json) {
        printed_relation(json)
    } else {
        None
    }
}

/// The SQL text of an operation of an `ALTER TABLE`, given the text of its tree; nothing where that
/// cannot be printed.
pub open spec fn operation_text(json: Seq<char>) -> Option<Seq<char>> {
    if printable_text(json) {
        printed_operation(json)
    } else {
        None
    }
}

/// A part of a tree as text.
pub open spec fn printed(p: Printer, j: JsonView) -> Option<Seq<char>> {
    match p {
        Printer::Statement => statement_text(json_text(j)),
        Printer::Query => statement_text("{\"Query\":"@ + json_text(j) + "}"@),
        Printer::Expr => expr_text(json_text(j)),
        Printer::Name => name_text(json_text(j)),
        Printer::DataType => data_type_text(json_text(j)),
        Printer::Relation => relation_text(json_text(j)),
        Printer::Operation => operation_text(json_text(j)),
        Printer::Text => decoded_text(json_text(j)),
        Printer::Ident => name_text("[{\"Identifier\":"@ + json_text(j) + "}]"@),
        Printer::Bare => bare_ident(j),
        Printer::IndexColumn => match member_of(j, "column"@) {
            Some(c) => match member_of(c, "expr"@) {
                Some(e) => expr_text(json_text(e)),
                None => None,
            },
            None => None,
        },
        Printer::Table => match member_of(j, "relation"@) {
            Some(t) => relation_text(json_text(t)),
            None => None,
        },
        Printer::Alias => match member_of(j, "name"@) {
            Some(n) => bare_ident(n),
            None => None,
        },
    }
}

fn text_of_json(j: &Json) -> (r: String)
    ensures
        r@ == json_text(j@),
{
    let mut out = String::new();
    push_json(&mut out, j);
    assert(out@ =~= json_text(j@));
    out
}

fn print_bare(j: &Json) -> (r: Option<String>)
    ensures
        opt_text(r) == bare_ident(j@),
{
    match find_member(j, "value") {
        Some(v) => decode_text(&text_of_json(v)),
        None => None,
    }
}

/// The SQL text of a statement, given the text of its tree.
pub(crate) fn show_statement(json: &str) -> (r: Option<String>)
    ensures
        opt_text(r) == statement_text(json@),
{
    if can_print(json) {
        print_statement(json)
    } else {
        None
    }
}

fn show_expr(json: &str) -> (r: Option<String>)
    ensures
        opt_text(r) == expr_text(json@),
{
    if can_print(json) {
        print_expr(json)
    } else {
        None
    }
}

fn show_name(json: &str) -> (r: Option<String>)
    ensures
        opt_text(r) == name_text(json@),
{
    if can_print(json) {
        print_name(json)
    } else {
        None
    }
}

fn show_data_type(json: &str) -> (r: Option<String>)
    ensures
        opt_text(r) == data_type_text(json@),
{
    if can_print(json) {
        print_data_type(json)
    } else {
        None
    }
}

fn show_relation(json: &str) -> (r: Option<String>)
    ensures
        opt_text(r) == relation_text(json@),
{
    if can_print(json) {
        print_relation(json)
    } else {
        None
    }
}

fn show_operation(json: &str) -> (r: Option<String>)
    ensures
        opt_text(r) == operation_text(json@),
{
    if can_print(json) {
        print_operation(json)
    } else {
        None
    }
}

/// A part of a tree as text.
pub(crate) fn print_as(p: Printer, j: &Json) -> (r: Option<String>)
    ensures
        opt_text(r) == printed(p, j@),
{
    match p {
        Printer::Statement => show_statement(&text_of_json(j)),
        Printer::Query => show_statement(
            &crate::text::concat3("{\"Query\":", &text_of_json(j), "}"),
        ),
        Printer::Expr => show_expr(&text_of_json(j)),
        Printer::Name => show_name(&text_of_json(j)),
        Printer::DataType => show_data_type(&text_of_json(j)),
        Printer::Relation => show_relation(&text_of_json(j)),
        Printer::Operation => show_operation(&text_of_json(j)),
        Printer::Text => decode_text(&text_of_json(j)),
        Printer::Ident => show_name(
            &crate::text::concat3("[{\"Identifier\":", &text_of_json(j), "}]"),
        ),
        Printer::Bare => print_bare(j),
        Printer::IndexColumn => match find_member(j, "column") {
            Some(c) => match find_member(c, "expr") {
                Some(e) => show_expr(&text_of_json(e)),
                None => None,
            },
            None => None,
        },
        Printer::Table => match find_member(j, "relation") {
            Some(t) => show_relation(&text_of_json(t)),
            None => None,
        },
        Printer::Alias => match find_member(j, "name") {
            Some(n) => print_bare(n),
            None => None,
        },
    }
}

/// The part under a key, as text.
pub open spec fn printed_at(p: Printer, j: JsonView, key: Seq<char>) -> Option<Seq<char>> {
    match member_of(j, key) {
        Some(v) => printed(p, v),
        None => None,
    }
}

/// The part under a key, as text.
pub(crate) fn print_at(p: Printer, j: &Json, key: &str) -> (r: Option<String>)
    ensures
        opt_text(r) == printed_at(p, j@, key@),
{
    match find_member(j, key) {
        Some(v) => print_as(p, v),
        None => None,
    }
}

/// The part under a key as text, where there may be nothing; nothing at all where the key is not
/// there, or what is there cannot be printed.
pub open spec fn optional_at(p: Printer, j: JsonView, key: Seq<char>) -> Option<
    Option<Seq<char>>,
> {
    match member_of(j, key) {
        None => None,
        Some(v) => if is_nothing(v) {
            Some(None)
        } else {
            match printed(p, v) {
                Some(t) => Some(Some(t)),
                None => None,
            }
        },
    }
}

/// The part under a key as text, where there may be nothing.
pub(crate) fn print_optional(p: Printer, j: &Json, key: &str) -> (r: Option<Option<String>>)
    ensures
        match r {
            Some(t) => optional_at(p, j@, key@) == Some(opt_text(t)),
            None => optional_at(p, j@, key@) is None,
        },
{
    match find_member(j, key) {
        None => None,
        Some(v) => if stands_for_nothing(v) {
            Some(None)
        } else {
            match print_as(p, v) {
                Some(t) => Some(Some(t)),
                None => None,
            }
        },
    }
}

/// The truth value under a key.
pub open spec fn flag_at(j: JsonView, key: Seq<char>) -> Option<bool> {
    match member_of(j, key) {
        Some(JsonView::Atom(t)) => if t == "true"@ {
            Some(true)
        } else if t == "false"@ {
            Some(false)
        } else {
            None
        },
        _ => None,
    }
}

/// The truth value under a key.
pub(crate) fn read_flag(j: &Json, key: &str) -> (r: Option<bool>)
    ensures
        r == flag_at(j@, key@),
{
    match find_member(j, key) {
        Some(Json::Atom(t)) => if same(t, "true") {
            Some(true)
        } else if same(t, "false") {
            Some(false)
        } else {
            None
        },
        _ => None,
    }
}

/// The list under a key.
pub open spec fn list_at(j: JsonView, key: Seq<char>) -> Option<Seq<JsonView>> {
    match member_of(j, key) {
        Some(JsonView::List(xs)) => Some(xs),
        _ => None,
    }
}

/// The list under a key.
pub(crate) fn find_list<'a>(j: &'a Json, key: &str) -> (r: Option<&'a Vec<Json>>)
    ensures
        match r {
            Some(v) => list_at(j@, key@) is Some && lists(v@, list_at(j@, key@)->0),
            None => list_at(j@, key@) is None,
        },
{
    match find_member(j, key) {
        Some(Json::List(v)) => {
            proof {
                lemma_list_view(v@, v@.len());
            }
            Some(v)
        },
        _ => None,
    }
}

/// The first `n` parts of a list as texts; nothing where one cannot be printed.
pub open spec fn printed_list(p: Printer, xs: Seq<JsonView>, n: nat) -> Option<Seq<Seq<char>>>
    decreases n,
{
    if n == 0 || n > xs.len() {
        Some(Seq::empty())
    } else {
        match (printed_list(p, xs, (n - 1) as nat), printed(p, xs[n - 1])) {
            (Some(rest), Some(t)) => Some(rest.push(t)),
            _ => None,
        }
    }
}

proof fn lemma_unprinted(p: Printer, xs: Seq<JsonView>, i: nat, n: nat)
    requires
        i <= n <= xs.len(),
        printed_list(p, xs, i) is None,
    ensures
        printed_list(p, xs, n) is None,
    decreases n,
{
    if i < n {
        lemma_unprinted(p, xs, i, (n - 1) as nat);
    }
}

/// The parts of a list as texts.
pub(crate) fn print_list(p: Printer, v: &Vec<Json>, Ghost(xs): Ghost<Seq<JsonView>>) -> (r: Option<
    Vec<String>,
>)
    requires
        lists(v@, xs),
    ensures
        match r {
            Some(out) => printed_list(p, xs, xs.len()) == Some(texts(out@)),
            None => printed_list(p, xs, xs.len()) is None,
        },
{
    let mut out: Vec<String> = Vec::new();
    let mut i: usize = 0;
    assert(texts(out@) =~= Seq::<Seq<char>>::empty());
    while i < v.len()
        invariant
            i <= v@.len(),
            lists(v@, xs),
            printed_list(p, xs, i as nat) == Some(texts(out@)),
        decreases v@.len() - i,
    {
        assert(xs[i as int] == json_view(v@[i as int]));
        match print_as(p, &v[i]) {
            Some(t) => {
                let ghost done = out@;
                let ghost tv = t@;
                out.push(t);
                assert(texts(out@) =~= texts(done).push(tv));
            },
            None => {
                proof {
                    lemma_unprinted(p, xs, (i + 1) as nat, xs.len());
                }
                return None;
            },
        }
        i += 1;
    }
    Some(out)
}

/// The parts of the list under a key as texts.
pub open spec fn printed_list_at(p: Printer, j: JsonView, key: Seq<char>) -> Option<
    Seq<Seq<char>>,
> {
    match list_at(j, key) {
        Some(xs) => printed_list(p, xs, xs.len()),
        None => None,
    }
}

/// The parts of the list under a key as texts.
pub(crate) fn print_list_at(p: Printer, j: &Json, key: &str) -> (r: Option<Vec<String>>)
    ensures
        match r {
            Some(out) => printed_list_at(p, j@, key@) == Some(texts(out@)),
            None => printed_list_at(p, j@, key@) is None,
        },
{
    match find_list(j, key) {
        Some(v) => print_list(p, v, Ghost(list_at(j@, key@)->0)),
        None => None,
    }
}

/// Whether a part of a tree is the variant of a name: the name alone, or an object that has it.
pub open spec fn is_variant_of(j: JsonView, name: Seq<char>) -> bool {
    j == JsonView::Text(name) || member_of(j, name) is Some
}

/// Whether a part of a tree is the variant of a name.
pub(crate) fn is_named(j: &Json, name: &str) -> (r: bool)
    ensures
        r == is_variant_of(j@, name@),
{
    match j {
        Json::Text(t) => same(t, name),
        _ => find_member(j, name).is_some(),
    }
}

} // verus!
