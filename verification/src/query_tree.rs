//! Walks through the tree of a query: the tables that it reads, and differences of dates in it.
use vstd::prelude::*;
use vstd::string::*;

use crate::catalog::{lookup, Catalog, CatalogState};
use crate::json::{
    find_member, items_text, json_text, json_view, key_text, lemma_list_view, lemma_members_view,
    list_view, member_of, members_text, members_view, push_json, push_key, Json, JsonView,
    MemberView,
};
use crate::text::{
    contains, contains_seq, opt_text, same, texts, trim_matches, trim_matches_text,
};
use crate::tree::{
    first_tree, print_as, printed, read_first, show_statement, statement_text, Printer,
};

verus! {

// ---------------------------------------------------------------------------
// Printing a tree
// ---------------------------------------------------------------------------

/// A part of a query's tree.
#[derive(Clone, Copy, PartialEq, Eq, Structural)]
pub enum Part {
    Statement,
    Explain,
    Explained,
    Query,
    With,
    Cte,
    Body,
    SetOperation,
    Select,
    Item,
    Aliased,
    Expr,
    Inner,
    Binary,
    Case,
    When,
    Between,
    Function,
    Args,
    ArgList,
    Arg,
    NamedArg,
    ArgExpr,
}

/// Which part stands under a key, as far as the items of a `SELECT` can be reached through it:
/// queries in queries, the two sides of a set operation, and the operands of expressions.
pub open spec fn item_part(p: Part, key: Seq<char>) -> Option<Part> {
    match p {
        Part::Statement => if key == "Query"@ {
            Some(Part::Query)
        } else if key == "Explain"@ {
            Some(Part::Explain)
        } else {
            None
        },
        Part::Explain => if key == "statement"@ {
            Some(Part::Explained)
        } else {
            None
        },
        Part::Explained => if key == "Query"@ {
            Some(Part::Query)
        } else {
            None
        },
        Part::Query => if key == "with"@ {
            Some(Part::With)
        } else if key == "body"@ {
            Some(Part::Body)
        } else {
            None
        },
        Part::With => if key == "cte_tables"@ {
            Some(Part::Cte)
        } else {
            None
        },
        Part::Cte => if key == "query"@ {
            Some(Part::Query)
        } else {
            None
        },
        Part::Body => if key == "Select"@ {
            Some(Part::Select)
        } else if key == "Query"@ {
            Some(Part::Query)
        } else if key == "SetOperation"@ {
            Some(Part::SetOperation)
        } else {
            None
        },
        Part::SetOperation => if key == "left"@ || key == "right"@ {
            Some(Part::Body)
        } else {
            None
        },
        Part::Select => if key == "projection"@ {
            Some(Part::Item)
        } else {
            None
        },
        Part::Item => if key == "UnnamedExpr"@ {
            Some(Part::Expr)
        } else if key == "ExprWithAlias"@ {
            Some(Part::Aliased)
        } else {
            None
        },
        Part::Aliased => if key == "expr"@ {
            Some(Part::Expr)
        } else {
            None
        },
        Part::Expr => if key == "Nested"@ {
            Some(Part::Expr)
        } else if key == "UnaryOp"@ || key == "Cast"@ {
            Some(Part::Inner)
        } else if key == "BinaryOp"@ {
            Some(Part::Binary)
        } else if key == "Case"@ {
            Some(Part::Case)
        } else if key == "Between"@ {
            Some(Part::Between)
        } else if key == "Function"@ {
            Some(Part::Function)
        } else if key == "Subquery"@ {
            Some(Part::Query)
        } else {
            None
        },
        Part::Inner => if key == "expr"@ {
            Some(Part::Expr)
        } else {
            None
        },
        Part::Binary => if key == "left"@ || key == "right"@ {
            Some(Part::Expr)
        } else {
            None
        },
        Part::Case => if key == "operand"@ || key == "else_result"@ {
            Some(Part::Expr)
        } else if key == "conditions"@ {
            Some(Part::When)
        } else {
            None
        },
        Part::When => if key == "condition"@ || key == "result"@ {
            Some(Part::Expr)
        } else {
            None
        },
        Part::Between => if key == "expr"@ || key == "low"@ || key == "high"@ {
            Some(Part::Expr)
        } else {
            None
        },
        Part::Function => if key == "args"@ {
            Some(Part::Args)
        } else {
            None
        },
        Part::Args => if key == "List"@ {
            Some(Part::ArgList)
        } else {
            None
        },
        Part::ArgList => if key == "args"@ {
            Some(Part::Arg)
        } else {
            None
        },
        Part::Arg => if key == "Unnamed"@ {
            Some(Part::ArgExpr)
        } else if key == "Named"@ {
            Some(Part::NamedArg)
        } else {
            None
        },
        Part::NamedArg => if key == "arg"@ {
            Some(Part::ArgExpr)
        } else {
            None
        },
        Part::ArgExpr => if key == "Expr"@ {
            Some(Part::Expr)
        } else {
            None
        },
    }
}

fn part_under(p: Part, key: &str) -> (r: Option<Part>)
    ensures
        r == item_part(p, key@),
{
    match p {
        Part::Statement => if same(key, "Query") {
            Some(Part::Query)
        } else if same(key, "Explain") {
            Some(Part::Explain)
        } else {
            None
        },
        Part::Explain => only(key, "statement", Part::Explained),
        Part::Explained => only(key, "Query", Part::Query),
        Part::Query => if same(key, "with") {
            Some(Part::With)
        } else {
            only(key, "body", Part::Body)
        },
        Part::With => only(key, "cte_tables", Part::Cte),
        Part::Cte => only(key, "query", Part::Query),
        Part::Body => if same(key, "Select") {
            Some(Part::Select)
        } else if same(key, "Query") {
            Some(Part::Query)
        } else {
            only(key, "SetOperation", Part::SetOperation)
        },
        Part::SetOperation => if same(key, "left") {
            Some(Part::Body)
        } else {
            only(key, "right", Part::Body)
        },
        Part::Select => only(key, "projection", Part::Item),
        Part::Item => if same(key, "UnnamedExpr") {
            Some(Part::Expr)
        } else {
            only(key, "ExprWithAlias", Part::Aliased)
        },
        Part::Aliased => only(key, "expr", Part::Expr),
        Part::Expr => if same(key, "Nested") {
            Some(Part::Expr)
        } else if same(key, "UnaryOp") || same(key, "Cast") {
            Some(Part::Inner)
        } else if same(key, "BinaryOp") {
            Some(Part::Binary)
        } else if same(key, "Case") {
            Some(Part::Case)
        } else if same(key, "Between") {
            Some(Part::Between)
        } else if same(key, "Function") {
            Some(Part::Function)
        } else {
            only(key, "Subquery", Part::Query)
        },
        Part::Inner => only(key, "expr", Part::Expr),
        Part::Binary => if same(key, "left") {
            Some(Part::Expr)
        } else {
            only(key, "right", Part::Expr)
        },
        Part::Case => if same(key, "operand") || same(key, "else_result") {
            Some(Part::Expr)
        } else {
            only(key, "conditions", Part::When)
        },
        Part::When => if same(key, "condition") {
            Some(Part::Expr)
        } else {
            only(key, "result", Part::Expr)
        },
        Part::Between => if same(key, "expr") || same(key, "low") {
            Some(Part::Expr)
        } else {
            only(key, "high", Part::Expr)
        },
        Part::Function => only(key, "args", Part::Args),
        Part::Args => only(key, "List", Part::ArgList),
        Part::ArgList => only(key, "args", Part::Arg),
        Part::Arg => if same(key, "Unnamed") {
            Some(Part::ArgExpr)
        } else {
            only(key, "Named", Part::NamedArg)
        },
        Part::NamedArg => only(key, "arg", Part::ArgExpr),
        Part::ArgExpr => only(key, "Expr", Part::Expr),
    }
}

fn only(key: &str, wanted: &str, p: Part) -> (r: Option<Part>)
    ensures
        r == if key@ == wanted@ {
            Some(p)
        } else {
            None
        },
{
    if same(key, wanted) {
        Some(p)
    } else {
        None
    }
}

/// Whether a tree is a subtraction.
pub open spec fn is_subtraction(j: JsonView) -> bool {
    match member_of(j, "BinaryOp"@) {
        Some(b) => member_of(b, "op"@) == Some(JsonView::Text("Minus"@)),
        None => false,
    }
}

fn subtracts(j: &Json) -> (r: bool)
    ensures
        r == is_subtraction(j@),
{
    match find_member(j, "BinaryOp") {
        None => false,
        Some(b) => match find_member(b, "op") {
            Some(Json::Text(t)) => same(t, "Minus"),
            _ => false,
        },
    }
}

/// What stands in front of the difference in the tree of
/// `CAST((date_part('epoch', (a - b)) / 86400) AS BIGINT)`.
pub open spec fn days_head() -> Seq<char> {
    "{\"Cast\":{\"kind\":\"Cast\",\"expr\":{\"Nested\":{\"BinaryOp\":{\"left\":{\"Function\":{\"name\":[{\"Identifier\":{\"value\":\"date_part\",\"quote_style\":null,\"span\":{\"start\":{\"line\":0,\"column\":0},\"end\":{\"line\":0,\"column\":0}}}}],\"uses_odbc_syntax\":false,\"parameters\":\"None\",\"args\":{\"List\":{\"duplicate_treatment\":null,\"args\":[{\"Unnamed\":{\"Expr\":{\"Value\":{\"value\":{\"SingleQuotedString\":\"epoch\"},\"span\":{\"start\":{\"line\":0,\"column\":0},\"end\":{\"line\":0,\"column\":0}}}}}},{\"Unnamed\":{\"Expr\":{\"Nested\":"@
}

/// What stands behind the difference.
pub open spec fn days_tail() -> Seq<char> {
    "}}}],\"clauses\":[]}},\"filter\":null,\"null_treatment\":null,\"over\":null,\"within_group\":[]}},\"op\":\"Divide\",\"right\":{\"Value\":{\"value\":{\"Number\":[\"86400\",false]},\"span\":{\"start\":{\"line\":0,\"column\":0},\"end\":{\"line\":0,\"column\":0}}}}}}},\"data_type\":{\"BigInt\":null},\"format\":null}}"@
}

/// A tree as JSON, with every subtraction that stands in an item of a `SELECT` turned into a number
/// of days. A subtraction is turned as a whole: what it subtracts is left as it is.
pub open spec fn in_days(p: Option<Part>, j: JsonView) -> Seq<char>
    decreases j, 0nat,
{
    match p {
        None => json_text(j),
        Some(part) => match j {
            JsonView::Atom(t) => json_text(j),
            JsonView::Text(t) => json_text(j),
            JsonView::List(xs) => seq!['['] + items_in_days(part, xs, xs.len()) + seq![']'],
            JsonView::Object(ms) => if part == Part::Expr && is_subtraction(j) {
                days_head() + json_text(j) + days_tail()
            } else {
                seq!['{'] + members_in_days(part, ms, ms.len()) + seq!['}']
            },
        },
    }
}

/// The first `n` values of a list, with commas between them.
pub open spec fn items_in_days(p: Part, xs: Seq<JsonView>, n: nat) -> Seq<char>
    decreases xs, n,
{
    if n == 0 || n > xs.len() {
        Seq::empty()
    } else if n == 1 {
        in_days(Some(p), xs[0])
    } else {
        items_in_days(p, xs, (n - 1) as nat) + seq![','] + in_days(Some(p), xs[n - 1])
    }
}

/// The first `n` members of an object, with commas between them.
pub open spec fn members_in_days(p: Part, ms: Seq<MemberView>, n: nat) -> Seq<char>
    decreases ms, n,
{
    if n == 0 || n > ms.len() {
        Seq::empty()
    } else if n == 1 {
        key_text(ms[0].key) + in_days(item_part(p, ms[0].key), ms[0].value)
    } else {
        members_in_days(p, ms, (n - 1) as nat) + seq![','] + key_text(ms[n - 1].key) + in_days(
            item_part(p, ms[n - 1].key),
            ms[n - 1].value,
        )
    }
}

/// Puts a tree behind a text, as JSON, with subtractions turned into numbers of days.
fn push_in_days(out: &mut String, p: Option<Part>, j: &Json)
    ensures
        final(out)@ == old(out)@ + in_days(p, j@),
    decreases j,
{
    let ghost start = out@;
    let part = match p {
        None => {
            push_json(out, j);
            return;
        },
        Some(part) => part,
    };
    match j {
        Json::Atom(t) => {
            push_json(out, j);
        },
        Json::Text(t) => {
            push_json(out, j);
        },
        Json::List(v) => {
            let ghost xs = list_view(v@, v@.len());
            proof {
                lemma_list_view(v@, v@.len());
            }
            out.push('[');
            let ghost head = out@;
            let mut i: usize = 0;
            assert(out@ =~= head + items_in_days(part, xs, 0));
            while i < v.len()
                invariant
                    i <= v@.len(),
                    *j == Json::List(*v),
                    xs.len() == v@.len(),
                    forall|k: int| 0 <= k < v@.len() ==> #[trigger] xs[k] == json_view(v@[k]),
                    out@ == head + items_in_days(part, xs, i as nat),
                decreases v@.len() - i,
            {
                if i > 0 {
                    out.push(',');
                }
                assert(xs[i as int] == json_view(v@[i as int]));
                assert(decreases_to!(j => j->List_0));
                assert(decreases_to!(v => v@[i as int]));
                push_in_days(out, Some(part), &v[i]);
                i += 1;
                assert(out@ =~= head + items_in_days(part, xs, i as nat));
            }
            out.push(']');
            assert(out@ =~= start + in_days(p, j@));
        },
        Json::Object(v) => {
            let minus: bool = match part {
                Part::Expr => subtracts(j),
                _ => false,
            };
            if minus {
                out.append(
                    "{\"Cast\":{\"kind\":\"Cast\",\"expr\":{\"Nested\":{\"BinaryOp\":{\"left\":{\"Function\":{\"name\":[{\"Identifier\":{\"value\":\"date_part\",\"quote_style\":null,\"span\":{\"start\":{\"line\":0,\"column\":0},\"end\":{\"line\":0,\"column\":0}}}}],\"uses_odbc_syntax\":false,\"parameters\":\"None\",\"args\":{\"List\":{\"duplicate_treatment\":null,\"args\":[{\"Unnamed\":{\"Expr\":{\"Value\":{\"value\":{\"SingleQuotedString\":\"epoch\"},\"span\":{\"start\":{\"line\":0,\"column\":0},\"end\":{\"line\":0,\"column\":0}}}}}},{\"Unnamed\":{\"Expr\":{\"Nested\":",
                );
                push_json(out, j);
                out.append(
                    "}}}],\"clauses\":[]}},\"filter\":null,\"null_treatment\":null,\"over\":null,\"within_group\":[]}},\"op\":\"Divide\",\"right\":{\"Value\":{\"value\":{\"Number\":[\"86400\",false]},\"span\":{\"start\":{\"line\":0,\"column\":0},\"end\":{\"line\":0,\"column\":0}}}}}}},\"data_type\":{\"BigInt\":null},\"format\":null}}",
                );
                assert(out@ =~= start + in_days(p, j@));
                return;
            }
            let ghost ms = members_view(v@, v@.len());
            proof {
                lemma_members_view(v@, v@.len());
            }
            out.push('{');
            let ghost head = out@;
            let mut i: usize = 0;
            assert(out@ =~= head + members_in_days(part, ms, 0));
            while i < v.len()
                invariant
                    i <= v@.len(),
                    *j == Json::Object(*v),
                    ms.len() == v@.len(),
                    forall|k: int|
                        0 <= k < v@.len() ==> (#[trigger] ms[k]).key == v@[k].key@ && ms[k].value
                            == json_view(v@[k].value),
                    out@ == head + members_in_days(part, ms, i as nat),
                decreases v@.len() - i,
            {
                if i > 0 {
                    out.push(',');
                }
                assert(ms[i as int].key == v@[i as int].key@);
                push_key(out, &v[i].key);
                let under = part_under(part, &v[i].key);
                assert(decreases_to!(j => j->Object_0));
                assert(decreases_to!(v => v@[i as int]));
                assert(decreases_to!(v@[i as int] => v@[i as int].value));
                push_in_days(out, under, &v[i].value);
                i += 1;
                assert(out@ =~= head + members_in_days(part, ms, i as nat));
            }
            out.push('}');
            assert(out@ =~= start + in_days(p, j@));
        },
    }
}

/// The tree of a query, or of an `EXPLAIN`, with subtractions turned into numbers of days; nothing
/// for another statement.
pub open spec fn tree_in_days(j: JsonView) -> Option<Seq<char>> {
    if member_of(j, "Query"@) is Some || member_of(j, "Explain"@) is Some {
        Some(in_days(Some(Part::Statement), j))
    } else {
        None
    }
}

/// The tree of a query, or of an `EXPLAIN`, with subtractions turned into numbers of days; nothing
/// for another statement.
pub fn rewrite_tree(j: &Json) -> (r: Option<String>)
    ensures
        opt_text(r) == tree_in_days(j@),
{
    if find_member(j, "Query").is_none() && find_member(j, "Explain").is_none() {
        return None;
    }
    let mut out = String::new();
    push_in_days(&mut out, Some(Part::Statement), j);
    assert(out@ =~= in_days(Some(Part::Statement), j@));
    Some(out)
}

/// A query with the differences in its `SELECT` items turned into numbers of days.
pub open spec fn query_in_days(sql: Seq<char>) -> Option<Seq<char>> {
    match first_tree(sql) {
        None => None,
        Some(j) => match tree_in_days(j) {
            None => None,
            Some(t) => statement_text(t),
        },
    }
}

/// A query with the differences in its `SELECT` items turned into numbers of days, for a query
/// engine that gives a span of time for the difference of two dates. Nothing for another statement,
/// and for one that cannot be parsed. That the parser prints every tree that was made of one of its
/// own is left unsaid.
pub fn rewrite_date_subtraction_sql(sql: &str) -> (r: Option<String>)
    ensures
        opt_text(r) == query_in_days(sql@),
{
    match read_first(sql) {
        None => None,
        Some(j) => match rewrite_tree(&j) {
            None => None,
            Some(t) => show_statement(&t),
        },
    }
}

/// The query that is tried next, where the query engine has refused one: with numbers of days, if it
/// complained of spans of time.
pub fn retry_in_days(sql: &str, complaint: &str) -> (r: Option<String>)
    ensures
        opt_text(r) == if contains_seq(complaint@, "coerce types Duration"@) {
            query_in_days(sql@)
        } else {
            None
        },
{
    if contains(complaint, "coerce types Duration") {
        rewrite_date_subtraction_sql(sql)
    } else {
        None
    }
}

// ---------------------------------------------------------------------------
// Tables
// ---------------------------------------------------------------------------

/// A part of a query's tree through which tables are reached.
#[derive(Clone, Copy, PartialEq, Eq, Structural)]
pub enum Source {
    Statement,
    Explain,
    Explained,
    Query,
    Body,
    SetOperation,
    Select,
    Joined,
    Join,
    Factor,
    Table,
    Name,
    Derived,
    Nested,
    Changed,
}

/// Which part stands under a key, as far as the tables of a `FROM` clause can be reached through it.
pub open spec fn source_part(p: Source, key: Seq<char>) -> Option<Source> {
    match p {
        Source::Statement => if key == "Query"@ {
            Some(Source::Query)
        } else if key == "Explain"@ {
            Some(Source::Explain)
        } else {
            None
        },
        Source::Explain => if key == "statement"@ {
            Some(Source::Explained)
        } else {
            None
        },
        Source::Explained => if key == "Query"@ {
            Some(Source::Query)
        } else {
            None
        },
        Source::Query => if key == "body"@ {
            Some(Source::Body)
        } else {
            None
        },
        Source::Body => if key == "Select"@ {
            Some(Source::Select)
        } else if key == "Query"@ {
            Some(Source::Query)
        } else if key == "SetOperation"@ {
            Some(Source::SetOperation)
        } else {
            None
        },
        Source::SetOperation => if key == "left"@ || key == "right"@ {
            Some(Source::Body)
        } else {
            None
        },
        Source::Select => if key == "from"@ {
            Some(Source::Joined)
        } else {
            None
        },
        Source::Joined => if key == "relation"@ {
            Some(Source::Factor)
        } else if key == "joins"@ {
            Some(Source::Join)
        } else {
            None
        },
        Source::Join => if key == "relation"@ {
            Some(Source::Factor)
        } else {
            None
        },
        Source::Factor => if key == "Table"@ {
            Some(Source::Table)
        } else if key == "Derived"@ {
            Some(Source::Derived)
        } else if key == "NestedJoin"@ {
            Some(Source::Nested)
        } else if key == "Pivot"@ || key == "Unpivot"@ || key == "MatchRecognize"@ {
            Some(Source::Changed)
        } else {
            None
        },
        Source::Table => if key == "name"@ {
            Some(Source::Name)
        } else {
            None
        },
        Source::Name => None,
        Source::Derived => if key == "subquery"@ {
            Some(Source::Query)
        } else {
            None
        },
        Source::Nested => if key == "table_with_joins"@ {
            Some(Source::Joined)
        } else {
            None
        },
        Source::Changed => if key == "table"@ {
            Some(Source::Factor)
        } else {
            None
        },
    }
}

fn source_under(p: Source, key: &str) -> (r: Option<Source>)
    ensures
        r == source_part(p, key@),
{
    match p {
        Source::Statement => if same(key, "Query") {
            Some(Source::Query)
        } else if same(key, "Explain") {
            Some(Source::Explain)
        } else {
            None
        },
        Source::Explain => if same(key, "statement") {
            Some(Source::Explained)
        } else {
            None
        },
        Source::Explained => if same(key, "Query") {
            Some(Source::Query)
        } else {
            None
        },
        Source::Query => if same(key, "body") {
            Some(Source::Body)
        } else {
            None
        },
        Source::Body => if same(key, "Select") {
            Some(Source::Select)
        } else if same(key, "Query") {
            Some(Source::Query)
        } else if same(key, "SetOperation") {
            Some(Source::SetOperation)
        } else {
            None
        },
        Source::SetOperation => if same(key, "left") || same(key, "right") {
            Some(Source::Body)
        } else {
            None
        },
        Source::Select => if same(key, "from") {
            Some(Source::Joined)
        } else {
            None
        },
        Source::Joined => if same(key, "relation") {
            Some(Source::Factor)
        } else if same(key, "joins") {
            Some(Source::Join)
        } else {
            None
        },
        Source::Join => if same(key, "relation") {
            Some(Source::Factor)
        } else {
            None
        },
        Source::Factor => if same(key, "Table") {
            Some(Source::Table)
        } else if same(key, "Derived") {
            Some(Source::Derived)
        } else if same(key, "NestedJoin") {
            Some(Source::Nested)
        } else if same(key, "Pivot") || same(key, "Unpivot") || same(key, "MatchRecognize") {
            Some(Source::Changed)
        } else {
            None
        },
        Source::Table => if same(key, "name") {
            Some(Source::Name)
        } else {
            None
        },
        Source::Name => None,
        Source::Derived => if same(key, "subquery") {
            Some(Source::Query)
        } else {
            None
        },
        Source::Nested => if same(key, "table_with_joins") {
            Some(Source::Joined)
        } else {
            None
        },
        Source::Changed => if same(key, "table") {
            Some(Source::Factor)
        } else {
            None
        },
    }
}

/// The name of a table, without quotes around it.
pub open spec fn table_name(j: JsonView) -> Seq<Seq<char>> {
    match printed(Printer::Name, j) {
        Some(n) => seq![trim_matches_text(n, '"')],
        None => Seq::empty(),
    }
}

/// The names of the tables of a tree, in the order in which they stand in it.
pub open spec fn tables_in(p: Source, j: JsonView) -> Seq<Seq<char>>
    decreases j, 0nat,
{
    if p == Source::Name {
        table_name(j)
    } else {
        match j {
            JsonView::Atom(t) => Seq::empty(),
            JsonView::Text(t) => Seq::empty(),
            JsonView::List(xs) => tables_in_list(p, xs, xs.len()),
            JsonView::Object(ms) => tables_in_members(p, ms, ms.len()),
        }
    }
}

/// The names of the tables in the first `n` values of a list.
pub open spec fn tables_in_list(p: Source, xs: Seq<JsonView>, n: nat) -> Seq<Seq<char>>
    decreases xs, n,
{
    if n == 0 || n > xs.len() {
        Seq::empty()
    } else {
        tables_in_list(p, xs, (n - 1) as nat) + tables_in(p, xs[n - 1])
    }
}

/// The names of the tables in the first `n` members of an object.
pub open spec fn tables_in_members(p: Source, ms: Seq<MemberView>, n: nat) -> Seq<Seq<char>>
    decreases ms, n,
{
    if n == 0 || n > ms.len() {
        Seq::empty()
    } else {
        tables_in_members(p, ms, (n - 1) as nat) + match source_part(p, ms[n - 1].key) {
            Some(q) => tables_in(q, ms[n - 1].value),
            None => Seq::empty(),
        }
    }
}

fn collect_tables(p: Source, j: &Json, out: &mut Vec<String>)
    ensures
        texts(final(out)@) == texts(old(out)@) + tables_in(p, j@),
    decreases j,
{
    let ghost start = texts(out@);
    if p == Source::Name {
        match print_as(Printer::Name, j) {
            Some(n) => {
                let ghost done = out@;
                let name = trim_matches(&n, '"');
                let ghost nv = name@;
                out.push(name);
                assert(texts(out@) =~= texts(done).push(nv));
                assert(texts(done).push(nv) =~= texts(done) + seq![nv]);
            },
            None => {
                assert(start + Seq::<Seq<char>>::empty() =~= start);
            },
        }
        return;
    }
    match j {
        Json::Atom(t) => {
            assert(start + Seq::<Seq<char>>::empty() =~= start);
        },
        Json::Text(t) => {
            assert(start + Seq::<Seq<char>>::empty() =~= start);
        },
        Json::List(v) => {
            let ghost xs = list_view(v@, v@.len());
            proof {
                lemma_list_view(v@, v@.len());
            }
            let mut i: usize = 0;
            assert(texts(out@) =~= start + tables_in_list(p, xs, 0));
            while i < v.len()
                invariant
                    i <= v@.len(),
                    p != Source::Name,
                    *j == Json::List(*v),
                    xs.len() == v@.len(),
                    forall|k: int| 0 <= k < v@.len() ==> #[trigger] xs[k] == json_view(v@[k]),
                    texts(out@) == start + tables_in_list(p, xs, i as nat),
                decreases v@.len() - i,
            {
                assert(xs[i as int] == json_view(v@[i as int]));
                assert(decreases_to!(j => j->List_0));
                assert(decreases_to!(v => v@[i as int]));
                collect_tables(p, &v[i], out);
                i += 1;
                assert(texts(out@) =~= start + tables_in_list(p, xs, i as nat));
            }
        },
        Json::Object(v) => {
            let ghost ms = members_view(v@, v@.len());
            proof {
                lemma_members_view(v@, v@.len());
            }
            let mut i: usize = 0;
            assert(texts(out@) =~= start + tables_in_members(p, ms, 0));
            while i < v.len()
                invariant
                    i <= v@.len(),
                    p != Source::Name,
                    *j == Json::Object(*v),
                    ms.len() == v@.len(),
                    forall|k: int|
                        0 <= k < v@.len() ==> (#[trigger] ms[k]).key == v@[k].key@ && ms[k].value
                            == json_view(v@[k].value),
                    texts(out@) == start + tables_in_members(p, ms, i as nat),
                decreases v@.len() - i,
            {
                assert(ms[i as int].key == v@[i as int].key@);
                if let Some(q) = source_under(p, &v[i].key) {
                    assert(decreases_to!(j => j->Object_0));
                    assert(decreases_to!(v => v@[i as int]));
                    assert(decreases_to!(v@[i as int] => v@[i as int].value));
                    collect_tables(q, &v[i].value, out);
                }
                i += 1;
                assert(texts(out@) =~= start + tables_in_members(p, ms, i as nat));
            }
        },
    }
}

/// The names of the tables that the `FROM` clauses of a tree read.
pub open spec fn tree_tables(j: JsonView) -> Seq<Seq<char>> {
    tables_in(Source::Statement, j)
}

/// The names of the tables that the `FROM` clauses of a tree read, in order.
pub fn find_tables(j: &Json) -> (r: Vec<String>)
    ensures
        texts(r@) == tree_tables(j@),
{
    let mut out: Vec<String> = Vec::new();
    assert(texts(out@) =~= Seq::<Seq<char>>::empty());
    collect_tables(Source::Statement, j, &mut out);
    assert(texts(out@) =~= tables_in(Source::Statement, j@));
    out
}

/// The names of the tables that the `FROM` clauses of a query read.
pub open spec fn query_tables(sql: Seq<char>) -> Seq<Seq<char>> {
    match first_tree(sql) {
        None => Seq::empty(),
        Some(j) => tree_tables(j),
    }
}

/// The names of the tables that the `FROM` clauses of a query read, in order; none for another
/// statement, and for one that cannot be parsed.
pub fn extract_table_names_from_readonly_sql(sql: &str) -> (r: Vec<String>)
    ensures
        texts(r@) == query_tables(sql@),
{
    match read_first(sql) {
        None => {
            let none: Vec<String> = Vec::new();
            assert(texts(none@) =~= Seq::<Seq<char>>::empty());
            none
        },
        Some(j) => find_tables(&j),
    }
}

/// Those of the first `n` tables that are partitioned.
pub open spec fn partitioned_among(state: CatalogState, names: Seq<Seq<char>>, n: nat) -> Seq<
    Seq<char>,
>
    decreases n,
{
    if n == 0 || n > names.len() {
        Seq::empty()
    } else {
        let rest = partitioned_among(state, names, (n - 1) as nat);
        match lookup(state.tables, names[n - 1]) {
            Some(meta) => if meta.partition_columns.len() > 0 {
                rest.push(names[n - 1])
            } else {
                rest
            },
            None => rest,
        }
    }
}

impl Catalog {
    /// The partitioned tables that a query reads.
    pub fn partitioned_tables_read(&self, sql: &str) -> (r: Vec<String>)
        requires
            self.wf(),
        ensures
            texts(r@) == partitioned_among(self@, query_tables(sql@), query_tables(sql@).len()),
    {
        let names = extract_table_names_from_readonly_sql(sql);
        let ghost all = texts(names@);
        let mut out: Vec<String> = Vec::new();
        let mut i: usize = 0;
        assert(texts(out@) =~= Seq::<Seq<char>>::empty());
        while i < names.len()
            invariant
                self.wf(),
                i <= names@.len(),
                all == texts(names@),
                all.len() == names@.len(),
                texts(out@) == partitioned_among(self@, all, i as nat),
            decreases names@.len() - i,
        {
            assert(all[i as int] == names@[i as int]@);
            if let Some(meta) = self.tables.lookup(&names[i]) {
                assert(meta@.partition_columns.len() == meta.partition_columns@.len());
                if meta.partition_columns.len() > 0 {
                    let ghost done = out@;
                    out.push(names[i].clone());
                    assert(texts(out@) =~= texts(done).push(all[i as int]));
                }
            }
            i += 1;
        }
        out
    }
}

// ---------------------------------------------------------------------------
// Laws
// ---------------------------------------------------------------------------

/// Whether no subtraction stands in an item of a `SELECT`.
pub open spec fn without_differences(p: Option<Part>, j: JsonView) -> bool
    decreases j, 0nat,
{
    match p {
        None => true,
        Some(part) => match j {
            JsonView::Atom(t) => true,
            JsonView::Text(t) => true,
            JsonView::List(xs) => items_without(part, xs, xs.len()),
            JsonView::Object(ms) => !(part == Part::Expr && is_subtraction(j)) && members_without(
                part,
                ms,
                ms.len(),
            ),
        },
    }
}

/// The same of the first `n` values of a list.
pub open spec fn items_without(p: Part, xs: Seq<JsonView>, n: nat) -> bool
    decreases xs, n,
{
    n == 0 || n > xs.len() || (without_differences(Some(p), xs[n - 1]) && items_without(
        p,
        xs,
        (n - 1) as nat,
    ))
}

/// The same of the first `n` members of an object.
pub open spec fn members_without(p: Part, ms: Seq<MemberView>, n: nat) -> bool
    decreases ms, n,
{
    n == 0 || n > ms.len() || (without_differences(item_part(p, ms[n - 1].key), ms[n - 1].value)
        && members_without(p, ms, (n - 1) as nat))
}

/// A tree in which no subtraction stands in an item of a `SELECT` is left as it is.
pub proof fn law_other_queries_stay(p: Option<Part>, j: JsonView)
    requires
        without_differences(p, j),
    ensures
        in_days(p, j) == json_text(j),
    decreases j, 0nat,
{
    if let Some(part) = p {
        match j {
            JsonView::List(xs) => {
                lemma_items_stay(part, xs, xs.len());
            },
            JsonView::Object(ms) => {
                lemma_members_stay(part, ms, ms.len());
            },
            _ => {},
        }
    }
}

proof fn lemma_items_stay(p: Part, xs: Seq<JsonView>, n: nat)
    requires
        n <= xs.len(),
        items_without(p, xs, n),
    ensures
        items_in_days(p, xs, n) == items_text(xs, n),
    decreases xs, n,
{
    if n > 0 {
        law_other_queries_stay(Some(p), xs[n - 1]);
        lemma_items_stay(p, xs, (n - 1) as nat);
    }
}

proof fn lemma_members_stay(p: Part, ms: Seq<MemberView>, n: nat)
    requires
        n <= ms.len(),
        members_without(p, ms, n),
    ensures
        members_in_days(p, ms, n) == members_text(ms, n),
    decreases ms, n,
{
    if n > 0 {
        law_other_queries_stay(item_part(p, ms[n - 1].key), ms[n - 1].value);
        lemma_members_stay(p, ms, (n - 1) as nat);
    }
}

/// Of the tables of a query exactly those are partitioned that the catalog has partition columns for.
pub proof fn law_partitioned_tables(state: CatalogState, names: Seq<Seq<char>>, n: nat)
    requires
        n <= names.len(),
    ensures
        partitioned_among(state, names, n) == names.take(n as int).filter(
            |k: Seq<char>|
                state.tables.dom().contains(k) && state.tables[k].partition_columns.len() > 0,
        ),
    decreases n,
{
    reveal(Seq::filter);
    if n > 0 {
        law_partitioned_tables(state, names, (n - 1) as nat);
        assert(names.take(n as int).drop_last() =~= names.take(n - 1));
        assert(names.take(n as int).last() == names[n - 1]);
    }
}

} // verus!
