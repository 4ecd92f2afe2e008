//! What the queries mean that the library writes.
//!
//! A phrase is a piece of a statement together with what it comes to in a row. Phrases are put
//! together as SQL puts them together, and the text of the whole and its meaning grow side by side.
//! So a law can speak of a statement that the library writes: its text is that of a phrase whose
//! meaning is what the law says, whatever the tables hold and whatever the expressions mean that the
//! user wrote.
use vstd::prelude::*;
use vstd::string::*;

use crate::text::joined;

verus! {

// ---------------------------------------------------------------------------
// Values, rows and tables
// ---------------------------------------------------------------------------

/// A value: none, a truth value, or one of all other values.
pub enum Value {
    Null,
    Bool(bool),
    Other(int),
}

/// A row under the name by which a query speaks of it. A column that is not there has no value.
pub struct Frame {
    pub name: Seq<char>,
    pub row: Map<Seq<char>, Value>,
}

/// What the tables hold, and what the expressions come to that the user wrote.
pub struct World {
    /// The rows of each table, under its name as it stands in a query.
    pub tables: Map<Seq<char>, Seq<Map<Seq<char>, Value>>>,
    /// What an expression comes to, given the rows that can be seen from where it stands.
    pub other: spec_fn(Seq<char>, Seq<Frame>) -> Value,
    /// What becomes of a value that is brought to a type.
    pub cast: spec_fn(Value, Seq<char>) -> Value,
}

/// The rows of a table.
pub open spec fn rows_of(w: World, table: Seq<char>) -> Seq<Map<Seq<char>, Value>> {
    w.tables[table]
}

/// The value of a column in a row.
pub open spec fn cell_of(row: Map<Seq<char>, Value>, col: Seq<char>) -> Value {
    if row.dom().contains(col) {
        row[col]
    } else {
        Value::Null
    }
}

/// The value of a column in the innermost row that has it.
pub open spec fn seen_column(s: Seq<Frame>, col: Seq<char>) -> Value
    decreases s.len(),
{
    if s.len() == 0 {
        Value::Null
    } else if s.last().row.dom().contains(col) {
        s.last().row[col]
    } else {
        seen_column(s.drop_last(), col)
    }
}

/// The value of a column in the innermost row of the name.
pub open spec fn seen_of(s: Seq<Frame>, name: Seq<char>, col: Seq<char>) -> Value
    decreases s.len(),
{
    if s.len() == 0 {
        Value::Null
    } else if s.last().name == name {
        cell_of(s.last().row, col)
    } else {
        seen_of(s.drop_last(), name, col)
    }
}

/// Whether a condition holds: it is neither false nor null.
pub open spec fn holds(v: Value) -> bool {
    v == Value::Bool(true)
}

/// Whether two values are equal, as SQL compares them: nothing is known where one is missing.
pub open spec fn compared(a: Value, b: Value) -> Value {
    if a == Value::Null || b == Value::Null {
        Value::Null
    } else {
        Value::Bool(a == b)
    }
}

/// The opposite of a truth value; what is not known stays so.
pub open spec fn negated(v: Value) -> Value {
    match v {
        Value::Bool(b) => Value::Bool(!b),
        _ => Value::Null,
    }
}

/// Whether all of the conditions hold.
pub open spec fn conjunction(vs: Seq<Value>) -> Value {
    if exists|i: int| 0 <= i < vs.len() && #[trigger] vs[i] == Value::Bool(false) {
        Value::Bool(false)
    } else if forall|i: int| 0 <= i < vs.len() ==> holds(#[trigger] vs[i]) {
        Value::Bool(true)
    } else {
        Value::Null
    }
}

/// Whether one of the conditions holds.
pub open spec fn disjunction(vs: Seq<Value>) -> Value {
    if exists|i: int| 0 <= i < vs.len() && holds(#[trigger] vs[i]) {
        Value::Bool(true)
    } else if forall|i: int| 0 <= i < vs.len() ==> #[trigger] vs[i] == Value::Bool(false) {
        Value::Bool(false)
    } else {
        Value::Null
    }
}

/// The value behind the first condition from `i` on that holds, or the last resort.
pub open spec fn first_case(conds: Seq<Value>, vals: Seq<Value>, other: Value, i: int) -> Value
    decreases conds.len() - i,
{
    if i < 0 || i >= conds.len() {
        other
    } else if holds(conds[i]) {
        vals[i]
    } else {
        first_case(conds, vals, other, i + 1)
    }
}

// ---------------------------------------------------------------------------
// Expressions
// ---------------------------------------------------------------------------

/// A piece of a statement and what it comes to.
pub struct Phrase {
    pub text: Seq<char>,
    pub value: spec_fn(World, Seq<Frame>) -> Value,
}

/// The texts of phrases.
pub open spec fn phrase_texts(ps: Seq<Phrase>) -> Seq<Seq<char>> {
    Seq::new(ps.len(), |i: int| ps[i].text)
}

/// What phrases come to.
pub open spec fn phrase_values(ps: Seq<Phrase>, w: World, s: Seq<Frame>) -> Seq<Value> {
    Seq::new(ps.len(), |i: int| (ps[i].value)(w, s))
}

/// An expression that the user wrote, or a literal.
pub open spec fn other(text: Seq<char>) -> Phrase {
    Phrase { text, value: |w: World, s: Seq<Frame>| (w.other)(text, s) }
}

/// A name in double quotes.
pub open spec fn quoted_name(name: Seq<char>) -> Seq<char> {
    "\""@ + name + "\""@
}

/// A column: `"col"`.
pub open spec fn column(col: Seq<char>) -> Phrase {
    Phrase { text: quoted_name(col), value: |w: World, s: Seq<Frame>| seen_column(s, col) }
}

/// A column of a row of the name: `name."col"`.
pub open spec fn column_of(name: Seq<char>, col: Seq<char>) -> Phrase {
    Phrase {
        text: name + "."@ + quoted_name(col),
        value: |w: World, s: Seq<Frame>| seen_of(s, name, col),
    }
}

/// `NULL`
pub open spec fn null() -> Phrase {
    Phrase { text: "NULL"@, value: |w: World, s: Seq<Frame>| Value::Null }
}

/// `TRUE`
pub open spec fn yes() -> Phrase {
    Phrase { text: "TRUE"@, value: |w: World, s: Seq<Frame>| Value::Bool(true) }
}

/// `FALSE`
pub open spec fn no() -> Phrase {
    Phrase { text: "FALSE"@, value: |w: World, s: Seq<Frame>| Value::Bool(false) }
}

/// `(p)`
pub open spec fn paren(p: Phrase) -> Phrase {
    Phrase { text: "("@ + p.text + ")"@, value: p.value }
}

/// `p IS NULL`
pub open spec fn is_null(p: Phrase) -> Phrase {
    Phrase {
        text: p.text + " IS NULL"@,
        value: |w: World, s: Seq<Frame>| Value::Bool((p.value)(w, s) == Value::Null),
    }
}

/// `p IS NOT NULL`
pub open spec fn is_not_null(p: Phrase) -> Phrase {
    Phrase {
        text: p.text + " IS NOT NULL"@,
        value: |w: World, s: Seq<Frame>| Value::Bool((p.value)(w, s) != Value::Null),
    }
}

/// `p IS NOT TRUE`
pub open spec fn is_not_true(p: Phrase) -> Phrase {
    Phrase {
        text: p.text + " IS NOT TRUE"@,
        value: |w: World, s: Seq<Frame>| Value::Bool(!holds((p.value)(w, s))),
    }
}

/// `NOT p`
pub open spec fn not(p: Phrase) -> Phrase {
    Phrase {
        text: "NOT "@ + p.text,
        value: |w: World, s: Seq<Frame>| negated((p.value)(w, s)),
    }
}

/// `p AND q AND ..`
pub open spec fn all(ps: Seq<Phrase>) -> Phrase {
    Phrase {
        text: joined(phrase_texts(ps), " AND "@),
        value: |w: World, s: Seq<Frame>| conjunction(phrase_values(ps, w, s)),
    }
}

/// `p AND q`
pub open spec fn both(p: Phrase, q: Phrase) -> Phrase {
    all(seq![p, q])
}

/// `p OR q OR ..`
pub open spec fn any(ps: Seq<Phrase>) -> Phrase {
    Phrase {
        text: joined(phrase_texts(ps), " OR "@),
        value: |w: World, s: Seq<Frame>| disjunction(phrase_values(ps, w, s)),
    }
}

/// `p = q`
pub open spec fn equal(p: Phrase, q: Phrase) -> Phrase {
    Phrase {
        text: p.text + " = "@ + q.text,
        value: |w: World, s: Seq<Frame>| compared((p.value)(w, s), (q.value)(w, s)),
    }
}

/// Each value of a list compared with a value.
pub open spec fn comparisons(v: Value, vs: Seq<Value>) -> Seq<Value> {
    Seq::new(vs.len(), |i: int| compared(v, vs[i]))
}

/// `p IN (q, ..)`
pub open spec fn within(p: Phrase, ps: Seq<Phrase>) -> Phrase {
    Phrase {
        text: p.text + " IN ("@ + joined(phrase_texts(ps), ", "@) + ")"@,
        value: |w: World, s: Seq<Frame>|
            disjunction(comparisons((p.value)(w, s), phrase_values(ps, w, s))),
    }
}

/// `CAST(p AS type)`
pub open spec fn cast(p: Phrase, data_type: Seq<char>) -> Phrase {
    Phrase {
        text: "CAST("@ + p.text + " AS "@ + data_type + ")"@,
        value: |w: World, s: Seq<Frame>| (w.cast)((p.value)(w, s), data_type),
    }
}

/// `WHEN p THEN q`
pub open spec fn when_then(p: Phrase, q: Phrase) -> Seq<char> {
    "WHEN "@ + p.text + " THEN "@ + q.text
}

/// `CASE WHEN p THEN q .. ELSE r END`
pub open spec fn case(conds: Seq<Phrase>, vals: Seq<Phrase>, other: Phrase) -> Phrase {
    Phrase {
        text: "CASE "@ + joined(
            Seq::new(conds.len(), |i: int| when_then(conds[i], vals[i])),
            " "@,
        ) + " ELSE "@ + other.text + " END"@,
        value: |w: World, s: Seq<Frame>|
            first_case(
                phrase_values(conds, w, s),
                phrase_values(vals, w, s),
                (other.value)(w, s),
                0,
            ),
    }
}

/// `CASE WHEN p THEN q ELSE r END`
pub open spec fn if_else(p: Phrase, q: Phrase, r: Phrase) -> Phrase {
    case(seq![p], seq![q], r)
}

/// `p AS "name"`
pub open spec fn named(p: Phrase, name: Seq<char>) -> Phrase {
    Phrase { text: p.text + " AS "@ + quoted_name(name), value: p.value }
}

/// `EXISTS (SELECT 1 FROM table WHERE p)`
pub open spec fn exists_in(table: Seq<char>, p: Phrase) -> Phrase {
    Phrase {
        text: "EXISTS (SELECT 1 FROM "@ + table + " WHERE "@ + p.text + ")"@,
        value: |w: World, s: Seq<Frame>|
            Value::Bool(
                exists|k: int|
                    0 <= k < rows_of(w, table).len() && holds(
                        (p.value)(
                            w,
                            s.push(Frame { name: table, row: #[trigger] rows_of(w, table)[k] }),
                        ),
                    ),
            ),
    }
}

// ---------------------------------------------------------------------------
// Queries
// ---------------------------------------------------------------------------

/// What stands behind `FROM`, and the rows that it gives.
pub struct Source {
    pub text: Seq<char>,
    pub rows: spec_fn(World) -> Seq<Seq<Frame>>,
}

/// Each row of a list by itself, under a name.
pub open spec fn single(name: Seq<char>, rows: Seq<Map<Seq<char>, Value>>) -> Seq<Seq<Frame>> {
    Seq::new(rows.len(), |i: int| seq![Frame { name, row: rows[i] }])
}

/// A table.
pub open spec fn table(name: Seq<char>) -> Source {
    Source { text: name, rows: |w: World| single(name, rows_of(w, name)) }
}

/// A table under another name: `table alias`.
pub open spec fn table_as(name: Seq<char>, alias: Seq<char>) -> Source {
    Source { text: name + " "@ + alias, rows: |w: World| single(alias, rows_of(w, name)) }
}

/// A row beside each of the rows that it meets the condition with.
pub open spec fn partners(
    w: World,
    left: Seq<Frame>,
    right: Seq<Frame>,
    on: Phrase,
) -> Seq<Seq<Frame>> {
    Seq::new(right.len(), |i: int| left.push(right[i])).filter(
        |s: Seq<Frame>| holds((on.value)(w, s)),
    )
}

/// The rows of a list under a name.
pub open spec fn frames(name: Seq<char>, rows: Seq<Map<Seq<char>, Value>>) -> Seq<Frame> {
    Seq::new(rows.len(), |i: int| Frame { name, row: rows[i] })
}

/// The first `n` rows, each beside its partners.
pub open spec fn inner_rows(
    w: World,
    left: Seq<Seq<Frame>>,
    right: Seq<Frame>,
    on: Phrase,
    n: nat,
) -> Seq<Seq<Frame>>
    decreases n,
{
    if n == 0 || n > left.len() {
        Seq::empty()
    } else {
        inner_rows(w, left, right, on, (n - 1) as nat) + partners(w, left[n - 1], right, on)
    }
}

/// The first `n` rows, each beside its partners, or beside a row without values where it has none.
pub open spec fn left_rows(
    w: World,
    left: Seq<Seq<Frame>>,
    name: Seq<char>,
    right: Seq<Frame>,
    on: Phrase,
    n: nat,
) -> Seq<Seq<Frame>>
    decreases n,
{
    if n == 0 || n > left.len() {
        Seq::empty()
    } else {
        let found = partners(w, left[n - 1], right, on);
        left_rows(w, left, name, right, on, (n - 1) as nat) + if found.len() == 0 {
            seq![left[n - 1].push(Frame { name, row: Map::empty() })]
        } else {
            found
        }
    }
}

/// `a INNER JOIN b ON p`
pub open spec fn inner_join(a: Source, b: Seq<char>, on: Phrase) -> Source {
    Source {
        text: a.text + " INNER JOIN "@ + b + " ON "@ + on.text,
        rows: |w: World|
            inner_rows(w, (a.rows)(w), frames(b, rows_of(w, b)), on, (a.rows)(w).len()),
    }
}

/// `a LEFT JOIN b alias ON p`
pub open spec fn left_join(a: Source, b: Seq<char>, alias: Seq<char>, on: Phrase) -> Source {
    Source {
        text: a.text + " LEFT JOIN "@ + b + " "@ + alias + " ON "@ + on.text,
        rows: |w: World|
            left_rows(w, (a.rows)(w), alias, frames(alias, rows_of(w, b)), on, (a.rows)(w).len()),
    }
}

/// A row with one more column, which is true.
pub open spec fn marked(row: Map<Seq<char>, Value>, mark: Seq<char>) -> Map<Seq<char>, Value> {
    row.insert(mark, Value::Bool(true))
}

/// `a LEFT JOIN (SELECT *, TRUE AS "mark" FROM b) AS b ON p`
pub open spec fn left_join_marked(a: Source, b: Seq<char>, mark: Seq<char>, on: Phrase) -> Source {
    Source {
        text: a.text + " LEFT JOIN (SELECT *, "@ + named(yes(), mark).text + " FROM "@ + b
            + ") AS "@ + b + " ON "@ + on.text,
        rows: |w: World|
            left_rows(
                w,
                (a.rows)(w),
                b,
                frames(
                    b,
                    Seq::new(rows_of(w, b).len(), |i: int| marked(rows_of(w, b)[i], mark)),
                ),
                on,
                (a.rows)(w).len(),
            ),
    }
}

/// A query, and the rows that it is about.
pub struct Query {
    pub text: Seq<char>,
    pub rows: spec_fn(World) -> Seq<Seq<Frame>>,
}

/// `SELECT list FROM source`
pub open spec fn select(list: Seq<char>, from: Source) -> Query {
    Query { text: "SELECT "@ + list + " FROM "@ + from.text, rows: from.rows }
}

/// The rows for which a condition holds.
pub open spec fn kept(w: World, rows: Seq<Seq<Frame>>, p: Phrase) -> Seq<Seq<Frame>> {
    rows.filter(|s: Seq<Frame>| holds((p.value)(w, s)))
}

/// `SELECT list FROM source WHERE p`
pub open spec fn select_where(list: Seq<char>, from: Source, p: Phrase) -> Query {
    Query {
        text: "SELECT "@ + list + " FROM "@ + from.text + " WHERE "@ + p.text,
        rows: |w: World| kept(w, (from.rows)(w), p),
    }
}

/// What counts rows.
pub open spec fn count_list() -> Seq<char> {
    "COUNT(*) AS c"@
}

/// A list of phrases.
pub open spec fn list_of(ps: Seq<Phrase>) -> Seq<char> {
    joined(phrase_texts(ps), ", "@)
}

/// How many of the first `n` keys are the given one.
pub open spec fn occurrences(keys: Seq<Seq<Value>>, key: Seq<Value>, n: nat) -> nat
    decreases n,
{
    if n == 0 || n > keys.len() {
        0
    } else {
        occurrences(keys, key, (n - 1) as nat) + if keys[n - 1] == key {
            1nat
        } else {
            0nat
        }
    }
}

/// What phrases come to in each of a list of rows.
pub open spec fn keys_of(ps: Seq<Phrase>, w: World, rows: Seq<Seq<Frame>>) -> Seq<Seq<Value>> {
    Seq::new(rows.len(), |i: int| phrase_values(ps, w, rows[i]))
}

/// One row for each key that occurs more than once among the first `n`: the second that has it.
pub open spec fn second_rows(keys: Seq<Seq<Value>>, rows: Seq<Seq<Frame>>, n: nat) -> Seq<Seq<Frame>>
    decreases n,
{
    if n == 0 || n > rows.len() {
        Seq::empty()
    } else if occurrences(keys, keys[n - 1], (n - 1) as nat) == 1 {
        second_rows(keys, rows, (n - 1) as nat).push(rows[n - 1])
    } else {
        second_rows(keys, rows, (n - 1) as nat)
    }
}

/// `SELECT list FROM (SELECT p, .. FROM source GROUP BY p, .. HAVING COUNT(*) > 1) AS alias`
pub open spec fn select_repeated(
    list: Seq<char>,
    ps: Seq<Phrase>,
    from: Source,
    alias: Seq<char>,
) -> Query {
    Query {
        text: "SELECT "@ + list + " FROM (SELECT "@ + list_of(ps) + " FROM "@ + from.text
            + " GROUP BY "@ + list_of(ps) + " HAVING COUNT(*) > 1) AS "@ + alias,
        rows: |w: World|
            second_rows(keys_of(ps, w, (from.rows)(w)), (from.rows)(w), (from.rows)(w).len()),
    }
}

/// A row with its columns under new names. Of two columns of the same new name the last counts.
pub open spec fn renamed(
    row: Map<Seq<char>, Value>,
    old: Seq<Seq<char>>,
    new: Seq<Seq<char>>,
    n: nat,
) -> Map<Seq<char>, Value>
    decreases n,
{
    if n == 0 || n > old.len() || n > new.len() {
        Map::empty()
    } else {
        renamed(row, old, new, (n - 1) as nat).insert(new[n - 1], cell_of(row, old[n - 1]))
    }
}

/// `"old" AS "new"`, for each of the first `n` columns.
pub open spec fn renamings(old: Seq<Seq<char>>, new: Seq<Seq<char>>, n: nat) -> Seq<Phrase> {
    Seq::new(n, |i: int| named(column(old[i]), new[i]))
}

/// `(SELECT "old" AS "new", .. FROM table) AS alias`
pub open spec fn table_renamed(
    name: Seq<char>,
    old: Seq<Seq<char>>,
    new: Seq<Seq<char>>,
    n: nat,
    alias: Seq<char>,
) -> Source {
    Source {
        text: "(SELECT "@ + list_of(renamings(old, new, n)) + " FROM "@ + name + ") AS "@ + alias,
        rows: |w: World|
            single(
                alias,
                Seq::new(
                    rows_of(w, name).len(),
                    |i: int| renamed(rows_of(w, name)[i], old, new, n),
                ),
            ),
    }
}

/// A figure that is taken of all rows.
pub struct Figure {
    pub text: Seq<char>,
    pub value: spec_fn(World, Seq<Seq<Frame>>) -> Value,
}

/// What a phrase comes to in each row.
pub open spec fn column_values(p: Phrase, w: World, rows: Seq<Seq<Frame>>) -> Seq<Value> {
    Seq::new(rows.len(), |i: int| (p.value)(w, rows[i]))
}

/// `COUNT(*)`
pub open spec fn count_all() -> Figure {
    Figure {
        text: "COUNT(*)"@,
        value: |w: World, rows: Seq<Seq<Frame>>| Value::Other(rows.len() as int),
    }
}

/// `COUNT(p)`
pub open spec fn count_of(p: Phrase) -> Figure {
    Figure {
        text: "COUNT("@ + p.text + ")"@,
        value: |w: World, rows: Seq<Seq<Frame>>|
            Value::Other(column_values(p, w, rows).filter(|v| v != Value::Null).len() as int),
    }
}

/// `a - b`
pub open spec fn difference(a: Figure, b: Figure) -> Figure {
    Figure {
        text: a.text + " - "@ + b.text,
        value: |w: World, rows: Seq<Seq<Frame>>|
            match ((a.value)(w, rows), (b.value)(w, rows)) {
                (Value::Other(x), Value::Other(y)) => Value::Other(x - y),
                _ => Value::Null,
            },
    }
}

/// `FUNCTION(p)`, where the function takes the values of all rows.
pub open spec fn taken(
    function: Seq<char>,
    p: Phrase,
    of: spec_fn(Seq<Value>) -> Value,
) -> Figure {
    Figure {
        text: function + "("@ + p.text + ")"@,
        value: |w: World, rows: Seq<Seq<Frame>>| of(column_values(p, w, rows)),
    }
}

/// `CAST(f AS type)`
pub open spec fn cast_figure(f: Figure, data_type: Seq<char>) -> Figure {
    Figure {
        text: "CAST("@ + f.text + " AS "@ + data_type + ")"@,
        value: |w: World, rows: Seq<Seq<Frame>>| (w.cast)((f.value)(w, rows), data_type),
    }
}

/// `f AS name`
pub open spec fn named_figure(f: Figure, name: Seq<char>) -> Figure {
    Figure { text: f.text + " AS "@ + name, value: f.value }
}

/// `p ILIKE '%part%'`, where `found` says whether a value holds a part.
pub open spec fn contains_part(
    p: Phrase,
    part: Seq<char>,
    found: spec_fn(Value, Seq<char>) -> bool,
) -> Phrase {
    Phrase {
        text: p.text + " ILIKE '%"@ + part + "%'"@,
        value: |w: World, s: Seq<Frame>| Value::Bool(found((p.value)(w, s), part)),
    }
}

/// A statement that puts rows into a table, and the rows: what is in each of the columns.
pub struct Insert {
    pub text: Seq<char>,
    pub rows: spec_fn(World) -> Seq<Map<Seq<char>, Value>>,
}

/// The values of several columns, each from a phrase. Of two columns of the same name the last counts.
pub open spec fn filled(
    cols: Seq<Seq<char>>,
    ps: Seq<Phrase>,
    w: World,
    s: Seq<Frame>,
    n: nat,
) -> Map<Seq<char>, Value>
    decreases n,
{
    if n == 0 || n > cols.len() || n > ps.len() {
        Map::empty()
    } else {
        filled(cols, ps, w, s, (n - 1) as nat).insert(cols[n - 1], (ps[n - 1].value)(w, s))
    }
}

/// `INSERT INTO table ("col", ..) SELECT p, .. FROM source`
pub open spec fn insert_select(
    table: Seq<char>,
    cols: Seq<Seq<char>>,
    ps: Seq<Phrase>,
    from: Source,
) -> Insert {
    Insert {
        text: "INSERT INTO "@ + table + " ("@ + list_of(
            Seq::new(cols.len(), |i: int| column(cols[i])),
        ) + ") "@ + select(list_of(ps), from).text,
        rows: |w: World|
            Seq::new(
                (from.rows)(w).len(),
                |i: int| filled(cols, ps, w, (from.rows)(w)[i], cols.len()),
            ),
    }
}

// ---------------------------------------------------------------------------
// Lemmas
// ---------------------------------------------------------------------------

pub proof fn lemma_same_filter<T>(s: Seq<T>, f: spec_fn(T) -> bool, g: spec_fn(T) -> bool)
    requires
        forall|i: int| 0 <= i < s.len() ==> f(#[trigger] s[i]) == g(s[i]),
    ensures
        s.filter(f) == s.filter(g),
    decreases s.len(),
{
    reveal(Seq::filter);
    if s.len() > 0 {
        let h = s.drop_last();
        assert forall|i: int| 0 <= i < h.len() implies f(#[trigger] h[i]) == g(h[i]) by {
            assert(h[i] == s[i]);
        }
        lemma_same_filter(h, f, g);
        assert(s.last() == s[s.len() - 1]);
    }
}

/// The rows of a table for which a condition holds are those for which it holds of the row by
/// itself.
pub proof fn lemma_kept_single(
    w: World,
    name: Seq<char>,
    rows: Seq<Map<Seq<char>, Value>>,
    p: Phrase,
    f: spec_fn(Map<Seq<char>, Value>) -> bool,
)
    requires
        forall|i: int|
            0 <= i < rows.len() ==> holds(
                (p.value)(w, seq![Frame { name, row: #[trigger] rows[i] }]),
            ) == f(rows[i]),
    ensures
        kept(w, single(name, rows), p) == single(name, rows.filter(f)),
    decreases rows.len(),
{
    reveal(Seq::filter);
    let s = single(name, rows);
    if rows.len() == 0 {
        assert(s =~= Seq::<Seq<Frame>>::empty());
        assert(kept(w, s, p) =~= single(name, rows.filter(f)));
    } else {
        let h = rows.drop_last();
        assert forall|i: int| 0 <= i < h.len() implies holds(
            (p.value)(w, seq![Frame { name, row: #[trigger] h[i] }]),
        ) == f(h[i]) by {
            assert(h[i] == rows[i]);
        }
        lemma_kept_single(w, name, h, p, f);
        assert(s.drop_last() =~= single(name, h));
        let last = rows[rows.len() - 1];
        assert(s.last() == seq![Frame { name, row: last }]);
        assert(rows.last() == last);
        assert(single(name, h.filter(f).push(last)) =~= single(name, h.filter(f)).push(
            seq![Frame { name, row: last }],
        ));
    }
}

pub proof fn lemma_conjunction(vs: Seq<Value>)
    ensures
        holds(conjunction(vs)) <==> forall|i: int| 0 <= i < vs.len() ==> holds(#[trigger] vs[i]),
{
}

/// Which condition decides: the first that holds, or none.
pub proof fn lemma_first_case(conds: Seq<Value>, vals: Seq<Value>, other: Value, i: int)
    requires
        0 <= i <= conds.len(),
    ensures
        (forall|k: int| i <= k < conds.len() ==> !holds(#[trigger] conds[k])) ==> first_case(
            conds,
            vals,
            other,
            i,
        ) == other,
        forall|j: int|
            i <= j < conds.len() && holds(#[trigger] conds[j]) && (forall|k: int|
                i <= k < j ==> !holds(#[trigger] conds[k])) ==> first_case(conds, vals, other, i)
                == vals[j],
    decreases conds.len() - i,
{
    if i < conds.len() {
        lemma_first_case(conds, vals, other, i + 1);
    }
}

pub proof fn lemma_joined_one(a: Seq<char>, sep: Seq<char>)
    ensures
        joined(seq![a], sep) == a,
{
}

pub proof fn lemma_joined_two(a: Seq<char>, b: Seq<char>, sep: Seq<char>)
    ensures
        joined(seq![a, b], sep) == a + sep + b,
{
    assert(seq![a, b].drop_last() =~= seq![a]);
    assert(joined(seq![a, b], sep) == joined(seq![a], sep) + sep + b);
}

pub proof fn lemma_all_two(p: Phrase, q: Phrase)
    ensures
        both(p, q).text == p.text + " AND "@ + q.text,
        forall|w: World, s: Seq<Frame>|
            holds(#[trigger] (both(p, q).value)(w, s)) <==> holds((p.value)(w, s)) && holds(
                (q.value)(w, s),
            ),
{
    let ps = seq![p, q];
    assert(phrase_texts(ps) =~= seq![p.text, q.text]);
    lemma_joined_two(p.text, q.text, " AND "@);
    assert forall|w: World, s: Seq<Frame>|
        holds(#[trigger] (both(p, q).value)(w, s)) <==> holds((p.value)(w, s)) && holds(
            (q.value)(w, s),
        ) by {
        let vs = phrase_values(ps, w, s);
        assert(vs.len() == 2);
        assert(vs[0] == (p.value)(w, s) && vs[1] == (q.value)(w, s));
        lemma_conjunction(vs);
    }
}

/// A column in a row that stands alone.
pub proof fn lemma_single_column(name: Seq<char>, row: Map<Seq<char>, Value>, col: Seq<char>)
    ensures
        seen_column(seq![Frame { name, row }], col) == cell_of(row, col),
{
    let s = seq![Frame { name, row }];
    assert(s.last() == Frame { name, row });
    assert(s.drop_last() =~= Seq::<Frame>::empty());
    reveal_with_fuel(seen_column, 2);
}

pub proof fn lemma_single_case(p: Phrase, q: Phrase, r: Phrase)
    ensures
        if_else(p, q, r).text == "CASE WHEN "@ + p.text + " THEN "@ + q.text + " ELSE "@
            + r.text + " END"@,
        forall|w: World, s: Seq<Frame>| #[trigger]
            (if_else(p, q, r).value)(w, s) == if holds((p.value)(w, s)) {
                (q.value)(w, s)
            } else {
                (r.value)(w, s)
            },
{
    assert(Seq::new(seq![p].len(), |i: int| when_then(seq![p][i], seq![q][i])) =~= seq![
        when_then(p, q),
    ]);
    lemma_joined_one(when_then(p, q), " "@);
    reveal_strlit("CASE ");
    reveal_strlit("WHEN ");
    reveal_strlit("CASE WHEN ");
    assert(if_else(p, q, r).text =~= "CASE WHEN "@ + p.text + " THEN "@ + q.text + " ELSE "@ + r.text + " END"@);
    assert forall|w: World, s: Seq<Frame>| #[trigger]
        (if_else(p, q, r).value)(w, s) == if holds((p.value)(w, s)) {
            (q.value)(w, s)
        } else {
            (r.value)(w, s)
        } by {
        let conds = phrase_values(seq![p], w, s);
        let vals = phrase_values(seq![q], w, s);
        assert(conds.len() == 1 && conds[0] == (p.value)(w, s) && vals[0] == (q.value)(w, s));
        reveal_with_fuel(first_case, 2);
    }
}

/// The partners of a row are exactly the rows that it meets the condition with.
pub proof fn lemma_partners(w: World, left: Seq<Frame>, right: Seq<Frame>, on: Phrase)
    ensures
        forall|k: int|
            0 <= k < partners(w, left, right, on).len() ==> (exists|j: int|
                0 <= j < right.len() && #[trigger] partners(w, left, right, on)[k] == left.push(
                    #[trigger] right[j],
                )) && holds((on.value)(w, partners(w, left, right, on)[k])),
        forall|j: int|
            0 <= j < right.len() && holds((on.value)(w, left.push(#[trigger] right[j])))
                ==> partners(w, left, right, on).contains(left.push(right[j])),
        partners(w, left, right, on).len() == 0 <==> forall|j: int|
            0 <= j < right.len() ==> !holds((on.value)(w, left.push(#[trigger] right[j]))),
{
    let f = |s: Seq<Frame>| holds((on.value)(w, s));
    let pairs = Seq::new(right.len(), |i: int| left.push(right[i]));
    let found = partners(w, left, right, on);
    assert(found == pairs.filter(f));
    assert forall|k: int| 0 <= k < found.len() implies (exists|j: int|
        0 <= j < right.len() && #[trigger] found[k] == left.push(#[trigger] right[j])) && holds(
        (on.value)(w, found[k]),
    ) by {
        pairs.lemma_filter_pred(f, k);
        assert(found.contains(found[k]));
        pairs.lemma_filter_contains_rev(f, found[k]);
        let j = choose|j: int| 0 <= j < pairs.len() && pairs[j] == found[k];
        assert(found[k] == left.push(right[j]));
    }
    assert forall|j: int|
        0 <= j < right.len() && holds((on.value)(w, left.push(#[trigger] right[j]))) implies
        found.contains(left.push(right[j])) by {
        assert(pairs[j] == left.push(right[j]));
        pairs.lemma_filter_contains(f, j);
    }
    if found.len() > 0 {
        let k = 0int;
        assert(found[k] == found[0]);
        let j = choose|j: int| 0 <= j < right.len() && found[0] == left.push(#[trigger] right[j]);
        assert(holds((on.value)(w, left.push(right[j]))));
    }
}

/// Whether `s` is a row beside a partner, or beside nothing where it has none.
pub open spec fn left_row_of(
    w: World,
    left: Seq<Frame>,
    name: Seq<char>,
    right: Seq<Frame>,
    on: Phrase,
    s: Seq<Frame>,
) -> bool {
    ||| s == left.push(Frame { name, row: Map::empty() }) && forall|j: int|
        0 <= j < right.len() ==> !holds((on.value)(w, left.push(#[trigger] right[j])))
    ||| exists|j: int|
        0 <= j < right.len() && s == left.push(#[trigger] right[j]) && holds((on.value)(w, s))
}

/// Every row of a left join is one of the left rows beside a partner or beside nothing.
pub proof fn lemma_left_rows_origin(
    w: World,
    left: Seq<Seq<Frame>>,
    name: Seq<char>,
    right: Seq<Frame>,
    on: Phrase,
    n: nat,
    k: int,
) -> (i: int)
    requires
        n <= left.len(),
        0 <= k < left_rows(w, left, name, right, on, n).len(),
    ensures
        0 <= i < n,
        left_row_of(w, left[i], name, right, on, left_rows(w, left, name, right, on, n)[k]),
    decreases n,
{
    let rest = left_rows(w, left, name, right, on, (n - 1) as nat);
    let all = left_rows(w, left, name, right, on, n);
    lemma_partners(w, left[n - 1], right, on);
    if k < rest.len() {
        assert(all[k] == rest[k]);
        lemma_left_rows_origin(w, left, name, right, on, (n - 1) as nat, k)
    } else {
        let found = partners(w, left[n - 1], right, on);
        if found.len() > 0 {
            assert(all[k] == found[k - rest.len()]);
        }
        n - 1
    }
}

/// Every left row is there.
pub proof fn lemma_left_rows_cover(
    w: World,
    left: Seq<Seq<Frame>>,
    name: Seq<char>,
    right: Seq<Frame>,
    on: Phrase,
    n: nat,
    i: int,
) -> (k: int)
    requires
        0 <= i < n <= left.len(),
    ensures
        0 <= k < left_rows(w, left, name, right, on, n).len(),
        left_row_of(w, left[i], name, right, on, left_rows(w, left, name, right, on, n)[k]),
    decreases n,
{
    let rest = left_rows(w, left, name, right, on, (n - 1) as nat);
    let all = left_rows(w, left, name, right, on, n);
    if i < n - 1 {
        let k = lemma_left_rows_cover(w, left, name, right, on, (n - 1) as nat, i);
        assert(all[k] == rest[k]);
        k
    } else {
        lemma_partners(w, left[n - 1], right, on);
        let found = partners(w, left[n - 1], right, on);
        if found.len() > 0 {
            assert(all[rest.len() as int] == found[0]);
        }
        rest.len() as int
    }
}

/// Every pair that meets the condition is there.
pub proof fn lemma_left_rows_pairs(
    w: World,
    left: Seq<Seq<Frame>>,
    name: Seq<char>,
    right: Seq<Frame>,
    on: Phrase,
    n: nat,
    i: int,
    j: int,
)
    requires
        0 <= i < n <= left.len(),
        0 <= j < right.len(),
        holds((on.value)(w, left[i].push(right[j]))),
    ensures
        left_rows(w, left, name, right, on, n).contains(left[i].push(right[j])),
    decreases n,
{
    let rest = left_rows(w, left, name, right, on, (n - 1) as nat);
    let all = left_rows(w, left, name, right, on, n);
    let s = left[i].push(right[j]);
    if i < n - 1 {
        lemma_left_rows_pairs(w, left, name, right, on, (n - 1) as nat, i, j);
        let k = choose|k: int| 0 <= k < rest.len() && rest[k] == s;
        assert(all[k] == s);
    } else {
        lemma_partners(w, left[n - 1], right, on);
        let found = partners(w, left[n - 1], right, on);
        let k = choose|k: int| 0 <= k < found.len() && found[k] == s;
        assert(all[rest.len() + k] == s);
    }
}

/// Each row beside a row without values.
pub open spec fn alone(left: Seq<Seq<Frame>>, name: Seq<char>) -> Seq<Seq<Frame>> {
    Seq::new(left.len(), |i: int| left[i].push(Frame { name, row: Map::empty() }))
}

/// Of a left join exactly those rows are kept that have no partner and of which `f` holds, where the
/// condition says so of rows beside nothing, and never holds beside a partner.
pub proof fn lemma_kept_alone(
    w: World,
    left: Seq<Seq<Frame>>,
    name: Seq<char>,
    right: Seq<Frame>,
    on: Phrase,
    p: Phrase,
    f: spec_fn(Seq<Frame>) -> bool,
    n: nat,
)
    requires
        n <= left.len(),
        forall|i: int|
            0 <= i < left.len() ==> f(#[trigger] left[i]) == (partners(w, left[i], right, on).len()
                == 0 && holds(
                (p.value)(w, left[i].push(Frame { name, row: Map::empty() })),
            )),
        forall|i: int, j: int|
            0 <= i < left.len() && 0 <= j < right.len() && holds(
                (on.value)(w, (#[trigger] left[i]).push(#[trigger] right[j])),
            ) ==> !holds((p.value)(w, left[i].push(right[j]))),
    ensures
        kept(w, left_rows(w, left, name, right, on, n), p) == alone(left.take(n as int).filter(f), name),
    decreases n,
{
    reveal(Seq::filter);
    let g = |s: Seq<Frame>| holds((p.value)(w, s));
    if n == 0 {
        assert(left.take(0) =~= Seq::<Seq<Frame>>::empty());
        assert(kept(w, left_rows(w, left, name, right, on, 0), p) =~= alone(
            left.take(0).filter(f),
            name,
        ));
    } else {
        let m = (n - 1) as nat;
        lemma_kept_alone(w, left, name, right, on, p, f, m);
        let last = left[n - 1];
        let found = partners(w, last, right, on);
        let empty = last.push(Frame { name, row: Map::empty() });
        let part = if found.len() == 0 {
            seq![empty]
        } else {
            found
        };
        let rest = left_rows(w, left, name, right, on, m);
        Seq::filter_distributes_over_add(rest, part, g);
        assert(left.take(n as int).drop_last() =~= left.take(m as int));
        assert(left.take(n as int).last() == last);
        let before = left.take(m as int).filter(f);
        if found.len() == 0 {
            assert(seq![empty].drop_last() =~= Seq::<Seq<Frame>>::empty());
            assert(seq![empty].last() == empty);
            reveal_with_fuel(Seq::filter, 2);
            if g(empty) {
                assert(seq![empty].filter(g) =~= seq![empty]);
                assert(alone(before.push(last), name) =~= alone(before, name) + seq![empty]);
            } else {
                assert(seq![empty].filter(g) =~= Seq::<Seq<Frame>>::empty());
            }
        } else {
            lemma_partners(w, last, right, on);
            assert forall|k: int| 0 <= k < found.len() implies !g(#[trigger] found[k]) by {
                let j = choose|j: int|
                    0 <= j < right.len() && found[k] == last.push(#[trigger] right[j]);
                assert(left[n - 1].push(right[j]) == found[k]);
            }
            found.lemma_all_neg_filter_empty(g);
            assert(found.filter(g) =~= Seq::<Seq<Frame>>::empty());
        }
        assert(kept(w, left_rows(w, left, name, right, on, n), p) =~= alone(
            left.take(n as int).filter(f),
            name,
        ));
    }
}

/// An inner join has rows exactly where two rows meet the condition.
pub proof fn lemma_inner_rows(
    w: World,
    left: Seq<Seq<Frame>>,
    right: Seq<Frame>,
    on: Phrase,
    n: nat,
)
    requires
        n <= left.len(),
    ensures
        inner_rows(w, left, right, on, n).len() > 0 <==> exists|i: int, j: int|
            0 <= i < n && 0 <= j < right.len() && holds(
                (on.value)(w, (#[trigger] left[i]).push(#[trigger] right[j])),
            ),
    decreases n,
{
    if n > 0 {
        lemma_inner_rows(w, left, right, on, (n - 1) as nat);
        lemma_partners(w, left[n - 1], right, on);
    }
}

proof fn lemma_occurrences(keys: Seq<Seq<Value>>, n: nat, k: int)
    requires
        n <= k < keys.len(),
        forall|i: int, j: int|
            0 <= i < j < n ==> #[trigger] keys[i] != #[trigger] keys[j],
    ensures
        occurrences(keys, keys[k], n) <= 1,
        occurrences(keys, keys[k], n) == 1 <==> exists|i: int|
            0 <= i < n && #[trigger] keys[i] == keys[k],
    decreases n,
{
    if n > 0 {
        lemma_occurrences(keys, (n - 1) as nat, k);
        if keys[n - 1] == keys[k] && occurrences(keys, keys[k], (n - 1) as nat) == 1 {
            let i = choose|i: int| 0 <= i < n - 1 && #[trigger] keys[i] == keys[k];
            assert(keys[i] != keys[n - 1]);
        }
        if exists|i: int| 0 <= i < n && #[trigger] keys[i] == keys[k] {
            let i = choose|i: int| 0 <= i < n && #[trigger] keys[i] == keys[k];
            if i < n - 1 {
                assert(occurrences(keys, keys[k], (n - 1) as nat) == 1);
            }
        }
    }
}

/// There is a key that occurs more than once exactly where two rows have the same key.
pub proof fn lemma_second_rows(keys: Seq<Seq<Value>>, rows: Seq<Seq<Frame>>, n: nat)
    requires
        keys.len() == rows.len(),
        n <= rows.len(),
    ensures
        second_rows(keys, rows, n).len() == 0 <==> forall|i: int, j: int|
            0 <= i < j < n ==> #[trigger] keys[i] != #[trigger] keys[j],
    decreases n,
{
    if n > 0 {
        let m = (n - 1) as nat;
        lemma_second_rows(keys, rows, m);
        if second_rows(keys, rows, m).len() == 0 {
            lemma_occurrences(keys, m, n - 1);
            if second_rows(keys, rows, n).len() == 0 {
                assert forall|i: int, j: int| 0 <= i < j < n implies #[trigger] keys[i]
                    != #[trigger] keys[j] by {}
            } else {
                let i = choose|i: int| 0 <= i < m && #[trigger] keys[i] == keys[n - 1];
                assert(keys[i] == keys[n - 1]);
            }
        } else {
            let (i, j) = choose|i: int, j: int|
                0 <= i < j < m && #[trigger] keys[i] == #[trigger] keys[j];
            assert(keys[i] == keys[j]);
        }
    }
}

/// The rows of a list of single rows that a test lets through.
pub proof fn lemma_single_filter(
    name: Seq<char>,
    rows: Seq<Map<Seq<char>, Value>>,
    f: spec_fn(Seq<Frame>) -> bool,
    g: spec_fn(Map<Seq<char>, Value>) -> bool,
)
    requires
        forall|i: int|
            0 <= i < rows.len() ==> f(seq![Frame { name, row: #[trigger] rows[i] }]) == g(rows[i]),
    ensures
        single(name, rows).filter(f) == single(name, rows.filter(g)),
{
    let w = World {
        tables: Map::empty(),
        other: |t: Seq<char>, s: Seq<Frame>| Value::Null,
        cast: |v: Value, t: Seq<char>| v,
    };
    let p = Phrase { text: Seq::empty(), value: |w: World, s: Seq<Frame>| Value::Bool(f(s)) };
    lemma_kept_single(w, name, rows, p, g);
    lemma_same_filter(
        single(name, rows),
        f,
        |s: Seq<Frame>| holds((p.value)(w, s)),
    );
}

pub proof fn lemma_disjunction(vs: Seq<Value>)
    ensures
        holds(disjunction(vs)) <==> exists|i: int| 0 <= i < vs.len() && holds(#[trigger] vs[i]),
{
}

pub proof fn lemma_filter_parts<T>(s: Seq<T>, f: spec_fn(T) -> bool, g: spec_fn(T) -> bool)
    requires
        forall|i: int| 0 <= i < s.len() ==> f(#[trigger] s[i]) != g(s[i]),
    ensures
        s.filter(f).len() + s.filter(g).len() == s.len(),
    decreases s.len(),
{
    reveal(Seq::filter);
    if s.len() > 0 {
        let rest = s.drop_last();
        assert forall|i: int| 0 <= i < rest.len() implies f(#[trigger] rest[i]) != g(rest[i]) by {
            assert(rest[i] == s[i]);
        }
        lemma_filter_parts(rest, f, g);
        assert(f(s[s.len() - 1]) != g(s[s.len() - 1]));
    }
}

pub proof fn lemma_joined_four(
    a: Seq<char>,
    b: Seq<char>,
    c: Seq<char>,
    d: Seq<char>,
    sep: Seq<char>,
)
    ensures
        joined(seq![a, b, c, d], sep) == a + sep + b + sep + c + sep + d,
{
    lemma_joined_two(a, b, sep);
    let three = seq![a, b, c];
    let four = seq![a, b, c, d];
    assert(three.drop_last() =~= seq![a, b]);
    assert(four.drop_last() =~= three);
    assert(joined(three, sep) == joined(three.drop_last(), sep) + sep + three.last());
    assert(joined(four, sep) == joined(four.drop_last(), sep) + sep + four.last());
}

pub proof fn lemma_filled(
    cols: Seq<Seq<char>>,
    ps: Seq<Phrase>,
    w: World,
    s: Seq<Frame>,
    n: nat,
    k: int,
)
    requires
        0 <= k < n <= cols.len(),
        n <= ps.len(),
        cols.no_duplicates(),
    ensures
        cell_of(filled(cols, ps, w, s, n), cols[k]) == (ps[k].value)(w, s),
    decreases n,
{
    if k < n - 1 {
        lemma_filled(cols, ps, w, s, (n - 1) as nat, k);
        assert(cols[k] != cols[n - 1]);
    }
}

} // verus!
