//! Clauses that are read off a statement's text.
use vstd::prelude::*;
use vstd::string::*;

use crate::numbers::{parse_i64, parse_u64, parsed_signed, parsed_unsigned};
use crate::text::{
    byte_slice, char_from, char_index, concat3, contains, contains_seq, eq_ignore_ascii_case,
    find_byte_offset, find_char_from, from_chars, has_prefix, ident_char, index_of, is_ident_char,
    lower_text, opt_text, same, same_ignore_case, slice_bytes, sliceable, split_whitespace,
    starts_with, texts, to_chars, trim, trim_end_matches, trim_end_matches_text, trim_matches,
    trim_matches_text, trim_text, upper_text, utf8, words,
};

verus! {

// ---------------------------------------------------------------------------
// RETURNING
// ---------------------------------------------------------------------------

/// The clause behind the word `RETURNING` in `sql`, whose upper-case form is `upper`: the outer
/// `None` where the statement cannot be cut there, the inner where there is no clause or a blank
/// one.
pub open spec fn returning_clause(sql: Seq<char>, upper: Seq<char>) -> Option<Option<Seq<char>>> {
    match index_of(utf8(upper), utf8(" RETURNING "@)) {
        None => Some(None),
        Some(idx) => {
            let from = idx + utf8(" RETURNING "@).len();
            if sliceable(sql, from, utf8(sql).len() as int) {
                let clause = trim_end_matches_text(
                    trim_text(byte_slice(sql, from, utf8(sql).len() as int)),
                    ';',
                );
                if clause.len() == 0 {
                    Some(None)
                } else {
                    Some(Some(clause))
                }
            } else {
                None
            }
        },
    }
}

/// The clause behind the word `RETURNING`, given the upper-case form of the statement.
pub fn returning_clause_with(sql: &str, upper: &str) -> (r: Option<Option<String>>)
    ensures
        match r {
            Some(c) => returning_clause(sql@, upper@) == Some(opt_text(c)),
            None => returning_clause(sql@, upper@) is None,
        },
{
    match find_byte_offset(upper, " RETURNING ") {
        None => Some(None),
        Some(idx) => {
            let n: usize = " RETURNING ".as_bytes().len();
            match slice_bytes(sql, idx + n, sql.as_bytes().len()) {
                None => None,
                Some(tail) => {
                    let clause = trim_end_matches(&trim(&tail), ';');
                    if clause.as_str().is_empty() {
                        Some(None)
                    } else {
                        Some(Some(clause))
                    }
                },
            }
        },
    }
}

/// The raw clause after `RETURNING`, if there is one; an outer `None` where the statement cannot be
/// cut behind the word.
pub fn extract_returning_clause(sql: &str) -> (r: Option<Option<String>>)
    ensures
        match r {
            Some(c) => returning_clause(sql@, upper_text(sql@)) == Some(opt_text(c)),
            None => returning_clause(sql@, upper_text(sql@)) is None,
        },
{
    let upper = sql.to_uppercase();
    returning_clause_with(sql, &upper)
}

// ---------------------------------------------------------------------------
// ALTER TABLE .. RENAME TO
// ---------------------------------------------------------------------------

/// The old and the new name in `ALTER TABLE <old> RENAME TO <new>`.
pub open spec fn rename_names(sql: Seq<char>) -> Option<(Seq<char>, Seq<char>)> {
    let w = words(sql);
    if w.len() < 6 || !same_ignore_case(w[0], "ALTER"@) || !same_ignore_case(w[1], "TABLE"@)
        || !same_ignore_case(w[3], "RENAME"@) || !same_ignore_case(w[4], "TO"@) {
        None
    } else {
        let old_name = trim_matches_text(w[2], '"');
        let new_name = trim_end_matches_text(trim_matches_text(w[5], '"'), ';');
        if old_name.len() == 0 || new_name.len() == 0 {
            None
        } else {
            Some((old_name, new_name))
        }
    }
}

/// The old and the new name in `ALTER TABLE <old> RENAME TO <new>`.
pub fn parse_alter_table_rename(sql: &str) -> (r: Option<(String, String)>)
    ensures
        match r {
            Some(p) => rename_names(sql@) == Some((p.0@, p.1@)),
            None => rename_names(sql@) is None,
        },
{
    let w = split_whitespace(sql);
    assert(texts(w@).len() == w@.len());
    if w.len() < 6 {
        return None;
    }
    proof {
        assert forall|i: int| 0 <= i < w@.len() implies words(sql@)[i] == w@[i]@ by {
            assert(texts(w@)[i] == w@[i]@);
        }
    }
    if !eq_ignore_ascii_case(&w[0], "ALTER") || !eq_ignore_ascii_case(&w[1], "TABLE")
        || !eq_ignore_ascii_case(&w[3], "RENAME") || !eq_ignore_ascii_case(&w[4], "TO") {
        return None;
    }
    let old_name = trim_matches(&w[2], '"');
    let new_name = trim_end_matches(&trim_matches(&w[5], '"'), ';');
    if old_name.as_str().is_empty() || new_name.as_str().is_empty() {
        None
    } else {
        Some((old_name, new_name))
    }
}

// ---------------------------------------------------------------------------
// ALTER TABLE .. SET (retention = ..)
// ---------------------------------------------------------------------------

/// `amount` units of `unit` seconds each, at most what fits in 64 bits.
pub open spec fn saturated_seconds(amount: nat, unit: nat) -> nat {
    if amount * unit > u64::MAX {
        u64::MAX as nat
    } else {
        amount * unit
    }
}

/// The number of seconds in a unit of time; a unit that is not known counts as a second.
pub open spec fn unit_seconds(unit: Seq<char>) -> nat {
    if unit == "day"@ || unit == "days"@ {
        86400
    } else if unit == "hour"@ || unit == "hours"@ {
        3600
    } else if unit == "minute"@ || unit == "minutes"@ {
        60
    } else {
        1
    }
}

/// The number of seconds in a unit of time.
pub fn seconds_in(unit: &str) -> (r: u64)
    ensures
        r == unit_seconds(unit@),
{
    if same(unit, "day") || same(unit, "days") {
        86400
    } else if same(unit, "hour") || same(unit, "hours") {
        3600
    } else if same(unit, "minute") || same(unit, "minutes") {
        60
    } else {
        1
    }
}

/// The text between the first two single quotes.
pub open spec fn first_quoted(sql: Seq<char>) -> Option<Seq<char>> {
    match char_index(sql, '\'') {
        None => None,
        Some(a) => match char_from(sql, '\'', a + 1) {
            None => None,
            Some(b) => Some(sql.subrange(a + 1, b)),
        },
    }
}

/// The text between the first two single quotes.
pub fn first_quoted_text(sql: &str) -> (r: Option<String>)
    ensures
        match r {
            Some(t) => first_quoted(sql@) == Some(t@),
            None => first_quoted(sql@) is None,
        },
{
    let v = to_chars(sql);
    match find_char_from(&v, '\'', 0) {
        None => None,
        Some(a) => {
            match find_char_from(&v, '\'', a + 1) {
                None => None,
                Some(b) => Some(from_chars(&v, a + 1, b)),
            }
        },
    }
}

/// The unit behind the amount, or `seconds`, before it is put in lower case.
pub open spec fn duration_unit(value: Seq<char>) -> Seq<char> {
    if words(value).len() > 1 {
        words(value)[1]
    } else {
        "seconds"@
    }
}

/// The seconds that a duration such as `30 days` stands for, given its unit in lower case.
pub open spec fn duration_seconds(value: Seq<char>, unit: Seq<char>) -> Option<nat> {
    if words(value).len() == 0 {
        None
    } else {
        match parsed_unsigned(words(value)[0], u64::MAX as nat) {
            None => None,
            Some(amount) => Some(saturated_seconds(amount, unit_seconds(unit))),
        }
    }
}

/// The unit of a duration, before it is put in lower case.
pub fn unit_of(value: &str) -> (r: String)
    ensures
        r@ == duration_unit(value@),
{
    let w = split_whitespace(value);
    assert(texts(w@).len() == w@.len());
    if w.len() > 1 {
        assert(texts(w@)[1] == w@[1]@);
        w[1].clone()
    } else {
        "seconds".to_owned()
    }
}

/// The seconds that a duration stands for, given its unit in lower case.
pub fn seconds_of(value: &str, unit: &str) -> (r: Option<u64>)
    ensures
        match r {
            Some(n) => duration_seconds(value@, unit@) == Some(n as nat),
            None => duration_seconds(value@, unit@) is None,
        },
{
    let w = split_whitespace(value);
    assert(texts(w@).len() == w@.len());
    if w.len() == 0 {
        return None;
    }
    assert(texts(w@)[0] == w@[0]@);
    match parse_u64(&w[0]) {
        None => None,
        Some(amount) => {
            let each: u64 = seconds_in(unit);
            assert(amount * each <= 0xffff_ffff_ffff_ffffu64 * 86400) by (nonlinear_arith)
                requires
                    amount <= 0xffff_ffff_ffff_ffffu64,
                    each <= 86400,
            ;
            assert(0 <= amount * each) by (nonlinear_arith)
                requires
                    0 <= amount,
                    0 <= each,
            ;
            let wide: u128 = amount as u128 * each as u128;
            if wide > u64::MAX as u128 {
                Some(u64::MAX)
            } else {
                Some(wide as u64)
            }
        },
    }
}

/// What `ALTER TABLE .. SET (retention = ..)` sets, given the statement in lower case: the outer
/// `None` where the statement sets nothing, the inner where it takes the retention away.
pub open spec fn retention_setting(sql: Seq<char>, lower: Seq<char>) -> Option<Option<nat>> {
    if !has_prefix(lower, "alter table"@) || !contains_seq(lower, "retention"@) {
        None
    } else if contains_seq(lower, "retention = null"@) {
        Some(None)
    } else {
        match first_quoted(sql) {
            None => None,
            Some(value) => match duration_seconds(value, lower_text(duration_unit(value))) {
                None => None,
                Some(n) => Some(Some(n)),
            },
        }
    }
}

/// Parses `ALTER TABLE ... SET (retention = '30 days')` into seconds.
pub fn parse_retention_setting(sql: &str) -> (r: Option<Option<u64>>)
    ensures
        match r {
            Some(Some(n)) => retention_setting(sql@, lower_text(sql@)) == Some(Some(n as nat)),
            Some(None) => retention_setting(sql@, lower_text(sql@)) == Some(None::<nat>),
            None => retention_setting(sql@, lower_text(sql@)) is None,
        },
{
    let lower = sql.to_lowercase();
    if !starts_with(&lower, "alter table") || !contains(&lower, "retention") {
        return None;
    }
    if contains(&lower, "retention = null") {
        return Some(None);
    }
    match first_quoted_text(sql) {
        None => None,
        Some(value) => {
            let unit = unit_of(&value).to_lowercase();
            match seconds_of(&value, &unit) {
                None => None,
                Some(n) => Some(Some(n)),
            }
        },
    }
}

// ---------------------------------------------------------------------------
// Integers
// ---------------------------------------------------------------------------

/// The number that the text of an expression stands for, with or without single quotes.
pub fn expr_to_i64(expr: &str) -> (r: Result<i64, String>)
    ensures
        match parsed_signed(trim_matches_text(expr@, '\'')) {
            Some(n) => r matches Ok(v) && v == n,
            None => r matches Err(e) && e@ == "Expected integer expression, got '"@ + expr@ + "'"@,
        },
{
    match parse_i64(&trim_matches(expr, '\'')) {
        Some(n) => Ok(n),
        None => Err(concat3("Expected integer expression, got '", expr, "'")),
    }
}

// ---------------------------------------------------------------------------
// Variables in DO blocks
// ---------------------------------------------------------------------------

/// Whether a character can stand in an identifier.
pub fn is_plpgsql_identifier_char(c: char) -> (r: bool)
    ensures
        r == is_ident_char(c),
{
    ident_char(c)
}

/// Whether the `m` characters at position `i` stand by themselves: neither before nor behind them
/// goes an identifier on.
pub open spec fn stands_alone(s: Seq<char>, m: int, i: int) -> bool {
    &&& i == 0 || !is_ident_char(s[i - 1])
    &&& i + m >= s.len() || !is_ident_char(s[i + m])
}

/// The text from position `i` on, with the `m` characters at each marked position replaced by
/// `value` where they stand by themselves. Every other character stays.
pub open spec fn with_words_from(
    s: Seq<char>,
    marks: Seq<bool>,
    m: int,
    value: Seq<char>,
    i: int,
) -> Seq<char>
    decreases s.len() - i,
{
    if i < 0 || m <= 0 || i >= s.len() {
        Seq::empty()
    } else if marks[i] && i + m <= s.len() && stands_alone(s, m, i) {
        value + with_words_from(s, marks, m, value, i + m)
    } else {
        seq![s[i]] + with_words_from(s, marks, m, value, i + 1)
    }
}

/// Where the variable occurs, without regard to case.
pub open spec fn variable_marks(s: Seq<char>, name: Seq<char>) -> Seq<bool> {
    Seq::new(
        s.len(),
        |i: int|
            i + name.len() <= s.len() && lower_text(s.subrange(i, i + name.len())) == lower_text(
                name,
            ),
    )
}

/// `sql` with the variable replaced by `value` where it stands by itself.
pub open spec fn with_variable(sql: Seq<char>, name: Seq<char>, value: Seq<char>) -> Seq<char> {
    if name.len() == 0 {
        sql
    } else {
        with_words_from(sql, variable_marks(sql, name), name.len() as int, value, 0)
    }
}

/// Replaces the `m` characters at each marked position by `value` where they stand by themselves.
pub fn replace_words(sql: &str, marks: &Vec<bool>, m: usize, value: &str) -> (r: String)
    requires
        marks@.len() == sql@.len(),
        m > 0,
    ensures
        r@ == with_words_from(sql@, marks@, m as int, value@, 0),
{
    let v = to_chars(sql);
    let n: usize = v.len();
    let mut out = String::new();
    let mut i: usize = 0;
    let ghost goal = with_words_from(v@, marks@, m as int, value@, 0);
    assert(out@ + goal == goal);
    while i < n
        invariant
            i <= n,
            n == v@.len(),
            v@ == sql@,
            n == marks@.len(),
            m > 0,
            goal == with_words_from(v@, marks@, m as int, value@, 0),
            out@ + with_words_from(v@, marks@, m as int, value@, i as int) == goal,
        decreases n - i,
    {
        let ghost before = out@;
        let ghost here = with_words_from(v@, marks@, m as int, value@, i as int);
        if marks[i] && m <= n - i && (i == 0 || !is_plpgsql_identifier_char(v[i - 1])) && (m == n - i
            || !is_plpgsql_identifier_char(v[i + m])) {
            out.append(value);
            proof {
                let rest = with_words_from(v@, marks@, m as int, value@, i + m);
                assert(here == value@ + rest);
                assert(before + here == out@ + rest);
            }
            i += m;
        } else {
            out.push(v[i]);
            proof {
                let rest = with_words_from(v@, marks@, m as int, value@, i + 1);
                assert(here == seq![v@[i as int]] + rest);
                assert(before + here == out@ + rest);
            }
            i += 1;
        }
    }
    assert(out@ + Seq::<char>::empty() == out@);
    out
}

/// Replaces a variable in the statement of a `DO` block by its value, without regard to case. The
/// variable counts only where it is not part of a longer identifier, and everything else stays.
pub fn substitute_plpgsql_var(sql: &str, var_name: &str, value: &str) -> (r: String)
    ensures
        r@ == with_variable(sql@, var_name@, value@),
{
    let name = to_chars(var_name);
    let m: usize = name.len();
    if m == 0 {
        return sql.to_owned();
    }
    let lower = var_name.to_lowercase();
    let v = to_chars(sql);
    let n: usize = v.len();
    let mut marks: Vec<bool> = Vec::new();
    let ghost goal = variable_marks(sql@, var_name@);
    let mut i: usize = 0;
    while i < n
        invariant
            i <= n,
            n == v@.len(),
            v@ == sql@,
            m == var_name@.len(),
            lower@ == lower_text(var_name@),
            goal == variable_marks(sql@, var_name@),
            marks@ == goal.subrange(0, i as int),
        decreases n - i,
    {
        let found: bool = if m <= n - i {
            let part = from_chars(&v, i, i + m).to_lowercase();
            same(&part, &lower)
        } else {
            false
        };
        marks.push(found);
        assert(goal.subrange(0, i + 1) == goal.subrange(0, i as int).push(goal[i as int]));
        i += 1;
    }
    assert(marks@ == goal);
    replace_words(sql, &marks, m, value)
}

/// A text in which the variable does not occur stays as it is.
pub proof fn law_text_without_the_variable_stays(
    sql: Seq<char>,
    name: Seq<char>,
    value: Seq<char>,
)
    requires
        forall|i: int|
            0 <= i && i + name.len() <= sql.len() ==> lower_text(
                #[trigger] sql.subrange(i, i + name.len()),
            ) != lower_text(name),
    ensures
        with_variable(sql, name, value) == sql,
{
    if name.len() > 0 {
        lemma_unmarked_stays(sql, variable_marks(sql, name), name.len() as int, value, 0);
        assert(sql.subrange(0, sql.len() as int) == sql);
    }
}

proof fn lemma_unmarked_stays(
    s: Seq<char>,
    marks: Seq<bool>,
    m: int,
    value: Seq<char>,
    i: int,
)
    requires
        0 <= i <= s.len(),
        m > 0,
        marks.len() == s.len(),
        forall|k: int| 0 <= k < marks.len() ==> !(#[trigger] marks[k]),
    ensures
        with_words_from(s, marks, m, value, i) == s.subrange(i, s.len() as int),
    decreases s.len() - i,
{
    if i < s.len() {
        lemma_unmarked_stays(s, marks, m, value, i + 1);
        assert(seq![s[i]] + s.subrange(i + 1, s.len() as int) == s.subrange(i, s.len() as int));
    }
}

/// A minute has sixty seconds, an hour sixty minutes and a day twenty-four hours, in the singular and in
/// the plural. Any other unit is a second.
pub proof fn law_units(unit: Seq<char>)
    ensures
        unit_seconds("minute"@) == 60 * unit_seconds("second"@),
        unit_seconds("hour"@) == 60 * unit_seconds("minute"@),
        unit_seconds("day"@) == 24 * unit_seconds("hour"@),
        unit_seconds("minutes"@) == unit_seconds("minute"@),
        unit_seconds("hours"@) == unit_seconds("hour"@),
        unit_seconds("days"@) == unit_seconds("day"@),
        unit_seconds(unit) != 1 ==> unit == "minute"@ || unit == "minutes"@ || unit == "hour"@
            || unit == "hours"@ || unit == "day"@ || unit == "days"@,
{
    reveal_strlit("second");
    reveal_strlit("minute");
    reveal_strlit("minutes");
    reveal_strlit("hour");
    reveal_strlit("hours");
    reveal_strlit("day");
    reveal_strlit("days");
    assert("second"@[0] == 's' && "minute"@[0] == 'm' && "minutes"@[0] == 'm');
    assert("hour"@[0] == 'h' && "hours"@[0] == 'h' && "day"@[0] == 'd' && "days"@[0] == 'd');
}

/// A retention without a unit is in seconds, and one of `NULL` is none.
pub proof fn law_retention(sql: Seq<char>, lower: Seq<char>, value: Seq<char>)
    ensures
        has_prefix(lower, "alter table"@) && contains_seq(lower, "retention"@) && contains_seq(
            lower,
            "retention = null"@,
        ) ==> retention_setting(sql, lower) == Some(None::<nat>),
        !contains_seq(lower, "retention"@) ==> retention_setting(sql, lower) is None,
        words(value).len() == 1 ==> duration_unit(value) == "seconds"@,
        words(value).len() > 1 ==> duration_unit(value) == words(value)[1],
        forall|a: nat, u: nat|
            a * u <= u64::MAX ==> #[trigger] saturated_seconds(a, u) == a * u,
        forall|a: nat, u: nat| #[trigger] saturated_seconds(a, u) <= u64::MAX,
{
}

/// A variable that stands alone is its value, in whatever case it is written.
pub proof fn law_variable_alone_is_its_value(sql: Seq<char>, name: Seq<char>, value: Seq<char>)
    requires
        name.len() > 0,
        sql.len() == name.len(),
        lower_text(sql) == lower_text(name),
    ensures
        with_variable(sql, name, value) == value,
{
    let marks = variable_marks(sql, name);
    let m = name.len() as int;
    assert(sql.subrange(0, m) =~= sql);
    assert(marks[0]);
    assert(stands_alone(sql, m, 0));
    assert(with_words_from(sql, marks, m, value, m) =~= Seq::<char>::empty());
    assert(value + Seq::<char>::empty() =~= value);
}

/// A variable within a longer name is not taken for the variable.
pub proof fn law_part_of_a_name_stays(s: Seq<char>, m: int, i: int)
    requires
        0 <= i,
        0 < m,
        i + m <= s.len(),
        (i > 0 && is_ident_char(s[i - 1])) || (i + m < s.len() && is_ident_char(s[i + m])),
    ensures
        !stands_alone(s, m, i),
{
}

/// A statement without `RETURNING` returns nothing.
pub proof fn law_nothing_is_returned_unasked(sql: Seq<char>, upper: Seq<char>)
    requires
        index_of(utf8(upper), utf8(" RETURNING "@)) is None,
    ensures
        returning_clause(sql, upper) == Some(None::<Seq<char>>),
{
}

} // verus!
