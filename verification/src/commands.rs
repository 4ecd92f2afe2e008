//! The texts of the commands that stand outside SQL: notifications, procedures, triggers, replicas
//! and the filter of the change log.
use vstd::prelude::*;
use vstd::string::*;

use crate::catalog_types::{TriggerDef, TriggerView};
use crate::functions::{find_ci, find_ci_offset};
use crate::scan::{dollar_body, extract_dollar_quoted_body};
use crate::text::{
    after_word, byte_slice, char_index, cuttable, find_byte_offset, find_char_from, from_chars,
    has_prefix, index_of, is_space, is_whitespace, lemma_char_from, opt_text, pieces, skip_word,
    slice_bytes,
    slice_from, sliceable, split_char, split_whitespace, starts_with, tail_at, texts, to_chars,
    trim, trim_end_matches, trim_end_matches_text, trim_matches, trim_matches_text, trim_text,
    upper_text, utf8, words,
};

verus! {

/// The texts before and behind the first white space.
pub open spec fn split_at_space(s: Seq<char>) -> Option<(Seq<char>, Seq<char>)> {
    let k = skip_word(s, 0);
    if k < s.len() {
        Some((s.subrange(0, k), s.subrange(k + 1, s.len() as int)))
    } else {
        None
    }
}

/// The texts before and behind the first white space.
pub fn split_once_space(s: &str) -> (r: Option<(String, String)>)
    ensures
        match r {
            Some(p) => split_at_space(s@) == Some((p.0@, p.1@)),
            None => split_at_space(s@) is None,
        },
{
    let v = to_chars(s);
    let n: usize = v.len();
    let mut i: usize = 0;
    while i < n && !is_whitespace(v[i])
        invariant
            i <= n,
            n == v@.len(),
            skip_word(v@, 0) == skip_word(v@, i as int),
        decreases n - i,
    {
        i += 1;
    }
    if i < n {
        Some((from_chars(&v, 0, i), from_chars(&v, i + 1, n)))
    } else {
        None
    }
}

/// The texts before and behind the first `c`.
pub open spec fn split_at_char(s: Seq<char>, c: char) -> Option<(Seq<char>, Seq<char>)> {
    match char_index(s, c) {
        Some(k) => Some((s.subrange(0, k), s.subrange(k + 1, s.len() as int))),
        None => None,
    }
}

/// The texts before and behind the first `c`.
pub fn split_once_char(s: &str, c: char) -> (r: Option<(String, String)>)
    ensures
        match r {
            Some(p) => split_at_char(s@, c) == Some((p.0@, p.1@)),
            None => split_at_char(s@, c) is None,
        },
{
    let v = to_chars(s);
    match find_char_from(&v, c, 0) {
        Some(k) => Some((from_chars(&v, 0, k), from_chars(&v, k + 1, v.len()))),
        None => None,
    }
}

/// A statement without white space around it and without semicolons at its end.
pub open spec fn bare(sql: Seq<char>) -> Seq<char> {
    trim_end_matches_text(trim_text(sql), ';')
}

/// A statement without white space around it and without semicolons at its end.
pub fn bare_statement(sql: &str) -> (r: String)
    ensures
        r@ == bare(sql@),
{
    trim_end_matches(&trim(sql), ';')
}

// ---------------------------------------------------------------------------
// LISTEN and NOTIFY
// ---------------------------------------------------------------------------

/// The channel of a `LISTEN` statement.
pub open spec fn listen_channel(sql: Seq<char>) -> Result<Seq<char>, Seq<char>> {
    if words(sql).len() < 2 {
        Err("LISTEN requires channel name"@)
    } else {
        Ok(trim_matches_text(trim_end_matches_text(words(sql)[1], ';'), '"'))
    }
}

/// The channel of a `LISTEN` statement.
pub fn parse_listen(sql: &str) -> (r: Result<String, String>)
    ensures
        match r {
            Ok(c) => listen_channel(sql@) == Ok::<Seq<char>, Seq<char>>(c@),
            Err(e) => listen_channel(sql@) == Err::<Seq<char>, Seq<char>>(e@),
        },
{
    let w = split_whitespace(sql);
    assert(texts(w@).len() == w@.len());
    if w.len() < 2 {
        return Err("LISTEN requires channel name".to_owned());
    }
    assert(texts(w@)[1] == w@[1]@);
    Ok(trim_matches(&trim_end_matches(&w[1], ';'), '"'))
}

/// The channel and the payload of a `NOTIFY` statement.
pub open spec fn notify_parts(sql: Seq<char>) -> Result<(Seq<char>, Seq<char>), Seq<char>> {
    match split_at_space(bare(sql)) {
        None => Err("NOTIFY requires channel name"@),
        Some(p) => {
            let after = trim_text(p.1);
            match split_at_char(after, ',') {
                Some(q) => Ok(
                    (
                        trim_matches_text(trim_text(q.0), '"'),
                        trim_matches_text(trim_text(q.1), '\''),
                    ),
                ),
                None => Ok((trim_matches_text(trim_text(after), '"'), Seq::empty())),
            }
        },
    }
}

/// The channel and the payload of a `NOTIFY` statement.
pub fn parse_notify(sql: &str) -> (r: Result<(String, String), String>)
    ensures
        match r {
            Ok(p) => notify_parts(sql@) == Ok::<(Seq<char>, Seq<char>), Seq<char>>((p.0@, p.1@)),
            Err(e) => notify_parts(sql@) == Err::<(Seq<char>, Seq<char>), Seq<char>>(e@),
        },
{
    let s = bare_statement(sql);
    match split_once_space(&s) {
        None => Err("NOTIFY requires channel name".to_owned()),
        Some((head, rest)) => {
            let after = trim(&rest);
            match split_once_char(&after, ',') {
                Some((ch, pl)) => Ok(
                    (trim_matches(&trim(&ch), '"'), trim_matches(&trim(&pl), '\'')),
                ),
                None => Ok((trim_matches(&trim(&after), '"'), String::new())),
            }
        },
    }
}

// ---------------------------------------------------------------------------
// Procedures
// ---------------------------------------------------------------------------

/// The first position at or after `i` that holds white space or an opening parenthesis.
pub open spec fn name_end(s: Seq<char>, i: int) -> Option<int>
    decreases s.len() - i,
{
    if i < 0 || i >= s.len() {
        None
    } else if s[i] == '(' || is_space(s[i]) {
        Some(i)
    } else {
        name_end(s, i + 1)
    }
}

fn find_name_end(v: &Vec<char>) -> (r: Option<usize>)
    ensures
        match r {
            Some(k) => name_end(v@, 0) == Some(k as int) && k < v@.len(),
            None => name_end(v@, 0) is None,
        },
{
    let n: usize = v.len();
    let mut i: usize = 0;
    while i < n
        invariant
            i <= n,
            n == v@.len(),
            name_end(v@, 0) == name_end(v@, i as int),
        decreases n - i,
    {
        if v[i] == '(' || is_whitespace(v[i]) {
            return Some(i);
        }
        i += 1;
    }
    None
}

/// The name and the body of the procedure that a bare statement defines, given its upper-case form.
/// `None` where the statement cannot be cut behind the words.
pub open spec fn procedure_parts(
    t: Seq<char>,
    upper: Seq<char>,
) -> Option<Result<(Seq<char>, Seq<char>), Seq<char>>> {
    let n = utf8("CREATE PROCEDURE "@).len() as int;
    if !has_prefix(upper, "CREATE PROCEDURE "@) {
        Some(Err("Expected CREATE PROCEDURE"@))
    } else if !cuttable(t, n) {
        None
    } else {
        let after = trim_text(tail_at(t, n));
        match name_end(after, 0) {
            None => Some(Err("CREATE PROCEDURE requires a name"@)),
            Some(k) => match dollar_body(t) {
                None => Some(Err("CREATE PROCEDURE requires $$...$$"@)),
                Some(body) => Some(Ok((trim_matches_text(after.subrange(0, k), '"'), body))),
            },
        }
    }
}

/// The name and the body of the procedure that a bare statement defines, given its upper-case form.
pub fn create_procedure_with(t: &str, upper: &str) -> (r: Option<Result<(String, String), String>>)
    ensures
        match r {
            None => procedure_parts(t@, upper@) is None,
            Some(Ok(p)) => procedure_parts(t@, upper@) == Some(
                Ok::<(Seq<char>, Seq<char>), Seq<char>>((p.0@, p.1@)),
            ),
            Some(Err(e)) => procedure_parts(t@, upper@) == Some(
                Err::<(Seq<char>, Seq<char>), Seq<char>>(e@),
            ),
        },
{
    if !starts_with(upper, "CREATE PROCEDURE ") {
        return Some(Err("Expected CREATE PROCEDURE".to_owned()));
    }
    match after_word(t, "CREATE PROCEDURE ") {
        None => None,
        Some(tail) => {
            let after = trim(&tail);
            let v = to_chars(&after);
            match find_name_end(&v) {
                None => Some(Err("CREATE PROCEDURE requires a name".to_owned())),
                Some(k) => {
                    let name = trim_matches(&from_chars(&v, 0, k), '"');
                    match extract_dollar_quoted_body(t) {
                        None => Some(Err("CREATE PROCEDURE requires $$...$$".to_owned())),
                        Some(body) => Some(Ok((name, body))),
                    }
                },
            }
        },
    }
}

/// The name and the body of the procedure that a `CREATE PROCEDURE` statement defines.
pub fn parse_create_procedure(sql: &str) -> (r: Option<Result<(String, String), String>>)
    ensures
        match r {
            None => procedure_parts(bare(sql@), upper_text(bare(sql@))) is None,
            Some(Ok(p)) => procedure_parts(bare(sql@), upper_text(bare(sql@))) == Some(
                Ok::<(Seq<char>, Seq<char>), Seq<char>>((p.0@, p.1@)),
            ),
            Some(Err(e)) => procedure_parts(bare(sql@), upper_text(bare(sql@))) == Some(
                Err::<(Seq<char>, Seq<char>), Seq<char>>(e@),
            ),
        },
{
    let t = bare_statement(sql);
    let upper = t.to_uppercase();
    create_procedure_with(&t, &upper)
}

/// The name of the procedure that a `CALL` statement calls.
pub open spec fn called_procedure(sql: Seq<char>) -> Result<Seq<char>, Seq<char>> {
    match split_at_space(bare(sql)) {
        None => Err("CALL requires a procedure name"@),
        Some(p) => Ok(trim_matches_text(trim_text(pieces(trim_text(p.1), '(')[0]), '"')),
    }
}

/// The name of the procedure that a `CALL` statement calls.
pub fn parse_call(sql: &str) -> (r: Result<String, String>)
    ensures
        match r {
            Ok(n) => called_procedure(sql@) == Ok::<Seq<char>, Seq<char>>(n@),
            Err(e) => called_procedure(sql@) == Err::<Seq<char>, Seq<char>>(e@),
        },
{
    let s = bare_statement(sql);
    match split_once_space(&s) {
        None => Err("CALL requires a procedure name".to_owned()),
        Some((head, rest)) => {
            let parts = split_char(&trim(&rest), '(');
            assert(texts(parts@)[0] == parts@[0]@);
            Ok(trim_matches(&trim(&parts[0]), '"'))
        },
    }
}

// ---------------------------------------------------------------------------
// Triggers
// ---------------------------------------------------------------------------

/// When a trigger fires, by the upper-case form of what stands behind its name.
pub open spec fn trigger_timing(upper: Seq<char>) -> Option<Seq<char>> {
    if has_prefix(upper, "BEFORE "@) {
        Some("BEFORE"@)
    } else if has_prefix(upper, "AFTER "@) {
        Some("AFTER"@)
    } else {
        None
    }
}

/// What a trigger fires on, by the upper-case form of what stands behind its timing.
pub open spec fn trigger_event(upper: Seq<char>) -> Option<Seq<char>> {
    if has_prefix(upper, "INSERT "@) {
        Some("INSERT"@)
    } else if has_prefix(upper, "UPDATE "@) {
        Some("UPDATE"@)
    } else if has_prefix(upper, "DELETE "@) {
        Some("DELETE"@)
    } else {
        None
    }
}

/// The trigger of the given name, timing, event and body on the table that `after_event` names.
pub open spec fn trigger_on(
    name: Seq<char>,
    timing: Seq<char>,
    event: Seq<char>,
    body: Option<Seq<char>>,
    after_event: Seq<char>,
) -> Option<Result<TriggerView, Seq<char>>> {
    match find_ci_offset(after_event, " ON "@) {
        None => Some(Err("CREATE TRIGGER requires ON"@)),
        Some(on) => if !cuttable(after_event, on + 4) {
            None
        } else {
            let part = trim_text(tail_at(after_event, on + 4));
            match find_ci_offset(part, " EXECUTE "@) {
                None => Some(Err("CREATE TRIGGER requires EXECUTE"@)),
                Some(at) => if !sliceable(part, 0, at) {
                    None
                } else {
                    match body {
                        None => Some(Err("CREATE TRIGGER requires $$...$$ body"@)),
                        Some(b) => Some(
                            Ok(
                                TriggerView {
                                    name,
                                    table: trim_matches_text(
                                        trim_text(byte_slice(part, 0, at)),
                                        '"',
                                    ),
                                    event,
                                    timing,
                                    body: b,
                                },
                            ),
                        ),
                    }
                },
            }
        },
    }
}

/// The trigger that a bare statement defines, given its upper-case form. `None` where the
/// statement cannot be cut at a place that was found. What stands behind the timing begins six
/// bytes behind the name, the length of `BEFORE`.
pub open spec fn trigger_parts(t: Seq<char>, upper: Seq<char>) -> Option<
    Result<TriggerView, Seq<char>>,
> {
    let n = utf8("CREATE TRIGGER "@).len() as int;
    if !has_prefix(upper, "CREATE TRIGGER "@) {
        Some(Err("Expected CREATE TRIGGER"@))
    } else if !cuttable(t, n) {
        None
    } else {
        let after = trim_text(tail_at(t, n));
        let k = skip_word(after, 0);
        if k >= after.len() {
            Some(Err("CREATE TRIGGER requires trigger name"@))
        } else {
            let name = trim_matches_text(after.subrange(0, k), '"');
            let rest = trim_text(after.subrange(k, after.len() as int));
            match trigger_timing(upper_text(rest)) {
                None => Some(Err("CREATE TRIGGER requires BEFORE or AFTER"@)),
                Some(timing) => if !cuttable(rest, 6) {
                    None
                } else {
                    let after_timing = trim_text(tail_at(rest, 6));
                    match trigger_event(upper_text(after_timing)) {
                        None => Some(
                            Err("CREATE TRIGGER requires INSERT, UPDATE, or DELETE"@),
                        ),
                        Some(event) => if !cuttable(after_timing, utf8(event).len() as int) {
                            None
                        } else {
                            trigger_on(
                                name,
                                timing,
                                event,
                                dollar_body(t),
                                tail_at(after_timing, utf8(event).len() as int),
                            )
                        },
                    }
                },
            }
        }
    }
}

/// Whether the outcome of a reading is the one that the specification names.
pub open spec fn trigger_outcome(
    r: Option<Result<TriggerDef, String>>,
    spec: Option<Result<TriggerView, Seq<char>>>,
) -> bool {
    match r {
        None => spec is None,
        Some(Err(e)) => spec == Some(Err::<TriggerView, Seq<char>>(e@)),
        Some(Ok(def)) => spec == Some(Ok::<TriggerView, Seq<char>>(def@)),
    }
}

fn read_trigger_on(
    name: String,
    timing: &str,
    event: &str,
    body: Option<String>,
    after_event: &str,
) -> (r: Option<Result<TriggerDef, String>>)
    ensures
        trigger_outcome(
            r,
            trigger_on(name@, timing@, event@, opt_text(body), after_event@),
        ),
{
    let on: usize = match find_ci(after_event, " ON ") {
        None => {
            return Some(Err("CREATE TRIGGER requires ON".to_owned()));
        },
        Some(k) => k,
    };
    let part = match slice_from(after_event, on, 4) {
        None => {
            return None;
        },
        Some(s) => trim(&s),
    };
    let at: usize = match find_ci(&part, " EXECUTE ") {
        None => {
            return Some(Err("CREATE TRIGGER requires EXECUTE".to_owned()));
        },
        Some(k) => k,
    };
    let table = match slice_bytes(&part, 0, at) {
        None => {
            return None;
        },
        Some(s) => trim_matches(&trim(&s), '"'),
    };
    match body {
        None => Some(Err("CREATE TRIGGER requires $$...$$ body".to_owned())),
        Some(b) => Some(
            Ok(
                TriggerDef {
                    name,
                    table,
                    event: event.to_owned(),
                    timing: timing.to_owned(),
                    body: b,
                },
            ),
        ),
    }
}

/// The trigger that a bare statement defines, given its upper-case form.
pub fn create_trigger_with(t: &str, upper: &str) -> (r: Option<Result<TriggerDef, String>>)
    ensures
        trigger_outcome(r, trigger_parts(t@, upper@)),
{
    if !starts_with(upper, "CREATE TRIGGER ") {
        return Some(Err("Expected CREATE TRIGGER".to_owned()));
    }
    let after = match after_word(t, "CREATE TRIGGER ") {
        None => {
            return None;
        },
        Some(s) => trim(&s),
    };
    let v = to_chars(&after);
    let total: usize = v.len();
    let mut k: usize = 0;
    while k < total && !is_whitespace(v[k])
        invariant
            k <= total,
            total == v@.len(),
            skip_word(v@, 0) == skip_word(v@, k as int),
        decreases total - k,
    {
        k += 1;
    }
    if k >= total {
        return Some(Err("CREATE TRIGGER requires trigger name".to_owned()));
    }
    let name = trim_matches(&from_chars(&v, 0, k), '"');
    let rest = trim(&from_chars(&v, k, total));
    let rest_upper = rest.to_uppercase();
    let timing = if starts_with(&rest_upper, "BEFORE ") {
        "BEFORE"
    } else if starts_with(&rest_upper, "AFTER ") {
        "AFTER"
    } else {
        return Some(Err("CREATE TRIGGER requires BEFORE or AFTER".to_owned()));
    };
    let after_timing = match slice_from(&rest, 6, 0) {
        None => {
            return None;
        },
        Some(s) => trim(&s),
    };
    let event_upper = after_timing.to_uppercase();
    let event = if starts_with(&event_upper, "INSERT ") {
        "INSERT"
    } else if starts_with(&event_upper, "UPDATE ") {
        "UPDATE"
    } else if starts_with(&event_upper, "DELETE ") {
        "DELETE"
    } else {
        return Some(Err("CREATE TRIGGER requires INSERT, UPDATE, or DELETE".to_owned()));
    };
    let after_event = match after_word(&after_timing, event) {
        None => {
            return None;
        },
        Some(s) => s,
    };
    let body = extract_dollar_quoted_body(t);
    read_trigger_on(name, timing, event, body, &after_event)
}

/// The trigger that a `CREATE TRIGGER` statement defines.
pub fn parse_create_trigger(sql: &str) -> (r: Option<Result<TriggerDef, String>>)
    ensures
        trigger_outcome(r, trigger_parts(bare(sql@), upper_text(bare(sql@)))),
{
    let t = bare_statement(sql);
    let upper = t.to_uppercase();
    create_trigger_with(&t, &upper)
}

/// The name of the trigger that a bare statement drops, given its upper-case form. `None` where
/// the statement cannot be cut behind the words.
pub open spec fn dropped_trigger(t: Seq<char>, upper: Seq<char>) -> Option<
    Result<Seq<char>, Seq<char>>,
> {
    let n = utf8("DROP TRIGGER "@).len() as int;
    if !has_prefix(upper, "DROP TRIGGER "@) {
        Some(Err("Expected DROP TRIGGER"@))
    } else if !cuttable(t, n) {
        None
    } else if words(tail_at(t, n)).len() == 0 {
        Some(Err("DROP TRIGGER requires trigger name"@))
    } else {
        Some(Ok(trim_matches_text(words(tail_at(t, n))[0], '"')))
    }
}

/// The name of the trigger that a bare statement drops, given its upper-case form.
pub fn drop_trigger_with(t: &str, upper: &str) -> (r: Option<Result<String, String>>)
    ensures
        match r {
            None => dropped_trigger(t@, upper@) is None,
            Some(Ok(n)) => dropped_trigger(t@, upper@) == Some(Ok::<Seq<char>, Seq<char>>(n@)),
            Some(Err(e)) => dropped_trigger(t@, upper@) == Some(Err::<Seq<char>, Seq<char>>(e@)),
        },
{
    if !starts_with(upper, "DROP TRIGGER ") {
        return Some(Err("Expected DROP TRIGGER".to_owned()));
    }
    match after_word(t, "DROP TRIGGER ") {
        None => None,
        Some(tail) => {
            let w = split_whitespace(&tail);
            assert(texts(w@).len() == w@.len());
            if w.len() == 0 {
                return Some(Err("DROP TRIGGER requires trigger name".to_owned()));
            }
            assert(texts(w@)[0] == w@[0]@);
            Some(Ok(trim_matches(&w[0], '"')))
        },
    }
}

/// The name of the trigger that a `DROP TRIGGER` statement drops.
pub fn parse_drop_trigger(sql: &str) -> (r: Option<Result<String, String>>)
    ensures
        match r {
            None => dropped_trigger(bare(sql@), upper_text(bare(sql@))) is None,
            Some(Ok(n)) => dropped_trigger(bare(sql@), upper_text(bare(sql@))) == Some(
                Ok::<Seq<char>, Seq<char>>(n@),
            ),
            Some(Err(e)) => dropped_trigger(bare(sql@), upper_text(bare(sql@))) == Some(
                Err::<Seq<char>, Seq<char>>(e@),
            ),
        },
{
    let t = bare_statement(sql);
    let upper = t.to_uppercase();
    drop_trigger_with(&t, &upper)
}

// ---------------------------------------------------------------------------
// Replicas
// ---------------------------------------------------------------------------

/// The address behind `word` in a replica statement. `None` where the statement cannot be cut
/// behind the word.
pub open spec fn replica_url(sql: Seq<char>, word: Seq<char>) -> Option<Seq<char>> {
    if cuttable(sql, utf8(word).len() as int) {
        Some(
            trim_matches_text(
                trim_matches_text(
                    trim_text(
                        trim_end_matches_text(
                            trim_text(tail_at(sql, utf8(word).len() as int)),
                            ';',
                        ),
                    ),
                    '\'',
                ),
                '"',
            ),
        )
    } else {
        None
    }
}

/// The address behind `word` in a replica statement.
pub fn parse_replica(sql: &str, word: &str) -> (r: Option<String>)
    ensures
        opt_text(r) == replica_url(sql@, word@),
{
    match after_word(sql, word) {
        None => None,
        Some(tail) => {
            let rest = trim(&trim_end_matches(&trim(&tail), ';'));
            Some(trim_matches(&trim_matches(&rest, '\''), '"'))
        },
    }
}

// ---------------------------------------------------------------------------
// The filter of the change log
// ---------------------------------------------------------------------------

/// The table that a query on the change log is restricted to, given the query's upper-case form:
/// what stands behind the first `=` behind `TABLE` behind `WHERE`. The outer `None` where the query
/// cannot be cut at a place that was found.
pub open spec fn cdc_filter(sql: Seq<char>, upper: Seq<char>) -> Option<Option<Seq<char>>> {
    match index_of(utf8(upper), utf8("WHERE"@)) {
        None => Some(None),
        Some(at) => {
            let from = at + utf8("WHERE"@).len();
            if !cuttable(sql, from) {
                None
            } else {
                let clause = tail_at(sql, from);
                match index_of(utf8(upper_text(clause)), utf8("TABLE"@)) {
                    None => Some(None),
                    Some(k) => {
                        let behind = k + utf8("TABLE"@).len();
                        if !cuttable(clause, behind) {
                            None
                        } else {
                            match split_at_char(tail_at(clause, behind), '=') {
                                None => Some(None),
                                Some(p) => Some(
                                    Some(
                                        trim_matches_text(
                                            trim_matches_text(
                                                trim_end_matches_text(trim_text(p.1), ';'),
                                                '\'',
                                            ),
                                            '"',
                                        ),
                                    ),
                                ),
                            }
                        }
                    },
                }
            }
        },
    }
}

/// The table that a query on the change log is restricted to, given the query's upper-case form.
pub fn cdc_filter_with(sql: &str, upper: &str) -> (r: Option<Option<String>>)
    ensures
        match r {
            Some(t) => cdc_filter(sql@, upper@) == Some(opt_text(t)),
            None => cdc_filter(sql@, upper@) is None,
        },
{
    let at: usize = match find_byte_offset(upper, "WHERE") {
        None => {
            return Some(None);
        },
        Some(k) => k,
    };
    let n: usize = "WHERE".as_bytes().len();
    let clause = match slice_from(sql, at, n) {
        None => {
            return None;
        },
        Some(s) => s,
    };
    let clause_upper = clause.to_uppercase();
    let k: usize = match find_byte_offset(&clause_upper, "TABLE") {
        None => {
            return Some(None);
        },
        Some(k) => k,
    };
    let m: usize = "TABLE".as_bytes().len();
    match slice_from(&clause, k, m) {
        None => None,
        Some(rest) => {
            match split_once_char(&rest, '=') {
                None => Some(None),
                Some((left, right)) => {
                    let t = trim_matches(
                        &trim_matches(&trim_end_matches(&trim(&right), ';'), '\''),
                        '"',
                    );
                    Some(Some(t))
                },
            }
        },
    }
}

/// The table that a query on the change log is restricted to.
pub fn parse_cdc_filter(sql: &str) -> (r: Option<Option<String>>)
    ensures
        match r {
            Some(t) => cdc_filter(sql@, upper_text(sql@)) == Some(opt_text(t)),
            None => cdc_filter(sql@, upper_text(sql@)) is None,
        },
{
    let upper = sql.to_uppercase();
    cdc_filter_with(sql, &upper)
}

// ---------------------------------------------------------------------------
// Laws
// ---------------------------------------------------------------------------

/// A trigger runs before or after an insert, an update or a delete, as the statement says.
pub proof fn law_trigger_words(upper: Seq<char>)
    ensures
        has_prefix(upper, "BEFORE "@) ==> trigger_timing(upper) == Some("BEFORE"@),
        has_prefix(upper, "AFTER "@) ==> trigger_timing(upper) == Some("AFTER"@),
        has_prefix(upper, "INSERT "@) ==> trigger_event(upper) == Some("INSERT"@),
        has_prefix(upper, "UPDATE "@) ==> trigger_event(upper) == Some("UPDATE"@),
        has_prefix(upper, "DELETE "@) ==> trigger_event(upper) == Some("DELETE"@),
        trigger_timing(upper) is Some ==> has_prefix(upper, "BEFORE "@) || has_prefix(
            upper,
            "AFTER "@,
        ),
        trigger_event(upper) is Some ==> has_prefix(upper, "INSERT "@) || has_prefix(
            upper,
            "UPDATE "@,
        ) || has_prefix(upper, "DELETE "@),
{
    reveal_strlit("BEFORE ");
    reveal_strlit("AFTER ");
    reveal_strlit("INSERT ");
    reveal_strlit("UPDATE ");
    reveal_strlit("DELETE ");
    assert("BEFORE "@[0] == 'B' && "AFTER "@[0] == 'A');
    assert("INSERT "@[0] == 'I' && "UPDATE "@[0] == 'U' && "DELETE "@[0] == 'D');
    if has_prefix(upper, "BEFORE "@) {
        assert(upper.subrange(0, "BEFORE "@.len() as int)[0] == upper[0]);
    }
    if has_prefix(upper, "AFTER "@) {
        assert(upper.subrange(0, "AFTER "@.len() as int)[0] == upper[0]);
    }
    if has_prefix(upper, "INSERT "@) {
        assert(upper.subrange(0, "INSERT "@.len() as int)[0] == upper[0]);
    }
    if has_prefix(upper, "UPDATE "@) {
        assert(upper.subrange(0, "UPDATE "@.len() as int)[0] == upper[0]);
    }
    if has_prefix(upper, "DELETE "@) {
        assert(upper.subrange(0, "DELETE "@.len() as int)[0] == upper[0]);
    }
}

/// A text is cut at the first of a character: the two parts with the character between them are the
/// text, and the first part does not hold it.
pub proof fn law_cut_at_a_character(s: Seq<char>, c: char)
    ensures
        split_at_char(s, c) matches Some(p) ==> p.0 + seq![c] + p.1 == s && !p.0.contains(c),
        split_at_char(s, c) is None <==> !s.contains(c),
{
    lemma_char_from(s, c, 0);
    if let Some(k) = char_index(s, c) {
        assert(s.subrange(0, k) + seq![c] + s.subrange(k + 1, s.len() as int) =~= s);
        let head = s.subrange(0, k);
        if head.contains(c) {
            let i = choose|i: int| 0 <= i < head.len() && head[i] == c;
            assert(s[i] == c);
        }
        assert(s.contains(s[k]));
    } else if s.contains(c) {
        let i = choose|i: int| 0 <= i < s.len() && s[i] == c;
        assert(s[i] == c);
    }
}

} // verus!
