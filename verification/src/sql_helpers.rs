//! Helpers that look at a statement as text.
//!
//! Keywords are looked for in the upper-case form of a statement and the statement is then cut at
//! the byte offsets that were found. Upper-casing can change the length of a text, so that such an
//! offset can fall inside a character of the statement: the functions named `try_..` say so with
//! `None`, and the others ask that it does not happen. It never happens in an ASCII statement.
use vstd::prelude::*;
use vstd::string::*;

use crate::numbers::{parse_i64, parsed_signed};
use crate::text::{
    ascii_lower, ascii_lower_text, byte_slice, char_from, char_index, concat2, find_byte_offset,
    find_char_from, from_chars, has_prefix, index_of, is_space, lemma_trim_ends,
    lemma_trimmed_stays, lemma_upper_ignores_case, lemma_words_before, lemma_words_behind_space,
    lemma_words_in_lower_case,
    pieces, same, same_ignore_case, slice_bytes, sliceable, split_char, split_whitespace,
    starts_with, texts, to_chars, trim, trim_end_matches, trim_end_matches_text, trim_start,
    trim_start_text, trim_text, upper_text, utf8, words,
};

verus! {

// ---------------------------------------------------------------------------
// EXPLAIN
// ---------------------------------------------------------------------------

/// Whether one of the options in a comma-separated list is `ANALYZE`.
pub open spec fn has_analyze(opts: Seq<char>) -> bool {
    exists|i: int|
        0 <= i < pieces(opts, ',').len() && trim_text(#[trigger] pieces(opts, ',')[i])
            == "ANALYZE"@
}

/// The statement `t`, whose upper-case form is `u`, with the option list behind `EXPLAIN` taken
/// out; `ANALYZE` stays. `None` where the list cannot be cut out of `u`.
pub open spec fn explain_text(t: Seq<char>, u: Seq<char>) -> Option<Seq<char>> {
    let end = utf8(t).len() as int;
    if !has_prefix(u, "EXPLAIN ("@) {
        Some(t)
    } else {
        match (index_of(utf8(t), utf8("("@)), index_of(utf8(t), utf8(")"@))) {
            (Some(open), Some(close)) => if close <= open {
                Some(t)
            } else if !sliceable(u, open + 1, close) || !sliceable(t, close + 1, end) {
                None
            } else {
                let opts = trim_text(byte_slice(u, open + 1, close));
                let rest = trim_text(byte_slice(t, close + 1, end));
                if rest.len() == 0 {
                    Some(t)
                } else if has_analyze(opts) {
                    Some("EXPLAIN ANALYZE "@ + rest)
                } else {
                    Some("EXPLAIN "@ + rest)
                }
            },
            _ => Some(t),
        }
    }
}

fn lists_analyze(opts: &str) -> (r: bool)
    ensures
        r == has_analyze(opts@),
{
    let parts = split_char(opts, ',');
    let mut i: usize = 0;
    while i < parts.len()
        invariant
            i <= parts@.len(),
            texts(parts@) == pieces(opts@, ','),
            forall|j: int|
                0 <= j < i ==> trim_text(#[trigger] pieces(opts@, ',')[j]) != "ANALYZE"@,
        decreases parts@.len() - i,
    {
        let t = trim(&parts[i]);
        assert(texts(parts@)[i as int] == parts@[i as int]@);
        if same(&t, "ANALYZE") {
            return true;
        }
        i += 1;
    }
    false
}

/// The statement `trimmed` without the option list of an `EXPLAIN`, given its upper-case form.
pub fn explain_with(trimmed: &str, upper: &str) -> (r: Option<String>)
    ensures
        match r {
            Some(s) => explain_text(trimmed@, upper@) == Some(s@),
            None => explain_text(trimmed@, upper@) is None,
        },
{
    if !starts_with(upper, "EXPLAIN (") {
        return Some(trimmed.to_owned());
    }
    match (find_byte_offset(trimmed, "("), find_byte_offset(trimmed, ")")) {
        (Some(open), Some(close)) => {
            if close <= open {
                return Some(trimmed.to_owned());
            }
            proof {
                reveal_strlit(")");
                vstd::utf8::is_ascii_chars_encode_utf8(")"@);
            }
            match (
                slice_bytes(upper, open + 1, close),
                slice_bytes(trimmed, close + 1, trimmed.as_bytes().len()),
            ) {
                (Some(list), Some(tail)) => {
                    let opts = trim(&list);
                    let rest = trim(&tail);
                    if rest.as_str().is_empty() {
                        Some(trimmed.to_owned())
                    } else if lists_analyze(&opts) {
                        Some(concat2("EXPLAIN ANALYZE ", &rest))
                    } else {
                        Some(concat2("EXPLAIN ", &rest))
                    }
                },
                _ => None,
            }
        },
        _ => Some(trimmed.to_owned()),
    }
}

/// What [`normalize_explain_sql`] makes of a statement.
pub open spec fn normalized_explain(sql: Seq<char>) -> Option<Seq<char>> {
    explain_text(trim_text(sql), upper_text(trim_text(sql)))
}

/// Rewrites PostgreSQL-style `EXPLAIN (FORMAT JSON)` into `EXPLAIN`, and an option list that holds
/// `ANALYZE` into `EXPLAIN ANALYZE`. Other statements are trimmed and else left as they are.
pub fn normalize_explain_sql(sql: &str) -> (r: String)
    requires
        normalized_explain(sql@) is Some,
    ensures
        normalized_explain(sql@) == Some(r@),
{
    let trimmed = trim(sql);
    let upper = trimmed.to_uppercase();
    explain_with(&trimmed, &upper).unwrap()
}

/// Once the option list is gone, a statement is left as it is: what comes out is trimmed, and comes
/// out again, where nothing was cut or what follows the list does not look like another list.
pub proof fn law_normalized_explain_stays(sql: Seq<char>, r: Seq<char>)
    requires
        normalized_explain(sql) == Some(r),
    ensures
        trim_text(r) == r,
        r == trim_text(sql) || !has_prefix(upper_text(r), "EXPLAIN ("@) ==> normalized_explain(r)
            == Some(r),
{
    let t = trim_text(sql);
    lemma_trim_ends(sql);
    if r != t {
        let close = index_of(utf8(t), utf8(")"@))->0;
        let tail = byte_slice(t, close + 1, utf8(t).len() as int);
        let rest = trim_text(tail);
        lemma_trim_ends(tail);
        reveal_strlit("EXPLAIN ");
        reveal_strlit("EXPLAIN ANALYZE ");
        assert(r == "EXPLAIN "@ + rest || r == "EXPLAIN ANALYZE "@ + rest);
        assert(r.last() == rest.last());
        assert(r[0] == 'E');
        lemma_trimmed_stays(r);
    }
}

/// As [`normalize_explain_sql`], with `None` where the option list cannot be cut out.
pub fn try_normalize_explain_sql(sql: &str) -> (r: Option<String>)
    ensures
        match r {
            Some(s) => normalized_explain(sql@) == Some(s@),
            None => normalized_explain(sql@) is None,
        },
{
    let trimmed = trim(sql);
    let upper = trimmed.to_uppercase();
    if explain_with(&trimmed, &upper).is_none() {
        return None;
    }
    Some(normalize_explain_sql(sql))
}

// ---------------------------------------------------------------------------
// Read-only statements
// ---------------------------------------------------------------------------

/// The first word of a statement, or the empty text.
pub open spec fn first_word(sql: Seq<char>) -> Seq<char> {
    if words(sql).len() > 0 {
        words(sql)[0]
    } else {
        Seq::empty()
    }
}

/// The first word of a statement, or the empty text.
pub fn leading_word(sql: &str) -> (r: String)
    ensures
        r@ == first_word(sql@),
{
    let w = split_whitespace(sql);
    assert(texts(w@).len() == w@.len());
    if w.len() > 0 {
        assert(texts(w@)[0] == w@[0]@);
        w[0].clone()
    } else {
        String::new()
    }
}

/// Whether the word, in upper case, begins a statement that only reads.
pub open spec fn is_reading_word(w: Seq<char>) -> bool {
    ||| w == "SELECT"@
    ||| w == "WITH"@
    ||| w == "SHOW"@
    ||| w == "DESCRIBE"@
    ||| w == "EXPLAIN"@
}

/// Whether the word, in upper case, begins a statement that only reads.
pub fn reading_word(w: &str) -> (r: bool)
    ensures
        r == is_reading_word(w@),
{
    same(w, "SELECT") || same(w, "WITH") || same(w, "SHOW") || same(w, "DESCRIBE") || same(
        w,
        "EXPLAIN",
    )
}

/// Whether a statement only reads, by its first word.
pub fn is_read_only_sql(sql: &str) -> (r: bool)
    ensures
        r == is_reading_word(upper_text(first_word(sql@))),
{
    let first = leading_word(sql);
    let upper = first.to_uppercase();
    reading_word(&upper)
}

/// White space in front of a statement does not decide whether it only reads.
pub proof fn law_reading_ignores_leading_space(space: Seq<char>, sql: Seq<char>)
    requires
        forall|i: int| 0 <= i < space.len() ==> is_space(#[trigger] space[i]),
    ensures
        first_word(space + sql) == first_word(sql),
        is_reading_word(upper_text(first_word(space + sql))) == is_reading_word(
            upper_text(first_word(sql)),
        ),
{
    lemma_words_behind_space(space, sql);
}

/// Nor does what follows the first word.
pub proof fn law_reading_ignores_what_follows(sql: Seq<char>, tail: Seq<char>)
    requires
        words(sql).len() > 0,
        tail.len() > 0 ==> is_space(tail[0]),
    ensures
        first_word(sql + tail) == first_word(sql),
        is_reading_word(upper_text(first_word(sql + tail))) == is_reading_word(
            upper_text(first_word(sql)),
        ),
{
    lemma_words_before(sql, tail);
}

/// Nor does the case of ASCII letters: statements whose first words are the same but for it both
/// only read, or neither does.
pub proof fn law_reading_ignores_case(a: Seq<char>, b: Seq<char>)
    requires
        same_ignore_case(first_word(a), first_word(b)),
    ensures
        is_reading_word(upper_text(first_word(a))) == is_reading_word(upper_text(first_word(b))),
{
    lemma_upper_ignores_case(first_word(a), first_word(b));
}

/// A statement whose ASCII letters are put in lower case only reads where it did before.
pub proof fn law_lower_case_reads_alike(sql: Seq<char>)
    ensures
        first_word(ascii_lower_text(sql)) == ascii_lower_text(first_word(sql)),
        is_reading_word(upper_text(first_word(ascii_lower_text(sql)))) == is_reading_word(
            upper_text(first_word(sql)),
        ),
{
    let w = first_word(sql);
    lemma_words_in_lower_case(sql);
    assert(first_word(ascii_lower_text(sql)) == ascii_lower_text(w));
    assert(same_ignore_case(ascii_lower_text(w), w)) by {
        assert(ascii_lower_text(w).map_values(|c: char| ascii_lower(c)) =~= w.map_values(
            |c: char| ascii_lower(c),
        ));
    }
    law_reading_ignores_case(ascii_lower_text(sql), sql);
}

/// Statements whose first words are the same in upper case both only read, or neither does.
pub proof fn law_reading_goes_by_upper_case(a: Seq<char>, b: Seq<char>)
    requires
        upper_text(first_word(a)) == upper_text(first_word(b)),
    ensures
        is_reading_word(upper_text(first_word(a))) == is_reading_word(upper_text(first_word(b))),
{
}

// ---------------------------------------------------------------------------
// AS OF TIMESTAMP
// ---------------------------------------------------------------------------

/// The byte offset of the time-travel clause in an upper-case statement.
pub open spec fn as_of_offset(upper: Seq<char>) -> Option<int> {
    index_of(utf8(upper), utf8(" AS OF TIMESTAMP "@))
}

/// The length in bytes of the words that begin the clause.
pub open spec fn as_of_len() -> int {
    utf8(" AS OF TIMESTAMP "@).len() as int
}

/// Whether a statement can be cut around the clause that stands at byte offset `idx`.
pub open spec fn as_of_cuttable(sql: Seq<char>, idx: int) -> bool {
    &&& sliceable(sql, 0, idx)
    &&& sliceable(sql, idx + as_of_len(), utf8(sql).len() as int)
}

/// The text behind the words `AS OF TIMESTAMP` without the timestamp: a quoted one up to its
/// closing quote, another one up to the next space.
pub open spec fn after_timestamp(after: Seq<char>) -> Seq<char> {
    if after.len() > 0 && after[0] == '\'' {
        match char_from(after, '\'', 1) {
            Some(k) => after.subrange(k + 1, after.len() as int),
            None => after,
        }
    } else {
        match char_index(after, ' ') {
            Some(k) => after.subrange(k, after.len() as int),
            None => Seq::empty(),
        }
    }
}

/// The statement `sql`, whose upper-case form is `upper`, without its time-travel clause. `None`
/// where the statement cannot be cut there.
pub open spec fn stripped_as_of(sql: Seq<char>, upper: Seq<char>) -> Option<Seq<char>> {
    match as_of_offset(upper) {
        None => Some(sql),
        Some(idx) => if as_of_cuttable(sql, idx) {
            Some(
                byte_slice(sql, 0, idx) + after_timestamp(
                    byte_slice(sql, idx + as_of_len(), utf8(sql).len() as int),
                ),
            )
        } else {
            None
        },
    }
}

fn skip_timestamp(after: &str) -> (r: String)
    ensures
        r@ == after_timestamp(after@),
{
    let v = to_chars(after);
    if v.len() > 0 && v[0] == '\'' {
        match find_char_from(&v, '\'', 1) {
            Some(k) => from_chars(&v, k + 1, v.len()),
            None => after.to_owned(),
        }
    } else {
        match find_char_from(&v, ' ', 0) {
            Some(k) => from_chars(&v, k, v.len()),
            None => String::new(),
        }
    }
}

/// The two parts of a statement around the words `AS OF TIMESTAMP`, given its upper-case form:
/// `Some(None)` where there are no such words, `None` where the statement cannot be cut.
fn split_as_of(sql: &str, upper: &str) -> (r: Option<Option<(String, String)>>)
    ensures
        match as_of_offset(upper@) {
            None => r matches Some(None),
            Some(idx) => if as_of_cuttable(sql@, idx) {
                &&& r matches Some(Some(p))
                &&& p.0@ == byte_slice(sql@, 0, idx)
                &&& p.1@ == byte_slice(sql@, idx + as_of_len(), utf8(sql@).len() as int)
            } else {
                r is None
            },
        },
{
    match find_byte_offset(upper, " AS OF TIMESTAMP ") {
        None => Some(None),
        Some(idx) => {
            let n: usize = " AS OF TIMESTAMP ".as_bytes().len();
            match (
                slice_bytes(sql, 0, idx),
                slice_bytes(sql, idx + n, sql.as_bytes().len()),
            ) {
                (Some(before), Some(after)) => Some(Some((before, after))),
                _ => None,
            }
        },
    }
}

/// A statement without its time-travel clause, given its upper-case form.
pub fn strip_as_of_with(sql: &str, upper: &str) -> (r: Option<String>)
    ensures
        match r {
            Some(s) => stripped_as_of(sql@, upper@) == Some(s@),
            None => stripped_as_of(sql@, upper@) is None,
        },
{
    match split_as_of(sql, upper) {
        None => None,
        Some(None) => Some(sql.to_owned()),
        Some(Some((before, after))) => {
            let rest = skip_timestamp(&after);
            Some(concat2(&before, &rest))
        },
    }
}

/// Strips `AS OF TIMESTAMP '...'` from a SQL statement.
pub fn strip_as_of_timestamp(sql: &str) -> (r: String)
    requires
        stripped_as_of(sql@, upper_text(sql@)) is Some,
    ensures
        stripped_as_of(sql@, upper_text(sql@)) == Some(r@),
{
    let upper = sql.to_uppercase();
    strip_as_of_with(sql, &upper).unwrap()
}

/// As [`strip_as_of_timestamp`], with `None` where the statement cannot be cut at the clause.
pub fn try_strip_as_of_timestamp(sql: &str) -> (r: Option<String>)
    ensures
        match r {
            Some(s) => stripped_as_of(sql@, upper_text(sql@)) == Some(s@),
            None => stripped_as_of(sql@, upper_text(sql@)) is None,
        },
{
    let upper = sql.to_uppercase();
    if strip_as_of_with(sql, &upper).is_none() {
        return None;
    }
    Some(strip_as_of_timestamp(sql))
}

/// The timestamp in the text behind the words `AS OF TIMESTAMP`: what stands between quotes, or
/// else the next word without semicolons at its end. `None` where a quote is not closed.
pub open spec fn timestamp_token(after: Seq<char>) -> Option<Seq<char>> {
    let t = trim_start_text(after);
    if t.len() > 0 && t[0] == '\'' {
        match char_from(t, '\'', 1) {
            Some(k) => Some(t.subrange(1, k)),
            None => None,
        }
    } else {
        Some(trim_end_matches_text(first_word(t), ';'))
    }
}

fn read_timestamp_token(after: &str) -> (r: Option<String>)
    ensures
        match r {
            Some(s) => timestamp_token(after@) == Some(s@),
            None => timestamp_token(after@) is None,
        },
{
    let t = trim_start(after);
    let v = to_chars(&t);
    if v.len() > 0 && v[0] == '\'' {
        match find_char_from(&v, '\'', 1) {
            Some(k) => Some(from_chars(&v, 1, k)),
            None => None,
        }
    } else {
        let w = leading_word(&t);
        Some(trim_end_matches(&w, ';'))
    }
}

/// What `DateTime::parse_from_rfc3339` reads in a text, in milliseconds since 1970.
pub uninterp spec fn rfc3339_value(s: Seq<char>) -> Option<i64>;

/// What `NaiveDateTime::parse_from_str` reads in a text by the format `%Y-%m-%d %H:%M:%S`, in
/// milliseconds since 1970.
pub uninterp spec fn plain_datetime_value(s: Seq<char>) -> Option<i64>;

/// `chrono::DateTime::parse_from_rfc3339`: what it reads depends on the text alone; `None` where
/// it gives an error.
#[verifier::external_body]
fn rfc3339_millis(s: &str) -> (r: Option<i64>)
    ensures
        r == rfc3339_value(s@),
{
    chrono::DateTime::parse_from_rfc3339(s).ok().map(|d| d.timestamp_millis())
}

/// `chrono::NaiveDateTime::parse_from_str` with the format `%Y-%m-%d %H:%M:%S`: what it reads
/// depends on the text alone; `None` where it gives an error.
#[verifier::external_body]
fn plain_datetime_millis(s: &str) -> (r: Option<i64>)
    ensures
        r == plain_datetime_value(s@),
{
    chrono::NaiveDateTime::parse_from_str(s, "%Y-%m-%d %H:%M:%S")
        .ok()
        .map(|n| n.and_utc().timestamp_millis())
}

/// The time that a timestamp stands for, given how it reads as RFC 3339 and as a plain date and
/// time: the first reading that there is, else the timestamp as a number. An empty timestamp
/// stands for none.
pub open spec fn timestamp_value(
    token: Seq<char>,
    rfc3339: Option<i64>,
    plain: Option<i64>,
) -> Option<int> {
    if token.len() == 0 {
        None
    } else if rfc3339 is Some {
        Some(rfc3339->0 as int)
    } else if plain is Some {
        Some(plain->0 as int)
    } else {
        parsed_signed(token)
    }
}

/// The time that a timestamp stands for, given how it reads as RFC 3339 and as a plain date and
/// time.
pub fn choose_timestamp(token: &str, rfc3339: Option<i64>, plain: Option<i64>) -> (r: Option<i64>)
    ensures
        match r {
            Some(n) => timestamp_value(token@, rfc3339, plain) == Some(n as int),
            None => timestamp_value(token@, rfc3339, plain) is None,
        },
{
    if token.is_empty() {
        return None;
    }
    if rfc3339.is_some() {
        return rfc3339;
    }
    if plain.is_some() {
        return plain;
    }
    parse_i64(token)
}

/// The timestamp of the time-travel clause of `sql`, whose upper-case form is `upper`: the outer
/// `None` where the statement cannot be cut, the inner where it has no such clause or no closed
/// timestamp.
pub open spec fn as_of_token(sql: Seq<char>, upper: Seq<char>) -> Option<Option<Seq<char>>> {
    match as_of_offset(upper) {
        None => Some(None),
        Some(idx) => if as_of_cuttable(sql, idx) {
            Some(timestamp_token(byte_slice(sql, idx + as_of_len(), utf8(sql).len() as int)))
        } else {
            None
        },
    }
}

/// The timestamp of the time-travel clause of a statement, given its upper-case form.
pub fn as_of_token_with(sql: &str, upper: &str) -> (r: Option<Option<String>>)
    ensures
        match r {
            Some(Some(t)) => as_of_token(sql@, upper@) == Some(Some(t@)),
            Some(None) => as_of_token(sql@, upper@) == Some(None::<Seq<char>>),
            None => as_of_token(sql@, upper@) is None,
        },
{
    match split_as_of(sql, upper) {
        None => None,
        Some(None) => Some(None),
        Some(Some((before, after))) => Some(read_timestamp_token(&after)),
    }
}

/// The time that the time-travel clause of a statement names.
pub open spec fn as_of_time(sql: Seq<char>) -> Option<int> {
    match as_of_token(sql, upper_text(sql)) {
        Some(Some(token)) => timestamp_value(
            token,
            rfc3339_value(token),
            plain_datetime_value(token),
        ),
        _ => None,
    }
}

/// The time, in milliseconds since 1970, of the `AS OF TIMESTAMP` clause of a statement.
pub fn parse_as_of_timestamp(sql: &str) -> (r: Option<i64>)
    requires
        as_of_token(sql@, upper_text(sql@)) is Some,
    ensures
        match r {
            Some(n) => as_of_time(sql@) == Some(n as int),
            None => as_of_time(sql@) is None,
        },
{
    let upper = sql.to_uppercase();
    match as_of_token_with(sql, &upper) {
        Some(Some(token)) => {
            let rfc3339 = rfc3339_millis(&token);
            let plain = plain_datetime_millis(&token);
            choose_timestamp(&token, rfc3339, plain)
        },
        _ => None,
    }
}

/// As [`parse_as_of_timestamp`], with an outer `None` where the statement cannot be cut at the
/// clause.
pub fn try_parse_as_of_timestamp(sql: &str) -> (r: Option<Option<i64>>)
    ensures
        match r {
            Some(Some(n)) => as_of_token(sql@, upper_text(sql@)) is Some && as_of_time(sql@)
                == Some(n as int),
            Some(None) => as_of_token(sql@, upper_text(sql@)) is Some && as_of_time(sql@) is None,
            None => as_of_token(sql@, upper_text(sql@)) is None,
        },
{
    let upper = sql.to_uppercase();
    if as_of_token_with(sql, &upper).is_none() {
        return None;
    }
    Some(parse_as_of_timestamp(sql))
}

/// Five words begin a statement that only reads; a statement that changes rows, tables or rights begins
/// with none of them.
pub proof fn law_reading_words(w: Seq<char>)
    ensures
        w == "SELECT"@ || w == "WITH"@ || w == "SHOW"@ || w == "DESCRIBE"@ || w == "EXPLAIN"@
            ==> is_reading_word(w),
        w == "INSERT"@ || w == "UPDATE"@ || w == "DELETE"@ || w == "MERGE"@ || w == "CREATE"@ || w
            == "DROP"@ || w == "ALTER"@ || w == "TRUNCATE"@ || w == "GRANT"@ || w == "REVOKE"@
            ==> !is_reading_word(w),
{
    reveal_strlit("SELECT");
    reveal_strlit("WITH");
    reveal_strlit("SHOW");
    reveal_strlit("DESCRIBE");
    reveal_strlit("EXPLAIN");
    reveal_strlit("INSERT");
    reveal_strlit("UPDATE");
    reveal_strlit("DELETE");
    reveal_strlit("MERGE");
    reveal_strlit("CREATE");
    reveal_strlit("DROP");
    reveal_strlit("ALTER");
    reveal_strlit("TRUNCATE");
    reveal_strlit("GRANT");
    reveal_strlit("REVOKE");
    assert("SELECT"@[0] == 'S' && "WITH"@[0] == 'W' && "SHOW"@[0] == 'S' && "EXPLAIN"@[0] == 'E');
    assert("DESCRIBE"@[0] == 'D' && "DESCRIBE"@[2] == 'S' && "DELETE"@[2] == 'L' && "DROP"@[2]
        == 'O');
    assert("INSERT"@[0] == 'I' && "UPDATE"@[0] == 'U' && "MERGE"@[0] == 'M' && "CREATE"@[0] == 'C');
    assert("DELETE"@[0] == 'D' && "DROP"@[0] == 'D' && "ALTER"@[0] == 'A' && "TRUNCATE"@[0] == 'T');
    assert("GRANT"@[0] == 'G' && "REVOKE"@[0] == 'R');
}

/// An `EXPLAIN` without a list of options stays as it is.
pub proof fn law_plain_explain_stays(t: Seq<char>, u: Seq<char>)
    requires
        !has_prefix(u, "EXPLAIN ("@),
    ensures
        explain_text(t, u) == Some(t),
{
}

} // verus!
