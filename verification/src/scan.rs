//! Scanners over SQL text: scripts, lists, parentheses, placeholders and quoted bodies.
use vstd::prelude::*;
use vstd::string::*;

use crate::numbers::{parse_usize, parsed_unsigned};
use crate::text::{
    concat2, find_chars_from, find_from, from_chars, index_of, is_digit, lemma_back_bounds,
    lemma_skip_bounds, lemma_trim_ends, lemma_trim_keeps, lemma_trimmed_stays, skip_space, texts,
    to_chars, trim, trim_start_text, trim_text, utf8,
};

verus! {

// ---------------------------------------------------------------------------
// String literals
// ---------------------------------------------------------------------------

/// The position behind the string literal that is open at `i`: behind its closing quote, where a
/// doubled quote stands for a quote inside it, or the end of the text where it is never closed.
pub open spec fn quote_end(s: Seq<char>, i: int) -> int
    decreases s.len() - i,
{
    if i < 0 || i >= s.len() {
        s.len() as int
    } else if s[i] == '\'' {
        if i + 1 < s.len() && s[i + 1] == '\'' {
            quote_end(s, i + 2)
        } else {
            i + 1
        }
    } else {
        quote_end(s, i + 1)
    }
}

/// The position behind the string literal that is open at `from`.
fn skip_literal(v: &Vec<char>, from: usize) -> (r: usize)
    requires
        from <= v@.len(),
    ensures
        r == quote_end(v@, from as int),
        from <= r <= v@.len(),
{
    let mut i: usize = from;
    let n: usize = v.len();
    while i < n
        invariant
            from <= i <= n,
            n == v@.len(),
            quote_end(v@, from as int) == quote_end(v@, i as int),
        decreases n - i,
    {
        if v[i] == '\'' {
            if i + 1 < n && v[i + 1] == '\'' {
                i += 2;
            } else {
                return i + 1;
            }
        } else {
            i += 1;
        }
    }
    n
}

pub proof fn lemma_quote_end(s: Seq<char>, i: int)
    requires
        0 <= i <= s.len(),
    ensures
        i <= quote_end(s, i) <= s.len(),
    decreases s.len() - i,
{
    if i < s.len() {
        if s[i] == '\'' && i + 1 < s.len() && s[i + 1] == '\'' {
            lemma_quote_end(s, i + 2);
        } else if s[i] != '\'' {
            lemma_quote_end(s, i + 1);
        }
    }
}

// ---------------------------------------------------------------------------
// Scripts
// ---------------------------------------------------------------------------

/// The position behind the line comment that is open at `i`: behind its line feed, or the end.
pub open spec fn line_end(s: Seq<char>, i: int) -> int
    decreases s.len() - i,
{
    if i < 0 || i >= s.len() {
        s.len() as int
    } else if s[i] == '\n' {
        i + 1
    } else {
        line_end(s, i + 1)
    }
}

/// The position behind the block comment that is open at `i` with `depth` levels: behind the mark
/// that closes the outermost, or the end.
pub open spec fn comment_end(s: Seq<char>, i: int, depth: nat) -> int
    decreases s.len() - i,
{
    if depth == 0 {
        i
    } else if i < 0 || i >= s.len() {
        s.len() as int
    } else if s[i] == '*' && i + 1 < s.len() && s[i + 1] == '/' {
        comment_end(s, i + 2, (depth - 1) as nat)
    } else if s[i] == '/' && i + 1 < s.len() && s[i + 1] == '*' {
        comment_end(s, i + 2, depth + 1)
    } else {
        comment_end(s, i + 1, depth)
    }
}

pub proof fn lemma_comment_end(s: Seq<char>, i: int, depth: nat)
    requires
        0 <= i <= s.len(),
    ensures
        i <= line_end(s, i) <= s.len(),
        i <= comment_end(s, i, depth) <= s.len(),
    decreases s.len() - i,
{
    if i < s.len() {
        lemma_comment_end(s, i + 1, depth);
        if depth > 0 && i + 1 < s.len() {
            lemma_comment_end(s, i + 2, (depth - 1) as nat);
            lemma_comment_end(s, i + 2, depth + 1);
        }
    }
}

/// The statement that ends at a semicolon, if it is not blank.
pub open spec fn ended(cur: Seq<char>) -> Seq<Seq<char>> {
    if trim_text(cur).len() == 0 {
        Seq::empty()
    } else {
        seq![trim_text(cur) + ";"@]
    }
}

/// The statement that ends with the script, if it is not blank.
pub open spec fn trailing(cur: Seq<char>) -> Seq<Seq<char>> {
    if trim_text(cur).len() == 0 {
        Seq::empty()
    } else {
        seq![trim_text(cur)]
    }
}

/// Whether `a` and then `b` stand at position `i`.
pub open spec fn pair_at(s: Seq<char>, i: int, a: char, b: char) -> bool {
    0 <= i && i + 1 < s.len() && s[i] == a && s[i + 1] == b
}

/// The statements of a script from position `i` on, where `cur` is the text of the present
/// statement so far. String literals are kept as they are. A line comment counts as the space in
/// the place of its line feed, and a block comment as a space.
pub open spec fn statements_from(s: Seq<char>, i: int, cur: Seq<char>) -> Seq<Seq<char>>
    decreases s.len() - i,
    when 0 <= i <= s.len()
{
    if i >= s.len() {
        trailing(cur)
    } else if s[i] == '\'' {
        let e = quote_end(s, i + 1);
        proof {
            lemma_quote_end(s, i + 1);
        }
        statements_from(s, e, cur + s.subrange(i, e))
    } else if pair_at(s, i, '-', '-') {
        let e = line_end(s, i + 2);
        proof {
            lemma_comment_end(s, i + 2, 1);
        }
        let space = if s[e - 1] == '\n' && e > i + 2 {
            seq![' ']
        } else {
            Seq::empty()
        };
        statements_from(s, e, cur + space)
    } else if pair_at(s, i, '/', '*') {
        let e = comment_end(s, i + 2, 1);
        proof {
            lemma_comment_end(s, i + 2, 1);
        }
        statements_from(s, e, cur.push(' '))
    } else if s[i] == ';' {
        ended(cur) + statements_from(s, i + 1, Seq::empty())
    } else {
        statements_from(s, i + 1, cur.push(s[i]))
    }
}

/// The statements of a script.
pub open spec fn statements(s: Seq<char>) -> Seq<Seq<char>> {
    statements_from(s, 0, Seq::empty())
}

fn skip_line(v: &Vec<char>, from: usize) -> (r: usize)
    requires
        from <= v@.len(),
    ensures
        r == line_end(v@, from as int),
        from <= r <= v@.len(),
{
    let mut i: usize = from;
    let n: usize = v.len();
    while i < n
        invariant
            from <= i <= n,
            n == v@.len(),
            line_end(v@, from as int) == line_end(v@, i as int),
        decreases n - i,
    {
        if v[i] == '\n' {
            return i + 1;
        }
        i += 1;
    }
    n
}

fn skip_comment(v: &Vec<char>, from: usize) -> (r: usize)
    requires
        from <= v@.len(),
    ensures
        r == comment_end(v@, from as int, 1),
        from <= r <= v@.len(),
{
    let mut i: usize = from;
    let mut depth: usize = 1;
    let n: usize = v.len();
    while depth > 0
        invariant
            from <= i <= n,
            n == v@.len(),
            depth <= i - from + 1,
            comment_end(v@, from as int, 1) == comment_end(v@, i as int, depth as nat),
        decreases n - i, depth,
    {
        if i >= n {
            return n;
        }
        if v[i] == '*' && i + 1 < n && v[i + 1] == '/' {
            i += 2;
            depth -= 1;
        } else if v[i] == '/' && i + 1 < n && v[i + 1] == '*' {
            i += 2;
            depth += 1;
        } else {
            i += 1;
        }
    }
    i
}

/// Splits a SQL script into individual statements on `;` delimiters.
///
/// Semicolons in string literals (including `''` escapes), in `--` line comments and in
/// `/* ... */` block comments (including nested) do not count. Blank statements are left out.
pub fn split_sql_statements(sql: &str) -> (r: Vec<String>)
    ensures
        texts(r@) == statements(sql@),
{
    let v = to_chars(sql);
    let mut out: Vec<String> = Vec::new();
    let mut cur = String::new();
    let mut i: usize = 0;
    let n: usize = v.len();
    assert(texts(out@) + statements_from(v@, 0, cur@) == statements(v@));
    while i < n
        invariant
            i <= n,
            n == v@.len(),
            texts(out@) + statements_from(v@, i as int, cur@) == statements(v@),
        decreases n - i,
    {
        let c: char = v[i];
        if c == '\'' {
            let e: usize = skip_literal(&v, i + 1);
            cur.append(&from_chars(&v, i, e));
            i = e;
        } else if c == '-' && i + 1 < n && v[i + 1] == '-' {
            let e: usize = skip_line(&v, i + 2);
            if e > i + 2 && v[e - 1] == '\n' {
                let ghost before = cur@;
                cur.push(' ');
                assert(cur@ == before + seq![' ']);
            } else {
                assert(cur@ == cur@ + Seq::<char>::empty());
            }
            i = e;
        } else if c == '/' && i + 1 < n && v[i + 1] == '*' {
            let e: usize = skip_comment(&v, i + 2);
            cur.push(' ');
            i = e;
        } else if c == ';' {
            let ghost before = out@;
            let ghost body = cur@;
            let stmt = trim(&cur);
            if !stmt.as_str().is_empty() {
                out.push(concat2(&stmt, ";"));
                assert(texts(out@) == texts(before).push(trim_text(body) + ";"@));
            }
            cur = String::new();
            i += 1;
            proof {
                assert(texts(out@) == texts(before) + ended(body));
                assert(texts(out@) + statements_from(v@, i as int, cur@) == texts(before) + (ended(
                    body,
                ) + statements_from(v@, i as int, cur@)));
            }
        } else {
            cur.push(c);
            i += 1;
        }
    }
    let ghost before = out@;
    let stmt = trim(&cur);
    if !stmt.as_str().is_empty() {
        out.push(stmt);
        assert(texts(out@) == texts(before).push(trim_text(cur@)));
    }
    assert(texts(out@) == texts(before) + trailing(cur@));
    out
}

// ---------------------------------------------------------------------------
// Comma-separated lists
// ---------------------------------------------------------------------------

/// The item of a list, without white space around it, if it is not blank.
pub open spec fn item(s: Seq<char>) -> Seq<Seq<char>> {
    if trim_text(s).len() == 0 {
        Seq::empty()
    } else {
        seq![trim_text(s)]
    }
}

/// The items of a list from position `i` on, `depth` parentheses deep, where the present item
/// began at `start`. Commas in parentheses and in string literals do not count.
pub open spec fn items_from(s: Seq<char>, start: int, i: int, depth: nat) -> Seq<Seq<char>>
    decreases s.len() - i,
    when 0 <= start <= i <= s.len()
{
    if i >= s.len() {
        item(s.subrange(start, s.len() as int))
    } else if s[i] == '\'' {
        proof {
            lemma_quote_end(s, i + 1);
        }
        items_from(s, start, quote_end(s, i + 1), depth)
    } else if s[i] == '(' {
        items_from(s, start, i + 1, depth + 1)
    } else if s[i] == ')' {
        items_from(s, start, i + 1, if depth > 0 {
            (depth - 1) as nat
        } else {
            0
        })
    } else if s[i] == ',' && depth == 0 {
        item(s.subrange(start, i)) + items_from(s, i + 1, i + 1, 0)
    } else {
        items_from(s, start, i + 1, depth)
    }
}

/// The items of a comma-separated list.
pub open spec fn list_items(s: Seq<char>) -> Seq<Seq<char>> {
    items_from(s, 0, 0, 0)
}

/// The items of a comma-separated list. Commas in parentheses and in string literals do not
/// separate, and blank items are left out.
pub fn split_top_level_csv(input: &str) -> (r: Vec<String>)
    ensures
        texts(r@) == list_items(input@),
{
    let v = to_chars(input);
    let mut out: Vec<String> = Vec::new();
    let mut start: usize = 0;
    let mut i: usize = 0;
    let mut depth: usize = 0;
    let n: usize = v.len();
    assert(texts(out@) + items_from(v@, 0, 0, 0) == list_items(v@));
    while i < n
        invariant
            start <= i <= n,
            n == v@.len(),
            depth <= i,
            texts(out@) + items_from(v@, start as int, i as int, depth as nat) == list_items(v@),
        decreases n - i,
    {
        let c: char = v[i];
        if c == '\'' {
            i = skip_literal(&v, i + 1);
        } else if c == '(' {
            depth += 1;
            i += 1;
        } else if c == ')' {
            if depth > 0 {
                depth -= 1;
            }
            i += 1;
        } else if c == ',' && depth == 0 {
            let ghost before = out@;
            let ghost piece = v@.subrange(start as int, i as int);
            let it = trim(&from_chars(&v, start, i));
            if !it.as_str().is_empty() {
                out.push(it);
                assert(texts(out@) == texts(before).push(trim_text(piece)));
            }
            i += 1;
            start = i;
            proof {
                assert(texts(out@) == texts(before) + item(piece));
                assert(texts(out@) + items_from(v@, i as int, i as int, 0) == texts(before) + (item(
                    piece,
                ) + items_from(v@, i as int, i as int, 0)));
            }
        } else {
            i += 1;
        }
    }
    let ghost before = out@;
    let ghost piece = v@.subrange(start as int, n as int);
    let it = trim(&from_chars(&v, start, n));
    if !it.as_str().is_empty() {
        out.push(it);
        assert(texts(out@) == texts(before).push(trim_text(piece)));
    }
    assert(texts(out@) == texts(before) + item(piece));
    out
}

// ---------------------------------------------------------------------------
// Parentheses
// ---------------------------------------------------------------------------

/// The byte position at or after `i` of the parenthesis that closes the outermost of `depth` open
/// ones. Parentheses between single quotes do not count.
pub open spec fn close_from(b: Seq<u8>, i: int, depth: nat, quoted: bool) -> Option<int>
    decreases b.len() - i,
{
    if i < 0 || i >= b.len() {
        None
    } else if b[i] == 39 {
        close_from(b, i + 1, depth, !quoted)
    } else if quoted {
        close_from(b, i + 1, depth, quoted)
    } else if b[i] == 40 {
        close_from(b, i + 1, depth + 1, quoted)
    } else if b[i] == 41 {
        if depth <= 1 {
            Some(i)
        } else {
            close_from(b, i + 1, (depth - 1) as nat, quoted)
        }
    } else {
        close_from(b, i + 1, depth, quoted)
    }
}

/// The byte position of the parenthesis that closes the one at byte position `open`.
pub open spec fn matching_paren(s: Seq<char>, open: int) -> Option<int> {
    let b = utf8(s);
    if 0 <= open < b.len() && b[open] == 40 {
        close_from(b, open, 0, false)
    } else {
        None
    }
}

/// The byte position of the parenthesis that closes the one at byte position `open_idx`; `None`
/// where no parenthesis opens there or none closes it.
pub fn find_matching_paren(s: &str, open_idx: usize) -> (r: Option<usize>)
    ensures
        match r {
            Some(k) => matching_paren(s@, open_idx as int) == Some(k as int) && open_idx < k
                < utf8(s@).len() <= usize::MAX,
            None => matching_paren(s@, open_idx as int) is None,
        },
{
    let b = s.as_bytes();
    let n: usize = b.len();
    if open_idx >= n || b[open_idx] != 40u8 {
        return None;
    }
    let mut i: usize = open_idx;
    let mut depth: usize = 0;
    let mut quoted = false;
    while i < n
        invariant
            open_idx <= i <= n,
            n == b@.len(),
            b@ == utf8(s@),
            b@[open_idx as int] == 40,
            depth <= i - open_idx,
            i == open_idx ==> !quoted,
            close_from(b@, open_idx as int, 0, false) == close_from(
                b@,
                i as int,
                depth as nat,
                quoted,
            ),
        decreases n - i,
    {
        let c: u8 = b[i];
        if c == 39u8 {
            quoted = !quoted;
        } else if !quoted {
            if c == 40u8 {
                depth += 1;
            } else if c == 41u8 {
                if depth <= 1 {
                    return Some(i);
                }
                depth -= 1;
            }
        }
        i += 1;
    }
    None
}

// ---------------------------------------------------------------------------
// Placeholders
// ---------------------------------------------------------------------------

/// The first position at or after `i` that holds no digit.
pub open spec fn digits_end(s: Seq<char>, i: int) -> int
    decreases s.len() - i,
{
    if 0 <= i < s.len() && is_digit(s[i]) {
        digits_end(s, i + 1)
    } else {
        i
    }
}

/// The parameter that the placeholder at position `i` stands for: a dollar sign and the longest run
/// of digits behind it, which counts from one.
pub open spec fn placeholder_at(s: Seq<char>, i: int, count: nat) -> Option<nat> {
    if 0 <= i && i + 1 < s.len() && s[i] == '$' && is_digit(s[i + 1]) {
        match parsed_unsigned(s.subrange(i + 1, digits_end(s, i + 1)), usize::MAX as nat) {
            Some(k) => if 1 <= k <= count {
                Some(k)
            } else {
                None
            },
            None => None,
        }
    } else {
        None
    }
}

pub proof fn lemma_digits_end(s: Seq<char>, i: int)
    requires
        0 <= i <= s.len(),
    ensures
        i <= digits_end(s, i) <= s.len(),
    decreases s.len() - i,
{
    if i < s.len() {
        lemma_digits_end(s, i + 1);
    }
}

/// A template from position `i` on with each placeholder replaced by its parameter. Every other
/// character stays.
pub open spec fn substituted_from(s: Seq<char>, params: Seq<Seq<char>>, i: int) -> Seq<char>
    decreases s.len() - i,
    when 0 <= i <= s.len()
{
    if i >= s.len() {
        Seq::empty()
    } else {
        match placeholder_at(s, i, params.len()) {
            Some(k) => {
                proof {
                    lemma_digits_end(s, i + 1);
                }
                params[k - 1] + substituted_from(s, params, digits_end(s, i + 1))
            },
            None => seq![s[i]] + substituted_from(s, params, i + 1),
        }
    }
}

/// A template with its placeholders replaced.
pub open spec fn substituted(template: Seq<char>, params: Seq<Seq<char>>) -> Seq<char> {
    substituted_from(template, params, 0)
}

/// Replaces each placeholder `$N` by the `N`-th parameter, in one pass: `$10` is never taken for
/// `$1` and a zero. A placeholder without a parameter stays, and so does everything else.
pub fn substitute_parameters(template: &str, params: &Vec<String>) -> (r: String)
    ensures
        r@ == substituted(template@, texts(params@)),
{
    let ghost p = texts(params@);
    if params.len() == 0 {
        proof {
            law_text_without_placeholders_stays(template@, p);
        }
        return template.to_owned();
    }
    let mut result = String::new();
    let v = to_chars(template);
    let n: usize = v.len();
    let mut i: usize = 0;
    assert(result@ + substituted_from(v@, p, 0) == substituted_from(v@, p, 0));
    while i < n
        invariant
            i <= n,
            n == v@.len(),
            p == texts(params@),
            result@ + substituted_from(v@, p, i as int) == substituted_from(v@, p, 0),
        decreases n - i,
    {
        let ghost before = result@;
        if v[i] == '$' && i + 1 < n && '0' <= v[i + 1] && v[i + 1] <= '9' {
            let start: usize = i + 1;
            let mut end: usize = start;
            while end < n && '0' <= v[end] && v[end] <= '9'
                invariant
                    start <= end <= n,
                    n == v@.len(),
                    digits_end(v@, start as int) == digits_end(v@, end as int),
                decreases n - end,
            {
                end += 1;
            }
            let digits = from_chars(&v, start, end);
            if let Some(idx) = parse_usize(&digits) {
                if idx >= 1 && idx <= params.len() {
                    result.append(&params[idx - 1]);
                    proof {
                        assert(placeholder_at(v@, i as int, p.len()) == Some(idx as nat));
                        assert(result@ == before + p[idx - 1]);
                        assert(result@ + substituted_from(v@, p, end as int) == before
                            + substituted_from(v@, p, i as int));
                    }
                    i = end;
                    continue;
                }
            }
            assert(placeholder_at(v@, i as int, p.len()) is None);
        }
        result.push(v[i]);
        proof {
            assert(placeholder_at(v@, i as int, p.len()) is None);
            assert(result@ + substituted_from(v@, p, i + 1) == before + substituted_from(
                v@,
                p,
                i as int,
            ));
        }
        i += 1;
    }
    assert(result@ == substituted_from(v@, p, 0));
    result
}

/// A template in which no placeholder has a parameter stays as it is, whatever it holds.
pub proof fn law_text_without_placeholders_stays(template: Seq<char>, params: Seq<Seq<char>>)
    requires
        forall|i: int|
            0 <= i < template.len() ==> #[trigger] placeholder_at(template, i, params.len()) is None,
    ensures
        substituted(template, params) == template,
{
    lemma_no_placeholder(template, params, 0);
    assert(template.subrange(0, template.len() as int) == template);
}

proof fn lemma_no_placeholder(s: Seq<char>, params: Seq<Seq<char>>, i: int)
    requires
        0 <= i <= s.len(),
        forall|k: int| 0 <= k < s.len() ==> #[trigger] placeholder_at(s, k, params.len()) is None,
    ensures
        substituted_from(s, params, i) == s.subrange(i, s.len() as int),
    decreases s.len() - i,
{
    if i < s.len() {
        lemma_no_placeholder(s, params, i + 1);
        assert(placeholder_at(s, i, params.len()) is None);
        assert(seq![s[i]] + s.subrange(i + 1, s.len() as int) == s.subrange(i, s.len() as int));
    }
}

// ---------------------------------------------------------------------------
// Dollar-quoted bodies
// ---------------------------------------------------------------------------

/// The text between the first `$$` and the next.
pub open spec fn dollar_body(s: Seq<char>) -> Option<Seq<char>> {
    match index_of(s, "$$"@) {
        None => None,
        Some(a) => match find_from(s, "$$"@, a + "$$"@.len()) {
            None => None,
            Some(b) => Some(s.subrange(a + "$$"@.len(), b)),
        },
    }
}

/// The text between the first `$$` and the next.
pub fn extract_dollar_quoted_body(sql: &str) -> (r: Option<String>)
    ensures
        match r {
            Some(t) => dollar_body(sql@) == Some(t@),
            None => dollar_body(sql@) is None,
        },
{
    let v = to_chars(sql);
    let mark = to_chars("$$");
    match find_chars_from(&v, &mark, 0) {
        None => None,
        Some(a) => {
            assert(v@.len() == v.len());
            let from: usize = a + mark.len();
            match find_chars_from(&v, &mark, from) {
                None => None,
                Some(b) => Some(from_chars(&v, from, b)),
            }
        },
    }
}

// ---------------------------------------------------------------------------
// Laws
// ---------------------------------------------------------------------------

/// Whether a text can be a statement of a script: it is not blank, has no white space around it,
/// and is no semicolon alone.
pub open spec fn is_statement(t: Seq<char>) -> bool {
    &&& t.len() > 0
    &&& trim_text(t) == t
    &&& t != ";"@
}

/// Every statement of a script is one: not blank, without white space around it, and no semicolon
/// alone. All but the last one end with a semicolon.
pub proof fn law_statements_are_statements(s: Seq<char>, k: int)
    requires
        0 <= k < statements(s).len(),
    ensures
        is_statement(statements(s)[k]),
        k < statements(s).len() - 1 ==> statements(s)[k].last() == ';',
{
    lemma_statements(s, 0, Seq::empty(), k);
}

proof fn lemma_ended(cur: Seq<char>)
    requires
        trim_text(cur).len() > 0,
    ensures
        is_statement(trim_text(cur) + ";"@),
        (trim_text(cur) + ";"@).last() == ';',
{
    let t = trim_text(cur);
    reveal_strlit(";");
    lemma_trim_ends(cur);
    assert((t + ";"@)[0] == t[0]);
    lemma_trimmed_stays(t + ";"@);
}

proof fn lemma_trailing(cur: Seq<char>)
    requires
        trim_text(cur).len() > 0,
        cur.contains(';') ==> cur.contains('\''),
    ensures
        is_statement(trim_text(cur)),
{
    let t = trim_text(cur);
    reveal_strlit(";");
    lemma_trim_ends(cur);
    if t == ";"@ {
        lemma_trim_is_inside(cur, 0);
        let k = choose|k: int| 0 <= k < cur.len() && cur[k] == '\'';
        lemma_trim_keeps(cur, k);
        assert(t.contains('\''));
    }
}

proof fn lemma_trim_is_inside(s: Seq<char>, k: int)
    requires
        0 <= k < trim_text(s).len(),
    ensures
        s.contains(trim_text(s)[k]),
{
    lemma_skip_bounds(s, ' ', 0);
    let a = skip_space(s, 0);
    let t = trim_start_text(s);
    lemma_back_bounds(t, ' ', t.len() as int);
    assert(trim_text(s)[k] == s[a + k]);
}

proof fn lemma_grown(cur: Seq<char>, more: Seq<char>)
    requires
        cur.contains(';') ==> cur.contains('\''),
        more.contains(';') ==> more.contains('\''),
    ensures
        (cur + more).contains(';') ==> (cur + more).contains('\''),
{
    let t = cur + more;
    if t.contains(';') {
        let k = choose|k: int| 0 <= k < t.len() && t[k] == ';';
        if k < cur.len() {
            assert(cur[k] == ';');
            let q = choose|q: int| 0 <= q < cur.len() && cur[q] == '\'';
            assert(t[q] == '\'');
        } else {
            assert(more[k - cur.len()] == ';');
            let q = choose|q: int| 0 <= q < more.len() && more[q] == '\'';
            assert(t[cur.len() + q] == '\'');
        }
    }
}

proof fn lemma_statements(s: Seq<char>, i: int, cur: Seq<char>, k: int)
    requires
        0 <= i <= s.len(),
        0 <= k < statements_from(s, i, cur).len(),
        cur.contains(';') ==> cur.contains('\''),
    ensures
        is_statement(statements_from(s, i, cur)[k]),
        k < statements_from(s, i, cur).len() - 1 ==> statements_from(s, i, cur)[k].last() == ';',
    decreases s.len() - i,
{
    if i < s.len() {
        if s[i] == '\'' {
            let e = quote_end(s, i + 1);
            lemma_quote_end(s, i + 1);
            let more = s.subrange(i, e);
            assert(more[0] == '\'');
            lemma_grown(cur, more);
            lemma_statements(s, e, cur + more, k);
        } else if pair_at(s, i, '-', '-') {
            let e = line_end(s, i + 2);
            lemma_comment_end(s, i + 2, 1);
            let space = if s[e - 1] == '\n' && e > i + 2 {
                seq![' ']
            } else {
                Seq::empty()
            };
            lemma_grown(cur, space);
            lemma_statements(s, e, cur + space, k);
        } else if pair_at(s, i, '/', '*') {
            lemma_comment_end(s, i + 2, 1);
            assert(cur + seq![' '] == cur.push(' '));
            lemma_grown(cur, seq![' ']);
            lemma_statements(s, comment_end(s, i + 2, 1), cur.push(' '), k);
        } else if s[i] == ';' {
            if k < ended(cur).len() {
                lemma_ended(cur);
                assert(statements_from(s, i, cur)[k] == ended(cur)[k]);
            } else {
                lemma_statements(s, i + 1, Seq::empty(), k - ended(cur).len());
            }
        } else {
            assert(cur + seq![s[i]] == cur.push(s[i]));
            lemma_grown(cur, seq![s[i]]);
            lemma_statements(s, i + 1, cur.push(s[i]), k);
        }
    } else {
        lemma_trailing(cur);
    }
}

proof fn lemma_ends_behind(p: Seq<char>, s: Seq<char>, i: int, depth: nat)
    requires
        0 <= i <= s.len(),
    ensures
        quote_end(p + s, p.len() + i) == p.len() + quote_end(s, i),
        line_end(p + s, p.len() + i) == p.len() + line_end(s, i),
        comment_end(p + s, p.len() + i, depth) == p.len() + comment_end(s, i, depth),
    decreases s.len() - i,
{
    let t = p + s;
    if i < s.len() {
        assert(t[p.len() + i] == s[i]);
        lemma_ends_behind(p, s, i + 1, depth);
        if i + 1 < s.len() {
            assert(t[p.len() + i + 1] == s[i + 1]);
            lemma_ends_behind(p, s, i + 2, depth + 1);
            if depth > 0 {
                lemma_ends_behind(p, s, i + 2, (depth - 1) as nat);
            }
        }
    }
}

proof fn lemma_statements_behind(p: Seq<char>, s: Seq<char>, i: int, cur: Seq<char>)
    requires
        0 <= i <= s.len(),
    ensures
        statements_from(p + s, p.len() + i, cur) == statements_from(s, i, cur),
    decreases s.len() - i,
{
    let t = p + s;
    let at = p.len() + i;
    if i < s.len() {
        assert(t[at] == s[i]);
        if i + 1 < s.len() {
            assert(t[at + 1] == s[i + 1]);
        }
        if s[i] == '\'' {
            lemma_ends_behind(p, s, i + 1, 1);
            lemma_quote_end(s, i + 1);
            let e = quote_end(s, i + 1);
            assert(t.subrange(at, p.len() + e) == s.subrange(i, e));
            lemma_statements_behind(p, s, e, cur + s.subrange(i, e));
        } else if pair_at(s, i, '-', '-') {
            lemma_ends_behind(p, s, i + 2, 1);
            lemma_comment_end(s, i + 2, 1);
            let e = line_end(s, i + 2);
            assert(t[p.len() + e - 1] == s[e - 1]);
            let space = if s[e - 1] == '\n' && e > i + 2 {
                seq![' ']
            } else {
                Seq::empty()
            };
            lemma_statements_behind(p, s, e, cur + space);
        } else if pair_at(s, i, '/', '*') {
            lemma_ends_behind(p, s, i + 2, 1);
            lemma_comment_end(s, i + 2, 1);
            lemma_statements_behind(p, s, comment_end(s, i + 2, 1), cur.push(' '));
        } else if s[i] == ';' {
            lemma_statements_behind(p, s, i + 1, Seq::empty());
        } else {
            lemma_statements_behind(p, s, i + 1, cur.push(s[i]));
        }
    }
}

proof fn lemma_statements_part(a: Seq<char>, b: Seq<char>, i: int, cur: Seq<char>)
    requires
        0 <= i <= a.len(),
        forall|k: int|
            0 <= k < a.len() ==> #[trigger] a[k] != '\'' && a[k] != '-' && a[k] != '/',
    ensures
        statements_from(a + ";"@ + b, i, cur) == statements_from(a + ";"@, i, cur) + statements(b),
    decreases a.len() - i,
{
    reveal_strlit(";");
    let p = a + ";"@;
    let s = p + b;
    if i < a.len() {
        assert(s[i] == a[i] && p[i] == a[i]);
        if a[i] == ';' {
            lemma_statements_part(a, b, i + 1, Seq::empty());
            assert(statements_from(s, i, cur) == statements_from(p, i, cur) + statements(b));
        } else {
            lemma_statements_part(a, b, i + 1, cur.push(a[i]));
        }
    } else {
        assert(s[i] == ';' && p[i] == ';');
        lemma_statements_behind(p, b, 0, Seq::empty());
        let none = Seq::<char>::empty();
        assert(trim_text(none) == none) by {
            lemma_trimmed_stays(none);
        }
        assert(statements_from(p, i + 1, none) == Seq::<Seq<char>>::empty());
        assert(statements_from(s, i, cur) == statements_from(p, i, cur) + statements(b));
    }
}

/// A semicolon parts a script: the statements in front of it and those behind it are the statements
/// of the two parts, where no literal and no comment can be open in front of it.
pub proof fn law_semicolon_parts_scripts(a: Seq<char>, b: Seq<char>)
    requires
        forall|k: int|
            0 <= k < a.len() ==> #[trigger] a[k] != '\'' && a[k] != '-' && a[k] != '/',
    ensures
        statements(a + ";"@ + b) == statements(a + ";"@) + statements(b),
{
    lemma_statements_part(a, b, 0, Seq::empty());
}

/// A text in which nothing but characters of one statement stands is one statement: without a
/// quote, a dash, a slash and a semicolon it is given back without the white space around it.
pub proof fn law_plain_text_is_one_statement(s: Seq<char>)
    requires
        trim_text(s).len() > 0,
        forall|i: int|
            0 <= i < s.len() ==> #[trigger] s[i] != '\'' && s[i] != '-' && s[i] != '/' && s[i]
                != ';',
    ensures
        statements(s) == seq![trim_text(s)],
{
    assert(s.subrange(0, 0) =~= Seq::<char>::empty());
    lemma_plain(s, 0, Seq::empty());
}

proof fn lemma_plain(s: Seq<char>, i: int, cur: Seq<char>)
    requires
        0 <= i <= s.len(),
        cur == s.subrange(0, i),
        forall|k: int|
            0 <= k < s.len() ==> #[trigger] s[k] != '\'' && s[k] != '-' && s[k] != '/' && s[k]
                != ';',
    ensures
        statements_from(s, i, cur) == trailing(s),
    decreases s.len() - i,
{
    if i < s.len() {
        assert(s.subrange(0, i).push(s[i]) =~= s.subrange(0, i + 1));
        lemma_plain(s, i + 1, cur.push(s[i]));
    } else {
        assert(cur =~= s);
    }
}

} // verus!
