//! SQL function macros: their definition, and the expansion of their calls.
use vstd::prelude::*;
use vstd::string::*;

use crate::catalog_types::{UdfDef, UdfView};
use crate::dup::Dup;
use crate::numbers::{decimal, print_usize};
use crate::scan::{find_matching_paren, list_items, matching_paren, split_top_level_csv};
use crate::sql_helpers::{first_word, leading_word};
use crate::text::{
    byte_slice, concat2, concat3, eq_ignore_ascii_case, find_byte_offset, find_bytes_from,
    find_from, has_prefix, ident_char, index_of, is_ident_char, law_pattern_alone_is_replaced,
    law_text_without_the_pattern_stays, lower_text, occurs_at, replace, replaced, same_ignore_case,
    slice_bytes, slice_from, sliceable, split_whitespace, starts_with, texts,
    to_chars, trim, trim_end_matches, trim_end_matches_text, trim_matches, trim_matches_text,
    trim_start, trim_start_text, trim_text, upper_text, utf8, words,
};

verus! {

/// The byte offset of `needle` in `hay`, both in upper case.
pub open spec fn find_ci_offset(hay: Seq<char>, needle: Seq<char>) -> Option<int> {
    index_of(utf8(upper_text(hay)), utf8(upper_text(needle)))
}

/// The byte offset, in the upper-case form of `haystack`, of the upper-case form of `needle`.
pub fn find_ci(haystack: &str, needle: &str) -> (r: Option<usize>)
    ensures
        match r {
            Some(k) => find_ci_offset(haystack@, needle@) == Some(k as int),
            None => find_ci_offset(haystack@, needle@) is None,
        },
{
    let h = haystack.to_uppercase();
    let n = needle.to_uppercase();
    find_byte_offset(&h, &n)
}

// ---------------------------------------------------------------------------
// CREATE FUNCTION
// ---------------------------------------------------------------------------

/// A statement without white space and semicolons at its end, and without white space around it.
pub open spec fn statement_text(sql: Seq<char>) -> Seq<char> {
    trim_text(trim_end_matches_text(trim_text(sql), ';'))
}

/// A statement without white space and semicolons at its end, and without white space around it.
pub fn trim_statement(sql: &str) -> (r: String)
    ensures
        r@ == statement_text(sql@),
{
    trim(&trim_end_matches(&trim(sql), ';'))
}

/// The names of the arguments in an argument list: the first word of each item without double
/// quotes around it.
pub open spec fn argument_names(list: Seq<char>) -> Seq<Seq<char>> {
    let items = list_items(list);
    Seq::new(items.len(), |i: int| trim_matches_text(first_word(trim_text(items[i])), '"'))
}

fn read_argument_names(list: &str) -> (r: Vec<String>)
    ensures
        texts(r@) == argument_names(list@),
{
    let items = split_top_level_csv(list);
    let mut out: Vec<String> = Vec::new();
    let mut i: usize = 0;
    while i < items.len()
        invariant
            i <= items@.len(),
            texts(items@) == list_items(list@),
            out@.len() == i,
            forall|j: int| 0 <= j < i ==> (#[trigger] out@[j])@ == argument_names(list@)[j],
        decreases items@.len() - i,
    {
        assert(texts(items@)[i as int] == items@[i as int]@);
        let word = leading_word(&trim(&items[i]));
        out.push(trim_matches(&word, '"'));
        i += 1;
    }
    assert(texts(items@).len() == items@.len());
    assert(texts(out@) == argument_names(list@));
    out
}

/// The body of a function without the quotes around it.
pub open spec fn function_body(raw: Seq<char>) -> Seq<char> {
    trim_text(trim_matches_text(trim_matches_text(trim_text(raw), '\''), '"'))
}

/// What stands behind the argument list: `RETURNS <type> AS <body>`. `None` where the text cannot
/// be cut at the words.
pub open spec fn function_tail(
    name: Seq<char>,
    args: Seq<Seq<char>>,
    tail: Seq<char>,
) -> Option<Result<UdfView, Seq<char>>> {
    match find_ci_offset(tail, "RETURNS"@) {
        None => Some(Err("CREATE FUNCTION requires RETURNS"@)),
        Some(at) => {
            let from = at + utf8("RETURNS"@).len();
            if !sliceable(tail, from, utf8(tail).len() as int) {
                None
            } else {
                let after = trim_start_text(byte_slice(tail, from, utf8(tail).len() as int));
                match find_ci_offset(after, " AS "@) {
                    None => Some(Err("CREATE FUNCTION requires AS 'body'"@)),
                    Some(as_at) => {
                        let body_from = as_at + utf8(" AS "@).len();
                        if !sliceable(after, 0, as_at) || !sliceable(
                            after,
                            body_from,
                            utf8(after).len() as int,
                        ) {
                            None
                        } else {
                            let body = function_body(
                                byte_slice(after, body_from, utf8(after).len() as int),
                            );
                            if body.len() == 0 {
                                Some(Err("CREATE FUNCTION requires a non-empty body"@))
                            } else {
                                Some(
                                    Ok(
                                        UdfView {
                                            name,
                                            args,
                                            return_type: trim_text(byte_slice(after, 0, as_at)),
                                            body,
                                        },
                                    ),
                                )
                            }
                        }
                    },
                }
            }
        },
    }
}

/// The function that the statement `t` defines, whose upper-case form is `upper`. `None` where the
/// text cannot be cut at a place that was found.
pub open spec fn created_function(
    t: Seq<char>,
    upper: Seq<char>,
) -> Option<Result<UdfView, Seq<char>>> {
    let n = utf8("CREATE FUNCTION"@).len() as int;
    if !has_prefix(upper, "CREATE FUNCTION"@) {
        Some(Err("Expected CREATE FUNCTION"@))
    } else if !sliceable(t, n, utf8(t).len() as int) {
        None
    } else {
        let rest = trim_start_text(byte_slice(t, n, utf8(t).len() as int));
        let end = utf8(rest).len() as int;
        match index_of(utf8(rest), utf8("("@)) {
            None => Some(Err("CREATE FUNCTION requires an argument list"@)),
            Some(open) => if !sliceable(rest, 0, open) {
                None
            } else {
                let name = trim_matches_text(trim_text(byte_slice(rest, 0, open)), '"');
                if name.len() == 0 {
                    Some(Err("CREATE FUNCTION requires a function name"@))
                } else {
                    match matching_paren(rest, open) {
                        None => Some(Err("Unclosed function argument list"@)),
                        Some(close) => if !sliceable(rest, open + 1, close) || !sliceable(
                            rest,
                            close + 1,
                            end,
                        ) {
                            None
                        } else {
                            function_tail(
                                name,
                                argument_names(byte_slice(rest, open + 1, close)),
                                trim_text(byte_slice(rest, close + 1, end)),
                            )
                        },
                    }
                }
            },
        }
    }
}

/// Whether the outcome of a reading is the one that the specification names.
pub open spec fn udf_outcome(
    r: Option<Result<UdfDef, String>>,
    spec: Option<Result<UdfView, Seq<char>>>,
) -> bool {
    match r {
        None => spec is None,
        Some(Err(e)) => spec == Some(Err::<UdfView, Seq<char>>(e@)),
        Some(Ok(def)) => spec == Some(Ok::<UdfView, Seq<char>>(def@)),
    }
}

fn read_function_tail(name: String, args: Vec<String>, tail: &str) -> (r: Option<
    Result<UdfDef, String>,
>)
    ensures
        udf_outcome(r, function_tail(name@, texts(args@), tail@)),
{
    let at: usize = match find_ci(tail, "RETURNS") {
        None => {
            return Some(Err("CREATE FUNCTION requires RETURNS".to_owned()));
        },
        Some(at) => at,
    };
    let n: usize = "RETURNS".as_bytes().len();
    let after = match slice_from(tail, at, n) {
        None => {
            return None;
        },
        Some(a) => trim_start(&a),
    };
    let as_at: usize = match find_ci(&after, " AS ") {
        None => {
            return Some(Err("CREATE FUNCTION requires AS 'body'".to_owned()));
        },
        Some(k) => k,
    };
    let m: usize = " AS ".as_bytes().len();
    match (slice_bytes(&after, 0, as_at), slice_from(&after, as_at, m)) {
        (Some(ty), Some(raw)) => {
            let body = trim(&trim_matches(&trim_matches(&trim(&raw), '\''), '"'));
            if body.as_str().is_empty() {
                return Some(Err("CREATE FUNCTION requires a non-empty body".to_owned()));
            }
            let def = UdfDef { name, args, return_type: trim(&ty), body };
            Some(Ok(def))
        },
        _ => None,
    }
}

/// The function that a trimmed statement defines, given its upper-case form.
pub fn create_function_with(trimmed: &str, upper: &str) -> (r: Option<Result<UdfDef, String>>)
    ensures
        udf_outcome(r, created_function(trimmed@, upper@)),
{
    if !starts_with(upper, "CREATE FUNCTION") {
        return Some(Err("Expected CREATE FUNCTION".to_owned()));
    }
    let n: usize = "CREATE FUNCTION".as_bytes().len();
    let rest = match slice_bytes(trimmed, n, trimmed.as_bytes().len()) {
        None => {
            return None;
        },
        Some(s) => trim_start(&s),
    };
    let open: usize = match find_byte_offset(&rest, "(") {
        None => {
            return Some(Err("CREATE FUNCTION requires an argument list".to_owned()));
        },
        Some(k) => k,
    };
    let name = match slice_bytes(&rest, 0, open) {
        None => {
            return None;
        },
        Some(s) => trim_matches(&trim(&s), '"'),
    };
    if name.as_str().is_empty() {
        return Some(Err("CREATE FUNCTION requires a function name".to_owned()));
    }
    let close: usize = match find_matching_paren(&rest, open) {
        None => {
            return Some(Err("Unclosed function argument list".to_owned()));
        },
        Some(k) => k,
    };
    match (
        slice_bytes(&rest, open + 1, close),
        slice_bytes(&rest, close + 1, rest.as_str().as_bytes().len()),
    ) {
        (Some(list), Some(tail)) => {
            let args = read_argument_names(&list);
            read_function_tail(name, args, &trim(&tail))
        },
        _ => None,
    }
}

/// The function that a `CREATE FUNCTION` statement defines; an outer `None` where the statement
/// cannot be cut at a place that was found in its upper-case form.
pub fn parse_create_function(sql: &str) -> (r: Option<Result<UdfDef, String>>)
    ensures
        udf_outcome(r, created_function(statement_text(sql@), upper_text(statement_text(sql@)))),
{
    let trimmed = trim_statement(sql);
    let upper = trimmed.to_uppercase();
    create_function_with(&trimmed, &upper)
}

// ---------------------------------------------------------------------------
// DROP FUNCTION
// ---------------------------------------------------------------------------

/// Whether `IF EXISTS` is given, and the name, in a `DROP FUNCTION` statement.
pub open spec fn dropped_function(sql: Seq<char>) -> Result<(bool, Seq<char>), Seq<char>> {
    let w = words(trim_end_matches_text(trim_text(sql), ';'));
    if w.len() < 3 {
        Err("DROP FUNCTION requires a name"@)
    } else if !same_ignore_case(w[0], "DROP"@) || !same_ignore_case(w[1], "FUNCTION"@) {
        Err("Expected DROP FUNCTION"@)
    } else if w.len() >= 5 && same_ignore_case(w[2], "IF"@) && same_ignore_case(w[3], "EXISTS"@) {
        Ok((true, trim_matches_text(w[4], '"')))
    } else {
        Ok((false, trim_matches_text(w[2], '"')))
    }
}

/// Whether `IF EXISTS` is given, and the name, in a `DROP FUNCTION` statement.
pub fn parse_drop_function(sql: &str) -> (r: Result<(bool, String), String>)
    ensures
        match r {
            Ok(p) => dropped_function(sql@) == Ok::<(bool, Seq<char>), Seq<char>>((p.0, p.1@)),
            Err(e) => dropped_function(sql@) == Err::<(bool, Seq<char>), Seq<char>>(e@),
        },
{
    let w = split_whitespace(&trim_end_matches(&trim(sql), ';'));
    assert(texts(w@).len() == w@.len());
    if w.len() < 3 {
        return Err("DROP FUNCTION requires a name".to_owned());
    }
    proof {
        assert forall|i: int| 0 <= i < w@.len() implies words(
            trim_end_matches_text(trim_text(sql@), ';'),
        )[i] == w@[i]@ by {
            assert(texts(w@)[i] == w@[i]@);
        }
    }
    if !eq_ignore_ascii_case(&w[0], "DROP") || !eq_ignore_ascii_case(&w[1], "FUNCTION") {
        return Err("Expected DROP FUNCTION".to_owned());
    }
    if w.len() >= 5 && eq_ignore_ascii_case(&w[2], "IF") && eq_ignore_ascii_case(&w[3], "EXISTS") {
        Ok((true, trim_matches(&w[4], '"')))
    } else {
        Ok((false, trim_matches(&w[2], '"')))
    }
}

// ---------------------------------------------------------------------------
// Expansion of calls
// ---------------------------------------------------------------------------

/// `body` with `$1`, `$2` and so on, up to `$n`, replaced one after the other by the arguments.
pub open spec fn with_numbered(body: Seq<char>, args: Seq<Seq<char>>, n: nat) -> Seq<char>
    decreases n,
{
    if n == 0 {
        body
    } else {
        replaced(
            with_numbered(body, args, (n - 1) as nat),
            "$"@ + decimal(n),
            trim_text(args[n - 1]),
        )
    }
}

/// `body` with the first `n` argument names replaced one after the other by the arguments.
pub open spec fn with_named(
    body: Seq<char>,
    names: Seq<Seq<char>>,
    args: Seq<Seq<char>>,
    n: nat,
) -> Seq<char>
    decreases n,
{
    if n == 0 {
        body
    } else {
        replaced(
            with_named(body, names, args, (n - 1) as nat),
            names[n - 1],
            trim_text(args[n - 1]),
        )
    }
}

/// The body of a function applied to arguments.
pub open spec fn applied(def: UdfView, args: Seq<Seq<char>>) -> Seq<char> {
    with_named(with_numbered(def.body, args, args.len()), def.args, args, args.len())
}

fn apply_function(def: &UdfDef, args: &Vec<String>) -> (r: String)
    requires
        args@.len() == def.args@.len(),
    ensures
        r@ == applied(def@, texts(args@)),
{
    let mut body = def.body.clone();
    let ghost a = texts(args@);
    let ghost names = texts(def.args@);
    let mut i: usize = 0;
    while i < args.len()
        invariant
            i <= args@.len(),
            a == texts(args@),
            body@ == with_numbered(def.body@, a, i as nat),
        decreases args@.len() - i,
    {
        let mark = concat2("$", &print_usize(i + 1));
        assert(a[i as int] == args@[i as int]@);
        body = replace(&body, &mark, &trim(&args[i]));
        i += 1;
    }
    let ghost mid = body@;
    let mut k: usize = 0;
    while k < args.len()
        invariant
            k <= args@.len(),
            args@.len() == def.args@.len(),
            a == texts(args@),
            names == texts(def.args@),
            body@ == with_named(mid, names, a, k as nat),
        decreases args@.len() - k,
    {
        assert(a[k as int] == args@[k as int]@);
        assert(names[k as int] == def.args@[k as int]@);
        body = replace(&body, &def.args[k], &trim(&args[k]));
        k += 1;
    }
    body
}

/// `p` before the text, if the outcome is one.
pub open spec fn before(
    p: Seq<char>,
    r: Option<Result<Seq<char>, Seq<char>>>,
) -> Option<Result<Seq<char>, Seq<char>>> {
    match r {
        Some(Ok(t)) => Some(Ok(p + t)),
        other => other,
    }
}

/// Whether the text that ends at byte offset `at` ends in an identifier.
pub open spec fn ends_in_identifier(sql: Seq<char>, at: int) -> bool {
    let head = byte_slice(sql, 0, at);
    at > 0 && head.len() > 0 && is_ident_char(head.last())
}

/// `sql` from byte offset `i` on with the calls of a function replaced by its body, where `lower`
/// is the text in lower case and `needle` the function's name in lower case with a parenthesis
/// behind it. A call with another number of arguments stays, and so does a longer name that ends
/// like the function's. `None` where a text cannot be cut at a place that was found.
pub open spec fn expanded_from(
    sql: Seq<char>,
    lower: Seq<char>,
    needle: Seq<char>,
    def: UdfView,
    i: int,
) -> Option<Result<Seq<char>, Seq<char>>>
    decreases utf8(sql).len() - i,
{
    let end = utf8(sql).len() as int;
    let n = utf8(needle).len() as int;
    if i < 0 || i >= end {
        Some(Ok(Seq::empty()))
    } else if !sliceable(lower, i, utf8(lower).len() as int) {
        None
    } else {
        match find_from(utf8(lower), utf8(needle), i) {
            None => if sliceable(sql, i, end) {
                Some(Ok(byte_slice(sql, i, end)))
            } else {
                None
            },
            Some(start) => if start < i || (start > 0 && !sliceable(sql, 0, start)) {
                None
            } else if ends_in_identifier(sql, start) {
                if sliceable(sql, i, start + n) && n > 0 {
                    before(
                        byte_slice(sql, i, start + n),
                        expanded_from(sql, lower, needle, def, start + n),
                    )
                } else {
                    None
                }
            } else {
                let open = start + utf8(def.name).len();
                match matching_paren(sql, open) {
                    None => Some(Err("Unclosed function call"@)),
                    Some(close) => if close < open || !sliceable(sql, open + 1, close)
                        || !sliceable(sql, i, start) || !sliceable(sql, start, close + 1) {
                        None
                    } else {
                        let args = list_items(byte_slice(sql, open + 1, close));
                        let call = if args.len() == def.args.len() {
                            "("@ + applied(def, args) + ")"@
                        } else {
                            byte_slice(sql, start, close + 1)
                        };
                        before(
                            byte_slice(sql, i, start) + call,
                            expanded_from(sql, lower, needle, def, close + 1),
                        )
                    },
                }
            },
        }
    }
}

/// Whether the outcome of an expansion is the one that the specification names.
pub open spec fn text_outcome(
    r: Option<Result<String, String>>,
    spec: Option<Result<Seq<char>, Seq<char>>>,
) -> bool {
    match r {
        None => spec is None,
        Some(Err(e)) => spec == Some(Err::<Seq<char>, Seq<char>>(e@)),
        Some(Ok(t)) => spec == Some(Ok::<Seq<char>, Seq<char>>(t@)),
    }
}

fn ident_before(sql: &str, at: usize) -> (r: Option<bool>)
    ensures
        r is None <==> (at > 0 && !sliceable(sql@, 0, at as int)),
        r matches Some(b) ==> b == ends_in_identifier(sql@, at as int),
{
    if at == 0 {
        return Some(false);
    }
    match slice_bytes(sql, 0, at) {
        None => None,
        Some(head) => {
            let v = to_chars(&head);
            if v.len() == 0 {
                Some(false)
            } else {
                Some(ident_char(v[v.len() - 1]))
            }
        },
    }
}

/// `sql` with the calls of one function replaced by its body, given the text in lower case and the
/// function's name in lower case with a parenthesis behind it.
pub fn expand_call_with(sql: &str, lower: &str, needle: &str, def: &UdfDef) -> (r: Option<
    Result<String, String>,
>)
    ensures
        text_outcome(r, expanded_from(sql@, lower@, needle@, def@, 0)),
{
    let mut out = String::new();
    let mut i: usize = 0;
    let end: usize = sql.as_bytes().len();
    let lb = lower.as_bytes();
    let nb = needle.as_bytes();
    let n: usize = nb.len();
    let name_len: usize = def.name.as_str().as_bytes().len();
    let ghost goal = expanded_from(sql@, lower@, needle@, def@, 0);
    assert(before(out@, goal) == goal) by {
        if goal is Some && goal->0 is Ok {
            assert(out@ + goal->0->Ok_0 == goal->0->Ok_0);
        }
    }
    while i < end
        invariant
            end == utf8(sql@).len(),
            i <= end,
            lb@ == utf8(lower@),
            nb@ == utf8(needle@),
            n == nb@.len(),
            name_len == utf8(def@.name).len(),
            goal == expanded_from(sql@, lower@, needle@, def@, 0),
            before(out@, expanded_from(sql@, lower@, needle@, def@, i as int)) == goal,
        decreases end - i,
    {
        let ghost here = expanded_from(sql@, lower@, needle@, def@, i as int);
        let ghost done = out@;
        if slice_bytes(lower, i, lb.len()).is_none() {
            return None;
        }
        let start: usize = match find_bytes_from(lb, nb, i) {
            None => {
                match slice_bytes(sql, i, end) {
                    None => {
                        return None;
                    },
                    Some(tail) => {
                        out.append(&tail);
                        return Some(Ok(out));
                    },
                }
            },
            Some(k) => k,
        };
        match ident_before(sql, start) {
            None => {
                return None;
            },
            Some(true) => {
                if n == 0 {
                    return None;
                }
                match slice_bytes(sql, i, start + n) {
                    None => {
                        return None;
                    },
                    Some(piece) => {
                        out.append(&piece);
                        proof {
                            let rest = expanded_from(sql@, lower@, needle@, def@, start + n);
                            assert(here == before(piece@, rest));
                            if rest is Some && rest->0 is Ok {
                                assert(done + (piece@ + rest->0->Ok_0) == out@ + rest->0->Ok_0);
                            }
                        }
                        i = start + n;
                        continue;
                    },
                }
            },
            Some(false) => {},
        }
        if start > usize::MAX - name_len {
            return Some(Err("Unclosed function call".to_owned()));
        }
        let open: usize = start + name_len;
        let close: usize = match find_matching_paren(sql, open) {
            None => {
                return Some(Err("Unclosed function call".to_owned()));
            },
            Some(k) => k,
        };
        match (
            slice_bytes(sql, open + 1, close),
            slice_bytes(sql, i, start),
            slice_bytes(sql, start, close + 1),
        ) {
            (Some(src), Some(head), Some(whole)) => {
                let args = split_top_level_csv(&src);
                assert(texts(args@).len() == args@.len());
                assert(texts(def.args@).len() == def.args@.len());
                let call = if args.len() == def.args.len() {
                    let body = apply_function(def, &args);
                    concat3("(", &body, ")")
                } else {
                    whole
                };
                out.append(&head);
                out.append(&call);
                proof {
                    let rest = expanded_from(sql@, lower@, needle@, def@, close + 1);
                    assert(here == before(head@ + call@, rest));
                    if rest is Some && rest->0 is Ok {
                        assert(done + (head@ + call@ + rest->0->Ok_0) == out@ + rest->0->Ok_0);
                    }
                }
                i = close + 1;
            },
            _ => {
                return None;
            },
        }
    }
    proof {
        assert(out@ + Seq::<char>::empty() == out@);
    }
    Some(Ok(out))
}

/// `sql` with the calls of one function replaced by its body.
pub open spec fn expanded_call(
    sql: Seq<char>,
    def: UdfView,
) -> Option<Result<Seq<char>, Seq<char>>> {
    expanded_from(sql, lower_text(sql), lower_text(def.name) + "("@, def, 0)
}

/// Replaces the calls of one function by its body; an outer `None` where the statement cannot be
/// cut at a place that was found in its lower-case form.
pub fn expand_single_udf_call(sql: &str, def: &UdfDef) -> (r: Option<Result<String, String>>)
    ensures
        text_outcome(r, expanded_call(sql@, def@)),
{
    let lower = sql.to_lowercase();
    let needle = concat2(&def.name.to_lowercase(), "(");
    expand_call_with(sql, &lower, &needle, def)
}

/// `sorted` with `def` put behind the last function whose name is at least as long.
pub open spec fn placed(sorted: Seq<UdfView>, def: UdfView) -> Seq<UdfView>
    decreases sorted.len(),
{
    if sorted.len() == 0 || utf8(sorted.last().name).len() >= utf8(def.name).len() {
        sorted.push(def)
    } else {
        placed(sorted.drop_last(), def).push(sorted.last())
    }
}

/// The functions from the longest name to the shortest; names of one length keep their order.
pub open spec fn longest_first(defs: Seq<UdfView>) -> Seq<UdfView>
    decreases defs.len(),
{
    if defs.len() == 0 {
        Seq::empty()
    } else {
        placed(longest_first(defs.drop_last()), defs.last())
    }
}

/// `sql` with the calls of the functions expanded, one function after the other.
pub open spec fn expanded_in_order(
    sql: Seq<char>,
    defs: Seq<UdfView>,
) -> Option<Result<Seq<char>, Seq<char>>>
    decreases defs.len(),
{
    if defs.len() == 0 {
        Some(Ok(sql))
    } else {
        match expanded_in_order(sql, defs.drop_last()) {
            Some(Ok(t)) => expanded_call(t, defs.last()),
            other => other,
        }
    }
}

/// The definitions of a list of functions.
pub open spec fn udf_views(defs: Seq<UdfDef>) -> Seq<UdfView> {
    Seq::new(defs.len(), |i: int| defs[i]@)
}

fn order_by_name_length(defs: &Vec<UdfDef>) -> (r: Vec<UdfDef>)
    ensures
        udf_views(r@) == longest_first(udf_views(defs@)),
{
    let mut sorted: Vec<UdfDef> = Vec::new();
    let mut i: usize = 0;
    assert(udf_views(sorted@) == longest_first(udf_views(defs@).subrange(0, 0)));
    while i < defs.len()
        invariant
            i <= defs@.len(),
            udf_views(sorted@) == longest_first(udf_views(defs@).subrange(0, i as int)),
        decreases defs@.len() - i,
    {
        let ghost all = udf_views(sorted@);
        let ghost next = udf_views(defs@).subrange(0, i + 1);
        assert(next.drop_last() == udf_views(defs@).subrange(0, i as int));
        let def = defs[i].dup();
        let len: usize = def.name.as_str().as_bytes().len();
        let mut k: usize = sorted.len();
        assert(all.subrange(0, k as int) == all);
        assert(all.subrange(k as int, all.len() as int) == Seq::<UdfView>::empty());
        while k > 0 && sorted[k - 1].name.as_str().as_bytes().len() < len
            invariant
                k <= sorted@.len(),
                all == udf_views(sorted@),
                len == utf8(def@.name).len(),
                placed(all, def@) == placed(all.subrange(0, k as int), def@) + all.subrange(
                    k as int,
                    all.len() as int,
                ),
            decreases k,
        {
            let ghost part = all.subrange(0, k as int);
            proof {
                assert(part.drop_last() == all.subrange(0, k - 1));
                assert(part.last() == sorted@[k - 1]@);
                assert(placed(part, def@) == placed(part.drop_last(), def@).push(part.last()));
                assert(placed(part, def@) + all.subrange(k as int, all.len() as int) == placed(
                    all.subrange(0, k - 1),
                    def@,
                ) + all.subrange(k - 1, all.len() as int));
            }
            k -= 1;
        }
        let ghost part = all.subrange(0, k as int);
        proof {
            if k > 0 {
                assert(part.last() == sorted@[k - 1]@);
            }
            assert(placed(part, def@) == part.push(def@));
        }
        let ghost dv = def@;
        sorted.insert(k, def);
        proof {
            assert(udf_views(sorted@) == part.push(dv) + all.subrange(k as int, all.len() as int));
            assert(next.last() == dv);
        }
        i += 1;
    }
    assert(udf_views(defs@).subrange(0, defs@.len() as int) == udf_views(defs@));
    sorted
}

/// Replaces the calls of all functions, those with the longest names first; an outer `None` where
/// a statement cannot be cut at a place that was found in its lower-case form.
pub fn expand_user_defined_functions(sql: &str, udfs: &Vec<UdfDef>) -> (r: Option<
    Result<String, String>,
>)
    ensures
        text_outcome(r, expanded_in_order(sql@, longest_first(udf_views(udfs@)))),
{
    let defs = order_by_name_length(udfs);
    let ghost order = udf_views(defs@);
    let mut out = sql.to_owned();
    let mut i: usize = 0;
    while i < defs.len()
        invariant
            i <= defs@.len(),
            order == udf_views(defs@),
            order == longest_first(udf_views(udfs@)),
            expanded_in_order(sql@, order.subrange(0, i as int)) == Some(
                Ok::<Seq<char>, Seq<char>>(out@),
            ),
        decreases defs@.len() - i,
    {
        let ghost next = order.subrange(0, i + 1);
        assert(next.drop_last() == order.subrange(0, i as int));
        assert(next.last() == defs@[i as int]@);
        match expand_single_udf_call(&out, &defs[i]) {
            Some(Ok(t)) => {
                out = t;
            },
            other => {
                proof {
                    lemma_stops(sql@, order, i + 1);
                }
                return other;
            },
        }
        i += 1;
    }
    assert(order.subrange(0, order.len() as int) == order);
    Some(Ok(out))
}

proof fn lemma_stops(sql: Seq<char>, order: Seq<UdfView>, k: int)
    requires
        0 <= k <= order.len(),
        !(expanded_in_order(sql, order.subrange(0, k)) matches Some(Ok(_))),
    ensures
        expanded_in_order(sql, order) == expanded_in_order(sql, order.subrange(0, k)),
    decreases order.len(),
{
    if k == order.len() {
        assert(order.subrange(0, k) == order);
    } else {
        assert(order.drop_last().subrange(0, k) == order.subrange(0, k));
        lemma_stops(sql, order.drop_last(), k);
    }
}

// ---------------------------------------------------------------------------
// Laws
// ---------------------------------------------------------------------------

/// Functions are expanded from the longest name to the shortest, and each of them once.
pub proof fn law_longest_name_comes_first(defs: Seq<UdfView>)
    ensures
        longest_first(defs).to_multiset() == defs.to_multiset(),
        forall|i: int, j: int|
            0 <= i < j < longest_first(defs).len() ==> utf8(
                (#[trigger] longest_first(defs)[i]).name,
            ).len() >= utf8((#[trigger] longest_first(defs)[j]).name).len(),
    decreases defs.len(),
{
    broadcast use vstd::seq_lib::group_to_multiset_ensures;

    if defs.len() == 0 {
        assert(defs =~= Seq::empty());
    } else {
        law_longest_name_comes_first(defs.drop_last());
        lemma_placed(longest_first(defs.drop_last()), defs.last());
        assert(defs =~= defs.drop_last().push(defs.last()));
    }
}

proof fn lemma_placed(sorted: Seq<UdfView>, def: UdfView)
    requires
        forall|i: int, j: int|
            0 <= i < j < sorted.len() ==> utf8((#[trigger] sorted[i]).name).len() >= utf8(
                (#[trigger] sorted[j]).name,
            ).len(),
    ensures
        placed(sorted, def).to_multiset() == sorted.to_multiset().insert(def),
        placed(sorted, def).len() == sorted.len() + 1,
        forall|i: int, j: int|
            0 <= i < j < placed(sorted, def).len() ==> utf8(
                (#[trigger] placed(sorted, def)[i]).name,
            ).len() >= utf8((#[trigger] placed(sorted, def)[j]).name).len(),
        forall|i: int|
            0 <= i < placed(sorted, def).len() ==> (#[trigger] placed(sorted, def)[i]) == def
                || sorted.contains(placed(sorted, def)[i]),
    decreases sorted.len(),
{
    broadcast use vstd::seq_lib::group_to_multiset_ensures;

    let out = placed(sorted, def);
    if sorted.len() == 0 || utf8(sorted.last().name).len() >= utf8(def.name).len() {
        assert forall|i: int| 0 <= i < out.len() implies (#[trigger] out[i]) == def
            || sorted.contains(out[i]) by {
            if i < sorted.len() {
                assert(out[i] == sorted[i]);
            }
        }
    } else {
        let rest = sorted.drop_last();
        lemma_placed(rest, def);
        let inner = placed(rest, def);
        assert(out == inner.push(sorted.last()));
        assert(sorted =~= rest.push(sorted.last()));
        assert forall|i: int| 0 <= i < out.len() implies (#[trigger] out[i]) == def
            || sorted.contains(out[i]) by {
            if i < inner.len() {
                assert(out[i] == inner[i]);
                if inner[i] != def {
                    let k = choose|k: int| 0 <= k < rest.len() && rest[k] == inner[i];
                    assert(sorted[k] == inner[i]);
                }
            } else {
                assert(sorted[sorted.len() - 1] == out[i]);
            }
        }
        assert forall|i: int, j: int| 0 <= i < j < out.len() implies utf8(
            (#[trigger] out[i]).name,
        ).len() >= utf8((#[trigger] out[j]).name).len() by {
            assert(out[i] == inner[i]);
            if j < inner.len() {
                assert(out[j] == inner[j]);
            } else if inner[i] != def {
                let k = choose|k: int| 0 <= k < rest.len() && rest[k] == inner[i];
                assert(sorted[k] == inner[i]);
                assert(sorted[sorted.len() - 1] == out[j]);
            }
        }
        assert(inner.push(sorted.last()).to_multiset() =~= sorted.to_multiset().insert(def));
    }
}

/// A function whose body speaks of no argument is its body, whatever it is called with.
pub proof fn law_constant_functions(def: UdfView, args: Seq<Seq<char>>)
    requires
        args.len() <= def.args.len(),
        forall|n: nat, i: int| !#[trigger] occurs_at(def.body, "$"@ + decimal(n), i),
        forall|k: int, i: int|
            0 <= k < def.args.len() ==> !#[trigger] occurs_at(def.body, def.args[k], i),
        forall|k: int| 0 <= k < def.args.len() ==> (#[trigger] def.args[k]).len() > 0,
    ensures
        applied(def, args) == def.body,
{
    lemma_numbered_absent(def.body, args, args.len());
    lemma_named_absent(def.body, def.args, args, args.len());
}

proof fn lemma_numbered_absent(body: Seq<char>, args: Seq<Seq<char>>, n: nat)
    requires
        n <= args.len(),
        forall|k: nat, i: int| !#[trigger] occurs_at(body, "$"@ + decimal(k), i),
    ensures
        with_numbered(body, args, n) == body,
    decreases n,
{
    if n > 0 {
        lemma_numbered_absent(body, args, (n - 1) as nat);
        reveal_strlit("$");
        law_text_without_the_pattern_stays(body, "$"@ + decimal(n), trim_text(args[n - 1]));
    }
}

proof fn lemma_named_absent(
    body: Seq<char>,
    names: Seq<Seq<char>>,
    args: Seq<Seq<char>>,
    n: nat,
)
    requires
        n <= args.len(),
        n <= names.len(),
        forall|k: int, i: int|
            0 <= k < names.len() ==> !#[trigger] occurs_at(body, names[k], i),
        forall|k: int| 0 <= k < names.len() ==> (#[trigger] names[k]).len() > 0,
    ensures
        with_named(body, names, args, n) == body,
    decreases n,
{
    if n > 0 {
        lemma_named_absent(body, names, args, (n - 1) as nat);
        assert(names[n - 1].len() > 0);
        assert forall|i: int| !#[trigger] occurs_at(body, names[n - 1], i) by {}
        law_text_without_the_pattern_stays(body, names[n - 1], trim_text(args[n - 1]));
    }
}

/// A function of one argument whose body is the argument, by its number or by its name, is what it is
/// called with.
pub proof fn law_identity_function(def: UdfView, name: Seq<char>, arg: Seq<char>)
    requires
        def.args == seq![name],
        name.len() > 0,
        forall|i: int| !#[trigger] occurs_at(name, "$"@ + decimal(1), i),
        forall|i: int| !#[trigger] occurs_at(trim_text(arg), name, i),
        def.body == name || def.body == "$"@ + decimal(1),
    ensures
        applied(def, seq![arg]) == trim_text(arg),
{
    reveal_strlit("$");
    let args = seq![arg];
    let number = "$"@ + decimal(1);
    let value = trim_text(arg);
    assert(with_numbered(def.body, args, 0) == def.body);
    let numbered = with_numbered(def.body, args, 1);
    assert(numbered == replaced(def.body, number, value));
    assert(with_named(numbered, def.args, args, 0) == numbered);
    assert(with_named(numbered, def.args, args, 1) == replaced(numbered, name, value));
    if def.body == number {
        law_pattern_alone_is_replaced(number, value);
        law_text_without_the_pattern_stays(value, name, value);
    } else {
        law_text_without_the_pattern_stays(name, number, value);
        law_pattern_alone_is_replaced(name, value);
    }
}

} // verus!
