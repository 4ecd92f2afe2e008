//! Anonymous `DO $$ .. $$` blocks: their variables and the statements that they run.
use vstd::prelude::*;
use vstd::string::*;

use crate::clauses::{substitute_plpgsql_var, with_variable};
use crate::functions::{find_ci, find_ci_offset};
use crate::namemap::NameMap;
use crate::scan::{dollar_body, extract_dollar_quoted_body, split_sql_statements, statements};
use crate::sql_helpers::{first_word, leading_word};
use crate::text::{
    after_word, byte_slice, concat2, cuttable, find_chars_from, from_chars, has_prefix, index_of,
    last_index_of, lower_text, pieces, replace, replaced, rfind_byte_offset, slice_bytes,
    slice_from, sliceable, split_char, starts_with, tail_at, texts, to_chars, trim, trim_text,
    upper_text, utf8,
};

verus! {

// ---------------------------------------------------------------------------
// Sections
// ---------------------------------------------------------------------------

/// The section behind `BEGIN` without what follows the last `END` in it, given its upper-case form.
pub open spec fn without_end(exec: Seq<char>, upper: Seq<char>) -> Option<Seq<char>> {
    match last_index_of(utf8(upper), utf8("END"@)) {
        None => Some(exec),
        Some(e) => if sliceable(exec, 0, e) {
            Some(trim_text(byte_slice(exec, 0, e)))
        } else {
            None
        },
    }
}

/// The declarations and the statements of a block: what stands before and behind the first
/// `BEGIN`. Without one the whole block is statements. `None` where the block cannot be cut there.
pub open spec fn block_sections(body: Seq<char>) -> Option<(Seq<char>, Seq<char>)> {
    match find_ci_offset(body, "BEGIN"@) {
        None => Some((Seq::empty(), body)),
        Some(b) => if !sliceable(body, 0, b) || !cuttable(body, b + 5) {
            None
        } else {
            let exec = trim_text(tail_at(body, b + 5));
            match without_end(exec, upper_text(exec)) {
                None => None,
                Some(e) => Some((trim_text(byte_slice(body, 0, b)), e)),
            }
        },
    }
}

/// The declarations and the statements of a block.
pub fn split_block(body: &str) -> (r: Option<(String, String)>)
    ensures
        match r {
            Some(p) => block_sections(body@) == Some((p.0@, p.1@)),
            None => block_sections(body@) is None,
        },
{
    match find_ci(body, "BEGIN") {
        None => Some((String::new(), body.to_owned())),
        Some(b) => {
            match (slice_bytes(body, 0, b), slice_from(body, b, 5)) {
                (Some(head), Some(tail)) => {
                    let exec = trim(&tail);
                    let upper = exec.to_uppercase();
                    match rfind_byte_offset(&upper, "END") {
                        None => Some((trim(&head), exec)),
                        Some(e) => match slice_bytes(&exec, 0, e) {
                            None => None,
                            Some(cut) => Some((trim(&head), trim(&cut))),
                        },
                    }
                },
                _ => None,
            }
        },
    }
}

// ---------------------------------------------------------------------------
// Variables
// ---------------------------------------------------------------------------

/// Variables in the order of their declaration, and their values.
pub struct Variables {
    pub names: Seq<Seq<char>>,
    pub values: Map<Seq<char>, Seq<char>>,
}

/// The variables with one more, or with a new value for one of them.
pub open spec fn with_value(v: Variables, name: Seq<char>, value: Seq<char>) -> Variables {
    Variables {
        names: if v.values.dom().contains(name) {
            v.names
        } else {
            v.names.push(name)
        },
        values: v.values.insert(name, value),
    }
}

/// The name, before it is put in lower case, and the value that a declaration gives: what stands
/// behind `:=`, or `NULL`.
pub open spec fn declaration(line: Seq<char>) -> (Seq<char>, Seq<char>) {
    match index_of(line, ":="@) {
        None => (first_word(line), "NULL"@),
        Some(k) => (
            first_word(line.subrange(0, k)),
            trim_text(line.subrange(k + ":="@.len(), line.len() as int)),
        ),
    }
}

/// The variables after the first `n` declarations. Blank ones do not count.
pub open spec fn declared(lines: Seq<Seq<char>>, n: nat) -> Variables
    decreases n,
{
    if n == 0 {
        Variables { names: Seq::empty(), values: Map::empty() }
    } else {
        let v = declared(lines, (n - 1) as nat);
        let line = trim_text(lines[n - 1]);
        let name = lower_text(declaration(line).0);
        if line.len() == 0 || name.len() == 0 {
            v
        } else {
            with_value(v, name, declaration(line).1)
        }
    }
}

/// The declarations without the word `DECLARE` before them, given their upper-case form.
pub open spec fn declare_body(section: Seq<char>, upper: Seq<char>) -> Option<Seq<char>> {
    if !has_prefix(upper, "DECLARE"@) {
        Some(section)
    } else if cuttable(section, utf8("DECLARE"@).len() as int) {
        Some(trim_text(tail_at(section, utf8("DECLARE"@).len() as int)))
    } else {
        None
    }
}

/// The variables that a block declares. `None` where the section cannot be cut behind `DECLARE`.
pub open spec fn block_variables(section: Seq<char>) -> Option<Variables> {
    if section.len() == 0 {
        Some(declared(Seq::empty(), 0))
    } else {
        match declare_body(section, upper_text(section)) {
            None => None,
            Some(body) => Some(declared(pieces(body, ';'), pieces(body, ';').len())),
        }
    }
}

fn read_declaration(line: &str) -> (r: (String, String))
    ensures
        declaration(line@) == (r.0@, r.1@),
{
    let v = to_chars(line);
    let mark = to_chars(":=");
    match find_chars_from(&v, &mark, 0) {
        None => (leading_word(line), "NULL".to_owned()),
        Some(k) => {
            let left = from_chars(&v, 0, k);
            let right = from_chars(&v, k + mark.len(), v.len());
            (leading_word(&left), trim(&right))
        },
    }
}

/// The variables that a map holds.
pub open spec fn variables_of(m: NameMap<String>) -> Variables {
    Variables { names: m.names(), values: m.deep() }
}

/// The variables that a block declares.
pub fn read_variables(section: &str) -> (r: Option<NameMap<String>>)
    ensures
        match r {
            Some(m) => m.deep_wf() && block_variables(section@) == Some(variables_of(m)),
            None => block_variables(section@) is None,
        },
{
    let mut vars: NameMap<String> = NameMap::new();
    proof {
        vars.lemma_empty();
    }
    if section.is_empty() {
        return Some(vars);
    }
    let upper = section.to_uppercase();
    let body = if starts_with(&upper, "DECLARE") {
        match after_word(section, "DECLARE") {
            None => {
                return None;
            },
            Some(s) => trim(&s),
        }
    } else {
        section.to_owned()
    };
    let lines = split_char(&body, ';');
    let ghost all = pieces(body@, ';');
    let mut i: usize = 0;
    while i < lines.len()
        invariant
            i <= lines@.len(),
            all == texts(lines@),
            vars.deep_wf(),
            variables_of(vars) == declared(all, i as nat),
        decreases lines@.len() - i,
    {
        assert(all[i as int] == lines@[i as int]@);
        let line = trim(&lines[i]);
        if !line.as_str().is_empty() {
            let (word, value) = read_declaration(&line);
            let name = word.to_lowercase();
            if !name.as_str().is_empty() {
                vars.put(name, value);
            }
        }
        i += 1;
    }
    assert(texts(lines@).len() == lines@.len());
    Some(vars)
}

/// `sorted` with `name` put behind the last name that is at least as long.
pub open spec fn name_placed(sorted: Seq<Seq<char>>, name: Seq<char>) -> Seq<Seq<char>>
    decreases sorted.len(),
{
    if sorted.len() == 0 || utf8(sorted.last()).len() >= utf8(name).len() {
        sorted.push(name)
    } else {
        name_placed(sorted.drop_last(), name).push(sorted.last())
    }
}

/// The names from the longest to the shortest; names of one length keep their order.
pub open spec fn longest_names(names: Seq<Seq<char>>) -> Seq<Seq<char>>
    decreases names.len(),
{
    if names.len() == 0 {
        Seq::empty()
    } else {
        name_placed(longest_names(names.drop_last()), names.last())
    }
}

fn order_names(names: &Vec<String>) -> (r: Vec<String>)
    ensures
        texts(r@) == longest_names(texts(names@)),
{
    let mut sorted: Vec<String> = Vec::new();
    let mut i: usize = 0;
    assert(texts(sorted@) == longest_names(texts(names@).subrange(0, 0)));
    while i < names.len()
        invariant
            i <= names@.len(),
            texts(sorted@) == longest_names(texts(names@).subrange(0, i as int)),
        decreases names@.len() - i,
    {
        let ghost all = texts(sorted@);
        let ghost next = texts(names@).subrange(0, i + 1);
        assert(next.drop_last() == texts(names@).subrange(0, i as int));
        let name = names[i].clone();
        let ghost nv = name@;
        let len: usize = name.as_str().as_bytes().len();
        let mut k: usize = sorted.len();
        assert(all.subrange(0, k as int) == all);
        assert(all.subrange(k as int, all.len() as int) == Seq::<Seq<char>>::empty());
        while k > 0 && sorted[k - 1].as_str().as_bytes().len() < len
            invariant
                k <= sorted@.len(),
                all == texts(sorted@),
                len == utf8(nv).len(),
                name_placed(all, nv) == name_placed(all.subrange(0, k as int), nv) + all.subrange(
                    k as int,
                    all.len() as int,
                ),
            decreases k,
        {
            let ghost part = all.subrange(0, k as int);
            proof {
                assert(part.drop_last() == all.subrange(0, k - 1));
                assert(part.last() == sorted@[k - 1]@);
                assert(name_placed(part, nv) == name_placed(part.drop_last(), nv).push(part.last()));
                assert(name_placed(part, nv) + all.subrange(k as int, all.len() as int)
                    == name_placed(all.subrange(0, k - 1), nv) + all.subrange(
                    k - 1,
                    all.len() as int,
                ));
            }
            k -= 1;
        }
        let ghost part = all.subrange(0, k as int);
        proof {
            if k > 0 {
                assert(part.last() == sorted@[k - 1]@);
            }
            assert(name_placed(part, nv) == part.push(nv));
        }
        sorted.insert(k, name);
        proof {
            assert(texts(sorted@) == part.push(nv) + all.subrange(k as int, all.len() as int));
            assert(next.last() == nv);
        }
        i += 1;
    }
    assert(texts(names@).subrange(0, names@.len() as int) == texts(names@));
    sorted
}

// ---------------------------------------------------------------------------
// Statements
// ---------------------------------------------------------------------------

/// A statement with the first `n` variables of `order` replaced one after the other, each first
/// behind a dollar sign and then as a word.
pub open spec fn resolved(
    stmt: Seq<char>,
    vars: Map<Seq<char>, Seq<char>>,
    order: Seq<Seq<char>>,
    n: nat,
) -> Seq<char>
    decreases n,
{
    if n == 0 {
        stmt
    } else {
        let k = order[n - 1];
        let t = resolved(stmt, vars, order, (n - 1) as nat);
        with_variable(replaced(t, "$"@ + k, vars[k]), k, vars[k])
    }
}

/// Whether a statement is a `RAISE`, which does nothing.
pub open spec fn is_raise(stmt: Seq<char>) -> bool {
    has_prefix(upper_text(trim_text(stmt)), "RAISE "@)
}

/// The statements that the first `n` statements of a block come to, without the `RAISE`s.
pub open spec fn resolved_statements(
    stmts: Seq<Seq<char>>,
    vars: Map<Seq<char>, Seq<char>>,
    order: Seq<Seq<char>>,
    n: nat,
) -> Seq<Seq<char>>
    decreases n,
{
    if n == 0 {
        Seq::empty()
    } else {
        let done = resolved_statements(stmts, vars, order, (n - 1) as nat);
        let t = resolved(stmts[n - 1], vars, order, order.len());
        if is_raise(t) {
            done
        } else {
            done.push(t)
        }
    }
}

/// The statements that a `DO` statement runs, in order, with its variables replaced. `None` where
/// the block cannot be cut at a place that was found.
pub open spec fn do_statements(sql: Seq<char>) -> Option<Result<Seq<Seq<char>>, Seq<char>>> {
    match dollar_body(sql) {
        None => Some(Err("DO requires $$...$$ body"@)),
        Some(body) => match block_sections(body) {
            None => None,
            Some(p) => match block_variables(p.0) {
                None => None,
                Some(vars) => Some(
                    Ok(
                        resolved_statements(
                            statements(p.1),
                            vars.values,
                            longest_names(vars.names),
                            statements(p.1).len(),
                        ),
                    ),
                ),
            },
        },
    }
}

fn resolve(stmt: &str, vars: &NameMap<String>, order: &Vec<String>) -> (r: String)
    requires
        vars.deep_wf(),
        forall|i: int|
            0 <= i < order@.len() ==> vars.deep().dom().contains(#[trigger] texts(order@)[i]),
    ensures
        r@ == resolved(stmt@, vars.deep(), texts(order@), order@.len()),
{
    let ghost names = texts(order@);
    let mut t = stmt.to_owned();
    let mut i: usize = 0;
    while i < order.len()
        invariant
            i <= order@.len(),
            vars.deep_wf(),
            names == texts(order@),
            forall|j: int|
                0 <= j < order@.len() ==> vars.deep().dom().contains(#[trigger] texts(order@)[j]),
            resolved(stmt@, vars.deep(), names, i as nat) == t@,
        decreases order@.len() - i,
    {
        assert(names[i as int] == order@[i as int]@);
        assert(vars.deep().dom().contains(texts(order@)[i as int]));
        if let Some(value) = vars.lookup(&order[i]) {
            let mark = concat2("$", &order[i]);
            let u = replace(&t, &mark, value);
            t = substitute_plpgsql_var(&u, &order[i], value);
        }
        i += 1;
    }
    t
}

proof fn lemma_longest_same_names(names: Seq<Seq<char>>)
    ensures
        forall|x: Seq<char>| #[trigger] longest_names(names).contains(x) ==> names.contains(x),
    decreases names.len(),
{
    if names.len() > 0 {
        let h = names.drop_last();
        lemma_longest_same_names(h);
        lemma_name_placed(longest_names(h), names.last());
        assert forall|x: Seq<char>| #[trigger]
            longest_names(names).contains(x) implies names.contains(x) by {
            if x == names.last() {
                assert(names[names.len() - 1] == x);
            } else {
                assert(longest_names(h).contains(x));
                let i = choose|i: int| 0 <= i < h.len() && h[i] == x;
                assert(names[i] == x);
            }
        }
    }
}

proof fn lemma_name_placed(s: Seq<Seq<char>>, name: Seq<char>)
    ensures
        forall|x: Seq<char>| #[trigger]
            name_placed(s, name).contains(x) ==> s.contains(x) || x == name,
    decreases s.len(),
{
    let p = name_placed(s, name);
    if s.len() == 0 || utf8(s.last()).len() >= utf8(name).len() {
        assert forall|x: Seq<char>| #[trigger] p.contains(x) implies s.contains(x) || x == name by {
            let i = choose|i: int| 0 <= i < p.len() && p[i] == x;
            if i < s.len() {
                assert(s[i] == x);
            }
        }
    } else {
        let h = s.drop_last();
        lemma_name_placed(h, name);
        let q = name_placed(h, name);
        assert forall|x: Seq<char>| #[trigger] p.contains(x) implies s.contains(x) || x == name by {
            let i = choose|i: int| 0 <= i < p.len() && p[i] == x;
            if i < q.len() {
                assert(q[i] == x);
                assert(q.contains(x));
                if h.contains(x) {
                    let j = choose|j: int| 0 <= j < h.len() && h[j] == x;
                    assert(s[j] == x);
                }
            } else {
                assert(s[s.len() - 1] == x);
            }
        }
    }
}

/// The statements that a `DO` statement runs, in order, with its variables replaced; an outer
/// `None` where the block cannot be cut at a place that was found.
pub fn parse_do_block(sql: &str) -> (r: Option<Result<Vec<String>, String>>)
    ensures
        match r {
            None => do_statements(sql@) is None,
            Some(Ok(list)) => do_statements(sql@) == Some(
                Ok::<Seq<Seq<char>>, Seq<char>>(texts(list@)),
            ),
            Some(Err(e)) => do_statements(sql@) == Some(Err::<Seq<Seq<char>>, Seq<char>>(e@)),
        },
{
    let body = match extract_dollar_quoted_body(sql) {
        None => {
            return Some(Err("DO requires $$...$$ body".to_owned()));
        },
        Some(b) => b,
    };
    let (declare, exec) = match split_block(&body) {
        None => {
            return None;
        },
        Some(p) => p,
    };
    let vars = match read_variables(&declare) {
        None => {
            return None;
        },
        Some(v) => v,
    };
    let order = order_names(&vars.keys);
    let stmts = split_sql_statements(&exec);
    let ghost names = texts(order@);
    let ghost list = texts(stmts@);
    proof {
        lemma_longest_same_names(vars.names());
        assert forall|i: int| 0 <= i < order@.len() implies vars.deep().dom().contains(
            #[trigger] texts(order@)[i],
        ) by {
            assert(names.contains(names[i]));
        }
    }
    let mut out: Vec<String> = Vec::new();
    let mut i: usize = 0;
    assert(texts(out@) == Seq::<Seq<char>>::empty());
    while i < stmts.len()
        invariant
            i <= stmts@.len(),
            vars.deep_wf(),
            names == texts(order@),
            names.len() == order@.len(),
            list == texts(stmts@),
            list.len() == stmts@.len(),
            forall|j: int|
                0 <= j < order@.len() ==> vars.deep().dom().contains(#[trigger] texts(order@)[j]),
            resolved_statements(list, vars.deep(), names, i as nat) == texts(out@),
            block_sections(body@) == Some((declare@, exec@)),
            dollar_body(sql@) == Some(body@),
            block_variables(declare@) == Some(variables_of(vars)),
            list == statements(exec@),
            names == longest_names(vars.names()),
        decreases stmts@.len() - i,
    {
        assert(list[i as int] == stmts@[i as int]@);
        let ghost done = out@;
        let t = resolve(&stmts[i], &vars, &order);
        let upper = trim(&t).to_uppercase();
        if !starts_with(&upper, "RAISE ") {
            out.push(t);
            assert(texts(out@) == texts(done).push(t@));
        }
        i += 1;
    }
    Some(Ok(out))
}

/// A variable that is declared again has its last value, and stays where it was first declared. The other
/// variables stay.
pub proof fn law_last_declaration_counts(
    v: Variables,
    name: Seq<char>,
    value: Seq<char>,
    other: Seq<char>,
)
    ensures
        with_value(v, name, value).values.dom().contains(name),
        with_value(v, name, value).values[name] == value,
        other != name && v.values.dom().contains(other) ==> with_value(v, name, value).values[other]
            == v.values[other],
        v.values.dom().contains(name) ==> with_value(v, name, value).names == v.names,
        !v.values.dom().contains(name) ==> with_value(v, name, value).names == v.names.push(name),
{
}

/// A declaration without a value is null.
pub proof fn law_undefined_variables_are_null(line: Seq<char>)
    requires
        index_of(line, ":="@) is None,
    ensures
        declaration(line).1 == "NULL"@,
        declaration(line).0 == first_word(line),
{
}

/// Variables are put in from the longest name to the shortest, so that none is taken for a part of
/// another. All of them are there.
pub proof fn law_longer_names_go_first(names: Seq<Seq<char>>, i: int, j: int)
    ensures
        longest_names(names).len() == names.len(),
        longest_names(names).to_multiset() == names.to_multiset(),
        0 <= i < j < longest_names(names).len() ==> utf8(longest_names(names)[i]).len() >= utf8(
            longest_names(names)[j],
        ).len(),
{
    lemma_longest(names);
}

spec fn falling(s: Seq<Seq<char>>) -> bool {
    forall|i: int, j: int|
        0 <= i < j < s.len() ==> utf8(#[trigger] s[i]).len() >= utf8(#[trigger] s[j]).len()
}

proof fn lemma_placed(sorted: Seq<Seq<char>>, name: Seq<char>)
    requires
        falling(sorted),
    ensures
        falling(name_placed(sorted, name)),
        name_placed(sorted, name).len() == sorted.len() + 1,
        name_placed(sorted, name).to_multiset() == sorted.to_multiset().insert(name),
        forall|k: int|
            0 <= k < name_placed(sorted, name).len() ==> #[trigger] name_placed(sorted, name)[k]
                == name || sorted.contains(name_placed(sorted, name)[k]),
    decreases sorted.len(),
{
    broadcast use vstd::seq_lib::group_to_multiset_ensures;

    let after = name_placed(sorted, name);
    if sorted.len() == 0 || utf8(sorted.last()).len() >= utf8(name).len() {
        assert forall|i: int, j: int| 0 <= i < j < after.len() implies utf8(
            #[trigger] after[i],
        ).len() >= utf8(#[trigger] after[j]).len() by {
            if j == sorted.len() {
                assert(utf8(sorted[i]).len() >= utf8(sorted[sorted.len() - 1]).len() || i
                    == sorted.len() - 1);
            } else {
                assert(utf8(sorted[i]).len() >= utf8(sorted[j]).len());
            }
        }
        assert forall|k: int| 0 <= k < after.len() implies #[trigger] after[k] == name
            || sorted.contains(after[k]) by {
            if k < sorted.len() {
                assert(sorted[k] == after[k]);
            }
        }
    } else {
        let rest = sorted.drop_last();
        assert forall|i: int, j: int| 0 <= i < j < rest.len() implies utf8(
            #[trigger] rest[i],
        ).len() >= utf8(#[trigger] rest[j]).len() by {
            assert(utf8(sorted[i]).len() >= utf8(sorted[j]).len());
        }
        lemma_placed(rest, name);
        let inner = name_placed(rest, name);
        assert(sorted =~= rest.push(sorted.last()));
        assert(after.to_multiset() =~= sorted.to_multiset().insert(name));
        assert forall|i: int, j: int| 0 <= i < j < after.len() implies utf8(
            #[trigger] after[i],
        ).len() >= utf8(#[trigger] after[j]).len() by {
            if j == inner.len() {
                assert(inner[i] == name || rest.contains(inner[i]));
                if inner[i] != name {
                    let q = choose|q: int| 0 <= q < rest.len() && rest[q] == inner[i];
                    assert(utf8(sorted[q]).len() >= utf8(sorted[sorted.len() - 1]).len());
                }
            } else {
                assert(utf8(inner[i]).len() >= utf8(inner[j]).len());
            }
        }
        assert forall|k: int| 0 <= k < after.len() implies #[trigger] after[k] == name
            || sorted.contains(after[k]) by {
            if k < inner.len() {
                assert(inner[k] == name || rest.contains(inner[k]));
                if inner[k] != name {
                    let q = choose|q: int| 0 <= q < rest.len() && rest[q] == inner[k];
                    assert(sorted[q] == after[k]);
                }
            } else {
                assert(sorted[sorted.len() - 1] == after[k]);
            }
        }
    }
}

proof fn lemma_longest(names: Seq<Seq<char>>)
    ensures
        falling(longest_names(names)),
        longest_names(names).len() == names.len(),
        longest_names(names).to_multiset() == names.to_multiset(),
    decreases names.len(),
{
    broadcast use vstd::seq_lib::group_to_multiset_ensures;

    if names.len() > 0 {
        lemma_longest(names.drop_last());
        lemma_placed(longest_names(names.drop_last()), names.last());
        assert(names =~= names.drop_last().push(names.last()));
    } else {
        assert(longest_names(names) =~= names);
    }
}

/// Every statement of a block is run, but for those that raise a message.
pub proof fn law_block_runs_every_statement(
    stmts: Seq<Seq<char>>,
    vars: Map<Seq<char>, Seq<char>>,
    order: Seq<Seq<char>>,
    n: nat,
    i: int,
)
    requires
        0 <= i < n <= stmts.len(),
        !has_prefix(
            upper_text(trim_text(resolved(stmts[i], vars, order, order.len()))),
            "RAISE "@,
        ),
    ensures
        resolved_statements(stmts, vars, order, n).contains(
            resolved(stmts[i], vars, order, order.len()),
        ),
    decreases n,
{
    let t = resolved(stmts[i], vars, order, order.len());
    let rest = resolved_statements(stmts, vars, order, (n - 1) as nat);
    let whole = resolved_statements(stmts, vars, order, n);
    if i == n - 1 {
        assert(whole[rest.len() as int] == t);
    } else {
        law_block_runs_every_statement(stmts, vars, order, (n - 1) as nat, i);
        let k = choose|k: int| 0 <= k < rest.len() && rest[k] == t;
        assert(whole[k] == t);
    }
}

} // verus!
