//! Which trees of statements can be printed.
//!
//! The crate `sqlparser` builds a part of a statement from any JSON text of the right form, but it
//! prints only what its own parser can have read: for anything else it panics. What it panics on is
//! told here from the JSON text alone, so that no such text is handed to it. A struct may stand in
//! the text as an object or as the list of its fields, and a key may be written with escapes; both
//! are looked at where they could hide such a part.
use vstd::prelude::*;
use vstd::string::*;

use crate::json::{
    find_member, json_of, json_view, lemma_list_view, lemma_members_view, list_view, member_of,
    members_view, parse_json, Json, JsonView, Member, MemberView,
};
use crate::text::{same, to_chars};

verus! {

/// Whether a part of a tree stands for nothing.
pub open spec fn is_nothing(j: JsonView) -> bool {
    j == JsonView::Atom("null"@)
}

/// Whether nothing stands under a key.
pub open spec fn lacks(j: JsonView, key: Seq<char>) -> bool {
    match member_of(j, key) {
        Some(v) => is_nothing(v),
        None => true,
    }
}

/// Whether a JSON text has an escape in it.
pub open spec fn has_escape(t: Seq<char>) -> bool {
    t.contains('\\')
}

/// Whether a value is sure to be another variant than the one of the word: a text, or an object with
/// the variant for a key.
pub open spec fn is_other_word(v: Option<JsonView>, word: Seq<char>) -> bool {
    match v {
        Some(JsonView::Text(t)) => !has_escape(t) && t != word,
        Some(JsonView::Object(ms)) => member_of(JsonView::Object(ms), word) is None,
        _ => false,
    }
}

/// Whether a JSON text is one of the quotes in which a name can stand: a double quote, a single one,
/// a backtick or an opening bracket.
pub open spec fn is_quote(t: Seq<char>) -> bool {
    t == "\\\""@ || t == "'"@ || t == "`"@ || t == "["@
}

/// Whether a name stands in quotes that can be printed, or in none. A word among the tokens of a
/// statement cannot stand in single quotes.
pub open spec fn sound_quotes(j: JsonView) -> bool {
    match member_of(j, "quote_style"@) {
        None => true,
        Some(JsonView::Text(t)) => is_quote(t) && (member_of(j, "keyword"@) is Some ==> t != "'"@),
        Some(v) => is_nothing(v),
    }
}

/// Whether an interval that begins with seconds and has both precisions ends there.
pub open spec fn sound_interval(j: JsonView) -> bool {
    ||| lacks(j, "leading_precision"@)
    ||| lacks(j, "fractional_seconds_precision"@)
    ||| lacks(j, "last_field"@)
    ||| lacks(j, "leading_field"@)
    ||| is_other_word(member_of(j, "leading_field"@), "Second"@)
}

/// Whether a generated column that is stored has an expression.
pub open spec fn sound_generated(j: JsonView) -> bool {
    ||| member_of(j, "generated_keyword"@) is None
    ||| !lacks(j, "generation_expr"@)
    ||| is_other_word(member_of(j, "generated_as"@), "ExpStored"@)
}

/// Whether an external table has a location.
pub open spec fn sound_location(j: JsonView) -> bool {
    ||| member_of(j, "columns"@) is None
    ||| match member_of(j, "external"@) {
        Some(v) => v == JsonView::Atom("false"@),
        None => true,
    }
    ||| !lacks(j, "location"@)
}

/// Whether a limit by expressions has a limit.
pub open spec fn sound_limit(j: JsonView) -> bool {
    ||| !lacks(j, "limit"@)
    ||| match member_of(j, "limit_by"@) {
        Some(v) => v == JsonView::List(Seq::empty()),
        None => true,
    }
}

/// Whether a query that is nothing but a table names it. The table is an object or the list of its
/// two fields.
pub open spec fn names_table(j: JsonView) -> bool {
    match member_of(j, "Table"@) {
        Some(JsonView::Object(ms)) => !lacks(JsonView::Object(ms), "table_name"@),
        Some(JsonView::List(xs)) => xs.len() != 2 || !is_nothing(xs[0]),
        _ => true,
    }
}

/// Whether the fields of an object fit together.
pub open spec fn sound_object(j: JsonView) -> bool {
    &&& sound_quotes(j)
    &&& sound_interval(j)
    &&& sound_generated(j)
    &&& sound_location(j)
    &&& sound_limit(j)
}

/// Whether a variant of the name holds fields that have to fit together.
pub open spec fn is_guarded(key: Seq<char>) -> bool {
    ||| key == "Word"@
    ||| key == "Interval"@
    ||| key == "Generated"@
    ||| key == "LimitOffset"@
    ||| key == "CreateTable"@
}

/// Whether what can be a query stands under the key.
pub open spec fn is_query_key(key: Seq<char>) -> bool {
    key == "body"@ || key == "left"@ || key == "right"@
}

/// Whether a member of an object can be told by its key, and hides nothing in a list.
pub open spec fn sound_member(m: MemberView) -> bool {
    &&& !has_escape(m.key)
    &&& is_guarded(m.key) ==> !(m.value is List)
    &&& is_query_key(m.key) ==> names_table(m.value)
}

/// Whether a value can be a place in a text: an object with a line, or two numbers.
pub open spec fn may_be_place(v: JsonView) -> bool {
    match v {
        JsonView::Object(ms) => member_of(v, "line"@) is Some,
        JsonView::List(xs) => xs.len() == 2 && xs[0] is Atom && xs[1] is Atom,
        _ => false,
    }
}

/// Whether a value can be the part of a text where a name stands: an object with a start, or two
/// places.
pub open spec fn may_be_span(v: JsonView) -> bool {
    match v {
        JsonView::Object(ms) => member_of(v, "start"@) is Some,
        JsonView::List(xs) => xs.len() == 2 && may_be_place(xs[0]) && may_be_place(xs[1]),
        _ => false,
    }
}

/// Whether a list is not the list of the fields of a name whose quotes cannot be printed: its text,
/// its quotes, and where it stands.
pub open spec fn sound_list(xs: Seq<JsonView>) -> bool {
    ||| xs.len() != 3
    ||| !(xs[0] is Text)
    ||| match xs[1] {
        JsonView::Text(t) => is_quote(t),
        _ => true,
    }
    ||| !may_be_span(xs[2])
}

/// Whether a character can stand in a number, `true`, `false` or `null`.
pub open spec fn is_atom_char(c: char) -> bool {
    'a' <= c <= 'z' || 'A' <= c <= 'Z' || '0' <= c <= '9' || c == '+' || c == '-' || c == '.'
}

/// Whether every character can stand in a number, `true`, `false` or `null`.
pub open spec fn sound_atom(t: Seq<char>) -> bool {
    forall|i: int| 0 <= i < t.len() ==> is_atom_char(#[trigger] t[i])
}

/// Whether a tree can be printed.
pub open spec fn printable(j: JsonView) -> bool
    decreases j, 0nat,
{
    match j {
        JsonView::Atom(t) => sound_atom(t),
        JsonView::Text(t) => true,
        JsonView::List(xs) => sound_list(xs) && values_printable(xs, xs.len()),
        JsonView::Object(ms) => sound_object(j) && members_printable(ms, ms.len()),
    }
}

/// Whether the first `n` values of a list can be printed.
pub open spec fn values_printable(xs: Seq<JsonView>, n: nat) -> bool
    decreases xs, n,
{
    if n == 0 || n > xs.len() {
        true
    } else {
        &&& values_printable(xs, (n - 1) as nat)
        &&& names_table(xs[n - 1])
        &&& printable(xs[n - 1])
    }
}

/// Whether the first `n` members of an object can be printed.
pub open spec fn members_printable(ms: Seq<MemberView>, n: nat) -> bool
    decreases ms, n,
{
    if n == 0 || n > ms.len() {
        true
    } else {
        &&& members_printable(ms, (n - 1) as nat)
        &&& sound_member(ms[n - 1])
        &&& printable(ms[n - 1].value)
    }
}

/// Whether a text is that of a tree that can be printed.
pub open spec fn printable_text(json: Seq<char>) -> bool {
    json_of(json) matches Some(j) && printable(j)
}

// ---------------------------------------------------------------------------
// The test
// ---------------------------------------------------------------------------

/// Whether a part of a tree stands for nothing.
pub(crate) fn stands_for_nothing(j: &Json) -> (r: bool)
    ensures
        r == is_nothing(j@),
{
    match j {
        Json::Atom(t) => same(t, "null"),
        _ => false,
    }
}

fn nothing_under(j: &Json, key: &str) -> (r: bool)
    ensures
        r == lacks(j@, key@),
{
    match find_member(j, key) {
        Some(v) => stands_for_nothing(v),
        None => true,
    }
}

fn holds_escape(t: &str) -> (r: bool)
    ensures
        r == has_escape(t@),
{
    let v = to_chars(t);
    let mut i: usize = 0;
    while i < v.len()
        invariant
            i <= v@.len(),
            v@ == t@,
            forall|k: int| 0 <= k < i ==> t@[k] != '\\',
        decreases v@.len() - i,
    {
        if v[i] == '\\' {
            assert(t@[i as int] == '\\');
            return true;
        }
        i += 1;
    }
    false
}

fn other_word(j: &Json, key: &str, word: &str) -> (r: bool)
    ensures
        r == is_other_word(member_of(j@, key@), word@),
{
    match find_member(j, key) {
        Some(Json::Text(t)) => !holds_escape(t) && !same(t, word),
        Some(o) => match o {
            Json::Object(_) => find_member(o, word).is_none(),
            _ => false,
        },
        None => false,
    }
}

fn quote(t: &str) -> (r: bool)
    ensures
        r == is_quote(t@),
{
    same(t, "\\\"") || same(t, "'") || same(t, "`") || same(t, "[")
}

fn quotes_are_sound(j: &Json) -> (r: bool)
    ensures
        r == sound_quotes(j@),
{
    match find_member(j, "quote_style") {
        None => true,
        Some(Json::Text(t)) => quote(t) && (find_member(j, "keyword").is_none() || !same(t, "'")),
        Some(v) => stands_for_nothing(v),
    }
}

fn location_is_sound(j: &Json) -> (r: bool)
    ensures
        r == sound_location(j@),
{
    find_member(j, "columns").is_none() || match find_member(j, "external") {
        Some(Json::Atom(t)) => same(t, "false"),
        Some(_) => false,
        None => true,
    } || !nothing_under(j, "location")
}

fn limit_is_sound(j: &Json) -> (r: bool)
    ensures
        r == sound_limit(j@),
{
    !nothing_under(j, "limit") || match find_member(j, "limit_by") {
        Some(Json::List(v)) => {
            proof {
                lemma_list_view(v@, v@.len());
                if v@.len() == 0 {
                    assert(list_view(v@, v@.len()) =~= Seq::empty());
                }
            }
            v.len() == 0
        },
        Some(_) => false,
        None => true,
    }
}

fn table_is_named(j: &Json) -> (r: bool)
    ensures
        r == names_table(j@),
{
    match find_member(j, "Table") {
        None => true,
        Some(t) => match t {
            Json::Object(_) => !nothing_under(t, "table_name"),
            Json::List(v) => {
                proof {
                    lemma_list_view(v@, v@.len());
                }
                v.len() != 2 || !stands_for_nothing(&v[0])
            },
            _ => true,
        },
    }
}

fn object_is_sound(j: &Json) -> (r: bool)
    ensures
        r == sound_object(j@),
{
    quotes_are_sound(j) && (nothing_under(j, "leading_precision") || nothing_under(
        j,
        "fractional_seconds_precision",
    ) || nothing_under(j, "last_field") || nothing_under(j, "leading_field") || other_word(j, "leading_field", "Second")) && (
    find_member(j, "generated_keyword").is_none() || !nothing_under(j, "generation_expr")
        || other_word(j, "generated_as", "ExpStored")) && location_is_sound(j) && limit_is_sound(j)
}

fn member_is_sound(m: &Member) -> (r: bool)
    ensures
        r == sound_member(MemberView { key: m.key@, value: json_view(m.value) }),
{
    let key = m.key.as_str();
    if holds_escape(key) {
        return false;
    }
    let guarded = same(key, "Word") || same(key, "Interval") || same(key, "Generated") || same(
        key,
        "LimitOffset",
    ) || same(key, "CreateTable");
    let listed = match &m.value {
        Json::List(_) => true,
        _ => false,
    };
    if guarded && listed {
        return false;
    }
    let query = same(key, "body") || same(key, "left") || same(key, "right");
    !query || table_is_named(&m.value)
}

fn place_may_be(j: &Json) -> (r: bool)
    ensures
        r == may_be_place(j@),
{
    match j {
        Json::Object(_) => find_member(j, "line").is_some(),
        Json::List(v) => {
            proof {
                lemma_list_view(v@, v@.len());
            }
            v.len() == 2 && match (&v[0], &v[1]) {
                (Json::Atom(_), Json::Atom(_)) => true,
                _ => false,
            }
        },
        _ => false,
    }
}

fn span_may_be(j: &Json) -> (r: bool)
    ensures
        r == may_be_span(j@),
{
    match j {
        Json::Object(_) => find_member(j, "start").is_some(),
        Json::List(v) => {
            proof {
                lemma_list_view(v@, v@.len());
            }
            v.len() == 2 && place_may_be(&v[0]) && place_may_be(&v[1])
        },
        _ => false,
    }
}

fn list_is_sound(v: &Vec<Json>) -> (r: bool)
    ensures
        r == sound_list(list_view(v@, v@.len())),
{
    proof {
        lemma_list_view(v@, v@.len());
    }
    if v.len() != 3 {
        return true;
    }
    let ghost xs = list_view(v@, v@.len());
    assert(xs[0] == json_view(v@[0]) && xs[1] == json_view(v@[1]) && xs[2] == json_view(v@[2]));
    match (&v[0], &v[1], &v[2]) {
        (Json::Text(_), Json::Text(t), third) => quote(t) || !span_may_be(third),
        _ => true,
    }
}

fn atom_is_sound(t: &str) -> (r: bool)
    ensures
        r == sound_atom(t@),
{
    let v = to_chars(t);
    let mut i: usize = 0;
    while i < v.len()
        invariant
            i <= v@.len(),
            v@ == t@,
            forall|k: int| 0 <= k < i ==> is_atom_char(#[trigger] t@[k]),
        decreases v@.len() - i,
    {
        let c = v[i];
        if !(('a' <= c && c <= 'z') || ('A' <= c && c <= 'Z') || ('0' <= c && c <= '9') || c == '+'
            || c == '-' || c == '.') {
            assert(!is_atom_char(t@[i as int]));
            return false;
        }
        i += 1;
    }
    true
}

proof fn lemma_value_fails(xs: Seq<JsonView>, i: nat, n: nat)
    requires
        i <= n <= xs.len(),
        !values_printable(xs, i),
    ensures
        !values_printable(xs, n),
    decreases n - i,
{
    if i < n {
        lemma_value_fails(xs, i, (n - 1) as nat);
    }
}

proof fn lemma_member_fails(ms: Seq<MemberView>, i: nat, n: nat)
    requires
        i <= n <= ms.len(),
        !members_printable(ms, i),
    ensures
        !members_printable(ms, n),
    decreases n - i,
{
    if i < n {
        lemma_member_fails(ms, i, (n - 1) as nat);
    }
}

fn tree_is_printable(j: &Json) -> (r: bool)
    ensures
        r == printable(j@),
    decreases j,
{
    match j {
        Json::Atom(t) => atom_is_sound(t),
        Json::Text(_) => true,
        Json::List(v) => {
            let ghost xs = list_view(v@, v@.len());
            proof {
                lemma_list_view(v@, v@.len());
            }
            if !list_is_sound(v) {
                return false;
            }
            let mut i: usize = 0;
            while i < v.len()
                invariant
                    i <= v@.len(),
                    *j == Json::List(*v),
                    j@ == JsonView::List(xs),
                    xs.len() == v@.len(),
                    forall|k: int| 0 <= k < v@.len() ==> #[trigger] xs[k] == json_view(v@[k]),
                    values_printable(xs, i as nat),
                decreases v@.len() - i,
            {
                assert(xs[i as int] == json_view(v@[i as int]));
                assert(decreases_to!(j => j->List_0));
                assert(decreases_to!(v => v@[i as int]));
                if !table_is_named(&v[i]) || !tree_is_printable(&v[i]) {
                    proof {
                        assert(!values_printable(xs, (i + 1) as nat));
                        lemma_value_fails(xs, (i + 1) as nat, xs.len());
                    }
                    return false;
                }
                i += 1;
            }
            true
        },
        Json::Object(v) => {
            let ghost ms = members_view(v@, v@.len());
            proof {
                lemma_members_view(v@, v@.len());
            }
            if !object_is_sound(j) {
                return false;
            }
            let mut i: usize = 0;
            while i < v.len()
                invariant
                    i <= v@.len(),
                    *j == Json::Object(*v),
                    j@ == JsonView::Object(ms),
                    ms.len() == v@.len(),
                    forall|k: int|
                        0 <= k < v@.len() ==> (#[trigger] ms[k]).key == v@[k].key@ && ms[k].value
                            == json_view(v@[k].value),
                    members_printable(ms, i as nat),
                decreases v@.len() - i,
            {
                assert(ms[i as int].key == v@[i as int].key@);
                assert(ms[i as int] == (MemberView {
                    key: v@[i as int].key@,
                    value: json_view(v@[i as int].value),
                }));
                assert(decreases_to!(j => j->Object_0));
                assert(decreases_to!(v => v@[i as int]));
                assert(decreases_to!(v@[i as int] => v@[i as int].value));
                if !member_is_sound(&v[i]) || !tree_is_printable(&v[i].value) {
                    proof {
                        assert(!members_printable(ms, (i + 1) as nat));
                        lemma_member_fails(ms, (i + 1) as nat, ms.len());
                    }
                    return false;
                }
                i += 1;
            }
            true
        },
    }
}

/// Whether a text is that of a tree that can be printed.
pub fn can_print(json: &str) -> (r: bool)
    ensures
        r == printable_text(json@),
{
    match parse_json(json) {
        Some(j) => tree_is_printable(&j),
        None => false,
    }
}

} // verus!
