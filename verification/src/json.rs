//! JSON texts without white space, as trees.
use vstd::prelude::*;
use vstd::string::*;

use crate::text::{from_chars, to_chars};

verus! {

/// A JSON value. Texts are held as they stand between their quotes.
pub enum Json {
    /// A number, `true`, `false` or `null`.
    Atom(String),
    Text(String),
    List(Vec<Json>),
    Object(Vec<Member>),
}

/// A member of a JSON object.
pub struct Member {
    pub key: String,
    pub value: Json,
}

/// What a [`Json`] says.
pub enum JsonView {
    Atom(Seq<char>),
    Text(Seq<char>),
    List(Seq<JsonView>),
    Object(Seq<MemberView>),
}

/// What a [`Member`] says.
pub struct MemberView {
    pub key: Seq<char>,
    pub value: JsonView,
}

/// What a value says.
pub open spec fn json_view(j: Json) -> JsonView
    decreases j, 0nat,
{
    match j {
        Json::Atom(t) => JsonView::Atom(t@),
        Json::Text(t) => JsonView::Text(t@),
        Json::List(v) => JsonView::List(list_view(v@, v@.len())),
        Json::Object(v) => JsonView::Object(members_view(v@, v@.len())),
    }
}

/// What the first `n` values of a list say.
pub open spec fn list_view(s: Seq<Json>, n: nat) -> Seq<JsonView>
    decreases s, n,
{
    if n == 0 || n > s.len() {
        Seq::empty()
    } else {
        list_view(s, (n - 1) as nat).push(json_view(s[n - 1]))
    }
}

/// What the first `n` members of an object say.
pub open spec fn members_view(s: Seq<Member>, n: nat) -> Seq<MemberView>
    decreases s, n,
{
    if n == 0 || n > s.len() {
        Seq::empty()
    } else {
        members_view(s, (n - 1) as nat).push(
            MemberView { key: s[n - 1].key@, value: json_view(s[n - 1].value) },
        )
    }
}

impl View for Json {
    type V = JsonView;

    open spec fn view(&self) -> JsonView {
        json_view(*self)
    }
}

pub proof fn lemma_list_view(s: Seq<Json>, n: nat)
    requires
        n <= s.len(),
    ensures
        list_view(s, n).len() == n,
        forall|i: int| 0 <= i < n ==> #[trigger] list_view(s, n)[i] == json_view(s[i]),
    decreases n,
{
    if n > 0 {
        lemma_list_view(s, (n - 1) as nat);
    }
}

pub proof fn lemma_members_view(s: Seq<Member>, n: nat)
    requires
        n <= s.len(),
    ensures
        members_view(s, n).len() == n,
        forall|i: int|
            0 <= i < n ==> (#[trigger] members_view(s, n)[i]).key == s[i].key@ && members_view(
                s,
                n,
            )[i].value == json_view(s[i].value),
    decreases n,
{
    if n > 0 {
        lemma_members_view(s, (n - 1) as nat);
    }
}

proof fn lemma_list_push(s: Seq<Json>, x: Json, n: nat)
    requires
        n <= s.len(),
    ensures
        list_view(s.push(x), n) == list_view(s, n),
    decreases n,
{
    if n > 0 {
        lemma_list_push(s, x, (n - 1) as nat);
    }
}

proof fn lemma_members_push(s: Seq<Member>, x: Member, n: nat)
    requires
        n <= s.len(),
    ensures
        members_view(s.push(x), n) == members_view(s, n),
    decreases n,
{
    if n > 0 {
        lemma_members_push(s, x, (n - 1) as nat);
    }
}

// ---------------------------------------------------------------------------
// Reading
// ---------------------------------------------------------------------------

/// The place of the quote that ends a text, from `i` on. A backslash takes the next character with
/// it.
pub open spec fn text_end(s: Seq<char>, i: int) -> Option<int>
    decreases s.len() - i,
{
    if i < 0 || i >= s.len() {
        None
    } else if s[i] == '"' {
        Some(i)
    } else if s[i] == '\\' {
        if i + 1 < s.len() {
            text_end(s, i + 2)
        } else {
            None
        }
    } else {
        text_end(s, i + 1)
    }
}

/// Whether a character ends an atom.
pub open spec fn ends_atom(c: char) -> bool {
    c == ',' || c == ']' || c == '}'
}

/// The place behind an atom, from `i` on.
pub open spec fn atom_end(s: Seq<char>, i: int) -> int
    decreases s.len() - i,
{
    if i < 0 || i >= s.len() || ends_atom(s[i]) {
        i
    } else {
        atom_end(s, i + 1)
    }
}

/// The value that begins at `i`, and the place behind it.
pub open spec fn value_at(s: Seq<char>, i: int) -> Option<(JsonView, int)>
    decreases s.len() - i, 0nat,
{
    if i < 0 || i >= s.len() {
        None
    } else if s[i] == '"' {
        match text_end(s, i + 1) {
            Some(e) => Some((JsonView::Text(s.subrange(i + 1, e)), e + 1)),
            None => None,
        }
    } else if s[i] == '[' {
        if i + 1 < s.len() && s[i + 1] == ']' {
            Some((JsonView::List(Seq::empty()), i + 2))
        } else {
            match items_at(s, i + 1) {
                Some((xs, e)) => Some((JsonView::List(xs), e)),
                None => None,
            }
        }
    } else if s[i] == '{' {
        if i + 1 < s.len() && s[i + 1] == '}' {
            Some((JsonView::Object(Seq::empty()), i + 2))
        } else {
            match members_at(s, i + 1) {
                Some((xs, e)) => Some((JsonView::Object(xs), e)),
                None => None,
            }
        }
    } else {
        let e = atom_end(s, i);
        if e <= i {
            None
        } else {
            Some((JsonView::Atom(s.subrange(i, e)), e))
        }
    }
}

/// The values of a list from `i` on, and the place behind the list.
pub open spec fn items_at(s: Seq<char>, i: int) -> Option<(Seq<JsonView>, int)>
    decreases s.len() - i, 1nat,
{
    if i < 0 || i >= s.len() {
        None
    } else {
        match value_at(s, i) {
            None => None,
            Some((x, e)) => if e <= i || e >= s.len() {
                None
            } else if s[e] == ',' {
                match items_at(s, e + 1) {
                    Some((xs, end)) => Some((seq![x] + xs, end)),
                    None => None,
                }
            } else if s[e] == ']' {
                Some((seq![x], e + 1))
            } else {
                None
            },
        }
    }
}

/// The members of an object from `i` on, and the place behind the object.
pub open spec fn members_at(s: Seq<char>, i: int) -> Option<(Seq<MemberView>, int)>
    decreases s.len() - i, 1nat,
{
    if i < 0 || i >= s.len() || s[i] != '"' {
        None
    } else {
        match text_end(s, i + 1) {
            None => None,
            Some(k) => if k <= i || k + 1 >= s.len() || s[k + 1] != ':' {
                None
            } else {
                match value_at(s, k + 2) {
                    None => None,
                    Some((v, e)) => {
                        let m = MemberView { key: s.subrange(i + 1, k), value: v };
                        if e <= i || e >= s.len() {
                            None
                        } else if s[e] == ',' {
                            match members_at(s, e + 1) {
                                Some((xs, end)) => Some((seq![m] + xs, end)),
                                None => None,
                            }
                        } else if s[e] == '}' {
                            Some((seq![m], e + 1))
                        } else {
                            None
                        }
                    },
                }
            },
        }
    }
}

/// The value that a text is, if it is one.
pub open spec fn json_of(s: Seq<char>) -> Option<JsonView> {
    match value_at(s, 0) {
        Some((j, e)) => if e == s.len() {
            Some(j)
        } else {
            None
        },
        None => None,
    }
}

fn find_text_end(v: &Vec<char>, from: usize) -> (r: Option<usize>)
    ensures
        match r {
            Some(e) => text_end(v@, from as int) == Some(e as int) && from <= e < v@.len(),
            None => text_end(v@, from as int) is None,
        },
{
    let mut i: usize = from;
    while i < v.len()
        invariant
            from <= i,
            text_end(v@, from as int) == text_end(v@, i as int),
        decreases v@.len() - i,
    {
        if v[i] == '"' {
            return Some(i);
        }
        if v[i] == '\\' {
            if i + 1 >= v.len() {
                return None;
            }
            i = i + 2;
        } else {
            i = i + 1;
        }
    }
    None
}

fn find_atom_end(v: &Vec<char>, from: usize) -> (r: usize)
    requires
        from <= v@.len(),
    ensures
        r == atom_end(v@, from as int),
        from <= r <= v@.len(),
{
    let mut i: usize = from;
    while i < v.len() && v[i] != ',' && v[i] != ']' && v[i] != '}'
        invariant
            from <= i <= v@.len(),
            atom_end(v@, from as int) == atom_end(v@, i as int),
        decreases v@.len() - i,
    {
        i = i + 1;
    }
    i
}

/// A value that was read, and the place behind it.
pub struct Read {
    pub value: Json,
    pub end: usize,
}

fn read_value(v: &Vec<char>, i: usize) -> (r: Option<Read>)
    ensures
        match r {
            Some(p) => value_at(v@, i as int) == Some((p.value@, p.end as int)) && i < p.end
                <= v@.len(),
            None => value_at(v@, i as int) is None,
        },
    decreases v@.len() - i, 0nat,
{
    if i >= v.len() {
        return None;
    }
    if v[i] == '"' {
        return match find_text_end(v, i + 1) {
            Some(e) => Some(Read { value: Json::Text(from_chars(v, i + 1, e)), end: e + 1 }),
            None => None,
        };
    }
    if v[i] == '[' {
        return read_list(v, i);
    }
    if v[i] == '{' {
        return read_object(v, i);
    }
    let e: usize = find_atom_end(v, i);
    if e <= i {
        return None;
    }
    Some(Read { value: Json::Atom(from_chars(v, i, e)), end: e })
}

/// Values in front of those that are still to come.
spec fn items_before(done: Seq<JsonView>, r: Option<(Seq<JsonView>, int)>) -> Option<
    (Seq<JsonView>, int),
> {
    match r {
        Some((xs, e)) => Some((done + xs, e)),
        None => None,
    }
}

/// Members in front of those that are still to come.
spec fn members_before(done: Seq<MemberView>, r: Option<(Seq<MemberView>, int)>) -> Option<
    (Seq<MemberView>, int),
> {
    match r {
        Some((xs, e)) => Some((done + xs, e)),
        None => None,
    }
}

fn read_list(v: &Vec<char>, i: usize) -> (r: Option<Read>)
    requires
        i < v@.len(),
        v@[i as int] == '[',
    ensures
        match r {
            Some(p) => value_at(v@, i as int) == Some((p.value@, p.end as int)) && i < p.end
                <= v@.len(),
            None => value_at(v@, i as int) is None,
        },
    decreases v@.len() - i - 1, 2nat,
{
    let n: usize = v.len();
    if i + 1 < n && v[i + 1] == ']' {
        let none: Vec<Json> = Vec::new();
        return Some(Read { value: Json::List(none), end: i + 2 });
    }
    let ghost goal = items_at(v@, i + 1);
    let mut items: Vec<Json> = Vec::new();
    let mut k: usize = i + 1;
    assert(items_before(Seq::empty(), goal) == goal) by {
        if goal is Some {
            assert(Seq::<JsonView>::empty() + (goal->0).0 =~= (goal->0).0);
        }
    }
    loop
        invariant
            n == v@.len(),
            i < k <= n,
            i < n,
            v@[i as int] == '[',
            !(i + 1 < n && v@[i + 1] == ']'),
            goal == items_at(v@, i + 1),
            goal == items_before(list_view(items@, items@.len()), items_at(v@, k as int)),
        decreases n - k,
    {
        match read_value(v, k) {
            None => {
                return None;
            },
            Some(p) => {
                if p.end >= n {
                    return None;
                }
                let ghost before = items@;
                let ghost x = p.value@;
                items.push(p.value);
                proof {
                    lemma_list_push(before, items@[before.len() as int], before.len());
                    assert(list_view(items@, items@.len()) == list_view(before, before.len()).push(
                        x,
                    ));
                    assert(list_view(before, before.len()) + seq![x] =~= list_view(
                        items@,
                        items@.len(),
                    ));
                }
                if v[p.end] == ']' {
                    return Some(Read { value: Json::List(items), end: p.end + 1 });
                }
                if v[p.end] != ',' {
                    return None;
                }
                proof {
                    let rest = items_at(v@, p.end + 1);
                    if rest is Some {
                        assert(list_view(before, before.len()) + (seq![x] + (rest->0).0)
                            =~= list_view(items@, items@.len()) + (rest->0).0);
                    }
                }
                k = p.end + 1;
            },
        }
    }
}

fn read_object(v: &Vec<char>, i: usize) -> (r: Option<Read>)
    requires
        i < v@.len(),
        v@[i as int] == '{',
    ensures
        match r {
            Some(p) => value_at(v@, i as int) == Some((p.value@, p.end as int)) && i < p.end
                <= v@.len(),
            None => value_at(v@, i as int) is None,
        },
    decreases v@.len() - i - 1, 2nat,
{
    let n: usize = v.len();
    if i + 1 < n && v[i + 1] == '}' {
        let none: Vec<Member> = Vec::new();
        return Some(Read { value: Json::Object(none), end: i + 2 });
    }
    let ghost goal = members_at(v@, i + 1);
    let mut items: Vec<Member> = Vec::new();
    let mut k: usize = i + 1;
    assert(members_before(Seq::empty(), goal) == goal) by {
        if goal is Some {
            assert(Seq::<MemberView>::empty() + (goal->0).0 =~= (goal->0).0);
        }
    }
    loop
        invariant
            n == v@.len(),
            i < k <= n,
            i < n,
            v@[i as int] == '{',
            !(i + 1 < n && v@[i + 1] == '}'),
            goal == members_at(v@, i + 1),
            goal == members_before(members_view(items@, items@.len()), members_at(v@, k as int)),
        decreases n - k,
    {
        if k >= n || v[k] != '"' {
            return None;
        }
        let close: usize = match find_text_end(v, k + 1) {
            None => {
                return None;
            },
            Some(e) => e,
        };
        if close + 1 >= n || v[close + 1] != ':' {
            return None;
        }
        match read_value(v, close + 2) {
            None => {
                return None;
            },
            Some(p) => {
                if p.end >= n {
                    return None;
                }
                let ghost before = items@;
                let member = Member { key: from_chars(v, k + 1, close), value: p.value };
                let ghost x = MemberView { key: member.key@, value: json_view(member.value) };
                items.push(member);
                proof {
                    lemma_members_push(before, items@[before.len() as int], before.len());
                    assert(members_view(items@, items@.len()) == members_view(
                        before,
                        before.len(),
                    ).push(x));
                    assert(members_view(before, before.len()) + seq![x] =~= members_view(
                        items@,
                        items@.len(),
                    ));
                }
                if v[p.end] == '}' {
                    return Some(Read { value: Json::Object(items), end: p.end + 1 });
                }
                if v[p.end] != ',' {
                    return None;
                }
                proof {
                    let rest = members_at(v@, p.end + 1);
                    if rest is Some {
                        assert(members_view(before, before.len()) + (seq![x] + (rest->0).0)
                            =~= members_view(items@, items@.len()) + (rest->0).0);
                    }
                }
                k = p.end + 1;
            },
        }
    }
}

/// The value that a text is, if it is one.
pub fn parse_json(text: &str) -> (r: Option<Json>)
    ensures
        match r {
            Some(j) => json_of(text@) == Some(j@),
            None => json_of(text@) is None,
        },
{
    let v = to_chars(text);
    match read_value(&v, 0) {
        Some(p) => if p.end == v.len() {
            Some(p.value)
        } else {
            None
        },
        None => None,
    }
}

// ---------------------------------------------------------------------------
// Printing
// ---------------------------------------------------------------------------

/// A value as text.
pub open spec fn json_text(j: JsonView) -> Seq<char>
    decreases j, 0nat,
{
    match j {
        JsonView::Atom(t) => t,
        JsonView::Text(t) => seq!['"'] + t + seq!['"'],
        JsonView::List(xs) => seq!['['] + items_text(xs, xs.len()) + seq![']'],
        JsonView::Object(ms) => seq!['{'] + members_text(ms, ms.len()) + seq!['}'],
    }
}

/// The first `n` values of a list as text, with commas between them.
pub open spec fn items_text(xs: Seq<JsonView>, n: nat) -> Seq<char>
    decreases xs, n,
{
    if n == 0 || n > xs.len() {
        Seq::empty()
    } else if n == 1 {
        json_text(xs[0])
    } else {
        items_text(xs, (n - 1) as nat) + seq![','] + json_text(xs[n - 1])
    }
}

/// A key as text, with the colon behind it.
pub open spec fn key_text(key: Seq<char>) -> Seq<char> {
    seq!['"'] + key + seq!['"', ':']
}

/// The first `n` members of an object as text, with commas between them.
pub open spec fn members_text(ms: Seq<MemberView>, n: nat) -> Seq<char>
    decreases ms, n,
{
    if n == 0 || n > ms.len() {
        Seq::empty()
    } else if n == 1 {
        key_text(ms[0].key) + json_text(ms[0].value)
    } else {
        members_text(ms, (n - 1) as nat) + seq![','] + key_text(ms[n - 1].key) + json_text(
            ms[n - 1].value,
        )
    }
}

/// Puts a key behind a text, with the colon behind it.
pub fn push_key(out: &mut String, key: &str)
    ensures
        final(out)@ == old(out)@ + key_text(key@),
{
    let ghost goal = out@ + key_text(key@);
    out.push('"');
    out.append(key);
    out.push('"');
    out.push(':');
    assert(out@ =~= goal);
}

/// Puts a tree behind a text, as JSON.
pub fn push_json(out: &mut String, j: &Json)
    ensures
        final(out)@ == old(out)@ + json_text(j@),
    decreases j,
{
    let ghost start = out@;
    match j {
        Json::Atom(t) => {
            out.append(t);
        },
        Json::Text(t) => {
            out.push('"');
            out.append(t);
            out.push('"');
            assert(out@ =~= start + json_text(j@));
        },
        Json::List(v) => {
            let ghost xs = list_view(v@, v@.len());
            proof {
                lemma_list_view(v@, v@.len());
            }
            out.push('[');
            let ghost head = out@;
            let mut i: usize = 0;
            assert(out@ =~= head + items_text(xs, 0));
            while i < v.len()
                invariant
                    i <= v@.len(),
                    *j == Json::List(*v),
                    xs.len() == v@.len(),
                    forall|k: int| 0 <= k < v@.len() ==> #[trigger] xs[k] == json_view(v@[k]),
                    out@ == head + items_text(xs, i as nat),
                decreases v@.len() - i,
            {
                let ghost before = out@;
                if i > 0 {
                    out.push(',');
                }
                assert(xs[i as int] == json_view(v@[i as int]));
                assert(decreases_to!(j => j->List_0));
                assert(decreases_to!(v => v@[i as int]));
                push_json(out, &v[i]);
                i += 1;
                assert(out@ =~= head + items_text(xs, i as nat));
            }
            out.push(']');
            assert(out@ =~= start + json_text(j@));
        },
        Json::Object(v) => {
            let ghost ms = members_view(v@, v@.len());
            proof {
                lemma_members_view(v@, v@.len());
            }
            out.push('{');
            let ghost head = out@;
            let mut i: usize = 0;
            assert(out@ =~= head + members_text(ms, 0));
            while i < v.len()
                invariant
                    i <= v@.len(),
                    *j == Json::Object(*v),
                    ms.len() == v@.len(),
                    forall|k: int|
                        0 <= k < v@.len() ==> (#[trigger] ms[k]).key == v@[k].key@ && ms[k].value
                            == json_view(v@[k].value),
                    out@ == head + members_text(ms, i as nat),
                decreases v@.len() - i,
            {
                if i > 0 {
                    out.push(',');
                }
                assert(ms[i as int].key == v@[i as int].key@);
                push_key(out, &v[i].key);
                assert(decreases_to!(j => j->Object_0));
                assert(decreases_to!(v => v@[i as int]));
                assert(decreases_to!(v@[i as int] => v@[i as int].value));
                push_json(out, &v[i].value);
                i += 1;
                assert(out@ =~= head + members_text(ms, i as nat));
            }
            out.push('}');
            assert(out@ =~= start + json_text(j@));
        },
    }
}

/// The value of the first member of a name.
pub open spec fn member_from(ms: Seq<MemberView>, key: Seq<char>, i: int) -> Option<JsonView>
    decreases ms.len() - i,
{
    if i < 0 || i >= ms.len() {
        None
    } else if ms[i].key == key {
        Some(ms[i].value)
    } else {
        member_from(ms, key, i + 1)
    }
}

/// The value of the member of a name, where the value is an object that has one.
pub open spec fn member_of(j: JsonView, key: Seq<char>) -> Option<JsonView> {
    match j {
        JsonView::Object(ms) => member_from(ms, key, 0),
        _ => None,
    }
}

/// The value of the member of a name, where the value is an object that has one.
pub fn find_member<'a>(j: &'a Json, key: &str) -> (r: Option<&'a Json>)
    ensures
        match r {
            Some(v) => member_of(j@, key@) == Some(v@),
            None => member_of(j@, key@) is None,
        },
{
    match j {
        Json::Object(ms) => {
            let ghost all = members_view(ms@, ms@.len());
            let mut i: usize = 0;
            proof {
                lemma_members_view(ms@, ms@.len());
            }
            while i < ms.len()
                invariant
                    i <= ms@.len(),
                    all == members_view(ms@, ms@.len()),
                    all.len() == ms@.len(),
                    forall|k: int|
                        0 <= k < ms@.len() ==> (#[trigger] all[k]).key == ms@[k].key@
                            && all[k].value == json_view(ms@[k].value),
                    member_of(j@, key@) == member_from(all, key@, i as int),
                decreases ms@.len() - i,
            {
                assert(all[i as int].key == ms@[i as int].key@);
                if crate::text::same(&ms[i].key, key) {
                    return Some(&ms[i].value);
                }
                i += 1;
            }
            None
        },
        _ => None,
    }
}

// ---------------------------------------------------------------------------
// Laws
// ---------------------------------------------------------------------------

/// Nothing of a text is lost in its tree: a text that was read prints as it was.
pub proof fn law_read_text_prints_back(s: Seq<char>)
    requires
        json_of(s) is Some,
    ensures
        json_text(json_of(s)->0) == s,
{
    lemma_value_text(s, 0);
    assert(s.subrange(0, s.len() as int) =~= s);
}

proof fn lemma_text_end(s: Seq<char>, i: int)
    requires
        0 <= i,
    ensures
        text_end(s, i) matches Some(e) ==> i <= e < s.len() && s[e] == '"',
    decreases s.len() - i,
{
    if i < s.len() && s[i] != '"' {
        if s[i] == '\\' {
            if i + 1 < s.len() {
                lemma_text_end(s, i + 2);
            }
        } else {
            lemma_text_end(s, i + 1);
        }
    }
}

proof fn lemma_atom_end(s: Seq<char>, i: int)
    requires
        0 <= i <= s.len(),
    ensures
        i <= atom_end(s, i) <= s.len(),
    decreases s.len() - i,
{
    if i < s.len() && !ends_atom(s[i]) {
        lemma_atom_end(s, i + 1);
    }
}

proof fn lemma_first_item(x: JsonView, xs: Seq<JsonView>, n: nat)
    requires
        1 <= n <= xs.len(),
    ensures
        items_text(seq![x] + xs, n + 1) == json_text(x) + seq![','] + items_text(xs, n),
    decreases n,
{
    let all = seq![x] + xs;
    assert(all[n as int] == xs[n - 1]);
    assert(all[0] == x);
    if n > 1 {
        lemma_first_item(x, xs, (n - 1) as nat);
        assert(items_text(all, n + 1) =~= json_text(x) + seq![','] + items_text(xs, n));
    } else {
        assert(items_text(all, 1) == json_text(x));
    }
}

proof fn lemma_first_member(m: MemberView, ms: Seq<MemberView>, n: nat)
    requires
        1 <= n <= ms.len(),
    ensures
        members_text(seq![m] + ms, n + 1) == key_text(m.key) + json_text(m.value) + seq![',']
            + members_text(ms, n),
    decreases n,
{
    let all = seq![m] + ms;
    assert(all[n as int] == ms[n - 1]);
    assert(all[0] == m);
    if n > 1 {
        lemma_first_member(m, ms, (n - 1) as nat);
    } else {
        assert(members_text(all, 1) == key_text(m.key) + json_text(m.value));
    }
    assert(members_text(all, n + 1) =~= key_text(m.key) + json_text(m.value) + seq![',']
        + members_text(ms, n));
}

proof fn lemma_value_text(s: Seq<char>, i: int)
    requires
        0 <= i,
    ensures
        value_at(s, i) matches Some(p) ==> i < p.1 <= s.len() && json_text(p.0) == s.subrange(
            i,
            p.1,
        ),
    decreases s.len() - i, 0nat,
{
    if i < s.len() && value_at(s, i) is Some {
        let p = value_at(s, i)->0;
        if s[i] == '"' {
            lemma_text_end(s, i + 1);
            assert(json_text(p.0) =~= s.subrange(i, p.1));
        } else if s[i] == '[' {
            if i + 1 < s.len() && s[i + 1] == ']' {
                assert(json_text(p.0) =~= s.subrange(i, p.1));
            } else {
                lemma_items_text(s, i + 1);
                let q = items_at(s, i + 1)->0;
                assert(json_text(p.0) =~= seq!['['] + (items_text(q.0, q.0.len()) + seq![']']));
                assert(json_text(p.0) =~= s.subrange(i, p.1));
            }
        } else if s[i] == '{' {
            if i + 1 < s.len() && s[i + 1] == '}' {
                assert(json_text(p.0) =~= s.subrange(i, p.1));
            } else {
                lemma_members_text(s, i + 1);
                let q = members_at(s, i + 1)->0;
                assert(json_text(p.0) =~= seq!['{'] + (members_text(q.0, q.0.len()) + seq!['}']));
                assert(json_text(p.0) =~= s.subrange(i, p.1));
            }
        } else {
            lemma_atom_end(s, i);
        }
    }
}

proof fn lemma_items_text(s: Seq<char>, i: int)
    requires
        0 <= i,
    ensures
        items_at(s, i) matches Some(p) ==> i < p.1 <= s.len() && p.0.len() > 0 && items_text(
            p.0,
            p.0.len(),
        ) + seq![']'] == s.subrange(i, p.1),
    decreases s.len() - i, 1nat,
{
    if i < s.len() && items_at(s, i) is Some {
        lemma_value_text(s, i);
        let p = items_at(s, i)->0;
        let (x, e) = value_at(s, i)->0;
        if s[e] == ',' {
            lemma_items_text(s, e + 1);
            let q = items_at(s, e + 1)->0;
            lemma_first_item(x, q.0, q.0.len());
            assert(items_text(p.0, p.0.len()) + seq![']'] =~= json_text(x) + seq![','] + (
            items_text(q.0, q.0.len()) + seq![']']));
            assert(items_text(p.0, p.0.len()) + seq![']'] =~= s.subrange(i, p.1));
        } else {
            assert(p.0[0] == x);
            assert(items_text(p.0, 1) == json_text(x));
            assert(items_text(p.0, p.0.len()) + seq![']'] =~= s.subrange(i, p.1));
        }
    }
}

proof fn lemma_members_text(s: Seq<char>, i: int)
    requires
        0 <= i,
    ensures
        members_at(s, i) matches Some(p) ==> i < p.1 <= s.len() && p.0.len() > 0 && members_text(
            p.0,
            p.0.len(),
        ) + seq!['}'] == s.subrange(i, p.1),
    decreases s.len() - i, 1nat,
{
    if i < s.len() && members_at(s, i) is Some {
        lemma_text_end(s, i + 1);
        let k = text_end(s, i + 1)->0;
        lemma_value_text(s, k + 2);
        let p = members_at(s, i)->0;
        let (v, e) = value_at(s, k + 2)->0;
        let m = MemberView { key: s.subrange(i + 1, k), value: v };
        assert(key_text(m.key) + json_text(v) =~= s.subrange(i, e));
        if s[e] == ',' {
            lemma_members_text(s, e + 1);
            let q = members_at(s, e + 1)->0;
            lemma_first_member(m, q.0, q.0.len());
            assert(members_text(p.0, p.0.len()) + seq!['}'] =~= key_text(m.key) + json_text(v)
                + seq![','] + (members_text(q.0, q.0.len()) + seq!['}']));
            assert(members_text(p.0, p.0.len()) + seq!['}'] =~= s.subrange(i, p.1));
        } else {
            assert(p.0[0] == m);
            assert(members_text(p.0, 1) == key_text(m.key) + json_text(v));
            assert(members_text(p.0, p.0.len()) + seq!['}'] =~= s.subrange(i, p.1));
        }
    }
}

} // verus!
