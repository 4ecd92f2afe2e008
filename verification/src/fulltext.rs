//! Full-text search: definitions, the inverted index, and the rewriting of `fts_match`.
use vstd::prelude::*;
use vstd::string::*;

use crate::cells::{search_text, searched_text, CellView, Row};
use crate::commands::{bare, bare_statement};
use crate::dup::{dup_vec, views, Dup};
use crate::functions::{find_ci, find_ci_offset};
use crate::meaning::{self, Frame, Phrase, Value, World};
use crate::namemap::NameMap;
use crate::scan::{list_items, split_top_level_csv};
use crate::text::{
    after_word, byte_slice, clone_strings, concat2, concat3, contains, contains_seq, cuttable,
    find_byte_offset, find_chars_from, from_chars, has_prefix, index_of, is_digit, join, joined,
    last_index_of, lower_text, opt_text, replace, replaced, rfind_byte_offset, same, slice_bytes,
    slice_from, sliceable, starts_with, tail_at, texts, to_chars, trim, trim_matches,
    trim_matches_text, trim_text, upper_text, utf8,
};

verus! {

/// What `char::is_alphanumeric` says of a character.
pub uninterp spec fn alphanumeric(c: char) -> bool;

/// `char::is_alphanumeric`: the answer depends on the character alone, and of the ASCII characters
/// it holds of letters and digits.
pub assume_specification[ char::is_alphanumeric ](c: char) -> (r: bool)
    ensures
        r == alphanumeric(c),
        c <= '\u{7f}' ==> r == (is_digit(c) || 'a' <= c <= 'z' || 'A' <= c <= 'Z'),
;

// ---------------------------------------------------------------------------
// Tokens
// ---------------------------------------------------------------------------

/// The first position at or after `i` that holds no letter or digit.
pub open spec fn token_end(s: Seq<char>, i: int) -> int
    decreases s.len() - i,
{
    if 0 <= i < s.len() && alphanumeric(s[i]) {
        token_end(s, i + 1)
    } else {
        i
    }
}

pub proof fn lemma_token_end(s: Seq<char>, i: int)
    requires
        0 <= i <= s.len(),
    ensures
        i <= token_end(s, i) <= s.len(),
    decreases s.len() - i,
{
    if i < s.len() {
        lemma_token_end(s, i + 1);
    }
}

/// A run of letters and digits, if it is longer than a byte.
pub open spec fn token(s: Seq<char>) -> Seq<Seq<char>> {
    if utf8(s).len() > 1 {
        seq![s]
    } else {
        Seq::empty()
    }
}

/// The tokens of a text from position `i` on: its runs of letters and digits that are longer than
/// a byte.
pub open spec fn tokens_from(s: Seq<char>, i: int) -> Seq<Seq<char>>
    decreases s.len() - i,
    when 0 <= i <= s.len()
{
    let e = token_end(s, i);
    proof {
        lemma_token_end(s, i);
    }
    if e < s.len() {
        token(s.subrange(i, e)) + tokens_from(s, e + 1)
    } else {
        token(s.subrange(i, e))
    }
}

/// The tokens of a text, in lower case.
pub open spec fn tokens(text: Seq<char>) -> Seq<Seq<char>> {
    tokens_from(lower_text(text), 0)
}

fn split_tokens(text: &str) -> (r: Vec<String>)
    ensures
        texts(r@) == tokens_from(text@, 0),
{
    let v = to_chars(text);
    let n: usize = v.len();
    let mut out: Vec<String> = Vec::new();
    let mut i: usize = 0;
    let mut more = true;
    assert(texts(out@) + tokens_from(v@, 0) == tokens_from(v@, 0));
    while more
        invariant
            i <= n,
            n == v@.len(),
            more ==> texts(out@) + tokens_from(v@, i as int) == tokens_from(v@, 0),
            !more ==> texts(out@) == tokens_from(v@, 0),
        decreases n - i + (if more {
            1int
        } else {
            0int
        }),
    {
        let start: usize = i;
        while i < n && v[i].is_alphanumeric()
            invariant
                start <= i <= n,
                n == v@.len(),
                token_end(v@, start as int) == token_end(v@, i as int),
            decreases n - i,
        {
            i += 1;
        }
        let ghost done = out@;
        let run = from_chars(&v, start, i);
        let ghost rv = run@;
        if run.as_str().as_bytes().len() > 1 {
            out.push(run);
            assert(texts(out@) == texts(done).push(rv));
        }
        assert(texts(out@) == texts(done) + token(rv));
        if i < n {
            assert(texts(out@) + tokens_from(v@, i + 1) == texts(done) + (token(rv) + tokens_from(
                v@,
                i + 1,
            )));
            i += 1;
        } else {
            assert(texts(out@) == texts(done) + tokens_from(v@, start as int));
            more = false;
        }
    }
    out
}

/// The tokens of a text, in lower case.
pub fn tokenize(text: &str) -> (r: Vec<String>)
    ensures
        texts(r@) == tokens(text@),
{
    let lower = text.to_lowercase();
    split_tokens(&lower)
}

// ---------------------------------------------------------------------------
// The inverted index
// ---------------------------------------------------------------------------

/// A row of a document in which a token occurs.
pub struct Posting {
    pub doc_id: String,
    pub row_idx: usize,
}

impl View for Posting {
    type V = (Seq<char>, usize);

    open spec fn view(&self) -> (Seq<char>, usize) {
        (self.doc_id@, self.row_idx)
    }
}

impl Dup for Posting {
    open spec fn wf(&self) -> bool {
        true
    }

    fn dup(&self) -> (r: Self) {
        Posting { doc_id: self.doc_id.clone(), row_idx: self.row_idx }
    }
}

/// The rows in which a token occurs.
pub struct PostingList {
    pub items: Vec<Posting>,
}

impl View for PostingList {
    type V = Seq<(Seq<char>, usize)>;

    open spec fn view(&self) -> Seq<(Seq<char>, usize)> {
        views(self.items@)
    }
}

impl Dup for PostingList {
    open spec fn wf(&self) -> bool {
        true
    }

    fn dup(&self) -> (r: Self) {
        PostingList { items: dup_vec(&self.items) }
    }
}

/// For each token the rows in which it occurs.
pub struct InvertedIndex {
    pub postings: NameMap<PostingList>,
}

/// The rows of a token.
pub open spec fn rows_of(
    m: Map<Seq<char>, Seq<(Seq<char>, usize)>>,
    t: Seq<char>,
) -> Seq<(Seq<char>, usize)> {
    if m.dom().contains(t) {
        m[t]
    } else {
        Seq::empty()
    }
}

/// The postings after a row was noted for the first `n` tokens, once for each time that a token
/// occurs.
pub open spec fn posted(
    m: Map<Seq<char>, Seq<(Seq<char>, usize)>>,
    ts: Seq<Seq<char>>,
    row: (Seq<char>, usize),
    n: nat,
) -> Map<Seq<char>, Seq<(Seq<char>, usize)>>
    decreases n,
{
    if n == 0 {
        m
    } else {
        let before = posted(m, ts, row, (n - 1) as nat);
        before.insert(ts[n - 1], rows_of(before, ts[n - 1]).push(row))
    }
}

/// Whether a row holds each of the first `n` tokens.
pub open spec fn holds_all(
    m: Map<Seq<char>, Seq<(Seq<char>, usize)>>,
    ts: Seq<Seq<char>>,
    row: (Seq<char>, usize),
) -> bool {
    forall|i: int| 0 <= i < ts.len() ==> rows_of(m, #[trigger] ts[i]).contains(row)
}

impl View for InvertedIndex {
    type V = Map<Seq<char>, Seq<(Seq<char>, usize)>>;

    open spec fn view(&self) -> Map<Seq<char>, Seq<(Seq<char>, usize)>> {
        self.postings.deep()
    }
}

fn list_contains(list: &Vec<Posting>, p: &Posting) -> (r: bool)
    ensures
        r == views(list@).contains(p@),
{
    let mut i: usize = 0;
    while i < list.len()
        invariant
            i <= list@.len(),
            forall|j: int| 0 <= j < i ==> #[trigger] views(list@)[j] != p@,
        decreases list@.len() - i,
    {
        if list[i].row_idx == p.row_idx && same(&list[i].doc_id, &p.doc_id) {
            assert(views(list@)[i as int] == p@);
            return true;
        }
        i += 1;
    }
    false
}

impl Dup for InvertedIndex {
    open spec fn wf(&self) -> bool {
        self.postings.deep_wf()
    }

    fn dup(&self) -> (r: Self) {
        InvertedIndex { postings: self.postings.dup_map() }
    }
}

impl InvertedIndex {
    /// The index of no documents.
    pub fn new() -> (r: InvertedIndex)
        ensures
            r.wf(),
            r@ == Map::<Seq<char>, Seq<(Seq<char>, usize)>>::empty(),
    {
        let postings: NameMap<PostingList> = NameMap::new();
        proof {
            postings.lemma_empty();
        }
        InvertedIndex { postings }
    }

    /// Notes a row of a document for each token of its text.
    pub fn add_document(&mut self, doc_id: &str, row_idx: usize, text: &str)
        requires
            old(self).wf(),
        ensures
            final(self).wf(),
            final(self)@ == posted(
                old(self)@,
                tokens(text@),
                (doc_id@, row_idx),
                tokens(text@).len(),
            ),
    {
        let list = tokenize(text);
        let ghost ts = texts(list@);
        let ghost row = (doc_id@, row_idx);
        let mut i: usize = 0;
        while i < list.len()
            invariant
                i <= list@.len(),
                ts == texts(list@),
                row == (doc_id@, row_idx),
                self.wf(),
                self@ == posted(old(self)@, ts, row, i as nat),
            decreases list@.len() - i,
        {
            assert(ts[i as int] == list@[i as int]@);
            let mut items: Vec<Posting> = Vec::new();
            if let Some(p) = self.postings.lookup(&list[i]) {
                items = dup_vec(&p.items);
            } else {
                assert(views(items@) == Seq::<(Seq<char>, usize)>::empty());
            }
            let ghost had = views(items@);
            items.push(Posting { doc_id: doc_id.to_owned(), row_idx });
            assert(views(items@) == had.push(row));
            self.postings.put(list[i].clone(), PostingList { items });
            i += 1;
        }
        assert(texts(list@).len() == list@.len());
    }

    /// The rows that hold every token of the query, each of them once. A query without tokens finds
    /// nothing.
    pub fn search(&self, query: &str) -> (r: Vec<Posting>)
        requires
            self.wf(),
        ensures
            views(r@).no_duplicates(),
            forall|row: (Seq<char>, usize)| #[trigger]
                views(r@).contains(row) <==> tokens(query@).len() > 0 && holds_all(
                    self@,
                    tokens(query@),
                    row,
                ),
    {
        let list = tokenize(query);
        let ghost ts = texts(list@);
        assert(ts.len() == list@.len());
        let mut out: Vec<Posting> = Vec::new();
        assert(views(out@) == Seq::<(Seq<char>, usize)>::empty());
        if list.len() == 0 {
            return out;
        }
        assert(ts[0] == list@[0]@);
        match self.postings.lookup(&list[0]) {
            None => {
                assert forall|row: (Seq<char>, usize)| !holds_all(self@, ts, row) by {
                    assert(!rows_of(self@, ts[0]).contains(row));
                }
                out
            },
            Some(first) => {
                let mut i: usize = 0;
                while i < first.items.len()
                    invariant
                        i <= first.items@.len(),
                        self.wf(),
                        ts == texts(list@),
                        ts.len() == list@.len(),
                        list@.len() > 0,
                        rows_of(self@, ts[0]) == views(first.items@),
                        views(out@).no_duplicates(),
                        forall|row: (Seq<char>, usize)| #[trigger]
                            views(out@).contains(row) <==> views(
                                first.items@,
                            ).subrange(0, i as int).contains(row) && holds_all(self@, ts, row),
                    decreases first.items@.len() - i,
                {
                    let p = &first.items[i];
                    let ghost row = p@;
                    let ghost part = views(first.items@).subrange(0, i as int);
                    let ghost next = views(first.items@).subrange(0, i + 1);
                    assert(next == part.push(row));
                    let mut all = true;
                    let mut k: usize = 0;
                    while k < list.len()
                        invariant
                            k <= list@.len(),
                            self.wf(),
                            ts == texts(list@),
                            row == p@,
                            all <==> forall|j: int|
                                0 <= j < k ==> rows_of(self@, #[trigger] ts[j]).contains(row),
                        decreases list@.len() - k,
                    {
                        assert(ts[k as int] == list@[k as int]@);
                        let here = match self.postings.lookup(&list[k]) {
                            None => false,
                            Some(q) => list_contains(&q.items, p),
                        };
                        assert(here == rows_of(self@, ts[k as int]).contains(row));
                        all = all && here;
                        k += 1;
                    }
                    assert(all == holds_all(self@, ts, row));
                    let ghost done = views(out@);
                    if all && !list_contains(&out, p) {
                        let copy = p.dup();
                        out.push(copy);
                        assert(views(out@) == done.push(row));
                    }
                    proof {
                        assert forall|q: (Seq<char>, usize)| #[trigger]
                            views(out@).contains(q) <==> next.contains(q) && holds_all(
                            self@,
                            ts,
                            q,
                        ) by {
                            assert(done.contains(q) <==> part.contains(q) && holds_all(
                                self@,
                                ts,
                                q,
                            ));
                            if views(out@).contains(q) {
                                let j = choose|j: int|
                                    0 <= j < views(out@).len() && views(out@)[j] == q;
                                if j < done.len() {
                                    assert(done[j] == q);
                                    let m = choose|m: int| 0 <= m < part.len() && part[m] == q;
                                    assert(next[m] == q);
                                } else {
                                    assert(next[i as int] == q);
                                }
                            }
                            if next.contains(q) {
                                let m = choose|m: int| 0 <= m < next.len() && next[m] == q;
                                if m < part.len() {
                                    assert(part[m] == q);
                                }
                            }
                            if done.contains(q) {
                                let j = choose|j: int| 0 <= j < done.len() && done[j] == q;
                                assert(views(out@)[j] == q);
                            }
                            if q == row && all {
                                if !done.contains(row) {
                                    assert(views(out@)[done.len() as int] == row);
                                }
                            }
                        }
                    }
                    i += 1;
                }
                proof {
                    let whole = views(first.items@);
                    assert(whole.subrange(0, i as int) == whole);
                    assert forall|row: (Seq<char>, usize)| #[trigger]
                        views(out@).contains(row) <==> ts.len() > 0 && holds_all(
                        self@,
                        ts,
                        row,
                    ) by {
                        if holds_all(self@, ts, row) {
                            assert(rows_of(self@, ts[0]).contains(row));
                        }
                    }
                }
                out
            },
        }
    }
}

// ---------------------------------------------------------------------------
// CREATE FULLTEXT INDEX
// ---------------------------------------------------------------------------

/// The table and the columns of a full-text index.
pub struct FulltextIndexDef {
    pub table_name: String,
    pub columns: Vec<String>,
}

/// What a [`FulltextIndexDef`] says.
pub struct FulltextView {
    pub table_name: Seq<char>,
    pub columns: Seq<Seq<char>>,
}

impl View for FulltextIndexDef {
    type V = FulltextView;

    open spec fn view(&self) -> FulltextView {
        FulltextView { table_name: self.table_name@, columns: texts(self.columns@) }
    }
}

impl Dup for FulltextIndexDef {
    open spec fn wf(&self) -> bool {
        true
    }

    fn dup(&self) -> (r: Self) {
        FulltextIndexDef {
            table_name: self.table_name.clone(),
            columns: clone_strings(&self.columns),
        }
    }
}

/// The names in the first `n` items of a column list, without double quotes; blank ones do not
/// count.
pub open spec fn column_names(items: Seq<Seq<char>>, n: nat) -> Seq<Seq<char>>
    decreases n,
{
    if n == 0 {
        Seq::empty()
    } else {
        let c = trim_matches_text(trim_text(items[n - 1]), '"');
        let before = column_names(items, (n - 1) as nat);
        if c.len() == 0 {
            before
        } else {
            before.push(c)
        }
    }
}

fn read_column_names(list: &str) -> (r: Vec<String>)
    ensures
        texts(r@) == column_names(list_items(list@), list_items(list@).len()),
{
    let items = split_top_level_csv(list);
    let ghost all = texts(items@);
    let mut out: Vec<String> = Vec::new();
    let mut i: usize = 0;
    assert(texts(out@) == Seq::<Seq<char>>::empty());
    while i < items.len()
        invariant
            i <= items@.len(),
            all == texts(items@),
            texts(out@) == column_names(all, i as nat),
        decreases items@.len() - i,
    {
        assert(all[i as int] == items@[i as int]@);
        let ghost done = out@;
        let c = trim_matches(&trim(&items[i]), '"');
        let ghost cv = c@;
        if !c.as_str().is_empty() {
            out.push(c);
            assert(texts(out@) == texts(done).push(cv));
        }
        i += 1;
    }
    assert(texts(items@).len() == items@.len());
    out
}

/// The name, the table and the columns of the full-text index that a bare statement defines, given
/// its upper-case form. `None` where the statement cannot be cut at a place that was found.
pub open spec fn fulltext_parts(t: Seq<char>, upper: Seq<char>) -> Option<
    Result<(Seq<char>, FulltextView), Seq<char>>,
> {
    let n = utf8("CREATE FULLTEXT INDEX "@).len() as int;
    if !has_prefix(upper, "CREATE FULLTEXT INDEX "@) {
        Some(Err("Expected CREATE FULLTEXT INDEX"@))
    } else if !cuttable(t, n) {
        None
    } else {
        let after = trim_text(tail_at(t, n));
        match find_ci_offset(after, " ON "@) {
            None => Some(Err("CREATE FULLTEXT INDEX requires ON"@)),
            Some(on) => {
                let from = on + utf8(" ON "@).len();
                if !sliceable(after, 0, on) || !cuttable(after, from) {
                    None
                } else {
                    let name = trim_matches_text(trim_text(byte_slice(after, 0, on)), '"');
                    let rest = trim_text(tail_at(after, from));
                    match (
                        index_of(utf8(rest), utf8("("@)),
                        last_index_of(utf8(rest), utf8(")"@)),
                    ) {
                        (Some(open), Some(close)) => if !sliceable(rest, 0, open) || !sliceable(
                            rest,
                            open + 1,
                            close,
                        ) {
                            None
                        } else {
                            let items = list_items(byte_slice(rest, open + 1, close));
                            let columns = column_names(items, items.len());
                            if columns.len() == 0 {
                                Some(Err("FULLTEXT INDEX requires at least one column"@))
                            } else {
                                Some(
                                    Ok(
                                        (
                                            name,
                                            FulltextView {
                                                table_name: trim_matches_text(
                                                    trim_text(byte_slice(rest, 0, open)),
                                                    '"',
                                                ),
                                                columns,
                                            },
                                        ),
                                    ),
                                )
                            }
                        },
                        _ => Some(Err("FULLTEXT INDEX requires column list"@)),
                    }
                }
            },
        }
    }
}

/// Whether the outcome of a reading is the one that the specification names.
pub open spec fn fulltext_outcome(
    r: Option<Result<(String, FulltextIndexDef), String>>,
    spec: Option<Result<(Seq<char>, FulltextView), Seq<char>>>,
) -> bool {
    match r {
        None => spec is None,
        Some(Err(e)) => spec == Some(Err::<(Seq<char>, FulltextView), Seq<char>>(e@)),
        Some(Ok(p)) => spec == Some(
            Ok::<(Seq<char>, FulltextView), Seq<char>>((p.0@, p.1@)),
        ),
    }
}

/// The name, the table and the columns of the full-text index that a bare statement defines, given
/// its upper-case form.
pub fn create_fulltext_with(t: &str, upper: &str) -> (r: Option<
    Result<(String, FulltextIndexDef), String>,
>)
    ensures
        fulltext_outcome(r, fulltext_parts(t@, upper@)),
{
    if !starts_with(upper, "CREATE FULLTEXT INDEX ") {
        return Some(Err("Expected CREATE FULLTEXT INDEX".to_owned()));
    }
    let after = match after_word(t, "CREATE FULLTEXT INDEX ") {
        None => {
            return None;
        },
        Some(s) => trim(&s),
    };
    let on: usize = match find_ci(&after, " ON ") {
        None => {
            return Some(Err("CREATE FULLTEXT INDEX requires ON".to_owned()));
        },
        Some(k) => k,
    };
    let n: usize = " ON ".as_bytes().len();
    let (name, rest) = match (slice_bytes(&after, 0, on), slice_from(&after, on, n)) {
        (Some(a), Some(b)) => (trim_matches(&trim(&a), '"'), trim(&b)),
        _ => {
            return None;
        },
    };
    match (find_byte_offset(&rest, "("), rfind_byte_offset(&rest, ")")) {
        (Some(open), Some(close)) => {
            proof {
                reveal_strlit("(");
                vstd::utf8::is_ascii_chars_encode_utf8("("@);
            }
            match (slice_bytes(&rest, 0, open), slice_bytes(&rest, open + 1, close)) {
                (Some(head), Some(list)) => {
                    let columns = read_column_names(&list);
                    assert(texts(columns@).len() == columns@.len());
                    if columns.len() == 0 {
                        return Some(
                            Err("FULLTEXT INDEX requires at least one column".to_owned()),
                        );
                    }
                    let table_name = trim_matches(&trim(&head), '"');
                    Some(Ok((name, FulltextIndexDef { table_name, columns })))
                },
                _ => None,
            }
        },
        _ => Some(Err("FULLTEXT INDEX requires column list".to_owned())),
    }
}

/// The name, the table and the columns of the full-text index that a `CREATE FULLTEXT INDEX`
/// statement defines.
pub fn parse_create_fulltext_index(sql: &str) -> (r: Option<
    Result<(String, FulltextIndexDef), String>,
>)
    ensures
        fulltext_outcome(r, fulltext_parts(bare(sql@), upper_text(bare(sql@)))),
{
    let t = bare_statement(sql);
    let upper = t.to_uppercase();
    create_fulltext_with(&t, &upper)
}

/// The columns, each between double quotes.
pub open spec fn quoted_columns(columns: Seq<Seq<char>>) -> Seq<Seq<char>> {
    Seq::new(columns.len(), |i: int| "\""@ + columns[i] + "\""@)
}

/// The columns, each between double quotes.
pub fn quote_columns(columns: &Vec<String>) -> (r: Vec<String>)
    ensures
        texts(r@) == quoted_columns(texts(columns@)),
{
    let mut out: Vec<String> = Vec::new();
    let mut i: usize = 0;
    while i < columns.len()
        invariant
            i <= columns@.len(),
            out@.len() == i,
            forall|j: int|
                0 <= j < i ==> (#[trigger] out@[j])@ == quoted_columns(texts(columns@))[j],
        decreases columns@.len() - i,
    {
        out.push(concat3("\"", &columns[i], "\""));
        i += 1;
    }
    assert(texts(out@) == quoted_columns(texts(columns@)));
    out
}

/// The query that reads the columns of a full-text index.
pub fn fulltext_select(def: &FulltextIndexDef) -> (r: String)
    ensures
        r@ == "SELECT "@ + joined(quoted_columns(def@.columns), ", "@) + " FROM \""@
            + def@.table_name + "\""@,
        r@ == meaning::select(
            meaning::list_of(
                Seq::new(def@.columns.len(), |i: int| meaning::column(def@.columns[i])),
            ),
            meaning::table(meaning::quoted_name(def@.table_name)),
        ).text,
{
    proof {
        let ps = Seq::new(def@.columns.len(), |i: int| meaning::column(def@.columns[i]));
        assert(meaning::phrase_texts(ps) =~= quoted_columns(def@.columns));
        let list = joined(quoted_columns(def@.columns), ", "@);
        reveal_strlit(" FROM \"");
        reveal_strlit(" FROM ");
        reveal_strlit("\"");
        assert("SELECT "@ + list + " FROM \""@ + def@.table_name + "\""@ =~= "SELECT "@ + list
            + " FROM "@ + meaning::quoted_name(def@.table_name));
    }
    let cols = join(&quote_columns(&def.columns), ", ");
    concat3(&concat3("SELECT ", &cols, " FROM \""), &def.table_name, "\"")
}

/// The message after a full-text index was made.
pub fn fulltext_message(name: &str, table: &str) -> (r: String)
    ensures
        r@ == "Fulltext index '"@ + name@ + "' created on '"@ + table@ + "'."@,
{
    concat3(&concat3("Fulltext index '", name, "' created on '"), table, "'.")
}

// ---------------------------------------------------------------------------
// fts_match
// ---------------------------------------------------------------------------

/// The condition that a column holds the term, where `escaped` is the term with its quotes doubled.
pub open spec fn column_match(column: Seq<char>, escaped: Seq<char>) -> Seq<char> {
    "CAST(\""@ + column + "\" AS VARCHAR) ILIKE '%"@ + escaped + "%'"@
}

/// The condition that one of the columns holds the term.
pub open spec fn match_predicate(columns: Seq<Seq<char>>, term: Seq<char>) -> Seq<char> {
    let escaped = replaced(term, "'"@, "''"@);
    "("@ + joined(Seq::new(columns.len(), |i: int| column_match(columns[i], escaped)), " OR "@)
        + ")"@
}

fn build_predicate(columns: &Vec<String>, term: &str) -> (r: String)
    ensures
        r@ == match_predicate(texts(columns@), term@),
{
    let escaped = replace(term, "'", "''");
    let mut parts: Vec<String> = Vec::new();
    let mut i: usize = 0;
    while i < columns.len()
        invariant
            i <= columns@.len(),
            parts@.len() == i,
            forall|j: int|
                0 <= j < i ==> (#[trigger] parts@[j])@ == column_match(columns@[j]@, escaped@),
        decreases columns@.len() - i,
    {
        parts.push(
            concat3(
                &concat3("CAST(\"", &columns[i], "\" AS VARCHAR) ILIKE '%"),
                &escaped,
                "%'",
            ),
        );
        i += 1;
    }
    proof {
        let c = texts(columns@);
        assert(texts(parts@) == Seq::new(c.len(), |i: int| column_match(c[i], escaped@)));
    }
    concat3("(", &join(&parts, " OR "), ")")
}

/// Whether a query in upper case reads the table.
pub open spec fn reads_table(upper: Seq<char>, table: Seq<char>) -> bool {
    ||| contains_seq(upper, upper_text("FROM \""@ + table + "\""@))
    ||| contains_seq(upper, upper_text("FROM "@ + table))
}

/// The first index at or after position `i` whose table the query in upper case reads.
pub open spec fn matching_index(
    upper: Seq<char>,
    defs: Seq<FulltextView>,
    i: int,
) -> Option<FulltextView>
    decreases defs.len() - i,
{
    if i < 0 || i >= defs.len() {
        None
    } else if reads_table(upper, defs[i].table_name) {
        Some(defs[i])
    } else {
        matching_index(upper, defs, i + 1)
    }
}

fn find_index<'a>(upper: &str, defs: &'a Vec<FulltextIndexDef>) -> (r: Option<&'a FulltextIndexDef>)
    ensures
        match r {
            Some(d) => matching_index(upper@, views(defs@), 0) == Some(d@),
            None => matching_index(upper@, views(defs@), 0) is None,
        },
{
    let mut i: usize = 0;
    while i < defs.len()
        invariant
            i <= defs@.len(),
            matching_index(upper@, views(defs@), 0) == matching_index(
                upper@,
                views(defs@),
                i as int,
            ),
        decreases defs@.len() - i,
    {
        assert(views(defs@)[i as int] == defs@[i as int]@);
        let from_a = concat3("FROM \"", &defs[i].table_name, "\"").to_uppercase();
        let from_b = concat2("FROM ", &defs[i].table_name).to_uppercase();
        if contains(upper, &from_a) || contains(upper, &from_b) {
            return Some(&defs[i]);
        }
        i += 1;
    }
    None
}

/// `s` with the first `pat` in it replaced.
pub open spec fn replaced_first(s: Seq<char>, pat: Seq<char>, rep: Seq<char>) -> Seq<char> {
    match index_of(s, pat) {
        Some(k) => s.subrange(0, k) + rep + s.subrange(k + pat.len(), s.len() as int),
        None => s,
    }
}

fn replace_first(s: &str, pat: &str, rep: &str) -> (r: String)
    ensures
        r@ == replaced_first(s@, pat@, rep@),
{
    let v = to_chars(s);
    let p = to_chars(pat);
    match find_chars_from(&v, &p, 0) {
        Some(k) => concat3(&from_chars(&v, 0, k), rep, &from_chars(&v, k + p.len(), v.len())),
        None => s.to_owned(),
    }
}

/// The query with the call of `fts_match` replaced by conditions on the columns of an index on a
/// table that it reads, given the query's upper-case form. A query without such a call, with an
/// unclosed or a blank one, or without such an index stays as it is. `None` where the query cannot
/// be cut at the call.
pub open spec fn matched_query(
    sql: Seq<char>,
    upper: Seq<char>,
    defs: Seq<FulltextView>,
) -> Option<Seq<char>> {
    match index_of(utf8(upper), utf8("FTS_MATCH("@)) {
        None => Some(sql),
        Some(open) => {
            let arg = open + utf8("FTS_MATCH("@).len();
            if !cuttable(sql, arg) {
                None
            } else {
                let rem = tail_at(sql, arg);
                match index_of(utf8(rem), utf8(")"@)) {
                    None => Some(sql),
                    Some(end) => if !sliceable(rem, 0, end) {
                        None
                    } else {
                        let term = trim_matches_text(
                            trim_matches_text(trim_text(byte_slice(rem, 0, end)), '\''),
                            '"',
                        );
                        if term.len() == 0 {
                            Some(sql)
                        } else {
                            match matching_index(upper, defs, 0) {
                                None => Some(sql),
                                Some(def) => if !sliceable(sql, open, arg + end + 1) {
                                    None
                                } else {
                                    Some(
                                        replaced_first(
                                            sql,
                                            byte_slice(sql, open, arg + end + 1),
                                            match_predicate(def.columns, term),
                                        ),
                                    )
                                },
                            }
                        }
                    },
                }
            }
        },
    }
}

/// The query with the call of `fts_match` replaced, given its upper-case form.
pub fn rewrite_match_with(sql: &str, upper: &str, defs: &Vec<FulltextIndexDef>) -> (r: Option<
    String,
>)
    ensures
        opt_text(r) == matched_query(sql@, upper@, views(defs@)),
{
    let open: usize = match find_byte_offset(upper, "FTS_MATCH(") {
        None => {
            return Some(sql.to_owned());
        },
        Some(k) => k,
    };
    let n: usize = "FTS_MATCH(".as_bytes().len();
    let rem = match slice_from(sql, open, n) {
        None => {
            return None;
        },
        Some(s) => s,
    };
    let end: usize = match find_byte_offset(&rem, ")") {
        None => {
            return Some(sql.to_owned());
        },
        Some(k) => k,
    };
    let term = match slice_bytes(&rem, 0, end) {
        None => {
            return None;
        },
        Some(s) => trim_matches(&trim_matches(&trim(&s), '\''), '"'),
    };
    if term.as_str().is_empty() {
        return Some(sql.to_owned());
    }
    match find_index(upper, defs) {
        None => Some(sql.to_owned()),
        Some(def) => {
            let total: usize = sql.as_bytes().len();
            let wide: u128 = open as u128 + n as u128 + end as u128 + 1;
            if wide > total as u128 {
                return None;
            }
            match slice_bytes(sql, open, wide as usize) {
                None => None,
                Some(call) => {
                    let predicate = build_predicate(&def.columns, &term);
                    Some(replace_first(sql, &call, &predicate))
                },
            }
        },
    }
}

/// Replaces the call of `fts_match` in a query by conditions on the columns of a full-text index;
/// `None` where the query cannot be cut at the call.
pub fn rewrite_fulltext_match_sql(sql: &str, fulltext: &Vec<FulltextIndexDef>) -> (r: Option<
    String,
>)
    ensures
        opt_text(r) == matched_query(sql@, upper_text(sql@), views(fulltext@)),
{
    let upper = sql.to_uppercase();
    rewrite_match_with(sql, &upper, fulltext)
}

// ---------------------------------------------------------------------------
// Filling an index
// ---------------------------------------------------------------------------

/// The texts by which the cells of a row are searched.
pub open spec fn searched_cells(row: Seq<CellView>) -> Seq<Seq<char>> {
    Seq::new(row.len(), |i: int| search_text(row[i]))
}

/// The index of the first `n` rows of a table.
pub open spec fn indexed_rows(table: Seq<char>, rows: Seq<Seq<CellView>>, n: nat) -> Map<
    Seq<char>,
    Seq<(Seq<char>, usize)>,
>
    decreases n,
{
    if n == 0 || n > rows.len() {
        Map::empty()
    } else {
        let ts = tokens(joined(searched_cells(rows[n - 1]), " "@));
        posted(
            indexed_rows(table, rows, (n - 1) as nat),
            ts,
            (table, (n - 1) as usize),
            ts.len(),
        )
    }
}

fn search_row(row: &Row) -> (r: String)
    ensures
        r@ == joined(searched_cells(row@), " "@),
{
    let mut parts: Vec<String> = Vec::new();
    let mut i: usize = 0;
    while i < row.cells.len()
        invariant
            i <= row.cells@.len(),
            parts@.len() == i,
            forall|j: int| 0 <= j < i ==> (#[trigger] parts@[j])@ == search_text(row.cells@[j]@),
        decreases row.cells@.len() - i,
    {
        parts.push(searched_text(&row.cells[i]));
        i += 1;
    }
    assert(texts(parts@) =~= searched_cells(row@));
    join(&parts, " ")
}

/// The index of the rows of a table, each given by the cells of the indexed columns.
pub fn build_index(table: &str, rows: &Vec<Row>) -> (r: InvertedIndex)
    ensures
        r.wf(),
        r@ == indexed_rows(table@, views(rows@), views(rows@).len()),
{
    let ghost all = views(rows@);
    let mut index = InvertedIndex::new();
    let mut i: usize = 0;
    while i < rows.len()
        invariant
            i <= rows@.len(),
            all == views(rows@),
            all.len() == rows@.len(),
            index.wf(),
            index@ == indexed_rows(table@, all, i as nat),
        decreases rows@.len() - i,
    {
        assert(all[i as int] == rows@[i as int]@);
        let text = search_row(&rows[i]);
        index.add_document(table, i, &text);
        i += 1;
    }
    index
}

// ---------------------------------------------------------------------------
// Laws
// ---------------------------------------------------------------------------

/// A row that was added is found by every token of its text, and rows that were noted before still
/// are.
pub proof fn law_added_row_is_found(
    m: Map<Seq<char>, Seq<(Seq<char>, usize)>>,
    ts: Seq<Seq<char>>,
    row: (Seq<char>, usize),
    n: nat,
)
    requires
        n <= ts.len(),
    ensures
        forall|i: int|
            0 <= i < n ==> rows_of(posted(m, ts, row, n), #[trigger] ts[i]).contains(row),
        forall|t: Seq<char>, q: (Seq<char>, usize)|
            rows_of(m, t).contains(q) ==> #[trigger] rows_of(posted(m, ts, row, n), t).contains(q),
        forall|t: Seq<char>, q: (Seq<char>, usize)| #[trigger]
            rows_of(posted(m, ts, row, n), t).contains(q) ==> rows_of(m, t).contains(q) || q == row,
    decreases n,
{
    if n > 0 {
        law_added_row_is_found(m, ts, row, (n - 1) as nat);
        let before = posted(m, ts, row, (n - 1) as nat);
        let after = posted(m, ts, row, n);
        let t0 = ts[n - 1];
        let rows = rows_of(before, t0);
        assert(after[t0] == rows.push(row));
        assert(rows.push(row)[rows.len() as int] == row);
        assert forall|t: Seq<char>, q: (Seq<char>, usize)| rows_of(before, t).contains(
            q,
        ) implies #[trigger] rows_of(after, t).contains(q) by {
            if t == t0 {
                let j = choose|j: int| 0 <= j < rows.len() && rows[j] == q;
                assert(rows.push(row)[j] == q);
            }
        }
        assert forall|i: int| 0 <= i < n implies rows_of(after, #[trigger] ts[i]).contains(row) by {
            if i < n - 1 {
                assert(rows_of(before, ts[i]).contains(row));
            }
        }
        assert forall|t: Seq<char>, q: (Seq<char>, usize)| #[trigger]
            rows_of(after, t).contains(q) implies rows_of(m, t).contains(q) || q == row by {
            if t == t0 {
                let j = choose|j: int| 0 <= j < rows.push(row).len() && rows.push(row)[j] == q;
                if j < rows.len() {
                    assert(rows[j] == q);
                    assert(rows_of(before, t).contains(q));
                }
            } else {
                assert(rows_of(before, t).contains(q));
            }
        }
    }
}

/// A row meets the condition that is written for a search exactly where one of the columns, as text,
/// holds the term. What it is to hold a term is left to the query engine.
pub proof fn law_search_looks_into_every_column(
    columns: Seq<Seq<char>>,
    term: Seq<char>,
    found: spec_fn(Value, Seq<char>) -> bool,
    w: World,
    name: Seq<char>,
    row: Map<Seq<char>, Value>,
)
    ensures
        ({
            let escaped = replaced(term, "'"@, "''"@);
            let p = match_phrase(columns, escaped, found);
            &&& match_predicate(columns, term) == p.text
            &&& meaning::holds((p.value)(w, seq![Frame { name, row }])) <==> exists|i: int|
                0 <= i < columns.len() && found(
                    (w.cast)(meaning::cell_of(row, #[trigger] columns[i]), "VARCHAR"@),
                    escaped,
                )
        }),
{
    let escaped = replaced(term, "'"@, "''"@);
    let s = seq![Frame { name, row }];
    let ps = match_phrases(columns, escaped, found);
    let vs = meaning::phrase_values(ps, w, s);
    meaning::lemma_disjunction(vs);
    assert forall|i: int| 0 <= i < columns.len() implies #[trigger] vs[i] == Value::Bool(
        found((w.cast)(meaning::cell_of(row, columns[i]), "VARCHAR"@), escaped),
    ) by {
        meaning::lemma_single_column(name, row, columns[i]);
    }
    if meaning::holds(meaning::disjunction(vs)) {
        let i = choose|i: int| 0 <= i < vs.len() && meaning::holds(#[trigger] vs[i]);
        assert(found((w.cast)(meaning::cell_of(row, columns[i]), "VARCHAR"@), escaped));
    } else {
        assert forall|i: int| 0 <= i < columns.len() implies !found(
            (w.cast)(meaning::cell_of(row, #[trigger] columns[i]), "VARCHAR"@),
            escaped,
        ) by {
            assert(!meaning::holds(vs[i]));
        }
    }
    let written = Seq::new(columns.len(), |i: int| column_match(columns[i], escaped));
    assert forall|i: int| 0 <= i < columns.len() implies #[trigger] written[i]
        == meaning::phrase_texts(ps)[i] by {
        reveal_strlit("CAST(\"");
        reveal_strlit("CAST(");
        reveal_strlit("\"");
        reveal_strlit("\" AS VARCHAR) ILIKE '%");
        reveal_strlit(" AS ");
        reveal_strlit("VARCHAR");
        reveal_strlit(")");
        reveal_strlit(" ILIKE '%");
        assert(column_match(columns[i], escaped) =~= ps[i].text);
    }
    assert(written =~= meaning::phrase_texts(ps));
}

/// `CAST("col" AS VARCHAR) ILIKE '%part%'`, for each column.
pub open spec fn match_phrases(
    columns: Seq<Seq<char>>,
    escaped: Seq<char>,
    found: spec_fn(Value, Seq<char>) -> bool,
) -> Seq<Phrase> {
    Seq::new(
        columns.len(),
        |i: int|
            meaning::contains_part(
                meaning::cast(meaning::column(columns[i]), "VARCHAR"@),
                escaped,
                found,
            ),
    )
}

/// The condition that one of the columns holds a part.
pub open spec fn match_phrase(
    columns: Seq<Seq<char>>,
    escaped: Seq<char>,
    found: spec_fn(Value, Seq<char>) -> bool,
) -> Phrase {
    meaning::paren(meaning::any(match_phrases(columns, escaped, found)))
}

/// A query that does not search stays as it is. So does one that reads no table with an index.
pub proof fn law_other_queries_are_left(
    sql: Seq<char>,
    upper: Seq<char>,
    defs: Seq<FulltextView>,
)
    ensures
        index_of(utf8(upper), utf8("FTS_MATCH("@)) is None ==> matched_query(sql, upper, defs)
            == Some(sql),
        (forall|i: int| 0 <= i < defs.len() ==> !reads_table(upper, (#[trigger] defs[i]).table_name))
            ==> (matched_query(sql, upper, defs) matches Some(q) ==> q == sql),
{
    if forall|i: int| 0 <= i < defs.len() ==> !reads_table(upper, (#[trigger] defs[i]).table_name) {
        lemma_no_index(upper, defs, 0);
    }
}

proof fn lemma_no_index(upper: Seq<char>, defs: Seq<FulltextView>, i: int)
    requires
        0 <= i <= defs.len(),
        forall|k: int|
            0 <= k < defs.len() ==> !reads_table(upper, (#[trigger] defs[k]).table_name),
    ensures
        matching_index(upper, defs, i) is None,
    decreases defs.len() - i,
{
    if i < defs.len() {
        assert(!reads_table(upper, defs[i].table_name));
        lemma_no_index(upper, defs, i + 1);
    }
}

/// Every row of a table is found by every word of it.
pub proof fn law_indexed_rows_are_found(
    table: Seq<char>,
    rows: Seq<Seq<CellView>>,
    n: nat,
    i: int,
)
    requires
        0 <= i < n <= rows.len(),
        rows.len() <= usize::MAX,
    ensures
        holds_all(
            indexed_rows(table, rows, n),
            tokens(joined(searched_cells(rows[i]), " "@)),
            (table, i as usize),
        ),
    decreases n,
{
    let before = indexed_rows(table, rows, (n - 1) as nat);
    let after = indexed_rows(table, rows, n);
    let ts = tokens(joined(searched_cells(rows[n - 1]), " "@));
    let row = (table, (n - 1) as usize);
    law_added_row_is_found(before, ts, row, ts.len());
    if i < n - 1 {
        law_indexed_rows_are_found(table, rows, (n - 1) as nat, i);
        let own = tokens(joined(searched_cells(rows[i]), " "@));
        assert forall|k: int| 0 <= k < own.len() implies rows_of(after, #[trigger] own[k]).contains(
            (table, i as usize),
        ) by {
            assert(rows_of(before, own[k]).contains((table, i as usize)));
        }
    }
}

/// A row is found by a word only where it has it.
pub proof fn law_found_rows_have_the_word(
    table: Seq<char>,
    rows: Seq<Seq<CellView>>,
    n: nat,
    t: Seq<char>,
    q: (Seq<char>, usize),
)
    requires
        n <= rows.len(),
        rows.len() <= usize::MAX,
        rows_of(indexed_rows(table, rows, n), t).contains(q),
    ensures
        q.0 == table,
        q.1 < n,
        tokens(joined(searched_cells(rows[q.1 as int]), " "@)).contains(t),
    decreases n,
{
    if n > 0 {
        let before = indexed_rows(table, rows, (n - 1) as nat);
        let ts = tokens(joined(searched_cells(rows[n - 1]), " "@));
        let row = (table, (n - 1) as usize);
        if rows_of(before, t).contains(q) {
            law_found_rows_have_the_word(table, rows, (n - 1) as nat, t, q);
        } else {
            law_added_row_is_found(before, ts, row, ts.len());
            lemma_posted_word(before, ts, row, ts.len(), t);
        }
    } else {
        assert(rows_of(Map::<Seq<char>, Seq<(Seq<char>, usize)>>::empty(), t).len() == 0);
    }
}

proof fn lemma_posted_word(
    m: Map<Seq<char>, Seq<(Seq<char>, usize)>>,
    ts: Seq<Seq<char>>,
    row: (Seq<char>, usize),
    n: nat,
    t: Seq<char>,
)
    requires
        n <= ts.len(),
    ensures
        rows_of(posted(m, ts, row, n), t) != rows_of(m, t) ==> ts.contains(t),
    decreases n,
{
    if n > 0 {
        lemma_posted_word(m, ts, row, (n - 1) as nat, t);
        if ts[n - 1] == t {
            assert(ts.contains(t));
        }
    }
}

proof fn lemma_token_chars(s: Seq<char>, i: int, k: int)
    requires
        0 <= i <= k < token_end(s, i),
        i <= s.len(),
    ensures
        k < s.len(),
        alphanumeric(s[k]),
    decreases k - i,
{
    lemma_token_end(s, i);
    if i < k {
        lemma_token_chars(s, i + 1, k);
    }
}

/// Whether a text is a word that is searched for: letters and digits alone, and longer than a byte.
pub open spec fn is_word(t: Seq<char>) -> bool {
    utf8(t).len() > 1 && forall|k: int| 0 <= k < t.len() ==> alphanumeric(#[trigger] t[k])
}

proof fn lemma_tokens_are_words(s: Seq<char>, i: int)
    requires
        0 <= i <= s.len(),
    ensures
        forall|j: int|
            0 <= j < tokens_from(s, i).len() ==> is_word(#[trigger] tokens_from(s, i)[j]),
    decreases s.len() - i,
{
    lemma_token_end(s, i);
    let e = token_end(s, i);
    let word = s.subrange(i, e);
    assert forall|k: int| 0 <= k < word.len() implies alphanumeric(#[trigger] word[k]) by {
        lemma_token_chars(s, i, i + k);
    }
    if e < s.len() {
        lemma_tokens_are_words(s, e + 1);
        let rest = tokens_from(s, e + 1);
        let first = token(word);
        let all = tokens_from(s, i);
        assert forall|j: int| 0 <= j < all.len() implies is_word(#[trigger] all[j]) by {
            if j >= first.len() {
                assert(all[j] == rest[j - first.len()]);
            }
        }
    }
}

/// The words of a text are of letters and digits alone, and none is shorter than two bytes.
pub proof fn law_words_are_words(text: Seq<char>, j: int)
    requires
        0 <= j < tokens(text).len(),
    ensures
        is_word(tokens(text)[j]),
{
    lemma_tokens_are_words(lower_text(text), 0);
}

/// A text of letters and digits alone is one word.
pub proof fn law_one_word(text: Seq<char>)
    requires
        is_word(lower_text(text)),
    ensures
        tokens(text) == seq![lower_text(text)],
{
    let s = lower_text(text);
    lemma_whole_token(s, 0);
    assert(s.subrange(0, s.len() as int) =~= s);
}

proof fn lemma_whole_token(s: Seq<char>, i: int)
    requires
        0 <= i <= s.len(),
        forall|k: int| 0 <= k < s.len() ==> alphanumeric(#[trigger] s[k]),
    ensures
        token_end(s, i) == s.len(),
    decreases s.len() - i,
{
    if i < s.len() {
        assert(alphanumeric(s[i]));
        lemma_whole_token(s, i + 1);
    }
}

} // verus!
