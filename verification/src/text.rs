//! Text primitives: the views on strings that the rest of the library is stated over.
//!
//! A text is a sequence of characters. Where an offset found in one text is applied to another,
//! the offset counts bytes of the UTF-8 encoding, as string offsets do in Rust.
use vstd::prelude::*;
use vstd::string::*;
use vstd::utf8::*;

verus! {

/// `String::push` appends one character.
pub assume_specification[ String::push ](s: &mut String, c: char)
    ensures
        final(s)@ == old(s)@.push(c),
;

/// What `str::to_uppercase` makes of a character that is not ASCII.
pub uninterp spec fn other_upper(c: char) -> Seq<char>;

/// The upper-case form of a character: one or more characters.
pub open spec fn upper_char(c: char) -> Seq<char> {
    if c <= '\u{7f}' {
        seq![ascii_upper(c)]
    } else {
        other_upper(c)
    }
}

/// The upper-case form of a text: those of its characters, one after the other.
#[verifier::opaque]
pub open spec fn upper_text(s: Seq<char>) -> Seq<char>
    decreases s.len(),
{
    if s.len() == 0 {
        Seq::empty()
    } else {
        upper_text(s.drop_last()) + upper_char(s.last())
    }
}

/// What `str::to_lowercase` makes of a text.
pub uninterp spec fn lower_text(s: Seq<char>) -> Seq<char>;

/// The upper-case form of an ASCII character; other characters stay as they are.
pub open spec fn ascii_upper(c: char) -> char {
    if 'a' <= c <= 'z' {
        ((c as u32 - 32) as u32) as char
    } else {
        c
    }
}

/// The lower-case form of an ASCII character; other characters stay as they are.
pub open spec fn ascii_lower(c: char) -> char {
    if 'A' <= c <= 'Z' {
        ((c as u32 + 32) as u32) as char
    } else {
        c
    }
}

/// `str::to_uppercase`: each character becomes its upper-case form, whatever stands around it. On an
/// ASCII text the letters `a` to `z` become `A` to `Z` and nothing else changes; what becomes of
/// another character depends on that character alone.
pub assume_specification[ str::to_uppercase ](s: &str) -> (r: String)
    ensures
        r@ == upper_text(s@),
        s@.len() == 1 && s@[0] > '\u{7f}' ==> r@ == other_upper(s@[0]),
        is_ascii_chars(s@) ==> r@ == s@.map_values(|c: char| ascii_upper(c)),
;

/// `str::to_lowercase`: the result depends on the text alone, and on an ASCII text the letters
/// `A` to `Z` become `a` to `z` and nothing else changes.
pub assume_specification[ str::to_lowercase ](s: &str) -> (r: String)
    ensures
        r@ == lower_text(s@),
        is_ascii_chars(s@) ==> r@ == s@.map_values(|c: char| ascii_lower(c)),
;

/// The UTF-8 encoding of a text.
pub open spec fn utf8(s: Seq<char>) -> Seq<u8> {
    encode_utf8(s)
}

/// Whether `s` can be cut at the byte offsets `from` and `to`.
pub open spec fn sliceable(s: Seq<char>, from: int, to: int) -> bool {
    &&& 0 <= from <= to <= utf8(s).len()
    &&& is_char_boundary(utf8(s), from)
    &&& is_char_boundary(utf8(s), to)
}

/// The text between two byte offsets of `s`.
pub open spec fn byte_slice(s: Seq<char>, from: int, to: int) -> Seq<char> {
    decode_utf8(utf8(s).subrange(from, to))
}

/// `str::get` with a byte range: the text between the two offsets, or `None` where an offset lies
/// outside the text or inside a character, or the range runs backwards.
#[verifier::external_body]
fn str_get(s: &str, from: usize, to: usize) -> (r: Option<&str>)
    ensures
        match r {
            Some(t) => sliceable(s@, from as int, to as int) && t@ == byte_slice(
                s@,
                from as int,
                to as int,
            ),
            None => !sliceable(s@, from as int, to as int),
        },
{
    s.get(from..to)
}

/// The text between the byte offsets `from` and `to`, where `s` can be cut there.
pub fn slice_bytes(s: &str, from: usize, to: usize) -> (r: Option<String>)
    ensures
        r is Some <==> sliceable(s@, from as int, to as int),
        r matches Some(t) ==> t@ == byte_slice(s@, from as int, to as int),
{
    match str_get(s, from, to) {
        Some(t) => Some(t.to_owned()),
        None => None,
    }
}

/// The text from `skip` bytes behind the byte offset `at` on, where `s` can be cut there.
pub fn slice_from(s: &str, at: usize, skip: usize) -> (r: Option<String>)
    ensures
        r is Some <==> sliceable(s@, at + skip, utf8(s@).len() as int),
        r matches Some(t) ==> t@ == byte_slice(s@, at + skip, utf8(s@).len() as int),
{
    let end: usize = s.as_bytes().len();
    if at > usize::MAX - skip {
        return None;
    }
    slice_bytes(s, at + skip, end)
}

/// The text from the byte offset `n` on.
pub open spec fn tail_at(s: Seq<char>, n: int) -> Seq<char> {
    byte_slice(s, n, utf8(s).len() as int)
}

/// Whether `s` can be cut at the byte offset `n`.
pub open spec fn cuttable(s: Seq<char>, n: int) -> bool {
    sliceable(s, n, utf8(s).len() as int)
}

/// The text behind the byte length of `word`, where `s` can be cut there.
pub fn after_word(s: &str, word: &str) -> (r: Option<String>)
    ensures
        r is Some <==> cuttable(s@, utf8(word@).len() as int),
        r matches Some(t) ==> t@ == tail_at(s@, utf8(word@).len() as int),
{
    let n: usize = word.as_bytes().len();
    slice_from(s, n, 0)
}

/// The texts of a list of strings.
pub open spec fn texts(v: Seq<String>) -> Seq<Seq<char>> {
    Seq::new(v.len(), |i: int| v[i]@)
}

/// The text of an optional string.
pub open spec fn opt_text(v: Option<String>) -> Option<Seq<char>> {
    match v {
        Some(s) => Some(s@),
        None => None,
    }
}

/// The characters of `s` in order.
pub fn to_chars(s: &str) -> (r: Vec<char>)
    ensures
        r@ == s@,
{
    let mut v: Vec<char> = Vec::new();
    for c in it: s.chars()
        invariant
            v@ == it.seq().take(it.index()),
            it.seq() == s@,
    {
        v.push(c);
    }
    v
}

/// The text made of the characters `v[from..to]`.
pub fn from_chars(v: &Vec<char>, from: usize, to: usize) -> (r: String)
    requires
        from <= to <= v@.len(),
    ensures
        r@ == v@.subrange(from as int, to as int),
{
    let mut s = String::new();
    let mut i: usize = from;
    while i < to
        invariant
            from <= i <= to <= v@.len(),
            s@ == v@.subrange(from as int, i as int),
        decreases to - i,
    {
        s.push(v[i]);
        i += 1;
    }
    s
}

/// Whether two texts are the same.
pub fn same(a: &str, b: &str) -> (r: bool)
    ensures
        r == (a@ == b@),
{
    a.to_owned() == b.to_owned()
}

/// `a` followed by `b`.
pub fn concat2(a: &str, b: &str) -> (r: String)
    ensures
        r@ == a@ + b@,
{
    let mut r = a.to_owned();
    r.append(b);
    r
}

/// `a`, `b` and `c` one after the other.
pub fn concat3(a: &str, b: &str, c: &str) -> (r: String)
    ensures
        r@ == a@ + b@ + c@,
{
    let mut r = a.to_owned();
    r.append(b);
    r.append(c);
    r
}

/// A copy of a list of strings.
pub fn clone_strings(v: &Vec<String>) -> (r: Vec<String>)
    ensures
        r@ == v@,
{
    let mut out: Vec<String> = Vec::new();
    let mut i: usize = 0;
    while i < v.len()
        invariant
            i <= v@.len(),
            out@ == v@.subrange(0, i as int),
        decreases v@.len() - i,
    {
        out.push(v[i].clone());
        i += 1;
    }
    assert(out@ == v@);
    out
}

/// Whether the list holds the given text.
pub fn contains_text(v: &Vec<String>, s: &str) -> (r: bool)
    ensures
        r == texts(v@).contains(s@),
{
    let mut i: usize = 0;
    while i < v.len()
        invariant
            i <= v@.len(),
            forall|j: int| 0 <= j < i ==> texts(v@)[j] != s@,
        decreases v@.len() - i,
    {
        if same(&v[i], s) {
            assert(texts(v@)[i as int] == s@);
            return true;
        }
        i += 1;
    }
    false
}

// ---------------------------------------------------------------------------
// White space and trimming
// ---------------------------------------------------------------------------

/// Whether `c` has the Unicode `White_Space` property.
pub open spec fn is_space(c: char) -> bool {
    let u = c as u32;
    ||| 0x9 <= u <= 0xd
    ||| u == 0x20
    ||| u == 0x85
    ||| u == 0xa0
    ||| u == 0x1680
    ||| 0x2000 <= u <= 0x200a
    ||| u == 0x2028
    ||| u == 0x2029
    ||| u == 0x202f
    ||| u == 0x205f
    ||| u == 0x3000
}

/// Whether `c` is white space.
pub fn is_whitespace(c: char) -> (r: bool)
    ensures
        r == is_space(c),
{
    let u: u32 = c as u32;
    (0x9 <= u && u <= 0xd) || u == 0x20 || u == 0x85 || u == 0xa0 || u == 0x1680 || (0x2000 <= u
        && u <= 0x200a) || u == 0x2028 || u == 0x2029 || u == 0x202f || u == 0x205f || u == 0x3000
}

/// The first position at or after `i` that holds no white space.
pub open spec fn skip_space(s: Seq<char>, i: int) -> int
    decreases s.len() - i,
{
    if 0 <= i < s.len() && is_space(s[i]) {
        skip_space(s, i + 1)
    } else {
        i
    }
}

/// The first position at or after `i` that holds white space, or the end.
pub open spec fn skip_word(s: Seq<char>, i: int) -> int
    decreases s.len() - i,
{
    if 0 <= i < s.len() && !is_space(s[i]) {
        skip_word(s, i + 1)
    } else {
        i
    }
}

/// The first position at or after `i` that does not hold `c`.
pub open spec fn skip_char(s: Seq<char>, c: char, i: int) -> int
    decreases s.len() - i,
{
    if 0 <= i < s.len() && s[i] == c {
        skip_char(s, c, i + 1)
    } else {
        i
    }
}

/// The least end at or before `j` behind which, up to `j`, there is only white space.
pub open spec fn back_space(s: Seq<char>, j: int) -> int
    decreases j,
{
    if 0 < j <= s.len() && is_space(s[j - 1]) {
        back_space(s, j - 1)
    } else {
        j
    }
}

/// The least end at or before `j` behind which, up to `j`, there is only `c`.
pub open spec fn back_char(s: Seq<char>, c: char, j: int) -> int
    decreases j,
{
    if 0 < j <= s.len() && s[j - 1] == c {
        back_char(s, c, j - 1)
    } else {
        j
    }
}

pub proof fn lemma_skip_bounds(s: Seq<char>, c: char, i: int)
    requires
        0 <= i <= s.len(),
    ensures
        i <= skip_space(s, i) <= s.len(),
        i <= skip_word(s, i) <= s.len(),
        i <= skip_char(s, c, i) <= s.len(),
        skip_space(s, i) < s.len() ==> !is_space(s[skip_space(s, i)]),
        i < s.len() && !is_space(s[i]) ==> i < skip_word(s, i),
    decreases s.len() - i,
{
    if i < s.len() {
        lemma_skip_bounds(s, c, i + 1);
    }
}

pub proof fn lemma_back_bounds(s: Seq<char>, c: char, j: int)
    requires
        0 <= j <= s.len(),
    ensures
        0 <= back_space(s, j) <= j,
        0 <= back_char(s, c, j) <= j,
    decreases j,
{
    if j > 0 {
        lemma_back_bounds(s, c, j - 1);
    }
}

pub proof fn lemma_skipped_is_space(s: Seq<char>, i: int, k: int)
    requires
        0 <= i <= k < skip_space(s, i),
    ensures
        k < s.len(),
        is_space(s[k]),
    decreases s.len() - i,
{
    if i < k {
        lemma_skipped_is_space(s, i + 1, k);
    }
}

pub proof fn lemma_back_skipped_is_space(s: Seq<char>, j: int, k: int)
    requires
        0 <= j <= s.len(),
        back_space(s, j) <= k < j,
    ensures
        is_space(s[k]),
    decreases j,
{
    if k < j - 1 {
        lemma_back_skipped_is_space(s, j - 1, k);
    }
}

/// `s` without the white space at its start.
pub open spec fn trim_start_text(s: Seq<char>) -> Seq<char> {
    s.subrange(skip_space(s, 0), s.len() as int)
}

/// `s` without the white space at its end.
pub open spec fn trim_end_text(s: Seq<char>) -> Seq<char> {
    s.subrange(0, back_space(s, s.len() as int))
}

/// `s` without the white space at both ends.
pub open spec fn trim_text(s: Seq<char>) -> Seq<char> {
    trim_end_text(trim_start_text(s))
}

/// `s` without the `c`s at its end.
pub open spec fn trim_end_matches_text(s: Seq<char>, c: char) -> Seq<char> {
    s.subrange(0, back_char(s, c, s.len() as int))
}

/// `s` without the `c`s at both ends.
pub open spec fn trim_matches_text(s: Seq<char>, c: char) -> Seq<char> {
    trim_end_matches_text(s.subrange(skip_char(s, c, 0), s.len() as int), c)
}

/// A text that neither begins nor ends with white space is left as it is.
pub proof fn lemma_trimmed_stays(s: Seq<char>)
    requires
        s.len() > 0 ==> !is_space(s[0]) && !is_space(s.last()),
    ensures
        trim_text(s) == s,
{
    assert(skip_space(s, 0) == 0);
    assert(trim_start_text(s) == s);
    assert(back_space(s, s.len() as int) == s.len());
}

/// What is left of a text neither begins nor ends with white space.
pub proof fn lemma_trim_ends(s: Seq<char>)
    ensures
        trim_text(s).len() > 0 ==> !is_space(trim_text(s)[0]) && !is_space(trim_text(s).last()),
        trim_text(trim_text(s)) == trim_text(s),
{
    lemma_skip_bounds(s, ' ', 0);
    let t = trim_start_text(s);
    lemma_back_bounds(t, ' ', t.len() as int);
    lemma_back_stops(t, t.len() as int);
    lemma_trimmed_stays(trim_text(s));
}

proof fn lemma_back_stops(s: Seq<char>, j: int)
    requires
        0 <= j <= s.len(),
    ensures
        0 < back_space(s, j) ==> !is_space(s[back_space(s, j) - 1]),
    decreases j,
{
    if 0 < j && is_space(s[j - 1]) {
        lemma_back_stops(s, j - 1);
    }
}

/// Trimming takes away nothing but white space.
pub proof fn lemma_trim_keeps(s: Seq<char>, k: int)
    requires
        0 <= k < s.len(),
        !is_space(s[k]),
    ensures
        trim_text(s).contains(s[k]),
{
    lemma_skip_bounds(s, ' ', 0);
    let a = skip_space(s, 0);
    if k < a {
        lemma_skipped_is_space(s, 0, k);
    }
    let t = trim_start_text(s);
    assert(t[k - a] == s[k]);
    let b = back_space(t, t.len() as int);
    lemma_back_bounds(t, ' ', t.len() as int);
    if b <= k - a {
        lemma_back_skipped_is_space(t, t.len() as int, k - a);
    }
    assert(trim_text(s)[k - a] == s[k]);
}

proof fn lemma_skip_behind(p: Seq<char>, s: Seq<char>, i: int)
    requires
        0 <= i <= s.len(),
    ensures
        skip_space(p + s, p.len() + i) == p.len() + skip_space(s, i),
        skip_word(p + s, p.len() + i) == p.len() + skip_word(s, i),
    decreases s.len() - i,
{
    if i < s.len() {
        assert((p + s)[p.len() + i] == s[i]);
        lemma_skip_behind(p, s, i + 1);
    }
}

proof fn lemma_skip_over(p: Seq<char>, s: Seq<char>, i: int)
    requires
        0 <= i <= p.len(),
        forall|k: int| 0 <= k < p.len() ==> is_space(#[trigger] p[k]),
    ensures
        skip_space(p + s, i) == p.len() + skip_space(s, 0),
    decreases p.len() - i,
{
    if i < p.len() {
        assert((p + s)[i] == p[i]);
        lemma_skip_over(p, s, i + 1);
    } else {
        lemma_skip_behind(p, s, 0);
    }
}

proof fn lemma_skip_before(s: Seq<char>, t: Seq<char>, i: int)
    requires
        0 <= i <= s.len(),
        t.len() > 0 ==> is_space(t[0]),
    ensures
        skip_space(s, i) < s.len() ==> skip_space(s + t, i) == skip_space(s, i),
        skip_word(s + t, i) == skip_word(s, i),
    decreases s.len() - i,
{
    if i < s.len() {
        assert((s + t)[i] == s[i]);
        lemma_skip_before(s, t, i + 1);
    } else if t.len() > 0 {
        assert((s + t)[i] == t[0]);
    }
}

fn skip_space_at(v: &Vec<char>, from: usize) -> (r: usize)
    requires
        from <= v@.len(),
    ensures
        r == skip_space(v@, from as int),
        from <= r <= v@.len(),
{
    let mut i: usize = from;
    while i < v.len() && is_whitespace(v[i])
        invariant
            from <= i <= v@.len(),
            skip_space(v@, from as int) == skip_space(v@, i as int),
        decreases v@.len() - i,
    {
        i += 1;
    }
    i
}

fn back_space_at(v: &Vec<char>, from: usize, to: usize) -> (r: usize)
    requires
        from <= to <= v@.len(),
    ensures
        from <= r <= to,
        r - from == back_space(v@.subrange(from as int, v@.len() as int), to - from),
{
    let ghost s = v@.subrange(from as int, v@.len() as int);
    let mut j: usize = to;
    while j > from && is_whitespace(v[j - 1])
        invariant
            from <= j <= to <= v@.len(),
            s == v@.subrange(from as int, v@.len() as int),
            back_space(s, to - from) == back_space(s, j - from),
        decreases j,
    {
        assert(s[j - from - 1] == v@[j - 1]);
        j -= 1;
    }
    proof {
        if j > from {
            assert(s[j - from - 1] == v@[j - 1]);
        }
    }
    j
}

/// `s` without the white space at its start (as `str::trim_start`).
pub fn trim_start(s: &str) -> (r: String)
    ensures
        r@ == trim_start_text(s@),
{
    let v = to_chars(s);
    let a: usize = skip_space_at(&v, 0);
    from_chars(&v, a, v.len())
}

/// `s` without the white space at its end (as `str::trim_end`).
pub fn trim_end(s: &str) -> (r: String)
    ensures
        r@ == trim_end_text(s@),
{
    let v = to_chars(s);
    let b: usize = back_space_at(&v, 0, v.len());
    assert(v@.subrange(0, v@.len() as int) == v@);
    from_chars(&v, 0, b)
}

/// `s` without the white space at both ends (as `str::trim`).
pub fn trim(s: &str) -> (r: String)
    ensures
        r@ == trim_text(s@),
{
    let v = to_chars(s);
    let a: usize = skip_space_at(&v, 0);
    let b: usize = back_space_at(&v, a, v.len());
    let r = from_chars(&v, a, b);
    assert(r@ == trim_text(s@));
    r
}

/// `s` without the `c`s at its end (as `str::trim_end_matches`).
pub fn trim_end_matches(s: &str, c: char) -> (r: String)
    ensures
        r@ == trim_end_matches_text(s@, c),
{
    let v = to_chars(s);
    let mut j: usize = v.len();
    while j > 0 && v[j - 1] == c
        invariant
            j <= v@.len(),
            back_char(v@, c, v@.len() as int) == back_char(v@, c, j as int),
        decreases j,
    {
        j -= 1;
    }
    from_chars(&v, 0, j)
}

/// `s` without the `c`s at both ends (as `str::trim_matches`).
pub fn trim_matches(s: &str, c: char) -> (r: String)
    ensures
        r@ == trim_matches_text(s@, c),
{
    let v = to_chars(s);
    let mut i: usize = 0;
    while i < v.len() && v[i] == c
        invariant
            i <= v@.len(),
            skip_char(v@, c, 0) == skip_char(v@, c, i as int),
        decreases v@.len() - i,
    {
        i += 1;
    }
    let t = from_chars(&v, i, v.len());
    trim_end_matches(&t, c)
}

// ---------------------------------------------------------------------------
// Words and pieces
// ---------------------------------------------------------------------------

/// The words of `s` from position `i` on: the longest runs without white space.
pub open spec fn words_from(s: Seq<char>, i: int) -> Seq<Seq<char>>
    decreases s.len() - i,
    when 0 <= i <= s.len()
{
    let a = skip_space(s, i);
    let b = skip_word(s, a);
    if a < s.len() {
        proof {
            lemma_skip_bounds(s, ' ', i);
            lemma_skip_bounds(s, ' ', a);
        }
        seq![s.subrange(a, b)] + words_from(s, b)
    } else {
        Seq::empty()
    }
}

/// The words of `s`.
pub open spec fn words(s: Seq<char>) -> Seq<Seq<char>> {
    words_from(s, 0)
}

/// The words of `s` in order (as `str::split_whitespace`).
pub fn split_whitespace(s: &str) -> (r: Vec<String>)
    ensures
        texts(r@) == words(s@),
{
    let v = to_chars(s);
    let mut out: Vec<String> = Vec::new();
    let mut i: usize = skip_space_at(&v, 0);
    proof {
        lemma_words_skip(v@, 0);
    }
    assert(texts(out@) + words_from(v@, i as int) == words(v@));
    while i < v.len()
        invariant
            i <= v@.len(),
            i < v@.len() ==> !is_space(v@[i as int]),
            texts(out@) + words_from(v@, i as int) == words(v@),
        decreases v@.len() - i,
    {
        let start: usize = i;
        while i < v.len() && !is_whitespace(v[i])
            invariant
                start <= i <= v@.len(),
                skip_word(v@, start as int) == skip_word(v@, i as int),
            decreases v@.len() - i,
        {
            i += 1;
        }
        let ghost before = out@;
        let ghost b = i as int;
        out.push(from_chars(&v, start, i));
        i = skip_space_at(&v, i);
        proof {
            lemma_skip_bounds(v@, ' ', start as int);
            lemma_skip_bounds(v@, ' ', b);
            assert(skip_space(v@, start as int) == start);
            assert(words_from(v@, start as int) == seq![v@.subrange(start as int, b)] + words_from(
                v@,
                b,
            ));
            lemma_words_skip(v@, b);
            assert(texts(out@) == texts(before).push(v@.subrange(start as int, b)));
            assert(texts(out@) + words_from(v@, i as int) == texts(before) + words_from(
                v@,
                start as int,
            ));
        }
    }
    assert(words_from(v@, i as int) == Seq::<Seq<char>>::empty());
    assert(texts(out@) == words(v@));
    out
}

pub proof fn lemma_words_skip(s: Seq<char>, i: int)
    requires
        0 <= i <= s.len(),
    ensures
        i <= skip_space(s, i) <= s.len(),
        words_from(s, i) == words_from(s, skip_space(s, i)),
        skip_space(s, skip_space(s, i)) == skip_space(s, i),
{
    lemma_skip_bounds(s, ' ', i);
    let a = skip_space(s, i);
    assert(skip_space(s, a) == a);
}

/// White space in front of a text adds no word and changes none.
pub proof fn lemma_words_behind_space(p: Seq<char>, s: Seq<char>)
    requires
        forall|k: int| 0 <= k < p.len() ==> is_space(#[trigger] p[k]),
    ensures
        words(p + s).len() > 0 <==> words(s).len() > 0,
        words(s).len() > 0 ==> words(p + s)[0] == words(s)[0],
{
    let t = p + s;
    lemma_skip_over(p, s, 0);
    lemma_skip_bounds(s, ' ', 0);
    let a = skip_space(s, 0);
    lemma_skip_bounds(s, ' ', a);
    lemma_skip_bounds(t, ' ', 0);
    if a < s.len() {
        lemma_skip_behind(p, s, a);
        let b = skip_word(s, a);
        assert(t.subrange(p.len() + a, p.len() + b) == s.subrange(a, b));
        assert(words(t)[0] == t.subrange(p.len() + a, p.len() + b));
        assert(words(s)[0] == s.subrange(a, b));
    }
}

/// What follows the first word, behind white space, does not change it.
pub proof fn lemma_words_before(s: Seq<char>, t: Seq<char>)
    requires
        words(s).len() > 0,
        t.len() > 0 ==> is_space(t[0]),
    ensures
        words(s + t).len() > 0,
        words(s + t)[0] == words(s)[0],
{
    let u = s + t;
    lemma_skip_before(s, t, 0);
    lemma_skip_bounds(s, ' ', 0);
    let a = skip_space(s, 0);
    assert(a < s.len());
    lemma_skip_before(s, t, a);
    lemma_skip_bounds(s, ' ', a);
    let b = skip_word(s, a);
    assert(u.subrange(a, b) == s.subrange(a, b));
    assert(words(u)[0] == u.subrange(a, b));
}

/// The first position at or after `i` that holds `c`.
pub open spec fn char_from(s: Seq<char>, c: char, i: int) -> Option<int>
    decreases s.len() - i,
{
    if 0 <= i < s.len() {
        if s[i] == c {
            Some(i)
        } else {
            char_from(s, c, i + 1)
        }
    } else {
        None
    }
}

/// The first position of `c` in `s`.
pub open spec fn char_index(s: Seq<char>, c: char) -> Option<int> {
    char_from(s, c, 0)
}

pub proof fn lemma_char_from(s: Seq<char>, c: char, i: int)
    requires
        0 <= i <= s.len(),
    ensures
        match char_from(s, c, i) {
            Some(k) => i <= k < s.len() && s[k] == c && forall|j: int|
                i <= j < k ==> #[trigger] s[j] != c,
            None => forall|j: int| i <= j < s.len() ==> #[trigger] s[j] != c,
        },
    decreases s.len() - i,
{
    if i < s.len() {
        lemma_char_from(s, c, i + 1);
    }
}

/// The first position at or after `from` that holds `c`.
pub fn find_char_from(v: &Vec<char>, c: char, from: usize) -> (r: Option<usize>)
    requires
        from <= v@.len(),
    ensures
        match r {
            Some(k) => char_from(v@, c, from as int) == Some(k as int) && from <= k < v@.len()
                <= usize::MAX && v@[k as int] == c,
            None => char_from(v@, c, from as int) is None,
        },
{
    let mut i: usize = from;
    assert(v@.len() == v.len());
    while i < v.len()
        invariant
            from <= i <= v@.len() <= usize::MAX,
            char_from(v@, c, from as int) == char_from(v@, c, i as int),
        decreases v@.len() - i,
    {
        if v[i] == c {
            return Some(i);
        }
        i += 1;
    }
    None
}

/// The pieces of `s` between `c`s, from position `i` on.
pub open spec fn pieces_from(s: Seq<char>, c: char, i: int) -> Seq<Seq<char>>
    decreases s.len() - i,
    when 0 <= i <= s.len()
{
    match char_from(s, c, i) {
        Some(k) => {
            proof {
                lemma_char_from(s, c, i);
            }
            seq![s.subrange(i, k)] + pieces_from(s, c, k + 1)
        },
        None => seq![s.subrange(i, s.len() as int)],
    }
}

/// The pieces of `s` between `c`s.
pub open spec fn pieces(s: Seq<char>, c: char) -> Seq<Seq<char>> {
    pieces_from(s, c, 0)
}

/// The pieces of `s` between `c`s (as `str::split`).
pub fn split_char(s: &str, c: char) -> (r: Vec<String>)
    ensures
        texts(r@) == pieces(s@, c),
        r@.len() > 0,
{
    let v = to_chars(s);
    let mut out: Vec<String> = Vec::new();
    let mut i: usize = 0;
    let mut more = true;
    assert(texts(out@) + pieces_from(v@, c, 0) == pieces(v@, c));
    while more
        invariant
            i <= v@.len(),
            more ==> texts(out@) + pieces_from(v@, c, i as int) == pieces(v@, c),
            !more ==> texts(out@) == pieces(v@, c) && out@.len() > 0,
        decreases v@.len() - i + (if more {
            1int
        } else {
            0int
        }),
    {
        let ghost before = out@;
        match find_char_from(&v, c, i) {
            Some(k) => {
                assert(v@.len() == v.len());
                out.push(from_chars(&v, i, k));
                proof {
                    assert(texts(out@) == texts(before).push(v@.subrange(i as int, k as int)));
                    assert(texts(out@) + pieces_from(v@, c, k + 1) == texts(before) + pieces_from(
                        v@,
                        c,
                        i as int,
                    ));
                }
                i = k + 1;
            },
            None => {
                out.push(from_chars(&v, i, v.len()));
                proof {
                    assert(texts(out@) == texts(before).push(
                        v@.subrange(i as int, v@.len() as int),
                    ));
                    assert(texts(out@) == texts(before) + pieces_from(v@, c, i as int));
                }
                more = false;
            },
        }
    }
    out
}

/// A line without the carriage return at its end, if it has one.
pub open spec fn without_return(s: Seq<char>) -> Seq<char> {
    if s.len() > 0 && s.last() == '\r' {
        s.drop_last()
    } else {
        s
    }
}

/// The lines of `s` from position `i` on. The last one may lack its line feed.
pub open spec fn lines_from(s: Seq<char>, i: int) -> Seq<Seq<char>>
    decreases s.len() - i,
    when 0 <= i <= s.len()
{
    if i == s.len() {
        Seq::empty()
    } else {
        match char_from(s, '\n', i) {
            Some(k) => {
                proof {
                    lemma_char_from(s, '\n', i);
                }
                seq![without_return(s.subrange(i, k))] + lines_from(s, k + 1)
            },
            None => seq![s.subrange(i, s.len() as int)],
        }
    }
}

/// The lines of `s`.
pub open spec fn lines(s: Seq<char>) -> Seq<Seq<char>> {
    lines_from(s, 0)
}

/// The lines of `s` (as `str::lines`).
pub fn split_lines(s: &str) -> (r: Vec<String>)
    ensures
        texts(r@) == lines(s@),
{
    let v = to_chars(s);
    let mut out: Vec<String> = Vec::new();
    let mut i: usize = 0;
    assert(texts(out@) + lines_from(v@, 0) == lines(v@));
    while i < v.len()
        invariant
            i <= v@.len(),
            texts(out@) + lines_from(v@, i as int) == lines(v@),
        decreases v@.len() - i,
    {
        let ghost before = out@;
        assert(v@.len() == v.len());
        match find_char_from(&v, '\n', i) {
            Some(k) => {
                let end: usize = if i < k && v[k - 1] == '\r' {
                    k - 1
                } else {
                    k
                };
                out.push(from_chars(&v, i, end));
                proof {
                    assert(v@.subrange(i as int, end as int) == without_return(
                        v@.subrange(i as int, k as int),
                    ));
                    assert(texts(out@) == texts(before).push(v@.subrange(i as int, end as int)));
                    assert(texts(out@) + lines_from(v@, k + 1) == texts(before) + lines_from(
                        v@,
                        i as int,
                    ));
                }
                i = k + 1;
            },
            None => {
                out.push(from_chars(&v, i, v.len()));
                proof {
                    assert(texts(out@) == texts(before).push(
                        v@.subrange(i as int, v@.len() as int),
                    ));
                    assert(texts(out@) + lines_from(v@, v@.len() as int) == texts(before)
                        + lines_from(v@, i as int));
                }
                i = v.len();
            },
        }
    }
    assert(texts(out@) + lines_from(v@, v@.len() as int) == texts(out@));
    out
}

proof fn lemma_one_more_line_from(s: Seq<char>, line: Seq<char>, i: int)
    requires
        0 <= i <= s.len(),
        s.len() > 0 ==> s.last() == '\n',
        !line.contains('\n'),
        !line.contains('\r'),
    ensures
        lines_from(s + line + seq!['\n'], i) == lines_from(s, i).push(line),
    decreases s.len() - i,
{
    let t = s + line + seq!['\n'];
    lemma_char_from(t, '\n', i);
    lemma_char_from(s, '\n', i);
    let at = char_from(t, '\n', i);
    if i == s.len() {
        let end = s.len() + line.len();
        assert(t[end as int] == '\n');
        assert(at is Some);
        let k = at->0;
        if k < end {
            assert(line[k - i] == t[k]);
            assert(line.contains('\n'));
        }
        assert(k == end);
        assert(t.subrange(i, k) == line);
        if line.len() > 0 {
            assert(line.contains(line[line.len() - 1]));
        }
        assert(lines_from(t, k + 1) == Seq::<Seq<char>>::empty());
        assert(lines_from(s, i) == Seq::<Seq<char>>::empty());
        assert(lines_from(t, i) == seq![line] + lines_from(t, k + 1));
    } else {
        let last = s.len() - 1;
        assert(s[last] == '\n');
        assert(char_from(s, '\n', i) is Some);
        let k = char_from(s, '\n', i)->0;
        assert(t[k] == s[k]);
        assert(at is Some);
        let m = at->0;
        if m < k {
            assert(t[m] == s[m]);
        }
        assert(m == k);
        assert(t.subrange(i, k) == s.subrange(i, k));
        lemma_one_more_line_from(s, line, k + 1);
        assert(lines_from(t, i) == lines_from(s, i).push(line));
    }
}

/// A line that is written behind others, each with its line feed, is the last line of them all.
pub proof fn law_lines_are_appended(s: Seq<char>, line: Seq<char>)
    requires
        s.len() > 0 ==> s.last() == '\n',
        !line.contains('\n'),
        !line.contains('\r'),
    ensures
        lines(s + line + seq!['\n']) == lines(s).push(line),
{
    lemma_one_more_line_from(s, line, 0);
}

/// The texts of `v` with `sep` between neighbours.
pub open spec fn joined(v: Seq<Seq<char>>, sep: Seq<char>) -> Seq<char>
    decreases v.len(),
{
    if v.len() == 0 {
        Seq::empty()
    } else if v.len() == 1 {
        v[0]
    } else {
        joined(v.drop_last(), sep) + sep + v.last()
    }
}

/// The strings of `v` with `sep` between neighbours (as `[String]::join`).
pub fn join(v: &Vec<String>, sep: &str) -> (r: String)
    ensures
        r@ == joined(texts(v@), sep@),
{
    let mut out = String::new();
    let mut i: usize = 0;
    while i < v.len()
        invariant
            i <= v@.len(),
            out@ == joined(texts(v@).subrange(0, i as int), sep@),
        decreases v@.len() - i,
    {
        let ghost done = texts(v@).subrange(0, i as int);
        let ghost next = texts(v@).subrange(0, i + 1);
        assert(next.drop_last() == done);
        assert(next.last() == v@[i as int]@);
        if i > 0 {
            out.append(sep);
        }
        out.append(&v[i]);
        proof {
            if i == 0 {
                assert(out@ == next[0]);
            }
        }
        i += 1;
    }
    assert(texts(v@).subrange(0, v@.len() as int) == texts(v@));
    out
}

// ---------------------------------------------------------------------------
// Searching
// ---------------------------------------------------------------------------

/// Whether `needle` stands in `hay` at position `i`.
pub open spec fn occurs_at<T>(hay: Seq<T>, needle: Seq<T>, i: int) -> bool {
    &&& 0 <= i
    &&& i + needle.len() <= hay.len()
    &&& hay.subrange(i, i + needle.len()) == needle
}

/// The first position at or after `i` at which `needle` stands in `hay`.
pub open spec fn find_from<T>(hay: Seq<T>, needle: Seq<T>, i: int) -> Option<int>
    decreases hay.len() + 1 - i,
{
    if 0 <= i && i + needle.len() <= hay.len() {
        if occurs_at(hay, needle, i) {
            Some(i)
        } else {
            find_from(hay, needle, i + 1)
        }
    } else {
        None
    }
}

/// The first position at which `needle` stands in `hay`.
pub open spec fn index_of<T>(hay: Seq<T>, needle: Seq<T>) -> Option<int> {
    find_from(hay, needle, 0)
}

/// The last position at or before `i` at which `needle` stands in `hay`.
pub open spec fn rfind_from<T>(hay: Seq<T>, needle: Seq<T>, i: int) -> Option<int>
    decreases i + 1,
{
    if i < 0 {
        None
    } else if occurs_at(hay, needle, i) {
        Some(i)
    } else {
        rfind_from(hay, needle, i - 1)
    }
}

/// The last position at which `needle` stands in `hay`.
pub open spec fn last_index_of<T>(hay: Seq<T>, needle: Seq<T>) -> Option<int> {
    rfind_from(hay, needle, hay.len() - needle.len())
}

/// Whether `needle` stands somewhere in `hay`.
pub open spec fn contains_seq<T>(hay: Seq<T>, needle: Seq<T>) -> bool {
    index_of(hay, needle) is Some
}

/// Whether `s` begins with `p`.
pub open spec fn has_prefix<T>(s: Seq<T>, p: Seq<T>) -> bool {
    occurs_at(s, p, 0)
}

/// Whether `s` ends with `p`.
pub open spec fn has_suffix<T>(s: Seq<T>, p: Seq<T>) -> bool {
    occurs_at(s, p, s.len() - p.len())
}

/// Whether `needle` stands in `hay` at position `i`.
pub fn chars_occur_at(hay: &Vec<char>, needle: &Vec<char>, i: usize) -> (r: bool)
    ensures
        r == occurs_at(hay@, needle@, i as int),
{
    if needle.len() > hay.len() || i > hay.len() - needle.len() {
        return false;
    }
    let mut k: usize = 0;
    assert(hay@.len() == hay.len());
    while k < needle.len()
        invariant
            k <= needle@.len(),
            i + needle@.len() <= hay@.len() <= usize::MAX,
            forall|j: int| 0 <= j < k ==> hay@[i + j] == needle@[j],
        decreases needle@.len() - k,
    {
        if hay[i + k] != needle[k] {
            assert(hay@.subrange(i as int, i + needle@.len())[k as int] != needle@[k as int]);
            return false;
        }
        k += 1;
    }
    assert(hay@.subrange(i as int, i + needle@.len()) == needle@);
    true
}

/// Whether the bytes `needle` stand in `hay` at position `i`.
pub fn bytes_occur_at(hay: &[u8], needle: &[u8], i: usize) -> (r: bool)
    ensures
        r == occurs_at(hay@, needle@, i as int),
{
    if needle.len() > hay.len() || i > hay.len() - needle.len() {
        return false;
    }
    let mut k: usize = 0;
    assert(hay@.len() == hay.len());
    while k < needle.len()
        invariant
            k <= needle@.len(),
            i + needle@.len() <= hay@.len() <= usize::MAX,
            forall|j: int| 0 <= j < k ==> hay@[i + j] == needle@[j],
        decreases needle@.len() - k,
    {
        if hay[i + k] != needle[k] {
            assert(hay@.subrange(i as int, i + needle@.len())[k as int] != needle@[k as int]);
            return false;
        }
        k += 1;
    }
    assert(hay@.subrange(i as int, i + needle@.len()) == needle@);
    true
}

/// The first position at or after `from` at which `needle` stands in `hay`.
pub fn find_chars_from(hay: &Vec<char>, needle: &Vec<char>, from: usize) -> (r: Option<usize>)
    ensures
        match r {
            Some(k) => find_from(hay@, needle@, from as int) == Some(k as int) && from <= k
                && occurs_at(hay@, needle@, k as int) && hay@.len() <= usize::MAX,
            None => find_from(hay@, needle@, from as int) is None,
        },
{
    if needle.len() > hay.len() {
        return None;
    }
    assert(hay@.len() == hay.len());
    let last: usize = hay.len() - needle.len();
    let mut i: usize = from;
    while i <= last
        invariant
            from <= i,
            i <= hay@.len() + 1 || i == from,
            last + needle@.len() == hay@.len() <= usize::MAX,
            find_from(hay@, needle@, from as int) == find_from(hay@, needle@, i as int),
        decreases last + 1 - i,
    {
        if chars_occur_at(hay, needle, i) {
            return Some(i);
        }
        if i == last {
            assert(find_from(hay@, needle@, i + 1) is None);
            return None;
        }
        i += 1;
    }
    None
}

/// The first byte position at or after `from` at which `needle` stands in `hay`.
pub fn find_bytes_from(hay: &[u8], needle: &[u8], from: usize) -> (r: Option<usize>)
    ensures
        match r {
            Some(k) => find_from(hay@, needle@, from as int) == Some(k as int) && from <= k
                && occurs_at(hay@, needle@, k as int) && hay@.len() <= usize::MAX,
            None => find_from(hay@, needle@, from as int) is None,
        },
{
    if needle.len() > hay.len() {
        return None;
    }
    assert(hay@.len() == hay.len());
    let last: usize = hay.len() - needle.len();
    let mut i: usize = from;
    while i <= last
        invariant
            from <= i,
            i <= hay@.len() + 1 || i == from,
            last + needle@.len() == hay@.len() <= usize::MAX,
            find_from(hay@, needle@, from as int) == find_from(hay@, needle@, i as int),
        decreases last + 1 - i,
    {
        if bytes_occur_at(hay, needle, i) {
            return Some(i);
        }
        if i == last {
            assert(find_from(hay@, needle@, i + 1) is None);
            return None;
        }
        i += 1;
    }
    None
}

/// The first byte offset at which `needle` stands in `hay` (as `str::find`).
pub fn find_byte_offset(hay: &str, needle: &str) -> (r: Option<usize>)
    ensures
        match r {
            Some(k) => index_of(utf8(hay@), utf8(needle@)) == Some(k as int) && k + utf8(
                needle@,
            ).len() <= utf8(hay@).len() <= usize::MAX,
            None => index_of(utf8(hay@), utf8(needle@)) is None,
        },
{
    let h = hay.as_bytes();
    let n = needle.as_bytes();
    assert(h@.len() == h.len());
    find_bytes_from(h, n, 0)
}

/// The last byte offset at which `needle` stands in `hay` (as `str::rfind`).
pub fn rfind_byte_offset(hay: &str, needle: &str) -> (r: Option<usize>)
    ensures
        match r {
            Some(k) => last_index_of(utf8(hay@), utf8(needle@)) == Some(k as int) && k + utf8(
                needle@,
            ).len() <= utf8(hay@).len() <= usize::MAX,
            None => last_index_of(utf8(hay@), utf8(needle@)) is None,
        },
{
    let h = hay.as_bytes();
    let n = needle.as_bytes();
    if n.len() > h.len() {
        return None;
    }
    assert(h@.len() == h.len());
    let mut i: usize = h.len() - n.len();
    let ghost top = h@.len() - n@.len();
    loop
        invariant
            h@ == utf8(hay@),
            n@ == utf8(needle@),
            h@.len() <= usize::MAX,
            i + n@.len() <= h@.len(),
            top == h@.len() - n@.len(),
            rfind_from(h@, n@, top) == rfind_from(h@, n@, i as int),
        decreases i,
    {
        if bytes_occur_at(h, n, i) {
            return Some(i);
        }
        if i == 0 {
            assert(rfind_from(h@, n@, -1) is None);
            return None;
        }
        i -= 1;
    }
}

/// Whether `needle` stands somewhere in `hay` (as `str::contains`).
pub fn contains(hay: &str, needle: &str) -> (r: bool)
    ensures
        r == contains_seq(hay@, needle@),
{
    let h = to_chars(hay);
    let n = to_chars(needle);
    find_chars_from(&h, &n, 0).is_some()
}

/// Whether `s` begins with `p` (as `str::starts_with`).
pub fn starts_with(s: &str, p: &str) -> (r: bool)
    ensures
        r == has_prefix(s@, p@),
{
    let h = to_chars(s);
    let n = to_chars(p);
    chars_occur_at(&h, &n, 0)
}

/// Whether `s` ends with `p` (as `str::ends_with`).
pub fn ends_with(s: &str, p: &str) -> (r: bool)
    ensures
        r == has_suffix(s@, p@),
{
    let h = to_chars(s);
    let n = to_chars(p);
    if n.len() > h.len() {
        return false;
    }
    chars_occur_at(&h, &n, h.len() - n.len())
}

// ---------------------------------------------------------------------------
// Replacing
// ---------------------------------------------------------------------------

/// `s` from position `i` on with each `pat` that stands there, taken from the left and without
/// overlap, replaced by `rep`.
pub open spec fn replaced_from(s: Seq<char>, pat: Seq<char>, rep: Seq<char>, i: int) -> Seq<char>
    decreases s.len() - i,
{
    if i < 0 || i >= s.len() || pat.len() == 0 {
        Seq::empty()
    } else if occurs_at(s, pat, i) {
        rep + replaced_from(s, pat, rep, i + pat.len())
    } else {
        seq![s[i]] + replaced_from(s, pat, rep, i + 1)
    }
}

/// `rep` before each character of `s` and at its end.
pub open spec fn interleaved(s: Seq<char>, rep: Seq<char>) -> Seq<char>
    decreases s.len(),
{
    if s.len() == 0 {
        rep
    } else {
        interleaved(s.drop_last(), rep) + seq![s.last()] + rep
    }
}

/// `s` with each `pat` replaced by `rep`.
pub open spec fn replaced(s: Seq<char>, pat: Seq<char>, rep: Seq<char>) -> Seq<char> {
    if pat.len() == 0 {
        interleaved(s, rep)
    } else {
        replaced_from(s, pat, rep, 0)
    }
}

/// `s` with each `pat` replaced by `rep` (as `str::replace`).
pub fn replace(s: &str, pat: &str, rep: &str) -> (r: String)
    ensures
        r@ == replaced(s@, pat@, rep@),
{
    let v = to_chars(s);
    let p = to_chars(pat);
    let mut out = String::new();
    if p.len() == 0 {
        out.append(rep);
        let mut i: usize = 0;
        while i < v.len()
            invariant
                i <= v@.len(),
                out@ == interleaved(v@.subrange(0, i as int), rep@),
            decreases v@.len() - i,
        {
            let ghost next = v@.subrange(0, i + 1);
            assert(next.drop_last() == v@.subrange(0, i as int));
            out.push(v[i]);
            out.append(rep);
            assert(out@ == interleaved(next.drop_last(), rep@) + seq![next.last()] + rep@);
            i += 1;
        }
        assert(v@.subrange(0, v@.len() as int) == v@);
        return out;
    }
    let mut i: usize = 0;
    assert(out@ + replaced_from(v@, p@, rep@, 0) == replaced_from(v@, p@, rep@, 0));
    while i < v.len()
        invariant
            i <= v@.len(),
            p@.len() > 0,
            out@ + replaced_from(v@, p@, rep@, i as int) == replaced_from(v@, p@, rep@, 0),
        decreases v@.len() - i,
    {
        let ghost before = out@;
        if chars_occur_at(&v, &p, i) {
            out.append(rep);
            proof {
                assert(out@ + replaced_from(v@, p@, rep@, i + p@.len()) == before + replaced_from(
                    v@,
                    p@,
                    rep@,
                    i as int,
                ));
            }
            i += p.len();
        } else {
            out.push(v[i]);
            proof {
                assert(out@ + replaced_from(v@, p@, rep@, i + 1) == before + replaced_from(
                    v@,
                    p@,
                    rep@,
                    i as int,
                ));
            }
            i += 1;
        }
    }
    assert(out@ == replaced_from(v@, p@, rep@, 0));
    out
}

// ---------------------------------------------------------------------------
// ASCII
// ---------------------------------------------------------------------------

/// Whether `c` is one of `0` to `9`.
pub open spec fn is_digit(c: char) -> bool {
    '0' <= c <= '9'
}

/// Whether `c` is an ASCII letter, an ASCII digit or an underscore.
pub open spec fn is_ident_char(c: char) -> bool {
    ||| is_digit(c)
    ||| 'a' <= c <= 'z'
    ||| 'A' <= c <= 'Z'
    ||| c == '_'
}

/// Whether `c` is an ASCII letter, an ASCII digit or an underscore.
pub fn ident_char(c: char) -> (r: bool)
    ensures
        r == is_ident_char(c),
{
    let u: u32 = c as u32;
    (48 <= u && u <= 57) || (97 <= u && u <= 122) || (65 <= u && u <= 90) || u == 95
}

/// The lower-case form of an ASCII letter (as `char::to_ascii_lowercase`).
pub fn lower_char(c: char) -> (r: char)
    ensures
        r == ascii_lower(c),
{
    if 'A' as u32 <= c as u32 && c as u32 <= 'Z' as u32 {
        ((c as u32 + 32) as u8) as char
    } else {
        c
    }
}

/// Whether two texts are the same but for the case of ASCII letters.
pub open spec fn same_ignore_case(a: Seq<char>, b: Seq<char>) -> bool {
    a.map_values(|c: char| ascii_lower(c)) == b.map_values(|c: char| ascii_lower(c))
}

/// A text with the letters `A` to `Z` in lower case.
pub open spec fn ascii_lower_text(s: Seq<char>) -> Seq<char> {
    s.map_values(|c: char| ascii_lower(c))
}

proof fn lemma_skip_in_lower_case(s: Seq<char>, i: int)
    requires
        0 <= i <= s.len(),
    ensures
        skip_space(ascii_lower_text(s), i) == skip_space(s, i),
        skip_word(ascii_lower_text(s), i) == skip_word(s, i),
    decreases s.len() - i,
{
    if i < s.len() {
        assert(ascii_lower_text(s)[i] == ascii_lower(s[i]));
        assert(is_space(ascii_lower(s[i])) == is_space(s[i]));
        lemma_skip_in_lower_case(s, i + 1);
    }
}

/// The first word of a text in lower case is its first word in lower case.
pub proof fn lemma_words_in_lower_case(s: Seq<char>)
    ensures
        words(ascii_lower_text(s)).len() > 0 <==> words(s).len() > 0,
        words(s).len() > 0 ==> words(ascii_lower_text(s))[0] == ascii_lower_text(words(s)[0]),
{
    let t = ascii_lower_text(s);
    lemma_skip_in_lower_case(s, 0);
    lemma_skip_bounds(s, ' ', 0);
    let a = skip_space(s, 0);
    lemma_skip_bounds(s, ' ', a);
    lemma_skip_in_lower_case(s, a);
    if a < s.len() {
        let b = skip_word(s, a);
        assert(t.subrange(a, b) =~= ascii_lower_text(s.subrange(a, b)));
        assert(words(t)[0] == t.subrange(a, b));
        assert(words(s)[0] == s.subrange(a, b));
    }
}

/// Texts that are the same but for the case of ASCII letters have the same upper-case form.
pub proof fn lemma_upper_ignores_case(a: Seq<char>, b: Seq<char>)
    requires
        same_ignore_case(a, b),
    ensures
        upper_text(a) == upper_text(b),
    decreases a.len(),
{
    let p = a.map_values(|c: char| ascii_lower(c));
    let q = b.map_values(|c: char| ascii_lower(c));
    assert(p.len() == a.len() && q.len() == b.len());
    reveal_with_fuel(upper_text, 1);
    if a.len() > 0 {
        let n = a.len() - 1;
        assert(p[n] == ascii_lower(a[n]) && q[n] == ascii_lower(b[n]));
        assert(upper_char(a[n]) == upper_char(b[n]));
        assert(a.drop_last().map_values(|c: char| ascii_lower(c)) =~= p.drop_last());
        assert(b.drop_last().map_values(|c: char| ascii_lower(c)) =~= q.drop_last());
        lemma_upper_ignores_case(a.drop_last(), b.drop_last());
    }
}

/// Whether two texts are the same but for the case of ASCII letters (as
/// `str::eq_ignore_ascii_case`).
pub fn eq_ignore_ascii_case(a: &str, b: &str) -> (r: bool)
    ensures
        r == same_ignore_case(a@, b@),
{
    let x = to_chars(a);
    let y = to_chars(b);
    let ghost lx = a@.map_values(|c: char| ascii_lower(c));
    let ghost ly = b@.map_values(|c: char| ascii_lower(c));
    if x.len() != y.len() {
        assert(lx.len() != ly.len());
        return false;
    }
    let mut i: usize = 0;
    while i < x.len()
        invariant
            i <= x@.len(),
            x@ == a@,
            y@ == b@,
            x@.len() == y@.len(),
            lx == a@.map_values(|c: char| ascii_lower(c)),
            ly == b@.map_values(|c: char| ascii_lower(c)),
            forall|j: int| 0 <= j < i ==> lx[j] == ly[j],
        decreases x@.len() - i,
    {
        if lower_char(x[i]) != lower_char(y[i]) {
            assert(lx[i as int] != ly[i as int]);
            return false;
        }
        i += 1;
    }
    assert(lx == ly);
    true
}

/// A text in which the pattern does not stand is not changed by a replacement.
pub proof fn law_text_without_the_pattern_stays(s: Seq<char>, pat: Seq<char>, rep: Seq<char>)
    requires
        pat.len() > 0,
        forall|i: int| !#[trigger] occurs_at(s, pat, i),
    ensures
        replaced(s, pat, rep) == s,
{
    lemma_absent_from(s, pat, rep, 0);
    assert(s.subrange(0, s.len() as int) =~= s);
}

proof fn lemma_absent_from(s: Seq<char>, pat: Seq<char>, rep: Seq<char>, i: int)
    requires
        pat.len() > 0,
        0 <= i <= s.len(),
        forall|k: int| !#[trigger] occurs_at(s, pat, k),
    ensures
        replaced_from(s, pat, rep, i) == s.subrange(i, s.len() as int),
    decreases s.len() - i,
{
    if i < s.len() {
        assert(!occurs_at(s, pat, i));
        lemma_absent_from(s, pat, rep, i + 1);
        assert(seq![s[i]] + s.subrange(i + 1, s.len() as int) =~= s.subrange(i, s.len() as int));
    } else {
        assert(s.subrange(i, s.len() as int) =~= Seq::<char>::empty());
    }
}

/// A pattern that stands alone is replaced as a whole.
pub proof fn law_pattern_alone_is_replaced(pat: Seq<char>, rep: Seq<char>)
    requires
        pat.len() > 0,
    ensures
        replaced(pat, pat, rep) == rep,
{
    assert(pat.subrange(0, pat.len() as int) =~= pat);
    assert(occurs_at(pat, pat, 0));
    assert(replaced_from(pat, pat, rep, pat.len() as int) =~= Seq::<char>::empty());
    assert(rep + Seq::<char>::empty() =~= rep);
}

proof fn lemma_found_from<T>(hay: Seq<T>, needle: Seq<T>, i: int)
    requires
        0 <= i,
    ensures
        match find_from(hay, needle, i) {
            Some(k) => i <= k && occurs_at(hay, needle, k) && forall|j: int|
                i <= j < k ==> !#[trigger] occurs_at(hay, needle, j),
            None => forall|j: int| i <= j ==> !#[trigger] occurs_at(hay, needle, j),
        },
    decreases hay.len() + 1 - i,
{
    if i + needle.len() <= hay.len() {
        if !occurs_at(hay, needle, i) {
            lemma_found_from(hay, needle, i + 1);
        }
    }
}

/// A text is found where it first stands, and is contained exactly where it stands somewhere.
pub proof fn law_found_where_it_first_stands<T>(hay: Seq<T>, needle: Seq<T>)
    ensures
        index_of(hay, needle) matches Some(k) ==> occurs_at(hay, needle, k) && forall|j: int|
            j < k ==> !#[trigger] occurs_at(hay, needle, j),
        contains_seq(hay, needle) <==> exists|k: int| #[trigger] occurs_at(hay, needle, k),
{
    lemma_found_from(hay, needle, 0);
    if let Some(k) = index_of(hay, needle) {
        assert(occurs_at(hay, needle, k));
    }
}

proof fn lemma_found_back<T>(hay: Seq<T>, needle: Seq<T>, i: int)
    ensures
        match rfind_from(hay, needle, i) {
            Some(k) => k <= i && occurs_at(hay, needle, k) && forall|j: int|
                k < j <= i ==> !#[trigger] occurs_at(hay, needle, j),
            None => forall|j: int| j <= i ==> !#[trigger] occurs_at(hay, needle, j),
        },
    decreases i + 1,
{
    if i >= 0 {
        if !occurs_at(hay, needle, i) {
            lemma_found_back(hay, needle, i - 1);
        }
    }
}

/// The last place of a text is one where it stands and behind which it does not.
pub proof fn law_found_where_it_last_stands<T>(hay: Seq<T>, needle: Seq<T>)
    ensures
        last_index_of(hay, needle) matches Some(k) ==> occurs_at(hay, needle, k) && forall|j: int|
            k < j ==> !#[trigger] occurs_at(hay, needle, j),
        last_index_of(hay, needle) is Some <==> contains_seq(hay, needle),
{
    lemma_found_back(hay, needle, hay.len() - needle.len());
    law_found_where_it_first_stands(hay, needle);
    if let Some(k) = last_index_of(hay, needle) {
        assert(occurs_at(hay, needle, k));
    } else if contains_seq(hay, needle) {
        let k = choose|k: int| #[trigger] occurs_at(hay, needle, k);
        assert(k <= hay.len() - needle.len());
    }
}

proof fn lemma_skipped_to(s: Seq<char>, c: char, i: int)
    requires
        0 <= i <= s.len(),
    ensures
        i <= skip_char(s, c, i) <= s.len(),
        skip_char(s, c, i) < s.len() ==> s[skip_char(s, c, i)] != c,
        forall|k: int| i <= k < skip_char(s, c, i) ==> #[trigger] s[k] == c,
    decreases s.len() - i,
{
    if i < s.len() && s[i] == c {
        lemma_skipped_to(s, c, i + 1);
    }
}

proof fn lemma_skipped_back_to(s: Seq<char>, c: char, j: int)
    requires
        0 <= j <= s.len(),
    ensures
        0 <= back_char(s, c, j) <= j,
        back_char(s, c, j) > 0 ==> s[back_char(s, c, j) - 1] != c,
        forall|k: int| back_char(s, c, j) <= k < j ==> #[trigger] s[k] == c,
    decreases j,
{
    if j > 0 && s[j - 1] == c {
        lemma_skipped_back_to(s, c, j - 1);
    }
}

/// What is left of a text after a character was taken off its ends does not begin or end with it, and a
/// text that has it at neither end stays. What is taken off is that character alone.
pub proof fn law_taken_off_both_ends(s: Seq<char>, c: char)
    ensures
        trim_matches_text(s, c).len() > 0 ==> trim_matches_text(s, c)[0] != c && trim_matches_text(
            s,
            c,
        ).last() != c,
        s.len() > 0 && s[0] != c && s.last() != c ==> trim_matches_text(s, c) == s,
        exists|i: int, j: int|
            0 <= i <= j <= s.len() && trim_matches_text(s, c) == #[trigger] s.subrange(i, j)
                && forall|k: int| 0 <= k < i || j <= k < s.len() ==> #[trigger] s[k] == c,
{
    lemma_skipped_to(s, c, 0);
    let i = skip_char(s, c, 0);
    let rest = s.subrange(i, s.len() as int);
    lemma_skipped_back_to(rest, c, rest.len() as int);
    let n = back_char(rest, c, rest.len() as int);
    assert(rest.subrange(0, n) =~= s.subrange(i, i + n));
    assert forall|k: int| 0 <= k < i || i + n <= k < s.len() implies #[trigger] s[k] == c by {
        if k >= i {
            assert(rest[k - i] == c);
        }
    }
    if n > 0 {
        assert(rest[0] == s[i]);
    }
    if s.len() > 0 && s[0] != c && s.last() != c {
        assert(i == 0);
        assert(rest =~= s);
        if n < s.len() {
            assert(s[s.len() - 1] == c);
        }
        assert(s.subrange(0, n) =~= s);
    }
}

proof fn lemma_joined_front(a: Seq<char>, v: Seq<Seq<char>>, sep: Seq<char>)
    requires
        v.len() > 0,
    ensures
        joined(seq![a] + v, sep) == a + sep + joined(v, sep),
    decreases v.len(),
{
    let all = seq![a] + v;
    assert(all.drop_last() =~= seq![a] + v.drop_last());
    assert(all.last() == v.last());
    if v.len() == 1 {
        assert(all.drop_last() =~= seq![a]);
        assert(joined(all.drop_last(), sep) == a);
    } else {
        lemma_joined_front(a, v.drop_last(), sep);
        assert(a + sep + joined(v.drop_last(), sep) + sep + v.last() =~= a + sep + (joined(
            v.drop_last(),
            sep,
        ) + sep + v.last()));
    }
}

proof fn lemma_pieces_joined(s: Seq<char>, c: char, i: int)
    requires
        0 <= i <= s.len(),
    ensures
        pieces_from(s, c, i).len() > 0,
        joined(pieces_from(s, c, i), seq![c]) == s.subrange(i, s.len() as int),
    decreases s.len() - i,
{
    lemma_char_from(s, c, i);
    if let Some(k) = char_from(s, c, i) {
        lemma_pieces_joined(s, c, k + 1);
        lemma_joined_front(s.subrange(i, k), pieces_from(s, c, k + 1), seq![c]);
        assert(s.subrange(i, k) + seq![c] + s.subrange(k + 1, s.len() as int) =~= s.subrange(
            i,
            s.len() as int,
        ));
    }
}

/// The pieces of a text with the character between them again are the text.
pub proof fn law_pieces_are_joined_back(s: Seq<char>, c: char)
    ensures
        joined(pieces(s, c), seq![c]) == s,
{
    lemma_pieces_joined(s, c, 0);
    assert(s.subrange(0, s.len() as int) =~= s);
}

} // verus!
