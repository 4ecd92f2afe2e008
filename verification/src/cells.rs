//! Values of a row, and how they are written into a statement.
use vstd::prelude::*;
use vstd::string::*;

use crate::numbers::{
    decimal, decimal_signed, law_printed_number_reads_back, law_printed_signed_number_reads_back,
    parsed_signed, parsed_unsigned, print_i64, print_u64,
};
use crate::text::{concat3, occurs_at, replace, replaced, replaced_from, texts};

verus! {

/// A value of a row.
pub enum Cell {
    Null,
    Int(i64),
    UInt(u64),
    /// A floating-point number, as it is printed.
    Float(String),
    Bool(bool),
    Text(String),
    /// The sixteen bytes of a UUID.
    Uuid([u8; 16]),
    /// A value of another type, as it is printed for a developer.
    Other(String),
}

/// What a [`Cell`] says.
pub enum CellView {
    Null,
    Int(i64),
    UInt(u64),
    Float(Seq<char>),
    Bool(bool),
    Text(Seq<char>),
    Uuid(Seq<u8>),
    Other(Seq<char>),
}

impl View for Cell {
    type V = CellView;

    open spec fn view(&self) -> CellView {
        match self {
            Cell::Null => CellView::Null,
            Cell::Int(n) => CellView::Int(*n),
            Cell::UInt(n) => CellView::UInt(*n),
            Cell::Float(t) => CellView::Float(t@),
            Cell::Bool(b) => CellView::Bool(*b),
            Cell::Text(t) => CellView::Text(t@),
            Cell::Uuid(b) => CellView::Uuid(b@),
            Cell::Other(t) => CellView::Other(t@),
        }
    }
}

// ---------------------------------------------------------------------------
// Literals
// ---------------------------------------------------------------------------

/// A text in single quotes, with the quotes inside it doubled.
pub open spec fn quoted(t: Seq<char>) -> Seq<char> {
    "'"@ + replaced(t, "'"@, "''"@) + "'"@
}

/// A digit of a number in base sixteen.
pub open spec fn hex_char(n: int) -> char {
    if n < 10 {
        (('0' as int) + n) as char
    } else {
        (('a' as int) + n - 10) as char
    }
}

/// A byte as two digits in base sixteen.
pub open spec fn hex_byte(b: u8) -> Seq<char> {
    seq![hex_char(b as int / 16), hex_char(b as int % 16)]
}

/// The first `n` bytes of a UUID, with a dash behind the fourth, sixth, eighth and tenth where more
/// follow.
pub open spec fn uuid_text(b: Seq<u8>, n: nat) -> Seq<char>
    decreases n,
{
    if n == 0 || n > b.len() {
        Seq::empty()
    } else {
        uuid_text(b, (n - 1) as nat) + if n == 5 || n == 7 || n == 9 || n == 11 {
            "-"@
        } else {
            Seq::empty()
        } + hex_byte(b[n - 1])
    }
}

/// A value as it stands in a statement.
pub open spec fn literal(c: CellView) -> Seq<char> {
    match c {
        CellView::Null => "NULL"@,
        CellView::Int(n) => decimal_signed(n as int),
        CellView::UInt(n) => decimal(n as nat),
        CellView::Float(t) => t,
        CellView::Bool(b) => if b {
            "TRUE"@
        } else {
            "FALSE"@
        },
        CellView::Text(t) => quoted(t),
        CellView::Uuid(b) => "'"@ + uuid_text(b, 16) + "'"@,
        CellView::Other(t) => quoted(t),
    }
}

/// A value as text that is searched for words.
pub open spec fn search_text(c: CellView) -> Seq<char> {
    match c {
        CellView::Int(n) => decimal_signed(n as int),
        CellView::UInt(n) => decimal(n as nat),
        CellView::Float(t) => t,
        CellView::Bool(b) => if b {
            "true"@
        } else {
            "false"@
        },
        CellView::Text(t) => t,
        _ => Seq::empty(),
    }
}

fn quote(t: &str) -> (r: String)
    ensures
        r@ == quoted(t@),
{
    concat3("'", &replace(t, "'", "''"), "'")
}

fn hex_digit(n: u8) -> (r: char)
    requires
        n < 16,
    ensures
        r == hex_char(n as int),
{
    if n < 10 {
        (48u8 + n) as char
    } else {
        (97u8 + (n - 10)) as char
    }
}

fn write_uuid(b: &[u8; 16]) -> (r: String)
    ensures
        r@ == uuid_text(b@, 16),
{
    let mut out = String::new();
    let mut i: usize = 0;
    while i < 16
        invariant
            i <= 16,
            b@.len() == 16,
            out@ == uuid_text(b@, i as nat),
        decreases 16 - i,
    {
        let ghost done = out@;
        let x: u8 = b[i];
        if i == 4 || i == 6 || i == 8 || i == 10 {
            out.append("-");
        }
        out.push(hex_digit(x / 16));
        out.push(hex_digit(x % 16));
        proof {
            let dash = if i == 4 || i == 6 || i == 8 || i == 10 {
                "-"@
            } else {
                Seq::<char>::empty()
            };
            assert(out@ =~= done + dash + hex_byte(b@[i as int]));
        }
        i += 1;
    }
    out
}

/// A value as it stands in a statement.
pub fn sql_literal(c: &Cell) -> (r: String)
    ensures
        r@ == literal(c@),
{
    match c {
        Cell::Null => "NULL".to_owned(),
        Cell::Int(n) => print_i64(*n),
        Cell::UInt(n) => print_u64(*n),
        Cell::Float(t) => t.clone(),
        Cell::Bool(b) => if *b {
            "TRUE".to_owned()
        } else {
            "FALSE".to_owned()
        },
        Cell::Text(t) => quote(t),
        Cell::Uuid(b) => concat3("'", &write_uuid(b), "'"),
        Cell::Other(t) => quote(t),
    }
}

/// A value as text that is searched for words.
pub fn searched_text(c: &Cell) -> (r: String)
    ensures
        r@ == search_text(c@),
{
    match c {
        Cell::Int(n) => print_i64(*n),
        Cell::UInt(n) => print_u64(*n),
        Cell::Float(t) => t.clone(),
        Cell::Bool(b) => if *b {
            "true".to_owned()
        } else {
            "false".to_owned()
        },
        Cell::Text(t) => t.clone(),
        _ => String::new(),
    }
}

// ---------------------------------------------------------------------------
// Rows
// ---------------------------------------------------------------------------

/// A row of values.
pub struct Row {
    pub cells: Vec<Cell>,
}

impl View for Row {
    type V = Seq<CellView>;

    open spec fn view(&self) -> Seq<CellView> {
        crate::dup::views(self.cells@)
    }
}

/// The literals of a row.
pub open spec fn literals(row: Seq<CellView>) -> Seq<Seq<char>> {
    Seq::new(row.len(), |i: int| literal(row[i]))
}

// ---------------------------------------------------------------------------
// Laws
// ---------------------------------------------------------------------------

/// The text that a quoted text reads back as: two quotes in a row stand for one. A single quote
/// ends the text.
pub open spec fn read_quoted(s: Seq<char>, i: int) -> Option<Seq<char>>
    decreases s.len() - i,
{
    if i < 0 || i >= s.len() {
        None
    } else if s[i] != '\'' {
        match read_quoted(s, i + 1) {
            Some(t) => Some(seq![s[i]] + t),
            None => None,
        }
    } else if i + 1 < s.len() && s[i + 1] == '\'' {
        match read_quoted(s, i + 2) {
            Some(t) => Some(seq!['\''] + t),
            None => None,
        }
    } else if i + 1 == s.len() {
        Some(Seq::empty())
    } else {
        None
    }
}

proof fn lemma_read_quoted(t: Seq<char>, i: int, head: Seq<char>)
    requires
        0 <= i <= t.len(),
    ensures
        read_quoted(head + replaced_from(t, "'"@, "''"@, i) + "'"@, head.len() as int) == Some(
            t.subrange(i, t.len() as int),
        ),
    decreases t.len() - i,
{
    reveal_strlit("'");
    reveal_strlit("''");
    let rest = replaced_from(t, "'"@, "''"@, i);
    let s = head + rest + "'"@;
    let k = head.len() as int;
    if i == t.len() {
        assert(rest =~= Seq::<char>::empty());
        assert(s[k] == '\'');
        assert(t.subrange(i, t.len() as int) =~= Seq::<char>::empty());
    } else if t[i] == '\'' {
        assert(t.subrange(i, i + 1) =~= "'"@);
        assert(occurs_at(t, "'"@, i));
        let tail = replaced_from(t, "'"@, "''"@, i + 1);
        assert(rest =~= "''"@ + tail);
        let head2 = head + "''"@;
        assert(s =~= head2 + tail + "'"@);
        lemma_read_quoted(t, i + 1, head2);
        assert(s[k] == '\'' && s[k + 1] == '\'');
        assert(seq!['\''] + t.subrange(i + 1, t.len() as int) =~= t.subrange(i, t.len() as int));
    } else {
        assert(!occurs_at(t, "'"@, i)) by {
            if occurs_at(t, "'"@, i) {
                assert(t.subrange(i, i + 1)[0] == "'"@[0]);
            }
        }
        let tail = replaced_from(t, "'"@, "''"@, i + 1);
        assert(rest =~= seq![t[i]] + tail);
        let head2 = head.push(t[i]);
        assert(s =~= head2 + tail + "'"@);
        lemma_read_quoted(t, i + 1, head2);
        assert(s[k] == t[i]);
        assert(seq![t[i]] + t.subrange(i + 1, t.len() as int) =~= t.subrange(i, t.len() as int));
    }
}

/// A text that is written into a statement reads back as itself, and ends where the literal ends:
/// no quote inside it closes the literal early.
pub proof fn law_text_literal_reads_back(t: Seq<char>)
    ensures
        quoted(t).len() >= 2,
        quoted(t)[0] == '\'',
        read_quoted(quoted(t), 1) == Some(t),
{
    reveal_strlit("'");
    lemma_read_quoted(t, 0, "'"@);
    assert(t.subrange(0, t.len() as int) =~= t);
}

/// Two texts that are written the same way are the same.
pub proof fn law_text_literals_differ(a: Seq<char>, b: Seq<char>)
    requires
        literal(CellView::Text(a)) == literal(CellView::Text(b)),
    ensures
        a == b,
{
    law_text_literal_reads_back(a);
    law_text_literal_reads_back(b);
}

/// A number stands in a statement as it is read, a missing value as `NULL`, and the two truth values as two
/// words.
pub proof fn law_literals_say_the_value(n: i64, u: u64, b: bool, t: Seq<char>)
    ensures
        parsed_signed(literal(CellView::Int(n))) == Some(n as int),
        parsed_unsigned(literal(CellView::UInt(u)), u64::MAX as nat) == Some(u as nat),
        literal(CellView::Bool(b)) == if b {
            "TRUE"@
        } else {
            "FALSE"@
        },
        literal(CellView::Null) == "NULL"@,
        read_quoted(literal(CellView::Text(t)), 1) == Some(t),
        literal(CellView::Other(t)) == literal(CellView::Text(t)),
{
    law_printed_signed_number_reads_back(n);
    law_printed_number_reads_back(u as nat, u64::MAX as nat);
    law_text_literal_reads_back(t);
}

/// A word that is searched for is found in a text as it stands, in a number as it is printed, and never in
/// a missing value.
pub proof fn law_searched_texts(n: i64, t: Seq<char>)
    ensures
        search_text(CellView::Text(t)) == t,
        parsed_signed(search_text(CellView::Int(n))) == Some(n as int),
        search_text(CellView::Null).len() == 0,
{
    law_printed_signed_number_reads_back(n);
}

/// The value of a digit in base sixteen.
pub open spec fn hex_value(c: char) -> int {
    if '0' <= c <= '9' {
        c as int - '0' as int
    } else {
        c as int - 'a' as int + 10
    }
}

/// Where the two digits of a byte begin in the text of a UUID.
pub open spec fn uuid_place(i: int) -> int {
    2 * i + if i < 4 {
        0int
    } else if i < 6 {
        1
    } else if i < 8 {
        2
    } else if i < 10 {
        3
    } else {
        4
    }
}

proof fn lemma_hex_char(n: int)
    requires
        0 <= n < 16,
    ensures
        hex_value(hex_char(n)) == n,
        '0' <= hex_char(n) <= '9' || 'a' <= hex_char(n) <= 'f',
{
}

proof fn lemma_uuid_text(b: Seq<u8>, n: nat)
    requires
        n <= b.len(),
        n <= 16,
    ensures
        n > 0 ==> uuid_text(b, n).len() == uuid_place(n - 1) + 2,
        n == 0 ==> uuid_text(b, n).len() == 0,
        forall|i: int|
            0 <= i < n ==> uuid_text(b, n)[uuid_place(i)] == hex_char((#[trigger] b[i]) as int / 16)
                && uuid_text(b, n)[uuid_place(i) + 1] == hex_char(b[i] as int % 16),
        n > 4 ==> uuid_text(b, n)[8] == '-',
        n > 6 ==> uuid_text(b, n)[13] == '-',
        n > 8 ==> uuid_text(b, n)[18] == '-',
        n > 10 ==> uuid_text(b, n)[23] == '-',
    decreases n,
{
    reveal_strlit("-");
    if n > 0 {
        lemma_uuid_text(b, (n - 1) as nat);
        let rest = uuid_text(b, (n - 1) as nat);
        let whole = uuid_text(b, n);
        assert forall|i: int| 0 <= i < n implies whole[uuid_place(i)] == hex_char(
            (#[trigger] b[i]) as int / 16,
        ) && whole[uuid_place(i) + 1] == hex_char(b[i] as int % 16) by {
            if i < n - 1 {
                assert(whole[uuid_place(i)] == rest[uuid_place(i)]);
                assert(whole[uuid_place(i) + 1] == rest[uuid_place(i) + 1]);
            }
        }
    }
}

/// The text of a UUID has the digits of its bytes in their order, in five groups of 8, 4, 4, 4 and 12
/// digits with a dash between two groups.
pub proof fn law_uuid_text(b: Seq<u8>)
    requires
        b.len() == 16,
    ensures
        ({
            let t = uuid_text(b, 16);
            &&& t.len() == 36
            &&& t[8] == '-' && t[13] == '-' && t[18] == '-' && t[23] == '-'
            &&& forall|i: int|
                0 <= i < 16 ==> 16 * hex_value(t[uuid_place(i)]) + hex_value(t[uuid_place(i) + 1])
                    == #[trigger] b[i]
        }),
{
    lemma_uuid_text(b, 16);
    let t = uuid_text(b, 16);
    assert forall|i: int| 0 <= i < 16 implies 16 * hex_value(t[uuid_place(i)]) + hex_value(
        t[uuid_place(i) + 1],
    ) == #[trigger] b[i] by {
        lemma_hex_char(b[i] as int / 16);
        lemma_hex_char(b[i] as int % 16);
    }
}

} // verus!
