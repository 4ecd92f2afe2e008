//! The lines of a table that is drawn with box-drawing characters.
use vstd::prelude::*;
use vstd::string::*;
use vstd::utf8::{is_ascii_chars, is_ascii_chars_encode_utf8};

use crate::numbers::{decimal, print_usize};
use crate::rounding::{
    as_double, divide_rounded, lemma_decimal_ascii, lemma_decimal_len, lemma_double_bounds, print_one_place,
    print_two_places, quotient_digits, ten_to, with_one_place, with_two_places,
};
use crate::text::{concat2, concat3, texts, utf8};

verus! {

// ---------------------------------------------------------------------------
// Numbers of rows
// ---------------------------------------------------------------------------

/// A number of rows, as people say it: thousands with one decimal place, millions with two.
pub open spec fn friendly_text(n: nat) -> Seq<char> {
    if n >= 1_000_000 {
        with_two_places(quotient_digits(n, 1_000_000, 2)) + " million"@
    } else if n >= 1_000 {
        with_one_place(quotient_digits(n, 1_000, 1)) + "K"@
    } else {
        decimal(n)
    }
}

/// A number of rows, as people say it.
pub fn friendly_row_count(n: usize) -> (r: String)
    ensures
        r@ == friendly_text(n as nat),
        is_ascii_chars(r@),
        r@.len() <= 64,
{
    let wide: u64 = n as u64;
    proof {
        reveal_with_fuel(ten_to, 42);
        lemma_double_bounds(n as nat);
        reveal_strlit(" million");
        reveal_strlit("K");
        reveal_strlit(".");
    }
    if n >= 1_000_000 {
        assert(1_000_000 <= as_double(n as nat));
        let digits: u128 = divide_rounded(wide, 1_000_000, 2);
        proof {
            lemma_decimal_len((digits / 100) as nat, 41);
        }
        concat2(&print_two_places(digits), " million")
    } else if n >= 1_000 {
        let digits: u128 = divide_rounded(wide, 1_000, 1);
        proof {
            lemma_decimal_len((digits / 10) as nat, 41);
        }
        concat2(&print_one_place(digits), "K")
    } else {
        proof {
            lemma_decimal_len(n as nat, 41);
        }
        print_usize(n)
    }
}

// ---------------------------------------------------------------------------
// Widths
// ---------------------------------------------------------------------------

/// The sum of the first `n` widths.
pub open spec fn width_sum(widths: Seq<usize>, n: nat) -> nat
    decreases n,
{
    if n == 0 || n > widths.len() {
        0
    } else {
        width_sum(widths, (n - 1) as nat) + widths[n - 1] as nat
    }
}

/// The number of characters between the outer lines of a row: each column with a space on either
/// side, and a line between two columns.
pub open spec fn inner_room(widths: Seq<usize>) -> int {
    width_sum(widths, widths.len()) + 3 * widths.len() - 1
}

pub proof fn lemma_width_sum_grows(widths: Seq<usize>, a: nat, b: nat)
    requires
        a <= b <= widths.len(),
    ensures
        width_sum(widths, a) <= width_sum(widths, b),
    decreases b,
{
    if a < b {
        lemma_width_sum_grows(widths, a, (b - 1) as nat);
    }
}

/// The number of characters between the outer lines of a row of at least one column.
pub fn inner_width(widths: &[usize]) -> (r: usize)
    requires
        widths@.len() > 0,
        inner_room(widths@) <= usize::MAX,
    ensures
        r == inner_room(widths@),
{
    let mut sum: usize = 0;
    let mut i: usize = 0;
    while i < widths.len()
        invariant
            i <= widths@.len(),
            widths@.len() > 0,
            inner_room(widths@) <= usize::MAX,
            sum == width_sum(widths@, i as nat),
        decreases widths@.len() - i,
    {
        proof {
            lemma_width_sum_grows(widths@, (i + 1) as nat, widths@.len());
        }
        sum = sum + widths[i];
        i += 1;
    }
    sum + (3 * widths.len() - 1)
}

/// What stands on the left of the footer.
pub open spec fn footer_left(total: nat, half: nat) -> Seq<char> {
    decimal(total) + " rows ("@ + friendly_text(total) + ", "@ + decimal(half * 2) + " shown)"@
}

/// What stands on the right of the footer.
pub open spec fn footer_right(num_cols: nat) -> Seq<char> {
    decimal(num_cols) + " column(s)"@
}

/// What stands on the left of the footer.
pub fn left_footer(total: usize, half: usize) -> (r: String)
    requires
        half * 2 <= usize::MAX,
    ensures
        r@ == footer_left(total as nat, half as nat),
        utf8(r@).len() <= 200,
{
    let shown: usize = half * 2;
    let count = friendly_row_count(total);
    let head = concat3(&print_usize(total), " rows (", &count);
    let text = concat3(&concat2(&head, ", "), &print_usize(shown), " shown)");
    proof {
        reveal_with_fuel(ten_to, 42);
        lemma_decimal_len(total as nat, 41);
        lemma_decimal_len(shown as nat, 41);
        reveal_strlit(" rows (");
        reveal_strlit(", ");
        reveal_strlit(" shown)");
        assert(text@ =~= footer_left(total as nat, half as nat));
        assert(is_ascii_chars(text@));
        is_ascii_chars_encode_utf8(text@);
    }
    text
}

/// What stands on the right of the footer.
pub fn right_footer(num_cols: usize) -> (r: String)
    ensures
        r@ == footer_right(num_cols as nat),
        utf8(r@).len() <= 200,
{
    let text = concat2(&print_usize(num_cols), " column(s)");
    proof {
        reveal_with_fuel(ten_to, 42);
        lemma_decimal_len(num_cols as nat, 41);
        reveal_strlit(" column(s)");
        assert(is_ascii_chars(text@));
        is_ascii_chars_encode_utf8(text@);
    }
    text
}

/// The texts of the footer are ASCII texts.
pub proof fn lemma_footer_ascii(total: nat, half: nat, num_cols: nat)
    ensures
        is_ascii_chars(footer_left(total, half)),
        is_ascii_chars(footer_right(num_cols)),
{
    let million = quotient_digits(total, 1_000_000, 2);
    let thousand = quotient_digits(total, 1_000, 1);
    lemma_decimal_ascii(total);
    lemma_decimal_ascii(half * 2);
    lemma_decimal_ascii(num_cols);
    lemma_decimal_ascii(million / 100);
    lemma_decimal_ascii(thousand / 10);
    reveal_strlit(" million");
    reveal_strlit("K");
    reveal_strlit(".");
    reveal_strlit(" rows (");
    reveal_strlit(", ");
    reveal_strlit(" shown)");
    reveal_strlit(" column(s)");
    assert(is_ascii_chars(friendly_text(total)));
}

/// The bytes that the two texts of the footer take.
pub open spec fn footer_len(total: nat, half: nat, num_cols: nat) -> nat {
    utf8(footer_left(total, half)).len() + utf8(footer_right(num_cols)).len()
}

/// The bytes that the two texts of the footer take.
pub fn footer_text_len(total: usize, half: usize, num_cols: usize) -> (r: usize)
    requires
        half * 2 <= usize::MAX,
    ensures
        r == footer_len(total as nat, half as nat, num_cols as nat),
        r <= 400,
{
    let left = left_footer(total, half);
    let right = right_footer(num_cols);
    left.as_str().as_bytes().len() + right.as_str().as_bytes().len()
}

/// The texts of a list of strings, as they stand in it.
pub fn refs(v: &[String]) -> (r: Vec<&str>)
    ensures
        r@.len() == v@.len(),
        forall|i: int| 0 <= i < r@.len() ==> (#[trigger] r@[i])@ == v@[i]@,
{
    let mut out: Vec<&str> = Vec::new();
    let mut i: usize = 0;
    while i < v.len()
        invariant
            i <= v@.len(),
            out@.len() == i,
            forall|j: int| 0 <= j < i ==> (#[trigger] out@[j])@ == v@[j]@,
        decreases v@.len() - i,
    {
        out.push(v[i].as_str());
        i += 1;
    }
    out
}

// ---------------------------------------------------------------------------
// Lines
// ---------------------------------------------------------------------------

/// The same character `n` times.
pub open spec fn repeated(c: char, n: nat) -> Seq<char> {
    Seq::new(n, |i: int| c)
}

/// The texts of a list.
pub open spec fn str_texts(v: Seq<&str>) -> Seq<Seq<char>> {
    Seq::new(v.len(), |i: int| v[i]@)
}

/// The border from column `i` on.
pub open spec fn border_from(widths: Seq<usize>, mid: char, i: int) -> Seq<char>
    decreases widths.len() - i,
{
    if i < 0 || i >= widths.len() {
        Seq::empty()
    } else {
        repeated('─', (widths[i] + 2) as nat) + (if i < widths.len() - 1 {
            seq![mid]
        } else {
            Seq::empty()
        }) + border_from(widths, mid, i + 1)
    }
}

/// A border line.
pub open spec fn border_line(widths: Seq<usize>, left: char, mid: char, right: char) -> Seq<char> {
    seq![left] + border_from(widths, mid, 0) + seq![right, '\n']
}

/// The spaces that fill a column behind a text, by the bytes of the text.
pub open spec fn padding(width: usize, val: Seq<char>) -> Seq<char> {
    repeated(
        ' ',
        if width > utf8(val).len() {
            (width - utf8(val).len()) as nat
        } else {
            0
        },
    )
}

/// The text of column `i`, or the empty text.
pub open spec fn cell_text(values: Seq<Seq<char>>, i: int) -> Seq<char> {
    if i < values.len() {
        values[i]
    } else {
        ""@
    }
}

/// The row from column `i` on.
pub open spec fn row_from(widths: Seq<usize>, values: Seq<Seq<char>>, i: int) -> Seq<char>
    decreases widths.len() - i,
{
    if i < 0 || i >= widths.len() {
        Seq::empty()
    } else {
        seq![' '] + cell_text(values, i) + padding(widths[i], cell_text(values, i)) + seq![' ', '│']
            + row_from(widths, values, i + 1)
    }
}

/// A row of texts.
pub open spec fn row_line(widths: Seq<usize>, values: Seq<Seq<char>>) -> Seq<char> {
    seq!['│'] + row_from(widths, values, 0) + seq!['\n']
}

/// The row of dots from column `i` on.
pub open spec fn dots_from(widths: Seq<usize>, i: int) -> Seq<char>
    decreases widths.len() - i,
{
    if i < 0 || i >= widths.len() {
        Seq::empty()
    } else {
        seq![' ', '·'] + repeated(
            ' ',
            if widths[i] > 1 {
                (widths[i] - 1) as nat
            } else {
                0
            },
        ) + seq![' ', '│'] + dots_from(widths, i + 1)
    }
}

/// A row of dots, which stands for rows that are left out.
pub open spec fn dot_line(widths: Seq<usize>) -> Seq<char> {
    seq!['│'] + dots_from(widths, 0) + seq!['\n']
}

/// The footer: two texts with spaces between them.
pub open spec fn footer_line(widths: Seq<usize>, left: Seq<char>, right: Seq<char>) -> Seq<char> {
    let used = 2 + utf8(left).len() + utf8(right).len();
    seq!['│', ' '] + left + repeated(
        ' ',
        if inner_room(widths) > used {
            (inner_room(widths) - used) as nat
        } else {
            0
        },
    ) + right + seq![' ', '│', '\n']
}

/// A border without columns.
pub open spec fn full_border_line(widths: Seq<usize>, left: char, right: char) -> Seq<char> {
    seq![left] + repeated('─', inner_room(widths) as nat) + seq![right, '\n']
}

/// Puts the same character `n` times behind a text.
fn push_many(out: &mut String, c: char, n: usize)
    ensures
        final(out)@ == old(out)@ + repeated(c, n as nat),
{
    let ghost start = out@;
    let mut i: usize = 0;
    assert(out@ =~= start + repeated(c, 0));
    while i < n
        invariant
            i <= n,
            start == old(out)@,
            out@ == start + repeated(c, i as nat),
        decreases n - i,
    {
        out.push(c);
        i += 1;
        assert(out@ =~= start + repeated(c, i as nat));
    }
}

/// Puts a border line behind a text.
pub fn push_border(out: &mut String, widths: &[usize], left: char, mid: char, right: char)
    requires
        forall|i: int| 0 <= i < widths@.len() ==> #[trigger] widths@[i] <= usize::MAX - 2,
    ensures
        final(out)@ == old(out)@ + border_line(widths@, left, mid, right),
{
    let ghost goal = out@ + border_line(widths@, left, mid, right);
    let ghost tail = seq![right, '\n'];
    out.push(left);
    let mut i: usize = 0;
    assert(goal =~= out@ + border_from(widths@, mid, 0) + tail);
    while i < widths.len()
        invariant
            i <= widths@.len(),
            forall|k: int| 0 <= k < widths@.len() ==> #[trigger] widths@[k] <= usize::MAX - 2,
            goal == out@ + border_from(widths@, mid, i as int) + tail,
        decreases widths@.len() - i,
    {
        let ghost before = out@;
        let w: usize = widths[i];
        push_many(out, '─', w + 2);
        if i < widths.len() - 1 {
            out.push(mid);
        }
        i += 1;
        assert(goal =~= out@ + border_from(widths@, mid, i as int) + tail);
    }
    out.push(right);
    out.push('\n');
    assert(out@ =~= goal);
}

/// Puts a row of texts behind a text.
pub fn push_row(out: &mut String, widths: &[usize], values: &[&str])
    ensures
        final(out)@ == old(out)@ + row_line(widths@, str_texts(values@)),
{
    let ghost vs = str_texts(values@);
    let ghost goal = out@ + row_line(widths@, vs);
    let ghost tail = seq!['\n'];
    out.push('│');
    let mut i: usize = 0;
    assert(goal =~= out@ + row_from(widths@, vs, 0) + tail);
    while i < widths.len()
        invariant
            i <= widths@.len(),
            vs == str_texts(values@),
            vs.len() == values@.len(),
            tail == seq!['\n'],
            goal == out@ + row_from(widths@, vs, i as int) + tail,
        decreases widths@.len() - i,
    {
        let val: &str = if i < values.len() {
            assert(vs[i as int] == values@[i as int]@);
            values[i]
        } else {
            ""
        };
        assert(val@ == cell_text(vs, i as int));
        let n: usize = val.as_bytes().len();
        let w: usize = widths[i];
        out.push(' ');
        out.append(val);
        let pad: usize = if w > n {
            w - n
        } else {
            0
        };
        push_many(out, ' ', pad);
        out.push(' ');
        out.push('│');
        i += 1;
        assert(goal =~= out@ + row_from(widths@, vs, i as int) + tail);
    }
    out.push('\n');
    assert(out@ =~= goal);
}

/// Puts a row of dots behind a text.
pub fn push_dot_row(out: &mut String, widths: &[usize])
    ensures
        final(out)@ == old(out)@ + dot_line(widths@),
{
    let ghost goal = out@ + dot_line(widths@);
    let ghost tail = seq!['\n'];
    out.push('│');
    let mut i: usize = 0;
    assert(goal =~= out@ + dots_from(widths@, 0) + tail);
    while i < widths.len()
        invariant
            i <= widths@.len(),
            tail == seq!['\n'],
            goal == out@ + dots_from(widths@, i as int) + tail,
        decreases widths@.len() - i,
    {
        let w: usize = widths[i];
        out.push(' ');
        out.push('·');
        let pad: usize = if w > 1 {
            w - 1
        } else {
            0
        };
        push_many(out, ' ', pad);
        out.push(' ');
        out.push('│');
        i += 1;
        assert(goal =~= out@ + dots_from(widths@, i as int) + tail);
    }
    out.push('\n');
    assert(out@ =~= goal);
}

/// Puts the footer behind a text.
pub fn push_footer_content(out: &mut String, widths: &[usize], left_text: &str, right_text: &str)
    requires
        widths@.len() > 0,
        inner_room(widths@) <= usize::MAX,
        2 + utf8(left_text@).len() + utf8(right_text@).len() <= usize::MAX,
    ensures
        final(out)@ == old(out)@ + footer_line(widths@, left_text@, right_text@),
{
    let ghost goal = out@ + footer_line(widths@, left_text@, right_text@);
    let total: usize = inner_width(widths);
    out.push('│');
    out.push(' ');
    out.append(left_text);
    let used: usize = 2 + left_text.as_bytes().len() + right_text.as_bytes().len();
    let pad: usize = if total > used {
        total - used
    } else {
        0
    };
    push_many(out, ' ', pad);
    out.append(right_text);
    out.push(' ');
    out.push('│');
    out.push('\n');
    assert(out@ =~= goal);
}

/// Puts a border without columns behind a text.
pub fn push_full_border(out: &mut String, widths: &[usize], left: char, right: char)
    requires
        widths@.len() > 0,
        inner_room(widths@) <= usize::MAX,
    ensures
        final(out)@ == old(out)@ + full_border_line(widths@, left, right),
{
    let ghost goal = out@ + full_border_line(widths@, left, right);
    let total: usize = inner_width(widths);
    out.push(left);
    push_many(out, '─', total);
    out.push(right);
    out.push('\n');
    assert(out@ =~= goal);
}

// ---------------------------------------------------------------------------
// Laws
// ---------------------------------------------------------------------------

/// A border line is as long as the row that it bounds.
pub proof fn law_border_width(widths: Seq<usize>, left: char, mid: char, right: char)
    requires
        widths.len() > 0,
    ensures
        border_line(widths, left, mid, right).len() == inner_room(widths) + 3,
{
    lemma_border_len(widths, mid, 0);
    assert(width_sum(widths, 0) == 0);
}

proof fn lemma_border_len(widths: Seq<usize>, mid: char, i: int)
    requires
        0 <= i <= widths.len(),
    ensures
        border_from(widths, mid, i).len() == width_sum(widths, widths.len()) - width_sum(
            widths,
            i as nat,
        ) + 3 * (widths.len() - i) - (if i < widths.len() {
            1int
        } else {
            0int
        }),
    decreases widths.len() - i,
{
    if i < widths.len() {
        lemma_border_len(widths, mid, i + 1);
    }
}

/// A row of dots is as long as every other row.
pub proof fn law_dots_width(widths: Seq<usize>)
    requires
        widths.len() > 0,
        forall|i: int| 0 <= i < widths.len() ==> #[trigger] widths[i] >= 1,
    ensures
        dot_line(widths).len() == inner_room(widths) + 3,
{
    lemma_dots_len(widths, 0);
    assert(width_sum(widths, 0) == 0);
}

proof fn lemma_dots_len(widths: Seq<usize>, i: int)
    requires
        0 <= i <= widths.len(),
        forall|k: int| 0 <= k < widths.len() ==> #[trigger] widths[k] >= 1,
    ensures
        dots_from(widths, i).len() == width_sum(widths, widths.len()) - width_sum(
            widths,
            i as nat,
        ) + 3 * (widths.len() - i),
    decreases widths.len() - i,
{
    if i < widths.len() {
        lemma_dots_len(widths, i + 1);
    }
}

/// A row of ASCII texts that fit into their columns is as long as the border, whatever the texts
/// are.
pub proof fn law_row_width(widths: Seq<usize>, values: Seq<Seq<char>>)
    requires
        widths.len() > 0,
        forall|i: int|
            0 <= i < widths.len() ==> is_ascii_chars(#[trigger] cell_text(values, i)) && cell_text(
                values,
                i,
            ).len() <= widths[i],
    ensures
        row_line(widths, values).len() == inner_room(widths) + 3,
{
    lemma_row_len(widths, values, 0);
    assert(width_sum(widths, 0) == 0);
}

proof fn lemma_row_len(widths: Seq<usize>, values: Seq<Seq<char>>, i: int)
    requires
        0 <= i <= widths.len(),
        forall|k: int|
            0 <= k < widths.len() ==> is_ascii_chars(#[trigger] cell_text(values, k)) && cell_text(
                values,
                k,
            ).len() <= widths[k],
    ensures
        row_from(widths, values, i).len() == width_sum(widths, widths.len()) - width_sum(
            widths,
            i as nat,
        ) + 3 * (widths.len() - i),
    decreases widths.len() - i,
{
    if i < widths.len() {
        lemma_row_len(widths, values, i + 1);
        is_ascii_chars_encode_utf8(cell_text(values, i));
    }
}

/// A footer that has room for its two ASCII texts is as long as every other line.
pub proof fn law_footer_width(widths: Seq<usize>, left: Seq<char>, right: Seq<char>)
    requires
        widths.len() > 0,
        is_ascii_chars(left),
        is_ascii_chars(right),
        left.len() + right.len() + 2 <= inner_room(widths),
    ensures
        footer_line(widths, left, right).len() == inner_room(widths) + 3,
        full_border_line(widths, '└', '┘').len() == inner_room(widths) + 3,
{
    is_ascii_chars_encode_utf8(left);
    is_ascii_chars_encode_utf8(right);
}

/// A count below a thousand is written out, one below a million in thousands, and any other in millions.
pub proof fn law_friendly_counts(n: nat)
    ensures
        n < 1_000 ==> friendly_text(n) == decimal(n),
        1_000 <= n < 1_000_000 ==> friendly_text(n).last() == 'K',
        n >= 1_000_000 ==> friendly_text(n).len() > 8 && friendly_text(n).subrange(
            friendly_text(n).len() - 8,
            friendly_text(n).len() as int,
        ) == " million"@,
{
    reveal_strlit("K");
    reveal_strlit(" million");
    reveal_strlit(".");
    if n >= 1_000_000 {
        let head = with_two_places(quotient_digits(n, 1_000_000, 2));
        let t = friendly_text(n);
        assert(t.subrange(t.len() - 8, t.len() as int) =~= " million"@);
    }
}

} // verus!
