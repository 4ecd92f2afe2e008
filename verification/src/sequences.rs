//! Sequences: their definition and the calls of `nextval` in a statement.
use vstd::prelude::*;
use vstd::string::*;

use crate::catalog::{above_max, advanced_value, below_min, lookup, saved, Catalog, CatalogState};
use crate::catalog_types::{SequenceDef, SequenceView};
use crate::clauses::expr_to_i64;
use crate::dup::views;
use crate::functions::before;
use crate::numbers::{decimal_signed, parsed_signed, print_i64};
use crate::outcome::{answered, checked, Check, CheckView};
use crate::text::{
    byte_slice, concat3, contains, contains_seq, cuttable, find_byte_offset, index_of, lower_text,
    slice_bytes, sliceable, tail_at, trim_matches_text, utf8,
};

verus! {

// ---------------------------------------------------------------------------
// Definition
// ---------------------------------------------------------------------------

/// An option of `CREATE SEQUENCE`, with the text of its expression.
pub enum SequenceOption {
    StartWith(String),
    IncrementBy(String),
    MinValue(String),
    MaxValue(String),
    Other,
}

/// What a [`SequenceOption`] says.
pub enum SequenceOptionView {
    StartWith(Seq<char>),
    IncrementBy(Seq<char>),
    MinValue(Seq<char>),
    MaxValue(Seq<char>),
    Other,
}

impl View for SequenceOption {
    type V = SequenceOptionView;

    open spec fn view(&self) -> SequenceOptionView {
        match self {
            SequenceOption::StartWith(e) => SequenceOptionView::StartWith(e@),
            SequenceOption::IncrementBy(e) => SequenceOptionView::IncrementBy(e@),
            SequenceOption::MinValue(e) => SequenceOptionView::MinValue(e@),
            SequenceOption::MaxValue(e) => SequenceOptionView::MaxValue(e@),
            SequenceOption::Other => SequenceOptionView::Other,
        }
    }
}

/// The expression of an option that has one.
pub open spec fn option_expr(o: SequenceOptionView) -> Option<Seq<char>> {
    match o {
        SequenceOptionView::StartWith(e) => Some(e),
        SequenceOptionView::IncrementBy(e) => Some(e),
        SequenceOptionView::MinValue(e) => Some(e),
        SequenceOptionView::MaxValue(e) => Some(e),
        SequenceOptionView::Other => None,
    }
}

/// The sequence that starts at 1 and counts up by 1 without bounds.
pub open spec fn plain_sequence(name: Seq<char>) -> SequenceView {
    SequenceView { name, current_value: 1, increment: 1, min_value: None, max_value: None }
}

/// A sequence with one option set to a number.
pub open spec fn with_option(s: SequenceView, o: SequenceOptionView, n: i64) -> SequenceView {
    match o {
        SequenceOptionView::StartWith(_) => SequenceView { current_value: n, ..s },
        SequenceOptionView::IncrementBy(_) => SequenceView { increment: n, ..s },
        SequenceOptionView::MinValue(_) => SequenceView { min_value: Some(n), ..s },
        SequenceOptionView::MaxValue(_) => SequenceView { max_value: Some(n), ..s },
        SequenceOptionView::Other => s,
    }
}

/// The sequence that the first `n` options describe, or the complaint about the first expression
/// that is not a number.
pub open spec fn described_sequence(
    name: Seq<char>,
    options: Seq<SequenceOptionView>,
    n: nat,
) -> Result<SequenceView, Seq<char>>
    decreases n,
{
    if n == 0 || n > options.len() {
        Ok(plain_sequence(name))
    } else {
        match described_sequence(name, options, (n - 1) as nat) {
            Err(e) => Err(e),
            Ok(s) => match option_expr(options[n - 1]) {
                None => Ok(s),
                Some(e) => match parsed_signed(trim_matches_text(e, '\'')) {
                    None => Err("Expected integer expression, got '"@ + e + "'"@),
                    Some(v) => Ok(with_option(s, options[n - 1], v as i64)),
                },
            },
        }
    }
}

/// Whether the error of the first `i` options is that of all of them.
proof fn lemma_first_error(name: Seq<char>, options: Seq<SequenceOptionView>, i: nat, n: nat)
    requires
        i <= n <= options.len(),
        described_sequence(name, options, i) is Err,
    ensures
        described_sequence(name, options, n) == described_sequence(name, options, i),
    decreases n - i,
{
    if i < n {
        lemma_first_error(name, options, i, (n - 1) as nat);
    }
}

fn read_options(name: &str, options: &Vec<SequenceOption>) -> (r: Result<SequenceDef, String>)
    ensures
        match r {
            Ok(s) => described_sequence(name@, views(options@), options@.len()) == Ok::<
                SequenceView,
                Seq<char>,
            >(s@),
            Err(e) => described_sequence(name@, views(options@), options@.len()) == Err::<
                SequenceView,
                Seq<char>,
            >(e@),
        },
{
    let mut s = SequenceDef {
        name: name.to_owned(),
        current_value: 1,
        increment: 1,
        min_value: None,
        max_value: None,
    };
    let ghost ov = views(options@);
    let n: usize = options.len();
    let mut i: usize = 0;
    while i < n
        invariant
            i <= n,
            n == options@.len(),
            ov == views(options@),
            ov.len() == n,
            described_sequence(name@, ov, i as nat) == Ok::<SequenceView, Seq<char>>(s@),
        decreases n - i,
    {
        assert(ov[i as int] == options@[i as int]@);
        let expr: Option<&String> = match &options[i] {
            SequenceOption::StartWith(e) => Some(e),
            SequenceOption::IncrementBy(e) => Some(e),
            SequenceOption::MinValue(e) => Some(e),
            SequenceOption::MaxValue(e) => Some(e),
            SequenceOption::Other => None,
        };
        if let Some(e) = expr {
            match expr_to_i64(e) {
                Err(m) => {
                    proof {
                        assert(described_sequence(name@, ov, (i + 1) as nat) == Err::<
                            SequenceView,
                            Seq<char>,
                        >(m@));
                        lemma_first_error(name@, ov, (i + 1) as nat, n as nat);
                    }
                    return Err(m);
                },
                Ok(v) => match &options[i] {
                    SequenceOption::StartWith(_) => {
                        s.current_value = v;
                    },
                    SequenceOption::IncrementBy(_) => {
                        s.increment = v;
                    },
                    SequenceOption::MinValue(_) => {
                        s.min_value = Some(v);
                    },
                    SequenceOption::MaxValue(_) => {
                        s.max_value = Some(v);
                    },
                    SequenceOption::Other => {},
                },
            }
        }
        i += 1;
    }
    Ok(s)
}

/// What `CREATE SEQUENCE` comes to.
pub open spec fn create_sequence_check(
    c: CatalogState,
    name: Seq<char>,
    if_not_exists: bool,
) -> Result<CheckView, Seq<char>> {
    if !c.sequences.dom().contains(name) {
        Ok(CheckView::Go("CREATE SEQUENCE \""@ + name + "\""@))
    } else if if_not_exists {
        Ok(CheckView::Done("Sequence '"@ + name + "' already exists, skipping."@))
    } else {
        Err("Sequence '"@ + name + "' already exists"@)
    }
}

/// What `DROP SEQUENCE` comes to.
pub open spec fn drop_sequence_check(
    c: CatalogState,
    name: Seq<char>,
    if_exists: bool,
) -> Result<CheckView, Seq<char>> {
    if c.sequences.dom().contains(name) {
        Ok(CheckView::Go("DROP SEQUENCE \""@ + name + "\""@))
    } else if if_exists {
        Ok(CheckView::Done("Sequence '"@ + name + "' does not exist, skipping."@))
    } else {
        Err("Sequence '"@ + name + "' does not exist"@)
    }
}

impl Catalog {
    /// What `CREATE SEQUENCE` comes to.
    pub fn check_create_sequence(&self, name: &str, if_not_exists: bool) -> (r: Result<
        Check,
        String,
    >)
        requires
            self.wf(),
        ensures
            checked(r) == create_sequence_check(self@, name@, if_not_exists),
    {
        if !self.sequences.contains_key(name) {
            return Ok(Check::Go(concat3("CREATE SEQUENCE \"", name, "\"")));
        }
        if if_not_exists {
            Ok(Check::Done(concat3("Sequence '", name, "' already exists, skipping.")))
        } else {
            Err(concat3("Sequence '", name, "' already exists"))
        }
    }

    /// Adds the sequence that the options describe. Nothing changes where an option is not a number.
    pub fn handle_create_sequence(&mut self, name: &str, options: &Vec<SequenceOption>) -> (r:
        Result<String, String>)
        requires
            old(self).wf(),
        ensures
            final(self).wf(),
            match described_sequence(name@, views(options@), options@.len()) {
                Err(e) => {
                    &&& answered(r) == Err::<Seq<char>, Seq<char>>(e)
                    &&& *final(self) == *old(self)
                },
                Ok(s) => {
                    &&& answered(r) == Ok::<Seq<char>, Seq<char>>(
                        "Sequence '"@ + name@ + "' created."@,
                    )
                    &&& saved(old(self), final(self))
                    &&& final(self)@ == (CatalogState {
                        sequences: old(self)@.sequences.insert(name@, s),
                        ..old(self)@
                    })
                },
            },
    {
        match read_options(name, options) {
            Err(e) => Err(e),
            Ok(s) => {
                proof {
                    lemma_described_name(name@, views(options@), options@.len());
                }
                self.add_sequence(s);
                Ok(concat3("Sequence '", name, "' created."))
            },
        }
    }

    /// What `DROP SEQUENCE` comes to.
    pub fn check_drop_sequence(&self, name: &str, if_exists: bool) -> (r: Result<Check, String>)
        requires
            self.wf(),
        ensures
            checked(r) == drop_sequence_check(self@, name@, if_exists),
    {
        if self.sequences.contains_key(name) {
            return Ok(Check::Go(concat3("DROP SEQUENCE \"", name, "\"")));
        }
        if if_exists {
            Ok(Check::Done(concat3("Sequence '", name, "' does not exist, skipping.")))
        } else {
            Err(concat3("Sequence '", name, "' does not exist"))
        }
    }

    /// Removes a sequence.
    pub fn handle_drop_sequence(&mut self, name: &str) -> (r: String)
        requires
            old(self).wf(),
        ensures
            final(self).wf(),
            r@ == "Sequence '"@ + name@ + "' dropped."@,
            saved(old(self), final(self)),
            final(self)@ == (CatalogState {
                sequences: old(self)@.sequences.remove(name@),
                ..old(self)@
            }),
    {
        self.remove_sequence(name);
        concat3("Sequence '", name, "' dropped.")
    }
}

proof fn lemma_described_name(name: Seq<char>, options: Seq<SequenceOptionView>, n: nat)
    ensures
        described_sequence(name, options, n) matches Ok(s) ==> s.name == name,
    decreases n,
{
    if n > 0 && n <= options.len() {
        lemma_described_name(name, options, (n - 1) as nat);
    }
}

// ---------------------------------------------------------------------------
// nextval
// ---------------------------------------------------------------------------

/// The catalog after a sequence has moved on, and the value that it gave or the complaint.
pub open spec fn advanced(c: CatalogState, name: Seq<char>) -> (
    CatalogState,
    Result<i64, Seq<char>>,
) {
    match lookup(c.sequences, name) {
        None => (c, Err("Sequence '"@ + name + "' does not exist"@)),
        Some(seq) => if below_min(seq) {
            (c, Err("Sequence '"@ + name + "' reached minimum value"@))
        } else if above_max(seq) {
            (c, Err("Sequence '"@ + name + "' reached maximum value"@))
        } else {
            (
                CatalogState {
                    sequences: c.sequences.insert(
                        name,
                        SequenceView { current_value: advanced_value(seq) as i64, ..seq },
                    ),
                    ..c
                },
                Ok(seq.current_value),
            )
        },
    }
}

/// What comes of a statement whose calls of `nextval` are replaced by values.
pub struct NextvalView {
    /// The catalog afterwards.
    pub state: CatalogState,
    /// How many values were drawn.
    pub drawn: nat,
    /// The statement, or the complaint of a sequence.
    pub text: Option<Result<Seq<char>, Seq<char>>>,
}

/// The statement from byte offset `at` on with its calls of `nextval` replaced one after the other.
/// The text of an outcome is `None` where the statement cannot be cut at a place that was found in
/// its lower-case form.
pub open spec fn nextval_from(c: CatalogState, sql: Seq<char>, at: int) -> NextvalView
    decreases utf8(sql).len() - at,
{
    let stuck = NextvalView { state: c, drawn: 0, text: None };
    if !cuttable(sql, at) {
        stuck
    } else {
        let rest = tail_at(sql, at);
        let done = NextvalView { state: c, drawn: 0, text: Some(Ok(rest)) };
        match index_of(utf8(lower_text(rest)), utf8("nextval('"@)) {
            None => done,
            Some(rel) => {
                let start = at + rel;
                let from = start + utf8("nextval('"@).len();
                if !cuttable(sql, from) {
                    stuck
                } else {
                    match index_of(utf8(lower_text(tail_at(sql, from))), utf8("')"@)) {
                        None => done,
                        Some(len) => {
                            let to = from + len;
                            let next = to + utf8("')"@).len();
                            if !sliceable(sql, at, start) || !sliceable(sql, from, to) || !(at
                                < next) || !cuttable(sql, next) {
                                stuck
                            } else {
                                let (c2, v) = advanced(c, byte_slice(sql, from, to));
                                match v {
                                    Err(e) => NextvalView {
                                        state: c2,
                                        drawn: 0,
                                        text: Some(Err(e)),
                                    },
                                    Ok(n) => {
                                        let r = nextval_from(c2, sql, next);
                                        NextvalView {
                                            state: r.state,
                                            drawn: r.drawn + 1,
                                            text: before(
                                                byte_slice(sql, at, start) + decimal_signed(
                                                    n as int,
                                                ),
                                                r.text,
                                            ),
                                        }
                                    },
                                }
                            }
                        },
                    }
                }
            },
        }
    }
}

/// The statement with its calls of `nextval` replaced by the values of the sequences.
pub open spec fn nextval_outcome(c: CatalogState, sql: Seq<char>) -> NextvalView {
    if contains_seq(lower_text(sql), "nextval('"@) {
        nextval_from(c, sql, 0)
    } else {
        NextvalView { state: c, drawn: 0, text: Some(Ok(sql)) }
    }
}

impl Catalog {
    /// Replaces the calls `nextval('name')` of a statement by the values that the sequences give, one
    /// after the other. A sequence that has moved on stays there, though a later one complains. An
    /// outer `None` where the statement cannot be cut at a place that was found in its lower-case
    /// form.
    pub fn expand_nextval_calls(&mut self, sql: &str) -> (r: Option<Result<String, String>>)
        requires
            old(self).wf(),
        ensures
            final(self).wf(),
            final(self)@ == nextval_outcome(old(self)@, sql@).state,
            final(self).in_transaction == old(self).in_transaction,
            final(self).dirty == (old(self).dirty || (!old(self).in_transaction
                && nextval_outcome(old(self)@, sql@).drawn > 0)),
            crate::functions::text_outcome(r, nextval_outcome(old(self)@, sql@).text),
    {
        let lowered = sql.to_lowercase();
        if !contains(&lowered, "nextval('") {
            return Some(Ok(sql.to_owned()));
        }
        let ghost goal = nextval_from(old(self)@, sql@, 0);
        let ghost mut count: nat = 0;
        let call_len: usize = "nextval('".as_bytes().len();
        let close_len: usize = "')".as_bytes().len();
        let end: usize = sql.as_bytes().len();
        let mut out = String::new();
        let mut at: usize = 0;
        assert(before(out@, goal.text) == goal.text) by {
            if goal.text is Some && goal.text->0 is Ok {
                assert(out@ + goal.text->0->Ok_0 == goal.text->0->Ok_0);
            }
        }
        loop
            invariant
                self.wf(),
                end == utf8(sql@).len(),
                at <= end,
                call_len == utf8("nextval('"@).len(),
                close_len == utf8("')"@).len(),
                self.in_transaction == old(self).in_transaction,
                self.dirty == (old(self).dirty || (!old(self).in_transaction && count > 0)),
                goal == nextval_from(old(self)@, sql@, 0),
                contains_seq(lower_text(sql@), "nextval('"@),
                goal.state == nextval_from(self@, sql@, at as int).state,
                goal.drawn == nextval_from(self@, sql@, at as int).drawn + count,
                goal.text == before(out@, nextval_from(self@, sql@, at as int).text),
            decreases end - at,
        {
            let ghost here = nextval_from(self@, sql@, at as int);
            let ghost done = out@;
            let rest = match slice_bytes(sql, at, end) {
                None => {
                    return None;
                },
                Some(t) => t,
            };
            let rel: usize = match find_byte_offset(&rest.to_lowercase(), "nextval('") {
                None => {
                    out.append(&rest);
                    return Some(Ok(out));
                },
                Some(k) => k,
            };
            if rel > end || at > end - rel || call_len > end || at + rel > end - call_len {
                return None;
            }
            let start: usize = at + rel;
            let from: usize = start + call_len;
            let tail = match slice_bytes(sql, from, end) {
                None => {
                    return None;
                },
                Some(t) => t,
            };
            let len: usize = match find_byte_offset(&tail.to_lowercase(), "')") {
                None => {
                    out.append(&rest);
                    return Some(Ok(out));
                },
                Some(k) => k,
            };
            if len > end || from > end - len || close_len > end || from + len > end - close_len {
                return None;
            }
            let to: usize = from + len;
            let next: usize = to + close_len;
            if next <= at {
                return None;
            }
            match (
                slice_bytes(sql, at, start),
                slice_bytes(sql, from, to),
                slice_bytes(sql, next, end),
            ) {
                (Some(head), Some(name), Some(_)) => {
                    let ghost before_state = self@;
                    match self.next_sequence_value(&name) {
                        Err(e) => {
                            return Some(Err(e));
                        },
                        Ok(n) => {
                            out.append(&head);
                            let digits = print_i64(n);
                            out.append(&digits);
                            proof {
                                count = count + 1;
                                let after = nextval_from(self@, sql@, next as int);
                                assert(advanced(before_state, name@).0 == self@);
                                assert(here.text == before(head@ + digits@, after.text));
                                if after.text is Some && after.text->0 is Ok {
                                    let t = after.text->0->Ok_0;
                                    assert(done + (head@ + digits@ + t) == out@ + t);
                                }
                            }
                        },
                    }
                    at = next;
                },
                _ => {
                    return None;
                },
            }
        }
    }
}

// ---------------------------------------------------------------------------
// Laws
// ---------------------------------------------------------------------------

/// Drawing from a sequence gives its present value, and the next draw gives that value plus the
/// increment, as long as the sequence stays within 64 bits and its bounds.
pub proof fn law_draws_differ_by_increment(c: CatalogState, name: Seq<char>)
    requires
        advanced(c, name).1 is Ok,
        advanced(advanced(c, name).0, name).1 is Ok,
        i64::MIN <= c.sequences[name].current_value + c.sequences[name].increment <= i64::MAX,
    ensures
        advanced(advanced(c, name).0, name).1->Ok_0 == advanced(c, name).1->Ok_0
            + c.sequences[name].increment,
{
}

/// A draw changes no other sequence, and nothing else in the catalog.
pub proof fn law_draw_touches_one_sequence(c: CatalogState, name: Seq<char>, other: Seq<char>)
    requires
        other != name,
    ensures
        lookup(advanced(c, name).0.sequences, other) == lookup(c.sequences, other),
        advanced(c, name).0 == (CatalogState { sequences: advanced(c, name).0.sequences, ..c }),
{
}

/// A bounded sequence never gives up its bounds: after a draw its value lies within them.
pub proof fn law_draw_keeps_bounds(c: CatalogState, name: Seq<char>)
    requires
        advanced(c, name).1 is Ok,
    ensures
        ({
            let s = advanced(c, name).0.sequences[name];
            &&& s.min_value matches Some(min) ==> min <= s.current_value
            &&& s.max_value matches Some(max) ==> s.current_value <= max
        }),
{
}

/// `CREATE` goes ahead exactly where there is nothing of the name, and `DROP` exactly where there is. The
/// other one is refused, or answered at once where the statement allows for it.
pub proof fn law_create_or_drop(c: CatalogState, name: Seq<char>, if_not_exists: bool, if_exists: bool)
    ensures
        create_sequence_check(c, name, if_not_exists) matches Ok(CheckView::Go(_)) <==> !c.sequences.dom().contains(name),
        drop_sequence_check(c, name, if_exists) matches Ok(CheckView::Go(_)) <==> c.sequences.dom().contains(name),
        create_sequence_check(c, name, if_not_exists) is Err <==> c.sequences.dom().contains(name) && !if_not_exists,
        drop_sequence_check(c, name, if_exists) is Err <==> !c.sequences.dom().contains(name) && !if_exists,
{
}

/// A sequence begins at 1 and goes in steps of 1 without bounds, where no option says otherwise. An option
/// with a number sets what it is named after and leaves the rest.
pub proof fn law_options_set_what_they_name(
    name: Seq<char>,
    options: Seq<SequenceOptionView>,
    n: nat,
    v: i64,
)
    requires
        n < options.len(),
        described_sequence(name, options, n) is Ok,
        option_expr(options[n as int]) is Some ==> parsed_signed(
            trim_matches_text(option_expr(options[n as int])->0, '\''),
        ) == Some(v as int),
    ensures
        ({
            let s = described_sequence(name, options, n)->Ok_0;
            &&& described_sequence(name, options, n + 1) matches Ok(t)
            &&& t.name == s.name
            &&& t.current_value == if options[n as int] is StartWith {
                v
            } else {
                s.current_value
            }
            &&& t.increment == if options[n as int] is IncrementBy {
                v
            } else {
                s.increment
            }
            &&& t.min_value == if options[n as int] is MinValue {
                Some(v)
            } else {
                s.min_value
            }
            &&& t.max_value == if options[n as int] is MaxValue {
                Some(v)
            } else {
                s.max_value
            }
        }),
{
}

/// The first number that is drawn of a sequence is the one that it begins with, and the next one is the
/// increment away, where that does not pass a bound.
pub proof fn law_first_draws(c: CatalogState, name: Seq<char>, s: SequenceView)
    requires
        lookup(c.sequences, name) == Some(s),
        i64::MIN <= s.current_value + s.increment <= i64::MAX,
        s.min_value matches Some(min) ==> min <= s.current_value + s.increment,
        s.max_value matches Some(max) ==> s.current_value + s.increment <= max,
    ensures
        advanced(c, name).1 == Ok::<i64, Seq<char>>(s.current_value),
        lookup(advanced(c, name).0.sequences, name) matches Some(t) && t.current_value
            == s.current_value + s.increment,
        plain_sequence(name).current_value == 1,
        plain_sequence(name).increment == 1,
        plain_sequence(name).min_value is None,
        plain_sequence(name).max_value is None,
{
}

/// A draw that would pass a bound is refused and changes nothing.
pub proof fn law_bounds_are_not_passed(c: CatalogState, name: Seq<char>, s: SequenceView)
    requires
        lookup(c.sequences, name) == Some(s),
        i64::MIN <= s.current_value + s.increment <= i64::MAX,
        (s.min_value matches Some(min) && s.current_value + s.increment < min) || (s.max_value
            matches Some(max) && s.current_value + s.increment > max),
    ensures
        advanced(c, name).1 is Err,
        advanced(c, name).0 == c,
{
}

/// A text that draws from no sequence stays as it is, and no sequence changes.
pub proof fn law_text_without_draws_stays(c: CatalogState, sql: Seq<char>)
    requires
        !contains_seq(lower_text(sql), "nextval('"@),
    ensures
        nextval_outcome(c, sql).state == c,
        nextval_outcome(c, sql).drawn == 0,
        nextval_outcome(c, sql).text == Some(Ok::<Seq<char>, Seq<char>>(sql)),
{
}

} // verus!
