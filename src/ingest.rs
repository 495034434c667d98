//! Reading records: classifies each parsed line, keeps the map records in
//! order, and gathers the sorted union of their keyword keys.

use vstd::prelude::*;
use crate::order::{lemma_lex_total, lemma_lex_transitive, lex_less, str_less};
use crate::text::{digits, push_digits, push_str};
use crate::value::{render, rendered, Value};

verus! {

/// What the parser reported for a line it could not read: the byte offsets
/// of the offending text and a message.
#[derive(Debug)]
pub struct ParseFailure {
    pub lo: usize,
    pub hi: usize,
    pub message: String,
}

/// One input line, as the parser saw it.
#[derive(Debug)]
pub enum Line {
    /// The line holds no value (it is empty, or holds only separators).
    Blank,
    Parsed(Value),
    Failed(ParseFailure),
}

/// A line that could not be parsed, with its 0-based number.
#[derive(Debug)]
pub struct ParseError {
    pub linenum: usize,
    pub cause: ParseFailure,
}

/// A warning about input that is skipped.
#[derive(Debug)]
pub enum Diagnostic {
    /// The line's value is not a map.
    NonMap { line: usize },
    /// A map key on the line is not a keyword; `key` is its rendering.
    NonKeywordKey { line: usize, key: String },
}

/// The entries of a map record.
pub type Entries = Vec<(Value, Value)>;

/// The name of a keyword, or nothing for any other value.
pub open spec fn keyword_name(v: Value) -> Option<Seq<char>> {
    match v {
        Value::Keyword(k) => Some(k@),
        _ => None,
    }
}

/// Some entry of the map has the keyword `k` as its key.
pub open spec fn has_keyword(es: Seq<(Value, Value)>, k: Seq<char>) -> bool {
    exists|j: int| 0 <= j < es.len() && #[trigger] keyword_name(es[j].0) == Some(k)
}

/// Some record has the keyword `k` as a key.
pub open spec fn keyed(records: Seq<Entries>, k: Seq<char>) -> bool {
    exists|r: int| 0 <= r < records.len() && #[trigger] has_keyword(records[r]@, k)
}

/// The texts of a sequence of strings.
pub open spec fn names(cols: Seq<String>) -> Seq<Seq<char>> {
    cols.map_values(|s: String| s@)
}

/// Each name comes strictly before every later one.
pub open spec fn strictly_sorted(ns: Seq<Seq<char>>) -> bool {
    forall|i: int, j: int| 0 <= i < j < ns.len() ==> lex_less(#[trigger] ns[i], #[trigger] ns[j])
}

/// The keys of the map that are not keywords, in entry order.
pub open spec fn non_keyword_keys(es: Seq<(Value, Value)>) -> Seq<Value>
    decreases es.len(),
{
    if es.len() == 0 {
        Seq::empty()
    } else if keyword_name(es.last().0) is Some {
        non_keyword_keys(es.drop_last())
    } else {
        non_keyword_keys(es.drop_last()).push(es.last().0)
    }
}

/// The diagnostics `ds` report, for line `line`, the keys `keys` one by one.
pub open spec fn reports_keys(ds: Seq<Diagnostic>, line: usize, keys: Seq<Value>) -> bool {
    &&& ds.len() == keys.len()
    &&& forall|i: int|
        0 <= i < ds.len() ==> (#[trigger] ds[i] matches Diagnostic::NonKeywordKey { line: l, key }
            && l == line && key@ == rendered(keys[i]))
}

/// Inserts `k` into the strictly sorted `cols`, unless it is there already.
pub fn insert_column(cols: &mut Vec<String>, k: String)
    requires
        strictly_sorted(names(old(cols)@)),
    ensures
        strictly_sorted(names(final(cols)@)),
        forall|n: Seq<char>|
            names(final(cols)@).contains(n) <==> (names(old(cols)@).contains(n) || n == k@),
{
    let ghost before = names(cols@);
    let mut i: usize = 0;
    while i < cols.len() && str_less(&cols[i], &k)
        invariant
            i <= cols.len(),
            cols@ == old(cols)@,
            before == names(cols@),
            strictly_sorted(before),
            forall|j: int| 0 <= j < i ==> lex_less(#[trigger] before[j], k@),
        decreases cols.len() - i,
    {
        i = i + 1;
    }
    if i < cols.len() && cols[i] == k {
        assert forall|n: Seq<char>| names(cols@).contains(n) <==> (before.contains(n) || n == k@) by {
            if n == k@ {
                assert(before[i as int] == n);
            }
        }
        return;
    }
    proof {
        assert forall|j: int| i <= j < before.len() implies lex_less(k@, #[trigger] before[j]) by {
            assert(before[i as int] != k@);
            assert(!lex_less(before[i as int], k@));
            lemma_lex_total(before[i as int], k@);
            if j > i {
                lemma_lex_transitive(k@, before[i as int], before[j]);
            }
        }
    }
    cols.insert(i, k);
    let ghost after = names(cols@);
    assert(after =~= before.insert(i as int, k@));
    assert forall|a: int, b: int| 0 <= a < b < after.len() implies lex_less(
        #[trigger] after[a],
        #[trigger] after[b],
    ) by {
        if b < i {
        } else if a < i && b == i {
        } else if a < i {
            assert(after[b] == before[b - 1]);
        } else if a == i {
            assert(after[b] == before[b - 1]);
        } else {
            assert(after[a] == before[a - 1]);
            assert(after[b] == before[b - 1]);
        }
    }
    assert forall|n: Seq<char>| after.contains(n) <==> (before.contains(n) || n == k@) by {
        if after.contains(n) {
            let p = choose|p: int| 0 <= p < after.len() && after[p] == n;
            if p < i {
                assert(before[p] == n);
            } else if p > i {
                assert(before[p - 1] == n);
            }
        }
        if before.contains(n) {
            let p = choose|p: int| 0 <= p < before.len() && before[p] == n;
            if p < i {
                assert(after[p] == n);
            } else {
                assert(after[p + 1] == n);
            }
        }
        if n == k@ {
            assert(after[i as int] == n);
        }
    }
}

/// What has been read so far: the map records in input order, the sorted
/// union of their keyword keys, the warnings, and the number of the next
/// line.
#[derive(Debug)]
pub struct Ingestor {
    pub records: Vec<Entries>,
    pub columns: Vec<String>,
    pub diagnostics: Vec<Diagnostic>,
    pub next_line: usize,
}

impl Ingestor {
    /// The columns are strictly sorted, and a name is a column exactly when
    /// some record has it as a keyword key.
    pub open spec fn wf(&self) -> bool {
        &&& strictly_sorted(names(self.columns@))
        &&& forall|k: Seq<char>| #[trigger]
            names(self.columns@).contains(k) <==> keyed(self.records@, k)
    }

    /// Nothing read yet.
    pub fn new() -> (r: Ingestor)
        ensures
            r.wf(),
            r.records@.len() == 0,
            r.columns@.len() == 0,
            r.diagnostics@.len() == 0,
            r.next_line == 0,
    {
        let r = Ingestor {
            records: Vec::new(),
            columns: Vec::new(),
            diagnostics: Vec::new(),
            next_line: 0,
        };
        assert(names(r.columns@) =~= Seq::<Seq<char>>::empty());
        r
    }

    /// Takes the next line: a parse failure ends the reading with an error
    /// naming the line; a blank line is passed over; a map becomes a record;
    /// any other value is reported and dropped.
    pub fn feed(&mut self, line: Line) -> (r: Result<(), ParseError>)
        requires
            old(self).wf(),
            old(self).next_line < usize::MAX,
        ensures
            final(self).wf(),
            match line {
                Line::Failed(cause) => {
                    &&& r is Err
                    &&& r->Err_0.linenum == old(self).next_line
                    &&& r->Err_0.cause == cause
                    &&& final(self).records == old(self).records
                    &&& final(self).columns == old(self).columns
                    &&& final(self).diagnostics == old(self).diagnostics
                    &&& final(self).next_line == old(self).next_line
                },
                Line::Blank => {
                    &&& r is Ok
                    &&& final(self).records == old(self).records
                    &&& final(self).columns == old(self).columns
                    &&& final(self).diagnostics == old(self).diagnostics
                    &&& final(self).next_line == old(self).next_line + 1
                },
                Line::Parsed(Value::Dict(es)) => {
                    &&& r is Ok
                    &&& final(self).records@ == old(self).records@.push(es)
                    &&& forall|k: Seq<char>| #[trigger]
                        names(final(self).columns@).contains(k) <==> (names(
                            old(self).columns@,
                        ).contains(k) || has_keyword(es@, k))
                    &&& final(self).diagnostics@.len() >= old(self).diagnostics@.len()
                    &&& final(self).diagnostics@.subrange(0, old(self).diagnostics@.len() as int)
                        == old(self).diagnostics@
                    &&& reports_keys(
                        final(self).diagnostics@.subrange(
                            old(self).diagnostics@.len() as int,
                            final(self).diagnostics@.len() as int,
                        ),
                        old(self).next_line,
                        non_keyword_keys(es@),
                    )
                    &&& final(self).next_line == old(self).next_line + 1
                },
                Line::Parsed(_) => {
                    &&& r is Ok
                    &&& final(self).records == old(self).records
                    &&& final(self).columns == old(self).columns
                    &&& final(self).diagnostics@ == old(self).diagnostics@.push(
                        (Diagnostic::NonMap { line: old(self).next_line }),
                    )
                    &&& final(self).next_line == old(self).next_line + 1
                },
            },
    {
        let n = self.next_line;
        match line {
            Line::Failed(cause) => Err(ParseError { linenum: n, cause }),
            Line::Blank => {
                self.next_line = n + 1;
                Ok(())
            },
            Line::Parsed(value) => {
                match value {
                    Value::Dict(entries) => {
                        self.add_record(entries);
                    },
                    _ => {
                        self.diagnostics.push(Diagnostic::NonMap { line: n });
                    },
                }
                self.next_line = n + 1;
                Ok(())
            },
        }
    }

    /// Keeps a map record read on line `self.next_line`: its keyword keys
    /// join the columns and each other key is reported.
    fn add_record(&mut self, entries: Entries)
        requires
            old(self).wf(),
        ensures
            final(self).wf(),
            final(self).records@ == old(self).records@.push(entries),
            forall|k: Seq<char>| #[trigger]
                names(final(self).columns@).contains(k) <==> (names(old(self).columns@).contains(k)
                    || has_keyword(entries@, k)),
            final(self).diagnostics@.len() >= old(self).diagnostics@.len(),
            final(self).diagnostics@.subrange(0, old(self).diagnostics@.len() as int)
                == old(self).diagnostics@,
            reports_keys(
                final(self).diagnostics@.subrange(
                    old(self).diagnostics@.len() as int,
                    final(self).diagnostics@.len() as int,
                ),
                old(self).next_line,
                non_keyword_keys(entries@),
            ),
            final(self).next_line == old(self).next_line,
    {
        let line = self.next_line;
        let ghost start = self.diagnostics@;
        let ghost cols0 = names(self.columns@);
        let mut i: usize = 0;
        while i < entries.len()
            invariant
                i <= entries.len(),
                strictly_sorted(names(self.columns@)),
                forall|k: Seq<char>|
                    names(self.columns@).contains(k) <==> (cols0.contains(k) || has_keyword(
                        entries@.take(i as int),
                        k,
                    )),
                self.diagnostics@.len() >= start.len(),
                self.diagnostics@.subrange(0, start.len() as int) == start,
                reports_keys(
                    self.diagnostics@.subrange(start.len() as int, self.diagnostics@.len() as int),
                    line,
                    non_keyword_keys(entries@.take(i as int)),
                ),
                self.records == old(self).records,
                self.next_line == line,
                cols0 == names(old(self).columns@),
                start == old(self).diagnostics@,
            decreases entries.len() - i,
        {
            let ghost cols_before = names(self.columns@);
            let ghost diags_before = self.diagnostics@;
            let ghost pre = entries@.take(i as int);
            let ghost next = entries@.take(i + 1);
            assert(next.drop_last() =~= pre);
            assert(next.last() == entries@[i as int]);
            match &entries[i].0 {
                Value::Keyword(k) => {
                    insert_column(&mut self.columns, k.clone());
                    assert(non_keyword_keys(next) == non_keyword_keys(pre));
                },
                other => {
                    let key = render(other);
                    self.diagnostics.push(Diagnostic::NonKeywordKey { line, key });
                    assert(self.diagnostics@.subrange(0, start.len() as int) =~= start);
                    let ghost added = self.diagnostics@.subrange(
                        start.len() as int,
                        self.diagnostics@.len() as int,
                    );
                    assert(added =~= diags_before.subrange(
                        start.len() as int,
                        diags_before.len() as int,
                    ).push(self.diagnostics@.last()));
                },
            }
            let ghost cols_after = names(self.columns@);
            assert forall|k: Seq<char>| has_keyword(next, k) <==> (has_keyword(pre, k)
                || keyword_name(entries@[i as int].0) == Some(k)) by {
                if has_keyword(next, k) {
                    let j = choose|j: int| 0 <= j < next.len() && #[trigger] keyword_name(next[j].0) == Some(k);
                    if j < i {
                        assert(keyword_name(pre[j].0) == Some(k));
                    }
                }
                if has_keyword(pre, k) {
                    let j = choose|j: int| 0 <= j < pre.len() && #[trigger] keyword_name(pre[j].0) == Some(k);
                    assert(keyword_name(next[j].0) == Some(k));
                }
                if keyword_name(entries@[i as int].0) == Some(k) {
                    assert(keyword_name(next[i as int].0) == Some(k));
                }
            }
            assert forall|k: Seq<char>| #[trigger] cols_after.contains(k) <==> (cols0.contains(k)
                || has_keyword(next, k)) by {
                assert(cols_before.contains(k) <==> (cols0.contains(k) || has_keyword(pre, k)));
                if keyword_name(entries@[i as int].0) == Some(k) {
                    assert(cols_after.contains(k));
                }
            }
            i = i + 1;
        }
        assert(entries@.take(entries.len() as int) =~= entries@);
        let ghost recs0 = self.records@;
        let ghost es = entries@;
        let ghost cols1 = names(self.columns@);
        assert forall|k: Seq<char>| #[trigger] cols1.contains(k) <==> (cols0.contains(k)
            || has_keyword(es, k)) by {
            assert(names(self.columns@).contains(k) <==> (cols0.contains(k) || has_keyword(
                entries@.take(i as int),
                k,
            )));
        }
        self.records.push(entries);
        assert forall|k: Seq<char>| #[trigger]
            names(self.columns@).contains(k) <==> keyed(self.records@, k) by {
            assert(cols1.contains(k) <==> (cols0.contains(k) || has_keyword(es, k)));
            assert(cols0.contains(k) <==> keyed(recs0, k));
            if keyed(recs0, k) {
                let r = choose|r: int| 0 <= r < recs0.len() && #[trigger] has_keyword(recs0[r]@, k);
                assert(self.records@[r] == recs0[r]);
            }
            if has_keyword(es, k) {
                assert(self.records@[recs0.len() as int]@ == es);
            }
            if keyed(self.records@, k) {
                let r = choose|r: int|
                    0 <= r < self.records@.len() && #[trigger] has_keyword(self.records@[r]@, k);
                if r < recs0.len() {
                    assert(self.records@[r] == recs0[r]);
                }
            }
        }
    }
}

/// The text of a parse error: the line number, the parser's offsets and its
/// message.
pub open spec fn error_text(e: ParseError) -> Seq<char> {
    digits(e.linenum as nat) + " ("@ + digits(e.cause.lo as nat) + ", "@ + digits(e.cause.hi as nat)
        + "): "@ + e.cause.message@ + " "@
}

/// The text of a warning.
pub open spec fn diagnostic_text(d: Diagnostic) -> Seq<char> {
    match d {
        Diagnostic::NonMap { line } => "Skipping non map on line "@ + digits(line as nat),
        Diagnostic::NonKeywordKey { key, .. } => "Skipping non keyword key: "@ + key@,
    }
}

impl ParseError {
    /// A short description of the kind of error.
    pub fn description(&self) -> (r: &'static str)
        ensures
            r@ == "Error while reading EDN"@,
    {
        "Error while reading EDN"
    }

    /// The error as text: `<line> (<lo>, <hi>): <message> `.
    pub fn message(&self) -> (r: String)
        ensures
            r@ == error_text(*self),
    {
        let mut s = String::new();
        push_digits(&mut s, self.linenum as u64);
        push_str(&mut s, " (");
        push_digits(&mut s, self.cause.lo as u64);
        push_str(&mut s, ", ");
        push_digits(&mut s, self.cause.hi as u64);
        push_str(&mut s, "): ");
        push_str(&mut s, self.cause.message.as_str());
        push_str(&mut s, " ");
        assert(s@ =~= error_text(*self));
        s
    }
}

impl Diagnostic {
    /// The warning as one line of text.
    pub fn message(&self) -> (r: String)
        ensures
            r@ == diagnostic_text(*self),
    {
        let mut s = String::new();
        match self {
            Diagnostic::NonMap { line } => {
                push_str(&mut s, "Skipping non map on line ");
                push_digits(&mut s, *line as u64);
            },
            Diagnostic::NonKeywordKey { key, .. } => {
                push_str(&mut s, "Skipping non keyword key: ");
                push_str(&mut s, key.as_str());
            },
        }
        assert(s@ =~= diagnostic_text(*self));
        s
    }
}

} // verus!
