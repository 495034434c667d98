//! Writing the table: one header row of column names, then one row per
//! record with a cell for every column.

use vstd::prelude::*;
use crate::ingest::{has_keyword, keyed, keyword_name, names, strictly_sorted, Entries, Ingestor};
use crate::order::{lemma_lex_irreflexive, lex_less};
use crate::value::{render, rendered, Value};

verus! {

/// The value of the first entry whose key is the keyword `name`.
pub open spec fn lookup(es: Seq<(Value, Value)>, name: Seq<char>) -> Option<Value>
    decreases es.len(),
{
    if es.len() == 0 {
        None
    } else if keyword_name(es[0].0) == Some(name) {
        Some(es[0].1)
    } else {
        lookup(es.drop_first(), name)
    }
}

/// The cell of a record under column `name`: the rendering of its value
/// there, or empty text when the record has none.
pub open spec fn cell(es: Seq<(Value, Value)>, name: Seq<char>) -> Seq<char> {
    match lookup(es, name) {
        Some(v) => rendered(v),
        None => Seq::empty(),
    }
}

/// The row of a record: one cell per column, in column order.
pub open spec fn row_of(es: Seq<(Value, Value)>, cols: Seq<Seq<char>>) -> Seq<Seq<char>> {
    cols.map_values(|c: Seq<char>| cell(es, c))
}

/// The rows of all records, in record order.
pub open spec fn rows_of(records: Seq<Entries>, cols: Seq<Seq<char>>) -> Seq<Seq<Seq<char>>> {
    records.map_values(|r: Entries| row_of(r@, cols))
}

/// The texts of a table of strings.
pub open spec fn table_view(rows: Seq<Vec<String>>) -> Seq<Seq<Seq<char>>> {
    rows.map_values(|r: Vec<String>| names(r@))
}

/// The bytes that csv's writer, set to a tab delimiter, produces for one
/// record with these fields, terminator included.
pub uninterp spec fn tsv_record(fields: Seq<Seq<char>>) -> Seq<u8>;

/// The encodings of the records, one after another.
pub open spec fn tsv_records(rows: Seq<Seq<Seq<char>>>) -> Seq<u8>
    decreases rows.len(),
{
    if rows.len() == 0 {
        Seq::empty()
    } else {
        tsv_records(rows.drop_last()) + tsv_record(rows.last())
    }
}

/// Relies on csv::WriterBuilder and csv::Writer: a writer with a tab
/// delimiter over an in-memory buffer encodes one record with
/// `write_record`, and `into_inner` hands the buffer back. Writing to a
/// `Vec<u8>` never fails, and a fresh writer's first record always passes
/// the field-count check, so both calls succeed.
#[verifier::external_body]
fn encode_record(fields: &Vec<String>) -> (r: Option<Vec<u8>>)
    ensures
        r is Some,
        r matches Some(b) ==> b@ == tsv_record(names(fields@)),
{
    let mut w = csv::WriterBuilder::new().delimiter(b'\t').from_writer(Vec::new());
    w.write_record(fields).ok()?;
    w.into_inner().ok()
}

/// The cell text of a record under column `name`.
pub fn cell_text(es: &Entries, name: &String) -> (r: String)
    ensures
        r@ == cell(es@, name@),
{
    let mut i: usize = 0;
    assert(es@.skip(0) =~= es@);
    while i < es.len()
        invariant
            i <= es.len(),
            lookup(es@, name@) == lookup(es@.skip(i as int), name@),
        decreases es.len() - i,
    {
        assert(es@.skip(i as int)[0] == es@[i as int]);
        let hit = match &es[i].0 {
            Value::Keyword(k) => k.eq(name),
            _ => false,
        };
        assert(hit == (keyword_name(es@[i as int].0) == Some(name@)));
        if hit {
            return render(&es[i].1);
        }
        assert(es@.skip(i as int).drop_first() =~= es@.skip(i + 1));
        i = i + 1;
    }
    String::new()
}

/// Projects each record onto the columns: one row per record, in order,
/// each with exactly one cell per column.
pub fn project(columns: &Vec<String>, records: &Vec<Entries>) -> (rows: Vec<Vec<String>>)
    ensures
        table_view(rows@) == rows_of(records@, names(columns@)),
{
    let ghost cols = names(columns@);
    let mut table: Vec<Vec<String>> = Vec::new();
    let mut i: usize = 0;
    while i < records.len()
        invariant
            i <= records.len(),
            cols == names(columns@),
            table@.len() == i,
            table_view(table@) == rows_of(records@.take(i as int), cols),
        decreases records.len() - i,
    {
        let mut row: Vec<String> = Vec::new();
        let mut j: usize = 0;
        while j < columns.len()
            invariant
                i < records.len(),
                j <= columns.len(),
                cols == names(columns@),
                row@.len() == j,
                names(row@) == row_of(records@[i as int]@, cols.take(j as int)),
            decreases columns.len() - j,
        {
            let c = cell_text(&records[i], &columns[j]);
            let ghost before = row@;
            row.push(c);
            proof {
                let want = row_of(records@[i as int]@, cols.take(j + 1));
                assert(cols.take(j + 1)[j as int] == columns@[j as int]@);
                assert forall|k: int| 0 <= k < want.len() implies names(row@)[k] == want[k] by {
                    if k < j {
                        assert(row@[k] == before[k]);
                        assert(names(before)[k] == row_of(records@[i as int]@, cols.take(j as int))[k]);
                        assert(cols.take(j + 1)[k] == cols.take(j as int)[k]);
                    }
                }
                assert(names(row@) =~= want);
            }
            j = j + 1;
        }
        assert(cols.take(columns.len() as int) =~= cols);
        let ghost before = table@;
        table.push(row);
        proof {
            let want = rows_of(records@.take(i + 1), cols);
            assert forall|k: int| 0 <= k < want.len() implies table_view(table@)[k] == want[k] by {
                if k < i {
                    assert(table@[k] == before[k]);
                    assert(table_view(before)[k] == rows_of(records@.take(i as int), cols)[k]);
                    assert(records@.take(i + 1)[k] == records@.take(i as int)[k]);
                } else {
                    assert(records@.take(i + 1)[k] == records@[i as int]);
                }
            }
            assert(table_view(table@) =~= want);
        }
        i = i + 1;
    }
    assert(records@.take(records.len() as int) =~= records@);
    table
}

/// Encodes the header and the rows as tab-separated text.
pub fn encode_table(header: &Vec<String>, rows: &Vec<Vec<String>>) -> (r: Vec<u8>)
    ensures
        r@ == tsv_records(seq![names(header@)] + table_view(rows@)),
{
    let ghost all = seq![names(header@)] + table_view(rows@);
    let mut out = match encode_record(header) {
        Some(b) => b,
        None => Vec::new(),
    };
    assert(all.take(1).drop_last() =~= Seq::<Seq<Seq<char>>>::empty());
    assert(all.take(1).last() == names(header@));
    assert(tsv_records(Seq::<Seq<Seq<char>>>::empty()) == Seq::<u8>::empty());
    assert(out@ =~= tsv_records(all.take(1)));
    let mut i: usize = 0;
    while i < rows.len()
        invariant
            i <= rows.len(),
            all == seq![names(header@)] + table_view(rows@),
            out@ == tsv_records(all.take(i + 1)),
        decreases rows.len() - i,
    {
        let mut bytes = match encode_record(&rows[i]) {
            Some(b) => b,
            None => Vec::new(),
        };
        let ghost prev = out@;
        out.append(&mut bytes);
        assert(all.take(i + 2).drop_last() =~= all.take(i + 1));
        assert(all.take(i + 2).last() == all[i + 1]);
        assert(all[i + 1] == names(rows@[i as int]@));
        assert(out@ =~= tsv_records(all.take(i + 2)));
        i = i + 1;
    }
    assert(all.take(rows.len() + 1) =~= all);
    out
}

/// Every keyword key that some record has stands in the header, exactly
/// once, and the header is in strictly increasing lexicographic order; no
/// other name stands there.
pub proof fn lemma_header_lists_each_key_once(ing: Ingestor, k: Seq<char>)
    requires
        ing.wf(),
    ensures
        strictly_sorted(names(ing.columns@)),
        keyed(ing.records@, k) <==> names(ing.columns@).contains(k),
        forall|i: int, j: int|
            0 <= i < names(ing.columns@).len() && 0 <= j < names(ing.columns@).len()
                && names(ing.columns@)[i] == k && names(ing.columns@)[j] == k ==> i == j,
{
    let ns = names(ing.columns@);
    assert(names(ing.columns@).contains(k) <==> keyed(ing.records@, k));
    assert forall|i: int, j: int|
        0 <= i < ns.len() && 0 <= j < ns.len() && ns[i] == k && ns[j] == k implies i == j by {
        if i != j {
            lemma_lex_irreflexive(k);
            if i < j {
                assert(lex_less(ns[i], ns[j]));
            } else {
                assert(lex_less(ns[j], ns[i]));
            }
        }
    }
}

/// Every row has exactly as many cells as the header has columns.
pub proof fn lemma_rows_match_header(records: Seq<Entries>, cols: Seq<Seq<char>>)
    ensures
        rows_of(records, cols).len() == records.len(),
        forall|r: int| 0 <= r < records.len() ==> (#[trigger] rows_of(records, cols)[r]).len() == cols.len(),
{
}

/// A record without the keyword `name` as a key has an empty cell under it.
pub proof fn lemma_missing_column_is_empty(es: Seq<(Value, Value)>, name: Seq<char>)
    requires
        !has_keyword(es, name),
    ensures
        cell(es, name) == Seq::<char>::empty(),
    decreases es.len(),
{
    if es.len() > 0 {
        assert(keyword_name(es[0].0) != Some(name));
        assert forall|j: int| 0 <= j < es.drop_first().len() implies #[trigger] keyword_name(
            es.drop_first()[j].0,
        ) != Some(name) by {
            assert(es.drop_first()[j] == es[j + 1]);
        }
        lemma_missing_column_is_empty(es.drop_first(), name);
    }
}

/// A map entry whose key is not a keyword adds no column and changes no
/// cell, wherever it stands among the entries.
pub proof fn lemma_non_keyword_entry_is_inert(
    es: Seq<(Value, Value)>,
    i: int,
    e: (Value, Value),
    name: Seq<char>,
)
    requires
        0 <= i <= es.len(),
        keyword_name(e.0) is None,
    ensures
        has_keyword(es.insert(i, e), name) == has_keyword(es, name),
        cell(es.insert(i, e), name) == cell(es, name),
{
    let ins = es.insert(i, e);
    if has_keyword(ins, name) {
        let j = choose|j: int| 0 <= j < ins.len() && #[trigger] keyword_name(ins[j].0) == Some(name);
        if j < i {
            assert(keyword_name(es[j].0) == Some(name));
        } else {
            assert(j != i);
            assert(keyword_name(es[j - 1].0) == Some(name));
        }
    }
    if has_keyword(es, name) {
        let j = choose|j: int| 0 <= j < es.len() && #[trigger] keyword_name(es[j].0) == Some(name);
        if j < i {
            assert(keyword_name(ins[j].0) == Some(name));
        } else {
            assert(keyword_name(ins[j + 1].0) == Some(name));
        }
    }
    lemma_lookup_skips_entry(es, i, e, name);
}

proof fn lemma_lookup_skips_entry(es: Seq<(Value, Value)>, i: int, e: (Value, Value), name: Seq<char>)
    requires
        0 <= i <= es.len(),
        keyword_name(e.0) is None,
    ensures
        lookup(es.insert(i, e), name) == lookup(es, name),
    decreases i,
{
    let ins = es.insert(i, e);
    if i == 0 {
        assert(ins[0] == e);
        assert(ins.drop_first() =~= es);
    } else {
        assert(ins[0] == es[0]);
        if keyword_name(es[0].0) != Some(name) {
            assert(ins.drop_first() =~= es.drop_first().insert(i - 1, e));
            lemma_lookup_skips_entry(es.drop_first(), i - 1, e, name);
        }
    }
}

impl Ingestor {
    /// The header row: the column names in order.
    pub fn header(&self) -> (r: Vec<String>)
        ensures
            names(r@) == names(self.columns@),
    {
        let mut names_out: Vec<String> = Vec::new();
        let mut j: usize = 0;
        while j < self.columns.len()
            invariant
                j <= self.columns@.len(),
                names_out@.len() == j,
                names(names_out@) == names(self.columns@).take(j as int),
            decreases self.columns.len() - j,
        {
            let ghost before = names_out@;
            names_out.push(self.columns[j].clone());
            proof {
                let want = names(self.columns@).take(j + 1);
                assert forall|k: int| 0 <= k < want.len() implies names(names_out@)[k] == want[k] by {
                    if k < j {
                        assert(names_out@[k] == before[k]);
                        assert(names(before)[k] == names(self.columns@).take(j as int)[k]);
                    }
                }
                assert(names(names_out@) =~= want);
            }
            j = j + 1;
        }
        assert(names(self.columns@).take(self.columns.len() as int) =~= names(self.columns@));
        names_out
    }

    /// The rows of the records read so far.
    pub fn rows(&self) -> (r: Vec<Vec<String>>)
        ensures
            table_view(r@) == rows_of(self.records@, names(self.columns@)),
    {
        project(&self.columns, &self.records)
    }

    /// The whole table as tab-separated text: the header row, then one row
    /// per record.
    pub fn emit(&self) -> (r: Vec<u8>)
        ensures
            r@ == tsv_records(
                seq![names(self.columns@)] + rows_of(self.records@, names(self.columns@)),
            ),
    {
        let header = self.header();
        let rows = self.rows();
        encode_table(&header, &rows)
    }
}

} // verus!
