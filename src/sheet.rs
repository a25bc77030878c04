//! Sheets of grid data, and the records built from their rows.
use vstd::prelude::*;
use crate::cell::{resolve, CellData};
use crate::error::{ErrorView, ExportError};
use crate::record::{all_null, insert_entry, texts_view, Entries, FieldValue, FieldView, Record};
use crate::text::{column_name, normalize_column_name};

verus! {

#[derive(Clone, Debug, PartialEq, Eq)]
pub struct SheetProperties {
    pub title: String,
}

/// One row of cells, one per column position; trailing cells may be missing.
#[derive(Clone, Debug, PartialEq, Eq)]
pub struct RowData {
    pub values: Vec<CellData>,
}

/// The rows of a sheet; the first one holds the column titles.
#[derive(Clone, Debug, PartialEq, Eq)]
pub struct GridData {
    pub row_data: Vec<RowData>,
}

#[derive(Clone, Debug, PartialEq, Eq)]
pub struct Sheet {
    pub properties: SheetProperties,
    /// The grid payloads; the first is the sheet's grid.
    pub data: Vec<GridData>,
}

/// A parsed spreadsheet: its sheets in order.
#[derive(Clone, Debug, PartialEq, Eq)]
pub struct Spreadsheet {
    pub sheets: Vec<Sheet>,
}

impl Spreadsheet {
    pub fn sheets(&self) -> (r: &[Sheet])
        ensures
            r@ == self.sheets@,
    {
        self.sheets.as_slice()
    }

    /// The first sheet with this title.
    pub fn find_sheet_by_title(&self, title: &str) -> (r: Option<&Sheet>)
        ensures
            match r {
                Some(sheet) => exists|i: int|
                    0 <= i < self.sheets@.len() && self.sheets@[i] == *sheet && sheet.title_view() == title@
                        && forall|j: int| 0 <= j < i ==> self.sheets@[j].title_view() != title@,
                None => forall|j: int| 0 <= j < self.sheets@.len() ==> self.sheets@[j].title_view() != title@,
            },
    {
        let mut i: usize = 0;
        while i < self.sheets.len()
            invariant
                i <= self.sheets@.len(),
                forall|j: int| 0 <= j < i ==> self.sheets@[j].title_view() != title@,
            decreases self.sheets@.len() - i,
        {
            if self.sheets[i].title().eq(title) {
                return Some(&self.sheets[i]);
            }
            i += 1;
        }
        None
    }
}

/// The resolved values of `cells`, or the first error among them.
pub open spec fn resolve_all(cells: Seq<CellData>) -> Result<Seq<Option<Seq<char>>>, ErrorView>
    decreases cells.len(),
{
    if cells.len() == 0 {
        Ok(Seq::empty())
    } else {
        match resolve_all(cells.drop_last()) {
            Err(e) => Err(e),
            Ok(vs) => match resolve(cells.last()) {
                Err(e) => Err(e),
                Ok(v) => Ok(vs.push(v)),
            },
        }
    }
}

/// The normalized titles of the header cells, or the first error among them.
pub open spec fn titles_of(cells: Seq<CellData>) -> Result<Seq<Seq<char>>, ErrorView>
    decreases cells.len(),
{
    if cells.len() == 0 {
        Ok(Seq::empty())
    } else {
        match titles_of(cells.drop_last()) {
            Err(e) => Err(e),
            Ok(ts) => match resolve(cells.last()) {
                Err(e) => Err(e),
                Ok(None) => Err(ErrorView::MissingColumnTitle { column: (cells.len() - 1) as nat }),
                Ok(Some(t)) => Ok(ts.push(column_name(t))),
            },
        }
    }
}

/// The key of column `i`: its title, or the empty name past the last title.
pub open spec fn key_at(titles: Seq<Seq<char>>, i: int) -> Seq<char> {
    if i < titles.len() {
        titles[i]
    } else {
        Seq::empty()
    }
}

/// The value of column `i`: its text, or null where the cell resolved to
/// nothing or is missing.
pub open spec fn value_at(vals: Seq<Option<Seq<char>>>, i: int) -> FieldView {
    if i < vals.len() {
        match vals[i] {
            Some(t) => FieldView::Text(t),
            None => FieldView::Null,
        }
    } else {
        FieldView::Null
    }
}

/// The record of the first `n` columns of a row, each inserted in turn.
pub open spec fn row_prefix(titles: Seq<Seq<char>>, vals: Seq<Option<Seq<char>>>, n: nat) -> Entries
    decreases n,
{
    if n == 0 {
        Seq::empty()
    } else {
        insert_entry(row_prefix(titles, vals, (n - 1) as nat), key_at(titles, n - 1), value_at(vals, n - 1))
    }
}

pub open spec fn max_len(a: nat, b: nat) -> nat {
    if a < b {
        b
    } else {
        a
    }
}

/// The record of a row: every column title and every cell of the row.
pub open spec fn row_record(titles: Seq<Seq<char>>, vals: Seq<Option<Seq<char>>>) -> Entries {
    row_prefix(titles, vals, max_len(titles.len(), vals.len()))
}

/// The records of `rows` under `titles`, rows whose values are all null left
/// out, or the first error.
pub open spec fn records_of(titles: Seq<Seq<char>>, rows: Seq<RowData>) -> Result<Seq<Entries>, ErrorView>
    decreases rows.len(),
{
    if rows.len() == 0 {
        Ok(Seq::empty())
    } else {
        match records_of(titles, rows.drop_last()) {
            Err(e) => Err(e),
            Ok(rs) => match resolve_all(rows.last().values@) {
                Err(e) => Err(e),
                Ok(vals) => {
                    let r = row_record(titles, vals);
                    if all_null(r) {
                        Ok(rs)
                    } else {
                        Ok(rs.push(r))
                    }
                },
            },
        }
    }
}

pub open spec fn options_view(v: Seq<Option<String>>) -> Seq<Option<Seq<char>>> {
    v.map_values(|o: Option<String>| match o {
        Some(s) => Some(s@),
        None => None,
    })
}

pub open spec fn records_view(v: Seq<Record>) -> Seq<Entries> {
    v.map_values(|r: Record| r@)
}

/// An error among the first `n` header cells is the error of the whole row.
proof fn lemma_titles_error_stays(cells: Seq<CellData>, n: nat)
    requires
        n <= cells.len(),
        titles_of(cells.take(n as int)) is Err,
    ensures
        titles_of(cells) == titles_of(cells.take(n as int)),
    decreases cells.len() - n,
{
    if n == cells.len() {
        assert(cells.take(n as int) =~= cells);
    } else {
        assert(cells.take(n as int + 1).drop_last() =~= cells.take(n as int));
        lemma_titles_error_stays(cells, n + 1);
    }
}

/// An error among the first `n` cells is the error of the whole row.
proof fn lemma_resolve_error_stays(cells: Seq<CellData>, n: nat)
    requires
        n <= cells.len(),
        resolve_all(cells.take(n as int)) is Err,
    ensures
        resolve_all(cells) == resolve_all(cells.take(n as int)),
    decreases cells.len() - n,
{
    if n == cells.len() {
        assert(cells.take(n as int) =~= cells);
    } else {
        assert(cells.take(n as int + 1).drop_last() =~= cells.take(n as int));
        lemma_resolve_error_stays(cells, n + 1);
    }
}

/// An error among the first `n` rows is the error of the whole sheet.
proof fn lemma_records_error_stays(titles: Seq<Seq<char>>, rows: Seq<RowData>, n: nat)
    requires
        n <= rows.len(),
        records_of(titles, rows.take(n as int)) is Err,
    ensures
        records_of(titles, rows) == records_of(titles, rows.take(n as int)),
    decreases rows.len() - n,
{
    if n == rows.len() {
        assert(rows.take(n as int) =~= rows);
    } else {
        assert(rows.take(n as int + 1).drop_last() =~= rows.take(n as int));
        lemma_records_error_stays(titles, rows, n + 1);
    }
}

/// A row whose values are all null gives a record whose values are all null.
proof fn lemma_null_values_give_null_record(titles: Seq<Seq<char>>, vals: Seq<Option<Seq<char>>>, n: nat)
    requires
        forall|i: int| 0 <= i < vals.len() ==> vals[i] is None,
    ensures
        all_null(row_prefix(titles, vals, n)),
    decreases n,
{
    if n > 0 {
        lemma_null_values_give_null_record(titles, vals, (n - 1) as nat);
        let prev = row_prefix(titles, vals, (n - 1) as nat);
        let k = key_at(titles, n - 1);
        assert(value_at(vals, n - 1) == FieldView::Null);
        crate::record::lemma_find_key(prev, k);
        match crate::record::find_key(prev, k) {
            Some(i) => {
                assert(forall|j: int| 0 <= j < prev.len() ==> prev.update(i, (k, FieldView::Null))[j].1 == FieldView::Null);
            },
            None => {
                assert(forall|j: int| 0 <= j < prev.len() + 1 ==> prev.push((k, FieldView::Null))[j].1 == FieldView::Null);
            },
        }
    }
}

/// A row whose cells all resolve to nothing adds no record, wherever it
/// stands among the data rows; so building the records of a sheet with such
/// rows gives what building them without those rows gives.
pub proof fn lemma_all_null_row_adds_nothing(
    titles: Seq<Seq<char>>,
    before: Seq<RowData>,
    row: RowData,
    after: Seq<RowData>,
)
    requires
        resolve_all(row.values@) matches Ok(vals) && forall|i: int| 0 <= i < vals.len() ==> vals[i] is None,
    ensures
        records_of(titles, before.push(row) + after) == records_of(titles, before + after),
    decreases after.len(),
{
    if after.len() == 0 {
        assert(before.push(row) + after =~= before.push(row));
        assert(before + after =~= before);
        assert(before.push(row).drop_last() =~= before);
        let vals = resolve_all(row.values@)->Ok_0;
        lemma_null_values_give_null_record(titles, vals, max_len(titles.len(), vals.len()));
    } else {
        let rest = after.drop_last();
        lemma_all_null_row_adds_nothing(titles, before, row, rest);
        assert((before.push(row) + after).drop_last() =~= before.push(row) + rest);
        assert((before + after).drop_last() =~= before + rest);
        assert((before.push(row) + after).last() == after.last());
        assert((before + after).last() == after.last());
    }
}

/// No record that the builder emits has only null values, so dropping the
/// all-null records of its output again leaves that output as it is.
pub proof fn lemma_records_not_all_null(titles: Seq<Seq<char>>, rows: Seq<RowData>)
    requires
        records_of(titles, rows) is Ok,
    ensures
        forall|i: int| 0 <= i < records_of(titles, rows)->Ok_0.len() ==> !all_null(#[trigger] records_of(titles, rows)->Ok_0[i]),
    decreases rows.len(),
{
    if rows.len() > 0 {
        lemma_records_not_all_null(titles, rows.drop_last());
    }
}

/// The resolved values of the cells of `row`.
fn resolve_row(row: &RowData) -> (r: Result<Vec<Option<String>>, ExportError>)
    ensures
        match r {
            Ok(vs) => resolve_all(row.values@) == Ok::<_, ErrorView>(options_view(vs@)),
            Err(e) => resolve_all(row.values@) == Err::<Seq<Option<Seq<char>>>, _>(e@),
        },
{
    let cells = &row.values;
    let mut vals: Vec<Option<String>> = Vec::new();
    let mut i: usize = 0;
    assert(cells@.take(0) =~= Seq::<CellData>::empty());
    assert(options_view(vals@) =~= Seq::<Option<Seq<char>>>::empty());
    while i < cells.len()
        invariant
            cells@ == row.values@,
            i <= cells@.len(),
            resolve_all(cells@.take(i as int)) == Ok::<_, ErrorView>(options_view(vals@)),
        decreases cells@.len() - i,
    {
        assert(cells@.take(i as int + 1).drop_last() =~= cells@.take(i as int));
        assert(cells@.take(i as int + 1).last() == cells@[i as int]);
        match cells[i].to_string() {
            Err(e) => {
                proof {
                    lemma_resolve_error_stays(cells@, i as nat + 1);
                }
                return Err(e);
            },
            Ok(v) => {
                let ghost prev = vals@;
                vals.push(v);
                assert(options_view(vals@) =~= options_view(prev).push(
                    match vals@.last() {
                        Some(s) => Some(s@),
                        None => None,
                    },
                ));
            },
        }
        i += 1;
    }
    assert(cells@.take(i as int) =~= cells@);
    Ok(vals)
}

/// The record of one row: each column title in turn with the value of its
/// cell; missing cells are null and cells past the last title go under the
/// empty name.
fn build_record(columns: &Vec<String>, vals: &Vec<Option<String>>) -> (r: Record)
    ensures
        r@ == row_record(texts_view(columns@), options_view(vals@)),
        r.wf(),
{
    let n = if columns.len() < vals.len() {
        vals.len()
    } else {
        columns.len()
    };
    let mut rec = Record::new();
    let mut k: usize = 0;
    while k < n
        invariant
            n == max_len(columns@.len(), vals@.len()),
            k <= n,
            rec@ == row_prefix(texts_view(columns@), options_view(vals@), k as nat),
            rec.wf(),
        decreases n - k,
    {
        let key = if k < columns.len() {
            columns[k].clone()
        } else {
            String::new()
        };
        let value = if k < vals.len() {
            match &vals[k] {
                Some(s) => FieldValue::Text(s.clone()),
                None => FieldValue::Null,
            }
        } else {
            FieldValue::Null
        };
        assert(key@ == key_at(texts_view(columns@), k as int));
        assert(value@ == value_at(options_view(vals@), k as int));
        rec.insert(key, value);
        k += 1;
    }
    rec
}

impl Sheet {
    pub open spec fn title_view(&self) -> Seq<char> {
        self.properties.title@
    }

    /// The column titles of the sheet, normalized, or why there are none.
    pub open spec fn column_titles_spec(&self) -> Result<Seq<Seq<char>>, ErrorView> {
        if self.data@.len() == 0 {
            Err(ErrorView::NoGridData)
        } else if self.data@[0].row_data@.len() == 0 {
            Err(ErrorView::NoColumnTitles)
        } else {
            titles_of(self.data@[0].row_data@[0].values@)
        }
    }

    /// The rows after the header row.
    pub open spec fn data_rows(&self) -> Seq<RowData> {
        let rows = self.data@[0].row_data@;
        if rows.len() <= 1 {
            Seq::empty()
        } else {
            rows.subrange(1, rows.len() as int)
        }
    }

    /// The records of the sheet, or the first error.
    pub open spec fn records_spec(&self) -> Result<Seq<Entries>, ErrorView> {
        match self.column_titles_spec() {
            Err(e) => Err(e),
            Ok(titles) => records_of(titles, self.data_rows()),
        }
    }

    /// The sheet's display name.
    pub fn title(&self) -> (r: &str)
        ensures
            r@ == self.title_view(),
    {
        self.properties.title.as_str()
    }

    fn grid_data(&self) -> (r: Result<&GridData, ExportError>)
        ensures
            match r {
                Ok(g) => self.data@.len() > 0 && *g == self.data@[0],
                Err(e) => self.data@.len() == 0 && e@ == ErrorView::NoGridData,
            },
    {
        if self.data.len() == 0 {
            Err(ExportError::NoGridData)
        } else {
            Ok(&self.data[0])
        }
    }

    /// The titles of the header row, each normalized: ASCII letters in lower
    /// case, spaces as `_`.
    pub fn column_titles(&self) -> (r: Result<Vec<String>, ExportError>)
        ensures
            match r {
                Ok(ts) => self.column_titles_spec() == Ok::<_, ErrorView>(texts_view(ts@)),
                Err(e) => self.column_titles_spec() == Err::<Seq<Seq<char>>, _>(e@),
            },
    {
        let grid = self.grid_data()?;
        if grid.row_data.len() == 0 {
            return Err(ExportError::NoColumnTitles);
        }
        let cells = &grid.row_data[0].values;
        let mut titles: Vec<String> = Vec::new();
        let mut i: usize = 0;
        assert(cells@.take(0) =~= Seq::<CellData>::empty());
        assert(texts_view(titles@) =~= Seq::<Seq<char>>::empty());
        while i < cells.len()
            invariant
                self.data@.len() > 0,
                self.data@[0].row_data@.len() > 0,
                cells@ == self.data@[0].row_data@[0].values@,
                i <= cells@.len(),
                titles_of(cells@.take(i as int)) == Ok::<_, ErrorView>(texts_view(titles@)),
            decreases cells@.len() - i,
        {
            assert(cells@.take(i as int + 1).drop_last() =~= cells@.take(i as int));
            assert(cells@.take(i as int + 1).last() == cells@[i as int]);
            match cells[i].to_string() {
                Err(e) => {
                    proof {
                        lemma_titles_error_stays(cells@, i as nat + 1);
                    }
                    return Err(e);
                },
                Ok(None) => {
                    proof {
                        lemma_titles_error_stays(cells@, i as nat + 1);
                    }
                    return Err(ExportError::MissingColumnTitle { column: i });
                },
                Ok(Some(t)) => {
                    let ghost prev = titles@;
                    titles.push(normalize_column_name(t.as_str()));
                    assert(texts_view(titles@) =~= texts_view(prev).push(titles@.last()@));
                },
            }
            i += 1;
        }
        assert(cells@.take(i as int) =~= cells@);
        Ok(titles)
    }

    /// The data rows: every row after the header row.
    pub fn rows(&self) -> (r: Result<&[RowData], ExportError>)
        ensures
            match r {
                Ok(rows) => self.data@.len() > 0 && rows@ == self.data_rows(),
                Err(e) => self.data@.len() == 0 && e@ == ErrorView::NoGridData,
            },
    {
        let grid = self.grid_data()?;
        let n = grid.row_data.len();
        if n <= 1 {
            return Ok(&grid.row_data.as_slice()[0..0]);
        }
        Ok(&grid.row_data.as_slice()[1..n])
    }

    /// The records of the data rows, in row order; a row whose values are all
    /// null yields none.
    pub fn json_rows(&self) -> (r: Result<Vec<Record>, ExportError>)
        ensures
            match r {
                Ok(rs) => self.records_spec() == Ok::<_, ErrorView>(records_view(rs@))
                    && forall|i: int| 0 <= i < rs@.len() ==> rs@[i].wf(),
                Err(e) => self.records_spec() == Err::<Seq<Entries>, _>(e@),
            },
    {
        let columns = self.column_titles()?;
        let rows = self.rows()?;
        let ghost titles = texts_view(columns@);
        let mut out: Vec<Record> = Vec::new();
        let mut i: usize = 0;
        assert(rows@.take(0) =~= Seq::<RowData>::empty());
        assert(records_view(out@) =~= Seq::<Entries>::empty());
        while i < rows.len()
            invariant
                self.column_titles_spec() == Ok::<_, ErrorView>(titles),
                titles == texts_view(columns@),
                rows@ == self.data_rows(),
                i <= rows@.len(),
                records_of(titles, rows@.take(i as int)) == Ok::<_, ErrorView>(records_view(out@)),
                forall|j: int| 0 <= j < out@.len() ==> out@[j].wf(),
            decreases rows@.len() - i,
        {
            assert(rows@.take(i as int + 1).drop_last() =~= rows@.take(i as int));
            assert(rows@.take(i as int + 1).last() == rows@[i as int]);
            match resolve_row(&rows[i]) {
                Err(e) => {
                    proof {
                        lemma_records_error_stays(titles, rows@, i as nat + 1);
                    }
                    return Err(e);
                },
                Ok(vals) => {
                    let rec = build_record(&columns, &vals);
                    if !rec.is_all_null() {
                        let ghost prev = out@;
                        out.push(rec);
                        assert(records_view(out@) =~= records_view(prev).push(rec@));
                    }
                },
            }
            i += 1;
        }
        assert(rows@.take(i as int) =~= rows@);
        Ok(out)
    }
}

} // verus!
