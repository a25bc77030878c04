//! The dataset: every sheet of a spreadsheet as records, keyed by title and
//! kept in title order.
use vstd::prelude::*;
use crate::error::{ErrorView, ExportError};
use crate::record::{Entries, Record};
use crate::sheet::{records_view, Sheet, Spreadsheet};
use crate::text::{char_seq_lt, lemma_char_seq_lt_total, lemma_char_seq_lt_transitive, title_lt};

verus! {

/// One sheet as records.
#[derive(Clone, Debug, PartialEq, Eq)]
pub struct JsonSheet {
    pub title: String,
    pub rows: Vec<Record>,
}

/// The view of one sheet of a dataset: its title and its records.
pub type SheetEntries = (Seq<char>, Seq<Entries>);

/// The view of a dataset: its sheets in order.
pub type DatasetView = Seq<SheetEntries>;

impl View for JsonSheet {
    type V = SheetEntries;

    open spec fn view(&self) -> SheetEntries {
        (self.title@, records_view(self.rows@))
    }
}

impl JsonSheet {
    pub open spec fn wf(&self) -> bool {
        forall|i: int| 0 <= i < self.rows@.len() ==> self.rows@[i].wf()
    }
}

/// The first position of a sheet titled `title`, if any.
pub open spec fn find_sheet(ds: DatasetView, title: Seq<char>) -> Option<int>
    decreases ds.len(),
{
    if ds.len() == 0 {
        None
    } else {
        match find_sheet(ds.drop_last(), title) {
            Some(i) => Some(i),
            None => if ds.last().0 == title {
                Some(ds.len() - 1)
            } else {
                None
            },
        }
    }
}

/// The number of leading sheets whose titles come before `title`.
pub open spec fn first_not_below(ds: DatasetView, title: Seq<char>) -> nat
    decreases ds.len(),
{
    if ds.len() == 0 {
        0
    } else if char_seq_lt(ds[0].0, title) {
        1 + first_not_below(ds.drop_first(), title)
    } else {
        0
    }
}

/// `ds` with the records under the sheet's title replaced, or with the
/// sheet inserted where its title sorts.
pub open spec fn put_sheet(ds: DatasetView, sheet: SheetEntries) -> DatasetView {
    let p = first_not_below(ds, sheet.0) as int;
    if p < ds.len() && ds[p].0 == sheet.0 {
        ds.update(p, sheet)
    } else {
        ds.insert(p, sheet)
    }
}

/// The titles are in strictly increasing `String` order, as the keys of an
/// ordered map.
pub open spec fn titles_sorted(ds: DatasetView) -> bool {
    forall|i: int, j: int| 0 <= i < j < ds.len() ==> char_seq_lt(ds[i].0, ds[j].0)
}

/// Where every sheet before `i` sorts before `title` and the sheet at `i`
/// (if any) does not, `i` is the position that `put_sheet` uses.
proof fn lemma_first_not_below(ds: DatasetView, title: Seq<char>, i: int)
    requires
        0 <= i <= ds.len(),
        forall|j: int| 0 <= j < i ==> char_seq_lt(ds[j].0, title),
        i < ds.len() ==> !char_seq_lt(ds[i].0, title),
    ensures
        first_not_below(ds, title) == i,
    decreases i,
{
    if i > 0 {
        assert(forall|j: int| 0 <= j < ds.len() - 1 ==> ds.drop_first()[j] == ds[j + 1]);
        lemma_first_not_below(ds.drop_first(), title, i - 1);
    }
}

/// A dataset whose titles are those of a sorted one, position by position,
/// is sorted.
pub proof fn lemma_same_titles_stay_sorted(ds: DatasetView, other: DatasetView)
    requires
        titles_sorted(ds),
        other.len() == ds.len(),
        forall|j: int| 0 <= j < ds.len() ==> other[j].0 == ds[j].0,
    ensures
        titles_sorted(other),
{
    assert forall|i: int, j: int| 0 <= i < j < other.len() implies char_seq_lt(other[i].0, other[j].0) by {
        assert(other[i].0 == ds[i].0);
        assert(other[j].0 == ds[j].0);
    }
}

/// The dataset of `sheets`, each turned into records and put in place by
/// title in turn, or the first
/// error.
pub open spec fn dataset_of(sheets: Seq<Sheet>) -> Result<DatasetView, ErrorView>
    decreases sheets.len(),
{
    if sheets.len() == 0 {
        Ok(Seq::empty())
    } else {
        match dataset_of(sheets.drop_last()) {
            Err(e) => Err(e),
            Ok(ds) => match sheets.last().records_spec() {
                Err(e) => Err(e),
                Ok(rs) => Ok(put_sheet(ds, (sheets.last().title_view(), rs))),
            },
        }
    }
}

/// `find_sheet` finds the first position that holds the title.
pub proof fn lemma_find_sheet(ds: DatasetView, title: Seq<char>)
    ensures
        match find_sheet(ds, title) {
            Some(i) => 0 <= i < ds.len() && ds[i].0 == title && forall|j: int| 0 <= j < i ==> ds[j].0 != title,
            None => forall|j: int| 0 <= j < ds.len() ==> ds[j].0 != title,
        },
    decreases ds.len(),
{
    if ds.len() > 0 {
        lemma_find_sheet(ds.drop_last(), title);
        assert(forall|j: int| 0 <= j < ds.len() - 1 ==> ds.drop_last()[j] == ds[j]);
    }
}

/// An error among the first `n` sheets is the error of the whole spreadsheet.
proof fn lemma_dataset_error_stays(sheets: Seq<Sheet>, n: nat)
    requires
        n <= sheets.len(),
        dataset_of(sheets.take(n as int)) is Err,
    ensures
        dataset_of(sheets) == dataset_of(sheets.take(n as int)),
    decreases sheets.len() - n,
{
    if n == sheets.len() {
        assert(sheets.take(n as int) =~= sheets);
    } else {
        assert(sheets.take(n as int + 1).drop_last() =~= sheets.take(n as int));
        lemma_dataset_error_stays(sheets, n + 1);
    }
}

/// Every sheet of a spreadsheet as records, keyed by title, in title order.
#[derive(Clone, Debug, PartialEq, Eq)]
pub struct Datamine {
    pub sheets: Vec<JsonSheet>,
}

impl View for Datamine {
    type V = DatasetView;

    open spec fn view(&self) -> DatasetView {
        self.sheets@.map_values(|s: JsonSheet| s@)
    }
}

impl Datamine {
    /// Titles are in strictly increasing order and every record is well
    /// formed.
    pub open spec fn wf(&self) -> bool {
        &&& titles_sorted(self@)
        &&& forall|i: int| 0 <= i < self.sheets@.len() ==> self.sheets@[i].wf()
    }

    pub fn new() -> (r: Datamine)
        ensures
            r@ == Seq::<SheetEntries>::empty(),
            r.wf(),
    {
        let r = Datamine { sheets: Vec::new() };
        assert(r@ =~= Seq::<SheetEntries>::empty());
        r
    }

    pub fn len(&self) -> (r: usize)
        ensures
            r == self@.len(),
    {
        self.sheets.len()
    }

    /// The position of the sheet titled `title`, if any.
    pub fn position(&self, title: &str) -> (r: Option<usize>)
        ensures
            match r {
                Some(i) => i < self.sheets@.len() && find_sheet(self@, title@) == Some(i as int),
                None => find_sheet(self@, title@) == None::<int>,
            },
    {
        let mut i: usize = 0;
        while i < self.sheets.len()
            invariant
                i <= self.sheets@.len(),
                forall|j: int| 0 <= j < i ==> self@[j].0 != title@,
            decreases self.sheets@.len() - i,
        {
            assert(self@[i as int].0 == self.sheets@[i as int].title@);
            if self.sheets[i].title.as_str().eq(title) {
                proof {
                    lemma_find_sheet(self@, title@);
                }
                return Some(i);
            }
            i += 1;
        }
        proof {
            lemma_find_sheet(self@, title@);
        }
        None
    }

    /// The sheet titled `title`, if any.
    pub fn get(&self, title: &str) -> (r: Option<&JsonSheet>)
        ensures
            match r {
                Some(s) => find_sheet(self@, title@) matches Some(i) && self.sheets@[i] == *s,
                None => find_sheet(self@, title@) == None::<int>,
            },
    {
        match self.position(title) {
            Some(i) => Some(&self.sheets[i]),
            None => None,
        }
    }

    /// Adds `sheet` where its title sorts, in place of the sheet of the same
    /// title if there is one.
    pub fn insert(&mut self, sheet: JsonSheet)
        requires
            old(self).wf(),
            sheet.wf(),
        ensures
            final(self)@ == put_sheet(old(self)@, sheet@),
            final(self).wf(),
    {
        let ghost s = sheet@;
        let ghost ds = self@;
        let mut i: usize = 0;
        while i < self.sheets.len() && title_lt(self.sheets[i].title.as_str(), sheet.title.as_str())
            invariant
                ds == self@,
                i <= self.sheets@.len(),
                s == sheet@,
                forall|j: int| 0 <= j < i ==> char_seq_lt(ds[j].0, s.0),
            decreases self.sheets@.len() - i,
        {
            assert(ds[i as int].0 == self.sheets@[i as int].title@);
            i += 1;
        }
        proof {
            if i < self.sheets@.len() {
                assert(ds[i as int].0 == self.sheets@[i as int].title@);
            }
            lemma_first_not_below(ds, s.0, i as int);
        }
        if i < self.sheets.len() && self.sheets[i].title.as_str().eq(sheet.title.as_str()) {
            self.sheets.set(i, sheet);
            assert(self@ =~= ds.update(i as int, s));
            proof {
                lemma_same_titles_stay_sorted(ds, self@);
            }
        } else {
            self.sheets.insert(i, sheet);
            assert(self@ =~= ds.insert(i as int, s));
            proof {
                if i < ds.len() {
                    assert(ds[i as int].0 != s.0);
                    lemma_char_seq_lt_total(ds[i as int].0, s.0);
                }
                assert forall|a: int, b: int| 0 <= a < b < self@.len() implies char_seq_lt(self@[a].0, self@[b].0) by {
                    if b < i {
                    } else if b == i {
                    } else if a < i {
                        lemma_char_seq_lt_transitive(self@[a].0, s.0, ds[i as int].0);
                        if b - 1 > i {
                            lemma_char_seq_lt_transitive(self@[a].0, ds[i as int].0, ds[b - 1].0);
                        }
                    } else if a == i {
                        if b - 1 > i {
                            lemma_char_seq_lt_transitive(s.0, ds[i as int].0, ds[b - 1].0);
                        }
                    } else {
                        assert(self@[a] == ds[a - 1]);
                        assert(self@[b] == ds[b - 1]);
                    }
                }
            }
        }
    }
}

impl JsonSheet {
    /// Every sheet of the spreadsheet as records, in title order; a later
    /// sheet replaces an earlier one of the same title.
    pub fn all_from_spreadsheet(spreadsheet: &Spreadsheet) -> (r: Result<Datamine, ExportError>)
        ensures
            match r {
                Ok(d) => dataset_of(spreadsheet.sheets@) == Ok::<_, ErrorView>(d@) && titles_sorted(d@)
                    && d.wf(),
                Err(e) => dataset_of(spreadsheet.sheets@) == Err::<DatasetView, _>(e@),
            },
    {
        let sheets = spreadsheet.sheets();
        let mut d = Datamine::new();
        let mut i: usize = 0;
        assert(sheets@.take(0) =~= Seq::<Sheet>::empty());
        while i < sheets.len()
            invariant
                sheets@ == spreadsheet.sheets@,
                i <= sheets@.len(),
                dataset_of(sheets@.take(i as int)) == Ok::<_, ErrorView>(d@),
                d.wf(),
            decreases sheets@.len() - i,
        {
            assert(sheets@.take(i as int + 1).drop_last() =~= sheets@.take(i as int));
            assert(sheets@.take(i as int + 1).last() == sheets@[i as int]);
            let sheet = &sheets[i];
            match sheet.json_rows() {
                Err(e) => {
                    proof {
                        lemma_dataset_error_stays(sheets@, i as nat + 1);
                    }
                    return Err(e);
                },
                Ok(rows) => {
                    let js = JsonSheet { title: sheet.properties.title.clone(), rows };
                    d.insert(js);
                },
            }
            i += 1;
        }
        assert(sheets@.take(i as int) =~= sheets@);
        Ok(d)
    }
}

} // verus!
