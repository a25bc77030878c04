//! The cross-sheet join: records of one sheet gain a list field collected
//! from the sheet that one of their fields names.
use vstd::prelude::*;
use crate::dataset::{lemma_same_titles_stay_sorted, titles_sorted, Datamine, DatasetView, SheetEntries};
use crate::error::{ErrorView, ExportError};
use crate::record::{insert_entry, text_of, texts_view, Entries, FieldValue, FieldView, Record};
use crate::sheet::records_view;

verus! {

/// What to do with a record whose named sheet does not exist.
#[derive(Clone, Copy, Debug, PartialEq, Eq, Structural)]
pub enum MissingSheet {
    /// Leave the record as it is and report it.
    Skip,
    /// Fail with `SheetNotFound`.
    Fail,
}

/// The fields that a join reads and writes.
#[derive(Clone, Debug, PartialEq, Eq)]
pub struct Enrichment {
    /// The sheet whose records gain the derived field.
    pub target_sheet: String,
    /// The field of a target record that holds the match key.
    pub source_field: String,
    /// The field of a target record that names the sheet to search.
    pub foreign_key_field: String,
    /// The field of a searched record that is compared with the match key.
    pub join_field: String,
    /// The field of a matching record whose text is collected.
    pub value_field: String,
    /// The key under which the collected list is stored.
    pub output_field: String,
    pub missing_sheet: MissingSheet,
}

/// The mathematical value of an [`Enrichment`].
pub struct EnrichmentView {
    pub target_sheet: Seq<char>,
    pub source_field: Seq<char>,
    pub foreign_key_field: Seq<char>,
    pub join_field: Seq<char>,
    pub value_field: Seq<char>,
    pub output_field: Seq<char>,
    pub missing_sheet: MissingSheet,
}

impl View for Enrichment {
    type V = EnrichmentView;

    open spec fn view(&self) -> EnrichmentView {
        EnrichmentView {
            target_sheet: self.target_sheet@,
            source_field: self.source_field@,
            foreign_key_field: self.foreign_key_field@,
            join_field: self.join_field@,
            value_field: self.value_field@,
            output_field: self.output_field@,
            missing_sheet: self.missing_sheet,
        }
    }
}

/// The first position other than `t` of a sheet titled `title`.
pub open spec fn find_other(ds: DatasetView, t: int, title: Seq<char>) -> Option<int>
    decreases ds.len(),
{
    if ds.len() == 0 {
        None
    } else {
        match find_other(ds.drop_last(), t, title) {
            Some(i) => Some(i),
            None => if ds.len() - 1 != t && ds.last().0 == title {
                Some(ds.len() - 1)
            } else {
                None
            },
        }
    }
}

/// The values of `value_field` of the records among `items` whose
/// `join_field` equals `key`, in order; or the first field that is missing.
pub open spec fn collect(items: Seq<Entries>, key: Seq<char>, e: EnrichmentView) -> Result<Seq<Seq<char>>, ErrorView>
    decreases items.len(),
{
    if items.len() == 0 {
        Ok(Seq::empty())
    } else {
        match collect(items.drop_last(), key, e) {
            Err(x) => Err(x),
            Ok(vs) => match text_of(items.last(), e.join_field) {
                None => Err(ErrorView::FieldMissing { field: e.join_field }),
                Some(j) => if j == key {
                    match text_of(items.last(), e.value_field) {
                        None => Err(ErrorView::FieldMissing { field: e.value_field }),
                        Some(v) => Ok(vs.push(v)),
                    }
                } else {
                    Ok(vs)
                },
            },
        }
    }
}

/// The list that record `r` of the target sheet `t` gains, `None` where its
/// sheet is missing and such records are skipped, or the error.
pub open spec fn enrich_one(ds: DatasetView, t: int, r: Entries, e: EnrichmentView) -> Result<Option<Seq<Seq<char>>>, ErrorView> {
    match text_of(r, e.foreign_key_field) {
        None => Err(ErrorView::FieldMissing { field: e.foreign_key_field }),
        Some(title) => match text_of(r, e.source_field) {
            None => Err(ErrorView::FieldMissing { field: e.source_field }),
            Some(key) => match find_other(ds, t, title) {
                None => if e.missing_sheet == MissingSheet::Skip {
                    Ok(None)
                } else {
                    Err(ErrorView::SheetNotFound { title })
                },
                Some(k) => match collect(ds[k].1, key, e) {
                    Err(x) => Err(x),
                    Ok(vs) => Ok(Some(vs)),
                },
            },
        },
    }
}

/// `enrich_one` of each of `recs` in turn, or the first error.
pub open spec fn plan_of(ds: DatasetView, t: int, recs: Seq<Entries>, e: EnrichmentView) -> Result<Seq<Option<Seq<Seq<char>>>>, ErrorView>
    decreases recs.len(),
{
    if recs.len() == 0 {
        Ok(Seq::empty())
    } else {
        match plan_of(ds, t, recs.drop_last(), e) {
            Err(x) => Err(x),
            Ok(p) => match enrich_one(ds, t, recs.last(), e) {
                Err(x) => Err(x),
                Ok(o) => Ok(p.push(o)),
            },
        }
    }
}

/// Each record with its list stored under `key`, where it has one.
pub open spec fn apply_plan(recs: Seq<Entries>, plan: Seq<Option<Seq<Seq<char>>>>, key: Seq<char>) -> Seq<Entries> {
    Seq::new(recs.len(), |i: int| match plan[i] {
        Some(vs) => insert_entry(recs[i], key, FieldView::List(vs)),
        None => recs[i],
    })
}

/// The positions of the records that were skipped.
pub open spec fn skipped_of(plan: Seq<Option<Seq<Seq<char>>>>) -> Seq<int>
    decreases plan.len(),
{
    if plan.len() == 0 {
        Seq::empty()
    } else if plan.last() is None {
        skipped_of(plan.drop_last()).push(plan.len() - 1)
    } else {
        skipped_of(plan.drop_last())
    }
}

/// The dataset after the join, or the error.
pub open spec fn enriched(ds: DatasetView, e: EnrichmentView) -> Result<DatasetView, ErrorView> {
    match crate::dataset::find_sheet(ds, e.target_sheet) {
        None => Err(ErrorView::SheetNotFound { title: e.target_sheet }),
        Some(t) => match plan_of(ds, t, ds[t].1, e) {
            Err(x) => Err(x),
            Ok(p) => Ok(ds.update(t, (ds[t].0, apply_plan(ds[t].1, p, e.output_field)))),
        },
    }
}

/// The join of recipes and the items they make, see
/// [`Datamine::assign_filenames_to_recipes`].
pub open spec fn recipe_filenames() -> EnrichmentView {
    EnrichmentView {
        target_sheet: "Recipes"@,
        source_field: "name"@,
        foreign_key_field: "category"@,
        join_field: "name"@,
        value_field: "filename"@,
        output_field: "filenames"@,
        missing_sheet: MissingSheet::Skip,
    }
}

/// The positions of the records that the join skips.
pub open spec fn skipped_in(ds: DatasetView, e: EnrichmentView) -> Seq<int> {
    match crate::dataset::find_sheet(ds, e.target_sheet) {
        Some(t) => match plan_of(ds, t, ds[t].1, e) {
            Ok(p) => skipped_of(p),
            Err(_) => Seq::empty(),
        },
        None => Seq::empty(),
    }
}

pub open spec fn list_view(o: Option<Vec<String>>) -> Option<Seq<Seq<char>>> {
    match o {
        Some(l) => Some(texts_view(l@)),
        None => None,
    }
}

pub open spec fn plan_view(v: Seq<Option<Vec<String>>>) -> Seq<Option<Seq<Seq<char>>>> {
    v.map_values(|o: Option<Vec<String>>| list_view(o))
}

pub open spec fn positions_view(v: Seq<usize>) -> Seq<int> {
    v.map_values(|i: usize| i as int)
}

/// `find_other` finds the first position other than `t` that holds the title.
pub proof fn lemma_find_other(ds: DatasetView, t: int, title: Seq<char>)
    ensures
        match find_other(ds, t, title) {
            Some(i) => 0 <= i < ds.len() && i != t && ds[i].0 == title
                && forall|j: int| 0 <= j < i && j != t ==> ds[j].0 != title,
            None => forall|j: int| 0 <= j < ds.len() && j != t ==> ds[j].0 != title,
        },
    decreases ds.len(),
{
    if ds.len() > 0 {
        lemma_find_other(ds.drop_last(), t, title);
        assert(forall|j: int| 0 <= j < ds.len() - 1 ==> ds.drop_last()[j] == ds[j]);
    }
}

proof fn lemma_collect_error_stays(items: Seq<Entries>, key: Seq<char>, e: EnrichmentView, n: nat)
    requires
        n <= items.len(),
        collect(items.take(n as int), key, e) is Err,
    ensures
        collect(items, key, e) == collect(items.take(n as int), key, e),
    decreases items.len() - n,
{
    if n == items.len() {
        assert(items.take(n as int) =~= items);
    } else {
        assert(items.take(n as int + 1).drop_last() =~= items.take(n as int));
        lemma_collect_error_stays(items, key, e, n + 1);
    }
}

proof fn lemma_plan_error_stays(ds: DatasetView, t: int, recs: Seq<Entries>, e: EnrichmentView, n: nat)
    requires
        n <= recs.len(),
        plan_of(ds, t, recs.take(n as int), e) is Err,
    ensures
        plan_of(ds, t, recs, e) == plan_of(ds, t, recs.take(n as int), e),
    decreases recs.len() - n,
{
    if n == recs.len() {
        assert(recs.take(n as int) =~= recs);
    } else {
        assert(recs.take(n as int + 1).drop_last() =~= recs.take(n as int));
        lemma_plan_error_stays(ds, t, recs, e, n + 1);
    }
}

/// A plan holds one entry per record: what `enrich_one` gives for it.
pub proof fn lemma_plan_entries(ds: DatasetView, t: int, recs: Seq<Entries>, e: EnrichmentView)
    requires
        plan_of(ds, t, recs, e) is Ok,
    ensures
        plan_of(ds, t, recs, e)->Ok_0.len() == recs.len(),
        forall|i: int| 0 <= i < recs.len() ==> enrich_one(ds, t, #[trigger] recs[i], e) == Ok::<_, ErrorView>(
            plan_of(ds, t, recs, e)->Ok_0[i]),
    decreases recs.len(),
{
    if recs.len() > 0 {
        lemma_plan_entries(ds, t, recs.drop_last(), e);
        assert(forall|i: int| 0 <= i < recs.len() - 1 ==> recs.drop_last()[i] == recs[i]);
    }
}

/// A skipped entry of a plan is among the reported positions.
pub proof fn lemma_skipped_reported(plan: Seq<Option<Seq<Seq<char>>>>, i: int)
    requires
        0 <= i < plan.len(),
        plan[i] is None,
    ensures
        skipped_of(plan).contains(i),
    decreases plan.len(),
{
    if i < plan.len() - 1 {
        lemma_skipped_reported(plan.drop_last(), i);
        assert(plan.drop_last()[i] == plan[i]);
        let s = skipped_of(plan.drop_last());
        let idx = choose|idx: int| 0 <= idx < s.len() && s[idx] == i;
        if plan.last() is None {
            assert(skipped_of(plan) == s.push(plan.len() - 1));
            assert(skipped_of(plan)[idx] == i);
        }
    } else {
        let s = skipped_of(plan);
        assert(s == skipped_of(plan.drop_last()).push(plan.len() - 1));
        assert(s[s.len() - 1] == i);
    }
}

/// Where skipping is asked for, a target record whose foreign-key field
/// names no other sheet causes no error: it is skipped, reported, and left
/// without the derived field (it stays as it was).
pub proof fn lemma_missing_sheet_skips_record(ds: DatasetView, e: EnrichmentView, i: int)
    requires
        e.missing_sheet == MissingSheet::Skip,
        crate::dataset::find_sheet(ds, e.target_sheet) matches Some(t) && {
            &&& 0 <= t < ds.len()
            &&& 0 <= i < ds[t].1.len()
            &&& text_of(ds[t].1[i], e.source_field) is Some
            &&& text_of(ds[t].1[i], e.foreign_key_field) matches Some(title) && forall|j: int|
                0 <= j < ds.len() && j != t ==> ds[j].0 != title
        },
    ensures
        enrich_one(ds, crate::dataset::find_sheet(ds, e.target_sheet)->Some_0, ds[crate::dataset::find_sheet(ds, e.target_sheet)->Some_0].1[i], e)
            == Ok::<_, ErrorView>(None::<Seq<Seq<char>>>),
        enriched(ds, e) matches Ok(after) ==> {
            let t = crate::dataset::find_sheet(ds, e.target_sheet)->Some_0;
            after[t].1[i] == ds[t].1[i] && skipped_in(ds, e).contains(i)
        },
{
    let t = crate::dataset::find_sheet(ds, e.target_sheet)->Some_0;
    let r = ds[t].1[i];
    let title = text_of(r, e.foreign_key_field)->Some_0;
    lemma_find_other(ds, t, title);
    assert(find_other(ds, t, title) is None);
    if enriched(ds, e) is Ok {
        lemma_plan_entries(ds, t, ds[t].1, e);
        let p = plan_of(ds, t, ds[t].1, e)->Ok_0;
        assert(p[i] is None);
        lemma_skipped_reported(p, i);
        crate::dataset::lemma_find_sheet(ds, e.target_sheet);
        let applied = apply_plan(ds[t].1, p, e.output_field);
        assert(applied[i] == ds[t].1[i]);
        assert(enriched(ds, e)->Ok_0 == ds.update(t, (ds[t].0, applied)));
    }
}

/// The first position other than `t` of a sheet titled `title`.
fn position_other(d: &Datamine, t: usize, title: &str) -> (r: Option<usize>)
    ensures
        match r {
            Some(k) => k < d.sheets@.len() && find_other(d@, t as int, title@) == Some(k as int),
            None => find_other(d@, t as int, title@) == None::<int>,
        },
{
    let mut i: usize = 0;
    while i < d.sheets.len()
        invariant
            i <= d.sheets@.len(),
            forall|j: int| 0 <= j < i && j != t ==> d@[j].0 != title@,
        decreases d.sheets@.len() - i,
    {
        assert(d@[i as int].0 == d.sheets@[i as int].title@);
        if i != t && d.sheets[i].title.as_str().eq(title) {
            proof {
                lemma_find_other(d@, t as int, title@);
            }
            return Some(i);
        }
        i += 1;
    }
    proof {
        lemma_find_other(d@, t as int, title@);
    }
    None
}

/// The texts of `value_field` of the records among `items` whose
/// `join_field` is `key`.
fn collect_values(items: &Vec<Record>, key: &str, e: &Enrichment) -> (r: Result<Vec<String>, ExportError>)
    ensures
        match r {
            Ok(vs) => collect(records_view(items@), key@, e@) == Ok::<_, ErrorView>(texts_view(vs@)),
            Err(x) => collect(records_view(items@), key@, e@) == Err::<Seq<Seq<char>>, _>(x@),
        },
{
    let ghost recs = records_view(items@);
    let mut out: Vec<String> = Vec::new();
    let mut i: usize = 0;
    assert(recs.take(0) =~= Seq::<Entries>::empty());
    assert(texts_view(out@) =~= Seq::<Seq<char>>::empty());
    while i < items.len()
        invariant
            recs == records_view(items@),
            i <= items@.len(),
            collect(recs.take(i as int), key@, e@) == Ok::<_, ErrorView>(texts_view(out@)),
        decreases items@.len() - i,
    {
        assert(recs.take(i as int + 1).drop_last() =~= recs.take(i as int));
        assert(recs.take(i as int + 1).last() == items@[i as int]@);
        let item = &items[i];
        match item.get_text(e.join_field.as_str()) {
            None => {
                proof {
                    lemma_collect_error_stays(recs, key@, e@, i as nat + 1);
                }
                return Err(ExportError::FieldMissing { field: e.join_field.clone() });
            },
            Some(j) => {
                if j.as_str().eq(key) {
                    match item.get_text(e.value_field.as_str()) {
                        None => {
                            proof {
                                lemma_collect_error_stays(recs, key@, e@, i as nat + 1);
                            }
                            return Err(ExportError::FieldMissing { field: e.value_field.clone() });
                        },
                        Some(v) => {
                            let ghost prev = out@;
                            out.push(v.clone());
                            assert(texts_view(out@) =~= texts_view(prev).push(v@));
                        },
                    }
                }
            },
        }
        i += 1;
    }
    assert(recs.take(i as int) =~= recs);
    Ok(out)
}

/// The list that `r`, a record of sheet `t`, gains; `None` where it is
/// skipped.
fn enrich_record(d: &Datamine, t: usize, r: &Record, e: &Enrichment) -> (res: Result<Option<Vec<String>>, ExportError>)
    ensures
        match res {
            Ok(Some(vs)) => enrich_one(d@, t as int, r@, e@) == Ok::<_, ErrorView>(Some(texts_view(vs@))),
            Ok(None) => enrich_one(d@, t as int, r@, e@) == Ok::<_, ErrorView>(None::<Seq<Seq<char>>>),
            Err(x) => enrich_one(d@, t as int, r@, e@) == Err::<Option<Seq<Seq<char>>>, _>(x@),
        },
{
    let title = match r.get_text(e.foreign_key_field.as_str()) {
        Some(s) => s,
        None => { return Err(ExportError::FieldMissing { field: e.foreign_key_field.clone() }); },
    };
    let key = match r.get_text(e.source_field.as_str()) {
        Some(s) => s,
        None => { return Err(ExportError::FieldMissing { field: e.source_field.clone() }); },
    };
    match position_other(d, t, title.as_str()) {
        None => {
            match e.missing_sheet {
                MissingSheet::Skip => Ok(None),
                MissingSheet::Fail => Err(ExportError::SheetNotFound { title: title.clone() }),
            }
        },
        Some(k) => {
            assert(d@[k as int].1 == records_view(d.sheets@[k as int].rows@));
            let vs = collect_values(&d.sheets[k].rows, key.as_str(), e)?;
            Ok(Some(vs))
        },
    }
}

impl Datamine {
    /// The join that gives each recipe the file names of the items it makes:
    /// a recipe's `category` names the sheet of its items, and the items
    /// whose `name` is the recipe's `name` give their `filename`, stored
    /// under `filenames`. Recipes whose category has no sheet are skipped.
    pub fn assign_filenames_to_recipes(&mut self) -> (r: Result<Vec<usize>, ExportError>)
        requires
            old(self).wf(),
        ensures
            final(self).wf(),
            match r {
                Ok(sk) => enriched(old(self)@, recipe_filenames()) == Ok::<_, ErrorView>(final(self)@)
                    && positions_view(sk@) == skipped_in(old(self)@, recipe_filenames()),
                Err(x) => enriched(old(self)@, recipe_filenames()) == Err::<DatasetView, _>(x@)
                    && final(self)@ == old(self)@,
            },
    {
        let e = Enrichment {
            target_sheet: String::from_str("Recipes"),
            source_field: String::from_str("name"),
            foreign_key_field: String::from_str("category"),
            join_field: String::from_str("name"),
            value_field: String::from_str("filename"),
            output_field: String::from_str("filenames"),
            missing_sheet: MissingSheet::Skip,
        };
        assert(e@ == recipe_filenames());
        self.enrich(&e)
    }

    /// Joins the records of the target sheet against the sheets that their
    /// foreign-key field names: each record gains, under the output field,
    /// the list of value fields of the records whose join field equals its
    /// source field. Returns the positions of the records whose sheet is
    /// missing and that were skipped. On an error nothing changes.
    pub fn enrich(&mut self, e: &Enrichment) -> (r: Result<Vec<usize>, ExportError>)
        requires
            old(self).wf(),
        ensures
            final(self).wf(),
            match r {
                Ok(sk) => enriched(old(self)@, e@) == Ok::<_, ErrorView>(final(self)@)
                    && positions_view(sk@) == skipped_in(old(self)@, e@),
                Err(x) => enriched(old(self)@, e@) == Err::<DatasetView, _>(x@)
                    && final(self)@ == old(self)@,
            },
    {
        let t = match self.position(e.target_sheet.as_str()) {
            Some(t) => t,
            None => { return Err(ExportError::SheetNotFound { title: e.target_sheet.clone() }); },
        };
        let ghost ds = self@;
        let ghost recs = ds[t as int].1;
        assert(recs == records_view(self.sheets@[t as int].rows@));
        let n = self.sheets[t].rows.len();
        let mut plan: Vec<Option<Vec<String>>> = Vec::new();
        let mut skipped: Vec<usize> = Vec::new();
        let mut i: usize = 0;
        assert(recs.take(0) =~= Seq::<Entries>::empty());
        assert(plan_view(plan@) =~= Seq::<Option<Seq<Seq<char>>>>::empty());
        assert(positions_view(skipped@) =~= Seq::<int>::empty());
        while i < n
            invariant
                ds == self@,
                self.wf(),
                crate::dataset::find_sheet(ds, e.target_sheet@) == Some(t as int),
                plan@.len() == i,
                t < self.sheets@.len(),
                recs == ds[t as int].1,
                n == recs.len(),
                i <= n,
                plan_of(ds, t as int, recs.take(i as int), e@) == Ok::<_, ErrorView>(plan_view(plan@)),
                positions_view(skipped@) == skipped_of(plan_view(plan@)),
            decreases n - i,
        {
            assert(recs.take(i as int + 1).drop_last() =~= recs.take(i as int));
            assert(recs.take(i as int + 1).last() == self.sheets@[t as int].rows@[i as int]@);
            match enrich_record(self, t, &self.sheets[t].rows[i], e) {
                Err(x) => {
                    proof {
                        lemma_plan_error_stays(ds, t as int, recs, e@, i as nat + 1);
                    }
                    return Err(x);
                },
                Ok(o) => {
                    let ghost prev = plan_view(plan@);
                    let ghost ov = list_view(o);
                    let skip = o.is_none();
                    plan.push(o);
                    assert(plan_view(plan@) =~= prev.push(ov));
                    assert(plan_view(plan@).drop_last() =~= prev);
                    if skip {
                        let ghost prev_sk = skipped@;
                        skipped.push(i);
                        assert(positions_view(skipped@) =~= positions_view(prev_sk).push(i as int));
                    }
                },
            }
            i += 1;
        }
        assert(recs.take(n as int) =~= recs);
        let ghost full = plan_view(plan@);
        assert(full.take(n as int) =~= full);
        let ghost target = apply_plan(recs, full, e.output_field@);
        let mut k: usize = n;
        while k > 0
            invariant
                k <= n,
                t < self.sheets@.len(),
                n == recs.len(),
                recs == ds[t as int].1,
                full.len() == n,
                target == apply_plan(recs, full, e.output_field@),
                plan@.len() == k,
                titles_sorted(ds),
                forall|j: int| 0 <= j < self@.len() ==> self@[j].0 == ds[j].0,
                plan_view(plan@) == full.take(k as int),
                self@.len() == ds.len(),
                forall|j: int| 0 <= j < ds.len() && j != t ==> self@[j] == ds[j],
                self@[t as int].0 == ds[t as int].0,
                self.sheets@[t as int].rows@.len() == n,
                forall|j: int| 0 <= j < k ==> self@[t as int].1[j] == recs[j],
                forall|j: int| k <= j < n ==> self@[t as int].1[j] == target[j],
                self.wf(),
            decreases k,
        {
            k -= 1;
            let ghost before = plan@;
            let ghost rows_before = self@[t as int].1;
            let o = plan.pop();
            proof {
                assert(plan@ == before.drop_last());
                assert forall|j: int| 0 <= j < k implies plan_view(plan@)[j] == full.take(k as int)[j] by {
                    assert(plan_view(plan@)[j] == plan_view(before)[j]);
                    assert(full.take(k as int + 1)[j] == full[j]);
                }
                assert(plan_view(plan@) =~= full.take(k as int));
                assert(plan_view(before)[k as int] == full[k as int]);
                assert(rows_before[k as int] == recs[k as int]);
                assert(self.sheets@[t as int].wf());
            }
            let ghost sb = self.sheets@;
            match o {
                Some(Some(vs)) => {
                    assert(self.sheets@[t as int].rows@[k as int].wf());
                    self.sheets[t].rows[k].insert(e.output_field.clone(), FieldValue::List(vs));
                },
                _ => {},
            }
            assert(self@[t as int].1[k as int] == target[k as int]);
            proof {
                assert forall|j: int| 0 <= j < self.sheets@.len() && j != t implies self.sheets@[j] == sb[j] by {}
                assert forall|m: int| 0 <= m < n implies #[trigger] self.sheets@[t as int].rows@[m].wf() by {
                    if m != k {
                        assert(self.sheets@[t as int].rows@[m] == sb[t as int].rows@[m]);
                    }
                }
                assert(self.sheets@[t as int].wf());
                assert forall|j: int| 0 <= j < self@.len() implies self@[j].0 == ds[j].0 by {
                    assert(self@[j].0 == self.sheets@[j].title@);
                    assert(sb[j].title@ == ds[j].0);
                }
                lemma_same_titles_stay_sorted(ds, self@);
            }
        }
        assert(self@[t as int].1 =~= target);
        assert(self@ =~= ds.update(t as int, (ds[t as int].0, target)));
        Ok(skipped)
    }
}

} // verus!
