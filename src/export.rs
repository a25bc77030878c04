//! What the export of a dataset decides before it writes anything: file
//! names, the images to fetch, the sheets to leave out, the entry ids.
use vstd::prelude::*;
use crate::dataset::{Datamine, DatasetView, JsonSheet};
use crate::error::{ErrorView, ExportError};
use crate::record::{field_of, text_of, Entries, FieldView, Record};
use crate::sheet::records_view;
use crate::text::{filename_fragment, normalize_filename_fragment};

verus! {

/// The title of the sheet that is not exported.
pub const README_TITLE: &'static str = "Read Me";

/// An image to fetch for a record: where from, and the stem of the file it
/// is saved to.
#[derive(Clone, Debug, PartialEq, Eq)]
pub struct Image {
    pub url: String,
    pub filename: String,
}

impl View for Image {
    type V = (Seq<char>, Seq<char>);

    open spec fn view(&self) -> (Seq<char>, Seq<char>) {
        (self.url@, self.filename@)
    }
}

/// The image of a record: its `image` and `filename` texts, where it has both.
pub open spec fn image_of(r: Entries) -> Option<(Seq<char>, Seq<char>)> {
    match (text_of(r, "image"@), text_of(r, "filename"@)) {
        (Some(url), Some(filename)) => Some((url, filename)),
        _ => None,
    }
}

/// The record has an `image` and a `filename` field, of whatever value.
pub open spec fn has_image_fields(r: Entries) -> bool {
    field_of(r, "image"@) is Some && field_of(r, "filename"@) is Some
}

/// The images of `rows` in order, records without one left out.
pub open spec fn images_of(rows: Seq<Entries>) -> Seq<(Seq<char>, Seq<char>)>
    decreases rows.len(),
{
    if rows.len() == 0 {
        Seq::empty()
    } else {
        match image_of(rows.last()) {
            Some(i) => images_of(rows.drop_last()).push(i),
            None => images_of(rows.drop_last()),
        }
    }
}

/// The images of a sheet: none unless every record has both image fields.
pub open spec fn sheet_images(rows: Seq<Entries>) -> Seq<(Seq<char>, Seq<char>)> {
    if forall|i: int| 0 <= i < rows.len() ==> has_image_fields(#[trigger] rows[i]) {
        images_of(rows)
    } else {
        Seq::empty()
    }
}

pub open spec fn images_view(v: Seq<Image>) -> Seq<(Seq<char>, Seq<char>)> {
    v.map_values(|i: Image| i@)
}

impl Image {
    /// The image of `row`, where it holds text under both `image` and
    /// `filename`.
    pub fn from_row(row: &Record) -> (r: Option<Image>)
        ensures
            match r {
                Some(i) => image_of(row@) == Some(i@),
                None => image_of(row@) == None::<(Seq<char>, Seq<char>)>,
            },
    {
        let url = match row.get_text("image") {
            Some(u) => u,
            None => { return None; },
        };
        let filename = match row.get_text("filename") {
            Some(f) => f,
            None => { return None; },
        };
        Some(Image { url: url.clone(), filename: filename.clone() })
    }
}

impl JsonSheet {
    /// The name of the file the sheet is exported to: the file name stem of
    /// its title, then `.json`.
    pub fn export_file_name(&self) -> (r: String)
        ensures
            r@ == filename_fragment(self.title@) + ".json"@,
    {
        let mut name = normalize_filename_fragment(self.title.as_str());
        name.append(".json");
        name
    }

    /// The images to fetch for the sheet's records, in record order: none
    /// unless every record has an `image` and a `filename` field.
    pub fn images(&self) -> (r: Vec<Image>)
        ensures
            images_view(r@) == sheet_images(records_view(self.rows@)),
    {
        let ghost rows = records_view(self.rows@);
        let mut i: usize = 0;
        while i < self.rows.len()
            invariant
                rows == records_view(self.rows@),
                i <= self.rows@.len(),
                forall|j: int| 0 <= j < i ==> has_image_fields(#[trigger] rows[j]),
            decreases self.rows@.len() - i,
        {
            let row = &self.rows[i];
            if row.get("image").is_none() || row.get("filename").is_none() {
                assert(!has_image_fields(rows[i as int]));
                let out: Vec<Image> = Vec::new();
                assert(images_view(out@) =~= Seq::<(Seq<char>, Seq<char>)>::empty());
                return out;
            }
            i += 1;
        }
        let mut out: Vec<Image> = Vec::new();
        let mut k: usize = 0;
        assert(rows.take(0) =~= Seq::<Entries>::empty());
        assert(images_view(out@) =~= Seq::<(Seq<char>, Seq<char>)>::empty());
        while k < self.rows.len()
            invariant
                rows == records_view(self.rows@),
                k <= self.rows@.len(),
                images_view(out@) == images_of(rows.take(k as int)),
            decreases self.rows@.len() - k,
        {
            assert(rows.take(k as int + 1).drop_last() =~= rows.take(k as int));
            assert(rows.take(k as int + 1).last() == self.rows@[k as int]@);
            match Image::from_row(&self.rows[k]) {
                Some(img) => {
                    let ghost prev = out@;
                    out.push(img);
                    assert(images_view(out@) =~= images_view(prev).push(img@));
                },
                None => {},
            }
            k += 1;
        }
        assert(rows.take(k as int) =~= rows);
        out
    }
}

/// The listing lines of one sheet's records: for each record with a text
/// `unique_entry_id`, three spaces, `prefix`, the id and `suffix`; records
/// without the field are passed over, any other value of it is an error.
pub open spec fn id_lines(rows: Seq<Entries>, prefix: Seq<char>, suffix: Seq<char>) -> Result<Seq<Seq<char>>, ErrorView>
    decreases rows.len(),
{
    if rows.len() == 0 {
        Ok(Seq::empty())
    } else {
        match id_lines(rows.drop_last(), prefix, suffix) {
            Err(e) => Err(e),
            Ok(ls) => match field_of(rows.last(), "unique_entry_id"@) {
                None => Ok(ls),
                Some(FieldView::Text(id)) => Ok(ls.push("   "@ + prefix + id + suffix)),
                Some(_) => Err(ErrorView::FieldMissing { field: "unique_entry_id"@ }),
            },
        }
    }
}

/// The listing of a dataset: for each sheet in turn (title order, where the
/// dataset is well formed) its title, then the lines of its entry ids.
pub open spec fn dataset_id_lines(ds: DatasetView, prefix: Seq<char>, suffix: Seq<char>) -> Result<Seq<Seq<char>>, ErrorView>
    decreases ds.len(),
{
    if ds.len() == 0 {
        Ok(Seq::empty())
    } else {
        match dataset_id_lines(ds.drop_last(), prefix, suffix) {
            Err(e) => Err(e),
            Ok(ls) => match id_lines(ds.last().1, prefix, suffix) {
                Err(e) => Err(e),
                Ok(more) => Ok(ls.push(ds.last().0) + more),
            },
        }
    }
}

proof fn lemma_id_lines_error_stays(rows: Seq<Entries>, prefix: Seq<char>, suffix: Seq<char>, n: nat)
    requires
        n <= rows.len(),
        id_lines(rows.take(n as int), prefix, suffix) is Err,
    ensures
        id_lines(rows, prefix, suffix) == id_lines(rows.take(n as int), prefix, suffix),
    decreases rows.len() - n,
{
    if n == rows.len() {
        assert(rows.take(n as int) =~= rows);
    } else {
        assert(rows.take(n as int + 1).drop_last() =~= rows.take(n as int));
        lemma_id_lines_error_stays(rows, prefix, suffix, n + 1);
    }
}

proof fn lemma_dataset_id_lines_error_stays(ds: DatasetView, prefix: Seq<char>, suffix: Seq<char>, n: nat)
    requires
        n <= ds.len(),
        dataset_id_lines(ds.take(n as int), prefix, suffix) is Err,
    ensures
        dataset_id_lines(ds, prefix, suffix) == dataset_id_lines(ds.take(n as int), prefix, suffix),
    decreases ds.len() - n,
{
    if n == ds.len() {
        assert(ds.take(n as int) =~= ds);
    } else {
        assert(ds.take(n as int + 1).drop_last() =~= ds.take(n as int));
        lemma_dataset_id_lines_error_stays(ds, prefix, suffix, n + 1);
    }
}

pub open spec fn lines_view(v: Seq<String>) -> Seq<Seq<char>> {
    v.map_values(|s: String| s@)
}

/// Appends the entry-id lines of `rows` to `out`.
fn push_id_lines(rows: &Vec<Record>, prefix: &str, suffix: &str, out: &mut Vec<String>) -> (r: Result<(), ExportError>)
    ensures
        match r {
            Ok(()) => id_lines(records_view(rows@), prefix@, suffix@) matches Ok(ls)
                && lines_view(final(out)@) == lines_view(old(out)@) + ls,
            Err(e) => id_lines(records_view(rows@), prefix@, suffix@) == Err::<Seq<Seq<char>>, _>(e@),
        },
{
    let ghost recs = records_view(rows@);
    let ghost start = lines_view(out@);
    let mut i: usize = 0;
    assert(recs.take(0) =~= Seq::<Entries>::empty());
    assert(lines_view(out@) =~= start + Seq::<Seq<char>>::empty());
    while i < rows.len()
        invariant
            recs == records_view(rows@),
            i <= rows@.len(),
            id_lines(recs.take(i as int), prefix@, suffix@) matches Ok(ls) && lines_view(out@) == start + ls,
        decreases rows@.len() - i,
    {
        assert(recs.take(i as int + 1).drop_last() =~= recs.take(i as int));
        assert(recs.take(i as int + 1).last() == rows@[i as int]@);
        let ghost ls = id_lines(recs.take(i as int), prefix@, suffix@)->Ok_0;
        match rows[i].get("unique_entry_id") {
            None => {},
            Some(crate::record::FieldValue::Text(id)) => {
                let mut line = String::from_str("   ");
                line.append(prefix);
                line.append(id.as_str());
                line.append(suffix);
                let ghost prev = out@;
                out.push(line);
                proof {
                    reveal_strlit("   ");
                }
                assert(lines_view(out@) =~= lines_view(prev).push(line@));
                assert(lines_view(out@) =~= start + ls.push("   "@ + prefix@ + id@ + suffix@));
            },
            Some(_) => {
                proof {
                    lemma_id_lines_error_stays(recs, prefix@, suffix@, i as nat + 1);
                }
                return Err(ExportError::FieldMissing { field: String::from_str("unique_entry_id") });
            },
        }
        i += 1;
    }
    assert(recs.take(i as int) =~= recs);
    Ok(())
}

impl Datamine {
    /// Whether the sheet titled `title` is exported: every sheet is but the
    /// read-me sheet.
    pub fn is_exported(title: &str) -> (r: bool)
        ensures
            r == (title@ != README_TITLE@),
    {
        !title.eq(README_TITLE)
    }

    /// The listing of the entry ids of every sheet, in title order: the
    /// sheet's title, then one line per record that has a `unique_entry_id`.
    pub fn unique_entry_id_lines(&self, prefix: &str, suffix: &str) -> (r: Result<Vec<String>, ExportError>)
        requires
            self.wf(),
        ensures
            match r {
                Ok(ls) => dataset_id_lines(self@, prefix@, suffix@) == Ok::<_, ErrorView>(lines_view(ls@)),
                Err(e) => dataset_id_lines(self@, prefix@, suffix@) == Err::<Seq<Seq<char>>, _>(e@),
            },
    {
        let ghost ds = self@;
        let mut out: Vec<String> = Vec::new();
        let mut i: usize = 0;
        assert(ds.take(0) =~= Seq::<(Seq<char>, Seq<Entries>)>::empty());
        assert(lines_view(out@) =~= Seq::<Seq<char>>::empty());
        while i < self.sheets.len()
            invariant
                ds == self@,
                i <= self.sheets@.len(),
                dataset_id_lines(ds.take(i as int), prefix@, suffix@) == Ok::<_, ErrorView>(lines_view(out@)),
            decreases self.sheets@.len() - i,
        {
            assert(ds.take(i as int + 1).drop_last() =~= ds.take(i as int));
            assert(ds.take(i as int + 1).last() == self.sheets@[i as int]@);
            let sheet = &self.sheets[i];
            let ghost prev = out@;
            out.push(sheet.title.clone());
            assert(lines_view(out@) =~= lines_view(prev).push(sheet.title@));
            match push_id_lines(&sheet.rows, prefix, suffix, &mut out) {
                Err(e) => {
                    proof {
                        lemma_dataset_id_lines_error_stays(ds, prefix@, suffix@, i as nat + 1);
                    }
                    return Err(e);
                },
                Ok(()) => {},
            }
            i += 1;
        }
        assert(ds.take(i as int) =~= ds);
        Ok(out)
    }
}

} // verus!
