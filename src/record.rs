//! Records: ordered mappings from column name to a nullable value.
use vstd::prelude::*;

verus! {


/// The value of one field of a record.
#[derive(Clone, Debug, PartialEq, Eq)]
pub enum FieldValue {
    Null,
    Text(String),
    /// A derived field: a list of texts.
    List(Vec<String>),
}

/// The mathematical value of a [`FieldValue`].
pub enum FieldView {
    Null,
    Text(Seq<char>),
    List(Seq<Seq<char>>),
}

pub open spec fn texts_view(v: Seq<String>) -> Seq<Seq<char>> {
    v.map_values(|s: String| s@)
}

impl View for FieldValue {
    type V = FieldView;

    open spec fn view(&self) -> FieldView {
        match self {
            FieldValue::Null => FieldView::Null,
            FieldValue::Text(s) => FieldView::Text(s@),
            FieldValue::List(l) => FieldView::List(texts_view(l@)),
        }
    }
}

/// The view of a record: its fields in order, each a key and a value.
pub type Entries = Seq<(Seq<char>, FieldView)>;

/// The first position of key `k` in `r`, if any.
pub open spec fn find_key(r: Entries, k: Seq<char>) -> Option<int>
    decreases r.len(),
{
    if r.len() == 0 {
        None
    } else {
        match find_key(r.drop_last(), k) {
            Some(i) => Some(i),
            None => if r.last().0 == k {
                Some(r.len() - 1)
            } else {
                None
            },
        }
    }
}

/// `r` with the value under `k` replaced, or with `(k, v)` appended where `k`
/// is not a key yet.
pub open spec fn insert_entry(r: Entries, k: Seq<char>, v: FieldView) -> Entries {
    match find_key(r, k) {
        Some(i) => r.update(i, (k, v)),
        None => r.push((k, v)),
    }
}

/// The value under `k` in `r`, if `k` is a key.
pub open spec fn field_of(r: Entries, k: Seq<char>) -> Option<FieldView> {
    match find_key(r, k) {
        Some(i) => Some(r[i].1),
        None => None,
    }
}

/// The text under `k` in `r`, if `r` holds text there.
pub open spec fn text_of(r: Entries, k: Seq<char>) -> Option<Seq<char>> {
    match field_of(r, k) {
        Some(FieldView::Text(s)) => Some(s),
        _ => None,
    }
}

/// No key occurs twice.
pub open spec fn keys_unique(r: Entries) -> bool {
    forall|i: int, j: int| 0 <= i < j < r.len() ==> r[i].0 != r[j].0
}

/// Every value of `r` is null.
pub open spec fn all_null(r: Entries) -> bool {
    forall|i: int| 0 <= i < r.len() ==> r[i].1 == FieldView::Null
}

/// A record: fields in insertion order, each key at most once.
#[derive(Clone, Debug, PartialEq, Eq)]
pub struct Record {
    pub fields: Vec<(String, FieldValue)>,
}

impl View for Record {
    type V = Entries;

    open spec fn view(&self) -> Entries {
        self.fields@.map_values(|f: (String, FieldValue)| (f.0@, f.1@))
    }
}

/// `find_key` finds the first position that holds the key.
pub proof fn lemma_find_key(r: Entries, k: Seq<char>)
    ensures
        match find_key(r, k) {
            Some(i) => 0 <= i < r.len() && r[i].0 == k && forall|j: int| 0 <= j < i ==> r[j].0 != k,
            None => forall|j: int| 0 <= j < r.len() ==> r[j].0 != k,
        },
    decreases r.len(),
{
    if r.len() > 0 {
        lemma_find_key(r.drop_last(), k);
        assert(forall|j: int| 0 <= j < r.len() - 1 ==> r.drop_last()[j] == r[j]);
    }
}

/// Inserting keeps keys unique.
pub proof fn lemma_insert_keeps_keys_unique(r: Entries, k: Seq<char>, v: FieldView)
    requires
        keys_unique(r),
    ensures
        keys_unique(insert_entry(r, k, v)),
{
    lemma_find_key(r, k);
}

impl Record {
    pub open spec fn wf(&self) -> bool {
        keys_unique(self@)
    }

    /// An empty record.
    pub fn new() -> (r: Record)
        ensures
            r@ == Seq::<(Seq<char>, FieldView)>::empty(),
            r.wf(),
    {
        let r = Record { fields: Vec::new() };
        assert(r@ =~= Seq::<(Seq<char>, FieldView)>::empty());
        r
    }

    /// The position of `key`, if it is a key of the record.
    pub fn position(&self, key: &str) -> (r: Option<usize>)
        ensures
            match r {
                Some(i) => i < self.fields@.len() && find_key(self@, key@) == Some(i as int),
                None => find_key(self@, key@) == None::<int>,
            },
    {
        proof {
            lemma_find_key(self@, key@);
        }
        let mut i: usize = 0;
        while i < self.fields.len()
            invariant
                i <= self.fields@.len(),
                forall|j: int| 0 <= j < i ==> self@[j].0 != key@,
            decreases self.fields@.len() - i,
        {
            assert(self@[i as int].0 == self.fields@[i as int].0@);
            if self.fields[i].0.as_str().eq(key) {
                proof {
                    lemma_find_key(self@, key@);
                }
                assert(self@[i as int].0 == key@);
                return Some(i);
            }
            i += 1;
        }
        None
    }

    /// The value under `key`, if it is a key of the record.
    pub fn get(&self, key: &str) -> (r: Option<&FieldValue>)
        ensures
            match r {
                Some(v) => field_of(self@, key@) == Some(v@),
                None => field_of(self@, key@) == None::<FieldView>,
            },
    {
        match self.position(key) {
            Some(i) => Some(&self.fields[i].1),
            None => None,
        }
    }

    /// The text under `key`, if the record holds text there.
    pub fn get_text(&self, key: &str) -> (r: Option<&String>)
        ensures
            match r {
                Some(s) => text_of(self@, key@) == Some(s@),
                None => text_of(self@, key@) == None::<Seq<char>>,
            },
    {
        match self.get(key) {
            Some(FieldValue::Text(s)) => Some(s),
            _ => None,
        }
    }

    /// Sets `key` to `value`: in place where `key` is a key already, else as
    /// a new last field.
    pub fn insert(&mut self, key: String, value: FieldValue)
        requires
            old(self).wf(),
        ensures
            final(self)@ == insert_entry(old(self)@, key@, value@),
            final(self).wf(),
    {
        proof {
            lemma_insert_keeps_keys_unique(self@, key@, value@);
            lemma_find_key(self@, key@);
        }
        match self.position(key.as_str()) {
            Some(i) => {
                self.fields.set(i, (key, value));
            },
            None => {
                self.fields.push((key, value));
            },
        }
        assert(self@ =~= insert_entry(old(self)@, key@, value@));
    }

    /// Every value of the record is null.
    pub fn is_all_null(&self) -> (r: bool)
        ensures
            r == all_null(self@),
    {
        let mut i: usize = 0;
        while i < self.fields.len()
            invariant
                i <= self.fields@.len(),
                forall|j: int| 0 <= j < i ==> self@[j].1 == FieldView::Null,
            decreases self.fields@.len() - i,
        {
            assert(self@[i as int].1 == self.fields@[i as int].1@);
            match &self.fields[i].1 {
                FieldValue::Null => {},
                _ => { return false; },
            }
            i += 1;
        }
        true
    }
}

} // verus!
