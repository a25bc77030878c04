//! Cell values and the resolver that turns a cell into its effective text.
use vstd::prelude::*;
use crate::error::{CellSlot, ErrorView, ExportError, ValueKind};

verus! {

/// One value of a cell, as the spreadsheet API reports it.
#[derive(Clone, Debug, PartialEq, Eq)]
pub enum ExtendedValue {
    /// A number, held as its decimal text.
    Number { value: String },
    String { value: String },
    Bool { value: bool },
    /// The verbatim source of a formula.
    Formula { value: String },
    Empty,
}

/// One cell: what was typed into it, and what the engine computed from that.
#[derive(Clone, Debug, PartialEq, Eq)]
pub struct CellData {
    pub user_entered_value: Option<ExtendedValue>,
    pub effective_value: Option<ExtendedValue>,
}

pub open spec fn kind_of(v: ExtendedValue) -> ValueKind {
    match v {
        ExtendedValue::Number { .. } => ValueKind::Number,
        ExtendedValue::String { .. } => ValueKind::Text,
        ExtendedValue::Bool { .. } => ValueKind::Bool,
        ExtendedValue::Formula { .. } => ValueKind::Formula,
        ExtendedValue::Empty => ValueKind::Empty,
    }
}

/// `c` is the letter whose two ASCII cases are `lower` and `upper`.
pub open spec fn letter_is(c: char, lower: char, upper: char) -> bool {
    c == lower || c == upper
}

/// `s` holds `=IMAGE("` at `i`, the letters in either case.
pub open spec fn image_opener_at(s: Seq<char>, i: int) -> bool {
    &&& 0 <= i
    &&& i + 8 <= s.len()
    &&& s[i] == '='
    &&& letter_is(s[i + 1], 'i', 'I')
    &&& letter_is(s[i + 2], 'm', 'M')
    &&& letter_is(s[i + 3], 'a', 'A')
    &&& letter_is(s[i + 4], 'g', 'G')
    &&& letter_is(s[i + 5], 'e', 'E')
    &&& s[i + 6] == '('
    &&& s[i + 7] == '"'
}

/// `s` holds `")` at `j`.
pub open spec fn image_closer_at(s: Seq<char>, j: int) -> bool {
    0 <= j && j + 2 <= s.len() && s[j] == '"' && s[j + 1] == ')'
}

/// No line feed in `s` between `a` (included) and `b` (excluded).
pub open spec fn line_free(s: Seq<char>, a: int, b: int) -> bool {
    forall|k: int| a <= k < b ==> s[k] != '\n'
}

/// The image formula pattern matches `s` from `i` up to a closer at `j`.
pub open spec fn image_match(s: Seq<char>, i: int, j: int) -> bool {
    image_opener_at(s, i) && i + 8 <= j && image_closer_at(s, j) && line_free(s, i + 8, j)
}

pub open spec fn image_formula_matches(s: Seq<char>) -> bool {
    exists|i: int, j: int| image_match(s, i, j)
}

/// `u` is what the pattern's group captures in `s`: the match starts as far
/// left as it can, and from there runs to the last closer it can reach.
pub open spec fn is_image_capture(s: Seq<char>, u: Seq<char>) -> bool {
    exists|i: int, j: int|
        #![trigger image_match(s, i, j)]
        {
            &&& image_match(s, i, j)
            &&& u == s.subrange(i + 8, j)
            &&& forall|i2: int, j2: int| i2 < i ==> !image_match(s, i2, j2)
            &&& forall|j2: int| j < j2 ==> !image_match(s, i, j2)
        }
}

pub open spec fn image_capture(s: Seq<char>) -> Seq<char> {
    choose|u: Seq<char>| is_image_capture(s, u)
}

/// What a cell resolves to: its text, nothing, or the reason it cannot be read.
pub open spec fn resolve(cell: CellData) -> Result<Option<Seq<char>>, ErrorView> {
    match cell.effective_value {
        Some(ExtendedValue::Number { value }) => Ok(Some(value@)),
        Some(ExtendedValue::String { value }) => Ok(Some(value@)),
        Some(ExtendedValue::Bool { .. }) => Err(
            ErrorView::UnsupportedCellType { kind: ValueKind::Bool, slot: CellSlot::Computed },
        ),
        Some(ExtendedValue::Formula { .. }) => Err(
            ErrorView::UnsupportedCellType { kind: ValueKind::Formula, slot: CellSlot::Computed },
        ),
        _ => match cell.user_entered_value {
            None => Ok(None),
            Some(ExtendedValue::Empty) => Ok(None),
            Some(ExtendedValue::Formula { value }) => if image_formula_matches(value@) {
                Ok(Some(image_capture(value@)))
            } else {
                Err(ErrorView::UnsupportedFormula { formula: value@ })
            },
            Some(v) => Err(ErrorView::UnsupportedCellType { kind: kind_of(v), slot: CellSlot::Entered }),
        },
    }
}

/// The pattern of a formula that embeds an image: `IMAGE` with one argument
/// in double quotes, the keyword in any case.
pub const IMAGE_FORMULA_PATTERN: &'static str = "(?i)=IMAGE\\(\"(.*)\"\\)";

/// Relies on regex::Regex::new and regex::Regex::captures: compiled from
/// [`IMAGE_FORMULA_PATTERN`], the regex finds its leftmost match, `.*` takes
/// as much as it can short of a line feed, and the first group is returned.
#[verifier::external_body]
fn capture_image_url(pattern: &str, formula: &str) -> (r: Option<String>)
    requires
        pattern@ == IMAGE_FORMULA_PATTERN@,
    ensures
        r.is_some() == image_formula_matches(formula@),
        r matches Some(u) ==> is_image_capture(formula@, u@),
{
    let re = regex::Regex::new(pattern).unwrap();
    re.captures(formula).map(|caps| caps[1].to_string())
}

fn unsupported(v: &ExtendedValue, slot: CellSlot) -> (e: ExportError)
    ensures
        e@ == (ErrorView::UnsupportedCellType { kind: kind_of(*v), slot }),
{
    let kind = match v {
        ExtendedValue::Number { .. } => ValueKind::Number,
        ExtendedValue::String { .. } => ValueKind::Text,
        ExtendedValue::Bool { .. } => ValueKind::Bool,
        ExtendedValue::Formula { .. } => ValueKind::Formula,
        ExtendedValue::Empty => ValueKind::Empty,
    };
    ExportError::UnsupportedCellType { kind, slot }
}

impl CellData {
    /// The effective text of the cell: the computed text or number if there
    /// is one, else the URL of an image formula, else nothing.
    pub fn to_string(&self) -> (r: Result<Option<String>, ExportError>)
        ensures
            match r {
                Ok(Some(s)) => resolve(*self) == Ok::<_, ErrorView>(Some(s@)),
                Ok(None) => resolve(*self) == Ok::<_, ErrorView>(None::<Seq<char>>),
                Err(e) => resolve(*self) == Err::<Option<Seq<char>>, _>(e@),
            },
    {
        match &self.effective_value {
            Some(ExtendedValue::Number { value }) => { return Ok(Some(value.clone())); },
            Some(ExtendedValue::String { value }) => { return Ok(Some(value.clone())); },
            Some(ExtendedValue::Empty) => {},
            None => {},
            Some(v) => { return Err(unsupported(v, CellSlot::Computed)); },
        }
        match &self.user_entered_value {
            None => Ok(None),
            Some(ExtendedValue::Empty) => Ok(None),
            Some(ExtendedValue::Formula { value }) => {
                match capture_image_url(IMAGE_FORMULA_PATTERN, value.as_str()) {
                    Some(url) => Ok(Some(url)),
                    None => Err(ExportError::UnsupportedFormula { formula: value.clone() }),
                }
            },
            Some(v) => Err(unsupported(v, CellSlot::Entered)),
        }
    }
}

/// Two captures of one formula are the same text.
proof fn lemma_image_capture_unique(s: Seq<char>, u1: Seq<char>, u2: Seq<char>)
    requires
        is_image_capture(s, u1),
        is_image_capture(s, u2),
    ensures
        u1 == u2,
{
    let (i1, j1) = choose|i: int, j: int|
        #![trigger image_match(s, i, j)]
        {
            &&& image_match(s, i, j)
            &&& u1 == s.subrange(i + 8, j)
            &&& forall|i2: int, j2: int| i2 < i ==> !image_match(s, i2, j2)
            &&& forall|j2: int| j < j2 ==> !image_match(s, i, j2)
        };
    let (i2, j2) = choose|i: int, j: int|
        #![trigger image_match(s, i, j)]
        {
            &&& image_match(s, i, j)
            &&& u2 == s.subrange(i + 8, j)
            &&& forall|i3: int, j3: int| i3 < i ==> !image_match(s, i3, j3)
            &&& forall|j3: int| j < j3 ==> !image_match(s, i, j3)
        };
    assert(!(i1 < i2) && !(i2 < i1)) by {
        if i1 < i2 {
            assert(image_match(s, i1, j1));
        }
        if i2 < i1 {
            assert(image_match(s, i2, j2));
        }
    }
    assert(!(j1 < j2) && !(j2 < j1)) by {
        if j1 < j2 {
            assert(image_match(s, i2, j2));
        }
        if j2 < j1 {
            assert(image_match(s, i1, j1));
        }
    }
}

/// A computed text or number is what the cell resolves to, whatever was
/// entered.
pub proof fn lemma_computed_value_wins(cell: CellData)
    requires
        cell.effective_value matches Some(ExtendedValue::Number { .. })
            || cell.effective_value matches Some(ExtendedValue::String { .. }),
    ensures
        match cell.effective_value {
            Some(ExtendedValue::Number { value }) => resolve(cell) == Ok::<_, ErrorView>(Some(value@)),
            Some(ExtendedValue::String { value }) => resolve(cell) == Ok::<_, ErrorView>(Some(value@)),
            _ => false,
        },
{
}

/// With no computed value, a formula `=IMAGE("<url>")` (the keyword in any
/// case, the URL on one line) resolves to the URL.
pub proof fn lemma_image_formula_url(cell: CellData, url: Seq<char>)
    requires
        cell.effective_value matches None || cell.effective_value matches Some(ExtendedValue::Empty),
        cell.user_entered_value matches Some(ExtendedValue::Formula { value })
            && image_opener_at(value@, 0)
            && value@ == value@.subrange(0, 8) + url + seq!['"', ')'],
        forall|k: int| 0 <= k < url.len() ==> url[k] != '\n',
    ensures
        resolve(cell) == Ok::<_, ErrorView>(Some(url)),
{
    let s = cell.user_entered_value->Some_0->Formula_value@;
    let j = s.len() - 2;
    assert(s[j] == '"' && s[j + 1] == ')') by {
        assert(s[j] == (s.subrange(0, 8) + url + seq!['"', ')'])[j]);
    }
    assert(line_free(s, 8, j)) by {
        assert forall|k: int| 8 <= k < j implies s[k] != '\n' by {
            assert(s[k] == (s.subrange(0, 8) + url + seq!['"', ')'])[k]);
            assert(s[k] == url[k - 8]);
        }
    }
    assert(image_match(s, 0, j));
    assert(s.subrange(8, j) =~= url) by {
        assert forall|k: int| 0 <= k < url.len() implies s.subrange(8, j)[k] == url[k] by {
            assert(s[k + 8] == (s.subrange(0, 8) + url + seq!['"', ')'])[k + 8]);
        }
    }
    assert(is_image_capture(s, url));
    assert(image_formula_matches(s));
    lemma_image_capture_unique(s, url, image_capture(s));
}

/// A cell with no computed value (or an empty one) and nothing, or an empty
/// value, entered resolves to nothing.
pub proof fn lemma_empty_cell_resolves_to_nothing(cell: CellData)
    requires
        cell.effective_value matches None || cell.effective_value matches Some(ExtendedValue::Empty),
        cell.user_entered_value matches None || cell.user_entered_value matches Some(ExtendedValue::Empty),
    ensures
        resolve(cell) == Ok::<_, ErrorView>(None::<Seq<char>>),
{
}

} // verus!
