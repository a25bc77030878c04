//! Character-level helpers: ASCII case, column names and file name stems.
use vstd::prelude::*;

verus! {

/// Relies on `String::push`: the character is appended at the end.
pub assume_specification[ std::string::String::push ](s: &mut std::string::String, ch: char)
    ensures
        final(s)@ == old(s)@.push(ch),
;

/// Relies on `str`'s `PartialEq::eq`: two string slices are equal exactly
/// when they hold the same characters.
pub assume_specification[ <str as PartialEq>::eq ](s: &str, other: &str) -> (r: bool)
    ensures
        r == (s@ == other@),
;

/// `c` with an ASCII upper-case letter turned into lower case.
pub open spec fn ascii_lower(c: char) -> char {
    if 'A' <= c && c <= 'Z' {
        ((c as u32) + 32) as char
    } else {
        c
    }
}

pub open spec fn is_ascii_alphanumeric(c: char) -> bool {
    ('a' <= c && c <= 'z') || ('A' <= c && c <= 'Z') || ('0' <= c && c <= '9')
}

pub fn to_ascii_lower(c: char) -> (r: char)
    ensures
        r == ascii_lower(c),
{
    if 'A' <= c && c <= 'Z' {
        ((c as u8) + 32) as char
    } else {
        c
    }
}

/// One character of a column name: a space becomes `_`, an ASCII letter its
/// lower case, anything else stays.
pub open spec fn column_char(c: char) -> char {
    if c == ' ' {
        '_'
    } else {
        ascii_lower(c)
    }
}

/// The normal form of a column title.
pub open spec fn column_name(s: Seq<char>) -> Seq<char> {
    s.map_values(|c: char| column_char(c))
}

/// What one character of a name contributes to a file name stem.
pub open spec fn fragment_chars(c: char) -> Seq<char> {
    if is_ascii_alphanumeric(c) || c == '_' || c == '.' {
        seq![ascii_lower(c)]
    } else if c == ' ' {
        seq!['_']
    } else {
        Seq::empty()
    }
}

/// The file name stem of a name: ASCII letters and digits, `_` and `.` are
/// kept (letters in lower case), a space becomes `_`, the rest is dropped.
pub open spec fn filename_fragment(s: Seq<char>) -> Seq<char>
    decreases s.len(),
{
    if s.len() == 0 {
        Seq::empty()
    } else {
        filename_fragment(s.drop_last()) + fragment_chars(s.last())
    }
}

/// `a` comes before `b` when their characters are compared by code point,
/// the first differing one deciding and a proper prefix coming first. This
/// is the order of `String`, whose UTF-8 bytes sort as their code points do.
pub open spec fn char_seq_lt(a: Seq<char>, b: Seq<char>) -> bool
    decreases a.len(),
{
    if a.len() == 0 {
        b.len() > 0
    } else if b.len() == 0 {
        false
    } else if a[0] != b[0] {
        a[0] < b[0]
    } else {
        char_seq_lt(a.drop_first(), b.drop_first())
    }
}

pub proof fn lemma_char_seq_lt_total(a: Seq<char>, b: Seq<char>)
    requires
        a != b,
    ensures
        char_seq_lt(a, b) || char_seq_lt(b, a),
    decreases a.len(),
{
    if a.len() > 0 && b.len() > 0 && a[0] == b[0] {
        if a.drop_first() == b.drop_first() {
            assert(a =~= seq![a[0]] + a.drop_first());
            assert(b =~= seq![b[0]] + b.drop_first());
        } else {
            lemma_char_seq_lt_total(a.drop_first(), b.drop_first());
        }
    } else if a.len() > 0 && b.len() > 0 {
        assert(a[0] < b[0] || b[0] < a[0]);
    } else if a.len() == 0 && b.len() == 0 {
        assert(a =~= b);
    }
}

pub proof fn lemma_char_seq_lt_transitive(a: Seq<char>, b: Seq<char>, c: Seq<char>)
    requires
        char_seq_lt(a, b),
        char_seq_lt(b, c),
    ensures
        char_seq_lt(a, c),
    decreases a.len(),
{
    if a.len() > 0 && a[0] == b[0] && b[0] == c[0] {
        lemma_char_seq_lt_transitive(a.drop_first(), b.drop_first(), c.drop_first());
    }
}

/// The characters of `s`, one by one.
fn chars_of(s: &str) -> (r: Vec<char>)
    ensures
        r@ == s@,
{
    let mut out: Vec<char> = Vec::new();
    for c in it: s.chars()
        invariant
            out@ == it.seq().take(it.index() as int),
    {
        out.push(c);
    }
    assert(s@.take(s@.len() as int) =~= s@);
    out
}

/// Whether `a` comes before `b` in `String` order.
pub fn title_lt(a: &str, b: &str) -> (r: bool)
    ensures
        r == char_seq_lt(a@, b@),
{
    let x = chars_of(a);
    let y = chars_of(b);
    let mut i: usize = 0;
    assert(x@.skip(0) =~= x@);
    assert(y@.skip(0) =~= y@);
    while i < x.len() && i < y.len()
        invariant
            x@ == a@,
            y@ == b@,
            i <= x@.len(),
            i <= y@.len(),
            char_seq_lt(a@, b@) == char_seq_lt(x@.skip(i as int), y@.skip(i as int)),
        decreases x@.len() - i,
    {
        assert(x@.skip(i as int)[0] == x@[i as int]);
        assert(y@.skip(i as int)[0] == y@[i as int]);
        if x[i] != y[i] {
            return x[i] < y[i];
        }
        assert(x@.skip(i as int).drop_first() =~= x@.skip(i as int + 1));
        assert(y@.skip(i as int).drop_first() =~= y@.skip(i as int + 1));
        i += 1;
    }
    i == x.len() && i < y.len()
}

/// Lower-cases ASCII letters and turns spaces into `_`.
pub fn normalize_column_name(column: &str) -> (r: String)
    ensures
        r@ == column_name(column@),
{
    let mut out = String::new();
    for c in it: column.chars()
        invariant
            out@ == column_name(it.seq().take(it.index() as int)),
    {
        let n = if c == ' ' {
            '_'
        } else {
            to_ascii_lower(c)
        };
        proof {
            let s = it.seq();
            let i = it.index() as int;
            assert(column_name(s.take(i + 1)) =~= column_name(s.take(i)).push(column_char(s[i])));
        }
        out.push(n);
    }
    assert(column@.take(column@.len() as int) =~= column@);
    out
}

/// The file name stem of `name`, see [`filename_fragment`].
pub fn normalize_filename_fragment(name: &str) -> (r: String)
    ensures
        r@ == filename_fragment(name@),
{
    let mut out = String::new();
    for c in it: name.chars()
        invariant
            out@ == filename_fragment(it.seq().take(it.index() as int)),
    {
        proof {
            let s = it.seq();
            let i = it.index() as int;
            assert(s.take(i + 1).drop_last() =~= s.take(i));
        }
        let keep = ('a' <= c && c <= 'z') || ('A' <= c && c <= 'Z') || ('0' <= c && c <= '9')
            || c == '_' || c == '.';
        if keep {
            out.push(to_ascii_lower(c));
        } else if c == ' ' {
            out.push('_');
        }
        assert(out@ =~= filename_fragment(it.seq().take(it.index() as int + 1)));
    }
    assert(name@.take(name@.len() as int) =~= name@);
    out
}

} // verus!
