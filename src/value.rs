//! Property values: their kinds, their model, and the codec between values
//! and their escaped text.
use vstd::prelude::*;

use crate::escape::{
    escape, escape_all, escape_text, join, join_pieces, lemma_escape_all_no_bare_sep,
    lemma_escape_len, lemma_join_empty, lemma_join_no_bare_sep, lemma_split_join,
    lemma_unescape_all_escape_all, lemma_unescape_escape, split_text, split_unescaped, unescape,
    unescape_all, unescape_text,
};
use crate::datetime::{
    date_and_or_time_text, date_text, date_time_text, is_date, is_date_and_or_time, is_date_time,
    is_timestamp, is_utc_offset, time_from, time_text, timestamp_text, utc_offset_text,
};
use crate::text::{chars_of, string_of, upper, upper_is};

verus! {

/// The kinds of value a property can hold.
#[derive(Clone, Copy, Debug, PartialEq, Eq, Structural)]
pub enum ValueKind {
    Text,
    TextList,
    StructuredText,
    Boolean,
    Uri,
    Date,
    Time,
    DateTime,
    DateAndOrTime,
    Timestamp,
    Integer,
    Float,
    UtcOffset,
    LanguageTag,
}

/// A property value. Kinds whose text needs no unescaping (URIs, dates and
/// times, numbers, offsets, language tags) keep the text as written, so a
/// date keeps exactly the parts it was written with.
#[derive(Clone, Debug, PartialEq)]
pub enum ValueType {
    Text(String),
    TextList(Vec<String>),
    StructuredText(Vec<Vec<String>>),
    Boolean(bool),
    Verbatim(ValueKind, String),
}

/// What a [`ValueType`] holds, as sequences of characters.
pub enum ValueModel {
    Text(Seq<char>),
    TextList(Seq<Seq<char>>),
    StructuredText(Seq<Seq<Seq<char>>>),
    Boolean(bool),
    Verbatim(ValueKind, Seq<char>),
}

/// The characters of each string.
pub open spec fn strs(v: Seq<String>) -> Seq<Seq<char>> {
    v.map_values(|s: String| s@)
}

/// The characters of each string of each list.
pub open spec fn str_lists(v: Seq<Vec<String>>) -> Seq<Seq<Seq<char>>> {
    v.map_values(|l: Vec<String>| strs(l@))
}

impl View for ValueType {
    type V = ValueModel;

    open spec fn view(&self) -> ValueModel {
        match self {
            ValueType::Text(t) => ValueModel::Text(t@),
            ValueType::TextList(l) => ValueModel::TextList(strs(l@)),
            ValueType::StructuredText(c) => ValueModel::StructuredText(str_lists(c@)),
            ValueType::Boolean(b) => ValueModel::Boolean(*b),
            ValueType::Verbatim(k, t) => ValueModel::Verbatim(*k, t@),
        }
    }
}

/// The items of a comma-separated list; the empty text is the empty list.
pub open spec fn decode_list(s: Seq<char>) -> Seq<Seq<char>> {
    if s.len() == 0 {
        Seq::empty()
    } else {
        unescape_all(split_unescaped(s, ','))
    }
}

/// The components of a structured value, each a comma-separated list.
pub open spec fn decode_components(s: Seq<char>) -> Seq<Seq<Seq<char>>> {
    split_unescaped(s, ';').map_values(|c: Seq<char>| decode_list(c))
}

/// Whether `s` is one or more decimal digits.
pub open spec fn all_digits(s: Seq<char>) -> bool {
    s.len() >= 1 && forall|i: int| 0 <= i < s.len() ==> '0' <= #[trigger] s[i] && s[i] <= '9'
}

/// `s` without the sign that may start it.
pub open spec fn unsigned(s: Seq<char>) -> Seq<char> {
    if s.len() > 0 && (s[0] == '+' || s[0] == '-') {
        s.skip(1)
    } else {
        s
    }
}

/// The index of the first `.` in `s` at or after `i`, or -1.
pub open spec fn first_dot(s: Seq<char>, i: int) -> int
    decreases s.len() - i,
{
    if i < 0 || i >= s.len() {
        -1
    } else if s[i] == '.' {
        i
    } else {
        first_dot(s, i + 1)
    }
}

/// Whether `s` is a number: an optional sign and digits, and where `float`
/// holds, optionally a dot and more digits.
pub open spec fn number_ok(s: Seq<char>, float: bool) -> bool {
    let d = unsigned(s);
    let k = first_dot(d, 0);
    if float && k >= 0 {
        all_digits(d.take(k)) && all_digits(d.skip(k + 1))
    } else {
        all_digits(d)
    }
}

/// Whether `s` is one well-formed item of a value of `kind`.
pub open spec fn item_ok(kind: ValueKind, s: Seq<char>) -> bool {
    match kind {
        ValueKind::Integer => number_ok(s, false),
        ValueKind::Float => number_ok(s, true),
        ValueKind::Date => is_date(s),
        ValueKind::Time => time_from(s, 0),
        ValueKind::DateTime => is_date_time(s),
        ValueKind::DateAndOrTime => is_date_and_or_time(s),
        ValueKind::Timestamp => is_timestamp(s),
        _ => true,
    }
}

/// Whether each comma-separated item of `s` is well formed for `kind`.
pub open spec fn items_ok(kind: ValueKind, s: Seq<char>) -> bool {
    forall|i: int|
        0 <= i < split_unescaped(s, ',').len() ==> item_ok(
            kind,
            #[trigger] split_unescaped(s, ',')[i],
        )
}

/// Whether `s` is well formed for a kind whose text is kept as written:
/// numbers, dates and times are comma-separated lists of well-formed items,
/// a UTC offset is one offset. URIs and language tags are not checked.
pub open spec fn verbatim_ok(kind: ValueKind, s: Seq<char>) -> bool {
    match kind {
        ValueKind::UtcOffset => is_utc_offset(s),
        ValueKind::Uri | ValueKind::LanguageTag => true,
        _ => items_ok(kind, s),
    }
}

/// The value that the text `s` stands for under `kind`, or `None` where `s`
/// does not fit the kind.
pub open spec fn decode_spec(kind: ValueKind, s: Seq<char>) -> Option<ValueModel> {
    match kind {
        ValueKind::Text => Some(ValueModel::Text(unescape(s))),
        ValueKind::TextList => Some(ValueModel::TextList(decode_list(s))),
        ValueKind::StructuredText => Some(ValueModel::StructuredText(decode_components(s))),
        ValueKind::Boolean => if upper(s) == "TRUE"@ {
            Some(ValueModel::Boolean(true))
        } else if upper(s) == "FALSE"@ {
            Some(ValueModel::Boolean(false))
        } else {
            None
        },
        _ => if verbatim_ok(kind, s) {
            Some(ValueModel::Verbatim(kind, s))
        } else {
            None
        },
    }
}

/// The text of a list: its items escaped and joined by commas.
pub open spec fn encode_list(l: Seq<Seq<char>>) -> Seq<char> {
    join(escape_all(l), ',')
}

/// The text of a value.
pub open spec fn encode_spec(v: ValueModel) -> Seq<char> {
    match v {
        ValueModel::Text(t) => escape(t),
        ValueModel::TextList(l) => encode_list(l),
        ValueModel::StructuredText(c) => join(
            c.map_values(|x: Seq<Seq<char>>| encode_list(x)),
            ';',
        ),
        ValueModel::Boolean(b) => if b {
            "TRUE"@
        } else {
            "FALSE"@
        },
        ValueModel::Verbatim(_, t) => t,
    }
}

/// The kind of a value.
pub open spec fn kind_of(v: ValueModel) -> ValueKind {
    match v {
        ValueModel::Text(_) => ValueKind::Text,
        ValueModel::TextList(_) => ValueKind::TextList,
        ValueModel::StructuredText(_) => ValueKind::StructuredText,
        ValueModel::Boolean(_) => ValueKind::Boolean,
        ValueModel::Verbatim(k, _) => k,
    }
}

/// A list that holds one empty item; its text is that of the empty list.
pub open spec fn single_empty(l: Seq<Seq<char>>) -> bool {
    l.len() == 1 && l[0].len() == 0
}

/// A value that its text stands for: no list of one empty item, a structured
/// value with at least one component, and a verbatim value of a kind that is
/// kept verbatim, numbers where the kind asks for them.
pub open spec fn value_wf(v: ValueModel) -> bool {
    match v {
        ValueModel::TextList(l) => !single_empty(l),
        ValueModel::StructuredText(c) => c.len() >= 1 && forall|i: int|
            0 <= i < c.len() ==> !single_empty(#[trigger] c[i]),
        ValueModel::Verbatim(k, t) => !(k is Text || k is TextList || k is StructuredText
            || k is Boolean) && verbatim_ok(k, t),
        _ => true,
    }
}

pub(crate) proof fn lemma_list_round_trip(l: Seq<Seq<char>>)
    requires
        !single_empty(l),
    ensures
        decode_list(encode_list(l)) == l,
{
    let e = escape_all(l);
    if l.len() == 0 {
        assert(e =~= Seq::<Seq<char>>::empty());
        assert(decode_list(encode_list(l)) =~= l);
    } else {
        if encode_list(l).len() == 0 {
            lemma_join_empty(e, ',');
            lemma_escape_len(l[0]);
        }
        lemma_escape_all_no_bare_sep(l, ',');
        lemma_split_join(e, ',');
        lemma_unescape_all_escape_all(l);
    }
}

/// Decoding the text of a value under the value's kind gives the value back.
pub proof fn lemma_decode_encode(v: ValueModel)
    requires
        value_wf(v),
    ensures
        decode_spec(kind_of(v), encode_spec(v)) == Some(v),
{
    match v {
        ValueModel::Text(t) => {
            lemma_unescape_escape(t);
        },
        ValueModel::TextList(l) => {
            lemma_list_round_trip(l);
        },
        ValueModel::StructuredText(c) => {
            let e = c.map_values(|x: Seq<Seq<char>>| encode_list(x));
            assert forall|i: int| 0 <= i < e.len() implies crate::escape::no_bare_sep(
                #[trigger] e[i],
                ';',
            ) by {
                lemma_escape_all_no_bare_sep(c[i], ';');
                lemma_join_no_bare_sep(escape_all(c[i]), ',', ';');
            }
            lemma_split_join(e, ';');
            assert forall|i: int| 0 <= i < c.len() implies decode_list(e[i]) == c[i] by {
                lemma_list_round_trip(c[i]);
            }
            assert(decode_components(encode_spec(v)) =~= c);
        },
        ValueModel::Boolean(b) => {
            reveal_strlit("TRUE");
            reveal_strlit("FALSE");
            assert(upper("TRUE"@) =~= "TRUE"@);
            assert(upper("FALSE"@) =~= "FALSE"@);
        },
        ValueModel::Verbatim(k, t) => {},
    }
}


/// The strings made of each piece, unescaped.
fn unescape_pieces(pieces: &Vec<Vec<char>>) -> (r: Vec<String>)
    ensures
        strs(r@) == unescape_all(pieces@.map_values(|p: Vec<char>| p@)),
{
    let ghost v = pieces@.map_values(|p: Vec<char>| p@);
    let mut r: Vec<String> = Vec::new();
    let mut i: usize = 0;
    while i < pieces.len()
        invariant
            i <= pieces@.len(),
            v == pieces@.map_values(|p: Vec<char>| p@),
            r@.len() == i,
            strs(r@) == unescape_all(v.take(i as int)),
        decreases pieces@.len() - i,
    {
        let u = unescape_text(&pieces[i]);
        let ghost before = strs(r@);
        r.push(string_of(&u));
        assert forall|j: int| 0 <= j <= i implies #[trigger] strs(r@)[j] == unescape_all(
            v.take(i + 1),
        )[j] by {
            if j < i {
                assert(before[j] == unescape_all(v.take(i as int))[j]);
            }
        }
        assert(strs(r@) =~= unescape_all(v.take(i + 1)));
        i += 1;
    }
    assert(v.take(i as int) =~= v);
    r
}

/// The items of a comma-separated list (see [`decode_list`]).
pub fn decode_text_list(s: &Vec<char>) -> (r: Vec<String>)
    ensures
        strs(r@) == decode_list(s@),
{
    if s.len() == 0 {
        let r: Vec<String> = Vec::new();
        assert(strs(r@) =~= Seq::<Seq<char>>::empty());
        return r;
    }
    let pieces = split_text(s, ',');
    unescape_pieces(&pieces)
}

/// The components of a structured value (see [`decode_components`]).
pub fn decode_structured(s: &Vec<char>) -> (r: Vec<Vec<String>>)
    ensures
        str_lists(r@) == decode_components(s@),
{
    let pieces = split_text(s, ';');
    let ghost v = pieces@.map_values(|p: Vec<char>| p@);
    let mut r: Vec<Vec<String>> = Vec::new();
    let mut i: usize = 0;
    while i < pieces.len()
        invariant
            i <= pieces@.len(),
            v == pieces@.map_values(|p: Vec<char>| p@),
            v == split_unescaped(s@, ';'),
            r@.len() == i,
            str_lists(r@) == v.take(i as int).map_values(|c: Seq<char>| decode_list(c)),
        decreases pieces@.len() - i,
    {
        let l = decode_text_list(&pieces[i]);
        let ghost before = str_lists(r@);
        r.push(l);
        assert forall|j: int| 0 <= j <= i implies #[trigger] str_lists(r@)[j] == v.take(
            i + 1,
        ).map_values(|c: Seq<char>| decode_list(c))[j] by {
            if j < i {
                assert(before[j] == v.take(i as int).map_values(|c: Seq<char>| decode_list(c))[j]);
            }
        }
        assert(str_lists(r@) =~= v.take(i + 1).map_values(|c: Seq<char>| decode_list(c)));
        i += 1;
    }
    assert(v.take(i as int) =~= v);
    r
}

/// Whether the characters of `s` from `a` up to `b` are one or more digits.
fn digits_between(s: &Vec<char>, a: usize, b: usize) -> (r: bool)
    requires
        a <= b <= s@.len(),
    ensures
        r == all_digits(s@.subrange(a as int, b as int)),
{
    if a == b {
        return false;
    }
    let mut i: usize = a;
    while i < b
        invariant
            a <= i <= b,
            b <= s@.len(),
            forall|j: int| a <= j < i ==> '0' <= #[trigger] s@[j] && s@[j] <= '9',
        decreases b - i,
    {
        if !('0' <= s[i] && s[i] <= '9') {
            assert(s@.subrange(a as int, b as int)[i - a] == s@[i as int]);
            return false;
        }
        i += 1;
    }
    assert forall|j: int| 0 <= j < b - a implies '0' <= #[trigger] s@.subrange(
        a as int,
        b as int,
    )[j] && s@.subrange(a as int, b as int)[j] <= '9' by {
        assert(s@.subrange(a as int, b as int)[j] == s@[a + j]);
    }
    true
}

/// Whether `s` is a number (see [`number_ok`]).
fn number_text(s: &Vec<char>, float: bool) -> (r: bool)
    ensures
        r == number_ok(s@, float),
{
    let n = s.len();
    let a: usize = if n > 0 && (s[0] == '+' || s[0] == '-') {
        1
    } else {
        0
    };
    let ghost d = unsigned(s@);
    assert(d =~= s@.subrange(a as int, n as int));
    let mut k: usize = a;
    while k < n
        invariant
            a <= k <= n,
            n == s@.len(),
            d == s@.subrange(a as int, n as int),
            first_dot(d, 0) == first_dot(d, k - a),
        ensures
            a <= k <= n,
            first_dot(d, 0) == first_dot(d, k - a),
            k < n ==> s@[k as int] == '.',
        decreases n - k,
    {
        if s[k] == '.' {
            break;
        }
        k += 1;
    }
    if float && k < n && s[k] == '.' {
        assert(first_dot(d, 0) == k - a);
        assert(d.take(k - a) =~= s@.subrange(a as int, k as int));
        assert(d.skip(k - a + 1) =~= s@.subrange(k + 1, n as int));
        digits_between(s, a, k) && digits_between(s, k + 1, n)
    } else {
        if k == n {
            assert(first_dot(d, 0) == -1);
        } else {
            assert(d[k - a] == '.');
        }
        assert(s@.subrange(a as int, n as int) == d);
        digits_between(s, a, n)
    }
}

/// Whether `s` is one well-formed item of `kind` (see [`item_ok`]).
fn item_text(kind: ValueKind, s: &Vec<char>) -> (r: bool)
    ensures
        r == item_ok(kind, s@),
{
    match kind {
        ValueKind::Integer => number_text(s, false),
        ValueKind::Float => number_text(s, true),
        ValueKind::Date => date_text(s),
        ValueKind::Time => time_text(s),
        ValueKind::DateTime => date_time_text(s),
        ValueKind::DateAndOrTime => date_and_or_time_text(s),
        ValueKind::Timestamp => timestamp_text(s),
        _ => true,
    }
}

/// Whether each comma-separated item of `s` is well formed for `kind` (see
/// [`items_ok`]).
fn items_text(kind: ValueKind, s: &Vec<char>) -> (r: bool)
    ensures
        r == items_ok(kind, s@),
{
    let pieces = split_text(s, ',');
    let ghost v = pieces@.map_values(|p: Vec<char>| p@);
    let mut i: usize = 0;
    while i < pieces.len()
        invariant
            i <= pieces@.len(),
            v == pieces@.map_values(|p: Vec<char>| p@),
            v == split_unescaped(s@, ','),
            forall|j: int| 0 <= j < i ==> item_ok(kind, #[trigger] v[j]),
        decreases pieces@.len() - i,
    {
        if !item_text(kind, &pieces[i]) {
            assert(!item_ok(kind, v[i as int]));
            return false;
        }
        i += 1;
    }
    true
}

/// Whether `s` is well formed for `kind` (see [`verbatim_ok`]).
fn verbatim_text(kind: ValueKind, s: &Vec<char>) -> (r: bool)
    ensures
        r == verbatim_ok(kind, s@),
{
    match kind {
        ValueKind::UtcOffset => utc_offset_text(s),
        ValueKind::Uri | ValueKind::LanguageTag => true,
        _ => items_text(kind, s),
    }
}

/// Decodes the text `raw` as a value of `kind`; `None` where the text does
/// not fit the kind.
pub fn decode_value(kind: ValueKind, raw: &Vec<char>) -> (r: Option<ValueType>)
    ensures
        match r {
            Some(v) => decode_spec(kind, raw@) == Some(v@),
            None => decode_spec(kind, raw@) is None,
        },
{
    match kind {
        ValueKind::Text => Some(ValueType::Text(string_of(&unescape_text(raw)))),
        ValueKind::TextList => Some(ValueType::TextList(decode_text_list(raw))),
        ValueKind::StructuredText => Some(ValueType::StructuredText(decode_structured(raw))),
        ValueKind::Boolean => {
            if upper_is(raw, "TRUE") {
                Some(ValueType::Boolean(true))
            } else if upper_is(raw, "FALSE") {
                Some(ValueType::Boolean(false))
            } else {
                None
            }
        },
        _ => if verbatim_text(kind, raw) {
            Some(ValueType::Verbatim(kind, string_of(raw)))
        } else {
            None
        },
    }
}

/// The text of a list of strings (see [`encode_list`]).
pub fn encode_text_list(l: &Vec<String>) -> (r: Vec<char>)
    ensures
        r@ == encode_list(strs(l@)),
{
    let mut pieces: Vec<Vec<char>> = Vec::new();
    let mut i: usize = 0;
    while i < l.len()
        invariant
            i <= l@.len(),
            pieces@.len() == i,
            pieces@.map_values(|p: Vec<char>| p@) == escape_all(strs(l@.take(i as int))),
        decreases l@.len() - i,
    {
        let c = chars_of(l[i].as_str());
        let ghost before = pieces@.map_values(|p: Vec<char>| p@);
        pieces.push(escape_text(&c));
        assert forall|j: int| 0 <= j <= i implies (#[trigger] pieces@[j])@ == escape_all(
            strs(l@.take(i + 1)),
        )[j] by {
            if j < i {
                assert(before[j] == escape_all(strs(l@.take(i as int)))[j]);
            }
        }
        assert(pieces@.map_values(|p: Vec<char>| p@) =~= escape_all(strs(l@.take(i + 1))));
        i += 1;
    }
    assert(l@.take(i as int) =~= l@);
    join_pieces(&pieces, ',')
}

/// The text of a value (see [`encode_spec`]).
pub fn encode_value(v: &ValueType) -> (r: Vec<char>)
    ensures
        r@ == encode_spec(v@),
{
    match v {
        ValueType::Text(t) => escape_text(&chars_of(t.as_str())),
        ValueType::TextList(l) => encode_text_list(l),
        ValueType::StructuredText(c) => {
            let mut pieces: Vec<Vec<char>> = Vec::new();
            let mut i: usize = 0;
            while i < c.len()
                invariant
                    i <= c@.len(),
                    pieces@.len() == i,
                    pieces@.map_values(|p: Vec<char>| p@) == str_lists(c@.take(i as int)).map_values(
                        |x: Seq<Seq<char>>| encode_list(x),
                    ),
                decreases c@.len() - i,
            {
                let ghost before = pieces@.map_values(|p: Vec<char>| p@);
                pieces.push(encode_text_list(&c[i]));
                assert forall|j: int| 0 <= j <= i implies (#[trigger] pieces@[j])@ == str_lists(c@.take(i + 1)).map_values(
                    |x: Seq<Seq<char>>| encode_list(x),
                )[j] by {
                    if j < i {
                        assert(before[j] == str_lists(c@.take(i as int)).map_values(
                            |x: Seq<Seq<char>>| encode_list(x),
                        )[j]);
                    }
                }
                assert(pieces@.map_values(|p: Vec<char>| p@) =~= str_lists(
                    c@.take(i + 1),
                ).map_values(|x: Seq<Seq<char>>| encode_list(x)));
                i += 1;
            }
            assert(c@.take(i as int) =~= c@);
            join_pieces(&pieces, ';')
        },
        ValueType::Boolean(b) => if *b {
            chars_of("TRUE")
        } else {
            chars_of("FALSE")
        },
        ValueType::Verbatim(_, t) => chars_of(t.as_str()),
    }
}

} // verus!
